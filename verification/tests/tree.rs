use rofi_bookmarks::emit::{render_item, render_items, Title};
use rofi_bookmarks::document;
use rofi_bookmarks::model::{BookmarkGroup, BookmarkGroupItem, BookmarkItem, Bookmarks};
use rofi_bookmarks::resolve::{resolve, Outcome};

fn leaf(key: &str, title: Option<&str>, url: &str, keywords: &[&str]) -> (String, document::BookmarkItem) {
    (
        key.to_string(),
        document::BookmarkItem::Item(document::BookmarkMeta {
            title: title.map(|t| t.to_string()),
            url: url.to_string(),
            keywords: keywords.iter().map(|k| k.to_string()).collect(),
        }),
    )
}

fn group(key: &str, title: Option<&str>, items: Vec<(String, document::BookmarkItem)>) -> (String, document::BookmarkItem) {
    (
        key.to_string(),
        document::BookmarkItem::Group(document::BookmarkGroup {
            title: title.map(|t| t.to_string()),
            items,
        }),
    )
}

fn sample() -> Bookmarks {
    Bookmarks::from(document::BookmarksFile(vec![
        leaf("search", Some("Search Engine"), "https://s.example", &["find", "web"]),
        group(
            "dev",
            None,
            vec![
                leaf("docs", None, "https://docs.example", &[]),
                group(
                    "tools",
                    Some("Tooling"),
                    vec![leaf("ci", None, "https://ci.example", &["build"])],
                ),
                leaf("late", None, "https://late.example", &[]),
            ],
        ),
        leaf("docs", None, "https://other.example", &[]),
        leaf("late", Some("Search Engine"), "https://shadowed.example", &[]),
    ]))
}

fn titles(items: &[BookmarkGroupItem]) -> Vec<String> {
    items
        .iter()
        .map(|i| match i {
            BookmarkGroupItem::Item(BookmarkItem { title, .. }) => title.clone(),
            BookmarkGroupItem::Group(BookmarkGroup { title, .. }) => title.clone(),
        })
        .collect()
}

fn opened(b: &Bookmarks, selector: &str) -> Option<String> {
    match resolve(&b.items, &selector.to_string()) {
        Outcome::OpenUrl(url) => Some(url.clone()),
        _ => None,
    }
}

fn shown(b: &Bookmarks, selector: &str) -> Option<(String, Vec<String>)> {
    match resolve(&b.items, &selector.to_string()) {
        Outcome::ShowGroup(title, children) => Some((title.clone(), titles(children))),
        _ => None,
    }
}

#[test]
fn top_level_follows_key_order_with_overrides() {
    let b = sample();
    assert_eq!(titles(&b.items), vec!["Search Engine", "dev", "docs", "Search Engine"]);
    assert_eq!(
        render_items(Title::Untitled, &b.items),
        "Search Engine\x00meta\x1ffind,web,\x1f\n\
         dev\x00icon\x1ffolder\n\
         docs\x00meta\x1f\x1f\n\
         Search Engine\x00meta\x1f\x1f\n"
    );
}

#[test]
fn conversion_keeps_urls_keywords_and_nesting() {
    let b = sample();
    match &b.items[0] {
        BookmarkGroupItem::Item(i) => {
            assert_eq!(i.title, "Search Engine");
            assert_eq!(i.url, "https://s.example");
            assert_eq!(i.keywords, vec!["find".to_string(), "web".to_string()]);
        }
        BookmarkGroupItem::Group(_) => panic!("expected a leaf"),
    }
    match &b.items[1] {
        BookmarkGroupItem::Group(g) => {
            assert_eq!(g.title, "dev");
            assert_eq!(titles(&g.children), vec!["docs", "Tooling", "late"]);
            match &g.children[1] {
                BookmarkGroupItem::Group(inner) => {
                    assert_eq!(titles(&inner.children), vec!["ci"]);
                }
                BookmarkGroupItem::Item(_) => panic!("expected a group"),
            }
        }
        BookmarkGroupItem::Item(_) => panic!("expected a group"),
    }
    let empty = Bookmarks::from(document::BookmarksFile(Vec::new()));
    assert!(empty.items.is_empty());
}

#[test]
fn from_item_and_from_map_build_nodes() {
    let (key, item) = leaf("k", None, "u", &["x"]);
    match document::from_item(&key, &item) {
        BookmarkGroupItem::Item(i) => {
            assert_eq!((i.title.as_str(), i.url.as_str()), ("k", "u"));
            assert_eq!(i.keywords, vec!["x".to_string()]);
        }
        BookmarkGroupItem::Group(_) => panic!("expected a leaf"),
    }
    let (key, item) = group("g", Some("G"), vec![leaf("a", None, "u", &[])]);
    match document::from_item(&key, &item) {
        BookmarkGroupItem::Group(g) => {
            assert_eq!(g.title, "G");
            assert_eq!(titles(&g.children), vec!["a"]);
        }
        BookmarkGroupItem::Item(_) => panic!("expected a group"),
    }
    let built = document::from_map(&vec![leaf("b", None, "u", &[]), leaf("a", None, "v", &[])]);
    assert_eq!(titles(&built), vec!["b", "a"]);
}

#[test]
fn selecting_a_top_level_leaf_opens_its_url() {
    let b = sample();
    assert_eq!(opened(&b, "Search Engine"), Some("https://s.example".to_string()));
    assert_eq!(resolve(&b.items, &"Search Engine".to_string()).exit_code(), 0);
}

#[test]
fn selecting_a_group_shows_its_direct_children_only() {
    let b = sample();
    assert_eq!(
        shown(&b, "dev"),
        Some(("dev".to_string(), vec!["docs".to_string(), "Tooling".to_string(), "late".to_string()]))
    );
    assert_eq!(
        shown(&b, "Tooling"),
        Some(("Tooling".to_string(), vec!["ci".to_string()]))
    );
    assert_eq!(resolve(&b.items, &"dev".to_string()).exit_code(), 0);
}

#[test]
fn selecting_an_unknown_title_fails_with_exit_code_one() {
    let b = sample();
    for selector in ["nowhere", "search", "tools", "", "Dev"] {
        let out = resolve(&b.items, &selector.to_string());
        assert!(matches!(out, Outcome::NotFound));
        assert_eq!(out.exit_code(), 1);
    }
    let empty: Vec<BookmarkGroupItem> = Vec::new();
    assert!(matches!(resolve(&empty, &"x".to_string()), Outcome::NotFound));
}

#[test]
fn a_nested_match_comes_before_a_later_sibling() {
    let b = sample();
    assert_eq!(opened(&b, "docs"), Some("https://docs.example".to_string()));
    assert_eq!(opened(&b, "late"), Some("https://late.example".to_string()));
    assert_eq!(opened(&b, "ci"), Some("https://ci.example".to_string()));
}

#[test]
fn the_first_of_equal_siblings_wins() {
    let b = Bookmarks::from(document::BookmarksFile(vec![
        leaf("a", Some("same"), "https://first.example", &[]),
        group("b", Some("same"), vec![]),
        leaf("c", Some("same"), "https://third.example", &[]),
    ]));
    assert_eq!(opened(&b, "same"), Some("https://first.example".to_string()));
    let b = Bookmarks::from(document::BookmarksFile(vec![
        group("b", Some("same"), vec![leaf("same", None, "https://inner.example", &[])]),
        leaf("a", Some("same"), "https://first.example", &[]),
    ]));
    assert_eq!(shown(&b, "same"), Some(("same".to_string(), vec!["same".to_string()])));
}

#[test]
fn every_listed_title_can_be_selected_in_turn() {
    let b = sample();
    let mut pending = vec![titles(&b.items)];
    let mut visited = 0;
    while let Some(listed) = pending.pop() {
        for title in listed {
            visited += 1;
            match resolve(&b.items, &title) {
                Outcome::NotFound => panic!("listed title {} was not found", title),
                Outcome::OpenUrl(_) => {}
                Outcome::ShowGroup(shown_title, children) => {
                    assert_eq!(*shown_title, title);
                    pending.push(titles(children));
                }
            }
        }
    }
    assert_eq!(visited, 8);
}

#[test]
fn a_group_menu_has_the_group_title_as_header() {
    let b = sample();
    match resolve(&b.items, &"dev".to_string()) {
        Outcome::ShowGroup(title, children) => {
            assert_eq!(
                render_items(Title::Title(title.as_str()), children),
                "\x00message\x1fdev\n\
                 docs\x00meta\x1f\x1f\n\
                 Tooling\x00icon\x1ffolder\n\
                 late\x00meta\x1f\x1f\n"
            );
        }
        _ => panic!("expected a group"),
    }
}

#[test]
fn lines_are_tagged_byte_for_byte() {
    let item = BookmarkGroupItem::Item(BookmarkItem {
        title: "T".to_string(),
        url: "https://t.example".to_string(),
        keywords: vec!["one".to_string(), "two words".to_string(), "".to_string()],
    });
    assert_eq!(
        render_item(&item).as_bytes(),
        b"T\x00meta\x1fone,two words,,\x1f\n"
    );
    let folder = BookmarkGroupItem::Group(BookmarkGroup {
        title: "F".to_string(),
        children: vec![item],
    });
    assert_eq!(render_item(&folder).as_bytes(), b"F\x00icon\x1ffolder\n");
    assert_eq!(render_items(Title::Untitled, &Vec::new()), "");
    assert_eq!(
        render_items(Title::Title(""), &Vec::new()).as_bytes(),
        b"\x00message\x1f\n"
    );
}

#[test]
fn deep_nesting_is_scanned_without_recursion_limits() {
    let mut entry = leaf("bottom", None, "https://deep.example", &[]);
    for level in 0..2000 {
        let key = format!("level{}", level);
        entry = group(&key, None, vec![entry]);
    }
    let b = Bookmarks { items: vec![BookmarkGroupItem::Item(BookmarkItem {
        title: "unused".to_string(),
        url: "u".to_string(),
        keywords: vec![],
    })] };
    assert!(matches!(resolve(&b.items, &"bottom".to_string()), Outcome::NotFound));
    let mut node = BookmarkGroupItem::Item(BookmarkItem {
        title: "bottom".to_string(),
        url: "https://deep.example".to_string(),
        keywords: vec![],
    });
    for level in 0..2000 {
        node = BookmarkGroupItem::Group(BookmarkGroup {
            title: format!("level{}", level),
            children: vec![node],
        });
    }
    let items = vec![node];
    assert_eq!(
        match resolve(&items, &"bottom".to_string()) {
            Outcome::OpenUrl(url) => url.clone(),
            _ => String::new(),
        },
        "https://deep.example"
    );
    let _ = entry;
}
