use rofi_bookmarks::decode::{decode, entries_of, entry_of, find_field, leaf_of, parse};
use rofi_bookmarks::document;
use rofi_bookmarks::emit::{render_items, Title};
use rofi_bookmarks::error::ParseError;
use rofi_bookmarks::model::{BookmarkGroupItem, Bookmarks};
use rofi_bookmarks::resolve::{resolve, Outcome};
use rofi_bookmarks::value::Element;

const SAMPLE: &str = "
[zeta]
url = \"https://z.example\"
keywords = [\"last\", \"letter\"]

[alpha]
title = \"Alpha Group\"

[alpha.inner]
title = \"Inner\"
url = \"https://inner.example\"

[alpha.deeper.leaf]
url = \"https://leaf.example\"

[middle]
title = \"Middle\"
url = \"https://m.example\"
";

fn text(s: &str) -> Element {
    Element::Text(s.to_string())
}

fn table(entries: Vec<(&str, Element)>) -> Element {
    Element::Table(entries.into_iter().map(|(k, v)| (k.to_string(), v)).collect())
}

fn titles(items: &[BookmarkGroupItem]) -> Vec<String> {
    items
        .iter()
        .map(|i| match i {
            BookmarkGroupItem::Item(item) => item.title.clone(),
            BookmarkGroupItem::Group(group) => group.title.clone(),
        })
        .collect()
}

fn schema_error(r: Result<Bookmarks, ParseError>) -> Vec<String> {
    match r {
        Err(ParseError::Schema(path)) => path,
        Err(e) => panic!("unexpected error {:?}", e),
        Ok(_) => panic!("expected an error"),
    }
}

fn path(keys: &[&str]) -> Vec<String> {
    keys.iter().map(|k| k.to_string()).collect()
}

#[test]
fn toml_top_level_follows_key_order_with_overrides() {
    let b = parse(SAMPLE).unwrap();
    assert_eq!(titles(&b.items), vec!["zeta", "Alpha Group", "Middle"]);
    assert_eq!(
        render_items(Title::Untitled, &b.items),
        "zeta\x00meta\x1flast,letter,\x1f\nAlpha Group\x00icon\x1ffolder\nMiddle\x00meta\x1f\x1f\n"
    );
}

#[test]
fn toml_groups_nest_in_declared_order() {
    let b = parse(SAMPLE).unwrap();
    match resolve(&b.items, &"Alpha Group".to_string()) {
        Outcome::ShowGroup(title, children) => {
            assert_eq!(title, "Alpha Group");
            assert_eq!(titles(children), vec!["Inner", "deeper"]);
        }
        _ => panic!("expected a group"),
    }
    match resolve(&b.items, &"leaf".to_string()) {
        Outcome::OpenUrl(url) => assert_eq!(url, "https://leaf.example"),
        _ => panic!("expected a leaf"),
    }
    assert!(matches!(resolve(&b.items, &"alpha".to_string()), Outcome::NotFound));
}

#[test]
fn toml_syntax_errors_are_reported() {
    assert!(matches!(parse("[unclosed"), Err(ParseError::Syntax)));
    assert!(matches!(parse("a = "), Err(ParseError::Syntax)));
    assert!(parse("").unwrap().items.is_empty());
}

#[test]
fn leaf_without_url_is_rejected_with_its_key_path() {
    assert_eq!(schema_error(parse("[a]\nurl = \"\"\n")), path(&["a", "url"]));
    assert_eq!(schema_error(parse("[a]\nurl = 3\n")), path(&["a", "url"]));
    assert_eq!(
        schema_error(parse("[g.ok]\nurl = \"u\"\n[g.h.bad]\nurl = []\n")),
        path(&["g", "h", "bad", "url"])
    );
}

#[test]
fn wrong_value_kinds_are_rejected_with_their_key_path() {
    assert_eq!(schema_error(parse("a = \"text\"\n")), path(&["a"]));
    assert_eq!(schema_error(parse("[g]\nx = 1\n")), path(&["g", "x"]));
    assert_eq!(schema_error(parse("[g]\ntitle = 1\n")), path(&["g", "title"]));
    assert_eq!(
        schema_error(parse("[a]\nurl = \"u\"\ntitle = [\"t\"]\n")),
        path(&["a", "title"])
    );
    assert_eq!(
        schema_error(parse("[a]\nurl = \"u\"\nkeywords = [\"k\", 2]\n")),
        path(&["a", "keywords"])
    );
    assert_eq!(
        schema_error(parse("[a]\nurl = \"u\"\nkeywords = \"k\"\n")),
        path(&["a", "keywords"])
    );
    assert_eq!(schema_error(parse("title = \"root\"\n")), path(&["title"]));
    assert_eq!(
        schema_error(parse("[ok]\nurl = \"u\"\n[first]\n[first.x]\nurl = \"\"\n[second]\nurl = 1\n")),
        path(&["first", "x", "url"])
    );
}

#[test]
fn leaf_ignores_unknown_fields_and_group_skips_its_title() {
    let b = parse("[a]\nurl = \"u\"\nnote = 7\n[g]\ntitle = \"G\"\n[g.title2]\nurl = \"v\"\n").unwrap();
    assert_eq!(titles(&b.items), vec!["a", "G"]);
    match &b.items[1] {
        BookmarkGroupItem::Group(g) => assert_eq!(titles(&g.children), vec!["title2"]),
        BookmarkGroupItem::Item(_) => panic!("expected a group"),
    }
    let empty_group = parse("[g]\n").unwrap();
    match &empty_group.items[0] {
        BookmarkGroupItem::Group(g) => {
            assert_eq!(g.title, "g");
            assert!(g.children.is_empty());
        }
        BookmarkGroupItem::Item(_) => panic!("expected a group"),
    }
}

#[test]
fn every_decoded_url_is_non_empty() {
    let b = parse(SAMPLE).unwrap();
    let mut pending: Vec<&BookmarkGroupItem> = b.items.iter().collect();
    let mut leaves = 0;
    while let Some(item) = pending.pop() {
        match item {
            BookmarkGroupItem::Item(i) => {
                leaves += 1;
                assert!(!i.url.is_empty());
            }
            BookmarkGroupItem::Group(g) => pending.extend(g.children.iter()),
        }
    }
    assert_eq!(leaves, 4);
}

#[test]
fn values_decode_without_a_text() {
    let root = table(vec![
        ("b", table(vec![("url", text("u")), ("keywords", Element::List(vec![text("k")]))])),
        ("a", table(vec![("title", text("A")), ("c", table(vec![("url", text("v"))]))])),
    ]);
    let b = decode(&root).unwrap();
    assert_eq!(titles(&b.items), vec!["b", "A"]);
    assert_eq!(schema_error(decode(&text("x"))), path(&[]));
    assert_eq!(schema_error(decode(&Element::Other)), path(&[]));
    assert_eq!(
        schema_error(decode(&table(vec![("k", Element::List(vec![]))]))),
        path(&["k"])
    );
}

#[test]
fn entries_and_fields_are_read_in_order() {
    let entries = vec![
        ("title".to_string(), text("T")),
        ("x".to_string(), table(vec![("url", text("u"))])),
        ("title".to_string(), text("second")),
    ];
    assert!(matches!(find_field(&entries, "title"), Some(Element::Text(t)) if t == "T"));
    assert!(find_field(&entries, "url").is_none());
    assert_eq!(titles(&entries_of(&entries, true).unwrap()), vec!["x"]);
    assert_eq!(entries_of(&entries, false).err(), Some(path(&["title"])));
    let key = "k".to_string();
    let leaf = vec![("url".to_string(), text("u")), ("title".to_string(), text("L"))];
    let item = leaf_of(&key, &leaf).ok().unwrap();
    assert_eq!((item.title.as_str(), item.url.as_str()), ("L", "u"));
    assert!(item.keywords.is_empty());
    assert_eq!(leaf_of(&key, &Vec::new()).err(), Some(path(&["k", "url"])));
    assert_eq!(entry_of(&key, &Element::Other).err(), Some(path(&["k"])));
    match entry_of(&key, &Element::Table(leaf)) {
        Ok(BookmarkGroupItem::Item(i)) => assert_eq!(i.title, "L"),
        _ => panic!("expected a leaf"),
    }
}

#[test]
fn typed_documents_are_checked_for_urls() {
    let meta = |url: &str| {
        document::BookmarkItem::Item(document::BookmarkMeta {
            title: None,
            url: url.to_string(),
            keywords: Vec::new(),
        })
    };
    let good = document::BookmarksFile(vec![("a".to_string(), meta("u"))]);
    assert_eq!(titles(&Bookmarks::checked(good).unwrap().items), vec!["a"]);
    let bad = document::BookmarksFile(vec![
        ("a".to_string(), meta("u")),
        (
            "g".to_string(),
            document::BookmarkItem::Group(document::BookmarkGroup {
                title: Some("G".to_string()),
                items: vec![("x".to_string(), meta("v")), ("y".to_string(), meta(""))],
            }),
        ),
        ("z".to_string(), meta("")),
    ]);
    assert_eq!(schema_error(Bookmarks::checked(bad)), path(&["g", "y", "url"]));
    let first = vec![("p".to_string(), meta("")), ("q".to_string(), meta(""))];
    assert_eq!(document::find_empty_url(&first), Some(path(&["p", "url"])));
    assert_eq!(
        document::find_empty_url_under(&"k".to_string(), &meta("")),
        Some(path(&["k", "url"]))
    );
    assert_eq!(document::find_empty_url_under(&"k".to_string(), &meta("u")), None);
}

#[test]
fn a_table_keyed_url_is_a_child_of_its_group() {
    let b = parse("[g.url]\nurl = \"x\"\n[g.other]\nurl = \"y\"\n").unwrap();
    assert_eq!(titles(&b.items), vec!["g"]);
    match &b.items[0] {
        BookmarkGroupItem::Group(g) => assert_eq!(titles(&g.children), vec!["url", "other"]),
        BookmarkGroupItem::Item(_) => panic!("expected a group"),
    }
    match resolve(&b.items, &"url".to_string()) {
        Outcome::OpenUrl(url) => assert_eq!(url, "x"),
        _ => panic!("expected a leaf"),
    }
    let key = "k".to_string();
    let nested = table(vec![("url", table(vec![("title", text("T")), ("url", text("u"))]))]);
    match entry_of(&key, &nested) {
        Ok(BookmarkGroupItem::Group(g)) => {
            assert_eq!(g.title, "k");
            assert_eq!(titles(&g.children), vec!["T"]);
        }
        _ => panic!("expected a group"),
    }
    assert_eq!(
        schema_error(parse("[g.url]\nx = 1\n")),
        path(&["g", "url", "x"])
    );
}

#[test]
fn typed_and_text_documents_report_the_same_path() {
    let typed = document::BookmarksFile(vec![(
        "a".to_string(),
        document::BookmarkItem::Item(document::BookmarkMeta {
            title: None,
            url: String::new(),
            keywords: Vec::new(),
        }),
    )]);
    let from_typed = schema_error(Bookmarks::checked(typed));
    let from_text = schema_error(parse("[a]\nurl = \"\"\n"));
    assert_eq!(from_typed, path(&["a", "url"]));
    assert_eq!(from_typed, from_text);
}

#[test]
fn typed_and_text_documents_build_the_same_tree() {
    let leaf = |title: Option<&str>, url: &str, keywords: &[&str]| {
        document::BookmarkItem::Item(document::BookmarkMeta {
            title: title.map(|t| t.to_string()),
            url: url.to_string(),
            keywords: keywords.iter().map(|k| k.to_string()).collect(),
        })
    };
    let typed = document::BookmarksFile(vec![
        ("z".to_string(), leaf(Some("Zed"), "https://z.example", &["k1", "k2"])),
        (
            "g".to_string(),
            document::BookmarkItem::Group(document::BookmarkGroup {
                title: Some("Group".to_string()),
                items: vec![
                    ("inner".to_string(), leaf(None, "https://i.example", &[])),
                    (
                        "url".to_string(),
                        document::BookmarkItem::Group(document::BookmarkGroup {
                            title: None,
                            items: vec![("deep".to_string(), leaf(None, "https://d.example", &[]))],
                        }),
                    ),
                ],
            }),
        ),
    ]);
    let text = "[z]\nurl = \"https://z.example\"\nkeywords = [\"k1\", \"k2\"]\ntitle = \"Zed\"\n\
                [g.inner]\nurl = \"https://i.example\"\nkeywords = []\n\
                [g.url.deep]\nurl = \"https://d.example\"\nkeywords = []\n\
                [g]\ntitle = \"Group\"\n";
    let from_typed = Bookmarks::checked(typed).unwrap();
    let from_text = parse(text).unwrap();
    assert_eq!(
        render_items(Title::Untitled, &from_typed.items),
        render_items(Title::Untitled, &from_text.items)
    );
    for selector in ["Zed", "Group", "inner", "url", "deep", "g", "none"] {
        let a = resolve(&from_typed.items, &selector.to_string());
        let b = resolve(&from_text.items, &selector.to_string());
        match (a, b) {
            (Outcome::OpenUrl(x), Outcome::OpenUrl(y)) => assert_eq!(x, y),
            (Outcome::ShowGroup(t, c), Outcome::ShowGroup(u, d)) => {
                assert_eq!(t, u);
                assert_eq!(titles(c), titles(d));
            }
            (Outcome::NotFound, Outcome::NotFound) => {}
            _ => panic!("the two trees differ at {}", selector),
        }
    }
}
