//! The hierarchical encoding as it is read from a document: a mapping
//! from keys to leaf records or nested mappings, in document order.

use vstd::prelude::*;
use crate::model;
use crate::error::ParseError;
use crate::model::{all_have_urls, models, node_has_urls, texts, Bookmarks, BookmarkGroupItem, Node};

verus! {

/// The root mapping of a document, in key order.
pub struct BookmarksFile(pub Vec<(String, BookmarkItem)>);

/// A value of the mapping: a leaf record where it has a URL, else a
/// nested mapping.
pub enum BookmarkItem {
    Item(BookmarkMeta),
    Group(BookmarkGroup),
}

/// A nested mapping, with the title that overrides its key if it has one.
pub struct BookmarkGroup {
    pub title: Option<String>,
    pub items: Vec<(String, BookmarkItem)>,
}

/// A leaf record, with the title that overrides its key if it has one.
pub struct BookmarkMeta {
    pub title: Option<String>,
    pub url: String,
    pub keywords: Vec<String>,
}

/// The title that an entry goes by: its own where it has one, else its key.
pub open spec fn title_or_key(title: Option<String>, key: Seq<char>) -> Seq<char> {
    match title {
        Some(t) => t@,
        None => key,
    }
}

/// The node that the entry under `key` stands for.
pub open spec fn node_of(key: Seq<char>, item: BookmarkItem) -> Node
    decreases item,
{
    match item {
        BookmarkItem::Item(meta) => Node::Leaf {
            title: title_or_key(meta.title, key),
            url: meta.url@,
            keywords: texts(meta.keywords@),
        },
        BookmarkItem::Group(group) => Node::Group {
            title: title_or_key(group.title, key),
            children: nodes_of(group.items@),
        },
    }
}

/// The nodes that a mapping stands for, in key order.
pub open spec fn nodes_of(entries: Seq<(String, BookmarkItem)>) -> Seq<Node>
    decreases entries,
{
    Seq::new(
        entries.len(),
        |i: int|
            if 0 <= i < entries.len() {
                node_of(entries[i].0@, entries[i].1)
            } else {
                Node::Group { title: Seq::empty(), children: Seq::empty() }
            },
    )
}

fn copy_texts(source: &Vec<String>) -> (out: Vec<String>)
    ensures
        texts(out@) == texts(source@),
{
    let mut out: Vec<String> = Vec::new();
    let mut at: usize = 0;
    while at < source.len()
        invariant
            at <= source.len(),
            out.len() == at,
            forall|j: int| 0 <= j < at ==> out[j]@ == source[j]@,
        decreases source.len() - at,
    {
        out.push(source[at].clone());
        at += 1;
    }
    assert(texts(out@) =~= texts(source@));
    out
}

fn pick_title(title: &Option<String>, key: &String) -> (out: String)
    ensures
        out@ == title_or_key(*title, key@),
{
    match title {
        Some(t) => t.clone(),
        None => key.clone(),
    }
}

/// Builds the tree node of the entry under the key `item_title`, none of
/// whose leaves has an empty URL.
pub fn from_item(item_title: &String, item: &BookmarkItem) -> (out: BookmarkGroupItem)
    requires
        empty_url_under(item_title@, *item) is None,
    ensures
        out@ == node_of(item_title@, *item),
        node_has_urls(out@),
    decreases item,
{
    proof {
        lemma_url_present(item_title@, *item);
    }
    match item {
        BookmarkItem::Item(meta) => BookmarkGroupItem::Item(
            model::BookmarkItem {
                title: pick_title(&meta.title, item_title),
                url: meta.url.clone(),
                keywords: copy_texts(&meta.keywords),
            },
        ),
        BookmarkItem::Group(group) => BookmarkGroupItem::Group(
            model::BookmarkGroup {
                title: pick_title(&group.title, item_title),
                children: from_map(&group.items),
            },
        ),
    }
}

/// Builds the tree nodes of a mapping, none of whose leaves has an empty
/// URL, in key order.
pub fn from_map(map: &Vec<(String, BookmarkItem)>) -> (out: Vec<BookmarkGroupItem>)
    requires
        first_empty_url(map@, 0) is None,
    ensures
        models(out@) == nodes_of(map@),
        all_have_urls(models(out@), 0),
    decreases map,
{
    proof {
        lemma_urls_present(map@, 0);
    }
    let mut out: Vec<BookmarkGroupItem> = Vec::new();
    let mut at: usize = 0;
    while at < map.len()
        invariant
            at <= map.len(),
            out.len() == at,
            first_empty_url(map@, at as int) is None,
            forall|j: int| 0 <= j < at ==> out[j]@ == node_of(map[j].0@, map[j].1),
        decreases map.len() - at,
    {
        let child = from_item(&map[at].0, &map[at].1);
        out.push(child);
        at += 1;
    }
    assert(models(out@) =~= nodes_of(map@));
    out
}

/// The title that an entry declares for itself, if it does.
pub open spec fn own_title(item: BookmarkItem) -> Option<String> {
    match item {
        BookmarkItem::Item(meta) => meta.title,
        BookmarkItem::Group(group) => group.title,
    }
}

/// The tree lists the entries of a mapping one for one and in key order,
/// each under its own title where it declares one and under its key where
/// it does not.
pub proof fn lemma_titles_follow_keys(entries: Seq<(String, BookmarkItem)>)
    ensures
        nodes_of(entries).len() == entries.len(),
        forall|i: int|
            0 <= i < entries.len() ==> (#[trigger] nodes_of(entries)[i]).title() == title_or_key(
                own_title(entries[i].1),
                entries[i].0@,
            ),
{
    assert forall|i: int| 0 <= i < entries.len() implies (#[trigger] nodes_of(entries)[i]).title()
        == title_or_key(own_title(entries[i].1), entries[i].0@) by {
        assert(nodes_of(entries)[i] == node_of(entries[i].0@, entries[i].1));
    }
}

/// The keys that lead to the `url` field of the first leaf, in document
/// order from position `i` on, whose URL is empty.
pub open spec fn first_empty_url(entries: Seq<(String, BookmarkItem)>, i: int) -> Option<
    Seq<Seq<char>>,
>
    decreases entries, entries.len() - i,
{
    if 0 <= i < entries.len() {
        match empty_url_under(entries[i].0@, entries[i].1) {
            Some(path) => Some(path),
            None => first_empty_url(entries, i + 1),
        }
    } else {
        None
    }
}

/// The keys that lead to the `url` field of the first leaf with an empty
/// URL at or below the entry under `key`, beginning with `key` and ending
/// with `url`.
pub open spec fn empty_url_under(key: Seq<char>, item: BookmarkItem) -> Option<Seq<Seq<char>>>
    decreases item, 0int,
{
    match item {
        BookmarkItem::Item(meta) => if meta.url@.len() == 0 {
            Some(seq![key, "url"@])
        } else {
            None
        },
        BookmarkItem::Group(group) => match first_empty_url(group.items@, 0) {
            Some(path) => Some(seq![key] + path),
            None => None,
        },
    }
}

/// Where no leaf of a mapping has an empty URL, every leaf of its tree
/// has a URL.
pub proof fn lemma_urls_present(entries: Seq<(String, BookmarkItem)>, i: int)
    requires
        first_empty_url(entries, i) is None,
    ensures
        all_have_urls(nodes_of(entries), i),
    decreases entries, entries.len() - i,
{
    if 0 <= i < entries.len() {
        assert(nodes_of(entries)[i] == node_of(entries[i].0@, entries[i].1));
        lemma_url_present(entries[i].0@, entries[i].1);
        lemma_urls_present(entries, i + 1);
    }
}

proof fn lemma_url_present(key: Seq<char>, item: BookmarkItem)
    requires
        empty_url_under(key, item) is None,
    ensures
        node_has_urls(node_of(key, item)),
    decreases item, 0int,
{
    match item {
        BookmarkItem::Item(_) => {},
        BookmarkItem::Group(group) => lemma_urls_present(group.items@, 0),
    }
}

/// Looks for the first leaf of the entry under `key` whose URL is empty.
pub fn find_empty_url_under(key: &String, item: &BookmarkItem) -> (r: Option<Vec<String>>)
    ensures
        match r {
            Some(path) => empty_url_under(key@, *item) == Some(texts(path@)),
            None => empty_url_under(key@, *item) is None,
        },
    decreases item,
{
    match item {
        BookmarkItem::Item(meta) => {
            if meta.url.as_str().is_empty() {
                let mut path: Vec<String> = Vec::new();
                path.push(key.clone());
                path.push("url".to_owned());
                assert(texts(path@) =~= seq![key@, "url"@]);
                Some(path)
            } else {
                None
            }
        },
        BookmarkItem::Group(group) => match find_empty_url(&group.items) {
            Some(mut path) => {
                let ghost below = texts(path@);
                path.insert(0, key.clone());
                assert(texts(path@) =~= seq![key@] + below);
                Some(path)
            },
            None => None,
        },
    }
}

/// Looks for the first leaf of a mapping, in document order, whose URL is
/// empty.
pub fn find_empty_url(map: &Vec<(String, BookmarkItem)>) -> (r: Option<Vec<String>>)
    ensures
        match r {
            Some(path) => first_empty_url(map@, 0) == Some(texts(path@)),
            None => first_empty_url(map@, 0) is None,
        },
    decreases map,
{
    let mut at: usize = 0;
    while at < map.len()
        invariant
            at <= map.len(),
            first_empty_url(map@, 0) == first_empty_url(map@, at as int),
        decreases map.len() - at,
    {
        match find_empty_url_under(&map[at].0, &map[at].1) {
            Some(path) => {
                return Some(path);
            },
            None => {},
        }
        at += 1;
    }
    None
}

impl Bookmarks {
    /// Builds the tree of a document none of whose leaves has an empty
    /// URL: every entry in key order, under its own title where it has
    /// one and under its key where it has none. Every leaf of the tree has
    /// a URL.
    pub fn from(f: BookmarksFile) -> (out: Bookmarks)
        requires
            first_empty_url(f.0@, 0) is None,
        ensures
            out@ == nodes_of(f.0@),
            all_have_urls(out@, 0),
    {
        Bookmarks { items: from_map(&f.0) }
    }

    /// Builds the tree of a document unless one of its leaves has an
    /// empty URL; the error then holds the keys that lead to the `url`
    /// field of the first such leaf. Every leaf of a tree that comes out
    /// has a URL.
    pub fn checked(f: BookmarksFile) -> (r: Result<Bookmarks, ParseError>)
        ensures
            match r {
                Ok(out) => first_empty_url(f.0@, 0) is None && out@ == nodes_of(f.0@)
                    && all_have_urls(out@, 0),
                Err(e) => e matches ParseError::Schema(path) && first_empty_url(f.0@, 0)
                    == Some(texts(path@)),
            },
    {
        match find_empty_url(&f.0) {
            Some(path) => Err(ParseError::Schema(path)),
            None => Ok(Bookmarks::from(f)),
        }
    }
}

} // verus!
