//! The hierarchical encoding: a table of entries, each a leaf record
//! where it has a `url` field that is no table, and a group of further
//! entries otherwise.

use vstd::prelude::*;
use crate::error::ParseError;
use crate::model::{models, texts, BookmarkGroup, BookmarkGroupItem, BookmarkItem, Bookmarks, Node};
use crate::value::{fields, parse_toml, plain_value, shapes, toml_document, Shape, Element};

verus! {

/// The first field named `key`, from position `from` on.
pub open spec fn lookup(table: Seq<(Seq<char>, Shape)>, key: Seq<char>, from: int) -> Option<Shape>
    decreases table.len() - from,
{
    if 0 <= from < table.len() {
        if table[from].0 == key {
            Some(table[from].1)
        } else {
            lookup(table, key, from + 1)
        }
    } else {
        None
    }
}

/// Every item of the list is a string.
pub open spec fn all_text(items: Seq<Shape>) -> bool {
    forall|i: int| 0 <= i < items.len() ==> (#[trigger] items[i]) is Text
}

/// The strings of a list of strings.
pub open spec fn text_items(items: Seq<Shape>) -> Seq<Seq<char>> {
    Seq::new(
        items.len(),
        |i: int|
            match items[i] {
                Shape::Text(text) => text,
                _ => Seq::empty(),
            },
    )
}

/// The field is absent or a string.
pub open spec fn text_or_absent(field: Option<Shape>) -> bool {
    field is None || field matches Some(Shape::Text(_))
}

/// The title of an entry: its `title` field where it has one, else its
/// key.
pub open spec fn title_of(field: Option<Shape>, key: Seq<char>) -> Seq<char> {
    match field {
        Some(Shape::Text(title)) => title,
        _ => key,
    }
}

/// What a leaf record under `key` comes to. Its `url` is a non-empty string,
/// its `title`, if any, a string, and its `keywords`, if any, a list of
/// strings; otherwise the error names the key and the offending field.
pub open spec fn decode_leaf(key: Seq<char>, table: Seq<(Seq<char>, Shape)>) -> Result<
    Node,
    Seq<Seq<char>>,
> {
    let url = lookup(table, "url"@, 0);
    let title = lookup(table, "title"@, 0);
    let keywords = lookup(table, "keywords"@, 0);
    if !(url matches Some(Shape::Text(text)) && text.len() > 0) {
        Err(seq![key, "url"@])
    } else if !text_or_absent(title) {
        Err(seq![key, "title"@])
    } else if !(keywords is None || (keywords matches Some(Shape::List(items)) && all_text(
        items,
    ))) {
        Err(seq![key, "keywords"@])
    } else {
        Ok(
            Node::Leaf {
                title: title_of(title, key),
                url: url->Some_0->Text_0,
                keywords: match keywords {
                    Some(Shape::List(items)) => text_items(items),
                    _ => Seq::empty(),
                },
            },
        )
    }
}

/// The table is a leaf record: it has a `url` field that is no table. A
/// table whose `url` is itself a table is a group with a child of that
/// key.
pub open spec fn is_leaf(table: Seq<(Seq<char>, Shape)>) -> bool {
    lookup(table, "url"@, 0) matches Some(url) && !(url is Table)
}

/// The node of the entry under `key`, or the keys that lead to what is
/// malformed. An entry is a table: a leaf where it has a `url` field that
/// is no table, else a group whose `title`, if any, is a string and whose
/// other fields are its children in order.
pub open spec fn decode_entry(key: Seq<char>, shape: Shape) -> Result<Node, Seq<Seq<char>>>
    decreases shape, 0int,
{
    match shape {
        Shape::Table(table) => if is_leaf(table) {
            decode_leaf(key, table)
        } else if !text_or_absent(lookup(table, "title"@, 0)) {
            Err(seq![key, "title"@])
        } else {
            match decode_fields(table, table.len() as int, true) {
                Ok(children) => Ok(
                    Node::Group { title: title_of(lookup(table, "title"@, 0), key), children },
                ),
                Err(path) => Err(seq![key] + path),
            }
        },
        _ => Err(seq![key]),
    }
}

/// The nodes of the first `n` fields of a table in order, or the error of
/// the first malformed one. In a group the `title` field is no entry.
pub open spec fn decode_fields(table: Seq<(Seq<char>, Shape)>, n: int, in_group: bool) -> Result<
    Seq<Node>,
    Seq<Seq<char>>,
>
    decreases table, n,
{
    if n <= 0 || n > table.len() {
        Ok(Seq::empty())
    } else {
        match decode_fields(table, n - 1, in_group) {
            Err(path) => Err(path),
            Ok(found) => if in_group && table[n - 1].0 == "title"@ {
                Ok(found)
            } else {
                match decode_entry(table[n - 1].0, table[n - 1].1) {
                    Ok(node) => Ok(found.push(node)),
                    Err(path) => Err(path),
                }
            },
        }
    }
}

/// The top level of a document: the entries of its root table.
pub open spec fn decode_root(shape: Shape) -> Result<Seq<Node>, Seq<Seq<char>>> {
    match shape {
        Shape::Table(table) => decode_fields(table, table.len() as int, false),
        _ => Err(Seq::empty()),
    }
}

/// The title that an entry declares: its `title` field where it is a
/// table with such a string, else its key.
pub open spec fn declared_title(key: Seq<char>, shape: Shape) -> Seq<char> {
    match shape {
        Shape::Table(table) => title_of(lookup(table, "title"@, 0), key),
        _ => key,
    }
}

/// The top level of a decoded document lists the fields of the root
/// table one for one and in their order, each under its declared title.
pub proof fn lemma_top_level_follows_keys(table: Seq<(Seq<char>, Shape)>, n: int)
    requires
        0 <= n <= table.len(),
        decode_fields(table, n, false) is Ok,
    ensures
        ({
            let nodes = decode_fields(table, n, false)->Ok_0;
            &&& nodes.len() == n
            &&& forall|i: int|
                0 <= i < n ==> (#[trigger] nodes[i]).title() == declared_title(
                    table[i].0,
                    table[i].1,
                )
        }),
    decreases n,
{
    if n > 0 {
        lemma_top_level_follows_keys(table, n - 1);
        let found = decode_fields(table, n - 1, false)->Ok_0;
        let node = decode_entry(table[n - 1].0, table[n - 1].1)->Ok_0;
        let nodes = decode_fields(table, n, false)->Ok_0;
        assert(nodes == found.push(node));
        assert(node.title() == declared_title(table[n - 1].0, table[n - 1].1));
        assert forall|i: int| 0 <= i < n implies (#[trigger] nodes[i]).title() == declared_title(
            table[i].0,
            table[i].1,
        ) by {
            if i < n - 1 {
                assert(nodes[i] == found[i]);
            }
        }
    }
}

/// Every leaf of a decoded entry has a URL.
pub proof fn lemma_decoded_entry_has_urls(key: Seq<char>, shape: Shape)
    ensures
        decode_entry(key, shape) matches Ok(node) ==> crate::model::node_has_urls(node),
    decreases shape, 0int,
{
    match shape {
        Shape::Table(table) => {
            lemma_decoded_fields_have_urls(table, table.len() as int, true);
        },
        _ => {},
    }
}

/// Every leaf of a decoded table has a URL.
pub proof fn lemma_decoded_fields_have_urls(
    table: Seq<(Seq<char>, Shape)>,
    n: int,
    in_group: bool,
)
    ensures
        decode_fields(table, n, in_group) matches Ok(nodes) ==> crate::model::all_have_urls(
            nodes,
            0,
        ),
    decreases table, n,
{
    if 0 < n <= table.len() {
        lemma_decoded_fields_have_urls(table, n - 1, in_group);
        lemma_decoded_entry_has_urls(table[n - 1].0, table[n - 1].1);
        if let Ok(found) = decode_fields(table, n - 1, in_group) {
            if let Ok(node) = decode_entry(table[n - 1].0, table[n - 1].1) {
                lemma_push_has_urls(found, node, 0);
            }
        }
    }
}

proof fn lemma_push_has_urls(nodes: Seq<Node>, node: Node, i: int)
    requires
        0 <= i <= nodes.len(),
        crate::model::all_have_urls(nodes, i),
        crate::model::node_has_urls(node),
    ensures
        crate::model::all_have_urls(nodes.push(node), i),
    decreases nodes.len() - i,
{
    if i < nodes.len() {
        lemma_push_has_urls(nodes, node, i + 1);
        assert(nodes.push(node)[i] == nodes[i]);
    } else {
        assert(crate::model::all_have_urls(nodes.push(node), i + 1));
    }
}

proof fn lemma_first_error_stays(table: Seq<(Seq<char>, Shape)>, k: int, n: int, in_group: bool)
    requires
        0 <= k <= n <= table.len(),
        decode_fields(table, k, in_group) is Err,
    ensures
        decode_fields(table, n, in_group) == decode_fields(table, k, in_group),
    decreases n - k,
{
    if k < n {
        lemma_first_error_stays(table, k, n - 1, in_group);
    }
}

/// The first field of `entries` named `key`.
pub fn find_field<'a>(entries: &'a Vec<(String, Element)>, key: &str) -> (r: Option<&'a Element>)
    ensures
        match r {
            Some(value) => lookup(fields(entries@), key@, 0) == Some(value@),
            None => lookup(fields(entries@), key@, 0) is None,
        },
{
    let name = key.to_owned();
    let mut at: usize = 0;
    while at < entries.len()
        invariant
            at <= entries.len(),
            name@ == key@,
            lookup(fields(entries@), key@, 0) == lookup(fields(entries@), key@, at as int),
        decreases entries.len() - at,
    {
        assert(fields(entries@)[at as int] == (entries@[at as int].0@, entries@[at as int].1@));
        if entries[at].0 == name {
            return Some(&entries[at].1);
        }
        at += 1;
    }
    None
}

fn path_of(key: &String, field: &str) -> (path: Vec<String>)
    ensures
        texts(path@) == seq![key@, field@],
{
    let mut path: Vec<String> = Vec::new();
    path.push(key.clone());
    path.push(field.to_owned());
    assert(texts(path@) =~= seq![key@, field@]);
    path
}

fn pick_title(field: Option<&Element>, key: &String) -> (out: String)
    ensures
        out@ == title_of(
            match field {
                Some(value) => Some(value@),
                None => None,
            },
            key@,
        ),
{
    match field {
        Some(Element::Text(title)) => title.clone(),
        _ => key.clone(),
    }
}

fn is_text_or_absent(field: &Option<&Element>) -> (b: bool)
    ensures
        b == text_or_absent(
            match *field {
                Some(value) => Some(value@),
                None => None,
            },
        ),
{
    match field {
        None => true,
        Some(Element::Text(_)) => true,
        Some(_) => false,
    }
}

/// The strings of a list, where each of its items is one.
fn copy_strings(items: &Vec<Element>) -> (r: Option<Vec<String>>)
    ensures
        match r {
            Some(out) => all_text(shapes(items@)) && texts(out@) == text_items(shapes(items@)),
            None => !all_text(shapes(items@)),
        },
{
    let mut out: Vec<String> = Vec::new();
    let mut at: usize = 0;
    while at < items.len()
        invariant
            at <= items.len(),
            out.len() == at,
            forall|i: int| 0 <= i < at ==> (#[trigger] shapes(items@)[i]) == Shape::Text(out[i]@),
        decreases items.len() - at,
    {
        assert(shapes(items@)[at as int] == items@[at as int]@);
        match &items[at] {
            Element::Text(text) => {
                out.push(text.clone());
            },
            _ => {
                return None;
            },
        }
        at += 1;
    }
    assert(texts(out@) =~= text_items(shapes(items@)));
    Some(out)
}

/// Decodes the leaf record under `key`.
pub fn leaf_of(key: &String, entries: &Vec<(String, Element)>) -> (r: Result<
    BookmarkItem,
    Vec<String>,
>)
    ensures
        match r {
            Ok(item) => decode_leaf(key@, fields(entries@)) == Ok::<Node, Seq<Seq<char>>>(item@),
            Err(path) => decode_leaf(key@, fields(entries@)) == Err::<Node, Seq<Seq<char>>>(
                texts(path@),
            ),
        },
{
    let url = find_field(entries, "url");
    let title = find_field(entries, "title");
    let keywords = find_field(entries, "keywords");
    let url = match url {
        Some(Element::Text(text)) => {
            if text.as_str().is_empty() {
                return Err(path_of(key, "url"));
            }
            text.clone()
        },
        _ => {
            return Err(path_of(key, "url"));
        },
    };
    if !is_text_or_absent(&title) {
        return Err(path_of(key, "title"));
    }
    let keywords = match keywords {
        None => {
            let none: Vec<String> = Vec::new();
            assert(texts(none@) =~= Seq::empty());
            none
        },
        Some(Element::List(items)) => match copy_strings(items) {
            Some(out) => out,
            None => {
                return Err(path_of(key, "keywords"));
            },
        },
        Some(_) => {
            return Err(path_of(key, "keywords"));
        },
    };
    Ok(BookmarkItem { title: pick_title(title, key), url, keywords })
}

/// Decodes the entry under `key`: a leaf or a group with all below it.
pub fn entry_of(key: &String, value: &Element) -> (r: Result<BookmarkGroupItem, Vec<String>>)
    ensures
        match r {
            Ok(item) => decode_entry(key@, value@) == Ok::<Node, Seq<Seq<char>>>(item@),
            Err(path) => decode_entry(key@, value@) == Err::<Node, Seq<Seq<char>>>(texts(path@)),
        },
    decreases value,
{
    match value {
        Element::Table(entries) => {
            let leaf = match find_field(entries, "url") {
                None => false,
                Some(Element::Table(_)) => false,
                Some(_) => true,
            };
            if leaf {
                match leaf_of(key, entries) {
                    Ok(item) => Ok(BookmarkGroupItem::Item(item)),
                    Err(path) => Err(path),
                }
            } else {
                let title = find_field(entries, "title");
                if !is_text_or_absent(&title) {
                    return Err(path_of(key, "title"));
                }
                match entries_of(entries, true) {
                    Ok(children) => Ok(
                        BookmarkGroupItem::Group(
                            BookmarkGroup { title: pick_title(title, key), children },
                        ),
                    ),
                    Err(mut path) => {
                        let ghost below = texts(path@);
                        path.insert(0, key.clone());
                        assert(texts(path@) =~= seq![key@] + below);
                        Err(path)
                    },
                }
            }
        },
        _ => {
            let mut path: Vec<String> = Vec::new();
            path.push(key.clone());
            assert(texts(path@) =~= seq![key@]);
            Err(path)
        },
    }
}

/// Decodes the entries of a table in order; in a group its `title` field
/// is passed over.
pub fn entries_of(entries: &Vec<(String, Element)>, in_group: bool) -> (r: Result<
    Vec<BookmarkGroupItem>,
    Vec<String>,
>)
    ensures
        match r {
            Ok(items) => decode_fields(fields(entries@), entries.len() as int, in_group) == Ok::<
                Seq<Node>,
                Seq<Seq<char>>,
            >(models(items@)),
            Err(path) => decode_fields(fields(entries@), entries.len() as int, in_group) == Err::<
                Seq<Node>,
                Seq<Seq<char>>,
            >(texts(path@)),
        },
    decreases entries,
{
    let title = "title".to_owned();
    let mut items: Vec<BookmarkGroupItem> = Vec::new();
    let mut at: usize = 0;
    assert(models(items@) =~= Seq::empty());
    while at < entries.len()
        invariant
            at <= entries.len(),
            title@ == "title"@,
            decode_fields(fields(entries@), at as int, in_group) == Ok::<
                Seq<Node>,
                Seq<Seq<char>>,
            >(models(items@)),
        decreases entries.len() - at,
    {
        assert(fields(entries@)[at as int] == (entries@[at as int].0@, entries@[at as int].1@));
        if !(in_group && entries[at].0 == title) {
            let ghost before = models(items@);
            match entry_of(&entries[at].0, &entries[at].1) {
                Ok(item) => {
                    items.push(item);
                    assert(models(items@) =~= before.push(item@));
                },
                Err(path) => {
                    proof {
                        lemma_first_error_stays(
                            fields(entries@),
                            at + 1,
                            entries.len() as int,
                            in_group,
                        );
                    }
                    return Err(path);
                },
            }
        }
        at += 1;
    }
    Ok(items)
}

/// Decodes a whole document from its root value.
pub fn decode(root: &Element) -> (r: Result<Bookmarks, ParseError>)
    ensures
        match r {
            Ok(bookmarks) => decode_root(root@) == Ok::<Seq<Node>, Seq<Seq<char>>>(bookmarks@)
                && crate::model::all_have_urls(bookmarks@, 0),
            Err(ParseError::Schema(path)) => decode_root(root@) == Err::<
                Seq<Node>,
                Seq<Seq<char>>,
            >(texts(path@)),
            Err(_) => false,
        },
{
    match root {
        Element::Table(entries) => match entries_of(entries, false) {
            Ok(items) => {
                proof {
                    lemma_decoded_fields_have_urls(fields(entries@), entries.len() as int, false);
                }
                Ok(Bookmarks { items })
            },
            Err(path) => Err(ParseError::Schema(path)),
        },
        _ => {
            let path: Vec<String> = Vec::new();
            assert(texts(path@) =~= Seq::empty());
            Err(ParseError::Schema(path))
        },
    }
}

/// What reading a TOML text comes to: a syntax error where the text is
/// no TOML document, else what its root table decodes to.
pub open spec fn read_toml(text: Seq<char>) -> Result<Seq<Node>, Option<Seq<Seq<char>>>> {
    match toml_document(text) {
        None => Err(None),
        Some(shape) => match decode_root(shape) {
            Ok(nodes) => Ok(nodes),
            Err(path) => Err(Some(path)),
        },
    }
}

/// Parses a hierarchical bookmarks text. Every leaf of a tree that comes
/// out has a URL.
pub fn parse(raw: &str) -> (r: Result<Bookmarks, ParseError>)
    ensures
        match r {
            Ok(bookmarks) => read_toml(raw@) == Ok::<Seq<Node>, Option<Seq<Seq<char>>>>(
                bookmarks@,
            ) && crate::model::all_have_urls(bookmarks@, 0),
            Err(ParseError::Syntax) => read_toml(raw@) == Err::<
                Seq<Node>,
                Option<Seq<Seq<char>>>,
            >(None),
            Err(ParseError::Schema(path)) => read_toml(raw@) == Err::<
                Seq<Node>,
                Option<Seq<Seq<char>>>,
            >(Some(texts(path@))),
            Err(_) => false,
        },
{
    match parse_toml(raw) {
        Err(_) => Err(ParseError::Syntax),
        Ok(document) => {
            let root = plain_value(&document);
            decode(&root)
        },
    }
}

} // verus!
