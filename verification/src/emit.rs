//! The menu text handed to the launcher: one newline-terminated line per
//! entry, with fields tagged by a NUL byte and a unit separator.

use vstd::prelude::*;
use crate::flat::{records, FlatItem, Record};
use crate::model::{models, BookmarkGroupItem, Node};

verus! {

/// The header of a menu, if it has one.
pub enum Title<'a> {
    Untitled,
    Title(&'a str),
}

impl<'a> View for Title<'a> {
    type V = Option<Seq<char>>;

    open spec fn view(&self) -> Option<Seq<char>> {
        match self {
            Title::Untitled => None,
            Title::Title(text) => Some(text@),
        }
    }
}

/// The header part of a menu: the line `<NUL>message<US><text>`, or
/// nothing.
pub open spec fn header_line(title: Option<Seq<char>>) -> Seq<char> {
    match title {
        Some(text) => "\x00message\x1f"@ + text + "\n"@,
        None => Seq::empty(),
    }
}

/// The first `n` keywords, each followed by a comma.
pub open spec fn joined(keywords: Seq<Seq<char>>, n: int) -> Seq<char>
    decreases n,
{
    if n <= 0 {
        Seq::empty()
    } else {
        joined(keywords, n - 1) + keywords[n - 1] + ","@
    }
}

/// The line of one node: `<title><NUL>meta<US><keywords><US>` for a leaf,
/// `<title><NUL>icon<US>folder` for a group.
pub open spec fn node_line(node: Node) -> Seq<char> {
    match node {
        Node::Leaf { title, keywords, .. } => title + "\x00meta\x1f"@ + joined(
            keywords,
            keywords.len() as int,
        ) + "\x1f"@ + "\n"@,
        Node::Group { title, .. } => title + "\x00icon\x1ffolder"@ + "\n"@,
    }
}

/// The lines of the first `n` nodes, in order.
pub open spec fn node_lines(nodes: Seq<Node>, n: int) -> Seq<char>
    decreases n,
{
    if n <= 0 {
        Seq::empty()
    } else {
        node_lines(nodes, n - 1) + node_line(nodes[n - 1])
    }
}

/// The whole menu of a list of nodes.
pub open spec fn menu_text(title: Option<Seq<char>>, nodes: Seq<Node>) -> Seq<char> {
    header_line(title) + node_lines(nodes, nodes.len() as int)
}

/// The line of one flat record: `<title><NUL>meta<US><url>,<extra><US>`.
pub open spec fn record_line(record: Record) -> Seq<char> {
    record.title + "\x00meta\x1f"@ + record.url + ","@ + record.extra + "\x1f"@ + "\n"@
}

/// The lines of the first `n` flat records, in order.
pub open spec fn record_lines(found: Seq<Record>, n: int) -> Seq<char>
    decreases n,
{
    if n <= 0 {
        Seq::empty()
    } else {
        record_lines(found, n - 1) + record_line(found[n - 1])
    }
}

/// The whole menu of a list of flat records.
pub open spec fn flat_menu_text(title: Option<Seq<char>>, found: Seq<Record>) -> Seq<char> {
    header_line(title) + record_lines(found, found.len() as int)
}

fn render_header(title: Title<'_>) -> (out: String)
    ensures
        out@ == header_line(title@),
{
    let mut out = String::new();
    match title {
        Title::Untitled => {},
        Title::Title(text) => {
            out.append("\x00message\x1f");
            out.append(text);
            out.append("\n");
            assert(out@ =~= header_line(title@));
        },
    }
    out
}

fn render_keywords(keywords: &Vec<String>) -> (out: String)
    ensures
        out@ == joined(crate::model::texts(keywords@), keywords.len() as int),
{
    let mut out = String::new();
    let mut at: usize = 0;
    while at < keywords.len()
        invariant
            at <= keywords.len(),
            out@ == joined(crate::model::texts(keywords@), at as int),
        decreases keywords.len() - at,
    {
        out.append(keywords[at].as_str());
        out.append(",");
        at += 1;
    }
    out
}

/// The line of one stored item.
pub fn render_item(item: &BookmarkGroupItem) -> (out: String)
    ensures
        out@ == node_line(item@),
{
    let mut out = String::new();
    match item {
        BookmarkGroupItem::Item(leaf) => {
            let keywords = render_keywords(&leaf.keywords);
            out.append(leaf.title.as_str());
            out.append("\x00meta\x1f");
            out.append(keywords.as_str());
            out.append("\x1f");
            out.append("\n");
            assert(out@ =~= node_line(item@));
        },
        BookmarkGroupItem::Group(group) => {
            out.append(group.title.as_str());
            out.append("\x00icon\x1ffolder");
            out.append("\n");
            assert(out@ =~= node_line(item@));
        },
    }
    out
}

/// The menu of `items` under the header `title`: the text that is
/// written to the launcher, byte for byte.
pub fn render_items(title: Title<'_>, items: &Vec<BookmarkGroupItem>) -> (out: String)
    ensures
        out@ == menu_text(title@, models(items@)),
{
    let mut lines = String::new();
    let mut at: usize = 0;
    while at < items.len()
        invariant
            at <= items.len(),
            lines@ == node_lines(models(items@), at as int),
        decreases items.len() - at,
    {
        let line = render_item(&items[at]);
        assert(models(items@)[at as int] == items@[at as int]@);
        lines.append(line.as_str());
        at += 1;
    }
    let mut out = render_header(title);
    out.append(lines.as_str());
    out
}

/// The line of one stored flat record.
pub fn render_record(item: &FlatItem) -> (out: String)
    ensures
        out@ == record_line(item@),
{
    let mut out = String::new();
    out.append(item.title.as_str());
    out.append("\x00meta\x1f");
    out.append(item.url.as_str());
    out.append(",");
    out.append(item.extra.as_str());
    out.append("\x1f");
    out.append("\n");
    assert(out@ =~= record_line(item@));
    out
}

/// The menu of the flat records `items` under the header `title`.
pub fn render_records(title: Title<'_>, items: &Vec<FlatItem>) -> (out: String)
    ensures
        out@ == flat_menu_text(title@, records(items@)),
{
    let mut lines = String::new();
    let mut at: usize = 0;
    while at < items.len()
        invariant
            at <= items.len(),
            lines@ == record_lines(records(items@), at as int),
        decreases items.len() - at,
    {
        let line = render_record(&items[at]);
        assert(records(items@)[at as int] == items@[at as int]@);
        lines.append(line.as_str());
        at += 1;
    }
    let mut out = render_header(title);
    out.append(lines.as_str());
    out
}

/// The line of a node begins with the node's title.
pub proof fn lemma_line_begins_with_title(node: Node)
    ensures
        node.title().len() <= node_line(node).len(),
        node_line(node).subrange(0, node.title().len() as int) == node.title(),
{
    assert(node_line(node).subrange(0, node.title().len() as int) =~= node.title());
}

} // verus!
