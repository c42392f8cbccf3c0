//! The bookmark tree that every other module consumes, and its
//! mathematical model.

use vstd::prelude::*;

verus! {

/// What a bookmark tree node is, independent of how it is stored.
pub enum Node {
    Leaf { title: Seq<char>, url: Seq<char>, keywords: Seq<Seq<char>> },
    Group { title: Seq<char>, children: Seq<Node> },
}

impl Node {
    /// The title under which the node is listed and selected.
    pub open spec fn title(self) -> Seq<char> {
        match self {
            Node::Leaf { title, .. } => title,
            Node::Group { title, .. } => title,
        }
    }
}

/// The contents of a list of strings, in order.
pub open spec fn texts(v: Seq<String>) -> Seq<Seq<char>> {
    Seq::new(v.len(), |i: int| v[i]@)
}

/// A leaf: a titled URL with its keywords.
pub struct BookmarkItem {
    pub title: String,
    pub url: String,
    pub keywords: Vec<String>,
}

/// A titled container; the order of `children` is the declared order.
pub struct BookmarkGroup {
    pub title: String,
    pub children: Vec<BookmarkGroupItem>,
}

pub enum BookmarkGroupItem {
    Group(BookmarkGroup),
    Item(BookmarkItem),
}

/// The root: an unnamed group.
pub struct Bookmarks {
    pub items: Vec<BookmarkGroupItem>,
}

impl View for BookmarkItem {
    type V = Node;

    open spec fn view(&self) -> Node {
        Node::Leaf { title: self.title@, url: self.url@, keywords: texts(self.keywords@) }
    }
}

impl View for BookmarkGroupItem {
    type V = Node;

    open spec fn view(&self) -> Node
        decreases self,
    {
        match self {
            BookmarkGroupItem::Item(item) => item@,
            BookmarkGroupItem::Group(group) => Node::Group {
                title: group.title@,
                children: models(group.children@),
            },
        }
    }
}

/// The nodes that a list of stored items stands for, in order.
pub open spec fn models(items: Seq<BookmarkGroupItem>) -> Seq<Node>
    decreases items,
{
    Seq::new(
        items.len(),
        |i: int|
            if 0 <= i < items.len() {
                items[i]@
            } else {
                Node::Group { title: Seq::empty(), children: Seq::empty() }
            },
    )
}

impl View for BookmarkGroup {
    type V = Node;

    open spec fn view(&self) -> Node {
        Node::Group { title: self.title@, children: models(self.children@) }
    }
}

impl View for Bookmarks {
    type V = Seq<Node>;

    open spec fn view(&self) -> Seq<Node> {
        models(self.items@)
    }
}

/// Every leaf at or below `node` has a URL.
pub open spec fn node_has_urls(node: Node) -> bool
    decreases node, 0int,
{
    match node {
        Node::Leaf { url, .. } => url.len() > 0,
        Node::Group { children, .. } => all_have_urls(children, 0),
    }
}

/// Every leaf at or below `nodes`, from position `i` on, has a URL.
pub open spec fn all_have_urls(nodes: Seq<Node>, i: int) -> bool
    decreases nodes, nodes.len() - i,
{
    if 0 <= i < nodes.len() {
        node_has_urls(nodes[i]) && all_have_urls(nodes, i + 1)
    } else {
        true
    }
}

} // verus!
