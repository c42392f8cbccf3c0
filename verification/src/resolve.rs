//! Selection by title: a pre-order scan of the whole tree, driven by an
//! explicit stack of sibling cursors.

use vstd::prelude::*;
use crate::model::{models, BookmarkGroupItem, Node};

verus! {

/// The first node from position `i` of `nodes` on, in pre-order and
/// descending into every group whose title differs, whose title is `sel`.
pub open spec fn find_from(nodes: Seq<Node>, i: int, sel: Seq<char>) -> Option<Node>
    decreases nodes, nodes.len() - i,
{
    if 0 <= i < nodes.len() {
        match find_node(nodes[i], sel) {
            Some(n) => Some(n),
            None => find_from(nodes, i + 1, sel),
        }
    } else {
        None
    }
}

/// The node itself where its title is `sel`, else the first match below it.
pub open spec fn find_node(node: Node, sel: Seq<char>) -> Option<Node>
    decreases node, 0int,
{
    if node.title() == sel {
        Some(node)
    } else {
        match node {
            Node::Leaf { .. } => None,
            Node::Group { children, .. } => find_from(children, 0, sel),
        }
    }
}

/// What a selection comes to, over the model.
pub enum Resolution {
    OpenUrl(Seq<char>),
    ShowGroup(Seq<char>, Seq<Node>),
    NotFound,
}

/// What selecting `sel` in `nodes` comes to: the URL of the first match if
/// it is a leaf, its title and direct children if it is a group.
pub open spec fn resolution(nodes: Seq<Node>, sel: Seq<char>) -> Resolution {
    match find_from(nodes, 0, sel) {
        Some(Node::Leaf { url, .. }) => Resolution::OpenUrl(url),
        Some(Node::Group { title, children }) => Resolution::ShowGroup(title, children),
        None => Resolution::NotFound,
    }
}

/// The result of a selection, borrowed from the tree it was made in.
pub enum Outcome<'a> {
    OpenUrl(&'a String),
    ShowGroup(&'a String, &'a Vec<BookmarkGroupItem>),
    NotFound,
}

impl<'a> View for Outcome<'a> {
    type V = Resolution;

    open spec fn view(&self) -> Resolution {
        match self {
            Outcome::OpenUrl(url) => Resolution::OpenUrl(url@),
            Outcome::ShowGroup(title, children) => Resolution::ShowGroup(title@, models(children@)),
            Outcome::NotFound => Resolution::NotFound,
        }
    }
}

impl<'a> Outcome<'a> {
    /// The process exit code that the outcome calls for.
    pub fn exit_code(&self) -> (code: u8)
        ensures
            code == (if self@ is NotFound { 1u8 } else { 0u8 }),
    {
        match self {
            Outcome::NotFound => 1,
            _ => 0,
        }
    }
}

/// What is still to be searched: the top cursor from its position on, then
/// the cursors below it.
spec fn pending(stack: Seq<(Seq<Node>, int)>, sel: Seq<char>) -> Option<Node>
    decreases stack.len(),
{
    if stack.len() == 0 {
        None
    } else {
        match find_from(stack.last().0, stack.last().1, sel) {
            Some(n) => Some(n),
            None => pending(stack.drop_last(), sel),
        }
    }
}

spec fn weight(node: Node) -> nat
    decreases node, 0int,
{
    match node {
        Node::Leaf { .. } => 1,
        Node::Group { children, .. } => 2 + weight_from(children, 0),
    }
}

spec fn weight_from(nodes: Seq<Node>, i: int) -> nat
    decreases nodes, nodes.len() - i,
{
    if 0 <= i < nodes.len() {
        weight(nodes[i]) + weight_from(nodes, i + 1)
    } else {
        0
    }
}

/// The work that a stack of cursors still holds; every step of the scan
/// lowers it.
spec fn load(stack: Seq<(Seq<Node>, int)>) -> nat
    decreases stack.len(),
{
    if stack.len() == 0 {
        0
    } else {
        1 + weight_from(stack.last().0, stack.last().1) + load(stack.drop_last())
    }
}

spec fn cursors(stack: Seq<(&Vec<BookmarkGroupItem>, usize)>) -> Seq<(Seq<Node>, int)> {
    Seq::new(stack.len(), |k: int| (models(stack[k].0@), stack[k].1 as int))
}

proof fn lemma_push_cursor(rest: Seq<(Seq<Node>, int)>, nodes: Seq<Node>, i: int, sel: Seq<char>)
    ensures
        pending(rest.push((nodes, i)), sel) == match find_from(nodes, i, sel) {
            Some(n) => Some(n),
            None => pending(rest, sel),
        },
        load(rest.push((nodes, i))) == 1 + weight_from(nodes, i) + load(rest),
{
    assert(rest.push((nodes, i)).drop_last() =~= rest);
}

proof fn lemma_take_sibling(nodes: Seq<Node>, i: int, sel: Seq<char>)
    requires
        0 <= i < nodes.len(),
    ensures
        find_from(nodes, i, sel) == match find_node(nodes[i], sel) {
            Some(n) => Some(n),
            None => find_from(nodes, i + 1, sel),
        },
        find_node(nodes[i], sel) == if nodes[i].title() == sel {
            Some(nodes[i])
        } else {
            match nodes[i] {
                Node::Leaf { .. } => None,
                Node::Group { children, .. } => find_from(children, 0, sel),
            }
        },
        weight_from(nodes, i) == weight(nodes[i]) + weight_from(nodes, i + 1),
        weight(nodes[i]) == match nodes[i] {
            Node::Leaf { .. } => 1,
            Node::Group { children, .. } => 2 + weight_from(children, 0),
        },
{
}

/// Finds the first node titled `selector`, scanning `items` depth first in
/// declared order and descending into every group that does not match.
pub fn resolve<'a>(items: &'a Vec<BookmarkGroupItem>, selector: &String) -> (out: Outcome<'a>)
    ensures
        out@ == resolution(models(items@), selector@),
{
    let mut stack: Vec<(&'a Vec<BookmarkGroupItem>, usize)> = Vec::new();
    stack.push((items, 0));
    proof {
        assert(cursors(stack@) =~= Seq::<(Seq<Node>, int)>::empty().push((models(items@), 0int)));
        lemma_push_cursor(Seq::empty(), models(items@), 0, selector@);
    }
    loop
        invariant
            pending(cursors(stack@), selector@) == find_from(models(items@), 0, selector@),
        decreases load(cursors(stack@)),
    {
        let ghost before = cursors(stack@);
        match stack.pop() {
            None => {
                return Outcome::NotFound;
            },
            Some((siblings, at)) => {
                let ghost rest = cursors(stack@);
                let ghost nodes = models(siblings@);
                proof {
                    assert(before =~= rest.push((nodes, at as int)));
                    lemma_push_cursor(rest, nodes, at as int, selector@);
                }
                if at < siblings.len() {
                    stack.push((siblings, at + 1));
                    let ghost advanced = cursors(stack@);
                    proof {
                        assert(advanced =~= rest.push((nodes, at + 1)));
                        lemma_push_cursor(rest, nodes, at + 1, selector@);
                        assert(nodes[at as int] == siblings@[at as int]@);
                        lemma_take_sibling(nodes, at as int, selector@);
                    }
                    match &siblings[at] {
                        BookmarkGroupItem::Item(item) => {
                            assert(nodes[at as int] == item@);
                            if item.title == *selector {
                                return Outcome::OpenUrl(&item.url);
                            }
                        },
                        BookmarkGroupItem::Group(group) => {
                            assert(nodes[at as int] == group@);
                            if group.title == *selector {
                                return Outcome::ShowGroup(&group.title, &group.children);
                            }
                            stack.push((&group.children, 0));
                            proof {
                                assert(cursors(stack@) =~= advanced.push(
                                    (models(group.children@), 0int),
                                ));
                                lemma_push_cursor(advanced, models(group.children@), 0, selector@);
                            }
                        },
                    }
                }
            },
        }
    }
}

/// `target` is `node` itself or stands somewhere below it.
pub open spec fn node_holds(node: Node, target: Node) -> bool
    decreases node, 0int,
{
    node == target || match node {
        Node::Leaf { .. } => false,
        Node::Group { children, .. } => list_holds(children, 0, target),
    }
}

/// `target` is one of `nodes` from position `i` on, or stands below one.
pub open spec fn list_holds(nodes: Seq<Node>, i: int, target: Node) -> bool
    decreases nodes, nodes.len() - i,
{
    0 <= i < nodes.len() && (node_holds(nodes[i], target) || list_holds(nodes, i + 1, target))
}

/// What a search finds is a node of the tree, and its title is the
/// selector.
pub proof fn lemma_found_is_held(nodes: Seq<Node>, i: int, sel: Seq<char>)
    ensures
        find_from(nodes, i, sel) matches Some(n) ==> n.title() == sel && list_holds(nodes, i, n),
    decreases nodes, nodes.len() - i,
{
    if 0 <= i < nodes.len() {
        lemma_found_below(nodes[i], sel);
        lemma_found_is_held(nodes, i + 1, sel);
    }
}

proof fn lemma_found_below(node: Node, sel: Seq<char>)
    ensures
        find_node(node, sel) matches Some(n) ==> n.title() == sel && node_holds(node, n),
    decreases node, 0int,
{
    if node.title() != sel {
        match node {
            Node::Leaf { .. } => {},
            Node::Group { children, .. } => lemma_found_is_held(children, 0, sel),
        }
    }
}

/// The title of every node of the tree is found.
pub proof fn lemma_held_is_found(nodes: Seq<Node>, i: int, target: Node)
    requires
        list_holds(nodes, i, target),
    ensures
        find_from(nodes, i, target.title()) is Some,
    decreases nodes, nodes.len() - i,
{
    if node_holds(nodes[i], target) {
        lemma_below_is_found(nodes[i], target);
    } else {
        lemma_held_is_found(nodes, i + 1, target);
    }
}

proof fn lemma_below_is_found(node: Node, target: Node)
    requires
        node_holds(node, target),
    ensures
        find_node(node, target.title()) is Some,
    decreases node, 0int,
{
    if node.title() != target.title() {
        match node {
            Node::Leaf { .. } => {},
            Node::Group { children, .. } => lemma_held_is_found(children, 0, target),
        }
    }
}

proof fn lemma_holds_below(nodes: Seq<Node>, i: int, group: Node, target: Node)
    requires
        list_holds(nodes, i, group),
        node_holds(group, target),
    ensures
        list_holds(nodes, i, target),
    decreases nodes, nodes.len() - i,
{
    if node_holds(nodes[i], group) {
        lemma_holds_within(nodes[i], group, target);
    } else {
        lemma_holds_below(nodes, i + 1, group, target);
    }
}

proof fn lemma_holds_within(node: Node, group: Node, target: Node)
    requires
        node_holds(node, group),
        node_holds(group, target),
    ensures
        node_holds(node, target),
    decreases node, 0int,
{
    if node != group {
        match node {
            Node::Leaf { .. } => {},
            Node::Group { children, .. } => lemma_holds_below(children, 0, group, target),
        }
    }
}

proof fn lemma_sibling_held(nodes: Seq<Node>, from: int, i: int)
    requires
        0 <= from <= i < nodes.len(),
    ensures
        list_holds(nodes, from, nodes[i]),
    decreases i - from,
{
    if from < i {
        lemma_sibling_held(nodes, from + 1, i);
    } else {
        assert(node_holds(nodes[i], nodes[i]));
    }
}

proof fn lemma_skip_to(nodes: Seq<Node>, k: int, i: int, sel: Seq<char>)
    requires
        0 <= k <= i < nodes.len(),
        nodes[i].title() == sel,
        forall|j: int| 0 <= j < i ==> find_node(#[trigger] nodes[j], sel) is None,
    ensures
        find_from(nodes, k, sel) == Some(nodes[i]),
    decreases i - k,
{
    if k < i {
        lemma_skip_to(nodes, k + 1, i, sel);
    }
}

/// Selecting the title of a top-level entry that nothing before it
/// matches, at any depth, opens that entry's own URL where it is a leaf,
/// and shows its own title and direct children where it is a group.
pub proof fn lemma_top_level_selected(nodes: Seq<Node>, i: int, sel: Seq<char>)
    requires
        0 <= i < nodes.len(),
        nodes[i].title() == sel,
        forall|j: int| 0 <= j < i ==> find_node(#[trigger] nodes[j], sel) is None,
    ensures
        resolution(nodes, sel) == match nodes[i] {
            Node::Leaf { url, .. } => Resolution::OpenUrl(url),
            Node::Group { title, children } => Resolution::ShowGroup(title, children),
        },
{
    lemma_skip_to(nodes, 0, i, sel);
}

/// Selecting the title of a node that is the only one of that title in
/// the tree, at whatever depth it stands, opens that node's own URL where
/// it is a leaf, and shows its own title and direct children, no deeper,
/// where it is a group.
pub proof fn lemma_unique_title_selected(nodes: Seq<Node>, target: Node)
    requires
        list_holds(nodes, 0, target),
        forall|n: Node| #[trigger]
            list_holds(nodes, 0, n) && n.title() == target.title() ==> n == target,
    ensures
        resolution(nodes, target.title()) == match target {
            Node::Leaf { url, .. } => Resolution::OpenUrl(url),
            Node::Group { title, children } => Resolution::ShowGroup(title, children),
        },
{
    lemma_held_is_found(nodes, 0, target);
    lemma_found_is_held(nodes, 0, target.title());
}

/// A selection fails exactly when no node of the tree, at any depth, has
/// the selector as its title.
pub proof fn lemma_not_found_iff_absent(nodes: Seq<Node>, sel: Seq<char>)
    ensures
        resolution(nodes, sel) is NotFound <==> (forall|n: Node| #[trigger]
            list_holds(nodes, 0, n) ==> n.title() != sel),
{
    lemma_found_is_held(nodes, 0, sel);
    if resolution(nodes, sel) is NotFound {
        assert forall|n: Node| #[trigger] list_holds(nodes, 0, n) implies n.title() != sel by {
            if n.title() == sel {
                lemma_held_is_found(nodes, 0, n);
            }
        }
    }
}

/// Every title that a shown group lists can be selected in turn: against
/// the whole tree it finds a node of that title. So does every title of
/// the top level.
pub proof fn lemma_listed_title_resolves(nodes: Seq<Node>, sel: Seq<char>, i: int)
    requires
        resolution(nodes, sel) matches Resolution::ShowGroup(_, children) && 0 <= i
            < children.len(),
    ensures
        ({
            let child = resolution(nodes, sel)->ShowGroup_1[i];
            find_from(nodes, 0, child.title()) matches Some(n) && n.title() == child.title()
        }),
{
    let group = find_from(nodes, 0, sel)->Some_0;
    let child = resolution(nodes, sel)->ShowGroup_1[i];
    lemma_found_is_held(nodes, 0, sel);
    lemma_sibling_held(group->children, 0, i);
    lemma_holds_below(nodes, 0, group, child);
    lemma_held_is_found(nodes, 0, child);
    lemma_found_is_held(nodes, 0, child.title());
}

/// Every title of the top level can be selected: it finds a node of that
/// title.
pub proof fn lemma_top_level_title_resolves(nodes: Seq<Node>, i: int)
    requires
        0 <= i < nodes.len(),
    ensures
        find_from(nodes, 0, nodes[i].title()) matches Some(n) && n.title() == nodes[i].title(),
{
    lemma_sibling_held(nodes, 0, i);
    lemma_held_is_found(nodes, 0, nodes[i]);
    lemma_found_is_held(nodes, 0, nodes[i].title());
}

} // verus!
