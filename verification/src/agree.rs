//! The two routes to a tree agree: a typed document, and the same
//! document written as plain values, come to one tree or to one error.

use vstd::prelude::*;
use crate::decode::{decode_entry, decode_fields, decode_root, is_leaf, lookup, text_items};
use crate::document::{empty_url_under, first_empty_url, node_of, nodes_of, BookmarkItem};
use crate::model::{texts, Node};
use crate::value::Shape;

verus! {

/// A list of strings as a list of values.
pub open spec fn text_shapes(items: Seq<String>) -> Seq<Shape> {
    Seq::new(items.len(), |i: int| Shape::Text(items[i]@))
}

/// The `title` field that an entry with the title `title` has.
pub open spec fn title_field(title: Option<String>) -> Seq<(Seq<char>, Shape)> {
    match title {
        Some(t) => seq![("title"@, Shape::Text(t@))],
        None => Seq::empty(),
    }
}

/// A typed entry written as plain values: a leaf as the table of its
/// `url`, `keywords` and `title`, a group as the table of its children
/// and its `title`.
pub open spec fn entry_shape(item: BookmarkItem) -> Shape
    decreases item,
{
    match item {
        BookmarkItem::Item(meta) => Shape::Table(
            seq![
                ("url"@, Shape::Text(meta.url@)),
                ("keywords"@, Shape::List(text_shapes(meta.keywords@))),
            ] + title_field(meta.title),
        ),
        BookmarkItem::Group(group) => Shape::Table(
            fields_shape(group.items@) + title_field(group.title),
        ),
    }
}

/// A typed mapping written as the fields of a table, in key order.
pub open spec fn fields_shape(entries: Seq<(String, BookmarkItem)>) -> Seq<(Seq<char>, Shape)>
    decreases entries,
{
    Seq::new(
        entries.len(),
        |i: int|
            if 0 <= i < entries.len() {
                (entries[i].0@, entry_shape(entries[i].1))
            } else {
                (Seq::empty(), Shape::Other)
            },
    )
}

/// No group at or below the entry has a child under the key `title`,
/// which in a table is the group's own title.
pub open spec fn keys_plain(item: BookmarkItem) -> bool
    decreases item, 0int,
{
    match item {
        BookmarkItem::Item(_) => true,
        BookmarkItem::Group(group) => all_keys_plain(group.items@, 0, true),
    }
}

/// `keys_plain` of every entry from position `i` on; in a group none of
/// them stands under the key `title`.
pub open spec fn all_keys_plain(entries: Seq<(String, BookmarkItem)>, i: int, in_group: bool) -> bool
    decreases entries, entries.len() - i,
{
    if 0 <= i < entries.len() {
        (in_group ==> entries[i].0@ != "title"@) && keys_plain(entries[i].1) && all_keys_plain(
            entries,
            i + 1,
            in_group,
        )
    } else {
        true
    }
}

proof fn lemma_field_names()
    ensures
        "url"@ != "title"@,
        "url"@ != "keywords"@,
        "title"@ != "keywords"@,
{
    reveal_strlit("url");
    reveal_strlit("title");
    reveal_strlit("keywords");
    assert("url"@.len() == 3);
    assert("title"@.len() == 5);
    assert("keywords"@.len() == 8);
}

/// What the entries from `i` up to `n` come to, taken one after the
/// other: their nodes, or the path of the first empty URL.
spec fn typed_range(entries: Seq<(String, BookmarkItem)>, i: int, n: int) -> Result<
    Seq<Node>,
    Seq<Seq<char>>,
>
    decreases n - i,
{
    if i < 0 || n <= i || n > entries.len() {
        Ok(Seq::empty())
    } else {
        match typed_range(entries, i, n - 1) {
            Err(path) => Err(path),
            Ok(found) => match empty_url_under(entries[n - 1].0@, entries[n - 1].1) {
                Some(path) => Err(path),
                None => Ok(found.push(node_of(entries[n - 1].0@, entries[n - 1].1))),
            },
        }
    }
}

proof fn lemma_range_peel(entries: Seq<(String, BookmarkItem)>, i: int, n: int)
    requires
        0 <= i < n <= entries.len(),
    ensures
        typed_range(entries, i, n) == match empty_url_under(entries[i].0@, entries[i].1) {
            Some(path) => Err::<Seq<Node>, Seq<Seq<char>>>(path),
            None => match typed_range(entries, i + 1, n) {
                Err(path) => Err(path),
                Ok(found) => Ok(seq![node_of(entries[i].0@, entries[i].1)] + found),
            },
        },
    decreases n - i,
{
    let first = node_of(entries[i].0@, entries[i].1);
    if n == i + 1 {
        assert(typed_range(entries, i, i) == Ok::<Seq<Node>, Seq<Seq<char>>>(Seq::empty()));
        assert(seq![first] + Seq::<Node>::empty() =~= Seq::<Node>::empty().push(first));
    } else {
        lemma_range_peel(entries, i, n - 1);
        if let Ok(found) = typed_range(entries, i + 1, n - 1) {
            let last = node_of(entries[n - 1].0@, entries[n - 1].1);
            assert((seq![first] + found).push(last) =~= seq![first] + found.push(last));
        }
    }
}

proof fn lemma_range_is_first(entries: Seq<(String, BookmarkItem)>, i: int)
    requires
        0 <= i <= entries.len(),
    ensures
        typed_range(entries, i, entries.len() as int) == match first_empty_url(entries, i) {
            Some(path) => Err::<Seq<Node>, Seq<Seq<char>>>(path),
            None => Ok(nodes_of(entries).subrange(i, entries.len() as int)),
        },
    decreases entries.len() - i,
{
    let len = entries.len() as int;
    if i < len {
        lemma_range_peel(entries, i, len);
        lemma_range_is_first(entries, i + 1);
        assert(nodes_of(entries)[i] == node_of(entries[i].0@, entries[i].1));
        assert(seq![nodes_of(entries)[i]] + nodes_of(entries).subrange(i + 1, len) =~= nodes_of(
            entries,
        ).subrange(i, len));
    } else {
        assert(nodes_of(entries).subrange(i, len) =~= Seq::<Node>::empty());
    }
}

proof fn lemma_later_entry(entries: Seq<(String, BookmarkItem)>, i: int, j: int, in_group: bool)
    requires
        0 <= i <= j < entries.len(),
        all_keys_plain(entries, i, in_group),
    ensures
        keys_plain(entries[j].1),
        in_group ==> entries[j].0@ != "title"@,
    decreases j - i,
{
    if i < j {
        lemma_later_entry(entries, i + 1, j, in_group);
    }
}

/// A lookup that passes only tables up to `m` finds a table or goes on
/// from `m`.
proof fn lemma_lookup_tables(table: Seq<(Seq<char>, Shape)>, key: Seq<char>, from: int, m: int)
    requires
        0 <= from <= m <= table.len(),
        forall|i: int| from <= i < m ==> (#[trigger] table[i]).1 is Table,
    ensures
        (lookup(table, key, from) matches Some(found) && found is Table) || lookup(
            table,
            key,
            from,
        ) == lookup(table, key, m),
    decreases m - from,
{
    if from < m {
        lemma_lookup_tables(table, key, from + 1, m);
    }
}

/// A lookup that passes only other keys up to `m` goes on from `m`.
proof fn lemma_lookup_skips(table: Seq<(Seq<char>, Shape)>, key: Seq<char>, from: int, m: int)
    requires
        0 <= from <= m <= table.len(),
        forall|i: int| from <= i < m ==> (#[trigger] table[i]).0 != key,
    ensures
        lookup(table, key, from) == lookup(table, key, m),
    decreases m - from,
{
    if from < m {
        lemma_lookup_skips(table, key, from + 1, m);
    }
}

/// What the lookups find at the end of a table, where only the title
/// field is left.
proof fn lemma_lookup_title(table: Seq<(Seq<char>, Shape)>, m: int, title: Option<String>)
    requires
        0 <= m <= table.len(),
        table.subrange(m, table.len() as int) == title_field(title),
    ensures
        lookup(table, "title"@, m) == match title {
            Some(t) => Some(Shape::Text(t@)),
            None => None,
        },
        lookup(table, "url"@, m) is None,
        lookup(table, "keywords"@, m) is None,
{
    lemma_field_names();
    let rest = table.subrange(m, table.len() as int);
    match title {
        Some(t) => {
            assert(rest.len() == 1);
            assert(rest[0] == table[m]);
            assert(table[m] == ("title"@, Shape::Text(t@)));
            assert(lookup(table, "url"@, m + 1) is None);
            assert(lookup(table, "keywords"@, m + 1) is None);
        },
        None => {
            assert(rest.len() == 0);
        },
    }
}

proof fn lemma_entry_agrees(key: Seq<char>, item: BookmarkItem)
    requires
        keys_plain(item),
    ensures
        decode_entry(key, entry_shape(item)) == match empty_url_under(key, item) {
            Some(path) => Err::<Node, Seq<Seq<char>>>(path),
            None => Ok(node_of(key, item)),
        },
    decreases item, 0int,
{
    lemma_field_names();
    match item {
        BookmarkItem::Item(meta) => {
            let table = seq![
                ("url"@, Shape::Text(meta.url@)),
                ("keywords"@, Shape::List(text_shapes(meta.keywords@))),
            ] + title_field(meta.title);
            assert(entry_shape(item) == Shape::Table(table));
            assert(table[0] == ("url"@, Shape::Text(meta.url@)));
            assert(table[1] == ("keywords"@, Shape::List(text_shapes(meta.keywords@))));
            assert(table.subrange(2, table.len() as int) =~= title_field(meta.title));
            lemma_lookup_title(table, 2, meta.title);
            assert(lookup(table, "url"@, 0) == Some(Shape::Text(meta.url@)));
            assert(lookup(table, "keywords"@, 1) == Some(
                Shape::List(text_shapes(meta.keywords@)),
            ));
            assert(lookup(table, "keywords"@, 0) == lookup(table, "keywords"@, 1));
            assert(lookup(table, "title"@, 1) == lookup(table, "title"@, 2));
            assert(lookup(table, "title"@, 0) == lookup(table, "title"@, 1));
            assert(text_items(text_shapes(meta.keywords@)) =~= texts(meta.keywords@));
            assert(is_leaf(table));
        },
        BookmarkItem::Group(group) => {
            let m = group.items@.len() as int;
            let table = fields_shape(group.items@) + title_field(group.title);
            assert(entry_shape(item) == Shape::Table(table));
            assert(table.subrange(m, table.len() as int) =~= title_field(group.title));
            assert forall|i: int| 0 <= i < m implies (#[trigger] table[i]).1 is Table && table[i].0
                != "title"@ && table[i] == fields_shape(group.items@)[i] by {
                lemma_later_entry(group.items@, 0, i, true);
                assert(table[i] == (group.items@[i].0@, entry_shape(group.items@[i].1)));
            }
            lemma_lookup_title(table, m, group.title);
            lemma_lookup_tables(table, "url"@, 0, m);
            lemma_lookup_skips(table, "title"@, 0, m);
            assert(!is_leaf(table));
            lemma_fields_agree(table, group.items@, m, true);
            lemma_range_is_first(group.items@, 0);
            assert(nodes_of(group.items@).subrange(0, m) =~= nodes_of(group.items@));
            if group.title is Some {
                assert(table.len() == m + 1);
                assert(table[m].0 == "title"@);
                assert(decode_fields(table, m + 1, true) == decode_fields(table, m, true));
            } else {
                assert(table.len() == m);
            }
        },
    }
}

proof fn lemma_fields_agree(
    table: Seq<(Seq<char>, Shape)>,
    entries: Seq<(String, BookmarkItem)>,
    n: int,
    in_group: bool,
)
    requires
        0 <= n <= entries.len() <= table.len(),
        forall|i: int| 0 <= i < entries.len() ==> #[trigger] table[i] == fields_shape(entries)[i],
        all_keys_plain(entries, 0, in_group),
    ensures
        decode_fields(table, n, in_group) == typed_range(entries, 0, n),
    decreases entries, n,
{
    if n > 0 {
        lemma_fields_agree(table, entries, n - 1, in_group);
        lemma_later_entry(entries, 0, n - 1, in_group);
        lemma_entry_agrees(entries[n - 1].0@, entries[n - 1].1);
        assert(table[n - 1] == (entries[n - 1].0@, entry_shape(entries[n - 1].1)));
    }
}

/// A typed document none of whose groups has a child under the key
/// `title` decodes from its plain values to what is built from it
/// directly: the same tree where no leaf has an empty URL, else the same
/// path, to the `url` field of the first such leaf.
pub proof fn lemma_routes_agree(entries: Seq<(String, BookmarkItem)>)
    requires
        all_keys_plain(entries, 0, false),
    ensures
        decode_root(Shape::Table(fields_shape(entries))) == match first_empty_url(entries, 0) {
            Some(path) => Err::<Seq<Node>, Seq<Seq<char>>>(path),
            None => Ok(nodes_of(entries)),
        },
{
    lemma_fields_agree(fields_shape(entries), entries, entries.len() as int, false);
    lemma_range_is_first(entries, 0);
    assert(nodes_of(entries).subrange(0, entries.len() as int) =~= nodes_of(entries));
}

} // verus!
