//! A structured document as plain data: strings, lists and tables in
//! document order, read from TOML text.

use vstd::prelude::*;

verus! {

/// What a document value is, independent of how it is stored.
pub enum Shape {
    Text(Seq<char>),
    List(Seq<Shape>),
    Table(Seq<(Seq<char>, Shape)>),
    /// Any value that is neither a string, a list nor a table.
    Other,
}

/// A document value.
pub enum Element {
    Text(String),
    List(Vec<Element>),
    /// The entries of a table, in document order.
    Table(Vec<(String, Element)>),
    /// A number, a boolean or a date.
    Other,
}

impl View for Element {
    type V = Shape;

    open spec fn view(&self) -> Shape
        decreases self,
    {
        match self {
            Element::Text(text) => Shape::Text(text@),
            Element::List(items) => Shape::List(shapes(items@)),
            Element::Table(entries) => Shape::Table(fields(entries@)),
            Element::Other => Shape::Other,
        }
    }
}

/// The shapes of a list of values, in order.
pub open spec fn shapes(items: Seq<Element>) -> Seq<Shape>
    decreases items,
{
    Seq::new(
        items.len(),
        |i: int|
            if 0 <= i < items.len() {
                items[i]@
            } else {
                Shape::Other
            },
    )
}

/// The keys and shapes of the entries of a table, in order.
pub open spec fn fields(entries: Seq<(String, Element)>) -> Seq<(Seq<char>, Shape)>
    decreases entries,
{
    Seq::new(
        entries.len(),
        |i: int|
            if 0 <= i < entries.len() {
                (entries[i].0@, entries[i].1@)
            } else {
                (Seq::empty(), Shape::Other)
            },
    )
}

/// `toml::Value`, carried from the parser to `plain_value` and never
/// looked into.
#[verifier::external_type_specification]
#[verifier::external_body]
pub struct ExTomlValue(toml::Value);

/// `toml::de::Error`, the parser's error; nothing is read from it.
#[verifier::external_type_specification]
#[verifier::external_body]
pub struct ExTomlError(toml::de::Error);

/// What a `toml::Value` holds: its strings, its arrays item by item and
/// its tables entry by entry, in the order in which `toml::Table::iter`
/// hands the entries out.
pub uninterp spec fn toml_shape(value: toml::Value) -> Shape;

/// The root table that `toml::from_str` reads from a text, where the
/// text is a TOML document.
pub uninterp spec fn toml_document(text: Seq<char>) -> Option<Shape>;

/// `toml::from_str`, asked for a table: the root table of the document,
/// or the parser's error where the text is no TOML document. The result
/// depends on the text alone.
#[verifier::external_body]
pub(crate) fn parse_toml(text: &str) -> (r: Result<toml::Value, toml::de::Error>)
    ensures
        match r {
            Ok(value) => toml_document(text@) == Some(toml_shape(value)),
            Err(_) => toml_document(text@) is None,
        },
{
    toml::from_str::<toml::Table>(text).map(toml::Value::Table)
}

/// Copies a `toml::Value` into an `Element`, variant by variant: a
/// string, an array item by item, a table entry by entry in the order of
/// `toml::Table::iter`, which with the crate's `preserve_order` feature is
/// the order of the document; every other variant becomes `Other`.
/// Nothing is claimed of the result but that it holds what the value
/// holds.
#[verifier::external_body]
pub(crate) fn plain_value(value: &toml::Value) -> (out: Element)
    ensures
        out@ == toml_shape(*value),
{
    match value {
        toml::Value::String(text) => Element::Text(text.clone()),
        toml::Value::Array(items) => Element::List(items.iter().map(plain_value).collect()),
        toml::Value::Table(table) => Element::Table(
            table.iter().map(|(key, item)| (key.clone(), plain_value(item))).collect(),
        ),
        _ => Element::Other,
    }
}

} // verus!
