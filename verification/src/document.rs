//! Header documents as text: the TOML parser and printer, behind contracts
//! that name what they return.

use crate::header::{keys_once, tidy, Node, NodeValue};
use vstd::prelude::*;

verus! {

/// The document type of the `toml` crate, which only the conversions below
/// take apart.
#[verifier::external_type_specification]
#[verifier::external_body]
pub struct ExTomlValue(toml::Value);

/// The document that `toml::from_str` reads from `text`, or `None` where it
/// reports an error.
pub uninterp spec fn document_of(text: Seq<char>) -> Option<NodeValue>;

/// The text that `toml::to_string` prints for a document of the value
/// `doc` in which no key stands twice, or `None` where it reports an error or
/// a float of `doc` is spelled in a way that `str::parse` does not read.
/// Such a document holds nothing but what its value says, so the text is a
/// matter of the value alone.
pub uninterp spec fn text_of(doc: NodeValue) -> Option<Seq<char>>;

/// Changes a `toml::Value` into a node, variant by variant; a float becomes
/// the text that `ToString::to_string` gives for it.
#[verifier::external_body]
fn node_of_toml(v: &toml::Value) -> Node {
    match v {
        toml::Value::String(s) => Node::String(s.clone()),
        toml::Value::Integer(i) => Node::Integer(*i),
        toml::Value::Float(x) => Node::Float(x.to_string()),
        toml::Value::Boolean(b) => Node::Boolean(*b),
        toml::Value::Datetime(d) => Node::Datetime(d.clone()),
        toml::Value::Array(a) => Node::Array(a.iter().map(node_of_toml).collect()),
        toml::Value::Table(t) => Node::Table(
            t.iter().map(|(k, v)| (k.clone(), node_of_toml(v))).collect(),
        ),
    }
}

/// Calls `str::parse` at the type that `toml::Value::Float` holds, and wraps
/// what it reads; `None` where it reports an error.
#[verifier::external_body]
fn float_of_text(text: &str) -> Option<toml::Value> {
    Some(toml::Value::Float(text.parse().ok()?))
}

/// Changes a node in which no key stands twice into a `toml::Value`,
/// variant by variant; `None` where the text of a float is not read.
#[verifier::external_body]
fn toml_of_node(n: &Node) -> Option<toml::Value>
    requires
        tidy(*n),
{
    match n {
        Node::String(s) => Some(toml::Value::String(s.clone())),
        Node::Integer(i) => Some(toml::Value::Integer(*i)),
        Node::Float(s) => float_of_text(s),
        Node::Boolean(b) => Some(toml::Value::Boolean(*b)),
        Node::Datetime(d) => Some(toml::Value::Datetime(d.clone())),
        Node::Array(a) => toml_of_items(a),
        Node::Table(t) => toml_of_fields(t),
    }
}

/// Changes the items of an array, one by one, into a `toml::Value::Array`.
#[verifier::external_body]
fn toml_of_items(items: &Vec<Node>) -> Option<toml::Value>
    requires
        forall|i: int| 0 <= i < items.len() ==> tidy(#[trigger] items@[i]),
{
    Some(toml::Value::Array(items.iter().map(toml_of_node).collect::<Option<_>>()?))
}

/// Changes the fields of a table, one by one, into a `toml::Value::Table`.
/// No key stands in two fields, so every field goes into the table.
#[verifier::external_body]
fn toml_of_fields(fields: &Vec<(String, Node)>) -> Option<toml::Value>
    requires
        keys_once(fields@),
        forall|i: int| 0 <= i < fields.len() ==> tidy((#[trigger] fields@[i]).1),
{
    let pairs = fields.iter().map(|(k, v)| Some((k.clone(), toml_of_node(v)?)));
    Some(toml::Value::Table(pairs.collect::<Option<_>>()?))
}

/// Calls `toml::from_str` at the type `toml::Value`. The contract names the
/// document it reads and says nothing about it; the error is handed on as the
/// text that the parser gives for it.
#[verifier::external_body]
pub(crate) fn parse_document(text: &str) -> (r: Result<Node, String>)
    ensures
        match r {
            Ok(doc) => document_of(text@) == Some(doc@),
            Err(_) => document_of(text@) is None,
        },
{
    match toml::from_str::<toml::Value>(text) {
        Ok(v) => Ok(node_of_toml(&v)),
        Err(e) => Err(e.to_string()),
    }
}

/// Calls `toml::to_string` on a document in which no key stands twice. The
/// contract names the text it prints and says nothing about it.
#[verifier::external_body]
pub(crate) fn render_document(doc: &Node) -> (r: Option<String>)
    requires
        tidy(*doc),
    ensures
        match r {
            Some(text) => text_of(doc@) == Some(text@),
            None => text_of(doc@) is None,
        },
{
    toml::to_string(&toml_of_node(doc)?).ok()
}

/// The float node that `str::parse` reads from `text`, at the type that
/// `toml::Value::Float` holds; `None` where it reports an error.
pub uninterp spec fn float_of(text: Seq<char>) -> Option<NodeValue>;

/// The date-and-time node that `toml::value::Datetime::from_str` reads from
/// `text`; `None` where it reports an error.
pub uninterp spec fn datetime_of(text: Seq<char>) -> Option<NodeValue>;

/// Reads a float with `str::parse`, at the type that `toml::Value::Float`
/// holds, and hands it back as a node. The contract names the node that
/// comes of it and says only that it is a float.
#[verifier::external_body]
pub(crate) fn parse_float(text: &str) -> (r: Option<Node>)
    ensures
        match r {
            Some(node) => float_of(text@) == Some(node@) && node@ is Float,
            None => float_of(text@) is None,
        },
{
    Some(node_of_toml(&float_of_text(text)?))
}

/// Calls `toml::value::Datetime::from_str`. The contract names the node that
/// comes of it and says only that it is a date and time.
#[verifier::external_body]
pub(crate) fn parse_datetime(text: &str) -> (r: Option<Node>)
    ensures
        match r {
            Some(node) => datetime_of(text@) == Some(node@) && node@ is Datetime,
            None => datetime_of(text@) is None,
        },
{
    Some(Node::Datetime(text.parse().ok()?))
}

} // verus!
