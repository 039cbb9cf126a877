//! The header document of an entry, and the accessor that reads and writes it
//! by dotted paths.
//!
//! A path is cut at every `.` into segments. On a table a segment is a key; on
//! an array it is a position written in decimal digits.

use crate::text::{chars_of, decimal, is_digit, split, split_chars, texts};
use vstd::prelude::*;

verus! {

/// The date and time of the `toml` crate. A node carries such a value
/// through; nothing in this library looks into it.
#[verifier::external_type_specification]
#[verifier::external_body]
pub struct ExDatetime(toml::value::Datetime);

/// `Clone` of `toml::value::Datetime` is derived: the copy equals what was
/// copied.
pub assume_specification[ <toml::value::Datetime as Clone>::clone ](
    d: &toml::value::Datetime,
) -> (r: toml::value::Datetime)
    ensures
        r == *d,
;

/// `PartialEq` of `toml::value::Datetime` is derived over its fields, which
/// are plain numbers: two values are equal exactly when they are the same.
#[verifier::external_body]
fn same_datetime(a: &toml::value::Datetime, b: &toml::value::Datetime) -> (r: bool)
    ensures
        r == (*a == *b),
{
    a == b
}

/// One node of a header document.
///
/// A float is kept as the text that spells it, a date or time as the value of
/// the document parser. A table is a list of fields; where a key stands in
/// several fields, the first of them counts and the others are not seen.
/// Two nodes are equal when their values are: the order of the fields of a
/// table does not count.
#[derive(Debug)]
pub enum Node {
    String(String),
    Integer(i64),
    Float(String),
    Boolean(bool),
    Datetime(toml::value::Datetime),
    Array(Vec<Node>),
    Table(Vec<(String, Node)>),
}

/// The mathematical value of a [`Node`]. A table is a map from keys to
/// values: the order of its fields is no part of its value.
pub enum NodeValue {
    String(Seq<char>),
    Integer(int),
    Float(Seq<char>),
    Boolean(bool),
    Datetime(toml::value::Datetime),
    Array(Seq<NodeValue>),
    Table(Map<Seq<char>, NodeValue>),
}

/// `i` is the first field with the key `key`.
pub open spec fn is_first(fields: Seq<(String, Node)>, key: Seq<char>, i: int) -> bool {
    &&& 0 <= i < fields.len()
    &&& fields[i].0@ == key
    &&& forall|j: int| 0 <= j < i ==> fields[j].0@ != key
}

/// Some field has the key `key`.
pub open spec fn has_key(fields: Seq<(String, Node)>, key: Seq<char>) -> bool {
    exists|i: int| is_first(fields, key, i)
}

/// The first field with the key `key`, where there is one.
pub open spec fn first(fields: Seq<(String, Node)>, key: Seq<char>) -> int {
    choose|i: int| is_first(fields, key, i)
}

impl View for Node {
    type V = NodeValue;

    open spec fn view(&self) -> NodeValue
        decreases self,
    {
        match self {
            Node::String(s) => NodeValue::String(s@),
            Node::Integer(i) => NodeValue::Integer(*i as int),
            Node::Float(s) => NodeValue::Float(s@),
            Node::Boolean(b) => NodeValue::Boolean(*b),
            Node::Datetime(d) => NodeValue::Datetime(*d),
            Node::Array(items) => NodeValue::Array(
                Seq::new(
                    items.len() as nat,
                    |i: int|
                        if 0 <= i < items.len() {
                            items[i]@
                        } else {
                            NodeValue::Boolean(false)
                        },
                ),
            ),
            Node::Table(fields) => NodeValue::Table(
                Map::new(
                    |k: Seq<char>| has_key(fields@, k),
                    |k: Seq<char>|
                        {
                            let i = first(fields@, k);
                            if 0 <= i < fields.len() {
                                fields[i].1@
                            } else {
                                NodeValue::Boolean(false)
                            }
                        },
                ),
            ),
        }
    }
}

/// The values of the items of an array.
pub open spec fn items_view(items: Seq<Node>) -> Seq<NodeValue> {
    Seq::new(items.len(), |i: int| items[i]@)
}

/// The map that a list of fields stands for: each key with the value of the
/// first field that has it.
pub open spec fn fields_view(fields: Seq<(String, Node)>) -> Map<Seq<char>, NodeValue> {
    Map::new(|k: Seq<char>| has_key(fields, k), |k: Seq<char>| fields[first(fields, k)].1@)
}

/// The value of an array is the values of its items.
pub proof fn lemma_view_array(items: Vec<Node>)
    ensures
        Node::Array(items)@ == NodeValue::Array(items_view(items@)),
{
    assert(Node::Array(items)@->Array_0 =~= items_view(items@));
}

/// The value of a table is the map that its fields stand for.
pub proof fn lemma_view_table(fields: Vec<(String, Node)>)
    ensures
        Node::Table(fields)@ == NodeValue::Table(fields_view(fields@)),
{
    assert(Node::Table(fields)@->Table_0 =~= fields_view(fields@));
}

/// The first field with a key is the one that the key leads to.
pub proof fn lemma_first(fields: Seq<(String, Node)>, key: Seq<char>, i: int)
    requires
        is_first(fields, key, i),
    ensures
        has_key(fields, key),
        first(fields, key) == i,
        fields_view(fields).contains_key(key),
        fields_view(fields)[key] == fields[i].1@,
{
    let c = first(fields, key);
    if c < i {
        assert(fields[c].0@ != key);
    } else if i < c {
        assert(fields[i].0@ != key);
    }
}

/// A key that stands in a field has a first field.
pub proof fn lemma_has_key(fields: Seq<(String, Node)>, key: Seq<char>, j: int)
    requires
        0 <= j < fields.len(),
        fields[j].0@ == key,
    ensures
        has_key(fields, key),
        first(fields, key) <= j,
    decreases j,
{
    if exists|k: int| 0 <= k < j && fields[k].0@ == key {
        let k = choose|k: int| 0 <= k < j && fields[k].0@ == key;
        lemma_has_key(fields, key, k);
    } else {
        assert(is_first(fields, key, j));
        lemma_first(fields, key, j);
    }
}

/// Two lists of fields with the same keys and values, field by field, stand
/// for the same map.
pub proof fn lemma_same_fields(a: Seq<(String, Node)>, b: Seq<(String, Node)>)
    requires
        a.len() == b.len(),
        forall|j: int| 0 <= j < a.len() ==> a[j].0@ == b[j].0@ && a[j].1@ == b[j].1@,
    ensures
        fields_view(a) == fields_view(b),
{
    assert forall|k: Seq<char>| has_key(a, k) implies has_key(b, k) && fields_view(a)[k]
        == fields_view(b)[k] by {
        let i = first(a, k);
        assert(is_first(b, k, i));
        lemma_first(a, k, i);
        lemma_first(b, k, i);
    }
    assert forall|k: Seq<char>| has_key(b, k) implies has_key(a, k) by {
        let i = first(b, k);
        assert(is_first(a, k, i));
    }
    assert(fields_view(a) =~= fields_view(b));
}

/// Changing the value of the first field with a key changes the map at
/// that key and nowhere else.
pub proof fn lemma_field_changed(
    before: Seq<(String, Node)>,
    after: Seq<(String, Node)>,
    key: Seq<char>,
    i: int,
)
    requires
        is_first(before, key, i),
        after.len() == before.len(),
        forall|j: int| 0 <= j < before.len() ==> after[j].0@ == before[j].0@,
        forall|j: int| 0 <= j < before.len() && j != i ==> after[j].1@ == before[j].1@,
    ensures
        fields_view(after) == fields_view(before).insert(key, after[i].1@),
{
    let want = fields_view(before).insert(key, after[i].1@);
    assert(is_first(after, key, i));
    lemma_first(after, key, i);
    assert forall|k: Seq<char>| has_key(after, k) implies want.contains_key(k) && fields_view(
        after,
    )[k] == want[k] by {
        let c = first(after, k);
        assert(is_first(before, k, c));
        lemma_first(before, k, c);
        lemma_first(after, k, c);
    }
    assert forall|k: Seq<char>| want.contains_key(k) implies has_key(after, k) by {
        if k != key {
            let c = first(before, k);
            assert(is_first(after, k, c));
        }
    }
    assert(fields_view(after) =~= want);
}

/// A field with a new key, put behind the others, adds its key and value to
/// the map.
pub proof fn lemma_field_added(before: Seq<(String, Node)>, field: (String, Node))
    requires
        !has_key(before, field.0@),
    ensures
        fields_view(before.push(field)) == fields_view(before).insert(field.0@, field.1@),
{
    let after = before.push(field);
    let want = fields_view(before).insert(field.0@, field.1@);
    let n = before.len() as int;
    assert forall|j: int| 0 <= j < n implies before[j].0@ != field.0@ by {
        if before[j].0@ == field.0@ {
            lemma_has_key(before, field.0@, j);
        }
    }
    assert(is_first(after, field.0@, n));
    lemma_first(after, field.0@, n);
    assert forall|k: Seq<char>| has_key(after, k) implies want.contains_key(k) && fields_view(
        after,
    )[k] == want[k] by {
        let c = first(after, k);
        lemma_first(after, k, c);
        if c < n {
            assert forall|j: int| 0 <= j < c implies before[j].0@ != k by {
                assert(after[j] == before[j]);
            }
            assert(after[c] == before[c]);
            assert(is_first(before, k, c));
            lemma_first(before, k, c);
        }
    }
    assert forall|k: Seq<char>| want.contains_key(k) implies has_key(after, k) by {
        if k != field.0@ {
            let c = first(before, k);
            assert(is_first(after, k, c));
        }
    }
    assert(fields_view(after) =~= want);
}

/// Taking out a field with the key `key` leaves the map as it was at every
/// other key.
pub proof fn lemma_field_removed(before: Seq<(String, Node)>, key: Seq<char>, i: int)
    requires
        0 <= i < before.len(),
        before[i].0@ == key,
    ensures
        fields_view(before.remove(i)).remove(key) == fields_view(before).remove(key),
{
    let after = before.remove(i);
    let a = fields_view(after).remove(key);
    let b = fields_view(before).remove(key);
    assert forall|k: Seq<char>| #[trigger] a.contains_key(k) implies b.contains_key(k) && a[k]
        == b[k] by {
        let c = first(after, k);
        lemma_first(after, k, c);
        let d = if c < i {
            c
        } else {
            c + 1
        };
        assert(after[c] == before[d]);
        assert forall|j: int| 0 <= j < d implies before[j].0@ != k by {
            if j < i {
                assert(after[j] == before[j]);
            } else if j > i {
                assert(after[j - 1] == before[j]);
            }
        }
        assert(is_first(before, k, d));
        lemma_first(before, k, d);
    }
    assert forall|k: Seq<char>| #[trigger] b.contains_key(k) implies a.contains_key(k) by {
        let d = first(before, k);
        lemma_first(before, k, d);
        let c = if d < i {
            d
        } else {
            d - 1
        };
        assert(after[c] == before[d]);
        assert forall|j: int| 0 <= j < c implies after[j].0@ != k by {
            if j < i {
                assert(after[j] == before[j]);
            } else {
                assert(after[j] == before[j + 1]);
            }
        }
        assert(is_first(after, k, c));
    }
    assert(a =~= b);
}

/// What went wrong in an access.
#[derive(Clone, Copy, Debug, PartialEq, Eq, Structural)]
pub enum HeaderErrorKind {
    /// The path runs through a node that is not of the kind it needs there.
    TypeError,
    /// The write has no place to go to.
    WriteError,
}

/// A failed access, with the path that was asked for.
#[derive(Debug)]
pub struct HeaderError {
    pub kind: HeaderErrorKind,
    pub path: String,
}

/// The outcome of following a path.
pub enum Lookup {
    /// The path ends at this value.
    Found(NodeValue),
    /// A key or a position on the path is not there.
    Absent,
    /// The path asks a scalar for a field or an item, or an array for a key.
    Mismatch,
}

/// The position that a segment names in an array: the segment is made of
/// decimal digits, at least one.
pub open spec fn as_index(segment: Seq<char>) -> Option<nat> {
    if segment.len() > 0 && forall|i: int| 0 <= i < segment.len() ==> is_digit(segment[i]) {
        Some(decimal(segment))
    } else {
        None
    }
}

/// The segments of a dotted path.
pub open spec fn segments(path: Seq<char>) -> Seq<Seq<char>> {
    split(path, '.')
}

/// Follows `path` from `v`, one segment after the other.
pub open spec fn resolve(v: NodeValue, path: Seq<Seq<char>>) -> Lookup
    decreases path.len(),
{
    if path.len() == 0 {
        Lookup::Found(v)
    } else {
        match v {
            NodeValue::Table(fields) => if fields.contains_key(path[0]) {
                resolve(fields[path[0]], path.drop_first())
            } else {
                Lookup::Absent
            },
            NodeValue::Array(items) => match as_index(path[0]) {
                Some(n) => if n < items.len() {
                    resolve(items[n as int], path.drop_first())
                } else {
                    Lookup::Absent
                },
                None => Lookup::Mismatch,
            },
            _ => Lookup::Mismatch,
        }
    }
}

/// Where a segment points in an array of `len` items.
pub enum Slot {
    /// The segment is no position.
    NotAnIndex,
    /// The position of an item.
    Within(usize),
    /// The position just behind the last item.
    AtEnd,
    /// A position further out.
    Beyond,
}

/// Reads a segment as a position in an array of `len` items.
pub fn slot_of(segment: &String, len: usize) -> (r: Slot)
    ensures
        match as_index(segment@) {
            None => r is NotAnIndex,
            Some(n) => if n < len {
                r == Slot::Within(n as usize)
            } else if n == len {
                r is AtEnd
            } else {
                r is Beyond
            },
        },
{
    let digits = chars_of(segment.as_str());
    if digits.len() == 0 {
        return Slot::NotAnIndex;
    }
    let mut n: usize = 0;
    let mut beyond = false;
    let mut i: usize = 0;
    assert(digits@.take(0) =~= Seq::<char>::empty());
    while i < digits.len()
        invariant
            i <= digits.len(),
            digits@ == segment@,
            forall|j: int| 0 <= j < i ==> is_digit(digits@[j]),
            beyond ==> decimal(digits@.take(i as int)) > len,
            !beyond ==> n == decimal(digits@.take(i as int)) && n <= len,
        decreases digits.len() - i,
    {
        let c = digits[i];
        if !('0' <= c && c <= '9') {
            return Slot::NotAnIndex;
        }
        assert(digits@.take(i + 1).drop_last() =~= digits@.take(i as int));
        assert(digits@.take(i + 1).last() == c);
        let d: u128 = (c as u32 - '0' as u32) as u128;
        if !beyond {
            let next: u128 = (n as u128) * 10 + d;
            if next > len as u128 {
                beyond = true;
            } else {
                n = next as usize;
            }
        }
        i += 1;
    }
    assert(digits@.take(digits.len() as int) =~= digits@);
    if beyond {
        Slot::Beyond
    } else if n < len {
        Slot::Within(n)
    } else {
        Slot::AtEnd
    }
}

/// The first field of `fields` whose key is `key`.
pub fn find_field(fields: &Vec<(String, Node)>, key: &String) -> (r: Option<usize>)
    ensures
        match r {
            Some(i) => is_first(fields@, key@, i as int) && fields_view(fields@).contains_key(key@)
                && fields_view(fields@)[key@] == fields@[i as int].1@,
            None => !has_key(fields@, key@) && !fields_view(fields@).contains_key(key@),
        },
{
    let mut i: usize = 0;
    while i < fields.len()
        invariant
            i <= fields.len(),
            forall|j: int| 0 <= j < i ==> fields@[j].0@ != key@,
        decreases fields.len() - i,
    {
        if fields[i].0 == *key {
            proof {
                lemma_first(fields@, key@, i as int);
            }
            return Some(i);
        }
        i += 1;
    }
    None
}

fn type_error(path: &str) -> (e: HeaderError)
    ensures
        e.kind == HeaderErrorKind::TypeError,
        e.path@ == path@,
{
    HeaderError { kind: HeaderErrorKind::TypeError, path: path.to_string() }
}

fn write_error(path: &str) -> (e: HeaderError)
    ensures
        e.kind == HeaderErrorKind::WriteError,
        e.path@ == path@,
{
    HeaderError { kind: HeaderErrorKind::WriteError, path: path.to_string() }
}

/// Follows the segments `path` from `header`: the node they lead to,
/// `Ok(None)` where a key or a position is missing, `Err(())` where the
/// path asks a scalar for a field or an item, or an array for something that
/// is no position.
pub fn follow<'a>(header: &'a Node, path: &Vec<String>) -> (r: Result<Option<&'a Node>, ()>)
    ensures
        match resolve(header@, texts(path@)) {
            Lookup::Found(v) => r matches Ok(Some(n)) && n@ == v,
            Lookup::Absent => r matches Ok(None),
            Lookup::Mismatch => r is Err,
        },
{
    let mut cur: &Node = header;
    let mut i: usize = 0;
    assert(texts(path@).skip(0) =~= texts(path@));
    while i < path.len()
        invariant
            i <= path.len(),
            resolve(header@, texts(path@)) == resolve(cur@, texts(path@).skip(i as int)),
        decreases path.len() - i,
    {
        let ghost rest = texts(path@).skip(i as int);
        assert(rest[0] == path@[i as int]@);
        assert(rest.drop_first() =~= texts(path@).skip(i + 1));
        match cur {
            Node::Table(fields) => {
                proof {
                    lemma_view_table(*fields);
                }
                match find_field(fields, &path[i]) {
                    Some(k) => {
                        cur = &fields[k].1;
                    },
                    None => {
                        return Ok(None);
                    },
                }
            },
            Node::Array(items) => {
                proof {
                    lemma_view_array(*items);
                }
                match slot_of(&path[i], items.len()) {
                    Slot::Within(n) => {
                        cur = &items[n];
                    },
                    Slot::NotAnIndex => {
                        return Err(());
                    },
                    _ => {
                        return Ok(None);
                    },
                }
            },
            _ => {
                return Err(());
            },
        }
        i += 1;
    }
    Ok(Some(cur))
}

/// Looks up the node at `path`.
///
/// `Ok(None)` says that a key or a position on the way is missing. The access
/// fails only where the path asks a scalar for a field or an item, or an
/// array for something that is no position.
pub fn read<'a>(header: &'a Node, path: &str) -> (r: Result<Option<&'a Node>, HeaderError>)
    ensures
        match resolve(header@, segments(path@)) {
            Lookup::Found(v) => r matches Ok(Some(n)) && n@ == v,
            Lookup::Absent => r matches Ok(None),
            Lookup::Mismatch => r matches Err(e) && e.kind == HeaderErrorKind::TypeError && e.path@
                == path@,
        },
{
    let chars = chars_of(path);
    let segs = split_chars(&chars, '.');
    match follow(header, &segs) {
        Ok(found) => Ok(found),
        Err(_) => Err(type_error(path)),
    }
}

/// The chain of one-field tables that leads along `path` to `leaf`.
pub open spec fn nest(path: Seq<Seq<char>>, leaf: NodeValue) -> NodeValue
    decreases path.len(),
{
    if path.len() == 0 {
        leaf
    } else {
        NodeValue::Table(Map::empty().insert(path[0], nest(path.drop_first(), leaf)))
    }
}

/// The document `v` with `new` put at `path`, or `None` where the path cannot
/// be followed: it runs through a scalar, names an array by something that is
/// no position, or names a position beyond the end of an array.
///
/// A key that a table lacks is added, with a chain of tables for the
/// segments that follow; the position just behind an array appends.
pub open spec fn inserted(v: NodeValue, path: Seq<Seq<char>>, new: NodeValue) -> Option<NodeValue>
    decreases path.len(),
{
    if path.len() == 0 {
        Some(new)
    } else {
        match v {
            NodeValue::Table(fields) => if fields.contains_key(path[0]) {
                match inserted(fields[path[0]], path.drop_first(), new) {
                    Some(child) => Some(NodeValue::Table(fields.insert(path[0], child))),
                    None => None,
                }
            } else {
                Some(NodeValue::Table(fields.insert(path[0], nest(path.drop_first(), new))))
            },
            NodeValue::Array(items) => match as_index(path[0]) {
                Some(n) => if n < items.len() {
                    match inserted(items[n as int], path.drop_first(), new) {
                        Some(child) => Some(NodeValue::Array(items.update(n as int, child))),
                        None => None,
                    }
                } else if n == items.len() {
                    Some(NodeValue::Array(items.push(nest(path.drop_first(), new))))
                } else {
                    None
                },
                None => None,
            },
            _ => None,
        }
    }
}

/// The document `v` without what stands at `path`, or `None` where nothing
/// stands there. A key leaves its table; an item leaves its array, and the
/// items behind it move up.
pub open spec fn removed(v: NodeValue, path: Seq<Seq<char>>) -> Option<NodeValue>
    decreases path.len(),
{
    if path.len() == 0 {
        None
    } else {
        match v {
            NodeValue::Table(fields) => if fields.contains_key(path[0]) {
                if path.len() == 1 {
                    Some(NodeValue::Table(fields.remove(path[0])))
                } else {
                    match removed(fields[path[0]], path.drop_first()) {
                        Some(child) => Some(NodeValue::Table(fields.insert(path[0], child))),
                        None => None,
                    }
                }
            } else {
                None
            },
            NodeValue::Array(items) => match as_index(path[0]) {
                Some(n) => if n < items.len() {
                    if path.len() == 1 {
                        Some(NodeValue::Array(items.remove(n as int)))
                    } else {
                        match removed(items[n as int], path.drop_first()) {
                            Some(child) => Some(NodeValue::Array(items.update(n as int, child))),
                            None => None,
                        }
                    }
                } else {
                    None
                },
                None => None,
            },
            _ => None,
        }
    }
}

fn build_nest(path: &Vec<String>, from: usize, leaf: Node) -> (r: Node)
    requires
        from <= path.len(),
    ensures
        r@ == nest(texts(path@).skip(from as int), leaf@),
    decreases path.len() - from,
{
    if from == path.len() {
        leaf
    } else {
        let ghost rest = texts(path@).skip(from as int);
        assert(rest[0] == path@[from as int]@);
        assert(rest.drop_first() =~= texts(path@).skip(from + 1));
        let child = build_nest(path, from + 1, leaf);
        let mut fields: Vec<(String, Node)> = Vec::new();
        let field = (path[from].clone(), child);
        proof {
            assert(!has_key(fields@, field.0@));
            lemma_field_added(fields@, field);
            assert(fields_view(fields@) =~= Map::<Seq<char>, NodeValue>::empty());
        }
        fields.push(field);
        proof {
            lemma_view_table(fields);
        }
        Node::Table(fields)
    }
}

fn insert_at(node: &mut Node, path: &Vec<String>, from: usize, value: Node) -> (done: bool)
    requires
        from <= path.len(),
    ensures
        match inserted(old(node)@, texts(path@).skip(from as int), value@) {
            Some(v) => done && final(node)@ == v,
            None => !done && final(node)@ == old(node)@,
        },
    decreases path.len() - from,
{
    if from == path.len() {
        *node = value;
        return true;
    }
    let ghost rest = texts(path@).skip(from as int);
    assert(rest[0] == path@[from as int]@);
    assert(rest.drop_first() =~= texts(path@).skip(from + 1));
    match node {
        Node::Table(fields) => {
            let ghost before = *fields;
            proof {
                lemma_view_table(before);
            }
            match find_field(fields, &path[from]) {
                Some(k) => {
                    let done = insert_at(&mut fields[k].1, path, from + 1, value);
                    proof {
                        lemma_view_table(*fields);
                        if done {
                            lemma_field_changed(before@, fields@, rest[0], k as int);
                        } else {
                            lemma_same_fields(before@, fields@);
                        }
                    }
                    done
                },
                None => {
                    let child = build_nest(path, from + 1, value);
                    let field = (path[from].clone(), child);
                    proof {
                        lemma_field_added(before@, field);
                    }
                    fields.push(field);
                    proof {
                        lemma_view_table(*fields);
                    }
                    true
                },
            }
        },
        Node::Array(items) => {
            let ghost before = *items;
            proof {
                lemma_view_array(before);
            }
            match slot_of(&path[from], items.len()) {
                Slot::Within(n) => {
                    let done = insert_at(&mut items[n], path, from + 1, value);
                    proof {
                        lemma_view_array(*items);
                        if done {
                            assert(items_view(items@) =~= items_view(before@).update(
                                n as int,
                                items@[n as int]@,
                            ));
                        } else {
                            assert(items_view(items@) =~= items_view(before@));
                        }
                    }
                    done
                },
                Slot::AtEnd => {
                    let child = build_nest(path, from + 1, value);
                    items.push(child);
                    proof {
                        lemma_view_array(*items);
                        assert(items_view(items@) =~= items_view(before@).push(child@));
                    }
                    true
                },
                _ => false,
            }
        },
        _ => false,
    }
}

fn set_at(node: &mut Node, path: &Vec<String>, from: usize, value: Node) -> (r: Option<Node>)
    requires
        from <= path.len(),
    ensures
        match resolve(old(node)@, texts(path@).skip(from as int)) {
            Lookup::Found(prev) => r matches Some(p) && p@ == prev && Some(final(node)@)
                == inserted(old(node)@, texts(path@).skip(from as int), value@),
            _ => r is None && final(node)@ == old(node)@,
        },
    decreases path.len() - from,
{
    if from == path.len() {
        let mut slot = value;
        std::mem::swap(node, &mut slot);
        return Some(slot);
    }
    let ghost rest = texts(path@).skip(from as int);
    assert(rest[0] == path@[from as int]@);
    assert(rest.drop_first() =~= texts(path@).skip(from + 1));
    match node {
        Node::Table(fields) => {
            let ghost before = *fields;
            proof {
                lemma_view_table(before);
            }
            match find_field(fields, &path[from]) {
                Some(k) => {
                    let prev = set_at(&mut fields[k].1, path, from + 1, value);
                    proof {
                        lemma_view_table(*fields);
                        if prev is Some {
                            lemma_field_changed(before@, fields@, rest[0], k as int);
                        } else {
                            lemma_same_fields(before@, fields@);
                        }
                    }
                    prev
                },
                None => None,
            }
        },
        Node::Array(items) => {
            let ghost before = *items;
            proof {
                lemma_view_array(before);
            }
            match slot_of(&path[from], items.len()) {
                Slot::Within(n) => {
                    let prev = set_at(&mut items[n], path, from + 1, value);
                    proof {
                        lemma_view_array(*items);
                        if prev is Some {
                            assert(items_view(items@) =~= items_view(before@).update(
                                n as int,
                                items@[n as int]@,
                            ));
                        } else {
                            assert(items_view(items@) =~= items_view(before@));
                        }
                    }
                    prev
                },
                _ => None,
            }
        },
        _ => None,
    }
}

/// Takes every field with the key `key` out of `fields` and hands back the
/// value of the first of them.
fn take_field(fields: &mut Vec<(String, Node)>, key: &String) -> (r: Option<Node>)
    ensures
        fields_view(final(fields)@) == fields_view(old(fields)@).remove(key@),
        match r {
            Some(n) => fields_view(old(fields)@).contains_key(key@) && n@ == fields_view(
                old(fields)@,
            )[key@],
            None => !fields_view(old(fields)@).contains_key(key@),
        },
{
    let ghost before = fields@;
    let mut out: Option<Node> = None;
    let mut i: usize = 0;
    while i < fields.len()
        invariant
            i <= fields.len(),
            forall|j: int| 0 <= j < i ==> fields@[j].0@ != key@,
            fields_view(fields@).remove(key@) == fields_view(before).remove(key@),
            match out {
                Some(n) => has_key(before, key@) && n@ == fields_view(before)[key@],
                None => fields@ == before,
            },
        decreases fields.len() - i,
    {
        if fields[i].0 == *key {
            let ghost now = fields@;
            proof {
                lemma_field_removed(now, key@, i as int);
                if out is None {
                    lemma_first(before, key@, i as int);
                }
            }
            let field = fields.remove(i);
            if out.is_none() {
                out = Some(field.1);
            }
        } else {
            i += 1;
        }
    }
    proof {
        assert(!has_key(fields@, key@)) by {
            if has_key(fields@, key@) {
                let c = first(fields@, key@);
                assert(fields@[c].0@ == key@);
            }
        }
        assert(fields_view(fields@).remove(key@) =~= fields_view(fields@));
        if out is None {
            assert(!has_key(before, key@));
        }
    }
    out
}

fn delete_at(node: &mut Node, path: &Vec<String>, from: usize) -> (r: Option<Node>)
    requires
        from < path.len(),
    ensures
        match resolve(old(node)@, texts(path@).skip(from as int)) {
            Lookup::Found(prev) => r matches Some(p) && p@ == prev && Some(final(node)@)
                == removed(old(node)@, texts(path@).skip(from as int)),
            _ => r is None && final(node)@ == old(node)@,
        },
    decreases path.len() - from,
{
    let ghost rest = texts(path@).skip(from as int);
    assert(rest[0] == path@[from as int]@);
    assert(rest.drop_first() =~= texts(path@).skip(from + 1));
    let last = from + 1 == path.len();
    assert(rest.len() == path.len() - from);
    assert(rest.drop_first().len() == rest.len() - 1);
    match node {
        Node::Table(fields) => {
            let ghost before = *fields;
            proof {
                lemma_view_table(before);
            }
            if last {
                let taken = take_field(fields, &path[from]);
                proof {
                    lemma_view_table(*fields);
                    if taken is Some {
                        let v = fields_view(before@)[rest[0]];
                        assert(resolve(v, rest.drop_first()) == Lookup::Found(v));
                    } else {
                        assert(fields_view(fields@) =~= fields_view(before@));
                    }
                }
                taken
            } else {
                match find_field(fields, &path[from]) {
                    Some(k) => {
                        let prev = delete_at(&mut fields[k].1, path, from + 1);
                        proof {
                            lemma_view_table(*fields);
                            if prev is Some {
                                lemma_field_changed(before@, fields@, rest[0], k as int);
                            } else {
                                lemma_same_fields(before@, fields@);
                            }
                        }
                        prev
                    },
                    None => None,
                }
            }
        },
        Node::Array(items) => {
            let ghost before = *items;
            proof {
                lemma_view_array(before);
            }
            match slot_of(&path[from], items.len()) {
                Slot::Within(n) => {
                    if last {
                        let item = items.remove(n);
                        proof {
                            lemma_view_array(*items);
                            assert(items_view(items@) =~= items_view(before@).remove(n as int));
                            assert(resolve(item@, rest.drop_first()) == Lookup::Found(item@));
                        }
                        Some(item)
                    } else {
                        let prev = delete_at(&mut items[n], path, from + 1);
                        proof {
                            lemma_view_array(*items);
                            if prev is Some {
                                assert(items_view(items@) =~= items_view(before@).update(
                                    n as int,
                                    items@[n as int]@,
                                ));
                            } else {
                                assert(items_view(items@) =~= items_view(before@));
                            }
                        }
                        prev
                    }
                },
                _ => None,
            }
        },
        _ => None,
    }
}

/// Puts `value` at `path`, making the tables on the way that are missing.
/// What stood there before is overwritten, whatever its kind.
///
/// Fails, and leaves the header as it was, where the path cannot be followed.
pub fn insert(header: &mut Node, path: &str, value: Node) -> (r: Result<(), HeaderError>)
    ensures
        match inserted(old(header)@, segments(path@), value@) {
            Some(v) => r is Ok && final(header)@ == v,
            None => final(header)@ == old(header)@ && (r matches Err(e) && e.kind
                == HeaderErrorKind::WriteError && e.path@ == path@),
        },
{
    let chars = chars_of(path);
    let segs = split_chars(&chars, '.');
    assert(texts(segs@).skip(0) =~= texts(segs@));
    if insert_at(header, &segs, 0, value) {
        Ok(())
    } else {
        Err(write_error(path))
    }
}

/// Puts `value` at `path`, which must lead to a node already, and hands back
/// what stood there.
///
/// Fails, and leaves the header as it was, where nothing stands at `path`.
pub fn set(header: &mut Node, path: &str, value: Node) -> (r: Result<Node, HeaderError>)
    ensures
        match resolve(old(header)@, segments(path@)) {
            Lookup::Found(prev) => (r matches Ok(p) && p@ == prev) && Some(final(header)@)
                == inserted(old(header)@, segments(path@), value@),
            _ => final(header)@ == old(header)@ && (r matches Err(e) && e.kind
                == HeaderErrorKind::WriteError && e.path@ == path@),
        },
{
    let chars = chars_of(path);
    let segs = split_chars(&chars, '.');
    assert(texts(segs@).skip(0) =~= texts(segs@));
    match set_at(header, &segs, 0, value) {
        Some(prev) => Ok(prev),
        None => Err(write_error(path)),
    }
}

/// Takes out what stands at `path` and hands it back; `Ok(None)` where
/// nothing stands there.
///
/// Fails only where [`read`] fails; a header is changed only when a node is
/// handed back.
pub fn delete(header: &mut Node, path: &str) -> (r: Result<Option<Node>, HeaderError>)
    ensures
        match resolve(old(header)@, segments(path@)) {
            Lookup::Found(prev) => (r matches Ok(Some(p)) && p@ == prev) && Some(final(header)@)
                == removed(old(header)@, segments(path@)),
            Lookup::Absent => final(header)@ == old(header)@ && r matches Ok(None),
            Lookup::Mismatch => final(header)@ == old(header)@ && (r matches Err(e) && e.kind
                == HeaderErrorKind::TypeError && e.path@ == path@),
        },
{
    let chars = chars_of(path);
    let segs = split_chars(&chars, '.');
    proof {
        crate::text::lemma_split_nonempty(path@, '.');
    }
    assert(texts(segs@).skip(0) =~= texts(segs@));
    let mismatch = match read(header, path) {
        Err(_) => true,
        Ok(_) => false,
    };
    if mismatch {
        return Err(type_error(path));
    }
    Ok(delete_at(header, &segs, 0))
}

/// A copy of `node` with the same value.
#[verifier::loop_isolation(false)]
pub fn copy_node(node: &Node) -> (r: Node)
    ensures
        r@ == node@,
    decreases node,
{
    match node {
        Node::String(s) => Node::String(s.clone()),
        Node::Integer(i) => Node::Integer(*i),
        Node::Float(s) => Node::Float(s.clone()),
        Node::Boolean(b) => Node::Boolean(*b),
        Node::Datetime(d) => Node::Datetime(d.clone()),
        Node::Array(items) => {
            let mut copy: Vec<Node> = Vec::new();
            let mut i: usize = 0;
            while i < items.len()
                invariant
                    i <= items.len(),
                    *node == Node::Array(*items),
                    copy.len() == i,
                    forall|j: int| 0 <= j < i ==> copy@[j]@ == items@[j]@,
                decreases items.len() - i,
            {
                proof {
                    vstd::std_specs::vec::axiom_vec_index_decreases(*items, i as int);
                }
                let item = copy_node(&items[i]);
                copy.push(item);
                i += 1;
            }
            proof {
                lemma_view_array(*items);
                lemma_view_array(copy);
                assert(items_view(copy@) =~= items_view(items@));
            }
            Node::Array(copy)
        },
        Node::Table(fields) => {
            let mut copy: Vec<(String, Node)> = Vec::new();
            let mut i: usize = 0;
            while i < fields.len()
                invariant
                    i <= fields.len(),
                    *node == Node::Table(*fields),
                    copy.len() == i,
                    forall|j: int|
                        0 <= j < i ==> copy@[j].0@ == fields@[j].0@ && copy@[j].1@
                            == fields@[j].1@,
                decreases fields.len() - i,
            {
                proof {
                    vstd::std_specs::vec::axiom_vec_index_decreases(*fields, i as int);
                }
                let value = copy_node(&fields[i].1);
                copy.push((fields[i].0.clone(), value));
                i += 1;
            }
            proof {
                lemma_view_table(*fields);
                lemma_view_table(copy);
                lemma_same_fields(copy@, fields@);
            }
            Node::Table(copy)
        },
    }
}

impl Clone for Node {
    fn clone(&self) -> (r: Node)
        ensures
            r@ == self@,
    {
        copy_node(self)
    }
}

/// No key stands in two of the fields.
pub open spec fn keys_once(fields: Seq<(String, Node)>) -> bool {
    forall|i: int, j: int| 0 <= i < j < fields.len() ==> fields[i].0@ != fields[j].0@
}

/// No table of the node, at any depth, has two fields with one key: every
/// field is seen, and the value of the node says all that the node holds.
pub open spec fn tidy(node: Node) -> bool
    decreases node,
{
    match node {
        Node::Array(items) => forall|i: int| 0 <= i < items.len() ==> tidy(#[trigger] items@[i]),
        Node::Table(fields) => keys_once(fields@) && forall|i: int|
            0 <= i < fields.len() ==> tidy((#[trigger] fields@[i]).1),
        _ => true,
    }
}

/// What the first `i` fields contribute to the map of a list of fields:
/// the keys whose first field is among them.
pub open spec fn partial_view(fields: Seq<(String, Node)>, i: int) -> Map<Seq<char>, NodeValue> {
    Map::new(
        |k: Seq<char>| has_key(fields, k) && first(fields, k) < i,
        |k: Seq<char>| fields[first(fields, k)].1@,
    )
}

/// A key that no field has stands in no field.
pub proof fn lemma_no_key(fields: Seq<(String, Node)>, key: Seq<char>)
    requires
        !has_key(fields, key),
    ensures
        forall|j: int| 0 <= j < fields.len() ==> fields[j].0@ != key,
{
    assert forall|j: int| 0 <= j < fields.len() implies fields[j].0@ != key by {
        if fields[j].0@ == key {
            lemma_has_key(fields, key, j);
        }
    }
}

/// The field `i`, where it is the first of its key, adds that key to what
/// the fields before it contribute.
proof fn lemma_partial_step_first(fields: Seq<(String, Node)>, i: int)
    requires
        is_first(fields, fields[i].0@, i),
    ensures
        partial_view(fields, i + 1) == partial_view(fields, i).insert(fields[i].0@, fields[i].1@),
        !partial_view(fields, i).contains_key(fields[i].0@),
{
    let key = fields[i].0@;
    lemma_first(fields, key, i);
    let a = partial_view(fields, i + 1);
    let b = partial_view(fields, i).insert(key, fields[i].1@);
    assert forall|k: Seq<char>| #[trigger] a.contains_key(k) implies b.contains_key(k) && a[k]
        == b[k] by {
        let c = first(fields, k);
        lemma_first(fields, k, c);
        if c == i {
            assert(k == key);
        }
    }
    assert forall|k: Seq<char>| #[trigger] b.contains_key(k) implies a.contains_key(k) by {}
    assert(a =~= b);
}

/// The field `i`, where an earlier field has its key, adds nothing.
proof fn lemma_partial_step_shadowed(fields: Seq<(String, Node)>, i: int, at: int)
    requires
        0 <= i < fields.len(),
        at != i,
        is_first(fields, fields[i].0@, at),
    ensures
        partial_view(fields, i + 1) == partial_view(fields, i),
{
    let key = fields[i].0@;
    lemma_first(fields, key, at);
    let a = partial_view(fields, i + 1);
    let b = partial_view(fields, i);
    assert forall|k: Seq<char>| #[trigger] a.contains_key(k) implies b.contains_key(k) by {
        let c = first(fields, k);
        lemma_first(fields, k, c);
        if c == i {
            assert(k == key);
        }
    }
    assert(a =~= b);
}

/// All the fields together contribute the whole map.
proof fn lemma_partial_whole(fields: Seq<(String, Node)>)
    ensures
        partial_view(fields, fields.len() as int) == fields_view(fields),
{
    let a = partial_view(fields, fields.len() as int);
    let b = fields_view(fields);
    assert forall|k: Seq<char>| #[trigger] b.contains_key(k) implies a.contains_key(k) by {
        let c = first(fields, k);
        lemma_first(fields, k, c);
    }
    assert(a =~= b);
}

/// A copy of `node` with the same value in which no key stands twice: of
/// several fields with one key the first stays and the others are dropped,
/// in every table at every depth.
#[verifier::loop_isolation(false)]
pub fn tidied(node: &Node) -> (r: Node)
    ensures
        r@ == node@,
        tidy(r),
    decreases node,
{
    match node {
        Node::String(s) => Node::String(s.clone()),
        Node::Integer(i) => Node::Integer(*i),
        Node::Float(s) => Node::Float(s.clone()),
        Node::Boolean(b) => Node::Boolean(*b),
        Node::Datetime(d) => Node::Datetime(d.clone()),
        Node::Array(items) => {
            let mut copy: Vec<Node> = Vec::new();
            let mut i: usize = 0;
            while i < items.len()
                invariant
                    i <= items.len(),
                    copy.len() == i,
                    forall|j: int| 0 <= j < i ==> copy@[j]@ == items@[j]@,
                    forall|j: int| 0 <= j < i ==> tidy(#[trigger] copy@[j]),
                decreases items.len() - i,
            {
                proof {
                    vstd::std_specs::vec::axiom_vec_index_decreases(*items, i as int);
                }
                let item = tidied(&items[i]);
                copy.push(item);
                i += 1;
            }
            proof {
                lemma_view_array(*items);
                lemma_view_array(copy);
                assert(items_view(copy@) =~= items_view(items@));
            }
            Node::Array(copy)
        },
        Node::Table(fields) => {
            let mut copy: Vec<(String, Node)> = Vec::new();
            let mut i: usize = 0;
            assert(fields_view(copy@) =~= partial_view(fields@, 0));
            while i < fields.len()
                invariant
                    i <= fields.len(),
                    fields_view(copy@) == partial_view(fields@, i as int),
                    keys_once(copy@),
                    forall|j: int| 0 <= j < copy.len() ==> tidy((#[trigger] copy@[j]).1),
                decreases fields.len() - i,
            {
                match find_field(fields, &fields[i].0) {
                    Some(at) => {
                        if at == i {
                            proof {
                                vstd::std_specs::vec::axiom_vec_index_decreases(*fields, i as int);
                                lemma_partial_step_first(fields@, i as int);
                            }
                            let value = tidied(&fields[i].1);
                            let field = (fields[i].0.clone(), value);
                            proof {
                                lemma_no_key(copy@, field.0@);
                                lemma_field_added(copy@, field);
                            }
                            copy.push(field);
                        } else {
                            proof {
                                lemma_partial_step_shadowed(fields@, i as int, at as int);
                            }
                        }
                    },
                    None => {
                        proof {
                            lemma_has_key(fields@, fields@[i as int].0@, i as int);
                        }
                    },
                }
                i += 1;
            }
            proof {
                lemma_partial_whole(fields@);
                lemma_view_table(*fields);
                lemma_view_table(copy);
            }
            Node::Table(copy)
        },
    }
}

/// Whether no key stands twice in a table of `node`, at any depth.
#[verifier::loop_isolation(false)]
pub fn is_tidy(node: &Node) -> (r: bool)
    ensures
        r == tidy(*node),
    decreases node,
{
    match node {
        Node::Array(items) => {
            let mut i: usize = 0;
            while i < items.len()
                invariant
                    i <= items.len(),
                    forall|j: int| 0 <= j < i ==> tidy(#[trigger] items@[j]),
                decreases items.len() - i,
            {
                proof {
                    vstd::std_specs::vec::axiom_vec_index_decreases(*items, i as int);
                }
                if !is_tidy(&items[i]) {
                    return false;
                }
                i += 1;
            }
            true
        },
        Node::Table(fields) => {
            let mut i: usize = 0;
            while i < fields.len()
                invariant
                    i <= fields.len(),
                    forall|j: int| 0 <= j < i ==> tidy((#[trigger] fields@[j]).1),
                    forall|j: int| 0 <= j < i ==> is_first(fields@, (#[trigger] fields@[j]).0@, j),
                decreases fields.len() - i,
            {
                proof {
                    vstd::std_specs::vec::axiom_vec_index_decreases(*fields, i as int);
                }
                match find_field(fields, &fields[i].0) {
                    Some(at) => {
                        if at != i {
                            return false;
                        }
                    },
                    None => {
                        proof {
                            lemma_has_key(fields@, fields@[i as int].0@, i as int);
                        }
                    },
                }
                if !is_tidy(&fields[i].1) {
                    return false;
                }
                i += 1;
            }
            assert(keys_once(fields@)) by {
                assert forall|a: int, b: int| 0 <= a < b < fields.len() implies fields@[a].0@
                    != fields@[b].0@ by {
                    assert(is_first(fields@, fields@[b].0@, b));
                }
            }
            true
        },
        _ => true,
    }
}

/// Whether every key of `a` is a key of `b`.
fn keys_within(a: &Vec<(String, Node)>, b: &Vec<(String, Node)>) -> (r: bool)
    ensures
        r == (forall|k: Seq<char>| has_key(a@, k) ==> has_key(b@, k)),
{
    let mut i: usize = 0;
    while i < a.len()
        invariant
            i <= a.len(),
            forall|j: int| 0 <= j < i ==> has_key(b@, #[trigger] a@[j].0@),
        decreases a.len() - i,
    {
        match find_field(b, &a[i].0) {
            Some(_) => {},
            None => {
                proof {
                    lemma_has_key(a@, a@[i as int].0@, i as int);
                }
                return false;
            },
        }
        i += 1;
    }
    assert forall|k: Seq<char>| has_key(a@, k) implies has_key(b@, k) by {
        let c = first(a@, k);
        assert(has_key(b@, a@[c].0@));
    }
    true
}

/// The field `j` of `x`, if it is the first of its key, has its key and
/// value in `y` too.
pub open spec fn agrees(x: Seq<(String, Node)>, y: Seq<(String, Node)>, j: int) -> bool {
    is_first(x, x[j].0@, j) ==> has_key(y, x[j].0@) && x[j].1@ == fields_view(y)[x[j].0@]
}

/// Whether two nodes have the same value.
#[verifier::loop_isolation(false)]
pub fn same_value(a: &Node, b: &Node) -> (r: bool)
    ensures
        r == (a@ == b@),
    decreases a,
{
    match (a, b) {
        (Node::String(x), Node::String(y)) => *x == *y,
        (Node::Integer(x), Node::Integer(y)) => *x == *y,
        (Node::Float(x), Node::Float(y)) => *x == *y,
        (Node::Boolean(x), Node::Boolean(y)) => *x == *y,
        (Node::Datetime(x), Node::Datetime(y)) => same_datetime(x, y),
        (Node::Array(x), Node::Array(y)) => {
            proof {
                lemma_view_array(*x);
                lemma_view_array(*y);
            }
            if x.len() != y.len() {
                assert(items_view(x@).len() != items_view(y@).len());
                return false;
            }
            let mut i: usize = 0;
            while i < x.len()
                invariant
                    i <= x.len(),
                    x.len() == y.len(),
                    forall|j: int| 0 <= j < i ==> x@[j]@ == y@[j]@,
                decreases x.len() - i,
            {
                proof {
                    vstd::std_specs::vec::axiom_vec_index_decreases(*x, i as int);
                }
                if !same_value(&x[i], &y[i]) {
                    assert(items_view(x@)[i as int] != items_view(y@)[i as int]);
                    return false;
                }
                i += 1;
            }
            assert(items_view(x@) =~= items_view(y@));
            true
        },
        (Node::Table(x), Node::Table(y)) => {
            proof {
                lemma_view_table(*x);
                lemma_view_table(*y);
            }
            if !keys_within(y, x) {
                let ghost k = choose|k: Seq<char>| has_key(y@, k) && !has_key(x@, k);
                assert(fields_view(y@).contains_key(k) && !fields_view(x@).contains_key(k));
                return false;
            }
            let mut i: usize = 0;
            while i < x.len()
                invariant
                    i <= x.len(),
                    forall|j: int| 0 <= j < i ==> agrees(x@, y@, j),
                decreases x.len() - i,
            {
                match find_field(x, &x[i].0) {
                    Some(at) => {
                        proof {
                            if at != i && is_first(x@, x@[i as int].0@, i as int) {
                                lemma_first(x@, x@[i as int].0@, i as int);
                                lemma_first(x@, x@[i as int].0@, at as int);
                            }
                        }
                        if at == i {
                            match find_field(y, &x[i].0) {
                                Some(j) => {
                                    proof {
                                        vstd::std_specs::vec::axiom_vec_index_decreases(
                                            *x,
                                            i as int,
                                        );
                                    }
                                    if !same_value(&x[i].1, &y[j].1) {
                                        return false;
                                    }
                                },
                                None => {
                                    return false;
                                },
                            }
                        }
                    },
                    None => {},
                }
                assert(agrees(x@, y@, i as int));
                i += 1;
            }
            assert forall|k: Seq<char>| has_key(x@, k) implies has_key(y@, k) && fields_view(x@)[k]
                == fields_view(y@)[k] by {
                let c = first(x@, k);
                lemma_first(x@, k, c);
                assert(agrees(x@, y@, c));
            }
            assert(fields_view(x@) =~= fields_view(y@));
            true
        },
        _ => false,
    }
}

impl PartialEq for Node {
    fn eq(&self, other: &Node) -> (r: bool) {
        same_value(self, other)
    }
}

impl vstd::std_specs::cmp::PartialEqSpecImpl for Node {
    open spec fn obeys_eq_spec() -> bool {
        true
    }

    open spec fn eq_spec(&self, other: &Node) -> bool {
        self@ == other@
    }
}

/// Following a path into the chain of tables made for it leads to the leaf.
pub proof fn lemma_resolve_nest(path: Seq<Seq<char>>, leaf: NodeValue)
    ensures
        resolve(nest(path, leaf), path) == Lookup::Found(leaf),
    decreases path.len(),
{
    if path.len() > 0 {
        lemma_resolve_nest(path.drop_first(), leaf);
    }
}

/// What was inserted at a path is read at that path.
pub proof fn lemma_read_after_insert(v: NodeValue, path: Seq<Seq<char>>, new: NodeValue)
    requires
        inserted(v, path, new) is Some,
    ensures
        resolve(inserted(v, path, new)->Some_0, path) == Lookup::Found(new),
    decreases path.len(),
{
    if path.len() > 0 {
        let rest = path.drop_first();
        match v {
            NodeValue::Table(fields) => {
                if fields.contains_key(path[0]) {
                    lemma_read_after_insert(fields[path[0]], rest, new);
                } else {
                    lemma_resolve_nest(rest, new);
                }
            },
            NodeValue::Array(items) => {
                let n = as_index(path[0])->Some_0;
                if n < items.len() {
                    lemma_read_after_insert(items[n as int], rest, new);
                } else {
                    lemma_resolve_nest(rest, new);
                }
            },
            _ => {},
        }
    }
}

/// Where a path leads to a node, inserting at that path succeeds: `set`
/// differs from `insert` only in refusing the paths that lead to nothing.
pub proof fn lemma_insert_where_found(v: NodeValue, path: Seq<Seq<char>>, new: NodeValue)
    requires
        resolve(v, path) is Found,
    ensures
        inserted(v, path, new) is Some,
    decreases path.len(),
{
    if path.len() > 0 {
        let rest = path.drop_first();
        match v {
            NodeValue::Table(fields) => {
                lemma_insert_where_found(fields[path[0]], rest, new);
            },
            NodeValue::Array(items) => {
                let n = as_index(path[0])->Some_0;
                lemma_insert_where_found(items[n as int], rest, new);
            },
            _ => {},
        }
    }
}

/// Inserting below one key of a table leaves what stands below every other
/// key as it was.
pub proof fn lemma_insert_elsewhere(
    v: NodeValue,
    path: Seq<Seq<char>>,
    new: NodeValue,
    other: Seq<Seq<char>>,
)
    requires
        v is Table,
        path.len() > 0,
        other.len() > 0,
        path[0] != other[0],
        inserted(v, path, new) is Some,
    ensures
        resolve(inserted(v, path, new)->Some_0, other) == resolve(v, other),
{
}

/// Taking something out below one key of a table leaves what stands below
/// every other key as it was.
pub proof fn lemma_remove_elsewhere(v: NodeValue, path: Seq<Seq<char>>, other: Seq<Seq<char>>)
    requires
        v is Table,
        path.len() > 0,
        other.len() > 0,
        path[0] != other[0],
        removed(v, path) is Some,
    ensures
        resolve(removed(v, path)->Some_0, other) == resolve(v, other),
{
}

/// A key that was taken out of a table is gone: reading its path finds
/// nothing.
pub proof fn lemma_read_after_delete(v: NodeValue, path: Seq<Seq<char>>)
    requires
        removed(v, path) is Some,
        resolve(v, path.drop_last()) matches Lookup::Found(parent) && parent is Table,
    ensures
        resolve(removed(v, path)->Some_0, path) is Absent,
    decreases path.len(),
{
    let rest = path.drop_first();
    match v {
        NodeValue::Table(fields) => {
            if path.len() > 1 {
                assert(path.drop_last()[0] == path[0]);
                assert(path.drop_last().drop_first() =~= rest.drop_last());
                lemma_read_after_delete(fields[path[0]], rest);
            }
        },
        NodeValue::Array(items) => {
            let n = as_index(path[0])->Some_0 as int;
            if path.len() == 1 {
                assert(path.drop_last().len() == 0);
            } else {
                assert(path.drop_last()[0] == path[0]);
                assert(path.drop_last().drop_first() =~= rest.drop_last());
                lemma_read_after_delete(items[n], rest);
            }
        },
        _ => {},
    }
}

/// Of two insertions at one path the second counts: the document is as if
/// the first had not been made.
pub proof fn lemma_insert_overwrites(
    v: NodeValue,
    path: Seq<Seq<char>>,
    a: NodeValue,
    b: NodeValue,
)
    requires
        inserted(v, path, a) is Some,
    ensures
        inserted(v, path, b) is Some,
        inserted(inserted(v, path, a)->Some_0, path, b) == inserted(v, path, b),
    decreases path.len(),
{
    if path.len() > 0 {
        let rest = path.drop_first();
        match v {
            NodeValue::Table(fields) => {
                if fields.contains_key(path[0]) {
                    lemma_insert_overwrites(fields[path[0]], rest, a, b);
                    let first = inserted(fields[path[0]], rest, a)->Some_0;
                    let second = inserted(fields[path[0]], rest, b)->Some_0;
                    assert(fields.insert(path[0], first).insert(path[0], second)
                        =~= fields.insert(path[0], second));
                } else {
                    lemma_nest_overwrites(rest, a, b);
                    assert(fields.insert(path[0], nest(rest, a)).insert(path[0], nest(rest, b))
                        =~= fields.insert(path[0], nest(rest, b)));
                }
            },
            NodeValue::Array(items) => {
                let n = as_index(path[0])->Some_0 as int;
                if n < items.len() {
                    lemma_insert_overwrites(items[n], rest, a, b);
                    let first = inserted(items[n], rest, a)->Some_0;
                    let second = inserted(items[n], rest, b)->Some_0;
                    assert(items.update(n, first).update(n, second) =~= items.update(n, second));
                } else {
                    lemma_nest_overwrites(rest, a, b);
                    assert(items.push(nest(rest, a)).update(n, nest(rest, b)) =~= items.push(
                        nest(rest, b),
                    ));
                }
            },
            _ => {},
        }
    }
}

/// Inserting along the path of a chain of tables replaces its leaf.
pub proof fn lemma_nest_overwrites(path: Seq<Seq<char>>, a: NodeValue, b: NodeValue)
    ensures
        inserted(nest(path, a), path, b) == Some(nest(path, b)),
    decreases path.len(),
{
    if path.len() > 0 {
        let rest = path.drop_first();
        lemma_nest_overwrites(rest, a, b);
        let empty = Map::<Seq<char>, NodeValue>::empty();
        assert(empty.insert(path[0], nest(rest, a)).insert(path[0], nest(rest, b))
            =~= empty.insert(path[0], nest(rest, b)));
    }
}

} // verus!
