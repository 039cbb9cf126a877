//! Tasks: the identifier that an entry's header holds at `todo.uuid`, and
//! the listing of such identifiers.

use crate::error::StoreError;
use crate::header::{read, resolve, segments, Lookup, Node, NodeValue};
use crate::storeid::{valid_path, StoreId};
use crate::text::{chars_of, join, string_of, texts};
use vstd::prelude::*;

verus! {

/// The identifier of the task in a header: the text at `todo.uuid`.
pub open spec fn uuid_of(header: NodeValue) -> Option<Seq<char>> {
    match resolve(header, segments("todo.uuid"@)) {
        Lookup::Found(NodeValue::String(u)) => Some(u),
        _ => None,
    }
}

/// The identifier of the task in a header; `None` where none is there,
/// something else stands in its place, or the path cannot be followed.
pub fn task_uuid(header: &Node) -> (r: Option<String>)
    ensures
        match uuid_of(header@) {
            Some(u) => r matches Some(s) && s@ == u,
            None => r is None,
        },
{
    match read(header, "todo.uuid") {
        Ok(Some(Node::String(u))) => Some(u.clone()),
        _ => None,
    }
}

/// The identifiers of the tasks among `headers`, in their order.
pub open spec fn uuids_of(headers: Seq<NodeValue>) -> Seq<Seq<char>>
    decreases headers.len(),
{
    if headers.len() == 0 {
        Seq::empty()
    } else {
        match uuid_of(headers.last()) {
            Some(u) => uuids_of(headers.drop_last()).push(u),
            None => uuids_of(headers.drop_last()),
        }
    }
}

/// The identifiers of the tasks among `headers`, in their order; a header
/// without one is passed over.
pub fn task_uuids(headers: &Vec<Node>) -> (r: Vec<String>)
    ensures
        texts(r@) == uuids_of(crate::header::items_view(headers@)),
{
    let mut found: Vec<String> = Vec::new();
    let mut i: usize = 0;
    let ghost all = crate::header::items_view(headers@);
    assert(all.take(0) =~= Seq::<NodeValue>::empty());
    assert(texts(found@) =~= uuids_of(all.take(0)));
    while i < headers.len()
        invariant
            i <= headers.len(),
            all == crate::header::items_view(headers@),
            texts(found@) == uuids_of(all.take(i as int)),
        decreases headers.len() - i,
    {
        assert(all.take(i + 1).drop_last() =~= all.take(i as int));
        assert(all.take(i + 1).last() == headers@[i as int]@);
        match task_uuid(&headers[i]) {
            Some(u) => {
                let ghost before = found@;
                found.push(u);
                assert(texts(found@) =~= texts(before).push(u@));
            },
            None => {},
        }
        i += 1;
    }
    assert(all.take(headers.len() as int) =~= all);
    found
}

/// The listing of identifiers: one on each line.
pub fn uuid_listing(uuids: &Vec<String>) -> (r: String)
    ensures
        r@ == join(texts(uuids@), '\n'),
{
    let mut out = String::new();
    let mut i: usize = 0;
    assert(texts(uuids@).take(0) =~= Seq::<Seq<char>>::empty());
    while i < uuids.len()
        invariant
            i <= uuids.len(),
            out@ == join(texts(uuids@).take(i as int), '\n'),
        decreases uuids.len() - i,
    {
        let ghost now = texts(uuids@).take(i + 1);
        assert(now.drop_last() =~= texts(uuids@).take(i as int));
        assert(now.last() == uuids@[i as int]@);
        if i > 0 {
            out.push('\n');
        } else {
            assert(now.len() == 1);
            assert(Seq::<char>::empty() + now[0] =~= now[0]);
        }
        out.append(uuids[i].as_str());
        i += 1;
    }
    assert(texts(uuids@).take(uuids.len() as int) =~= texts(uuids@));
    out
}

/// `needle` stands at `i` in `hay`.
pub open spec fn occurs_at(hay: Seq<char>, needle: Seq<char>, i: int) -> bool {
    0 <= i && i + needle.len() <= hay.len() && hay.subrange(i, i + needle.len()) == needle
}

/// `i` is the first place at or behind `from` where `needle` stands in `hay`.
pub open spec fn first_at(hay: Seq<char>, needle: Seq<char>, from: int, i: int) -> bool {
    &&& from <= i
    &&& occurs_at(hay, needle, i)
    &&& forall|k: int| from <= k < i ==> !occurs_at(hay, needle, k)
}

/// The first place at or behind `from` where `needle` stands in `hay`.
pub open spec fn place_of(hay: Seq<char>, needle: Seq<char>, from: int) -> Option<int> {
    if exists|i: int| first_at(hay, needle, from, i) {
        Some(choose|i: int| first_at(hay, needle, from, i))
    } else {
        None
    }
}

proof fn lemma_place(hay: Seq<char>, needle: Seq<char>, from: int, i: int)
    requires
        first_at(hay, needle, from, i),
    ensures
        place_of(hay, needle, from) == Some(i),
{
    let c = choose|c: int| first_at(hay, needle, from, c);
    if c < i {
        assert(!occurs_at(hay, needle, c));
    } else if i < c {
        assert(!occurs_at(hay, needle, i));
    }
}

fn stands_at(hay: &Vec<char>, needle: &Vec<char>, i: usize) -> (r: bool)
    requires
        i <= hay.len(),
    ensures
        r == occurs_at(hay@, needle@, i as int),
{
    if needle.len() > hay.len() - i {
        return false;
    }
    let mut k: usize = 0;
    while k < needle.len()
        invariant
            k <= needle.len(),
            i + needle.len() <= hay.len(),
            forall|j: int| 0 <= j < k ==> hay@[i + j] == needle@[j],
        decreases needle.len() - k,
    {
        if hay[i + k] != needle[k] {
            assert(hay@.subrange(i as int, i + needle.len())[k as int] == hay@[i + k]);
            return false;
        }
        k += 1;
    }
    assert(hay@.subrange(i as int, i + needle.len()) =~= needle@);
    true
}

/// The first place at or behind `from` where `needle` stands in `hay`.
pub fn find_text(hay: &Vec<char>, needle: &Vec<char>, from: usize) -> (r: Option<usize>)
    ensures
        match place_of(hay@, needle@, from as int) {
            Some(i) => r == Some(i as usize) && i + needle.len() <= hay.len(),
            None => r is None,
        },
{
    if from > hay.len() {
        assert forall|k: int| !first_at(hay@, needle@, from as int, k) by {}
        return None;
    }
    let mut i: usize = from;
    while i < hay.len()
        invariant
            from <= i <= hay.len(),
            forall|k: int| from <= k < i ==> !occurs_at(hay@, needle@, k),
        decreases hay.len() - i,
    {
        if stands_at(hay, needle, i) {
            proof {
                lemma_place(hay@, needle@, from as int, i as int);
            }
            return Some(i);
        }
        i += 1;
    }
    if stands_at(hay, needle, i) {
        proof {
            lemma_place(hay@, needle@, from as int, i as int);
        }
        return Some(i);
    }
    assert forall|k: int| !first_at(hay@, needle@, from as int, k) by {
        if first_at(hay@, needle@, from as int, k) {
            assert(k <= hay.len());
        }
    }
    None
}

/// How a line of a task spells the beginning of the text of the field
/// `name`: the name in quotes, a colon, and the opening quote.
pub open spec fn field_mark(name: Seq<char>) -> Seq<char> {
    seq!['"'] + name + seq!['"', ':', '"']
}

/// The text of the field `name` in a line of a task, as the task manager
/// writes its tasks: what stands between the first mark of the field and the
/// next quote. `None` where the line has no such field or the text does not
/// end.
pub open spec fn field_text(line: Seq<char>, name: Seq<char>) -> Option<Seq<char>> {
    match place_of(line, field_mark(name), 0) {
        Some(i) => {
            let start = i + field_mark(name).len();
            match place_of(line, seq!['"'], start) {
                Some(end) => Some(line.subrange(start, end)),
                None => None,
            }
        },
        None => None,
    }
}

/// The text of the field `name` in a line of a task.
pub fn task_field(line: &str, name: &str) -> (r: Option<String>)
    ensures
        match field_text(line@, name@) {
            Some(text) => r matches Some(s) && s@ == text,
            None => r is None,
        },
{
    let hay = chars_of(line);
    let mut mark: Vec<char> = Vec::new();
    mark.push('"');
    let name_chars = chars_of(name);
    let mut k: usize = 0;
    while k < name_chars.len()
        invariant
            k <= name_chars.len(),
            mark@ == seq!['"'] + name_chars@.take(k as int),
        decreases name_chars.len() - k,
    {
        mark.push(name_chars[k]);
        k += 1;
        assert(mark@ =~= seq!['"'] + name_chars@.take(k as int));
    }
    assert(name_chars@.take(name_chars.len() as int) =~= name_chars@);
    mark.push('"');
    mark.push(':');
    mark.push('"');
    assert(mark@ =~= field_mark(name@));
    let mut quote: Vec<char> = Vec::new();
    quote.push('"');
    assert(quote@ =~= seq!['"']);
    match find_text(&hay, &mark, 0) {
        None => None,
        Some(i) => {
            let start = i + mark.len();
            match find_text(&hay, &quote, start) {
                None => None,
                Some(end) => Some(string_of(&hay, start, end)),
            }
        },
    }
}

/// The path of the entry of the task `uuid`.
pub open spec fn task_path(uuid: Seq<char>) -> Seq<char> {
    "todo/taskwarrior/"@ + uuid
}

/// The identifier of the entry of the task `uuid`; refused where the path
/// made of it is no identifier.
pub fn task_id(uuid: &str) -> (r: Result<StoreId, StoreError>)
    ensures
        match r {
            Ok(id) => valid_path(task_path(uuid@)) && id@ == task_path(uuid@),
            Err(e) => !valid_path(task_path(uuid@)) && e@ == crate::error::Fault::InvalidPath(
                task_path(uuid@),
            ),
        },
{
    let mut path = "todo/taskwarrior/".to_string();
    path.append(uuid);
    StoreId::new_baseless(path.as_str())
}

/// What a hook of the task manager does with a task.
#[derive(Debug, PartialEq, Eq)]
pub enum HookAction {
    /// The task is stored under its identifier.
    Store(String),
    /// The entry of the task is deleted.
    Delete(String),
    /// Nothing is done.
    Nothing,
}

/// What is done with a task that was added: it is stored, where its line
/// names it.
pub fn on_add(line: &str) -> (r: HookAction)
    ensures
        match field_text(line@, "uuid"@) {
            Some(uuid) => r matches HookAction::Store(u) && u@ == uuid,
            None => r is Nothing,
        },
{
    match task_field(line, "uuid") {
        Some(uuid) => HookAction::Store(uuid),
        None => HookAction::Nothing,
    }
}

/// What is done with a task that was changed, of which `line` is the new
/// state: its entry is deleted where the task is deleted now.
pub fn on_modify(line: &str) -> (r: HookAction)
    ensures
        match (field_text(line@, "uuid"@), field_text(line@, "status"@)) {
            (Some(uuid), Some(status)) => if status == "deleted"@ {
                r matches HookAction::Delete(u) && u@ == uuid
            } else {
                r is Nothing
            },
            _ => r is Nothing,
        },
{
    match (task_field(line, "uuid"), task_field(line, "status")) {
        (Some(uuid), Some(status)) => {
            if status == "deleted".to_string() {
                HookAction::Delete(uuid)
            } else {
                HookAction::Nothing
            }
        },
        _ => HookAction::Nothing,
    }
}

} // verus!
