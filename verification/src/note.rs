//! Notes: entries with a name in the header at `note.name` and the text of
//! the note for a content.

use crate::entry::{lemma_insert_keeps_stamp, Entry};
use crate::header::{
    inserted, lemma_insert_where_found, resolve, segments, HeaderError, Lookup, Node, NodeValue,
};
use crate::text::lemma_split_first;
use vstd::prelude::*;

verus! {

/// What went wrong with a note.
#[derive(Clone, Copy, Debug, PartialEq, Eq, Structural)]
pub enum NoteErrorKind {
    StoreWriteError,
    StoreReadError,
    HeaderTypeError,
}

/// A failure with a note, with the failed access to the header that caused
/// it, where there is one.
#[derive(Debug)]
pub struct NoteError {
    pub kind: NoteErrorKind,
    pub cause: Option<HeaderError>,
}

/// The segments of the path `note.name`.
pub open spec fn name_path() -> Seq<Seq<char>> {
    segments("note.name"@)
}

/// The name that a header holds: the text at `note.name`.
pub open spec fn name_of(header: NodeValue) -> Result<Seq<char>, NoteErrorKind> {
    match resolve(header, name_path()) {
        Lookup::Found(NodeValue::String(s)) => Ok(s),
        Lookup::Mismatch => Err(NoteErrorKind::StoreReadError),
        _ => Err(NoteErrorKind::HeaderTypeError),
    }
}

/// The name is kept below the key `note`, not below `imag`.
pub proof fn lemma_name_key()
    ensures
        name_path().len() > 0,
        name_path()[0] != "imag"@,
{
    reveal_strlit("note.name");
    reveal_strlit("imag");
    let s = "note.name"@;
    assert(s.len() == 9);
    assert(s[4] == '.');
    lemma_split_first(s, '.', 4);
    assert(s.take(4)[0] == 'n');
    assert("imag"@[0] == 'i');
}

/// Entries that are notes.
pub trait Note: Sized {
    /// The header of the entry.
    spec fn note_header(&self) -> NodeValue;

    /// The content of the entry.
    spec fn note_text(&self) -> Seq<char>;

    /// Gives the note another name. The header must hold a name already.
    fn set_name(&mut self, n: String) -> (r: Result<(), NoteError>)
        ensures
            final(self).note_text() == old(self).note_text(),
            match resolve(old(self).note_header(), name_path()) {
                Lookup::Found(_) => r is Ok && Some(final(self).note_header()) == inserted(
                    old(self).note_header(),
                    name_path(),
                    NodeValue::String(n@),
                ),
                _ => final(self).note_header() == old(self).note_header() && (r matches Err(e)
                    && e.kind == NoteErrorKind::StoreWriteError),
            },
    ;

    /// The name of the note.
    fn get_name(&self) -> (r: Result<String, NoteError>)
        ensures
            match name_of(self.note_header()) {
                Ok(name) => r matches Ok(s) && s@ == name,
                Err(kind) => r matches Err(e) && e.kind == kind,
            },
    ;

    /// Replaces the text of the note.
    fn set_text(&mut self, n: String)
        ensures
            final(self).note_text() == n@,
            final(self).note_header() == old(self).note_header(),
    ;

    /// The text of the note.
    fn get_text(&self) -> (r: &String)
        ensures
            r@ == self.note_text(),
    ;
}

impl Note for Entry {
    open spec fn note_header(&self) -> NodeValue {
        self@.header
    }

    open spec fn note_text(&self) -> Seq<char> {
        self@.content
    }

    fn set_name(&mut self, n: String) -> (r: Result<(), NoteError>)
        ensures
            final(self)@.id == old(self)@.id,
    {
        let _ = self.get_header();
        proof {
            lemma_name_key();
            if resolve(self@.header, name_path()) is Found {
                lemma_insert_where_found(self@.header, name_path(), NodeValue::String(n@));
                lemma_insert_keeps_stamp(self@.header, name_path(), NodeValue::String(n@));
            }
        }
        match self.set("note.name", Node::String(n)) {
            Ok(_) => Ok(()),
            Err(e) => Err(NoteError { kind: NoteErrorKind::StoreWriteError, cause: Some(e) }),
        }
    }

    fn get_name(&self) -> (r: Result<String, NoteError>) {
        match self.read("note.name") {
            Err(e) => Err(NoteError { kind: NoteErrorKind::StoreReadError, cause: Some(e) }),
            Ok(Some(Node::String(s))) => Ok(s.clone()),
            Ok(_) => Err(NoteError { kind: NoteErrorKind::HeaderTypeError, cause: None }),
        }
    }

    fn set_text(&mut self, n: String)
        ensures
            final(self)@.id == old(self)@.id,
    {
        self.set_content(n);
    }

    fn get_text(&self) -> (r: &String) {
        self.get_content()
    }
}

} // verus!
