//! The ways in which an operation of the store fails.

use crate::storeid::StoreId;
use crate::text::join;
use vstd::prelude::*;

verus! {

/// A failure of the store, with what it is about.
#[derive(Debug)]
pub enum StoreError {
    /// No file stands at the identifier.
    NotFound(StoreId),
    /// A file stands at the identifier already.
    AlreadyExists(StoreId),
    /// The entry is checked out.
    Locked(StoreId),
    /// The file is not a header, a delimiter line and a content, or its
    /// header is no document or lacks the stamp; with the parser's words.
    ParseError(StoreId, String),
    /// The entry cannot be written as a file.
    WriteError(StoreId),
    /// Several entries have a hash that begins with the prefix.
    AmbiguousHash(Vec<StoreId>),
    /// The path names nothing inside the store.
    InvalidPath(String),
}

/// The mathematical value of a [`StoreError`]: its kind and the paths it names.
pub enum Fault {
    NotFound(Seq<char>),
    AlreadyExists(Seq<char>),
    Locked(Seq<char>),
    ParseError(Seq<char>),
    WriteError(Seq<char>),
    AmbiguousHash(Seq<Seq<char>>),
    InvalidPath(Seq<char>),
}

/// The relative paths of a sequence of identifiers.
pub open spec fn paths(ids: Seq<StoreId>) -> Seq<Seq<char>> {
    Seq::new(ids.len(), |i: int| ids[i]@)
}

impl View for StoreError {
    type V = Fault;

    open spec fn view(&self) -> Fault {
        match self {
            StoreError::NotFound(id) => Fault::NotFound(id@),
            StoreError::AlreadyExists(id) => Fault::AlreadyExists(id@),
            StoreError::Locked(id) => Fault::Locked(id@),
            StoreError::ParseError(id, _) => Fault::ParseError(id@),
            StoreError::WriteError(id) => Fault::WriteError(id@),
            StoreError::AmbiguousHash(ids) => Fault::AmbiguousHash(paths(ids@)),
            StoreError::InvalidPath(path) => Fault::InvalidPath(path@),
        }
    }
}

fn listing(ids: &Vec<StoreId>) -> (r: String)
    ensures
        r@ == join(paths(ids@), ','),
{
    let mut out = String::new();
    let mut i: usize = 0;
    assert(paths(ids@).take(0) =~= Seq::<Seq<char>>::empty());
    while i < ids.len()
        invariant
            i <= ids.len(),
            out@ == join(paths(ids@).take(i as int), ','),
        decreases ids.len() - i,
    {
        let ghost now = paths(ids@).take(i + 1);
        assert(now.drop_last() =~= paths(ids@).take(i as int));
        assert(now.last() == ids@[i as int]@);
        if i > 0 {
            out.push(',');
        } else {
            assert(now.len() == 1);
            assert(Seq::<char>::empty() + now[0] =~= now[0]);
        }
        out.append(ids[i].local().as_str());
        i += 1;
    }
    assert(paths(ids@).take(ids.len() as int) =~= paths(ids@));
    out
}

impl StoreError {
    /// What the failure says to the user: which entry it is about, and what
    /// is the matter with it. An ambiguous hash names every candidate, with
    /// commas between them.
    pub open spec fn text(&self) -> Seq<char> {
        match self {
            StoreError::NotFound(id) => "no entry at '"@ + id@ + "'"@,
            StoreError::AlreadyExists(id) => "an entry exists already at '"@ + id@ + "'"@,
            StoreError::Locked(id) => "the entry '"@ + id@ + "' is already checked out"@,
            StoreError::ParseError(id, cause) => "the file of '"@ + id@ + "' is no entry: "@
                + cause@,
            StoreError::WriteError(id) => "the entry '"@ + id@ + "' cannot be written"@,
            StoreError::AmbiguousHash(ids) => "several entries have a hash that begins so: "@
                + join(paths(ids@), ','),
            StoreError::InvalidPath(path) => "'"@ + path@ + "' names nothing inside the store"@,
        }
    }

    /// What the failure says to the user.
    pub fn message(&self) -> (r: String)
        ensures
            r@ == self.text(),
    {
        match self {
            StoreError::NotFound(id) => {
                let mut r = "no entry at '".to_string();
                r.append(id.local().as_str());
                r.append("'");
                r
            },
            StoreError::AlreadyExists(id) => {
                let mut r = "an entry exists already at '".to_string();
                r.append(id.local().as_str());
                r.append("'");
                r
            },
            StoreError::Locked(id) => {
                let mut r = "the entry '".to_string();
                r.append(id.local().as_str());
                r.append("' is already checked out");
                r
            },
            StoreError::ParseError(id, cause) => {
                let mut r = "the file of '".to_string();
                r.append(id.local().as_str());
                r.append("' is no entry: ");
                r.append(cause.as_str());
                r
            },
            StoreError::WriteError(id) => {
                let mut r = "the entry '".to_string();
                r.append(id.local().as_str());
                r.append("' cannot be written");
                r
            },
            StoreError::AmbiguousHash(ids) => {
                let mut r = "several entries have a hash that begins so: ".to_string();
                r.append(listing(ids).as_str());
                r
            },
            StoreError::InvalidPath(path) => {
                let mut r = "'".to_string();
                r.append(path.as_str());
                r.append("' names nothing inside the store");
                r
            },
        }
    }
}

} // verus!
