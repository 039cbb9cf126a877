//! The category of an entry: a name kept in the header at `category.value`.

use crate::entry::{lemma_insert_keeps_stamp, Entry};
use crate::header::{inserted, resolve, segments, HeaderError, Lookup, Node, NodeValue};
use crate::text::lemma_split_first;
use vstd::prelude::*;
use vstd::std_specs::convert::FromSpecImpl;

verus! {

/// The name of a category.
#[derive(Debug, PartialEq, Eq, PartialOrd, Ord)]
pub struct Category(pub String);

impl View for Category {
    type V = Seq<char>;

    open spec fn view(&self) -> Seq<char> {
        self.0@
    }
}

impl Clone for Category {
    fn clone(&self) -> (r: Category)
        ensures
            r@ == self@,
    {
        Category(self.0.clone())
    }
}

impl From<String> for Category {
    fn from(s: String) -> (r: Category) {
        Category(s)
    }
}

impl FromSpecImpl<String> for Category {
    open spec fn obeys_from_spec() -> bool {
        true
    }

    open spec fn from_spec(s: String) -> Category {
        Category(s)
    }
}

impl From<Category> for String {
    fn from(c: Category) -> (r: String) {
        c.0
    }
}

impl FromSpecImpl<Category> for String {
    open spec fn obeys_from_spec() -> bool {
        true
    }

    open spec fn from_spec(c: Category) -> String {
        c.0
    }
}

/// The categories that exist.
#[derive(Debug)]
pub struct CategoryRegister {
    pub names: Vec<String>,
}

impl CategoryRegister {
    /// Whether a category of this name is known.
    pub open spec fn knows(&self, name: Seq<char>) -> bool {
        exists|i: int| 0 <= i < self.names.len() && self.names[i]@ == name
    }

    /// Whether a category of this name is known.
    pub fn category_exists(&self, name: &String) -> (r: bool)
        ensures
            r == self.knows(name@),
    {
        let mut i: usize = 0;
        while i < self.names.len()
            invariant
                i <= self.names.len(),
                forall|k: int| 0 <= k < i ==> self.names[k]@ != name@,
            decreases self.names.len() - i,
        {
            if self.names[i] == *name {
                return true;
            }
            i += 1;
        }
        false
    }
}

/// What went wrong with a category.
#[derive(Clone, Copy, Debug, PartialEq, Eq, Structural)]
pub enum CategoryErrorKind {
    HeaderReadError,
    HeaderWriteError,
    CategoryDoesNotExist,
    TypeError,
}

/// A failure with a category, with the failed access to the header that
/// caused it, where there is one.
#[derive(Debug)]
pub struct CategoryError {
    pub kind: CategoryErrorKind,
    pub cause: Option<HeaderError>,
}

/// The segments of the path `category.value`.
pub open spec fn category_path() -> Seq<Seq<char>> {
    segments("category.value"@)
}

/// The category that a header holds: the text at `category.value`, nothing
/// where nothing stands there; a failure where something else stands there
/// or the path cannot be followed.
pub open spec fn category_of(header: NodeValue) -> Result<Option<Seq<char>>, CategoryErrorKind> {
    match resolve(header, category_path()) {
        Lookup::Found(NodeValue::String(s)) => Ok(Some(s)),
        Lookup::Found(_) => Err(CategoryErrorKind::TypeError),
        Lookup::Absent => Ok(None),
        Lookup::Mismatch => Err(CategoryErrorKind::HeaderReadError),
    }
}

/// The category is kept below the key `category`, not below `imag`.
pub proof fn lemma_category_key()
    ensures
        category_path().len() > 0,
        category_path()[0] != "imag"@,
{
    reveal_strlit("category.value");
    reveal_strlit("imag");
    let s = "category.value"@;
    assert(s.len() == 14);
    assert(s[8] == '.');
    lemma_split_first(s, '.', 8);
    assert(s.take(8).len() == 8);
    assert("imag"@.len() == 4);
}

/// Entries that carry a category.
pub trait EntryCategory: Sized {
    /// The header of the entry.
    spec fn header_value(&self) -> NodeValue;

    /// Writes the category into the header, whether it is known or not.
    fn set_category(&mut self, s: Category) -> (r: Result<(), CategoryError>)
        ensures
            match inserted(old(self).header_value(), category_path(), NodeValue::String(s@)) {
                Some(h) => r is Ok && final(self).header_value() == h,
                None => final(self).header_value() == old(self).header_value() && (r matches Err(
                    e,
                ) && e.kind == CategoryErrorKind::HeaderWriteError),
            },
    ;

    /// Writes the category into the header if the register knows it.
    fn set_category_checked(&mut self, register: &CategoryRegister, s: Category) -> (r: Result<
        (),
        CategoryError,
    >)
        ensures
            !register.knows(s@) ==> final(self).header_value() == old(self).header_value() && (
            r matches Err(e) && e.kind == CategoryErrorKind::CategoryDoesNotExist),
            register.knows(s@) ==> match inserted(
                old(self).header_value(),
                category_path(),
                NodeValue::String(s@),
            ) {
                Some(h) => r is Ok && final(self).header_value() == h,
                None => final(self).header_value() == old(self).header_value() && (r matches Err(
                    e,
                ) && e.kind == CategoryErrorKind::HeaderWriteError),
            },
    ;

    /// The category in the header.
    fn get_category(&self) -> (r: Result<Option<Category>, CategoryError>)
        ensures
            match category_of(self.header_value()) {
                Ok(Some(name)) => r matches Ok(Some(c)) && c@ == name,
                Ok(None) => r matches Ok(None),
                Err(kind) => r matches Err(e) && e.kind == kind,
            },
    ;

    /// Whether something stands where the category is kept.
    fn has_category(&self) -> (r: Result<bool, CategoryError>)
        ensures
            match resolve(self.header_value(), category_path()) {
                Lookup::Found(_) => r == Ok::<bool, CategoryError>(true),
                Lookup::Absent => r == Ok::<bool, CategoryError>(false),
                Lookup::Mismatch => r matches Err(e) && e.kind
                    == CategoryErrorKind::HeaderReadError,
            },
    ;
}

impl EntryCategory for Entry {
    open spec fn header_value(&self) -> NodeValue {
        self@.header
    }

    fn set_category(&mut self, s: Category) -> (r: Result<(), CategoryError>)
        ensures
            final(self)@.id == old(self)@.id,
            final(self)@.content == old(self)@.content,
    {
        let _ = self.get_header();
        proof {
            lemma_category_key();
            if inserted(self@.header, category_path(), NodeValue::String(s@)) is Some {
                lemma_insert_keeps_stamp(self@.header, category_path(), NodeValue::String(s@));
            }
        }
        match self.insert("category.value", Node::String(s.0)) {
            Ok(_) => Ok(()),
            Err(e) => Err(
                CategoryError { kind: CategoryErrorKind::HeaderWriteError, cause: Some(e) },
            ),
        }
    }

    fn set_category_checked(&mut self, register: &CategoryRegister, s: Category) -> (r: Result<
        (),
        CategoryError,
    >)
        ensures
            final(self)@.id == old(self)@.id,
            final(self)@.content == old(self)@.content,
    {
        if register.category_exists(&s.0) {
            self.set_category(s)
        } else {
            Err(CategoryError { kind: CategoryErrorKind::CategoryDoesNotExist, cause: None })
        }
    }

    fn get_category(&self) -> (r: Result<Option<Category>, CategoryError>) {
        match self.read("category.value") {
            Err(e) => Err(
                CategoryError { kind: CategoryErrorKind::HeaderReadError, cause: Some(e) },
            ),
            Ok(Some(Node::String(s))) => Ok(Some(Category(s.clone()))),
            Ok(None) => Ok(None),
            Ok(Some(_)) => Err(CategoryError { kind: CategoryErrorKind::TypeError, cause: None }),
        }
    }

    fn has_category(&self) -> (r: Result<bool, CategoryError>) {
        match self.read("category.value") {
            Err(e) => Err(
                CategoryError { kind: CategoryErrorKind::HeaderReadError, cause: Some(e) },
            ),
            Ok(found) => Ok(found.is_some()),
        }
    }
}

} // verus!
