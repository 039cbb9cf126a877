//! References to files outside the store: what is tracked of a file, and
//! what becomes of a reference that is to be removed.

use crate::storeid::StoreId;
use vstd::prelude::*;

verus! {

/// What is tracked of a referenced file.
#[derive(Clone, Copy, Debug, PartialEq, Eq, Structural)]
pub struct RefFlags {
    pub content_hashing: bool,
    pub permission_tracking: bool,
}

impl RefFlags {
    /// The same, with the tracking of the content as told.
    pub fn with_content_hashing(self, b: bool) -> (r: RefFlags)
        ensures
            r == (RefFlags { content_hashing: b, ..self }),
    {
        RefFlags { content_hashing: b, permission_tracking: self.permission_tracking }
    }

    /// The same, with the tracking of the permissions as told.
    pub fn with_permission_tracking(self, b: bool) -> (r: RefFlags)
        ensures
            r == (RefFlags { permission_tracking: b, ..self }),
    {
        RefFlags { content_hashing: self.content_hashing, permission_tracking: b }
    }
}

impl Default for RefFlags {
    /// Nothing is tracked.
    fn default() -> (r: RefFlags)
        ensures
            r == (RefFlags { content_hashing: false, permission_tracking: false }),
    {
        RefFlags { content_hashing: false, permission_tracking: false }
    }
}

/// What becomes of a reference that is to be removed.
#[derive(Debug)]
pub enum Removal {
    /// Nothing has the hash.
    NotFound,
    /// The user is to be asked first.
    Ask(StoreId),
    /// The entry is to be deleted.
    Delete(StoreId),
    /// The user said no.
    Aborted,
}

/// What to do about the entry found for a hash: nothing where none was
/// found, delete it where `yes` was given, else ask.
pub fn plan_removal(found: Option<StoreId>, yes: bool) -> (r: Removal)
    ensures
        match found {
            None => r is NotFound,
            Some(id) => if yes {
                r matches Removal::Delete(d) && d@ == id@
            } else {
                r matches Removal::Ask(d) && d@ == id@
            },
        },
{
    match found {
        None => Removal::NotFound,
        Some(id) => if yes {
            Removal::Delete(id)
        } else {
            Removal::Ask(id)
        },
    }
}

/// What to do once the user has answered.
pub fn answer_removal(id: StoreId, confirmed: bool) -> (r: Removal)
    ensures
        if confirmed {
            r matches Removal::Delete(d) && d@ == id@
        } else {
            r is Aborted
        },
{
    if confirmed {
        Removal::Delete(id)
    } else {
        Removal::Aborted
    }
}

} // verus!
