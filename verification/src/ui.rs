//! The command-line argument that names entries.

use crate::error::{Fault, StoreError};
use crate::storeid::{valid_path, StoreId};
use crate::text::texts;
use vstd::prelude::*;

verus! {

/// The name of the argument.
pub fn id_argument_name() -> (r: &'static str)
    ensures
        r@ == "id-argument"@,
{
    "id-argument"
}

/// The short form of the argument.
pub fn id_argument_short() -> (r: &'static str)
    ensures
        r@ == "i"@,
{
    "i"
}

/// The long form of the argument.
pub fn id_argument_long() -> (r: &'static str)
    ensures
        r@ == "id"@,
{
    "id"
}

/// What went wrong with the argument.
#[derive(Debug)]
pub enum InteractionError {
    /// The argument was not given.
    IdMissing,
    /// A value of the argument is no identifier.
    StoreIdParsing(StoreError),
    /// No identifier was selected.
    IdSelecting,
}

/// Every one of `values` is a valid path.
pub open spec fn all_valid(values: Seq<Seq<char>>) -> bool {
    forall|i: int| 0 <= i < values.len() ==> valid_path(#[trigger] values[i])
}

/// `i` is the first of `values` that is no valid path.
pub open spec fn first_invalid(values: Seq<Seq<char>>, i: int) -> bool {
    &&& 0 <= i < values.len()
    &&& !valid_path(values[i])
    &&& forall|k: int| 0 <= k < i ==> valid_path(#[trigger] values[k])
}

/// The identifiers that the values of the argument name, in their order.
/// `values` is `None` where the argument was not given. Fails at the first
/// value that is no identifier, and names it.
#[verifier::loop_isolation(false)]
pub fn get_id(values: Option<&Vec<String>>) -> (r: Result<Vec<StoreId>, InteractionError>)
    ensures
        match values {
            None => r matches Err(InteractionError::IdMissing),
            Some(given) => match r {
                Ok(ids) => all_valid(texts(given@)) && crate::error::paths(ids@) == texts(given@),
                Err(InteractionError::StoreIdParsing(e)) => exists|i: int|
                    first_invalid(texts(given@), i) && e@ == Fault::InvalidPath(given@[i]@),
                Err(_) => false,
            },
        },
{
    match values {
        None => Err(InteractionError::IdMissing),
        Some(given) => {
            let mut ids: Vec<StoreId> = Vec::new();
            let mut i: usize = 0;
            while i < given.len()
                invariant
                    i <= given.len(),
                    ids.len() == i,
                    forall|k: int| 0 <= k < i ==> valid_path(#[trigger] texts(given@)[k]),
                    forall|k: int| 0 <= k < i ==> ids@[k]@ == given@[k]@,
                decreases given.len() - i,
            {
                match StoreId::new_baseless(given[i].as_str()) {
                    Ok(id) => {
                        ids.push(id);
                    },
                    Err(e) => {
                        assert(first_invalid(texts(given@), i as int));
                        return Err(InteractionError::StoreIdParsing(e));
                    },
                }
                i += 1;
            }
            assert(crate::error::paths(ids@) =~= texts(given@));
            Ok(ids)
        },
    }
}

/// The identifier that a selected file names, as the only one of a list.
pub fn selected_id(path: &str) -> (r: Result<Vec<StoreId>, InteractionError>)
    ensures
        match r {
            Ok(ids) => valid_path(path@) && ids.len() == 1 && ids@[0]@ == path@,
            Err(InteractionError::StoreIdParsing(e)) => !valid_path(path@) && e@
                == Fault::InvalidPath(path@),
            Err(_) => false,
        },
{
    match StoreId::new_baseless(path) {
        Ok(id) => {
            let mut ids: Vec<StoreId> = Vec::new();
            ids.push(id);
            Ok(ids)
        },
        Err(e) => Err(InteractionError::StoreIdParsing(e)),
    }
}

} // verus!
