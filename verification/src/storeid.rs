//! Identifiers of entries: paths relative to the root of a store.
//!
//! An identifier never leaves the store: it is not absolute and has no
//! component `.` or `..`. Two identifiers are equal when their relative paths
//! are; the root is context and no part of the identity, so identifiers of
//! different stores must not be compared.

use crate::error::StoreError;
use crate::order::{compare_texts, order_of, Order};
use crate::text::{chars_of, string_of};
use std::cmp::Ordering;
use vstd::prelude::*;
use vstd::std_specs::cmp::{PartialEqSpecImpl, PartialOrdSpecImpl};

verus! {

/// `p[i..j]` is one of the components that the slashes cut `p` into.
pub open spec fn is_component(p: Seq<char>, i: int, j: int) -> bool {
    &&& 0 <= i <= j <= p.len()
    &&& (i == 0 || p[i - 1] == '/')
    &&& (j == p.len() || p[j] == '/')
    &&& forall|k: int| i <= k < j ==> p[k] != '/'
}

/// A component that names something below the directory it stands in.
pub open spec fn good_component(c: Seq<char>) -> bool {
    c.len() > 0 && c != seq!['.'] && c != seq!['.', '.']
}

/// The paths that an identifier can hold: no NUL character, no `~` at the
/// end (such names are kept for files that are being written), and every
/// component names something. So the path is not empty, does not begin or end
/// with a slash, and never steps up or stays in place.
pub open spec fn valid_path(p: Seq<char>) -> bool {
    &&& forall|k: int| 0 <= k < p.len() ==> p[k] != '\0'
    &&& p.len() > 0 ==> p.last() != '~'
    &&& forall|i: int, j: int| #[trigger] is_component(p, i, j) ==> good_component(p.subrange(i, j))
}

/// `root`, with a slash at its end.
pub open spec fn with_slash(root: Seq<char>) -> Seq<char> {
    if root.len() > 0 && root.last() == '/' {
        root
    } else {
        root.push('/')
    }
}

/// The part of `path` that names the entry: what follows the root, where
/// `path` is written out in full below an absolute root; else `path` itself.
pub open spec fn local_part(root: Seq<char>, path: Seq<char>) -> Seq<char> {
    if root.len() > 0 && root[0] == '/' && with_slash(root).is_prefix_of(path) {
        path.skip(with_slash(root).len() as int)
    } else {
        path
    }
}

/// An identifier is found again in the path of its file: below an
/// absolute root, the path that `into_path` gives names the same identifier.
pub proof fn lemma_path_round_trip(root: Seq<char>, path: Seq<char>)
    requires
        root.len() > 0,
        root[0] == '/',
    ensures
        local_part(root, with_slash(root) + path) == path,
{
    let full = with_slash(root) + path;
    assert(with_slash(root) =~= full.subrange(0, with_slash(root).len() as int));
    assert(full.skip(with_slash(root).len() as int) =~= path);
}

/// A valid path stays inside the store: it is not empty, does not begin
/// with a slash, and none of its components is `..`.
pub proof fn lemma_valid_path_is_contained(path: Seq<char>, i: int, j: int)
    requires
        valid_path(path),
    ensures
        path.len() > 0,
        path[0] != '/',
        is_component(path, i, j) ==> path.subrange(i, j) != seq!['.', '.'],
{
    if path.len() == 0 {
        assert(is_component(path, 0, 0));
        assert(path.subrange(0, 0).len() == 0);
    } else if path[0] == '/' {
        assert(is_component(path, 0, 0));
        assert(path.subrange(0, 0).len() == 0);
    }
}

fn component_is_good(p: &Vec<char>, from: usize, to: usize) -> (ok: bool)
    requires
        from <= to <= p.len(),
    ensures
        ok == good_component(p@.subrange(from as int, to as int)),
{
    let ghost c = p@.subrange(from as int, to as int);
    let n = to - from;
    if n == 0 {
        false
    } else if n == 1 {
        assert(c[0] == p@[from as int]);
        assert(seq!['.'][0] == '.');
        if p[from] == '.' {
            assert(c =~= seq!['.']);
            false
        } else {
            true
        }
    } else if n == 2 {
        assert(c[0] == p@[from as int] && c[1] == p@[from + 1]);
        assert(seq!['.', '.'][0] == '.' && seq!['.', '.'][1] == '.');
        if p[from] == '.' && p[from + 1] == '.' {
            assert(c =~= seq!['.', '.']);
            false
        } else {
            true
        }
    } else {
        true
    }
}

/// Whether `p` is a path that an identifier can hold.
pub fn is_valid_path(p: &Vec<char>) -> (ok: bool)
    ensures
        ok == valid_path(p@),
{
    let mut start: usize = 0;
    let mut i: usize = 0;
    while i < p.len()
        invariant
            start <= i <= p.len(),
            start == 0 || p@[start - 1] == '/',
            forall|k: int| start <= k < i ==> p@[k] != '/',
            forall|k: int| 0 <= k < i ==> p@[k] != '\0',
            forall|a: int, b: int| #[trigger]
                is_component(p@, a, b) && b < start ==> good_component(p@.subrange(a, b)),
        decreases p.len() - i,
    {
        let c = p[i];
        if c == '\0' {
            return false;
        }
        if c == '/' {
            if !component_is_good(p, start, i) {
                assert(is_component(p@, start as int, i as int));
                return false;
            }
            assert forall|a: int, b: int| #[trigger]
                is_component(p@, a, b) && b < i + 1 implies good_component(
                p@.subrange(a, b),
            ) by {
                if b >= start {
                    assert(b == i);
                    assert(a == start) by {
                        if a < start {
                            assert(p@[start - 1] == '/');
                        }
                        if a > start {
                            assert(p@[a - 1] == '/');
                        }
                    }
                }
            }
            start = i + 1;
        }
        i += 1;
    }
    if !component_is_good(p, start, i) {
        assert(is_component(p@, start as int, i as int));
        return false;
    }
    if p[p.len() - 1] == '~' {
        return false;
    }
    assert forall|a: int, b: int| #[trigger] is_component(p@, a, b) implies good_component(
        p@.subrange(a, b),
    ) by {
        if b >= start {
            assert(b == p.len());
            assert(a == start) by {
                if a < start {
                    assert(p@[start - 1] == '/');
                }
                if a > start {
                    assert(p@[a - 1] == '/');
                }
            }
        }
    }
    true
}

/// Whether `p` begins with `prefix`.
pub fn has_prefix(p: &Vec<char>, prefix: &Vec<char>) -> (yes: bool)
    ensures
        yes == prefix@.is_prefix_of(p@),
{
    if prefix.len() > p.len() {
        return false;
    }
    let mut i: usize = 0;
    while i < prefix.len()
        invariant
            i <= prefix.len() <= p.len(),
            forall|k: int| 0 <= k < i ==> prefix@[k] == p@[k],
        decreases prefix.len() - i,
    {
        if prefix[i] != p[i] {
            assert(p@.subrange(0, prefix.len() as int)[i as int] == p@[i as int]);
            return false;
        }
        i += 1;
    }
    assert(prefix@ =~= p@.subrange(0, prefix.len() as int));
    true
}

fn root_with_slash(root: &str) -> (r: Vec<char>)
    ensures
        r@ == with_slash(root@),
{
    let mut r = chars_of(root);
    if r.len() == 0 || r[r.len() - 1] != '/' {
        r.push('/');
    }
    r
}

/// The identifier of an entry. Identifiers are equal when their relative
/// paths are, and are ordered as their relative paths are, character by
/// character.
#[derive(Debug, Ord, Hash)]
pub struct StoreId {
    path: String,
}

impl View for StoreId {
    type V = Seq<char>;

    /// The relative path.
    closed spec fn view(&self) -> Seq<char> {
        self.path@
    }
}

impl StoreId {
    #[verifier::type_invariant]
    spec fn well_formed(&self) -> bool {
        valid_path(self.path@)
    }

    /// The identifier that `path` names in the store at `root`.
    ///
    /// `path` is relative to the root; a path written out in full below an
    /// absolute root is taken from the root on. It is refused where it is
    /// absolute otherwise, is empty, steps up, or holds a NUL character.
    pub fn new(root: &str, path: &str) -> (r: Result<StoreId, StoreError>)
        ensures
            match r {
                Ok(id) => valid_path(local_part(root@, path@)) && id@ == local_part(root@, path@),
                Err(e) => !valid_path(local_part(root@, path@)) && e@ == crate::error::Fault::InvalidPath(
                    path@,
                ),
            },
    {
        let chars = chars_of(path);
        let prefix = root_with_slash(root);
        let root_chars = chars_of(root);
        let absolute = root_chars.len() > 0 && root_chars[0] == '/';
        let mut from: usize = 0;
        if absolute && has_prefix(&chars, &prefix) {
            from = prefix.len();
        }
        let local = string_of(&chars, from, chars.len());
        assert(local@ =~= local_part(root@, path@)) by {
            assert(chars@.subrange(0, chars.len() as int) =~= chars@);
        }
        let local_chars = chars_of(local.as_str());
        if is_valid_path(&local_chars) {
            Ok(StoreId { path: local })
        } else {
            Err(StoreError::InvalidPath(path.to_string()))
        }
    }

    /// The identifier that the relative path `path` names.
    pub fn new_baseless(path: &str) -> (r: Result<StoreId, StoreError>)
        ensures
            match r {
                Ok(id) => valid_path(path@) && id@ == path@,
                Err(e) => !valid_path(path@) && e@ == crate::error::Fault::InvalidPath(path@),
            },
    {
        let chars = chars_of(path);
        if is_valid_path(&chars) {
            Ok(StoreId { path: path.to_string() })
        } else {
            Err(StoreError::InvalidPath(path.to_string()))
        }
    }

    /// The relative path, which is a valid one.
    pub fn local(&self) -> (r: &String)
        ensures
            r@ == self@,
            valid_path(self@),
    {
        proof {
            use_type_invariant(self);
        }
        &self.path
    }

    /// The path of the entry's file in the store at `root`: the root, a slash
    /// unless the root ends in one, and the relative path.
    pub fn into_path(&self, root: &str) -> (r: String)
        ensures
            r@ == with_slash(root@) + self@,
    {
        let prefix = root_with_slash(root);
        let mut r = string_of(&prefix, 0, prefix.len());
        assert(prefix@.subrange(0, prefix.len() as int) =~= prefix@);
        r.append(self.path.as_str());
        r
    }
}

impl Clone for StoreId {
    fn clone(&self) -> (r: StoreId)
        ensures
            r@ == self@,
    {
        proof {
            use_type_invariant(self);
        }
        StoreId { path: self.path.clone() }
    }
}

impl PartialEq for StoreId {
    fn eq(&self, other: &StoreId) -> (r: bool) {
        self.path == other.path
    }
}

impl Eq for StoreId {

}

impl PartialEqSpecImpl for StoreId {
    open spec fn obeys_eq_spec() -> bool {
        true
    }

    open spec fn eq_spec(&self, other: &StoreId) -> bool {
        self@ == other@
    }
}

impl PartialOrd for StoreId {
    fn partial_cmp(&self, other: &StoreId) -> (r: Option<Ordering>) {
        let a = chars_of(self.path.as_str());
        let b = chars_of(other.path.as_str());
        match compare_texts(&a, &b) {
            Order::Less => Some(Ordering::Less),
            Order::Equal => Some(Ordering::Equal),
            Order::Greater => Some(Ordering::Greater),
        }
    }
}

impl PartialOrdSpecImpl for StoreId {
    open spec fn obeys_partial_cmp_spec() -> bool {
        true
    }

    open spec fn partial_cmp_spec(&self, other: &StoreId) -> Option<Ordering> {
        match order_of(self@, other@) {
            Order::Less => Some(Ordering::Less),
            Order::Equal => Some(Ordering::Equal),
            Order::Greater => Some(Ordering::Greater),
        }
    }
}

} // verus!
