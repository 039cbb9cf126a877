//! A filter on the version that an entry's header names.

use crate::entry::Entry;
use crate::header::{read, resolve, segments, Lookup, Node, NodeValue};
use vstd::prelude::*;

verus! {

/// The version type of the `semver` crate. The filter keeps one and hands
/// it to the comparison; nothing in this library looks into it.
#[verifier::external_type_specification]
#[verifier::external_body]
pub struct ExVersion(semver::Version);

/// The version that `semver::Version::parse` reads from `text`; `None` where
/// it reports an error.
pub uninterp spec fn version_of(text: Seq<char>) -> Option<semver::Version>;

/// Whether `a` is less than `b` in the order of `semver::Version`.
pub uninterp spec fn precedes(a: semver::Version, b: semver::Version) -> bool;

/// Calls `semver::Version::parse`; the contract names what it reads.
#[verifier::external_body]
fn parse_version(text: &str) -> (r: Option<semver::Version>)
    ensures
        r == version_of(text@),
{
    semver::Version::parse(text).ok()
}

/// Compares two versions with `<`, which is `PartialOrd::lt` of
/// `semver::Version`; the contract names the answer.
#[verifier::external_body]
fn version_less(a: &semver::Version, b: &semver::Version) -> (r: bool)
    ensures
        r == precedes(*a, *b),
{
    a < b
}

/// Passes the entries whose header names a version below a given one.
pub struct VersionLt {
    version: semver::Version,
}

impl VersionLt {
    /// The version that is compared with.
    pub closed spec fn bound(&self) -> semver::Version {
        self.version
    }

    /// The filter for versions below `version`.
    pub fn new(version: semver::Version) -> (r: VersionLt)
        ensures
            r.bound() == version,
    {
        VersionLt { version }
    }

    /// Whether the header, at `imag.version`, holds a text that is a
    /// version below the bound.
    pub open spec fn passes(&self, header: NodeValue) -> bool {
        match resolve(header, segments("imag.version"@)) {
            Lookup::Found(NodeValue::String(s)) => match version_of(s) {
                Some(v) => precedes(v, self.bound()),
                None => false,
            },
            _ => false,
        }
    }

    /// Whether the filter passes the entry.
    pub fn filter(&self, e: &Entry) -> (r: bool)
        ensures
            r == self.passes(e@.header),
    {
        match read(e.get_header(), "imag.version") {
            Ok(Some(Node::String(s))) => match parse_version(s.as_str()) {
                Some(v) => version_less(&v, &self.version),
                None => false,
            },
            _ => false,
        }
    }
}

} // verus!
