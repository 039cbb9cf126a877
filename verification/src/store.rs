//! The store: which entries are checked out, and what each operation decides.
//!
//! The store keeps no file open and reads none. Its caller looks at the disk
//! and tells the store what it found; the store decides, keeps its registry of
//! checked-out entries, and says what is to be written.

use crate::entry::{entry_parts, entry_text, module_of, stamp, Entry, EntryView};
use crate::error::{paths, Fault, StoreError};
use crate::hash::{content_hash, hash_text};
use crate::seqs::{lemma_filter_one, lemma_filter_step, lemma_filter_two};
use crate::storeid::{has_prefix, valid_path, with_slash, StoreId};
use crate::text::{chars_of, texts};
use vstd::prelude::*;

verus! {

/// The exclusive handle to one checked-out entry.
///
/// Only the store hands one out, and it takes it back in
/// [`Store::release`]. The handle remembers the identifier it was given out
/// for, whatever is done to the entry in between.
#[derive(Debug)]
pub struct EntryGuard {
    id: StoreId,
    entry: Entry,
}

impl EntryGuard {
    /// The identifier that is checked out.
    pub closed spec fn id(&self) -> Seq<char> {
        self.id@
    }

    /// The value of the entry in hand.
    pub closed spec fn entry_view(&self) -> EntryView {
        self.entry@
    }

    /// The identifier that is checked out.
    pub fn get_location(&self) -> (r: &StoreId)
        ensures
            r@ == self.id(),
    {
        &self.id
    }

    /// The entry.
    pub fn entry(&self) -> (r: &Entry)
        ensures
            r@ == self.entry_view(),
    {
        &self.entry
    }

    /// The entry, to change it in place.
    pub fn entry_mut(&mut self) -> (r: &mut Entry)
        ensures
            r@ == old(self).entry_view(),
            final(self).entry_view() == final(r)@,
            final(self).id() == old(self).id(),
    {
        &mut self.entry
    }
}

/// What is to be written for an entry: the text goes to the file `temp`,
/// which is then renamed to `target`.
#[derive(Debug)]
pub struct WritePlan {
    pub target: String,
    pub temp: String,
    pub text: String,
}

/// The file of the entry `id` in the store at `root`.
pub open spec fn file_of(root: Seq<char>, id: Seq<char>) -> Seq<char> {
    with_slash(root) + id
}

/// The file that is written before it is renamed to `target`: in the same
/// directory, with `~` behind the name.
pub open spec fn temp_of(target: Seq<char>) -> Seq<char> {
    target.push('~')
}

/// What `create` decides.
pub open spec fn create_outcome(locked: Set<Seq<char>>, id: Seq<char>, on_disk: bool) -> Result<
    EntryView,
    Fault,
> {
    if locked.contains(id) {
        Err(Fault::Locked(id))
    } else if on_disk {
        Err(Fault::AlreadyExists(id))
    } else {
        Ok(EntryView { id, header: stamp(module_of(id)), content: Seq::empty() })
    }
}

/// What `retrieve` decides; `file` is the text of the file at `id`, if there
/// is one.
pub open spec fn retrieve_outcome(
    locked: Set<Seq<char>>,
    id: Seq<char>,
    file: Option<Seq<char>>,
) -> Result<EntryView, Fault> {
    if locked.contains(id) {
        Err(Fault::Locked(id))
    } else {
        match file {
            None => Err(Fault::NotFound(id)),
            Some(text) => match entry_parts(text) {
                Some((header, content)) => Ok(EntryView { id, header, content }),
                None => Err(Fault::ParseError(id)),
            },
        }
    }
}

/// What `get` decides: as `retrieve`, but a missing file is no failure.
pub open spec fn get_outcome(
    locked: Set<Seq<char>>,
    id: Seq<char>,
    file: Option<Seq<char>>,
) -> Result<Option<EntryView>, Fault> {
    match retrieve_outcome(locked, id, file) {
        Ok(entry) => Ok(Some(entry)),
        Err(Fault::NotFound(_)) => Ok(None),
        Err(fault) => Err(fault),
    }
}

/// What `delete` decides.
pub open spec fn delete_outcome(locked: Set<Seq<char>>, id: Seq<char>, on_disk: bool) -> Result<
    (),
    Fault,
> {
    if locked.contains(id) {
        Err(Fault::Locked(id))
    } else if !on_disk {
        Err(Fault::NotFound(id))
    } else {
        Ok(())
    }
}

/// No entry is checked out twice: whichever operation checked an identifier
/// out, `create`, `retrieve` and `get` all refuse it with `Locked` while it
/// is out, whatever the disk holds.
pub proof fn lemma_exclusive(
    locked: Set<Seq<char>>,
    id: Seq<char>,
    on_disk: bool,
    file: Option<Seq<char>>,
)
    requires
        locked.contains(id),
    ensures
        create_outcome(locked, id, on_disk) == Err::<EntryView, Fault>(Fault::Locked(id)),
        retrieve_outcome(locked, id, file) == Err::<EntryView, Fault>(Fault::Locked(id)),
        get_outcome(locked, id, file) == Err::<Option<EntryView>, Fault>(Fault::Locked(id)),
{
}

/// One of `ids` has the path `p`.
pub open spec fn holds(ids: Seq<StoreId>, p: Seq<char>) -> bool {
    exists|i: int| 0 <= i < ids.len() && ids[i]@ == p
}

/// An entry that was checked out and is released leaves the registry as it
/// was before.
pub proof fn lemma_release_restores(locked: Set<Seq<char>>, id: Seq<char>)
    requires
        !locked.contains(id),
    ensures
        locked.insert(id).remove(id) == locked,
{
    assert(locked.insert(id).remove(id) =~= locked);
}

/// The store: its root directory and the registry of checked-out entries.
#[derive(Debug)]
pub struct Store {
    root: String,
    checked_out: Vec<StoreId>,
}

impl Store {
    /// The root directory.
    pub closed spec fn root(&self) -> Seq<char> {
        self.root@
    }

    /// The identifiers that are checked out.
    pub closed spec fn locked(&self) -> Set<Seq<char>> {
        Set::new(|p: Seq<char>| holds(self.checked_out@, p))
    }

    /// A store at `root` with nothing checked out.
    pub fn new(root: String) -> (r: Store)
        ensures
            r.root() == root@,
            r.locked() == Set::<Seq<char>>::empty(),
    {
        let r = Store { root, checked_out: Vec::new() };
        assert(r.locked() =~= Set::<Seq<char>>::empty());
        r
    }

    /// The root directory.
    pub fn path(&self) -> (r: &String)
        ensures
            r@ == self.root(),
    {
        &self.root
    }

    fn position_of(&self, id: &StoreId) -> (r: Option<usize>)
        ensures
            match r {
                Some(i) => i < self.checked_out.len() && self.checked_out[i as int]@ == id@,
                None => !self.locked().contains(id@),
            },
            r is Some ==> self.locked().contains(id@),
    {
        let mut i: usize = 0;
        while i < self.checked_out.len()
            invariant
                i <= self.checked_out.len(),
                forall|k: int| 0 <= k < i ==> self.checked_out[k]@ != id@,
            decreases self.checked_out.len() - i,
        {
            if self.checked_out[i] == *id {
                assert(holds(self.checked_out@, id@));
                return Some(i);
            }
            i += 1;
        }
        None
    }

    /// Whether `id` is checked out.
    pub fn is_locked(&self, id: &StoreId) -> (r: bool)
        ensures
            r == self.locked().contains(id@),
    {
        self.position_of(id).is_some()
    }

    fn lock(&mut self, id: StoreId)
        ensures
            final(self).locked() == old(self).locked().insert(id@),
            final(self).root() == old(self).root(),
    {
        let ghost before = self.checked_out@;
        self.checked_out.push(id);
        assert forall|p: Seq<char>| #[trigger]
            holds(self.checked_out@, p) <==> (holds(before, p) || p == id@) by {
            if holds(before, p) {
                let i = choose|i: int| 0 <= i < before.len() && before[i]@ == p;
                assert(self.checked_out@[i]@ == p);
            }
            if p == id@ {
                assert(self.checked_out@[before.len() as int]@ == p);
            }
        }
        assert(self.locked() =~= old(self).locked().insert(id@));
    }

    fn unlock(&mut self, id: &StoreId)
        ensures
            final(self).locked() == old(self).locked().remove(id@),
            final(self).root() == old(self).root(),
    {
        let mut kept: Vec<StoreId> = Vec::new();
        let mut i: usize = 0;
        while i < self.checked_out.len()
            invariant
                i <= self.checked_out.len(),
                forall|k: int|
                    0 <= k < kept.len() ==> #[trigger] kept[k]@ != id@ && holds(
                        self.checked_out@,
                        kept[k]@,
                    ),
                forall|j: int|
                    0 <= j < i && #[trigger] self.checked_out[j]@ != id@ ==> holds(
                        kept@,
                        self.checked_out[j]@,
                    ),
            decreases self.checked_out.len() - i,
        {
            if self.checked_out[i] != *id {
                let ghost before = kept@;
                kept.push(self.checked_out[i].clone());
                assert(kept@[before.len() as int]@ == self.checked_out[i as int]@);
                assert forall|j: int|
                    0 <= j < i + 1 && #[trigger] self.checked_out[j]@ != id@ implies holds(
                    kept@,
                    self.checked_out[j]@,
                ) by {
                    if j < i {
                        let k = choose|k: int|
                            0 <= k < before.len() && before[k]@ == self.checked_out[j]@;
                        assert(kept@[k]@ == self.checked_out[j]@);
                    }
                }
            }
            i += 1;
        }
        let ghost all = self.checked_out@;
        self.checked_out = kept;
        assert forall|p: Seq<char>| #[trigger]
            holds(self.checked_out@, p) <==> (holds(all, p) && p != id@) by {
            if holds(self.checked_out@, p) {
                let k = choose|k: int| 0 <= k < kept.len() && kept@[k]@ == p;
                assert(kept[k]@ != id@ && holds(all, kept[k]@));
            }
            if holds(all, p) && p != id@ {
                let j = choose|j: int| 0 <= j < all.len() && all[j]@ == p;
                assert(holds(kept@, all[j]@));
            }
        }
        assert(self.locked() =~= old(self).locked().remove(id@));
    }

    /// Makes a new entry at `id` and checks it out. `on_disk` says whether a
    /// file stands at `id`.
    ///
    /// Refused with `Locked` where `id` is checked out, with `AlreadyExists`
    /// where a file stands there; the registry then stays as it was.
    pub fn create(&mut self, id: StoreId, on_disk: bool) -> (r: Result<EntryGuard, StoreError>)
        ensures
            final(self).root() == old(self).root(),
            match create_outcome(old(self).locked(), id@, on_disk) {
                Ok(entry) => (r matches Ok(guard) && guard.id() == id@ && guard.entry_view()
                    == entry) && final(self).locked() == old(self).locked().insert(id@),
                Err(fault) => (r matches Err(e) && e@ == fault) && final(self).locked() == old(
                    self,
                ).locked(),
            },
    {
        if self.is_locked(&id) {
            return Err(StoreError::Locked(id));
        }
        if on_disk {
            return Err(StoreError::AlreadyExists(id));
        }
        self.lock(id.clone());
        let entry = Entry::new(id.clone());
        Ok(EntryGuard { id, entry })
    }

    /// Checks out the entry at `id`. `file` is the text of the file at `id`,
    /// `None` where there is none.
    ///
    /// Refused with `Locked` where `id` is checked out, with `NotFound`
    /// where there is no file, with `ParseError` where the file is no entry;
    /// the registry then stays as it was.
    pub fn retrieve(&mut self, id: StoreId, file: Option<&str>) -> (r: Result<
        EntryGuard,
        StoreError,
    >)
        ensures
            final(self).root() == old(self).root(),
            match retrieve_outcome(
                old(self).locked(),
                id@,
                match file {
                    Some(text) => Some(text@),
                    None => None,
                },
            ) {
                Ok(entry) => (r matches Ok(guard) && guard.id() == id@ && guard.entry_view()
                    == entry) && final(self).locked() == old(self).locked().insert(id@),
                Err(fault) => (r matches Err(e) && e@ == fault) && final(self).locked() == old(
                    self,
                ).locked(),
            },
    {
        if self.is_locked(&id) {
            return Err(StoreError::Locked(id));
        }
        match file {
            None => Err(StoreError::NotFound(id)),
            Some(text) => match Entry::from_text(id.clone(), text) {
                Err(e) => Err(e),
                Ok(entry) => {
                    self.lock(id.clone());
                    Ok(EntryGuard { id, entry })
                },
            },
        }
    }

    /// As [`Store::retrieve`], but a missing file is `Ok(None)` and no failure.
    pub fn get(&mut self, id: StoreId, file: Option<&str>) -> (r: Result<
        Option<EntryGuard>,
        StoreError,
    >)
        ensures
            final(self).root() == old(self).root(),
            match get_outcome(
                old(self).locked(),
                id@,
                match file {
                    Some(text) => Some(text@),
                    None => None,
                },
            ) {
                Ok(Some(entry)) => (r matches Ok(Some(guard)) && guard.id() == id@
                    && guard.entry_view() == entry) && final(self).locked() == old(
                    self,
                ).locked().insert(id@),
                Ok(None) => r matches Ok(None) && final(self).locked() == old(self).locked(),
                Err(fault) => (r matches Err(e) && e@ == fault) && final(self).locked() == old(
                    self,
                ).locked(),
            },
    {
        if self.is_locked(&id) {
            return Err(StoreError::Locked(id));
        }
        match file {
            None => Ok(None),
            Some(text) => match self.retrieve(id, Some(text)) {
                Ok(guard) => Ok(Some(guard)),
                Err(e) => Err(e),
            },
        }
    }

    /// Decides whether the file at `id` may be removed. `on_disk` says
    /// whether a file stands there.
    ///
    /// Refused with `Locked` where `id` is checked out, with `NotFound`
    /// where there is no file.
    pub fn delete(&self, id: &StoreId, on_disk: bool) -> (r: Result<(), StoreError>)
        ensures
            match delete_outcome(self.locked(), id@, on_disk) {
                Ok(_) => r is Ok,
                Err(fault) => r matches Err(e) && e@ == fault,
            },
    {
        if self.is_locked(id) {
            Err(StoreError::Locked(id.clone()))
        } else if !on_disk {
            Err(StoreError::NotFound(id.clone()))
        } else {
            Ok(())
        }
    }

    /// What is to be written for the entry in `guard`, which stays checked
    /// out. Fails with `WriteError` where the entry has no text.
    pub fn update(&self, guard: &EntryGuard) -> (r: Result<WritePlan, StoreError>)
        ensures
            match entry_text(guard.entry_view().header, guard.entry_view().content) {
                Some(text) => r matches Ok(plan) && plan.text@ == text && plan.target@ == file_of(
                    self.root(),
                    guard.id(),
                ) && plan.temp@ == temp_of(plan.target@),
                None => r matches Err(e) && e@ == Fault::WriteError(guard.id()),
            },
    {
        match guard.entry.to_text() {
            Err(_) => Err(StoreError::WriteError(guard.id.clone())),
            Ok(text) => {
                let target = guard.id.into_path(self.root.as_str());
                let mut temp = target.clone();
                temp.push('~');
                Ok(WritePlan { target, temp, text })
            },
        }
    }

    /// Takes the entry back: it is checked in, and the plan says what is to
    /// be written. The entry is checked in also where it has no text and
    /// the release fails with `WriteError`.
    pub fn release(&mut self, guard: EntryGuard) -> (r: Result<WritePlan, StoreError>)
        ensures
            final(self).root() == old(self).root(),
            final(self).locked() == old(self).locked().remove(guard.id()),
            match entry_text(guard.entry_view().header, guard.entry_view().content) {
                Some(text) => r matches Ok(plan) && plan.text@ == text && plan.target@ == file_of(
                    old(self).root(),
                    guard.id(),
                ) && plan.temp@ == temp_of(plan.target@),
                None => r matches Err(e) && e@ == Fault::WriteError(guard.id()),
            },
    {
        let plan = self.update(&guard);
        self.unlock(&guard.id);
        plan
    }

    /// The entries of `module` among the files of the store: those whose
    /// path begins with the module's name and a slash. `listing` holds the
    /// paths of the files, relative to the root, as the caller found them;
    /// the identifiers come in that order. A path that is no identifier is
    /// passed over.
    pub fn retrieve_for_module(&self, module: &str, listing: &Vec<String>) -> (r: Vec<StoreId>)
        ensures
            paths(r@) == module_entries(texts(listing@), module@),
    {
        let mut prefix = chars_of(module);
        prefix.push('/');
        let mut found: Vec<StoreId> = Vec::new();
        let mut i: usize = 0;
        let ghost all = texts(listing@);
        proof {
            reveal(Seq::filter);
            assert(all.take(0) =~= Seq::<Seq<char>>::empty());
            assert(paths(found@) =~= module_entries(all.take(0), module@));
        }
        while i < listing.len()
            invariant
                i <= listing.len(),
                all == texts(listing@),
                prefix@ == module@.push('/'),
                paths(found@) == module_entries(all.take(i as int), module@),
            decreases listing.len() - i,
        {
            proof {
                lemma_filter_step(all, in_module(module@), i as int);
            }
            let path = chars_of(listing[i].as_str());
            if has_prefix(&path, &prefix) {
                match StoreId::new_baseless(listing[i].as_str()) {
                    Ok(id) => {
                        let ghost before = found@;
                        found.push(id);
                        assert(paths(found@) =~= paths(before).push(all[i as int]));
                    },
                    Err(_) => {},
                }
            }
            i += 1;
        }
        assert(all.take(listing.len() as int) =~= all);
        found
    }

    /// The entry whose content hash begins with `prefix`. `files` holds the
    /// entries to look at, each with the text of its file.
    ///
    /// `Ok(None)` where no hash begins so; refused with `AmbiguousHash`,
    /// which names every entry whose hash does, where more than one does.
    pub fn find_storeid_by_partial_hash(&self, prefix: &str, files: &Vec<(StoreId, String)>) -> (r:
        Result<Option<StoreId>, StoreError>)
        ensures
            match resolve_hash(file_views(files@), prefix@) {
                Ok(Some(path)) => r matches Ok(Some(id)) && id@ == path,
                Ok(None) => r matches Ok(None),
                Err(fault) => r matches Err(e) && e@ == fault,
            },
    {
        let wanted = chars_of(prefix);
        let mut found: Vec<StoreId> = Vec::new();
        let mut i: usize = 0;
        let ghost all = file_views(files@);
        proof {
            reveal(Seq::filter);
            assert(all.take(0) =~= Seq::<(Seq<char>, Seq<char>)>::empty());
            assert(paths(found@) =~= candidates(all.take(0), prefix@));
        }
        while i < files.len()
            invariant
                i <= files.len(),
                all == file_views(files@),
                wanted@ == prefix@,
                paths(found@) == candidates(all.take(i as int), prefix@),
            decreases files.len() - i,
        {
            proof {
                lemma_filter_step(all, hash_matches(prefix@), i as int);
            }
            let hash = content_hash(files[i].1.as_str());
            let digits = chars_of(hash.as_str());
            let ghost matched = all.take(i as int).filter(hash_matches(prefix@));
            if has_prefix(&digits, &wanted) {
                let ghost before = found@;
                found.push(files[i].0.clone());
                assert(paths(found@) =~= paths(before).push(all[i as int].0));
                assert(matched.push(all[i as int]).map_values(|f: (Seq<char>, Seq<char>)| f.0)
                    =~= matched.map_values(|f: (Seq<char>, Seq<char>)| f.0).push(
                    all[i as int].0,
                ));
            }
            i += 1;
        }
        assert(all.take(files.len() as int) =~= all);
        if found.len() == 0 {
            Ok(None)
        } else if found.len() == 1 {
            let only = found.pop();
            match only {
                Some(id) => Ok(Some(id)),
                None => Ok(None),
            }
        } else {
            Err(StoreError::AmbiguousHash(found))
        }
    }
}

/// The paths that belong to `module`: valid ones that begin with the
/// module's name and a slash.
pub open spec fn in_module(module: Seq<char>) -> spec_fn(Seq<char>) -> bool {
    |p: Seq<char>| valid_path(p) && module.push('/').is_prefix_of(p)
}

/// The entries of `module` in a listing, in the listing's order.
pub open spec fn module_entries(listing: Seq<Seq<char>>, module: Seq<char>) -> Seq<Seq<char>> {
    listing.filter(in_module(module))
}

/// The paths and file texts of the entries handed to the hash look-up.
pub open spec fn file_views(files: Seq<(StoreId, String)>) -> Seq<(Seq<char>, Seq<char>)> {
    Seq::new(files.len(), |i: int| (files[i].0@, files[i].1@))
}

/// The files whose content hash begins with `prefix`.
pub open spec fn hash_matches(prefix: Seq<char>) -> spec_fn((Seq<char>, Seq<char>)) -> bool {
    |f: (Seq<char>, Seq<char>)| prefix.is_prefix_of(hash_text(f.1))
}

/// The entries whose content hash begins with `prefix`, in the order of
/// `files`.
pub open spec fn candidates(files: Seq<(Seq<char>, Seq<char>)>, prefix: Seq<char>) -> Seq<
    Seq<char>,
> {
    files.filter(hash_matches(prefix)).map_values(|f: (Seq<char>, Seq<char>)| f.0)
}

/// What the look-up by hash prefix decides: nothing, the one entry, or the
/// failure that names all the candidates.
pub open spec fn resolve_hash(files: Seq<(Seq<char>, Seq<char>)>, prefix: Seq<char>) -> Result<
    Option<Seq<char>>,
    Fault,
> {
    let found = candidates(files, prefix);
    if found.len() == 0 {
        Ok(None)
    } else if found.len() == 1 {
        Ok(Some(found[0]))
    } else {
        Err(Fault::AmbiguousHash(found))
    }
}

/// Where the hashes of exactly two entries begin with a prefix, the look-up
/// fails with `AmbiguousHash`, which names those two and no other.
pub proof fn lemma_two_candidates(
    files: Seq<(Seq<char>, Seq<char>)>,
    prefix: Seq<char>,
    a: int,
    b: int,
)
    requires
        0 <= a < b < files.len(),
        forall|k: int|
            0 <= k < files.len() ==> (prefix.is_prefix_of(hash_text(#[trigger] files[k].1)) <==> (k
                == a || k == b)),
    ensures
        resolve_hash(files, prefix) == Err::<Option<Seq<char>>, Fault>(
            Fault::AmbiguousHash(seq![files[a].0, files[b].0]),
        ),
{
    let f = hash_matches(prefix);
    assert forall|k: int| 0 <= k < files.len() implies (f(#[trigger] files[k]) <==> (k == a || k
        == b)) by {
        assert(f(files[k]) == prefix.is_prefix_of(hash_text(files[k].1)));
    }
    lemma_filter_two(files, f, a, b);
    assert(seq![files[a], files[b]].map_values(|f: (Seq<char>, Seq<char>)| f.0) =~= seq![
        files[a].0,
        files[b].0,
    ]);
}

/// Where a prefix is ambiguous between two entries, the prefix with one
/// more digit of the hash of one of them, which the hash of the other does
/// not share, finds that one.
pub proof fn lemma_longer_prefix(
    files: Seq<(Seq<char>, Seq<char>)>,
    prefix: Seq<char>,
    a: int,
    b: int,
    digit: char,
)
    requires
        0 <= a < files.len(),
        0 <= b < files.len(),
        a != b,
        forall|k: int|
            0 <= k < files.len() ==> (prefix.is_prefix_of(hash_text(#[trigger] files[k].1)) <==> (k
                == a || k == b)),
        prefix.push(digit).is_prefix_of(hash_text(files[a].1)),
        !prefix.push(digit).is_prefix_of(hash_text(files[b].1)),
    ensures
        resolve_hash(files, prefix.push(digit)) == Ok::<Option<Seq<char>>, Fault>(
            Some(files[a].0),
        ),
{
    let longer = prefix.push(digit);
    let f = hash_matches(longer);
    assert forall|k: int| 0 <= k < files.len() implies (f(#[trigger] files[k]) <==> k == a) by {
        let h = hash_text(files[k].1);
        assert(f(files[k]) == longer.is_prefix_of(h));
        if longer.is_prefix_of(h) {
            assert(prefix =~= longer.subrange(0, prefix.len() as int));
            assert(prefix =~= h.subrange(0, prefix.len() as int));
            assert(prefix.is_prefix_of(h));
        }
    }
    lemma_filter_one(files, f, a);
    assert(seq![files[a]].map_values(|f: (Seq<char>, Seq<char>)| f.0) =~= seq![files[a].0]);
}

/// The files of the store, by their paths, while a plan is carried out: the
/// first `n` characters of the text are written to the temporary file.
pub open spec fn while_writing(
    disk: Map<Seq<char>, Seq<char>>,
    temp: Seq<char>,
    text: Seq<char>,
    n: int,
) -> Map<Seq<char>, Seq<char>> {
    disk.insert(temp, text.take(n))
}

/// The files of the store when the temporary file has been renamed to the
/// target.
pub open spec fn after_renaming(
    disk: Map<Seq<char>, Seq<char>>,
    temp: Seq<char>,
    target: Seq<char>,
) -> Map<Seq<char>, Seq<char>> {
    disk.remove(temp).insert(target, disk[temp])
}

/// While the text of an entry is written, however far the writing has
/// come, the entry's file is what it was before; once the temporary file is
/// renamed, it is the whole new text. No reader of the entry's file sees a
/// part of the new text.
pub proof fn lemma_atomic_visibility(
    disk: Map<Seq<char>, Seq<char>>,
    root: Seq<char>,
    id: Seq<char>,
    text: Seq<char>,
    n: int,
)
    requires
        0 <= n <= text.len(),
    ensures
        ({
            let target = file_of(root, id);
            let temp = temp_of(target);
            let during = while_writing(disk, temp, text, n);
            let written = while_writing(disk, temp, text, text.len() as int);
            let after = after_renaming(written, temp, target);
            &&& during.contains_key(target) == disk.contains_key(target)
            &&& during[target] == disk[target]
            &&& after.contains_key(target)
            &&& after[target] == text
        }),
{
    let target = file_of(root, id);
    let temp = temp_of(target);
    assert(temp.len() != target.len());
    assert(text.take(text.len() as int) =~= text);
}

/// Writing one entry touches the file of no other: neither the temporary
/// file nor the target is the file of another identifier.
pub proof fn lemma_write_leaves_others(
    disk: Map<Seq<char>, Seq<char>>,
    root: Seq<char>,
    id: Seq<char>,
    other: Seq<char>,
    text: Seq<char>,
    n: int,
)
    requires
        0 <= n <= text.len(),
        valid_path(other),
        other != id,
    ensures
        ({
            let target = file_of(root, id);
            let temp = temp_of(target);
            let file = file_of(root, other);
            let during = while_writing(disk, temp, text, n);
            let after = after_renaming(during, temp, target);
            &&& during.contains_key(file) == disk.contains_key(file)
            &&& during[file] == disk[file]
            &&& after.contains_key(file) == disk.contains_key(file)
            &&& after[file] == disk[file]
        }),
{
    let target = file_of(root, id);
    let temp = temp_of(target);
    let file = file_of(root, other);
    let base = with_slash(root);
    assert(other.len() > 0) by {
        if other.len() == 0 {
            assert(crate::storeid::is_component(other, 0, 0));
            assert(other.subrange(0, 0).len() == 0);
        }
    }
    assert(file != temp) by {
        assert(file.last() == other.last());
        assert(temp.last() == '~');
    }
    assert(file != target) by {
        if file == target {
            assert(other =~= file.skip(base.len() as int));
            assert(id =~= target.skip(base.len() as int));
        }
    }
}

/// What is released is retrieved again: where an entry has a text, and the
/// document parser reads the printed header as the header it was printed
/// from, retrieving the identifier with that text for a file gives an entry
/// with that header and, character for character, that content.
pub proof fn lemma_release_then_retrieve(
    locked: Set<Seq<char>>,
    id: Seq<char>,
    header: crate::header::NodeValue,
    content: Seq<char>,
)
    requires
        !locked.contains(id),
    ensures
        entry_text(header, content) matches Some(text) ==> (crate::document::document_of(
            crate::document::text_of(header)->0,
        ) == Some(header) ==> retrieve_outcome(locked, id, Some(text)) == Ok::<EntryView, Fault>(
            EntryView { id, header, content },
        )),
{
    crate::entry::lemma_round_trip(header, content);
}

} // verus!
