//! The commands on notes: what they count, which links they list, and what
//! they do to the tags of a note.

use crate::text::texts;
use vstd::prelude::*;

verus! {

/// How many of `outcomes` are `wanted`.
pub open spec fn count(outcomes: Seq<bool>, wanted: bool) -> nat
    decreases outcomes.len(),
{
    if outcomes.len() == 0 {
        0
    } else {
        count(outcomes.drop_last(), wanted) + if outcomes.last() == wanted {
            1nat
        } else {
            0nat
        }
    }
}

/// No more outcomes are counted than there are.
pub proof fn lemma_count_bound(outcomes: Seq<bool>, wanted: bool)
    ensures
        count(outcomes, wanted) <= outcomes.len(),
    decreases outcomes.len(),
{
    if outcomes.len() > 0 {
        lemma_count_bound(outcomes.drop_last(), wanted);
    }
}

/// How many files a command worked for, and for how many it failed.
pub fn tally(outcomes: &Vec<bool>) -> (r: (usize, usize))
    ensures
        r.0 == count(outcomes@, true),
        r.1 == count(outcomes@, false),
{
    let mut worked: usize = 0;
    let mut failed: usize = 0;
    let mut i: usize = 0;
    assert(outcomes@.take(0) =~= Seq::<bool>::empty());
    while i < outcomes.len()
        invariant
            i <= outcomes.len(),
            worked == count(outcomes@.take(i as int), true),
            failed == count(outcomes@.take(i as int), false),
        decreases outcomes.len() - i,
    {
        proof {
            assert(outcomes@.take(i + 1).drop_last() =~= outcomes@.take(i as int));
            lemma_count_bound(outcomes@.take(i as int), true);
            lemma_count_bound(outcomes@.take(i as int), false);
        }
        if outcomes[i] {
            worked += 1;
        } else {
            failed += 1;
        }
        i += 1;
    }
    assert(outcomes@.take(outcomes.len() as int) =~= outcomes@);
    (worked, failed)
}

/// Whether a command that has these outcomes has succeeded: nothing failed.
pub fn succeeded(outcomes: &Vec<bool>) -> (r: bool)
    ensures
        r == (count(outcomes@, false) == 0),
{
    tally(outcomes).1 == 0
}

/// Whether a link is listed: every link where neither kind is asked for,
/// else the links of the kinds that are.
pub fn link_is_listed(is_extern: bool, list_intern: bool, list_extern: bool) -> (r: bool)
    ensures
        r == ((!list_intern && !list_extern) || (is_extern && list_extern) || (!is_extern
            && list_intern)),
{
    (!list_intern && !list_extern) || (is_extern && list_extern) || (!is_extern && list_intern)
}

/// What the filter on hashes says of a note with the hash `hash`: whether
/// the hash begins with what is asked for; `default` where nothing is.
pub fn hash_filter(wanted: Option<&str>, hash: &str, default: bool) -> (r: bool)
    ensures
        r == match wanted {
            Some(prefix) => prefix@.is_prefix_of(hash@),
            None => default,
        },
{
    match wanted {
        Some(prefix) => {
            let p = crate::text::chars_of(prefix);
            let h = crate::text::chars_of(hash);
            crate::storeid::has_prefix(&h, &p)
        },
        None => default,
    }
}

/// One of `wanted` is among `tags`.
pub open spec fn shares_tag(wanted: Seq<Seq<char>>, tags: Seq<Seq<char>>) -> bool {
    exists|i: int| 0 <= i < wanted.len() && tags.contains(#[trigger] wanted[i])
}

/// What the filter on tags says of a note with the tags `tags`: whether
/// one of the tags that are asked for is among them; `default` where none
/// is asked for.
#[verifier::loop_isolation(false)]
pub fn tags_filter(wanted: Option<&Vec<String>>, tags: &Vec<String>, default: bool) -> (r: bool)
    ensures
        r == match wanted {
            Some(w) => shares_tag(texts(w@), texts(tags@)),
            None => default,
        },
{
    match wanted {
        Some(w) => {
            let mut i: usize = 0;
            while i < w.len()
                invariant
                    i <= w.len(),
                    forall|k: int| 0 <= k < i ==> !texts(tags@).contains(#[trigger] texts(w@)[k]),
                decreases w.len() - i,
            {
                if has_tag(tags, &w[i]) {
                    assert(texts(tags@).contains(texts(w@)[i as int]));
                    return true;
                }
                i += 1;
            }
            false
        },
        None => default,
    }
}

/// What a filter by pattern says of a text: whether the pattern is found
/// in it; `default` where no pattern is asked for. A pattern that is none
/// is found nowhere.
pub fn grep_filter(pattern: Option<&str>, text: &str, default: bool) -> (r: bool)
    ensures
        r == match pattern {
            Some(p) => crate::pattern::pattern_found(p@, text@) == Some(true),
            None => default,
        },
{
    match pattern {
        Some(p) => match crate::pattern::find_pattern(p, text) {
            Some(found) => found,
            None => false,
        },
        None => default,
    }
}

/// Whether a note is listed: its hash or its name is asked for, and so
/// are its text and its tags. Each answer is that of one filter, which is
/// `true` where the command line leaves it out.
pub fn passes_listing(hash: bool, head: bool, text: bool, tags: bool) -> (r: bool)
    ensures
        r == ((hash || head) && text && tags),
{
    (hash || head) && text && tags
}

/// Whether a note is edited: its hash, its name, its text or its tags are
/// asked for. Each answer is that of one filter, which is `false` where the
/// command line leaves it out.
pub fn passes_edit(hash: bool, head: bool, text: bool, tags: bool) -> (r: bool)
    ensures
        r == (hash || head || text || tags),
{
    hash || head || text || tags
}

/// Whether the links of a note are listed: its hash, its header or its
/// tags are asked for. Each answer is that of one filter, which is `false`
/// where the command line leaves it out.
pub fn passes_links(hash: bool, head: bool, tags: bool) -> (r: bool)
    ensures
        r == (hash || head || tags),
{
    hash || head || tags
}

/// Whether a note is removed: its hash, its header or its tags are asked
/// for. Each answer is that of one filter, which is `false` where the
/// command line leaves it out.
pub fn passes_remove(hash: bool, head: bool, tags: bool) -> (r: bool)
    ensures
        r == (hash || head || tags),
{
    hash || head || tags
}

/// The mark `://` stands at `i` in `url`.
pub open spec fn scheme_mark_at(url: Seq<char>, i: int) -> bool {
    0 <= i && i + 3 <= url.len() && url[i] == ':' && url[i + 1] == '/' && url[i + 2] == '/'
}

/// A link leaves the store: it holds the mark `://` behind a scheme.
pub open spec fn external(url: Seq<char>) -> bool {
    exists|i: int| scheme_mark_at(url, i)
}

/// Whether a link leaves the store.
pub fn link_is_external(url: &str) -> (r: bool)
    ensures
        r == external(url@),
{
    let chars = crate::text::chars_of(url);
    let mut i: usize = 0;
    while i < chars.len()
        invariant
            i <= chars.len(),
            chars@ == url@,
            forall|k: int| 0 <= k < i ==> !scheme_mark_at(url@, k),
        decreases chars.len() - i,
    {
        if chars.len() - i >= 3 && chars[i] == ':' && chars[i + 1] == '/' && chars[i + 2] == '/' {
            assert(scheme_mark_at(url@, i as int));
            return true;
        }
        i += 1;
    }
    assert forall|k: int| !scheme_mark_at(url@, k) by {
        if scheme_mark_at(url@, k) {
            assert(k < chars.len());
        }
    }
    false
}

/// The word for the direction of a link.
pub fn direction(is_extern: bool) -> (r: &'static str)
    ensures
        r@ == if is_extern {
            "extern"@
        } else {
            "intern"@
        },
{
    if is_extern {
        "extern"
    } else {
        "intern"
    }
}

/// The tags of a note after tags were added: the old ones, then the new ones.
pub fn add_tags(old_tags: &Vec<String>, cli_tags: &Vec<String>) -> (r: Vec<String>)
    ensures
        texts(r@) == texts(old_tags@) + texts(cli_tags@),
{
    let mut out: Vec<String> = Vec::new();
    let mut i: usize = 0;
    while i < old_tags.len()
        invariant
            i <= old_tags.len(),
            texts(out@) == texts(old_tags@).take(i as int),
        decreases old_tags.len() - i,
    {
        let ghost before = out@;
        out.push(old_tags[i].clone());
        assert(texts(out@) =~= texts(before).push(old_tags@[i as int]@));
        i += 1;
        assert(texts(out@) =~= texts(old_tags@).take(i as int));
    }
    assert(texts(old_tags@).take(old_tags.len() as int) =~= texts(old_tags@));
    let mut j: usize = 0;
    while j < cli_tags.len()
        invariant
            j <= cli_tags.len(),
            texts(out@) == texts(old_tags@) + texts(cli_tags@).take(j as int),
        decreases cli_tags.len() - j,
    {
        let ghost before = out@;
        out.push(cli_tags[j].clone());
        assert(texts(out@) =~= texts(before).push(cli_tags@[j as int]@));
        j += 1;
        assert(texts(out@) =~= texts(old_tags@) + texts(cli_tags@).take(j as int));
    }
    assert(texts(cli_tags@).take(cli_tags.len() as int) =~= texts(cli_tags@));
    out
}

/// The tags that are not among `cli_tags`.
pub open spec fn kept(cli_tags: Seq<Seq<char>>) -> spec_fn(Seq<char>) -> bool {
    |tag: Seq<char>| !cli_tags.contains(tag)
}

/// Whether `tag` is among `tags`.
pub fn has_tag(tags: &Vec<String>, tag: &String) -> (r: bool)
    ensures
        r == texts(tags@).contains(tag@),
{
    let mut i: usize = 0;
    while i < tags.len()
        invariant
            i <= tags.len(),
            forall|k: int| 0 <= k < i ==> texts(tags@)[k] != tag@,
        decreases tags.len() - i,
    {
        if tags[i] == *tag {
            assert(texts(tags@)[i as int] == tag@);
            return true;
        }
        i += 1;
    }
    false
}

/// The tags of a note after tags were removed: the old ones that are not
/// among the removed ones, in their order.
pub fn rm_tags(old_tags: &Vec<String>, cli_tags: &Vec<String>) -> (r: Vec<String>)
    ensures
        texts(r@) == texts(old_tags@).filter(kept(texts(cli_tags@))),
{
    let mut out: Vec<String> = Vec::new();
    let mut i: usize = 0;
    let ghost all = texts(old_tags@);
    proof {
        reveal(Seq::filter);
        assert(all.take(0) =~= Seq::<Seq<char>>::empty());
        assert(texts(out@) =~= all.take(0).filter(kept(texts(cli_tags@))));
    }
    while i < old_tags.len()
        invariant
            i <= old_tags.len(),
            all == texts(old_tags@),
            texts(out@) == all.take(i as int).filter(kept(texts(cli_tags@))),
        decreases old_tags.len() - i,
    {
        proof {
            crate::seqs::lemma_filter_step(all, kept(texts(cli_tags@)), i as int);
        }
        if !has_tag(cli_tags, &old_tags[i]) {
            let ghost before = out@;
            out.push(old_tags[i].clone());
            assert(texts(out@) =~= texts(before).push(all[i as int]));
        }
        i += 1;
    }
    assert(all.take(old_tags.len() as int) =~= all);
    out
}

/// The tags of a note after its tags were set: the new ones.
pub fn set_tags(old_tags: &Vec<String>, cli_tags: &Vec<String>) -> (r: Vec<String>)
    ensures
        texts(r@) == texts(cli_tags@),
{
    let empty: Vec<String> = Vec::new();
    let r = add_tags(&empty, cli_tags);
    assert(texts(empty@) + texts(cli_tags@) =~= texts(cli_tags@));
    r
}

/// The tags that a command line names: the pieces between the commas.
pub fn split_tags(arg: &str) -> (r: Vec<String>)
    ensures
        texts(r@) == crate::text::split(arg@, ','),
{
    let chars = crate::text::chars_of(arg);
    crate::text::split_chars(&chars, ',')
}

/// The commands on notes.
#[derive(Clone, Copy, Debug, PartialEq, Eq, Structural)]
pub enum NotesCommand {
    Add,
    Edit,
    List,
    Links,
    Remove,
    AddTags,
    RmTags,
    SetTags,
}

impl NotesCommand {
    /// The name of the command on the command line.
    pub open spec fn name(self) -> Seq<char> {
        match self {
            NotesCommand::Add => "add"@,
            NotesCommand::Edit => "edit"@,
            NotesCommand::List => "list"@,
            NotesCommand::Links => "links"@,
            NotesCommand::Remove => "remove"@,
            NotesCommand::AddTags => "add_tags"@,
            NotesCommand::RmTags => "rm_tags"@,
            NotesCommand::SetTags => "set_tags"@,
        }
    }
}

/// The command that a name means: the first, in the order of the
/// declaration, that has that name; `None` where no name was given or no
/// command has it.
pub fn command_of(name: Option<&str>) -> (r: Option<NotesCommand>)
    ensures
        match r {
            Some(command) => name matches Some(n) && n@ == command.name(),
            None => match name {
                Some(n) => forall|command: NotesCommand| n@ != #[trigger] command.name(),
                None => true,
            },
        },
{
    let given = match name {
        Some(n) => n.to_string(),
        None => {
            return None;
        },
    };
    if given == "add".to_string() {
        Some(NotesCommand::Add)
    } else if given == "edit".to_string() {
        Some(NotesCommand::Edit)
    } else if given == "list".to_string() {
        Some(NotesCommand::List)
    } else if given == "links".to_string() {
        Some(NotesCommand::Links)
    } else if given == "remove".to_string() {
        Some(NotesCommand::Remove)
    } else if given == "add_tags".to_string() {
        Some(NotesCommand::AddTags)
    } else if given == "rm_tags".to_string() {
        Some(NotesCommand::RmTags)
    } else if given == "set_tags".to_string() {
        Some(NotesCommand::SetTags)
    } else {
        None
    }
}

} // verus!
