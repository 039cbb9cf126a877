//! Entries and the text of their files.
//!
//! A file is the header as a document, a delimiter line of three dashes, and
//! the content. The header text ends its last line and has no delimiter line
//! of its own, so the first delimiter line of the file ends the header,
//! whatever the content holds.

use crate::document::{document_of, parse_document, render_document, text_of};
use crate::error::{Fault, StoreError};
use crate::header::{
    fields_view, follow, has_key, inserted, lemma_field_added, lemma_insert_elsewhere,
    lemma_remove_elsewhere, lemma_view_table, read, removed, resolve, segments, tidied,
    HeaderError, HeaderErrorKind, Lookup, Node, NodeValue,
};
use crate::storeid::StoreId;
use crate::text::{chars_of, split, split_chars, string_of, texts};
use vstd::prelude::*;

verus! {

/// The delimiter line.
pub open spec fn delimiter() -> Seq<char> {
    seq!['-', '-', '-', '\n']
}

/// A delimiter line begins at `i` in `t`: three dashes that are a line of
/// their own.
pub open spec fn delimiter_at(t: Seq<char>, i: int) -> bool {
    &&& 0 <= i && i + 4 <= t.len()
    &&& (i == 0 || t[i - 1] == '\n')
    &&& t[i] == '-'
    &&& t[i + 1] == '-'
    &&& t[i + 2] == '-'
    &&& t[i + 3] == '\n'
}

/// A header text that can stand before the delimiter line: it ends its last
/// line, and none of its lines is a delimiter line.
pub open spec fn framed(h: Seq<char>) -> bool {
    &&& h.len() == 0 || h.last() == '\n'
    &&& forall|i: int| !delimiter_at(h, i)
}

/// The text of the file with the header text `h` and the content `c`.
pub open spec fn compose(h: Seq<char>, c: Seq<char>) -> Seq<char> {
    h + delimiter() + c
}

/// The delimiter line at `j` is the first of the text.
pub open spec fn closes_at(t: Seq<char>, j: int) -> bool {
    &&& delimiter_at(t, j)
    &&& forall|k: int| 0 <= k < j ==> !delimiter_at(t, k)
}

/// The header text and the content of a file: the header text runs to the
/// first delimiter line, and the content is all that follows that line.
/// `None` where the text has no delimiter line.
pub open spec fn cut(t: Seq<char>) -> Option<(Seq<char>, Seq<char>)> {
    if exists|j: int| closes_at(t, j) {
        let j = choose|j: int| closes_at(t, j);
        Some((t.take(j), t.skip(j + 4)))
    } else {
        None
    }
}

proof fn lemma_closes_unique(t: Seq<char>, j: int)
    requires
        closes_at(t, j),
    ensures
        cut(t) == Some((t.take(j), t.skip(j + 4))),
{
    let c = choose|c: int| closes_at(t, c);
    if c < j {
        assert(!delimiter_at(t, c));
    } else if j < c {
        assert(!delimiter_at(t, j));
    }
}

/// A file made of a framed header text and a content is cut into the two
/// again, character for character, whatever the content holds.
pub proof fn lemma_cut_compose(h: Seq<char>, c: Seq<char>)
    requires
        framed(h),
    ensures
        cut(compose(h, c)) == Some((h, c)),
{
    let t = compose(h, c);
    let j: int = h.len() as int;
    assert(t.len() == 4 + h.len() + c.len());
    assert forall|k: int| 0 <= k < h.len() implies t[k] == h[k] by {}
    assert forall|k: int| 0 <= k < 4 implies t[j + k] == delimiter()[k] by {}
    assert(t[j] == '-' && t[j + 1] == '-' && t[j + 2] == '-' && t[j + 3] == '\n');
    assert(delimiter_at(t, j));
    assert forall|k: int| 0 <= k < j implies !delimiter_at(t, k) by {
        if delimiter_at(t, k) {
            if k + 4 <= j {
                assert(t[k] == h[k] && t[k + 1] == h[k + 1] && t[k + 2] == h[k + 2] && t[k + 3]
                    == h[k + 3]);
                if k > 0 {
                    assert(t[k - 1] == h[k - 1]);
                }
                assert(delimiter_at(h, k));
            } else {
                assert(t[j + (k + 3 - j)] == delimiter()[k + 3 - j]);
            }
        }
    }
    assert(closes_at(t, j));
    lemma_closes_unique(t, j);
    assert(t.take(j) =~= h);
    assert(t.skip(j + 4) =~= c);
}

fn delimiter_starts(t: &Vec<char>, i: usize) -> (yes: bool)
    requires
        i <= t.len(),
    ensures
        yes == delimiter_at(t@, i as int),
{
    t.len() - i >= 4 && (i == 0 || t[i - 1] == '\n') && t[i] == '-' && t[i + 1] == '-' && t[i + 2]
        == '-' && t[i + 3] == '\n'
}

/// Whether the header text `h` can stand before the delimiter line.
pub fn is_framed(h: &Vec<char>) -> (ok: bool)
    ensures
        ok == framed(h@),
{
    if h.len() > 0 && h[h.len() - 1] != '\n' {
        return false;
    }
    let mut i: usize = 0;
    while i < h.len()
        invariant
            i <= h.len(),
            forall|k: int| 0 <= k < i ==> !delimiter_at(h@, k),
        decreases h.len() - i,
    {
        if delimiter_starts(h, i) {
            return false;
        }
        i += 1;
    }
    true
}

/// The text of the file with the header text `header` and the content
/// `content`; `None` where the header text is not framed, so that the file
/// could not be cut into the two again.
pub fn frame_entry(header: &str, content: &str) -> (r: Option<String>)
    ensures
        match r {
            Some(text) => framed(header@) && text@ == compose(header@, content@),
            None => !framed(header@),
        },
{
    let h = chars_of(header);
    if !is_framed(&h) {
        return None;
    }
    let mut text = String::new();
    text.append(header);
    assert(text@ =~= header@);
    text.push('-');
    text.push('-');
    text.push('-');
    text.push('\n');
    assert(text@ =~= header@ + delimiter());
    text.append(content);
    Some(text)
}

/// Cuts the text of a file into the header text and the content.
pub fn split_entry(text: &str) -> (r: Option<(String, String)>)
    ensures
        match cut(text@) {
            Some((h, c)) => r matches Some(parts) && parts.0@ == h && parts.1@ == c,
            None => r is None,
        },
{
    let t = chars_of(text);
    let mut j: usize = 0;
    while j < t.len()
        invariant
            j <= t.len(),
            t@ == text@,
            forall|k: int| 0 <= k < j ==> !delimiter_at(t@, k),
        decreases t.len() - j,
    {
        if delimiter_starts(&t, j) {
            proof {
                lemma_closes_unique(t@, j as int);
            }
            let header = string_of(&t, 0, j);
            let content = string_of(&t, j + 4, t.len());
            return Some((header, content));
        }
        j += 1;
    }
    assert forall|k: int| !closes_at(t@, k) by {
        if closes_at(t@, k) {
            assert(k < t.len());
        }
    }
    None
}

/// The version of the file format that new entries are stamped with.
pub open spec fn format_version() -> Seq<char> {
    "0.1.0"@
}

/// The version of the file format that new entries are stamped with.
pub fn store_format_version() -> (r: &'static str)
    ensures
        r@ == format_version(),
{
    "0.1.0"
}

/// The segments of the path `imag.version`, where the stamp names the format.
pub open spec fn version_path() -> Seq<Seq<char>> {
    seq!["imag"@, "version"@]
}

/// The segments of the path `imag.module`, where the stamp names the module
/// that owns the entry.
pub open spec fn owner_path() -> Seq<Seq<char>> {
    seq!["imag"@, "module"@]
}

/// The paths of the stamp are the dotted paths `imag.version` and
/// `imag.module`, cut into their segments.
pub proof fn lemma_stamp_paths()
    ensures
        segments("imag.version"@) == version_path(),
        segments("imag.module"@) == owner_path(),
{
    reveal_strlit("imag.version");
    reveal_strlit("imag.module");
    reveal_strlit("imag");
    reveal_strlit("version");
    reveal_strlit("module");
    let v = "imag.version"@;
    let m = "imag.module"@;
    crate::text::lemma_split_once(v, '.', 4);
    crate::text::lemma_split_once(m, '.', 4);
    assert(v.take(4) =~= "imag"@);
    assert(v.skip(5) =~= "version"@);
    assert(m.take(4) =~= "imag"@);
    assert(m.skip(5) =~= "module"@);
}

/// The header carries the stamp: a text at `imag.version` and a text at
/// `imag.module`.
pub open spec fn stamped(header: NodeValue) -> bool {
    &&& resolve(header, version_path()) matches Lookup::Found(NodeValue::String(_))
    &&& resolve(header, owner_path()) matches Lookup::Found(NodeValue::String(_))
}

/// The section `imag` of a new entry of `module`.
pub open spec fn stamp_section(module: Seq<char>) -> Map<Seq<char>, NodeValue> {
    Map::empty().insert("version"@, NodeValue::String(format_version())).insert(
        "module"@,
        NodeValue::String(module),
    )
}

/// The header of a new entry of `module`: the stamp and nothing else.
pub open spec fn stamp(module: Seq<char>) -> NodeValue {
    NodeValue::Table(Map::empty().insert("imag"@, NodeValue::Table(stamp_section(module))))
}

/// The module that owns the entry at `path`: the first component of the path.
pub open spec fn module_of(path: Seq<char>) -> Seq<char> {
    split(path, '/')[0]
}

/// A new entry's header carries the stamp.
pub proof fn lemma_stamp_is_stamped(module: Seq<char>)
    ensures
        stamped(stamp(module)),
{
    reveal_strlit("version");
    reveal_strlit("module");
    assert("version"@ != "module"@) by {
        assert("version"@.len() == 7);
        assert("module"@.len() == 6);
    }
    let section = NodeValue::Table(stamp_section(module));
    let version = NodeValue::String(format_version());
    let owner = NodeValue::String(module);
    assert(version_path().drop_first() =~= seq!["version"@]);
    assert(owner_path().drop_first() =~= seq!["module"@]);
    assert(seq!["version"@].drop_first() =~= Seq::<Seq<char>>::empty());
    assert(seq!["module"@].drop_first() =~= Seq::<Seq<char>>::empty());
    assert(resolve(version, Seq::<Seq<char>>::empty()) == Lookup::Found(version));
    assert(resolve(owner, Seq::<Seq<char>>::empty()) == Lookup::Found(owner));
    assert(resolve(section, seq!["version"@]) == Lookup::Found(version));
    assert(resolve(section, seq!["module"@]) == Lookup::Found(owner));
    assert(resolve(stamp(module), version_path()) == Lookup::Found(version));
    assert(resolve(stamp(module), owner_path()) == Lookup::Found(owner));
}

/// Whether the header carries the stamp.
pub fn is_stamped(header: &Node) -> (ok: bool)
    ensures
        ok == stamped(header@),
{
    let version = vec!["imag".to_string(), "version".to_string()];
    let module = vec!["imag".to_string(), "module".to_string()];
    assert(texts(version@) =~= version_path());
    assert(texts(module@) =~= owner_path());
    let has_version = match follow(header, &version) {
        Ok(Some(Node::String(_))) => true,
        _ => false,
    };
    let has_module = match follow(header, &module) {
        Ok(Some(Node::String(_))) => true,
        _ => false,
    };
    has_version && has_module
}

/// The text of the file of an entry with this header and content: the
/// printed header, the delimiter line, and the content. `None` where
/// the header lacks the stamp, cannot be printed, or is printed as a text
/// that is not framed.
pub open spec fn entry_text(header: NodeValue, content: Seq<char>) -> Option<Seq<char>> {
    if !stamped(header) {
        None
    } else {
        match text_of(header) {
            Some(h) => if framed(h) {
                Some(compose(h, content))
            } else {
                None
            },
            None => None,
        }
    }
}

/// The header and the content that a file holds. `None` where the text is
/// not cut by a delimiter line, or the header text is no document, or the
/// document lacks the stamp.
pub open spec fn entry_parts(text: Seq<char>) -> Option<(NodeValue, Seq<char>)> {
    match cut(text) {
        Some((h, c)) => match document_of(h) {
            Some(doc) => if stamped(doc) {
                Some((doc, c))
            } else {
                None
            },
            None => None,
        },
        None => None,
    }
}

/// What is written is read back: where an entry has a text, and the document
/// parser reads the printed header as the header it was printed from, the
/// text holds that header and, character for character, that content.
pub proof fn lemma_round_trip(header: NodeValue, content: Seq<char>)
    ensures
        entry_text(header, content) matches Some(text) ==> (document_of(text_of(header)->0)
            == Some(header) ==> entry_parts(text) == Some((header, content))),
{
    if entry_text(header, content) is Some {
        lemma_cut_compose(text_of(header)->0, content);
    }
}

/// One record of the store: where it lives, its header and its content.
#[derive(Debug)]
pub struct Entry {
    id: StoreId,
    header: Node,
    content: String,
}

/// The mathematical value of an [`Entry`].
pub struct EntryView {
    pub id: Seq<char>,
    pub header: NodeValue,
    pub content: Seq<char>,
}

impl View for Entry {
    type V = EntryView;

    closed spec fn view(&self) -> EntryView {
        EntryView { id: self.id@, header: self.header@, content: self.content@ }
    }
}

/// The module that owns the entry `id`: the first component of its path.
pub fn module_name(id: &StoreId) -> (r: String)
    ensures
        r@ == module_of(id@),
{
    let chars = chars_of(id.local().as_str());
    let mut pieces = split_chars(&chars, '/');
    proof {
        crate::text::lemma_split_nonempty(chars@, '/');
    }
    pieces.swap_remove(0)
}

/// Only a table carries the stamp.
pub proof fn lemma_stamped_is_table(header: NodeValue)
    requires
        stamped(header),
    ensures
        header is Table,
{
    reveal_strlit("imag");
    assert(version_path()[0] == "imag"@);
    assert(!crate::text::is_digit("imag"@[0]));
    assert(crate::header::as_index("imag"@) is None);
}

/// A header that carries the stamp still carries it after an insertion
/// below another key than `imag`.
pub proof fn lemma_insert_keeps_stamp(header: NodeValue, path: Seq<Seq<char>>, new: NodeValue)
    requires
        stamped(header),
        path.len() > 0,
        path[0] != "imag"@,
        inserted(header, path, new) is Some,
    ensures
        stamped(inserted(header, path, new)->Some_0),
{
    lemma_stamped_is_table(header);
    lemma_insert_elsewhere(header, path, new, version_path());
    lemma_insert_elsewhere(header, path, new, owner_path());
}

/// A header that carries the stamp still carries it after something was
/// taken out below another key than `imag`.
pub proof fn lemma_remove_keeps_stamp(header: NodeValue, path: Seq<Seq<char>>)
    requires
        stamped(header),
        path.len() > 0,
        path[0] != "imag"@,
        removed(header, path) is Some,
    ensures
        stamped(removed(header, path)->Some_0),
{
    lemma_stamped_is_table(header);
    lemma_remove_elsewhere(header, path, version_path());
    lemma_remove_elsewhere(header, path, owner_path());
}

fn refused(path: &str) -> (e: HeaderError)
    ensures
        e.kind == HeaderErrorKind::WriteError,
        e.path@ == path@,
{
    HeaderError { kind: HeaderErrorKind::WriteError, path: path.to_string() }
}

impl Entry {
    #[verifier::type_invariant]
    spec fn keeps_stamp(&self) -> bool {
        stamped(self.header@)
    }

    /// A new entry at `id`: the stamp for a header, and no content.
    pub fn new(id: StoreId) -> (r: Entry)
        ensures
            r@ == (EntryView {
                id: id@,
                header: stamp(module_of(id@)),
                content: Seq::<char>::empty(),
            }),
    {
        let module = module_name(&id);
        let mut inner: Vec<(String, Node)> = Vec::new();
        let version_field = (
            "version".to_string(),
            Node::String(store_format_version().to_string()),
        );
        let owner_field = ("module".to_string(), Node::String(module));
        proof {
            reveal_strlit("version");
            reveal_strlit("module");
            assert("version"@.len() != "module"@.len());
            assert(fields_view(inner@) =~= Map::<Seq<char>, NodeValue>::empty());
            assert(!has_key(inner@, version_field.0@));
            lemma_field_added(inner@, version_field);
        }
        inner.push(version_field);
        proof {
            assert(!has_key(inner@, owner_field.0@)) by {
                if has_key(inner@, owner_field.0@) {
                    let c = crate::header::first(inner@, owner_field.0@);
                    assert(inner@[c].0@ == "module"@);
                }
            }
            lemma_field_added(inner@, owner_field);
        }
        inner.push(owner_field);
        proof {
            lemma_view_table(inner);
        }
        let mut top: Vec<(String, Node)> = Vec::new();
        let section = ("imag".to_string(), Node::Table(inner));
        proof {
            assert(fields_view(top@) =~= Map::<Seq<char>, NodeValue>::empty());
            assert(!has_key(top@, section.0@));
            lemma_field_added(top@, section);
        }
        top.push(section);
        proof {
            lemma_view_table(top);
            lemma_stamp_is_stamped(module_of(id@));
        }
        Entry { id, header: Node::Table(top), content: String::new() }
    }

    /// The entry at `id` with this header and content. Refused where the
    /// header lacks the stamp.
    pub fn from_parts(id: StoreId, header: Node, content: String) -> (r: Result<Entry, StoreError>)
        ensures
            match r {
                Ok(e) => stamped(header@) && e@ == (EntryView {
                    id: id@,
                    header: header@,
                    content: content@,
                }),
                Err(e) => !stamped(header@) && e@ == Fault::ParseError(id@),
            },
    {
        if is_stamped(&header) {
            Ok(Entry { id, header, content })
        } else {
            Err(StoreError::ParseError(id, "the header lacks the stamp".to_string()))
        }
    }

    /// Reads the entry at `id` from the text of its file.
    pub fn from_text(id: StoreId, text: &str) -> (r: Result<Entry, StoreError>)
        ensures
            match entry_parts(text@) {
                Some((header, content)) => r matches Ok(e) && e@ == (EntryView {
                    id: id@,
                    header,
                    content,
                }),
                None => r matches Err(e) && e@ == Fault::ParseError(id@),
            },
    {
        match split_entry(text) {
            None => Err(StoreError::ParseError(id, "the delimiter line is missing".to_string())),
            Some((header_text, content)) => match parse_document(header_text.as_str()) {
                Err(cause) => Err(StoreError::ParseError(id, cause)),
                Ok(header) => Entry::from_parts(id, header, content),
            },
        }
    }

    /// The text of the entry's file. Of several fields with one key in a
    /// table of the header, only the first, which is the one that counts,
    /// is printed. Fails with `WriteError` where the header cannot be
    /// printed, or is printed as a text that is not framed.
    pub fn to_text(&self) -> (r: Result<String, StoreError>)
        ensures
            match entry_text(self@.header, self@.content) {
                Some(text) => r matches Ok(t) && t@ == text,
                None => r matches Err(e) && e@ == Fault::WriteError(self@.id),
            },
    {
        proof {
            use_type_invariant(self);
        }
        let header = tidied(&self.header);
        match render_document(&header) {
            None => Err(StoreError::WriteError(self.id.clone())),
            Some(header_text) => match frame_entry(header_text.as_str(), self.content.as_str()) {
                Some(text) => Ok(text),
                None => Err(StoreError::WriteError(self.id.clone())),
            },
        }
    }

    /// Where the entry lives.
    pub fn get_location(&self) -> (r: &StoreId)
        ensures
            r@ == self@.id,
    {
        &self.id
    }

    /// The header, which carries the stamp.
    pub fn get_header(&self) -> (r: &Node)
        ensures
            r@ == self@.header,
            stamped(self@.header),
    {
        proof {
            use_type_invariant(self);
        }
        &self.header
    }

    /// The content.
    pub fn get_content(&self) -> (r: &String)
        ensures
            r@ == self@.content,
    {
        &self.content
    }

    /// Replaces the content.
    pub fn set_content(&mut self, content: String)
        ensures
            final(self)@ == (EntryView { content: content@, ..old(self)@ }),
    {
        proof {
            use_type_invariant(&*self);
        }
        self.content = content;
    }

    /// Replaces the header and hands back the old one. A header without the
    /// stamp is refused and handed back.
    pub fn replace_header(&mut self, header: Node) -> (r: Result<Node, Node>)
        ensures
            match r {
                Ok(prev) => stamped(header@) && prev@ == old(self)@.header && final(self)@ == (
                EntryView { header: header@, ..old(self)@ }),
                Err(back) => !stamped(header@) && back@ == header@ && final(self)@ == old(self)@,
            },
    {
        proof {
            use_type_invariant(&*self);
        }
        if is_stamped(&header) {
            let mut slot = header;
            std::mem::swap(&mut self.header, &mut slot);
            Ok(slot)
        } else {
            Err(header)
        }
    }

    /// Looks up the node at `path` in the header; see [`crate::header::read`].
    pub fn read(&self, path: &str) -> (r: Result<Option<&Node>, HeaderError>)
        ensures
            match resolve(self@.header, segments(path@)) {
                Lookup::Found(v) => r matches Ok(Some(n)) && n@ == v,
                Lookup::Absent => r matches Ok(None),
                Lookup::Mismatch => r matches Err(e) && e.kind == HeaderErrorKind::TypeError
                    && e.path@ == path@,
            },
    {
        read(&self.header, path)
    }

    /// Puts `value` at `path` in the header; see [`crate::header::insert`].
    ///
    /// Refused, with the entry left as it was, where the path cannot be
    /// followed or the header would lose the stamp.
    pub fn insert(&mut self, path: &str, value: Node) -> (r: Result<(), HeaderError>)
        ensures
            match inserted(old(self)@.header, segments(path@), value@) {
                Some(h) if stamped(h) => r is Ok && final(self)@ == (EntryView {
                    header: h,
                    ..old(self)@
                }),
                _ => final(self)@ == old(self)@ && (r matches Err(e) && e.kind
                    == HeaderErrorKind::WriteError && e.path@ == path@),
            },
    {
        proof {
            use_type_invariant(&*self);
        }
        let mut header = self.header.clone();
        match crate::header::insert(&mut header, path, value) {
            Err(e) => Err(e),
            Ok(_) => {
                if is_stamped(&header) {
                    self.header = header;
                    Ok(())
                } else {
                    Err(refused(path))
                }
            },
        }
    }

    /// Puts `value` at `path` in the header, which must lead to a node
    /// already, and hands back what stood there; see [`crate::header::set`].
    ///
    /// Refused, with the entry left as it was, where nothing stands at
    /// `path` or the header would lose the stamp.
    pub fn set(&mut self, path: &str, value: Node) -> (r: Result<Node, HeaderError>)
        ensures
            match resolve(old(self)@.header, segments(path@)) {
                Lookup::Found(prev) => match inserted(
                    old(self)@.header,
                    segments(path@),
                    value@,
                ) {
                    Some(h) if stamped(h) => (r matches Ok(p) && p@ == prev) && final(self)@ == (
                    EntryView { header: h, ..old(self)@ }),
                    _ => final(self)@ == old(self)@ && (r matches Err(e) && e.kind
                        == HeaderErrorKind::WriteError && e.path@ == path@),
                },
                _ => final(self)@ == old(self)@ && (r matches Err(e) && e.kind
                    == HeaderErrorKind::WriteError && e.path@ == path@),
            },
    {
        proof {
            use_type_invariant(&*self);
        }
        let mut header = self.header.clone();
        match crate::header::set(&mut header, path, value) {
            Err(e) => Err(e),
            Ok(prev) => {
                if is_stamped(&header) {
                    self.header = header;
                    Ok(prev)
                } else {
                    Err(refused(path))
                }
            },
        }
    }

    /// Takes out what stands at `path` in the header and hands it back;
    /// `Ok(None)` where nothing stands there; see [`crate::header::delete`].
    ///
    /// Refused with `TypeError` where the path cannot be followed, with
    /// `WriteError` where the header would lose the stamp; the entry is
    /// then left as it was.
    pub fn delete(&mut self, path: &str) -> (r: Result<Option<Node>, HeaderError>)
        ensures
            match resolve(old(self)@.header, segments(path@)) {
                Lookup::Found(prev) => match removed(old(self)@.header, segments(path@)) {
                    Some(h) if stamped(h) => (r matches Ok(Some(p)) && p@ == prev)
                        && final(self)@ == (EntryView { header: h, ..old(self)@ }),
                    _ => final(self)@ == old(self)@ && (r matches Err(e) && e.kind
                        == HeaderErrorKind::WriteError && e.path@ == path@),
                },
                Lookup::Absent => final(self)@ == old(self)@ && r matches Ok(None),
                Lookup::Mismatch => final(self)@ == old(self)@ && (r matches Err(e) && e.kind
                    == HeaderErrorKind::TypeError && e.path@ == path@),
            },
    {
        proof {
            use_type_invariant(&*self);
        }
        let mut header = self.header.clone();
        match crate::header::delete(&mut header, path) {
            Err(e) => Err(e),
            Ok(None) => Ok(None),
            Ok(Some(prev)) => {
                if is_stamped(&header) {
                    self.header = header;
                    Ok(Some(prev))
                } else {
                    Err(refused(path))
                }
            },
        }
    }
}

} // verus!
