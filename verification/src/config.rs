//! The configuration: a document, the settings taken from it, and the
//! overriding of its values by `key=value` pairs.

use crate::document::{datetime_of, document_of, float_of, parse_datetime, parse_document, parse_float};
use crate::header::{
    find_field, inserted, lemma_view_table, read, resolve, segments, Lookup, Node, NodeValue,
};
use crate::text::{chars_of, integer_of, parse_integer, string_of, texts};
use vstd::prelude::*;

verus! {

/// The kinds of failure of the configuration.
#[derive(Clone, Copy, Debug, PartialEq, Eq, Structural)]
pub enum ConfigErrorKind {
    TOMLParserError,
    NoConfigFileFound,
    ConfigOverrideError,
    ConfigOverrideKeyNotAvailable,
    ConfigOverrideTypeNotMatching,
}

impl ConfigErrorKind {
    /// What the kind says in words.
    pub open spec fn text(&self) -> Seq<char> {
        match self {
            ConfigErrorKind::TOMLParserError => "TOML Parsing error"@,
            ConfigErrorKind::NoConfigFileFound => "No config file found"@,
            ConfigErrorKind::ConfigOverrideError => "Config override error"@,
            ConfigErrorKind::ConfigOverrideKeyNotAvailable => "Key not available"@,
            ConfigErrorKind::ConfigOverrideTypeNotMatching => "Configuration Type not matching"@,
        }
    }

    /// What the kind says in words.
    pub fn description(&self) -> (r: &'static str)
        ensures
            r@ == self.text(),
    {
        match self {
            ConfigErrorKind::TOMLParserError => "TOML Parsing error",
            ConfigErrorKind::NoConfigFileFound => "No config file found",
            ConfigErrorKind::ConfigOverrideError => "Config override error",
            ConfigErrorKind::ConfigOverrideKeyNotAvailable => "Key not available",
            ConfigErrorKind::ConfigOverrideTypeNotMatching => "Configuration Type not matching",
        }
    }
}

/// A failure of the configuration: its kind, the key it is about where
/// there is one, and the failure that caused it where there is one.
#[derive(Debug)]
pub struct ConfigError {
    pub err_type: ConfigErrorKind,
    pub key: Option<String>,
    pub cause: Option<Box<ConfigError>>,
}

impl ConfigError {
    /// A failure of the kind `errtype` with the cause `cause`, about no key.
    pub fn new(errtype: ConfigErrorKind, cause: Option<Box<ConfigError>>) -> (r: ConfigError)
        ensures
            r.err_type == errtype,
            r.key is None,
            r.cause == cause,
    {
        ConfigError { err_type: errtype, key: None, cause }
    }

    /// The kind.
    pub fn err_type(&self) -> (r: ConfigErrorKind)
        ensures
            r == self.err_type,
    {
        self.err_type
    }

    /// The failure that caused this one.
    pub fn cause(&self) -> (r: Option<&ConfigError>)
        ensures
            match self.cause {
                Some(c) => r == Some(&*c),
                None => r is None,
            },
    {
        match &self.cause {
            Some(c) => Some(&**c),
            None => None,
        }
    }

    /// The kind in words, in square brackets.
    pub fn message(&self) -> (r: String)
        ensures
            r@ == seq!['['] + self.err_type.text() + seq![']'],
    {
        let mut r = String::new();
        r.push('[');
        assert(r@ =~= seq!['[']);
        r.append(self.err_type.description());
        r.push(']');
        assert(r@ =~= seq!['['] + self.err_type.text() + seq![']']);
        r
    }
}

/// `i` is where the first `=` of `pair` stands.
pub open spec fn is_first_equals(pair: Seq<char>, i: int) -> bool {
    &&& 0 <= i < pair.len()
    &&& pair[i] == '='
    &&& forall|k: int| 0 <= k < i ==> pair[k] != '='
}

/// The key and the value of a `key=value` pair, cut at its first `=`; `None`
/// where it has none.
pub open spec fn cut_pair(pair: Seq<char>) -> Option<(Seq<char>, Seq<char>)> {
    if exists|i: int| is_first_equals(pair, i) {
        let i = choose|i: int| is_first_equals(pair, i);
        Some((pair.take(i), pair.skip(i + 1)))
    } else {
        None
    }
}

/// Cuts a `key=value` pair at its first `=`.
pub fn split_pair(pair: &str) -> (r: Option<(String, String)>)
    ensures
        match cut_pair(pair@) {
            Some((key, value)) => r matches Some(kv) && kv.0@ == key && kv.1@ == value,
            None => r is None,
        },
{
    let chars = chars_of(pair);
    let mut i: usize = 0;
    while i < chars.len()
        invariant
            i <= chars.len(),
            chars@ == pair@,
            forall|k: int| 0 <= k < i ==> chars@[k] != '=',
        decreases chars.len() - i,
    {
        if chars[i] == '=' {
            proof {
                let c = choose|c: int| is_first_equals(pair@, c);
                assert(is_first_equals(pair@, i as int));
                if c < i {
                    assert(chars@[c] != '=');
                }
            }
            let key = string_of(&chars, 0, i);
            let value = string_of(&chars, i + 1, chars.len());
            return Some((key, value));
        }
        i += 1;
    }
    None
}

/// Two values are of one kind: both texts, both integers, both floats, both
/// booleans, both dates and times, both arrays, or both tables.
pub open spec fn same_kind(a: NodeValue, b: NodeValue) -> bool {
    match a {
        NodeValue::String(_) => b is String,
        NodeValue::Integer(_) => b is Integer,
        NodeValue::Float(_) => b is Float,
        NodeValue::Boolean(_) => b is Boolean,
        NodeValue::Datetime(_) => b is Datetime,
        NodeValue::Array(_) => b is Array,
        NodeValue::Table(_) => b is Table,
    }
}

/// The node that `text` gives in place of `existing`: one of the same kind.
/// A text is taken as it is; an integer, a float, and a date and time are
/// read from the text, a boolean is `true` or `false`. What is read counts
/// only where it is a float for a float, and a date and time for a date and
/// time. Arrays and tables are never replaced.
pub open spec fn coerced(existing: NodeValue, text: Seq<char>) -> Option<NodeValue> {
    match existing {
        NodeValue::String(_) => Some(NodeValue::String(text)),
        NodeValue::Integer(_) => match integer_of(text) {
            Some(i) => Some(NodeValue::Integer(i)),
            None => None,
        },
        NodeValue::Float(_) => match float_of(text) {
            Some(read) => if read is Float {
                Some(read)
            } else {
                None
            },
            None => None,
        },
        NodeValue::Boolean(_) => if text == "true"@ {
            Some(NodeValue::Boolean(true))
        } else if text == "false"@ {
            Some(NodeValue::Boolean(false))
        } else {
            None
        },
        NodeValue::Datetime(_) => match datetime_of(text) {
            Some(read) => if read is Datetime {
                Some(read)
            } else {
                None
            },
            None => None,
        },
        _ => None,
    }
}

/// What takes the place of a node is of the kind of that node, and nothing
/// takes the place of an array or a table.
pub proof fn lemma_coerced_kind(existing: NodeValue, text: Seq<char>)
    ensures
        coerced(existing, text) matches Some(node) ==> same_kind(node, existing),
        existing is Array || existing is Table ==> coerced(existing, text) is None,
{
}

/// Reads `s` as a node of the kind of `value`: the result, where there is
/// one, is of that kind, and there is none for an array or a table.
pub fn into_value(value: &Node, s: String) -> (r: Option<Node>)
    ensures
        match coerced(value@, s@) {
            Some(v) => r matches Some(n) && n@ == v,
            None => r is None,
        },
        r matches Some(n) ==> same_kind(n@, value@),
        value@ is Array || value@ is Table ==> r is None,
{
    match value {
        Node::String(_) => Some(Node::String(s)),
        Node::Integer(_) => match parse_integer(s.as_str()) {
            Some(i) => Some(Node::Integer(i)),
            None => None,
        },
        Node::Float(_) => parse_float(s.as_str()),
        Node::Boolean(_) => {
            if s == "true".to_string() {
                Some(Node::Boolean(true))
            } else if s == "false".to_string() {
                Some(Node::Boolean(false))
            } else {
                None
            }
        },
        Node::Datetime(_) => parse_datetime(s.as_str()),
        _ => None,
    }
}

/// What one pair does to the document: the value at its key is replaced by
/// the pair's value, read as a node of the kind that stands there. A pair
/// without `=` changes nothing. The pair is refused, with its key and the
/// kind of the refusal, where the key cannot be looked up, leads to
/// nothing, or the value cannot be read as that kind.
pub open spec fn apply_pair(doc: NodeValue, pair: Seq<char>) -> Result<
    NodeValue,
    (Seq<char>, ConfigErrorKind),
> {
    match cut_pair(pair) {
        None => Ok(doc),
        Some((key, text)) => match resolve(doc, segments(key)) {
            Lookup::Mismatch => Err((key, ConfigErrorKind::TOMLParserError)),
            Lookup::Absent => Err((key, ConfigErrorKind::ConfigOverrideKeyNotAvailable)),
            Lookup::Found(existing) => match coerced(existing, text) {
                None => Err((key, ConfigErrorKind::ConfigOverrideTypeNotMatching)),
                Some(node) => match inserted(doc, segments(key), node) {
                    Some(changed) => Ok(changed),
                    None => Ok(doc),
                },
            },
        },
    }
}

/// What the pairs do to the document, one after the other: the document
/// after the last pair, or, where a pair is refused, the document as the
/// pairs before it left it, with the key and the kind of the refusal.
pub open spec fn apply_all(doc: NodeValue, pairs: Seq<Seq<char>>) -> (
    NodeValue,
    Option<(Seq<char>, ConfigErrorKind)>,
)
    decreases pairs.len(),
{
    if pairs.len() == 0 {
        (doc, None)
    } else {
        match apply_pair(doc, pairs[0]) {
            Ok(changed) => apply_all(changed, pairs.drop_first()),
            Err(refusal) => (doc, Some(refusal)),
        }
    }
}

/// Overriding with no pairs succeeds and leaves the document as it is.
pub proof fn lemma_override_nothing(doc: NodeValue)
    ensures
        apply_all(doc, Seq::<Seq<char>>::empty()) == (doc, None::<(Seq<char>, ConfigErrorKind)>),
{
}

/// A pair whose value cannot be read as the kind of node that stands at its
/// key is refused with that key, and the document stays as it is: neither
/// the value at the key nor anything else is changed.
pub proof fn lemma_override_refused(doc: NodeValue, key: Seq<char>, text: Seq<char>)
    requires
        forall|k: int| 0 <= k < key.len() ==> key[k] != '=',
        resolve(doc, segments(key)) matches Lookup::Found(existing) && coerced(existing, text)
            is None,
    ensures
        apply_all(doc, seq![key + seq!['='] + text]) == (
            doc,
            Some((key, ConfigErrorKind::ConfigOverrideTypeNotMatching)),
        ),
{
    let pair = key + seq!['='] + text;
    let i = key.len() as int;
    assert(is_first_equals(pair, i));
    let c = choose|c: int| is_first_equals(pair, c);
    if c < i {
        assert(pair[c] == key[c]);
    } else if i < c {
        assert(pair[i] == '=');
    }
    assert(pair.take(i) =~= key);
    assert(pair.skip(i + 1) =~= text);
    assert(seq![pair][0] == pair);
}

/// Overriding keeps the kind of what it replaces: where a pair is taken,
/// its key led to a node before and leads to a node of the same kind after.
pub proof fn lemma_override_keeps_kind(doc: NodeValue, pair: Seq<char>)
    ensures
        cut_pair(pair) matches Some((key, text)) ==> (apply_pair(doc, pair) matches Ok(changed)
            ==> (resolve(doc, segments(key)) matches Lookup::Found(old) && (resolve(
            changed,
            segments(key),
        ) matches Lookup::Found(new) && same_kind(new, old)))),
{
    if cut_pair(pair) is Some && apply_pair(doc, pair) is Ok {
        let key = cut_pair(pair)->Some_0.0;
        let text = cut_pair(pair)->Some_0.1;
        let old = resolve(doc, segments(key))->Found_0;
        let node = coerced(old, text)->Some_0;
        lemma_coerced_kind(old, text);
        crate::header::lemma_insert_where_found(doc, segments(key), node);
        crate::header::lemma_read_after_insert(doc, segments(key), node);
    }
}

/// A boolean is replaced only by `true` or `false`.
pub proof fn lemma_boolean_coercion(b: bool, text: Seq<char>)
    ensures
        coerced(NodeValue::Boolean(b), text) is Some <==> (text == "true"@ || text == "false"@),
{
}

/// The value of the field `key` of a table; `None` where the node is no
/// table or has no such field.
pub open spec fn top(doc: NodeValue, key: Seq<char>) -> Option<NodeValue> {
    match doc {
        NodeValue::Table(fields) => if fields.contains_key(key) {
            Some(fields[key])
        } else {
            None
        },
        _ => None,
    }
}

/// The field `key` of a table.
pub fn top_field<'a>(doc: &'a Node, key: &str) -> (r: Option<&'a Node>)
    ensures
        match top(doc@, key@) {
            Some(v) => r matches Some(n) && n@ == v,
            None => r is None,
        },
{
    match doc {
        Node::Table(fields) => {
            proof {
                lemma_view_table(*fields);
            }
            match find_field(fields, &key.to_string()) {
                Some(i) => Some(&fields[i].1),
                None => None,
            }
        },
        _ => None,
    }
}

/// Whether the document asks for verbose output: `verbose` is `true`.
pub open spec fn verbosity_of(doc: NodeValue) -> bool {
    top(doc, "verbose"@) == Some(NodeValue::Boolean(true))
}

/// The editor that the document names: the text at `editor`.
pub open spec fn editor_of(doc: NodeValue) -> Option<Seq<char>> {
    match top(doc, "editor"@) {
        Some(NodeValue::String(s)) => Some(s),
        _ => None,
    }
}

/// The options for the editor: the text at `editor-opts`, or nothing.
pub open spec fn editor_opts_of(doc: NodeValue) -> Seq<char> {
    match top(doc, "editor-opts"@) {
        Some(NodeValue::String(s)) => s,
        _ => Seq::empty(),
    }
}

fn get_verbosity(v: &Node) -> (r: bool)
    ensures
        r == verbosity_of(v@),
{
    match top_field(v, "verbose") {
        Some(Node::Boolean(b)) => *b,
        _ => false,
    }
}

fn get_editor(v: &Node) -> (r: Option<String>)
    ensures
        match editor_of(v@) {
            Some(s) => r matches Some(e) && e@ == s,
            None => r is None,
        },
{
    match top_field(v, "editor") {
        Some(Node::String(s)) => Some(s.clone()),
        _ => None,
    }
}

fn get_editor_opts(v: &Node) -> (r: String)
    ensures
        r@ == editor_opts_of(v@),
{
    match top_field(v, "editor-opts") {
        Some(Node::String(s)) => s.clone(),
        _ => String::new(),
    }
}

/// The configuration: the document, and the settings that were taken from
/// it when the configuration was made.
#[derive(Debug)]
pub struct Configuration {
    config: Node,
    verbosity: bool,
    editor: Option<String>,
    editor_opts: String,
}

/// The mathematical value of a [`Configuration`].
pub struct ConfigurationView {
    pub config: NodeValue,
    pub verbosity: bool,
    pub editor: Option<Seq<char>>,
    pub editor_opts: Seq<char>,
}

impl View for Configuration {
    type V = ConfigurationView;

    closed spec fn view(&self) -> ConfigurationView {
        ConfigurationView {
            config: self.config@,
            verbosity: self.verbosity,
            editor: match self.editor {
                Some(e) => Some(e@),
                None => None,
            },
            editor_opts: self.editor_opts@,
        }
    }
}

/// The first of `texts` that is a document.
pub open spec fn first_document(texts: Seq<Seq<char>>) -> Option<NodeValue>
    decreases texts.len(),
{
    if texts.len() == 0 {
        None
    } else {
        match document_of(texts[0]) {
            Some(doc) => Some(doc),
            None => first_document(texts.drop_first()),
        }
    }
}

/// The configuration with the document `doc`.
pub open spec fn configuration_of(doc: NodeValue) -> ConfigurationView {
    ConfigurationView {
        config: doc,
        verbosity: verbosity_of(doc),
        editor: editor_of(doc),
        editor_opts: editor_opts_of(doc),
    }
}

fn override_error(key: String, kind: ConfigErrorKind) -> (e: ConfigError)
    ensures
        e.err_type == ConfigErrorKind::ConfigOverrideError,
        e.key matches Some(k) && k@ == key@,
        e.cause matches Some(c) && c.err_type == kind,
{
    let cause = ConfigError { err_type: kind, key: None, cause: None };
    ConfigError {
        err_type: ConfigErrorKind::ConfigOverrideError,
        key: Some(key),
        cause: Some(Box::new(cause)),
    }
}

impl Configuration {
    /// The configuration from the first of `contents` that is a document;
    /// `contents` are the texts of the configuration files that were found,
    /// in the order of [`config_candidates`]. Fails with
    /// `NoConfigFileFound` where none is a document.
    pub fn new(contents: &Vec<String>) -> (r: Result<Configuration, ConfigError>)
        ensures
            match first_document(texts(contents@)) {
                Some(doc) => r matches Ok(c) && c@ == configuration_of(doc),
                None => r matches Err(e) && e.err_type == ConfigErrorKind::NoConfigFileFound,
            },
    {
        let mut i: usize = 0;
        assert(texts(contents@).skip(0) =~= texts(contents@));
        while i < contents.len()
            invariant
                i <= contents.len(),
                first_document(texts(contents@)) == first_document(texts(contents@).skip(i as int)),
            decreases contents.len() - i,
        {
            let ghost rest = texts(contents@).skip(i as int);
            assert(rest[0] == contents@[i as int]@);
            assert(rest.drop_first() =~= texts(contents@).skip(i + 1));
            match parse_document(contents[i].as_str()) {
                Ok(doc) => {
                    return Ok(Configuration::with_value(doc));
                },
                Err(_) => {},
            }
            i += 1;
        }
        Err(ConfigError::new(ConfigErrorKind::NoConfigFileFound, None))
    }

    /// The configuration with the document `value`.
    pub fn with_value(value: Node) -> (r: Configuration)
        ensures
            r@ == configuration_of(value@),
    {
        Configuration {
            verbosity: get_verbosity(&value),
            editor: get_editor(&value),
            editor_opts: get_editor_opts(&value),
            config: value,
        }
    }

    /// Whether verbose output was asked for.
    pub fn is_verbose(&self) -> (r: bool)
        ensures
            r == self@.verbosity,
    {
        self.verbosity
    }

    /// The editor.
    pub fn editor(&self) -> (r: Option<&String>)
        ensures
            match self@.editor {
                Some(e) => r matches Some(s) && s@ == e,
                None => r is None,
            },
    {
        self.editor.as_ref()
    }

    /// The options for the editor.
    pub fn editor_opts(&self) -> (r: &String)
        ensures
            r@ == self@.editor_opts,
    {
        &self.editor_opts
    }

    /// The document.
    pub fn config(&self) -> (r: &Node)
        ensures
            r@ == self@.config,
    {
        &self.config
    }

    /// The part of the document that configures the store: the field `store`.
    pub fn store_config(&self) -> (r: Option<&Node>)
        ensures
            match top(self@.config, "store"@) {
                Some(v) => r matches Some(n) && n@ == v,
                None => r is None,
            },
    {
        top_field(&self.config, "store")
    }

    /// Overrides values of the document by `key=value` pairs, in their
    /// order. The key is a dotted path; the value replaces what stands there
    /// and is read as a node of the same kind.
    ///
    /// Stops at the first pair whose key leads to nothing or whose value
    /// cannot be read so, and names the key; the pairs before it have taken
    /// effect, that pair and those behind it have none. A pair without `=`
    /// is passed over. The settings taken from the document stay as they are.
    pub fn override_config(&mut self, v: Vec<String>) -> (r: Result<(), ConfigError>)
        ensures
            final(self)@ == (ConfigurationView {
                config: apply_all(old(self)@.config, texts(v@)).0,
                ..old(self)@
            }),
            match apply_all(old(self)@.config, texts(v@)).1 {
                None => r is Ok,
                Some((key, kind)) => r matches Err(e) && e.err_type
                    == ConfigErrorKind::ConfigOverrideError && (e.key matches Some(k) && k@ == key)
                    && (e.cause matches Some(c) && c.err_type == kind),
            },
    {
        let mut i: usize = 0;
        assert(texts(v@).skip(0) =~= texts(v@));
        while i < v.len()
            invariant
                i <= v.len(),
                self@.verbosity == old(self)@.verbosity,
                self@.editor == old(self)@.editor,
                self@.editor_opts == old(self)@.editor_opts,
                apply_all(old(self)@.config, texts(v@)) == apply_all(
                    self@.config,
                    texts(v@).skip(i as int),
                ),
            decreases v.len() - i,
        {
            let ghost rest = texts(v@).skip(i as int);
            assert(rest[0] == v@[i as int]@);
            assert(rest.drop_first() =~= texts(v@).skip(i + 1));
            match split_pair(v[i].as_str()) {
                None => {},
                Some((key, text)) => {
                    let coerced = match read(&self.config, key.as_str()) {
                        Err(_) => {
                            return Err(override_error(key, ConfigErrorKind::TOMLParserError));
                        },
                        Ok(None) => {
                            return Err(
                                override_error(key, ConfigErrorKind::ConfigOverrideKeyNotAvailable),
                            );
                        },
                        Ok(Some(existing)) => into_value(existing, text),
                    };
                    match coerced {
                        None => {
                            return Err(
                                override_error(key, ConfigErrorKind::ConfigOverrideTypeNotMatching),
                            );
                        },
                        Some(node) => {
                            let _ = crate::header::set(&mut self.config, key.as_str(), node);
                        },
                    }
                },
            }
            i += 1;
        }
        Ok(())
    }
}

/// The names under which a configuration file is looked for in a directory.
pub open spec fn variant_names() -> Seq<Seq<char>> {
    seq!["config"@, "config.toml"@, "imagrc"@, "imagrc.toml"@]
}

/// The file `name` in the directory `base`; with no directory, the name alone.
pub open spec fn joined(base: Seq<char>, name: Seq<char>) -> Seq<char> {
    if base.len() == 0 {
        name
    } else if base.last() == '/' {
        base + name
    } else {
        base.push('/') + name
    }
}

/// The files that may hold the configuration in the directory `base`.
pub open spec fn variants(base: Seq<char>) -> Seq<Seq<char>> {
    Seq::new(4, |i: int| joined(base, variant_names()[i]))
}

/// The variants of a directory that may be unknown.
pub open spec fn variants_of(base: Option<Seq<char>>) -> Seq<Seq<char>> {
    match base {
        Some(b) => variants(b),
        None => Seq::empty(),
    }
}

/// The files that may hold the configuration, in the order in which they
/// are tried: the runtime path itself, the variants in it, the variants in
/// the home directory, and the variants in the data directory.
pub open spec fn candidate_paths(
    rtp: Seq<char>,
    home: Option<Seq<char>>,
    data_home: Option<Seq<char>>,
) -> Seq<Seq<char>> {
    seq![rtp] + variants(rtp) + variants_of(home) + variants_of(data_home)
}

fn join_path(base: &str, name: &str) -> (r: String)
    ensures
        r@ == joined(base@, name@),
{
    let chars = chars_of(base);
    let mut r = string_of(&chars, 0, chars.len());
    assert(chars@.subrange(0, chars.len() as int) =~= chars@);
    if chars.len() > 0 && chars[chars.len() - 1] != '/' {
        r.push('/');
    }
    r.append(name);
    assert(r@ =~= joined(base@, name@));
    r
}

fn push_variants(out: &mut Vec<String>, base: &str)
    ensures
        texts(final(out)@) == texts(old(out)@) + variants(base@),
{
    let ghost before = texts(out@);
    out.push(join_path(base, "config"));
    out.push(join_path(base, "config.toml"));
    out.push(join_path(base, "imagrc"));
    out.push(join_path(base, "imagrc.toml"));
    assert(texts(out@) =~= before + variants(base@));
}

/// The files that may hold the configuration, in the order in which they
/// are tried.
pub fn config_candidates(rtp: &str, home: Option<&str>, data_home: Option<&str>) -> (r: Vec<String>)
    ensures
        texts(r@) == candidate_paths(
            rtp@,
            match home {
                Some(h) => Some(h@),
                None => None,
            },
            match data_home {
                Some(d) => Some(d@),
                None => None,
            },
        ),
{
    let mut out: Vec<String> = Vec::new();
    out.push(rtp.to_string());
    assert(texts(out@) =~= seq![rtp@]);
    push_variants(&mut out, rtp);
    match home {
        Some(h) => {
            push_variants(&mut out, h);
        },
        None => {
            assert(texts(out@) + Seq::<Seq<char>>::empty() =~= texts(out@));
        },
    }
    match data_home {
        Some(d) => {
            push_variants(&mut out, d);
        },
        None => {
            assert(texts(out@) + Seq::<Seq<char>>::empty() =~= texts(out@));
        },
    }
    out
}

/// What the program was told about its own working, apart from the
/// configuration file. The defaults are for a program run by its user: it
/// logs, and the store keeps its files on the disk. A type that stands for
/// another kind of run says otherwise in its own implementation.
pub trait InternalConfiguration {
    /// Whether the program logs. By default it does.
    fn enable_logging(&self) -> (r: bool)
        default_ensures
            r,
    {
        true
    }

    /// Whether the store keeps its files in memory only. By default it
    /// does not.
    fn use_inmemory_fs(&self) -> (r: bool)
        default_ensures
            !r,
    {
        false
    }
}

} // verus!
