//! Logging single lines of text into a diary: the text of a line, and the
//! diary that the configuration names for it.

use crate::header::{
    items_view, lemma_view_array, read, resolve, segments, Lookup, Node, NodeValue,
};
use crate::text::texts;
use vstd::prelude::*;

verus! {

/// The words of a line, each with a blank before it.
pub open spec fn log_text(words: Seq<Seq<char>>) -> Seq<char>
    decreases words.len(),
{
    if words.len() == 0 {
        Seq::empty()
    } else {
        log_text(words.drop_last()).push(' ') + words.last()
    }
}

/// The text of a line that was given word by word.
pub fn get_log_text(words: &Vec<String>) -> (r: String)
    ensures
        r@ == log_text(texts(words@)),
{
    let mut acc = String::new();
    let mut i: usize = 0;
    assert(texts(words@).take(0) =~= Seq::<Seq<char>>::empty());
    while i < words.len()
        invariant
            i <= words.len(),
            acc@ == log_text(texts(words@).take(i as int)),
        decreases words.len() - i,
    {
        assert(texts(words@).take(i + 1).drop_last() =~= texts(words@).take(i as int));
        assert(texts(words@).take(i + 1).last() == words@[i as int]@);
        acc.push(' ');
        acc.append(words[i].as_str());
        i += 1;
    }
    assert(texts(words@).take(words.len() as int) =~= texts(words@));
    acc
}

fn copy_of(names: &Vec<String>) -> (r: Vec<String>)
    ensures
        texts(r@) == texts(names@),
{
    let mut out: Vec<String> = Vec::new();
    let mut i: usize = 0;
    while i < names.len()
        invariant
            i <= names.len(),
            out.len() == i,
            forall|k: int| 0 <= k < i ==> out@[k]@ == names@[k]@,
        decreases names.len() - i,
    {
        out.push(names[i].clone());
        i += 1;
    }
    assert(texts(out@) =~= texts(names@));
    out
}

/// The diaries whose entries are shown: the named ones; with no name, all
/// of them where all are asked for, else the default one. `named` are the
/// names given on the command line, `all` the diaries of the store,
/// `default` the diary that the configuration names.
pub fn diaries_to_show(
    named: Option<&Vec<String>>,
    show_all: bool,
    all: &Vec<String>,
    default: &String,
) -> (r: Vec<String>)
    ensures
        texts(r@) == match named {
            Some(n) => texts(n@),
            None => if show_all {
                texts(all@)
            } else {
                seq![default@]
            },
        },
{
    match named {
        Some(names) => copy_of(names),
        None => if show_all {
            copy_of(all)
        } else {
            let mut out: Vec<String> = Vec::new();
            out.push(default.clone());
            assert(texts(out@) =~= seq![default@]);
            out
        },
    }
}

/// Why the configuration names no diary for the log.
#[derive(Clone, Copy, Debug, PartialEq, Eq, Structural)]
pub enum LogConfigError {
    /// There is no configuration.
    NoConfiguration,
    /// A path of the configuration cannot be followed.
    ReadError,
    /// `log.logs` is missing.
    LogsMissing,
    /// `log.logs` is no array.
    LogsNotAnArray,
    /// `log.logs` holds something that is no text.
    LogsNotTexts,
    /// `log.default` is missing.
    DefaultMissing,
    /// `log.default` is no text.
    DefaultNotAText,
    /// `log.logs` does not hold `log.default`.
    DefaultNotAmongLogs,
}

/// Every item is a text.
pub open spec fn all_texts(items: Seq<NodeValue>) -> bool {
    forall|i: int| 0 <= i < items.len() ==> #[trigger] items[i] is String
}

/// The diary that the configuration names for the log: the text at
/// `log.default`, which must be one of the texts of the array at `log.logs`.
pub open spec fn diary_name_of(cfg: Option<NodeValue>) -> Result<Seq<char>, LogConfigError> {
    match cfg {
        None => Err(LogConfigError::NoConfiguration),
        Some(doc) => match resolve(doc, segments("log.logs"@)) {
            Lookup::Mismatch => Err(LogConfigError::ReadError),
            Lookup::Absent => Err(LogConfigError::LogsMissing),
            Lookup::Found(NodeValue::Array(logs)) => if !all_texts(logs) {
                Err(LogConfigError::LogsNotTexts)
            } else {
                match resolve(doc, segments("log.default"@)) {
                    Lookup::Mismatch => Err(LogConfigError::ReadError),
                    Lookup::Absent => Err(LogConfigError::DefaultMissing),
                    Lookup::Found(NodeValue::String(name)) => if logs.contains(
                        NodeValue::String(name),
                    ) {
                        Ok(name)
                    } else {
                        Err(LogConfigError::DefaultNotAmongLogs)
                    },
                    Lookup::Found(_) => Err(LogConfigError::DefaultNotAText),
                }
            },
            Lookup::Found(_) => Err(LogConfigError::LogsNotAnArray),
        },
    }
}

fn only_texts(items: &Vec<Node>) -> (r: bool)
    ensures
        r == all_texts(items_view(items@)),
{
    let mut i: usize = 0;
    while i < items.len()
        invariant
            i <= items.len(),
            forall|k: int| 0 <= k < i ==> #[trigger] items_view(items@)[k] is String,
        decreases items.len() - i,
    {
        match &items[i] {
            Node::String(_) => {},
            _ => {
                assert(!(items_view(items@)[i as int] is String));
                return false;
            },
        }
        i += 1;
    }
    true
}

fn holds_text(items: &Vec<Node>, name: &String) -> (r: bool)
    ensures
        r == items_view(items@).contains(NodeValue::String(name@)),
{
    let mut i: usize = 0;
    while i < items.len()
        invariant
            i <= items.len(),
            forall|k: int| 0 <= k < i ==> items_view(items@)[k] != NodeValue::String(name@),
        decreases items.len() - i,
    {
        match &items[i] {
            Node::String(s) => {
                if *s == *name {
                    assert(items_view(items@)[i as int] == NodeValue::String(name@));
                    return true;
                }
            },
            _ => {},
        }
        i += 1;
    }
    false
}

/// The diary that the configuration names for the log.
pub fn get_diary_name(cfg: Option<&Node>) -> (r: Result<String, LogConfigError>)
    ensures
        match diary_name_of(
            match cfg {
                Some(doc) => Some(doc@),
                None => None,
            },
        ) {
            Ok(name) => r matches Ok(s) && s@ == name,
            Err(e) => r == Err::<String, LogConfigError>(e),
        },
{
    let doc = match cfg {
        None => {
            return Err(LogConfigError::NoConfiguration);
        },
        Some(doc) => doc,
    };
    let logs = match read(doc, "log.logs") {
        Err(_) => {
            return Err(LogConfigError::ReadError);
        },
        Ok(None) => {
            return Err(LogConfigError::LogsMissing);
        },
        Ok(Some(Node::Array(logs))) => logs,
        Ok(Some(_)) => {
            return Err(LogConfigError::LogsNotAnArray);
        },
    };
    proof {
        lemma_view_array(*logs);
    }
    if !only_texts(logs) {
        return Err(LogConfigError::LogsNotTexts);
    }
    match read(doc, "log.default") {
        Err(_) => Err(LogConfigError::ReadError),
        Ok(None) => Err(LogConfigError::DefaultMissing),
        Ok(Some(Node::String(name))) => {
            if holds_text(logs, name) {
                Ok(name.clone())
            } else {
                Err(LogConfigError::DefaultNotAmongLogs)
            }
        },
        Ok(Some(_)) => Err(LogConfigError::DefaultNotAText),
    }
}

} // verus!
