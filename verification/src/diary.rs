//! What the configuration says about diaries.

use crate::header::{read, resolve, segments, Lookup, Node, NodeValue};
use crate::storeid::StoreId;
use crate::text::{
    chars_of, decimal_text, natural_of, number_text, pad_left, padded, parse_natural, split,
    split_chars, texts,
};
use vstd::prelude::*;

verus! {

/// The section of the configuration about diaries: what stands at `diary`.
pub open spec fn diary_section_of(cfg: Option<NodeValue>) -> Option<NodeValue> {
    match cfg {
        Some(doc) => match resolve(doc, segments("diary"@)) {
            Lookup::Found(section) => Some(section),
            _ => None,
        },
        None => None,
    }
}

/// The name of the default diary: the text at `default_diary` in the section
/// about diaries.
pub open spec fn default_diary_of(cfg: Option<NodeValue>) -> Option<Seq<char>> {
    match diary_section_of(cfg) {
        Some(section) => match resolve(section, segments("default_diary"@)) {
            Lookup::Found(NodeValue::String(name)) => Some(name),
            _ => None,
        },
        None => None,
    }
}

/// The section of the configuration about diaries.
pub fn get_diary_config_section<'a>(cfg: Option<&'a Node>) -> (r: Option<&'a Node>)
    ensures
        match diary_section_of(
            match cfg {
                Some(doc) => Some(doc@),
                None => None,
            },
        ) {
            Some(section) => r matches Some(n) && n@ == section,
            None => r is None,
        },
{
    match cfg {
        Some(doc) => match read(doc, "diary") {
            Ok(found) => found,
            Err(_) => None,
        },
        None => None,
    }
}

/// The name of the default diary.
pub fn get_default_diary_name(cfg: Option<&Node>) -> (r: Option<String>)
    ensures
        match default_diary_of(
            match cfg {
                Some(doc) => Some(doc@),
                None => None,
            },
        ) {
            Some(name) => r matches Some(s) && s@ == name,
            None => r is None,
        },
{
    match get_diary_config_section(cfg) {
        Some(section) => match read(section, "default_diary") {
            Ok(Some(Node::String(name))) => Some(name.clone()),
            _ => None,
        },
        None => None,
    }
}

/// What the path of a diary entry says: the diary and the minute of the
/// entry.
#[derive(Clone, Debug, PartialEq, Eq)]
pub struct DiaryId {
    pub name: String,
    pub year: u32,
    pub month: u32,
    pub day: u32,
    pub hour: u32,
    pub minute: u32,
}

/// The mathematical value of a [`DiaryId`].
pub struct DiaryIdView {
    pub name: Seq<char>,
    pub year: nat,
    pub month: nat,
    pub day: nat,
    pub hour: nat,
    pub minute: nat,
}

impl View for DiaryId {
    type V = DiaryIdView;

    open spec fn view(&self) -> DiaryIdView {
        DiaryIdView {
            name: self.name@,
            year: self.year as nat,
            month: self.month as nat,
            day: self.day as nat,
            hour: self.hour as nat,
            minute: self.minute as nat,
        }
    }
}

/// What a path says as the path of a diary entry. Such a path has six
/// components: `diary`, the name of the diary, the year, the month, the day,
/// and the hour and the minute with a colon between them; the numbers are
/// written in decimal digits. `None` for every other path.
pub open spec fn diary_id_of(path: Seq<char>) -> Option<DiaryIdView> {
    let parts = split(path, '/');
    if parts.len() == 6 && parts[0] == "diary"@ {
        let time = split(parts[5], ':');
        if time.len() == 2 && natural_of(parts[2]) is Some && natural_of(parts[3]) is Some
            && natural_of(parts[4]) is Some && natural_of(time[0]) is Some && natural_of(time[1])
            is Some {
            Some(
                DiaryIdView {
                    name: parts[1],
                    year: natural_of(parts[2])->Some_0,
                    month: natural_of(parts[3])->Some_0,
                    day: natural_of(parts[4])->Some_0,
                    hour: natural_of(time[0])->Some_0,
                    minute: natural_of(time[1])->Some_0,
                },
            )
        } else {
            None
        }
    } else {
        None
    }
}

/// The line that shows an entry of a diary: the name of the diary, put to
/// the right of ten columns, the date and the time, and the text.
pub open spec fn shown(id: DiaryIdView, text: Seq<char>) -> Seq<char> {
    padded(id.name, 10, ' ') + " - "@ + padded(decimal_text(id.year), 4, ' ') + "-"@ + padded(
        decimal_text(id.month),
        2,
        '0',
    ) + "-"@ + padded(decimal_text(id.day), 2, '0') + "T"@ + padded(decimal_text(id.hour), 2, '0')
        + ":"@ + padded(decimal_text(id.minute), 2, '0') + " - "@ + text
}

impl DiaryId {
    /// What the identifier of an entry says as that of a diary entry.
    pub fn from_storeid(id: &StoreId) -> (r: Option<DiaryId>)
        ensures
            match diary_id_of(id@) {
                Some(v) => r matches Some(d) && d@ == v,
                None => r is None,
            },
    {
        let chars = chars_of(id.local().as_str());
        let parts = split_chars(&chars, '/');
        if parts.len() != 6 || parts[0] != "diary".to_string() {
            return None;
        }
        let time_chars = chars_of(parts[5].as_str());
        let time = split_chars(&time_chars, ':');
        if time.len() != 2 {
            return None;
        }
        assert(texts(parts@)[2] == parts@[2]@ && texts(parts@)[3] == parts@[3]@ && texts(
            parts@,
        )[4] == parts@[4]@ && texts(parts@)[1] == parts@[1]@);
        assert(texts(time@)[0] == time@[0]@ && texts(time@)[1] == time@[1]@);
        let year = parse_natural(parts[2].as_str());
        let month = parse_natural(parts[3].as_str());
        let day = parse_natural(parts[4].as_str());
        let hour = parse_natural(time[0].as_str());
        let minute = parse_natural(time[1].as_str());
        match (year, month, day, hour, minute) {
            (Some(year), Some(month), Some(day), Some(hour), Some(minute)) => Some(
                DiaryId { name: parts[1].clone(), year, month, day, hour, minute },
            ),
            _ => None,
        }
    }

    /// The line that shows an entry of the diary with the content `text`.
    pub fn show_line(&self, text: &str) -> (r: String)
        ensures
            r@ == shown(self@, text@),
    {
        let mut r = pad_left(self.name.as_str(), 10, ' ');
        r.append(" - ");
        r.append(pad_left(number_text(self.year).as_str(), 4, ' ').as_str());
        r.append("-");
        r.append(pad_left(number_text(self.month).as_str(), 2, '0').as_str());
        r.append("-");
        r.append(pad_left(number_text(self.day).as_str(), 2, '0').as_str());
        r.append("T");
        r.append(pad_left(number_text(self.hour).as_str(), 2, '0').as_str());
        r.append(":");
        r.append(pad_left(number_text(self.minute).as_str(), 2, '0').as_str());
        r.append(" - ");
        r.append(text);
        r
    }
}

/// The names of the diaries that the paths belong to, each once, in the
/// order in which they first come. A path that is no path of a diary entry
/// names none.
pub open spec fn names_of(paths: Seq<Seq<char>>) -> Seq<Seq<char>>
    decreases paths.len(),
{
    if paths.len() == 0 {
        Seq::empty()
    } else {
        let before = names_of(paths.drop_last());
        match diary_id_of(paths.last()) {
            Some(id) => if before.contains(id.name) {
                before
            } else {
                before.push(id.name)
            },
            None => before,
        }
    }
}

/// The names of the diaries of the store, of which `ids` are the entries.
pub fn diary_names(ids: &Vec<StoreId>) -> (r: Vec<String>)
    ensures
        texts(r@) == names_of(crate::error::paths(ids@)),
{
    let mut names: Vec<String> = Vec::new();
    let mut i: usize = 0;
    let ghost all = crate::error::paths(ids@);
    assert(all.take(0) =~= Seq::<Seq<char>>::empty());
    assert(texts(names@) =~= names_of(all.take(0)));
    while i < ids.len()
        invariant
            i <= ids.len(),
            all == crate::error::paths(ids@),
            texts(names@) == names_of(all.take(i as int)),
        decreases ids.len() - i,
    {
        assert(all.take(i + 1).drop_last() =~= all.take(i as int));
        assert(all.take(i + 1).last() == ids@[i as int]@);
        match DiaryId::from_storeid(&ids[i]) {
            Some(id) => {
                if !crate::notes::has_tag(&names, &id.name) {
                    let ghost before = names@;
                    names.push(id.name);
                    assert(texts(names@) =~= texts(before).push(
                        diary_id_of(all[i as int])->Some_0.name,
                    ));
                }
            },
            None => {},
        }
        i += 1;
    }
    assert(all.take(ids.len() as int) =~= all);
    names
}

} // verus!
