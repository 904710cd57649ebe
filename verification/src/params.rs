//! Free-form parameters of an instrument: named values, as the venue reported them.

use vstd::prelude::*;

use crate::text;

verus! {

/// A parameter's value. Kinds that no rule reads are `Other`.
#[derive(Debug)]
pub enum ParamValue {
    Text(String),
    Unsigned(u64),
    Other,
}

/// Named parameters, in the order in which they were set.
#[derive(Debug)]
pub struct Params {
    pub entries: Vec<(String, ParamValue)>,
}

impl Clone for ParamValue {
    fn clone(&self) -> (r: ParamValue)
        ensures
            r == *self,
    {
        match self {
            ParamValue::Text(text) => ParamValue::Text(text.clone()),
            ParamValue::Unsigned(n) => ParamValue::Unsigned(*n),
            ParamValue::Other => ParamValue::Other,
        }
    }
}

impl Clone for Params {
    fn clone(&self) -> (r: Params)
        ensures
            r.entries@ == self.entries@,
    {
        let mut entries: Vec<(String, ParamValue)> = Vec::new();
        let mut i: usize = 0;
        while i < self.entries.len()
            invariant
                i <= self.entries.len(),
                entries@ == self.entries@.take(i as int),
            decreases self.entries.len() - i,
        {
            entries.push((self.entries[i].0.clone(), self.entries[i].1.clone()));
            i += 1;
        }
        Params { entries }
    }
}

/// A parameter's value, texts by their characters.
pub enum ParamView {
    Text(Seq<char>),
    Unsigned(u64),
    Other,
}

impl View for ParamValue {
    type V = ParamView;

    open spec fn view(&self) -> ParamView {
        match self {
            ParamValue::Text(text) => ParamView::Text(text@),
            ParamValue::Unsigned(n) => ParamView::Unsigned(*n),
            ParamValue::Other => ParamView::Other,
        }
    }
}

impl View for Params {
    type V = Seq<(Seq<char>, ParamView)>;

    open spec fn view(&self) -> Seq<(Seq<char>, ParamView)> {
        self.entries@.map_values(|entry: (String, ParamValue)| (entry.0@, entry.1@))
    }
}

/// Position of the first entry named `key`, or the number of entries.
pub open spec fn entry_index(entries: Seq<(String, ParamValue)>, key: Seq<char>) -> int
    decreases entries.len(),
{
    if entries.len() == 0 || entries[0].0@ == key {
        0
    } else {
        1 + entry_index(entries.skip(1), key)
    }
}

/// The value of the parameter `key`, where it is set.
pub open spec fn param(info: Option<Params>, key: Seq<char>) -> Option<ParamValue> {
    match info {
        Some(params) => {
            let i = entry_index(params.entries@, key);
            if i < params.entries@.len() {
                Some(params.entries@[i].1)
            } else {
                None
            }
        },
        None => None,
    }
}

/// The text of the parameter `key`, where it is set to one.
pub open spec fn param_text(info: Option<Params>, key: Seq<char>) -> Option<Seq<char>> {
    value_text(param(info, key))
}

/// The text of a value, where it is one.
pub open spec fn value_text(value: Option<ParamValue>) -> Option<Seq<char>> {
    match value {
        Some(ParamValue::Text(text)) => Some(text@),
        _ => None,
    }
}

pub proof fn lemma_entry_index(entries: Seq<(String, ParamValue)>, key: Seq<char>, i: int)
    requires
        0 <= i <= entries.len(),
        forall|k: int| 0 <= k < i ==> #[trigger] entries[k].0@ != key,
        i == entries.len() || entries[i].0@ == key,
    ensures
        entry_index(entries, key) == i,
    decreases i,
{
    if i > 0 {
        lemma_entry_index(entries.skip(1), key, i - 1);
    }
}

impl Params {
    /// Parameters with no entry.
    pub fn new() -> (r: Params)
        ensures
            r.entries@.len() == 0,
    {
        Params { entries: Vec::new() }
    }

    /// The value of the parameter `key`, where it is set.
    pub fn get(&self, key: &str) -> (r: Option<&ParamValue>)
        ensures
            param(Some(*self), key@) == (match r {
                Some(value) => Some(*value),
                None => None,
            }),
    {
        let mut i: usize = 0;
        while i < self.entries.len()
            invariant
                i <= self.entries.len(),
                forall|k: int| 0 <= k < i ==> #[trigger] self.entries@[k].0@ != key@,
            decreases self.entries.len() - i,
        {
            if text::same(self.entries[i].0.as_str(), key) {
                proof {
                    lemma_entry_index(self.entries@, key@, i as int);
                }
                return Some(&self.entries[i].1);
            }
            i += 1;
        }
        proof {
            lemma_entry_index(self.entries@, key@, i as int);
        }
        None
    }

    /// Appends a parameter that is not set yet.
    pub fn set(&mut self, key: &str, value: ParamValue)
        requires
            param(Some(*old(self)), key@) is None,
        ensures
            final(self).entries@.len() == old(self).entries@.len() + 1,
            final(self).entries@.drop_last() == old(self).entries@,
            final(self).entries@.last().0@ == key@,
            final(self).entries@.last().1 == value,
            final(self)@ == old(self)@.push((key@, value@)),
    {
        self.entries.push((key.to_owned(), value));
        assert(self.entries@.drop_last() =~= old(self).entries@);
        assert(self@ =~= old(self)@.push((key@, value@)));
    }
}

/// The text of the parameter `key`, where it is set to one.
pub fn text_param<'a>(info: Option<&'a Params>, key: &str) -> (r: Option<&'a str>)
    ensures
        param_text(owned(info), key@) == text_view(r),
{
    match info {
        Some(params) => match params.get(key) {
            Some(value) => value_as_text(value),
            None => None,
        },
        None => None,
    }
}

/// The text of a value, where it is one.
pub fn value_as_text<'a>(value: &'a ParamValue) -> (r: Option<&'a str>)
    ensures
        value_text(Some(*value)) == text_view(r),
{
    match value {
        ParamValue::Text(text) => Some(text.as_str()),
        _ => None,
    }
}

/// The value behind an optional reference.
pub open spec fn owned<T>(value: Option<&T>) -> Option<T> {
    match value {
        Some(value) => Some(*value),
        None => None,
    }
}

/// The characters of an optional text.
pub open spec fn text_view(text: Option<&str>) -> Option<Seq<char>> {
    match text {
        Some(text) => Some(text@),
        None => None,
    }
}

/// The characters of an optional string.
pub open spec fn string_view(text: Option<String>) -> Option<Seq<char>> {
    match text {
        Some(text) => Some(text@),
        None => None,
    }
}

} // verus!
