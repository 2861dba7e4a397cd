//! Countries and states of a Hearts of Iron IV installation, over the
//! document tree.
use vstd::prelude::*;
use crate::grammar::Entries;
use crate::value::{decimal, key_index, lookup, set_entries, CwTable, CwValue, Value};

verus! {

/// A country: its tag, the name its files use, and its common and history
/// tables.
#[derive(Debug)]
pub struct Hoi4Country {
    tag: String,
    name: String,
    common: CwTable,
    history: CwTable,
}

/// The mathematical form of a country.
pub struct CountryView {
    pub tag: Seq<char>,
    pub name: Seq<char>,
    pub common: Entries,
    pub history: Entries,
}

impl View for Hoi4Country {
    type V = CountryView;

    closed spec fn view(&self) -> CountryView {
        CountryView {
            tag: self.tag@,
            name: self.name@,
            common: self.common@,
            history: self.history@,
        }
    }
}

impl Clone for Hoi4Country {
    fn clone(&self) -> Self {
        Hoi4Country {
            tag: self.tag.clone(),
            name: self.name.clone(),
            common: self.common.deep_copy(),
            history: self.history.deep_copy(),
        }
    }
}

impl Hoi4Country {
    pub fn load(tag: String, name: String, common: CwTable, history: CwTable) -> (r: Self)
        ensures
            r@ == (CountryView { tag: tag@, name: name@, common: common@, history: history@ }),
    {
        Hoi4Country { tag, name, common, history }
    }

    pub fn tag(&self) -> (r: &String)
        ensures
            r@ == self@.tag,
    {
        &self.tag
    }

    pub fn set_tag(&mut self, value: String)
        ensures
            final(self)@ == (CountryView { tag: value@, ..old(self)@ }),
    {
        self.tag = value;
    }

    pub fn name(&self) -> (r: &String)
        ensures
            r@ == self@.name,
    {
        &self.name
    }

    pub fn set_name(&mut self, value: String)
        ensures
            final(self)@ == (CountryView { name: value@, ..old(self)@ }),
    {
        self.name = value;
    }

    pub fn common_table(&self) -> (r: &CwTable)
        ensures
            r@ == self@.common,
    {
        &self.common
    }

    pub fn history_table(&self) -> (r: &CwTable)
        ensures
            r@ == self@.history,
    {
        &self.history
    }

    /// Sets the `color` of the common table to the three components.
    pub fn set_color(&mut self, r: u8, g: u8, b: u8)
        ensures
            final(self)@ == (CountryView {
                common: set_entries(
                    old(self)@.common,
                    "color"@,
                    Value::Array(
                        seq![
                            Value::Str(decimal(r as nat)),
                            Value::Str(decimal(g as nat)),
                            Value::Str(decimal(b as nat)),
                        ],
                    ),
                ),
                ..old(self)@
            }),
    {
        self.common.set("color", CwValue::from_color(r, g, b));
    }

    /// Sets the `capital` of the history table to the state `state`.
    pub fn set_capital(&mut self, state: String)
        ensures
            final(self)@ == (CountryView {
                history: set_entries(old(self)@.history, "capital"@, Value::Str(state@)),
                ..old(self)@
            }),
    {
        self.history.set("capital", CwValue::from(state));
    }
}

/// The table under the first entry keyed `k`, when it is a table.
pub open spec fn table_at(es: Entries, k: Seq<char>) -> Option<Entries> {
    match lookup(es, k) {
        Some(Value::Table(t)) => Some(t),
        _ => None,
    }
}

/// The string under the first entry keyed `k`, when it is a string.
pub open spec fn string_at(es: Entries, k: Seq<char>) -> Option<Seq<char>> {
    match lookup(es, k) {
        Some(Value::Str(t)) => Some(t),
        _ => None,
    }
}

/// The `state` table of a state file.
pub open spec fn state_of(d: Entries) -> Option<Entries> {
    table_at(d, "state"@)
}

/// The `history` table inside the `state` table of a state file.
pub open spec fn history_of(d: Entries) -> Option<Entries> {
    match state_of(d) {
        Some(t) => table_at(t, "history"@),
        None => None,
    }
}

/// A string under `k` in the `state` table.
pub open spec fn state_string(d: Entries, k: Seq<char>) -> Option<Seq<char>> {
    match state_of(d) {
        Some(t) => string_at(t, k),
        None => None,
    }
}

/// A string under `k` in the `history` table.
pub open spec fn history_string(d: Entries, k: Seq<char>) -> Option<Seq<char>> {
    match history_of(d) {
        Some(t) => string_at(t, k),
        None => None,
    }
}

/// The state file `d` with its `state` table replaced by `st`.
pub open spec fn with_state(d: Entries, st: Entries) -> Entries {
    d.update(key_index(d, "state"@), ("state"@, Value::Table(st)))
}

/// The state file `d` with the `history` table in its `state` table replaced
/// by `h`.
pub open spec fn with_history(d: Entries, h: Entries) -> Entries {
    let st = state_of(d)->0;
    with_state(d, st.update(key_index(st, "history"@), ("history"@, Value::Table(h))))
}

/// A state: the name of its file and the table the file holds.
#[derive(Debug)]
pub struct Hoi4State {
    file_name: String,
    data: CwTable,
}

/// The mathematical form of a state.
pub struct StateView {
    pub file_name: Seq<char>,
    pub data: Entries,
}

impl View for Hoi4State {
    type V = StateView;

    closed spec fn view(&self) -> StateView {
        StateView { file_name: self.file_name@, data: self.data@ }
    }
}

impl Clone for Hoi4State {
    fn clone(&self) -> Self {
        Hoi4State { file_name: self.file_name.clone(), data: self.data.deep_copy() }
    }
}

impl Hoi4State {
    pub fn load(file_name: String, data: CwTable) -> (r: Self)
        ensures
            r@ == (StateView { file_name: file_name@, data: data@ }),
    {
        Hoi4State { file_name, data }
    }

    pub fn file_name(&self) -> (r: &String)
        ensures
            r@ == self@.file_name,
    {
        &self.file_name
    }

    pub fn data(&self) -> (r: &CwTable)
        ensures
            r@ == self@.data,
    {
        &self.data
    }

    fn state_table(&self) -> (r: Option<&CwTable>)
        ensures
            match r {
                Some(t) => state_of(self@.data) == Some(t@),
                None => state_of(self@.data) is None,
            },
    {
        match self.data.get("state") {
            Some(v) => v.as_table(),
            None => None,
        }
    }

    fn state_table_mut(&mut self) -> (r: Option<&mut CwTable>)
        ensures
            match r {
                Some(t) => state_of(old(self)@.data) == Some(t@) && final(self)@ == (StateView {
                    data: with_state(old(self)@.data, final(t)@),
                    ..old(self)@
                }),
                None => state_of(old(self)@.data) is None && final(self)@ == old(self)@,
            },
    {
        proof {
            crate::value::lemma_index_from(self.data@, "state"@, 0);
        }
        if self.state_table().is_none() {
            return None;
        }
        match self.data.get_mut("state") {
            Some(v) => v.as_table_mut(),
            None => None,
        }
    }

    fn history_table(&self) -> (r: Option<&CwTable>)
        ensures
            match r {
                Some(t) => history_of(self@.data) == Some(t@),
                None => history_of(self@.data) is None,
            },
    {
        match self.state_table() {
            Some(st) => match st.get("history") {
                Some(v) => v.as_table(),
                None => None,
            },
            None => None,
        }
    }

    fn history_table_mut(&mut self) -> (r: Option<&mut CwTable>)
        ensures
            match r {
                Some(t) => history_of(old(self)@.data) == Some(t@) && final(self)@ == (StateView {
                    data: with_history(old(self)@.data, final(t)@),
                    ..old(self)@
                }),
                None => history_of(old(self)@.data) is None && final(self)@ == old(self)@,
            },
    {
        proof {
            crate::value::lemma_index_from(self.data@, "state"@, 0);
            if let Some(st) = state_of(self.data@) {
                crate::value::lemma_index_from(st, "history"@, 0);
            }
        }
        if self.history_table().is_none() {
            return None;
        }
        match self.state_table_mut() {
            Some(st) => match st.get_mut("history") {
                Some(v) => v.as_table_mut(),
                None => None,
            },
            None => None,
        }
    }

    /// The `name` in the `state` table.
    pub fn name(&self) -> (r: Option<&String>)
        ensures
            match r {
                Some(t) => state_string(self@.data, "name"@) == Some(t@),
                None => state_string(self@.data, "name"@) is None,
            },
    {
        match self.state_table() {
            Some(st) => match st.get("name") {
                Some(v) => v.as_string(),
                None => None,
            },
            None => None,
        }
    }

    /// The `id` in the `state` table.
    pub fn id(&self) -> (r: Option<&String>)
        ensures
            match r {
                Some(t) => state_string(self@.data, "id"@) == Some(t@),
                None => state_string(self@.data, "id"@) is None,
            },
    {
        match self.state_table() {
            Some(st) => match st.get("id") {
                Some(v) => v.as_string(),
                None => None,
            },
            None => None,
        }
    }

    /// The `owner` in the `history` table.
    pub fn owner(&self) -> (r: Option<&String>)
        ensures
            match r {
                Some(t) => history_string(self@.data, "owner"@) == Some(t@),
                None => history_string(self@.data, "owner"@) is None,
            },
    {
        match self.history_table() {
            Some(h) => match h.get("owner") {
                Some(v) => v.as_string(),
                None => None,
            },
            None => None,
        }
    }

    /// Sets the `owner` in the `history` table; false, with nothing changed,
    /// when the file has no such table.
    pub fn set_owner(&mut self, tag: String) -> (r: bool)
        ensures
            r == history_of(old(self)@.data) is Some,
            r ==> final(self)@ == (StateView {
                data: with_history(
                    old(self)@.data,
                    set_entries(history_of(old(self)@.data)->0, "owner"@, Value::Str(tag@)),
                ),
                ..old(self)@
            }),
            !r ==> final(self)@ == old(self)@,
    {
        match self.history_table_mut() {
            Some(h) => {
                h.set("owner", CwValue::from(tag));
                true
            },
            None => false,
        }
    }

    /// Appends an `add_core_of` entry to the `history` table; false, with
    /// nothing changed, when the file has no such table.
    pub fn add_core(&mut self, tag: String) -> (r: bool)
        ensures
            r == history_of(old(self)@.data) is Some,
            r ==> final(self)@ == (StateView {
                data: with_history(
                    old(self)@.data,
                    history_of(old(self)@.data)->0.push(("add_core_of"@, Value::Str(tag@))),
                ),
                ..old(self)@
            }),
            !r ==> final(self)@ == old(self)@,
    {
        match self.history_table_mut() {
            Some(h) => {
                h.add("add_core_of", CwValue::from(tag));
                true
            },
            None => false,
        }
    }
}

} // verus!
