//! A mod: new countries and states, and the tables that describe it.
use vstd::prelude::*;
use crate::grammar::Entries;
use crate::hoi4::{CountryView, Hoi4Country, Hoi4State, StateView};
use crate::value::{set_entries, CwTable, CwValue, Value};

verus! {

/// A mod under construction.
pub struct Hoi4Mod {
    name: String,
    friendly_name: String,
    game_version: String,
    tags: Vec<String>,
    countries: Vec<Hoi4Country>,
    states: Vec<Hoi4State>,
}

/// The mathematical form of a mod.
pub struct ModView {
    pub name: Seq<char>,
    pub friendly_name: Seq<char>,
    pub game_version: Seq<char>,
    pub tags: Seq<Seq<char>>,
    pub countries: Seq<CountryView>,
    pub states: Seq<StateView>,
}

impl View for Hoi4Mod {
    type V = ModView;

    closed spec fn view(&self) -> ModView {
        ModView {
            name: self.name@,
            friendly_name: self.friendly_name@,
            game_version: self.game_version@,
            tags: self.tags@.map_values(|t: String| t@),
            countries: self.countries@.map_values(|c: Hoi4Country| c@),
            states: self.states@.map_values(|s: Hoi4State| s@),
        }
    }
}

/// The table of the `.mod` file: its friendly name, its path, its tags and
/// the game version it supports.
pub open spec fn modfile_entries(m: ModView) -> Entries {
    seq![
        ("name"@, Value::Str(m.friendly_name)),
        ("path"@, Value::Str("mod/"@ + m.name)),
        ("tags"@, Value::Array(m.tags.map_values(|t: Seq<char>| Value::Str(t)))),
        ("supported_version"@, Value::Str(m.game_version)),
    ]
}

/// The file of a country's common table, relative to the `common` directory.
pub open spec fn common_path(name: Seq<char>) -> Seq<char> {
    "countries/"@ + name + ".txt"@
}

/// The country tag table for the first `n` countries: each tag set to the
/// country's common file, in order.
pub open spec fn country_tags_entries(cs: Seq<CountryView>, n: int) -> Entries
    decreases n,
{
    if n <= 0 {
        Seq::empty()
    } else {
        set_entries(
            country_tags_entries(cs, n - 1),
            cs[n - 1].tag,
            Value::Str(common_path(cs[n - 1].name)),
        )
    }
}

impl Hoi4Mod {
    pub fn new(name: &str, friendly_name: &str, game_version: &str) -> (r: Self)
        ensures
            r@ == (ModView {
                name: name@,
                friendly_name: friendly_name@,
                game_version: game_version@,
                tags: Seq::empty(),
                countries: Seq::empty(),
                states: Seq::empty(),
            }),
    {
        let r = Hoi4Mod {
            name: name.to_owned(),
            friendly_name: friendly_name.to_owned(),
            game_version: game_version.to_owned(),
            tags: Vec::new(),
            countries: Vec::new(),
            states: Vec::new(),
        };
        assert(r@.tags =~= Seq::empty());
        assert(r@.countries =~= Seq::empty());
        assert(r@.states =~= Seq::empty());
        r
    }

    pub fn add_tag(&mut self, tag: &str)
        ensures
            final(self)@ == (ModView { tags: old(self)@.tags.push(tag@), ..old(self)@ }),
    {
        self.tags.push(tag.to_owned());
        assert(self@.tags =~= old(self)@.tags.push(tag@));
    }

    pub fn add_country(&mut self, country: Hoi4Country)
        ensures
            final(self)@ == (ModView { countries: old(self)@.countries.push(country@), ..old(self)@ }),
    {
        let ghost c = country@;
        self.countries.push(country);
        assert(self@.countries =~= old(self)@.countries.push(c));
    }

    pub fn add_state(&mut self, state: Hoi4State)
        ensures
            final(self)@ == (ModView { states: old(self)@.states.push(state@), ..old(self)@ }),
    {
        let ghost s = state@;
        self.states.push(state);
        assert(self@.states =~= old(self)@.states.push(s));
    }

    pub fn name(&self) -> (r: &String)
        ensures
            r@ == self@.name,
    {
        &self.name
    }

    pub fn countries(&self) -> (r: &Vec<Hoi4Country>)
        ensures
            r@.map_values(|c: Hoi4Country| c@) == self@.countries,
    {
        &self.countries
    }

    pub fn states(&self) -> (r: &Vec<Hoi4State>)
        ensures
            r@.map_values(|s: Hoi4State| s@) == self@.states,
    {
        &self.states
    }

    /// The table of the `.mod` file.
    pub fn modfile_table(&self) -> (r: CwTable)
        ensures
            r@ == modfile_entries(self@),
    {
        let mut path = String::new();
        path.append("mod/");
        path.append(self.name.as_str());
        let mut tags: Vec<CwValue> = Vec::new();
        let mut n: usize = 0;
        while n < self.tags.len()
            invariant
                n <= self.tags.len(),
                tags@.len() == n,
                forall|m: int| 0 <= m < n ==> (#[trigger] tags@[m])@ == Value::Str(self.tags@[m]@),
            decreases self.tags.len() - n,
        {
            tags.push(CwValue::String(self.tags[n].clone()));
            n = n + 1;
        }
        let mut t = CwTable::new();
        t.add("name", CwValue::String(self.friendly_name.clone()));
        t.add("path", CwValue::String(path));
        let tv = CwValue::Array(tags);
        assert(tv@ == Value::Array(self@.tags.map_values(|t: Seq<char>| Value::Str(t)))) by {
            assert(tv@->Array_0 =~= self@.tags.map_values(|t: Seq<char>| Value::Str(t)));
        }
        t.add("tags", tv);
        t.add("supported_version", CwValue::String(self.game_version.clone()));
        assert(t@ =~= modfile_entries(self@));
        t
    }

    /// The table that maps each country's tag to its common file.
    pub fn generate_country_tags_table(&self) -> (r: CwTable)
        ensures
            r@ == country_tags_entries(self@.countries, self@.countries.len() as int),
    {
        let ghost cs = self@.countries;
        let mut table = CwTable::new();
        let mut n: usize = 0;
        while n < self.countries.len()
            invariant
                n <= self.countries.len(),
                cs == self@.countries,
                table@ == country_tags_entries(cs, n as int),
            decreases self.countries.len() - n,
        {
            let country = &self.countries[n];
            let mut file = String::new();
            file.append("countries/");
            file.append(country.name().as_str());
            file.append(".txt");
            table.set(country.tag().as_str(), CwValue::String(file));
            n = n + 1;
        }
        table
    }
}

} // verus!
