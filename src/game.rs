//! A game installation: its countries and states, put together from the
//! files it holds.
use vstd::prelude::*;
use crate::grammar::Entries;
use crate::hoi4::{CountryView, Hoi4Country, Hoi4State, StateView};
use crate::text::{contains_text, country_name, country_name_of, has_infix, has_prefix, starts_with_text};
use crate::value::{key_index, CwTable, CwValue, Value};

verus! {

/// Why the files of an installation do not make up a game.
#[derive(Debug, Clone, Copy, PartialEq, Eq, Structural)]
pub enum LoadError {
    /// A country tag names something other than a file path.
    NotAString,
    /// A country's file path has no name in it.
    NoName,
    /// No common file's name holds a country's name.
    NoCommon,
    /// No history file's name starts with a country's tag.
    NoHistory,
}

/// Loaded files as names and tables.
pub open spec fn files_view(v: Seq<(String, CwTable)>) -> Seq<(Seq<char>, Entries)> {
    v.map_values(|f: (String, CwTable)| (f.0@, f.1@))
}

/// The first file from `i` on whose name starts with `tag`, or the length.
pub open spec fn history_index(files: Seq<(Seq<char>, Entries)>, tag: Seq<char>, i: int) -> int
    decreases files.len() - i,
{
    if i < 0 || i >= files.len() {
        files.len() as int
    } else if has_prefix(files[i].0, tag) {
        i
    } else {
        history_index(files, tag, i + 1)
    }
}

/// The first file from `i` on whose name holds `name`, or the length.
pub open spec fn common_index(files: Seq<(Seq<char>, Entries)>, name: Seq<char>, i: int) -> int
    decreases files.len() - i,
{
    if i < 0 || i >= files.len() {
        files.len() as int
    } else if has_infix(files[i].0, name) {
        i
    } else {
        common_index(files, name, i + 1)
    }
}

/// The country that one entry of the tag file stands for: the tag is its key,
/// the name comes from the file path that is its value, and its common and
/// history tables are those of the first files that match.
pub open spec fn country_of(
    e: (Seq<char>, Value),
    commons: Seq<(Seq<char>, Entries)>,
    histories: Seq<(Seq<char>, Entries)>,
) -> Result<CountryView, LoadError> {
    match e.1 {
        Value::Str(path) => match country_name_of(path) {
            Some(name) => {
                let ci = common_index(commons, name, 0);
                let hi = history_index(histories, e.0, 0);
                if ci >= commons.len() {
                    Err(LoadError::NoCommon)
                } else if hi >= histories.len() {
                    Err(LoadError::NoHistory)
                } else {
                    Ok(CountryView { tag: e.0, name, common: commons[ci].1, history: histories[hi].1 })
                }
            },
            None => Err(LoadError::NoName),
        },
        _ => Err(LoadError::NotAString),
    }
}

/// The countries of the first `n` entries of the tag file, or the first error.
pub open spec fn countries_of(
    tags: Entries,
    n: int,
    commons: Seq<(Seq<char>, Entries)>,
    histories: Seq<(Seq<char>, Entries)>,
) -> Result<Seq<CountryView>, LoadError>
    decreases n,
{
    if n <= 0 {
        Ok(Seq::empty())
    } else {
        match countries_of(tags, n - 1, commons, histories) {
            Ok(cs) => match country_of(tags[n - 1], commons, histories) {
                Ok(c) => Ok(cs.push(c)),
                Err(e) => Err(e),
            },
            Err(e) => Err(e),
        }
    }
}

proof fn lemma_countries_err(
    tags: Entries,
    n: int,
    m: int,
    commons: Seq<(Seq<char>, Entries)>,
    histories: Seq<(Seq<char>, Entries)>,
)
    requires
        0 <= n <= m,
        countries_of(tags, n, commons, histories) is Err,
    ensures
        countries_of(tags, m, commons, histories) == countries_of(tags, n, commons, histories),
    decreases m - n,
{
    if n < m {
        lemma_countries_err(tags, n, m - 1, commons, histories);
    }
}

/// The countries that a tag file lists before its `dynamic_tags` entry.
pub open spec fn game_countries(
    tags: Entries,
    commons: Seq<(Seq<char>, Entries)>,
    histories: Seq<(Seq<char>, Entries)>,
) -> Result<Seq<CountryView>, LoadError> {
    countries_of(tags, key_index(tags, "dynamic_tags"@), commons, histories)
}

/// The countries and states of a game.
pub struct CwGameHoi4 {
    countries: Vec<Hoi4Country>,
    states: Vec<Hoi4State>,
}

/// The mathematical form of a game.
pub struct GameView {
    pub countries: Seq<CountryView>,
    pub states: Seq<StateView>,
}

impl View for CwGameHoi4 {
    type V = GameView;

    closed spec fn view(&self) -> GameView {
        GameView {
            countries: self.countries@.map_values(|c: Hoi4Country| c@),
            states: self.states@.map_values(|s: Hoi4State| s@),
        }
    }
}

/// The first country from `i` on with tag `tag`, or the length.
pub open spec fn tag_index(cs: Seq<CountryView>, tag: Seq<char>, i: int) -> int
    decreases cs.len() - i,
{
    if i < 0 || i >= cs.len() {
        cs.len() as int
    } else if cs[i].tag == tag {
        i
    } else {
        tag_index(cs, tag, i + 1)
    }
}

fn common_position(files: &Vec<(String, CwTable)>, name: &String) -> (r: usize)
    ensures
        r == common_index(files_view(files@), name@, 0),
{
    let ghost fv = files_view(files@);
    let mut i: usize = 0;
    while i < files.len()
        invariant
            i <= files.len(),
            fv == files_view(files@),
            common_index(fv, name@, 0) == common_index(fv, name@, i as int),
        decreases files.len() - i,
    {
        if contains_text(files[i].0.as_str(), name.as_str()) {
            return i;
        }
        i = i + 1;
    }
    i
}

fn history_position(files: &Vec<(String, CwTable)>, tag: &String) -> (r: usize)
    ensures
        r == history_index(files_view(files@), tag@, 0),
{
    let ghost fv = files_view(files@);
    let mut i: usize = 0;
    while i < files.len()
        invariant
            i <= files.len(),
            fv == files_view(files@),
            history_index(fv, tag@, 0) == history_index(fv, tag@, i as int),
        decreases files.len() - i,
    {
        if starts_with_text(files[i].0.as_str(), tag.as_str()) {
            return i;
        }
        i = i + 1;
    }
    i
}

fn load_country(
    tag: &String,
    value: &CwValue,
    commons: &Vec<(String, CwTable)>,
    histories: &Vec<(String, CwTable)>,
) -> (r: Result<Hoi4Country, LoadError>)
    ensures
        match r {
            Ok(c) => country_of((tag@, value@), files_view(commons@), files_view(histories@)) == Ok::<
                CountryView,
                LoadError,
            >(c@),
            Err(e) => country_of((tag@, value@), files_view(commons@), files_view(histories@))
                == Err::<CountryView, LoadError>(e),
        },
{
    let path = match value.as_string() {
        Some(p) => p,
        None => return Err(LoadError::NotAString),
    };
    let name = match country_name(path.as_str()) {
        Some(n) => n,
        None => return Err(LoadError::NoName),
    };
    let ci = common_position(commons, &name);
    let hi = history_position(histories, tag);
    if ci >= commons.len() {
        return Err(LoadError::NoCommon);
    }
    if hi >= histories.len() {
        return Err(LoadError::NoHistory);
    }
    let common = commons[ci].1.deep_copy();
    let history = histories[hi].1.deep_copy();
    Ok(Hoi4Country::load(tag.clone(), name, common, history))
}

impl CwGameHoi4 {
    /// The game that the loaded files make up: the tag file's table, and the
    /// common, history and state files of the countries, each with its file
    /// name. The countries are those the tag file lists before its
    /// `dynamic_tags` entry, in order; the states are the state files, in
    /// order.
    pub fn at(
        country_tags: &CwTable,
        commons: &Vec<(String, CwTable)>,
        histories: &Vec<(String, CwTable)>,
        states: Vec<(String, CwTable)>,
    ) -> (r: Result<CwGameHoi4, LoadError>)
        ensures
            match r {
                Ok(g) => game_countries(country_tags@, files_view(commons@), files_view(histories@))
                    == Ok::<Seq<CountryView>, LoadError>(g@.countries) && g@.states == files_view(
                    states@,
                ).map_values(|f: (Seq<char>, Entries)| StateView { file_name: f.0, data: f.1 }),
                Err(e) => game_countries(
                    country_tags@,
                    files_view(commons@),
                    files_view(histories@),
                ) == Err::<Seq<CountryView>, LoadError>(e),
            },
    {
        let ghost tv = country_tags@;
        let ghost cv = files_view(commons@);
        let ghost hv = files_view(histories@);
        let limit = country_tags.position("dynamic_tags");
        let mut countries: Vec<Hoi4Country> = Vec::new();
        assert(countries@.map_values(|c: Hoi4Country| c@) =~= Seq::<CountryView>::empty());
        let mut n: usize = 0;
        while n < limit
            invariant
                n <= limit <= country_tags.values.len(),
                tv == country_tags@,
                limit == key_index(tv, "dynamic_tags"@),
                cv == files_view(commons@),
                hv == files_view(histories@),
                countries_of(tv, n as int, cv, hv) == Ok::<Seq<CountryView>, LoadError>(
                    countries@.map_values(|c: Hoi4Country| c@),
                ),
            decreases limit - n,
        {
            let kv = &country_tags.values[n];
            assert(tv[n as int] == (kv.key@, kv.value@));
            match load_country(&kv.key, &kv.value, commons, histories) {
                Ok(c) => {
                    let ghost before = countries@.map_values(|c: Hoi4Country| c@);
                    countries.push(c);
                    assert(countries@.map_values(|c: Hoi4Country| c@) =~= before.push(c@));
                },
                Err(e) => {
                    proof {
                        lemma_countries_err(tv, n + 1, limit as int, cv, hv);
                    }
                    return Err(e);
                },
            }
            n = n + 1;
        }
        let ghost sv = files_view(states@);
        let mut loaded: Vec<Hoi4State> = Vec::new();
        for f in it: states
            invariant
                it.seq() == states@,
                sv == files_view(states@),
                loaded@.len() == it.index(),
                forall|m: int|
                    0 <= m < loaded@.len() ==> (#[trigger] loaded@[m])@ == (StateView {
                        file_name: sv[m].0,
                        data: sv[m].1,
                    }),
        {
            loaded.push(Hoi4State::load(f.0, f.1));
        }
        let g = CwGameHoi4 { countries, states: loaded };
        assert(g@.states =~= sv.map_values(
            |f: (Seq<char>, Entries)| StateView { file_name: f.0, data: f.1 },
        ));
        Ok(g)
    }

    pub fn states(&self) -> (r: &Vec<Hoi4State>)
        ensures
            r@.map_values(|s: Hoi4State| s@) == self@.states,
    {
        &self.states
    }

    pub fn countries(&self) -> (r: &Vec<Hoi4Country>)
        ensures
            r@.map_values(|c: Hoi4Country| c@) == self@.countries,
    {
        &self.countries
    }

    /// The first country with the tag `tag`.
    pub fn country_for_tag(&self, tag: &str) -> (r: Option<&Hoi4Country>)
        ensures
            match r {
                Some(c) => tag_index(self@.countries, tag@, 0) < self@.countries.len()
                    && c@ == self@.countries[tag_index(self@.countries, tag@, 0)],
                None => tag_index(self@.countries, tag@, 0) == self@.countries.len(),
            },
    {
        let ghost cs = self@.countries;
        let t = tag.to_owned();
        let mut i: usize = 0;
        while i < self.countries.len()
            invariant
                i <= self.countries.len(),
                cs == self@.countries,
                t@ == tag@,
                tag_index(cs, tag@, 0) == tag_index(cs, tag@, i as int),
            decreases self.countries.len() - i,
        {
            if *self.countries[i].tag() == t {
                return Some(&self.countries[i]);
            }
            i = i + 1;
        }
        None
    }
}

} // verus!
