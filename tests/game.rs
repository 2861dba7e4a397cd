use clausewitz::text::{contains_text, country_name, starts_with_text};
use clausewitz::{CwGameHoi4, CwTable, CwValue, Hoi4Country, Hoi4Mod, Hoi4State, LoadError, TagGenerator};

fn table(text: &str) -> CwTable {
    CwTable::parse(text).unwrap()
}

fn state_file() -> CwTable {
    table("state={ id=42 name=\"STATE_42\" history={ owner=GER add_core_of=GER } }")
}

#[test]
fn country_names_from_paths() {
    assert_eq!(country_name("countries/Germany.txt"), Some(String::from("Germany")));
    assert_eq!(country_name("countries/United States.txt"), Some(String::from("United States")));
    assert_eq!(country_name("countries/Nationalist-China.txt"), Some(String::from("Nationalist China")));
    assert_eq!(country_name("countries//Two  Spaces.txt"), Some(String::from("Two Spaces")));
    assert_eq!(country_name("Germany.txt"), None);
    assert_eq!(country_name(""), None);
}

#[test]
fn text_search() {
    assert!(contains_text("Germany.txt", "many"));
    assert!(contains_text("abc", ""));
    assert!(!contains_text("abc", "abcd"));
    assert!(!contains_text("abc", "ac"));
    assert!(starts_with_text("GER - Germany.txt", "GER"));
    assert!(!starts_with_text("GE", "GER"));
    assert!(!starts_with_text("XGER", "GER"));
}

#[test]
fn country_accessors() {
    let mut c = Hoi4Country::load(
        String::from("GER"),
        String::from("Germany"),
        table("color = { 1 2 3 }"),
        table("capital = 64"),
    );
    assert_eq!(c.tag(), "GER");
    assert_eq!(c.name(), "Germany");
    c.set_tag(String::from("AAB"));
    c.set_name(String::from("Saxony"));
    c.set_color(200, 7, 90);
    c.set_capital(String::from("65"));
    assert_eq!(c.tag(), "AAB");
    assert_eq!(c.name(), "Saxony");
    assert_eq!(c.common_table().serialize(), "color = {\n200\n7\n90\n}\n");
    assert_eq!(c.history_table().serialize(), "capital = 65\n");
}

#[test]
fn state_accessors() {
    let mut s = Hoi4State::load(String::from("42-State.txt"), state_file());
    assert_eq!(s.file_name(), "42-State.txt");
    assert_eq!(s.id().unwrap(), "42");
    assert_eq!(s.name().unwrap(), "STATE_42");
    assert_eq!(s.owner().unwrap(), "GER");
    assert!(s.set_owner(String::from("AAB")));
    assert!(s.add_core(String::from("AAB")));
    assert_eq!(s.owner().unwrap(), "AAB");
    let history = s.data().get("state").unwrap().as_table().unwrap().get("history").unwrap();
    let h = history.as_table().unwrap();
    assert_eq!(h.serialize(), "owner = AAB\nadd_core_of = GER\nadd_core_of = AAB\n");
}

#[test]
fn state_without_history() {
    let mut s = Hoi4State::load(String::from("x.txt"), table("state={ id=1 }"));
    assert!(s.owner().is_none());
    assert!(s.name().is_none());
    assert!(!s.set_owner(String::from("AAB")));
    assert!(!s.add_core(String::from("AAB")));
    assert_eq!(s.data().serialize(), "state = {\nid = 1\n}\n");
}

fn files(entries: &[(&str, &str)]) -> Vec<(String, CwTable)> {
    entries.iter().map(|(n, t)| (String::from(*n), table(t))).collect()
}

#[test]
fn game_from_files() {
    let tags = table("GER = \"countries/Germany.txt\"\nENG = \"countries/United Kingdom.txt\"\ndynamic_tags = yes\nD01 = \"countries/D01.txt\"");
    let commons = files(&[("Germany.txt", "color = { 1 2 3 }"), ("United Kingdom.txt", "color = { 4 5 6 }")]);
    let histories = files(&[("ENG - United Kingdom.txt", "capital = 126"), ("GER - Germany.txt", "capital = 64")]);
    let states = files(&[("64-Brandenburg.txt", "state={ id=64 }")]);
    let game = CwGameHoi4::at(&tags, &commons, &histories, states).unwrap();
    assert_eq!(game.countries().len(), 2);
    assert_eq!(game.states().len(), 1);
    let ger = game.country_for_tag("GER").unwrap();
    assert_eq!(ger.name(), "Germany");
    assert_eq!(ger.history_table().serialize(), "capital = 64\n");
    let eng = game.country_for_tag("ENG").unwrap();
    assert_eq!(eng.name(), "United Kingdom");
    assert_eq!(eng.common_table().serialize(), "color = {\n4\n5\n6\n}\n");
    assert!(game.country_for_tag("D01").is_none());
    assert_eq!(game.states()[0].file_name(), "64-Brandenburg.txt");
}

#[test]
fn game_load_errors() {
    let commons = files(&[("Germany.txt", "a=b")]);
    let histories = files(&[("GER - Germany.txt", "a=b")]);
    let err = |tags: &str| CwGameHoi4::at(&table(tags), &commons, &histories, Vec::new()).err();
    assert_eq!(err("GER = { x }"), Some(LoadError::NotAString));
    assert_eq!(err("GER = Germany.txt"), Some(LoadError::NoName));
    assert_eq!(err("GER = \"countries/France.txt\""), Some(LoadError::NoCommon));
    assert_eq!(err("FRA = \"countries/Germany.txt\""), Some(LoadError::NoHistory));
    assert_eq!(err("GER = \"countries/Germany.txt\""), None);
}

#[test]
fn tags_for_numbers() {
    assert_eq!(TagGenerator::get_tag_for_num(0), "AAA");
    assert_eq!(TagGenerator::get_tag_for_num(27), "ABB");
    assert_eq!(TagGenerator::get_tag_for_num(675), "AZZ");
    assert_eq!(TagGenerator::get_tag_for_num(676), "BAA");
    assert_eq!(TagGenerator::get_tag_for_num(17575), "ZZZ");
}

#[test]
fn tag_generator_skips_taken_tags() {
    let tags = table("AAA = \"countries/Germany.txt\"");
    let commons = files(&[("Germany.txt", "a=b")]);
    let histories = files(&[("AAA - Germany.txt", "a=b")]);
    let game = CwGameHoi4::at(&tags, &commons, &histories, Vec::new()).unwrap();
    let mut g = TagGenerator::new();
    assert_eq!(g.next(&game).unwrap(), "AAB");
    assert_eq!(g.next(&game).unwrap(), "AAC");
    let mut seen = Vec::new();
    for _ in 0..400 {
        seen.push(g.next(&game).unwrap());
    }
    assert!(!seen.contains(&String::from("AND")));
    assert!(seen.contains(&String::from("ANC")));
    assert!(seen.contains(&String::from("ANE")));
}

#[test]
fn mod_tables() {
    let mut m = Hoi4Mod::new("shattered", "Shattered Hearts", "1.0.1");
    m.add_tag("Alternative History");
    let c = Hoi4Country::load(String::from("AAB"), String::from("Saxony"), CwTable::new(), CwTable::new());
    m.add_country(c);
    m.add_state(Hoi4State::load(String::from("1.txt"), CwTable::new()));
    assert_eq!(m.name(), "shattered");
    assert_eq!(m.countries().len(), 1);
    assert_eq!(m.states().len(), 1);
    assert_eq!(
        m.modfile_table().serialize(),
        "name = \"Shattered Hearts\"\npath = mod/shattered\ntags = {\n\"Alternative History\"\n}\nsupported_version = 1.0.1\n"
    );
    assert_eq!(m.generate_country_tags_table().serialize(), "AAB = countries/Saxony.txt\n");
}

#[test]
fn string_value_conversions() {
    let v: CwValue = String::from("x y").into();
    assert_eq!(v.as_string().unwrap(), "x y");
}
