use clausewitz::{escape_str, escape_str_if_needed, CwTable, CwValue};

#[test]
fn quoting_rules() {
    assert_eq!(escape_str_if_needed("plain"), "plain");
    assert_eq!(escape_str_if_needed("two words"), "\"two words\"");
    assert_eq!(escape_str_if_needed(""), "\"\"");
    assert_eq!(escape_str_if_needed("back\\slash"), "\"back\\\\slash\"");
    assert_eq!(escape_str_if_needed("say \"hi\""), "\"say \"hi\"\"");
    assert_eq!(escape_str_if_needed("a{b}=c"), "a{b}=c");
}

#[test]
fn escape_str_doubles_backslashes_only() {
    assert_eq!(escape_str("a\\b\"c"), "\"a\\\\b\"c\"");
    assert_eq!(escape_str(""), "\"\"");
}

#[test]
fn serialize_nested_document() {
    let mut t = CwTable::new();
    t.set("name", CwValue::from_str("Some Value"));
    t.set("color", CwValue::from_color(12, 34, 56));
    let mut inner = CwTable::new();
    inner.add("inner_key", CwValue::from_str("plain_word"));
    inner.add("", CwValue::from_str("also_keyless_bareword"));
    t.add("nested", CwValue::Table(inner));
    assert_eq!(
        t.serialize(),
        "name = \"Some Value\"\ncolor = {\n12\n34\n56\n}\nnested = {\ninner_key = plain_word\nalso_keyless_bareword\n}\n"
    );
}

#[test]
fn round_trip_of_plain_table() {
    let mut t = CwTable::new();
    t.add("a", CwValue::from_str("1"));
    t.add("", CwValue::from_str("loose"));
    let mut inner = CwTable::new();
    inner.add("", CwValue::from_str("x"));
    inner.add("", CwValue::from_str("y"));
    t.add("group", CwValue::Table(inner));
    t.add("empty", CwValue::Table(CwTable::new()));
    let mut keyed = CwTable::new();
    keyed.add("k", CwValue::from_str("v"));
    keyed.add("", CwValue::Array(vec![CwValue::from_str("p"), CwValue::from_str("q")]));
    t.add("keyed", CwValue::Table(keyed));

    let back = CwTable::parse(&t.serialize()).unwrap();
    assert_eq!(back.values.len(), 5);
    assert_eq!(back.values[0].key, "a");
    assert_eq!(back.values[0].value.as_string().unwrap(), "1");
    assert_eq!(back.values[1].key, "");
    assert_eq!(back.values[1].value.as_string().unwrap(), "loose");
    match &back.values[2].value {
        CwValue::Array(a) => {
            assert_eq!(a.len(), 2);
            assert_eq!(a[0].as_string().unwrap(), "x");
            assert_eq!(a[1].as_string().unwrap(), "y");
        },
        _ => panic!("an all-keyless table comes back as an array"),
    }
    match &back.values[3].value {
        CwValue::Array(a) => assert_eq!(a.len(), 0),
        _ => panic!("an empty table comes back as an empty array"),
    }
    let k = back.values[4].value.as_table().unwrap();
    assert_eq!(k.values.len(), 2);
    assert_eq!(k.get("k").unwrap().as_string().unwrap(), "v");
    match &k.values[1].value {
        CwValue::Array(a) => assert_eq!(a.len(), 2),
        _ => panic!("an array comes back as an array"),
    }
    assert_eq!(back.serialize(), t.serialize());
}

#[test]
fn quoted_string_round_trip() {
    let mut t = CwTable::new();
    t.add("k", CwValue::from_str("with space"));
    t.add("e", CwValue::from_str(""));
    let back = CwTable::parse(&t.serialize()).unwrap();
    assert_eq!(back.get("k").unwrap().as_string().unwrap(), "with space");
    assert_eq!(back.get("e").unwrap().as_string().unwrap(), "");
}

#[test]
fn quote_in_unquoted_string_does_not_round_trip() {
    let mut t = CwTable::new();
    t.add("k", CwValue::from_str("a\"b"));
    assert_eq!(t.serialize(), "k = a\"b\n");
    assert!(CwTable::parse(&t.serialize()).is_err());
}

#[test]
fn set_overwrites_first_and_appends_new() {
    let mut t = CwTable::parse("a=1 b=2 a=3").unwrap();
    t.set("a", CwValue::from_str("9"));
    t.set("c", CwValue::from_str("4"));
    assert_eq!(t.serialize(), "a = 9\nb = 2\na = 3\nc = 4\n");
    assert!(t.get("missing").is_none());
}

#[test]
fn get_mut_changes_in_place() {
    let mut t = CwTable::parse("a={x=1} b=2").unwrap();
    {
        let inner = t.get_mut("a").unwrap().as_table_mut().unwrap();
        inner.set("x", CwValue::from_str("5"));
    }
    assert_eq!(t.serialize(), "a = {\nx = 5\n}\nb = 2\n");
    assert!(t.get_mut("b").unwrap().as_table_mut().is_none());
    assert!(t.get_mut("zzz").is_none());
}

#[test]
fn accessors_report_other_variants_as_absent() {
    let s = CwValue::from_str("x");
    assert!(s.as_table().is_none());
    let a = CwValue::from_color(0, 5, 255);
    assert!(a.as_string().is_none());
    assert!(a.as_table().is_none());
    match a {
        CwValue::Array(v) => {
            assert_eq!(v[0].as_string().unwrap(), "0");
            assert_eq!(v[1].as_string().unwrap(), "5");
            assert_eq!(v[2].as_string().unwrap(), "255");
        },
        _ => panic!("a color is an array"),
    }
}

#[test]
fn from_string_makes_string_value() {
    let v = CwValue::from(String::from("hello"));
    assert_eq!(v.as_string().unwrap(), "hello");
}

#[test]
fn clone_is_independent() {
    let t = CwTable::parse("a={b=c}").unwrap();
    let mut u = t.clone();
    u.set("a", CwValue::from_str("d"));
    assert_eq!(t.serialize(), "a = {\nb = c\n}\n");
    assert_eq!(u.serialize(), "a = d\n");
}
