use clausewitz::{CwKeyValue, CwTable, CwValue};

fn assert_keystr(cw_value: &CwKeyValue, key: &str, value: &str) {
    assert_eq!(cw_value.key, key);
    assert_valuestr(&cw_value.value, value);
}

fn assert_valuestr(cw_value: &CwValue, value: &str) {
    assert_eq!(cw_value.as_string(), Some(&String::from(value)));
}

#[test]
fn parse_value() {
    let data = CwTable::parse("foo=bar").unwrap();
    assert_eq!(data.values.len(), 1);
    assert_keystr(&data.values[0], "foo", "bar");
}

#[test]
fn parse_values() {
    let data = CwTable::parse("foo=bar\nbar=foo").unwrap();
    assert_eq!(data.values.len(), 2);
    assert_keystr(&data.values[0], "foo", "bar");
    assert_keystr(&data.values[1], "bar", "foo");
}

#[test]
fn parse_values_inline() {
    let data = CwTable::parse("foo=bar bar=foo").unwrap();
    assert_eq!(data.values.len(), 2);
    assert_keystr(&data.values[0], "foo", "bar");
    assert_keystr(&data.values[1], "bar", "foo");
}

#[test]
fn parse_whitespace() {
    let data = CwTable::parse(" foo  = bar  ").unwrap();
    assert_eq!(data.values.len(), 1);
    assert_keystr(&data.values[0], "foo", "bar");
}

#[test]
fn parse_comments() {
    let data = CwTable::parse("foo=bar #things\nbar=foo").unwrap();
    assert_eq!(data.values.len(), 2);
    assert_keystr(&data.values[0], "foo", "bar");
    assert_keystr(&data.values[1], "bar", "foo");
}

#[test]
fn parse_quoted() {
    let data = CwTable::parse("foo=\"I'm a little teapot\"").unwrap();
    assert_eq!(data.values.len(), 1);
    assert_keystr(&data.values[0], "foo", "I'm a little teapot");

    let data = CwTable::parse(r#"foo="I'm a little teapot \"short and stout\"""#).unwrap();
    assert_eq!(data.values.len(), 1);
    assert_keystr(&data.values[0], "foo", "I'm a little teapot \"short and stout\"");
}

#[test]
fn parse_nested() {
    let data = CwTable::parse("foo={bar=chickens foobar=frogs}\ncheeze=unfrogged").unwrap();
    assert_eq!(data.values.len(), 2);
    assert_keystr(&data.values[1], "cheeze", "unfrogged");

    if let &CwValue::Table(ref table) = &data.values[0].value {
        assert_eq!(table.values.len(), 2);
        assert_keystr(&table.values[0], "bar", "chickens");
        assert_keystr(&table.values[1], "foobar", "frogs");
    } else {
        assert!(false, "Wrong value type!");
    }
}

#[test]
fn parse_annoying_nested() {
    let data = CwTable::parse("foo={bar=chickens foobar=frogs}cheeze=unfrogged").unwrap();
    assert_eq!(data.values.len(), 2);
    assert_keystr(&data.values[1], "cheeze", "unfrogged");

    if let &CwValue::Table(ref table) = &data.values[0].value {
        assert_eq!(table.values.len(), 2);
        assert_keystr(&table.values[0], "bar", "chickens");
        assert_keystr(&table.values[1], "foobar", "frogs");
    } else {
        assert!(false, "Wrong value type!");
    }
}

#[test]
fn parse_array() {
    let data = CwTable::parse("foo={why \"does this\" exist}").unwrap();
    assert_eq!(data.values.len(), 1);
    assert_eq!(data.values[0].key, "foo");

    if let &CwValue::Array(ref array) = &data.values[0].value {
        assert_eq!(array.len(), 3);
        assert_valuestr(&array[0], "why");
        assert_valuestr(&array[1], "does this");
        assert_valuestr(&array[2], "exist");
    }
}

#[test]
fn escape_newline_and_unknown() {
    let data = CwTable::parse("\"\\n\"").unwrap();
    assert_eq!(data.values.len(), 1);
    assert_keystr(&data.values[0], "", "\n");
    let data = CwTable::parse("\"\\q\"").unwrap();
    assert_keystr(&data.values[0], "", "q");
}

#[test]
fn escape_table() {
    let data = CwTable::parse(r#"x="\'\"\\\/\b\f\n\r\t""#).unwrap();
    assert_keystr(&data.values[0], "x", "'\"\\/\u{8}\u{c}\n\r\t");
}

#[test]
fn empty_quoted_string() {
    let data = CwTable::parse("x=\"\"").unwrap();
    assert_keystr(&data.values[0], "x", "");
}

#[test]
fn separators_are_interchangeable() {
    let inputs = ["a=b#c\nc=d", "a=b\nc=d", "a = b\n\nc = d"];
    for text in inputs.iter() {
        let data = CwTable::parse(text).unwrap();
        assert_eq!(data.values.len(), 2);
        assert_keystr(&data.values[0], "a", "b");
        assert_keystr(&data.values[1], "c", "d");
    }
}

#[test]
fn comment_between_key_and_equals() {
    let data = CwTable::parse("a #note\n= b").unwrap();
    assert_eq!(data.values.len(), 1);
    assert_keystr(&data.values[0], "a", "b");
}

#[test]
fn duplicate_keys_keep_order() {
    let mut data = CwTable::parse("a=1\na=2").unwrap();
    assert_valuestr(data.get("a").unwrap(), "1");
    data.add("a", CwValue::from_str("3"));
    assert_eq!(data.values.len(), 3);
    assert_eq!(data.serialize(), "a = 1\na = 2\na = 3\n");
    assert_valuestr(data.get("a").unwrap(), "1");
}

#[test]
fn unseparated_nesting() {
    let data = CwTable::parse("foo={bar=1}baz=2").unwrap();
    assert_eq!(data.values.len(), 2);
    assert_eq!(data.values[0].key, "foo");
    let inner = data.values[0].value.as_table().unwrap();
    assert_eq!(inner.values.len(), 1);
    assert_keystr(&inner.values[0], "bar", "1");
    assert_keystr(&data.values[1], "baz", "2");
}

#[test]
fn trailing_brace_fails() {
    assert!(CwTable::parse("a=1 }").is_err());
}

#[test]
fn malformed_inputs_fail() {
    assert!(CwTable::parse("a=\"open").is_err());
    assert!(CwTable::parse("a={b=1").is_err());
    assert!(CwTable::parse("\"a\"=b").is_err());
    assert!(CwTable::parse("a=").is_err());
    assert!(CwTable::parse("=b").is_err());
}

#[test]
fn empty_and_blank_documents() {
    assert_eq!(CwTable::parse("").unwrap().values.len(), 0);
    assert_eq!(CwTable::parse("  \n\t# only a comment").unwrap().values.len(), 0);
}

#[test]
fn keyless_words_and_keyed_entries_mix() {
    let data = CwTable::parse("a b = c d").unwrap();
    assert_eq!(data.values.len(), 3);
    assert_keystr(&data.values[0], "", "a");
    assert_keystr(&data.values[1], "b", "c");
    assert_keystr(&data.values[2], "", "d");
}

#[test]
fn devolution_rules() {
    let data = CwTable::parse("e={} a={x y} t={x k=v}").unwrap();
    match &data.values[0].value {
        CwValue::Array(a) => assert_eq!(a.len(), 0),
        _ => panic!("empty group should be an array"),
    }
    match &data.values[1].value {
        CwValue::Array(a) => {
            assert_eq!(a.len(), 2);
            assert_valuestr(&a[0], "x");
            assert_valuestr(&a[1], "y");
        },
        _ => panic!("keyless group should be an array"),
    }
    let t = data.values[2].value.as_table().unwrap();
    assert_eq!(t.values.len(), 2);
    assert_keystr(&t.values[0], "", "x");
    assert_keystr(&t.values[1], "k", "v");
}

#[test]
fn unicode_words() {
    let data = CwTable::parse("name=Zürich ключ=значение").unwrap();
    assert_eq!(data.values.len(), 2);
    assert_keystr(&data.values[0], "name", "Zürich");
    assert_keystr(&data.values[1], "ключ", "значение");
}

#[test]
fn unicode_blank_separates() {
    let data = CwTable::parse("a=b\u{3000}c=d").unwrap();
    assert_eq!(data.values.len(), 2);
    assert_keystr(&data.values[1], "c", "d");
}

#[test]
fn free_parse_matches_method() {
    let a = clausewitz::parse("x={1 2}").unwrap();
    assert_eq!(a.serialize(), "x = {\n1\n2\n}\n");
}

#[test]
fn symbols_are_not_words() {
    assert!(CwTable::parse("a=€").is_err());
    assert!(CwTable::parse("a=b→c").is_err());
    assert!(CwTable::parse("a=b,c").is_err());
}
