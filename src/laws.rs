//! What holds of parsing and serializing together.
use vstd::prelude::*;
use crate::chars::{is_blank, is_word_char};
use crate::grammar::{
    all_keyless, devolve, document, entries_at, entry_at, key_value_at, skip_end, value_at,
    word_end, Entries,
};
use crate::serialize::{
    array_text, escaped_text, key_text, needs_quotes, quoted_text, table_text, value_text,
};
use crate::value::{key_index, lemma_index_from, lookup, set_entries, Value};

verus! {

/// A bare word: not empty, and made of word characters none of which is blank.
pub open spec fn is_word(t: Seq<char>) -> bool {
    t.len() > 0 && forall|i: int| 0 <= i < t.len() ==> is_word_char(#[trigger] t[i]) && !is_blank(t[i])
}

/// A key that is empty (keyless) or a word.
pub open spec fn plain_key(k: Seq<char>) -> bool {
    k.len() == 0 || is_word(k)
}

/// A value whose strings are all words and whose keys are all plain.
pub open spec fn plain_value(v: Value) -> bool
    decreases v,
{
    match v {
        Value::Str(t) => is_word(t),
        Value::Table(es) => plain_entries(es),
        Value::Array(vs) => forall|i: int| 0 <= i < vs.len() ==> plain_value(#[trigger] vs[i]),
    }
}

/// Entries whose keys are plain and whose values are plain.
pub open spec fn plain_entries(es: Entries) -> bool
    decreases es,
{
    forall|i: int| 0 <= i < es.len() ==> plain_key(#[trigger] es[i].0) && plain_value(es[i].1)
}

/// A value as it reads back after being written: every nested table whose
/// entries are all keyless has become an array.
pub open spec fn normalize(v: Value) -> Value
    decreases v,
{
    match v {
        Value::Str(t) => Value::Str(t),
        Value::Table(es) => devolve(normalize_entries(es)),
        Value::Array(vs) => Value::Array(normalize_values(vs)),
    }
}

pub open spec fn normalize_entries(es: Entries) -> Entries
    decreases es,
{
    Seq::new(
        es.len(),
        |i: int|
            if 0 <= i < es.len() {
                (es[i].0, normalize(es[i].1))
            } else {
                (Seq::empty(), Value::Array(Seq::empty()))
            },
    )
}

pub open spec fn normalize_values(vs: Seq<Value>) -> Seq<Value>
    decreases vs,
{
    Seq::new(
        vs.len(),
        |i: int|
            if 0 <= i < vs.len() {
                normalize(vs[i])
            } else {
                Value::Array(Seq::empty())
            },
    )
}

/// The text `t` stands in `s` from position `p` on.
pub open spec fn at(s: Seq<char>, p: int, t: Seq<char>) -> bool {
    0 <= p && p + t.len() <= s.len() && forall|j: int| 0 <= j < t.len() ==> s[p + j] == #[trigger] t[j]
}

/// Nothing at `q` that separators would skip or that could follow a key.
pub open spec fn opens(s: Seq<char>, q: int) -> bool {
    0 <= q <= s.len() && (q == s.len() || (!is_blank(s[q]) && s[q] != '#' && s[q] != '='))
}

/// The text of one entry.
pub open spec fn entry_text(e: (Seq<char>, Value)) -> Seq<char> {
    key_text(e.0) + value_text(e.1)
}

/// The values of an array as keyless entries.
pub open spec fn keyless(vs: Seq<Value>) -> Entries {
    vs.map_values(|v: Value| (Seq::<char>::empty(), v))
}

proof fn lemma_at_split(s: Seq<char>, p: int, a: Seq<char>, b: Seq<char>)
    requires
        at(s, p, a + b),
    ensures
        at(s, p, a),
        at(s, p + a.len(), b),
{
    assert forall|j: int| 0 <= j < a.len() implies s[p + j] == #[trigger] a[j] by {
        assert((a + b)[j] == a[j]);
    }
    assert forall|j: int| 0 <= j < b.len() implies s[p + a.len() + j] == #[trigger] b[j] by {
        assert((a + b)[a.len() + j] == b[j]);
        assert(s[p + (a.len() + j)] == (a + b)[a.len() + j]);
    }
}

proof fn lemma_opens(s: Seq<char>, q: int)
    requires
        opens(s, q),
    ensures
        skip_end(s, q) == q,
{
}

proof fn lemma_table_text_cons(e: (Seq<char>, Value), rest: Entries)
    ensures
        table_text(seq![e] + rest) == entry_text(e) + table_text(rest),
    decreases rest.len(),
{
    let es = seq![e] + rest;
    if rest.len() == 0 {
        assert(es.drop_last() =~= Seq::<(Seq<char>, Value)>::empty());
        assert(es.last() == e);
        assert(table_text(es.drop_last()) == Seq::<char>::empty());
        assert(table_text(rest) == Seq::<char>::empty());
        assert(table_text(es) =~= entry_text(e) + table_text(rest));
    } else {
        lemma_table_text_cons(e, rest.drop_last());
        assert(es.drop_last() =~= seq![e] + rest.drop_last());
        assert(es.last() == rest.last());
        assert(table_text(es) =~= entry_text(e) + table_text(rest));
    }
}

proof fn lemma_array_text(vs: Seq<Value>)
    ensures
        array_text(vs) == table_text(keyless(vs)),
    decreases vs.len(),
{
    if vs.len() > 0 {
        lemma_array_text(vs.drop_last());
        assert(keyless(vs).drop_last() =~= keyless(vs.drop_last()));
        assert(key_text(keyless(vs).last().0) =~= Seq::<char>::empty());
        assert(array_text(vs) =~= table_text(keyless(vs)));
    } else {
        assert(keyless(vs) =~= Seq::<(Seq<char>, Value)>::empty());
    }
}

/// A word is written as it is.
proof fn lemma_word_unquoted(t: Seq<char>)
    requires
        is_word(t),
    ensures
        !needs_quotes(t),
        escaped_text(t) == t,
{
    if t.contains('\\') {
        let i = choose|i: int| 0 <= i < t.len() && t[i] == '\\';
        assert(is_word_char(t[i]));
    }
    if t.contains(' ') {
        let i = choose|i: int| 0 <= i < t.len() && t[i] == ' ';
        assert(!is_blank(t[i]));
    }
}

/// A word followed by a character outside words is read whole.
proof fn lemma_word_run(s: Seq<char>, p: int, t: Seq<char>, i: int)
    requires
        at(s, p, t),
        is_word(t),
        0 <= i <= t.len(),
        p + t.len() == s.len() || !is_word_char(s[p + t.len()]),
    ensures
        word_end(s, p + i) == p + t.len(),
    decreases t.len() - i,
{
    if i < t.len() {
        assert(s[p + i] == t[i]);
        lemma_word_run(s, p, t, i + 1);
    }
}

/// Every value text is at least two characters long, begins with a character
/// that separators do not skip and that no key is followed by, and ends with a
/// newline.
proof fn lemma_value_text_shape(v: Value)
    requires
        plain_value(v),
    ensures
        value_text(v).len() >= 2,
        !is_blank(value_text(v)[0]),
        value_text(v)[0] != '#',
        value_text(v)[0] != '=',
        value_text(v)[0] != '}',
        value_text(v)[0] != '"',
        value_text(v)[0] == '{' || is_word_char(value_text(v)[0]),
        value_text(v).last() == '\n',
{
    match v {
        Value::Str(t) => {
            lemma_word_unquoted(t);
            assert(is_word_char(t[0]) && !is_blank(t[0]));
            assert(value_text(v)[0] == t[0]);
        },
        _ => {},
    }
}

proof fn lemma_entry_text_shape(e: (Seq<char>, Value))
    requires
        plain_key(e.0),
        plain_value(e.1),
    ensures
        entry_text(e).len() >= 2,
        !is_blank(entry_text(e)[0]),
        entry_text(e)[0] != '#',
        entry_text(e)[0] != '=',
        entry_text(e)[0] != '}',
        entry_text(e).last() == '\n',
        entry_text(e).len() == key_text(e.0).len() + value_text(e.1).len(),
{
    lemma_value_text_shape(e.1);
    if e.0.len() > 0 {
        lemma_word_unquoted(e.0);
        assert(is_word_char(e.0[0]) && !is_blank(e.0[0]));
        assert(entry_text(e)[0] == e.0[0]);
    } else {
        assert(entry_text(e) =~= value_text(e.1));
    }
}

/// The first character of a table text, when it has entries.
proof fn lemma_table_text_first(es: Entries)
    requires
        plain_entries(es),
        es.len() > 0,
    ensures
        table_text(es) == entry_text(es[0]) + table_text(es.drop_first()),
        table_text(es).len() > entry_text(es[0]).len() - 1 >= 1,
        table_text(es)[0] == entry_text(es[0])[0],
        !is_blank(table_text(es)[0]),
        table_text(es)[0] != '#',
        table_text(es)[0] != '=',
        table_text(es)[0] != '}',
{
    assert(es =~= seq![es[0]] + es.drop_first());
    lemma_table_text_cons(es[0], es.drop_first());
    assert(plain_key(es[0].0) && plain_value(es[0].1));
    lemma_entry_text_shape(es[0]);
}

/// A brace group at `p` is read as the devolved entries of the table inside.
proof fn lemma_read_braces(s: Seq<char>, p: int, es: Entries)
    requires
        plain_entries(es),
        at(s, p, seq!['{', '\n'] + table_text(es) + seq!['}', '\n']),
    ensures
        value_at(s, p) == Some((devolve(normalize_entries(es)), p + table_text(es).len() + 3)),
    decreases table_text(es).len(), 4int,
{
    let tt = table_text(es);
    let q = p + 2 + tt.len();
    let text = seq!['{', '\n'] + tt + seq!['}', '\n'];
    lemma_at_split(s, p, seq!['{', '\n'] + tt, seq!['}', '\n']);
    lemma_at_split(s, p, seq!['{', '\n'], tt);
    assert(s[p + 0] == seq!['{', '\n'][0]);
    assert(s[p + 1] == seq!['{', '\n'][1]);
    assert(s[q + 0] == seq!['}', '\n'][0]);
    assert(word_end(s, p) == p);
    if es.len() > 0 {
        lemma_table_text_first(es);
        assert(s[p + 2 + 0] == tt[0]);
    }
    lemma_opens(s, p + 2);
    assert(skip_end(s, p + 1) == p + 2);
    assert(word_end(s, q) == q);
    assert(value_at(s, q) is None);
    assert(key_value_at(s, q) is None);
    assert(entry_at(s, q) is None);
    lemma_read_entries(s, p + 1, p + 2, es);
}

/// A value at `p` is read back, ending just before its final newline.
proof fn lemma_read_value(s: Seq<char>, p: int, v: Value)
    requires
        plain_value(v),
        at(s, p, value_text(v)),
    ensures
        value_at(s, p) == Some((normalize(v), p + value_text(v).len() - 1)),
    decreases value_text(v).len(), 1int,
{
    lemma_value_text_shape(v);
    match v {
        Value::Str(t) => {
            lemma_word_unquoted(t);
            lemma_at_split(s, p, t, seq!['\n']);
            assert(s[p + t.len() + 0] == seq!['\n'][0]);
            lemma_word_run(s, p, t, 0);
            assert(s.subrange(p, p + t.len()) =~= t);
        },
        Value::Table(es) => {
            lemma_read_braces(s, p, es);
        },
        Value::Array(vs) => {
            let es = keyless(vs);
            lemma_array_text(vs);
            assert(plain_entries(es)) by {
                assert forall|i: int| 0 <= i < es.len() implies plain_key(#[trigger] es[i].0)
                    && plain_value(es[i].1) by {
                    assert(plain_value(vs[i]));
                }
            }
            lemma_read_braces(s, p, es);
            let ne = normalize_entries(es);
            assert(all_keyless(ne));
            assert(ne.map_values(|e: (Seq<char>, Value)| e.1) =~= normalize_values(vs));
        },
    }
}

/// An entry at `p` is read back, ending just before its final newline.
proof fn lemma_read_entry(s: Seq<char>, p: int, e: (Seq<char>, Value))
    requires
        plain_key(e.0),
        plain_value(e.1),
        at(s, p, entry_text(e)),
        opens(s, p + entry_text(e).len()),
    ensures
        entry_at(s, p) == Some(((e.0, normalize(e.1)), p + entry_text(e).len() - 1)),
    decreases value_text(e.1).len(), 2int,
{
    let k = e.0;
    let v = e.1;
    let vt = value_text(v);
    lemma_value_text_shape(v);
    if k.len() > 0 {
        lemma_word_unquoted(k);
        let eq = seq![' ', '=', ' '];
        assert(entry_text(e) =~= k + eq + vt);
        lemma_at_split(s, p, k + eq, vt);
        lemma_at_split(s, p, k, eq);
        let w = p + k.len();
        assert(s[w + 0] == eq[0]);
        assert(s[w + 1] == eq[1]);
        assert(s[w + 2] == eq[2]);
        assert(s[w + 3 + 0] == vt[0]);
        lemma_word_run(s, p, k, 0);
        assert(skip_end(s, w + 1) == w + 1);
        assert(skip_end(s, w) == w + 1);
        assert(skip_end(s, w + 3) == w + 3);
        assert(skip_end(s, w + 2) == w + 3);
        lemma_read_value(s, w + 3, v);
        assert(s.subrange(p, w) =~= k);
    } else {
        assert(entry_text(e) =~= vt);
        let r = p + vt.len();
        match v {
            Value::Str(t) => {
                lemma_word_unquoted(t);
                lemma_at_split(s, p, t, seq!['\n']);
                assert(s[p + t.len() + 0] == seq!['\n'][0]);
                lemma_word_run(s, p, t, 0);
                lemma_opens(s, r);
                assert(skip_end(s, p + t.len()) == r);
                assert(key_value_at(s, p) is None);
            },
            _ => {
                assert(s[p + 0] == vt[0]);
                assert(word_end(s, p) == p);
                assert(key_value_at(s, p) is None);
            },
        }
        lemma_read_value(s, p, v);
    }
}

/// The entries of a table text are read back, up to the position after it.
proof fn lemma_read_entries(s: Seq<char>, i: int, p: int, es: Entries)
    requires
        plain_entries(es),
        0 <= i <= p,
        skip_end(s, i) == p,
        at(s, p, table_text(es)),
        opens(s, p + table_text(es).len()),
        entry_at(s, p + table_text(es).len()) is None,
    ensures
        entries_at(s, i) == (normalize_entries(es), p + table_text(es).len()),
    decreases table_text(es).len(), 3int,
{
    let tt = table_text(es);
    if es.len() == 0 {
        assert(normalize_entries(es) =~= Seq::<(Seq<char>, Value)>::empty());
    } else {
        let e = es[0];
        let rest = es.drop_first();
        lemma_table_text_first(es);
        assert(plain_key(e.0) && plain_value(e.1));
        lemma_entry_text_shape(e);
        lemma_at_split(s, p, entry_text(e), table_text(rest));
        let r = p + entry_text(e).len();
        assert(plain_entries(rest)) by {
            assert forall|j: int| 0 <= j < rest.len() implies plain_key(#[trigger] rest[j].0)
                && plain_value(rest[j].1) by {
                assert(rest[j] == es[j + 1]);
            }
        }
        if rest.len() > 0 {
            lemma_table_text_first(rest);
            assert(s[r + 0] == table_text(rest)[0]);
        }
        lemma_read_entry(s, p, e);
        assert(s[p + (entry_text(e).len() - 1)] == entry_text(e)[entry_text(e).len() - 1]);
        lemma_opens(s, r);
        assert(skip_end(s, r - 1) == r);
        lemma_read_entries(s, r - 1, r, rest);
        assert(normalize_entries(es) =~= seq![(e.0, normalize(e.1))] + normalize_entries(rest));
    }
}

/// Writing a table whose keys are empty or words and whose strings are all
/// words, then reading the text back, gives the same entries in the same
/// order, except that each nested table whose entries are all keyless comes
/// back as an array of its values.
pub proof fn law_round_trip(es: Entries)
    requires
        plain_entries(es),
    ensures
        document(table_text(es)) == Some(normalize_entries(es)),
{
    let s = table_text(es);
    assert forall|j: int| 0 <= j < s.len() implies s[0 + j] == #[trigger] s[j] by {}
    if es.len() > 0 {
        lemma_table_text_first(es);
    }
    lemma_opens(s, 0);
    assert(word_end(s, s.len() as int) == s.len());
    assert(value_at(s, s.len() as int) is None);
    assert(key_value_at(s, s.len() as int) is None);
    lemma_read_entries(s, 0, 0, es);
}

/// A brace group read from a text becomes an array of the values of its
/// entries, in the same order, when every entry is keyless (also when there are
/// none); when any entry has a key it becomes a table of exactly those entries.
pub proof fn law_devolution(s: Seq<char>, i: int)
    requires
        0 <= i < s.len(),
        s[i] == '{',
        value_at(s, i) is Some,
    ensures
        ({
            let es = entries_at(s, i + 1).0;
            let (v, _) = value_at(s, i)->0;
            &&& all_keyless(es) ==> v is Array && v->Array_0.len() == es.len() && forall|n: int|
                0 <= n < es.len() ==> v->Array_0[n] == (#[trigger] es[n]).1
            &&& !all_keyless(es) ==> v == Value::Table(es)
        }),
{
    assert(word_end(s, i) == i);
}

/// A string that holds a space is written in quotes, its backslashes doubled.
pub proof fn law_space_quoted(t: Seq<char>)
    requires
        t.contains(' '),
    ensures
        escaped_text(t) == quoted_text(t),
        escaped_text(t)[0] == '"',
        escaped_text(t).last() == '"',
{
}

/// A non-empty string of word characters is written as it is, and reading that
/// text as a value gives back the same string, read whole as a word.
pub proof fn law_word_unquoted(t: Seq<char>)
    requires
        t.len() > 0,
        forall|i: int| 0 <= i < t.len() ==> is_word_char(#[trigger] t[i]),
    ensures
        escaped_text(t) == t,
        value_at(escaped_text(t), 0) == Some((Value::Str(t), t.len() as int)),
{
    if t.contains('\\') {
        let i = choose|i: int| 0 <= i < t.len() && t[i] == '\\';
        assert(is_word_char(t[i]));
    }
    if t.contains(' ') {
        let i = choose|i: int| 0 <= i < t.len() && t[i] == ' ';
        assert(is_word_char(t[i]));
    }
    assert forall|j: int| 0 <= j <= t.len() implies word_end(t, j) == t.len() by {
        lemma_word_end_from(t, j);
    }
    assert(t.subrange(0, t.len() as int) =~= t);
}

proof fn lemma_word_end_from(t: Seq<char>, j: int)
    requires
        0 <= j <= t.len(),
        forall|i: int| 0 <= i < t.len() ==> is_word_char(#[trigger] t[i]),
    ensures
        word_end(t, j) == t.len(),
    decreases t.len() - j,
{
    if j < t.len() {
        lemma_word_end_from(t, j + 1);
    }
}

/// The first position keyed `k` is the one before which no entry is keyed `k`
/// and at which, unless it is the end, an entry is.
proof fn lemma_key_index_unique(es: Entries, k: Seq<char>, r: int)
    requires
        0 <= r <= es.len(),
        r < es.len() ==> es[r].0 == k,
        forall|j: int| 0 <= j < r ==> (#[trigger] es[j]).0 != k,
    ensures
        key_index(es, k) == r,
{
    lemma_index_from(es, k, 0);
    let r0 = key_index(es, k);
    if r0 < r {
        assert(es[r0].0 != k);
    }
    if r < r0 {
        assert(es[r].0 != k);
    }
}

/// Appending an entry never changes what a lookup of a key already present
/// finds: the first entry with that key still wins.
pub proof fn law_add_keeps_first(es: Entries, k: Seq<char>, v: Value)
    requires
        lookup(es, k) is Some,
    ensures
        lookup(es.push((k, v)), k) == lookup(es, k),
        es.push((k, v)).len() == es.len() + 1,
{
    let es2 = es.push((k, v));
    lemma_index_from(es, k, 0);
    let i = key_index(es, k);
    assert forall|j: int| 0 <= j < i implies (#[trigger] es2[j]).0 != k by {
        assert(es2[j] == es[j]);
    }
    lemma_key_index_unique(es2, k, i);
}

/// After `set`, a lookup of the key finds the value set, and a lookup of any
/// other key finds what it found before.
pub proof fn law_set_then_get(es: Entries, k: Seq<char>, v: Value, other: Seq<char>)
    requires
        other != k,
    ensures
        lookup(set_entries(es, k, v), k) == Some(v),
        lookup(set_entries(es, k, v), other) == lookup(es, other),
{
    let es2 = set_entries(es, k, v);
    lemma_index_from(es, k, 0);
    lemma_index_from(es, other, 0);
    let i = key_index(es, k);
    let o = key_index(es, other);
    if i < es.len() {
        assert forall|j: int| 0 <= j < i implies (#[trigger] es2[j]).0 != k by {
            assert(es2[j] == es[j]);
        }
        lemma_key_index_unique(es2, k, i);
        assert forall|j: int| 0 <= j < o implies (#[trigger] es2[j]).0 != other by {
            if j != i {
                assert(es2[j] == es[j]);
            }
        }
        if o < es.len() {
            assert(o != i);
            assert(es2[o] == es[o]);
        }
        lemma_key_index_unique(es2, other, o);
    } else {
        assert forall|j: int| 0 <= j < i implies (#[trigger] es2[j]).0 != k by {
            assert(es2[j] == es[j]);
        }
        lemma_key_index_unique(es2, k, i);
        if o < es.len() {
            assert forall|j: int| 0 <= j < o implies (#[trigger] es2[j]).0 != other by {
                assert(es2[j] == es[j]);
            }
            assert(es2[o] == es[o]);
            lemma_key_index_unique(es2, other, o);
        } else {
            assert forall|j: int| 0 <= j < es2.len() implies (#[trigger] es2[j]).0 != other by {
                if j < es.len() {
                    assert(es2[j] == es[j]);
                }
            }
            lemma_key_index_unique(es2, other, es2.len() as int);
        }
    }
}

} // verus!
