//! Reading a document from text.
use vstd::prelude::*;
use crate::chars::{blank, chars_of, is_blank, push_char, word_char};
use crate::grammar::{
    comment_end, devolve, entries_at, entry_at, key_value_at, quoted_rest, skip_end, unescape,
    value_at, word_end, all_keyless, document, lemma_skip_end_bounds, lemma_word_end_bounds,
};
use crate::value::{CwValue, CwKeyValue, CwTable, Value};

verus! {

/// What a reader at position `i` returned, against what the grammar reads there.
pub open spec fn read_value(r: Option<(CwValue, usize)>, g: Option<(Value, int)>) -> bool {
    match r {
        Some((v, e)) => g == Some((v@, e as int)),
        None => g is None,
    }
}

pub open spec fn read_entry(
    r: Option<(CwKeyValue, usize)>,
    g: Option<((Seq<char>, Value), int)>,
) -> bool {
    match r {
        Some((kv, e)) => g == Some(((kv.key@, kv.value@), e as int)),
        None => g is None,
    }
}

fn skip(s: &Vec<char>, i: usize) -> (r: usize)
    requires
        i <= s.len(),
    ensures
        r == skip_end(s@, i as int),
        i <= r <= s.len(),
{
    let mut k: usize = i;
    let mut in_comment = false;
    while k < s.len()
        invariant
            i <= k <= s.len(),
            skip_end(s@, i as int) == if in_comment {
                comment_end(s@, k as int)
            } else {
                skip_end(s@, k as int)
            },
        decreases s.len() - k,
    {
        let c = s[k];
        if in_comment {
            if c == '\n' {
                assert(comment_end(s@, k as int) == skip_end(s@, k as int));
                assert(is_blank(c));
                in_comment = false;
            }
            k = k + 1;
        } else if blank(c) {
            k = k + 1;
        } else if c == '#' {
            in_comment = true;
            k = k + 1;
        } else {
            return k;
        }
    }
    assert(comment_end(s@, k as int) == skip_end(s@, k as int));
    k
}

fn word(s: &Vec<char>, i: usize) -> (r: usize)
    requires
        i <= s.len(),
    ensures
        r == word_end(s@, i as int),
        i <= r <= s.len(),
{
    let mut k: usize = i;
    while k < s.len() && word_char(s[k])
        invariant
            i <= k <= s.len(),
            word_end(s@, i as int) == word_end(s@, k as int),
        decreases s.len() - k,
    {
        k = k + 1;
    }
    k
}

fn text_between(s: &Vec<char>, i: usize, j: usize) -> (r: String)
    requires
        i <= j <= s.len(),
    ensures
        r@ == s@.subrange(i as int, j as int),
{
    let mut t = String::new();
    let mut k: usize = i;
    while k < j
        invariant
            i <= k <= j <= s.len(),
            t@ == s@.subrange(i as int, k as int),
        decreases j - k,
    {
        push_char(&mut t, s[k]);
        k = k + 1;
        assert(t@ =~= s@.subrange(i as int, k as int));
    }
    t
}

/// The character that the escape `\c` stands for.
fn escape_char(c: char) -> (r: char)
    ensures
        r == unescape(c),
{
    match c {
        '\'' => '\'',
        '"' => '"',
        '\\' => '\\',
        '/' => '/',
        'b' => '\u{8}',
        'f' => '\u{c}',
        'n' => '\n',
        'r' => '\r',
        't' => '\t',
        c => c,
    }
}

fn quoted(s: &Vec<char>, i: usize) -> (r: Option<(String, usize)>)
    requires
        i <= s.len(),
    ensures
        match r {
            Some((t, e)) => quoted_rest(s@, i as int) == Some((t@, e as int)) && i < e <= s.len(),
            None => quoted_rest(s@, i as int) is None,
        },
{
    let mut t = String::new();
    let mut k: usize = i;
    while k < s.len()
        invariant
            i <= k <= s.len(),
            quoted_rest(s@, i as int) == match quoted_rest(s@, k as int) {
                Some((u, e)) => Some((t@ + u, e)),
                None => None,
            },
        decreases s.len() - k,
    {
        let c = s[k];
        if c == '"' {
            assert(t@ + Seq::<char>::empty() =~= t@);
            return Some((t, k + 1));
        } else if c == '\\' {
            if k + 1 >= s.len() {
                return None;
            }
            let ghost t0 = t@;
            push_char(&mut t, escape_char(s[k + 1]));
            proof {
                let c1 = unescape(s@[k + 1]);
                match quoted_rest(s@, k + 2) {
                    Some((u, e)) => assert(t0 + (seq![c1] + u) =~= t@ + u),
                    None => {},
                }
            }
            k = k + 2;
        } else {
            let ghost t0 = t@;
            push_char(&mut t, c);
            proof {
                match quoted_rest(s@, k + 1) {
                    Some((u, e)) => assert(t0 + (seq![c] + u) =~= t@ + u),
                    None => {},
                }
            }
            k = k + 1;
        }
    }
    None
}

fn values_of(t: CwTable) -> (r: Vec<CwValue>)
    ensures
        r@.len() == t.values@.len(),
        forall|n: int| 0 <= n < r@.len() ==> r@[n] == t.values@[n].value,
{
    let mut v: Vec<CwValue> = Vec::new();
    for kv in it: t.values
        invariant
            it.seq() == t.values@,
            v@.len() == it.index(),
            forall|n: int| 0 <= n < v@.len() ==> v@[n] == it.seq()[n].value,
    {
        v.push(kv.value);
    }
    v
}

/// A document that does not follow the grammar.
#[derive(Debug, Clone, Copy, PartialEq, Eq, Structural)]
pub struct ParseError;

fn devolve_table(t: CwTable) -> (r: CwValue)
    ensures
        r@ == devolve(t@),
{
    let mut keyless = true;
    let mut n: usize = 0;
    while n < t.values.len()
        invariant
            n <= t.values.len(),
            keyless <==> forall|m: int| 0 <= m < n ==> (#[trigger] t.values@[m]).key@.len() == 0,
        decreases t.values.len() - n,
    {
        if !t.values[n].key.as_str().is_empty() {
            keyless = false;
        }
        n = n + 1;
    }
    if keyless {
        assert(all_keyless(t@)) by {
            assert forall|m: int| 0 <= m < t@.len() implies (#[trigger] t@[m]).0.len() == 0 by {
                assert(t.values@[m].key@.len() == 0);
            }
        }
        let ghost tv = t@;
        let vals = values_of(t);
        let r = CwValue::Array(vals);
        assert(r@ == Value::Array(tv.map_values(|e: (Seq<char>, Value)| e.1))) by {
            if let Value::Array(a) = r@ {
                assert(a =~= tv.map_values(|e: (Seq<char>, Value)| e.1));
            }
        }
        r
    } else {
        assert(!all_keyless(t@)) by {
            let m = choose|m: int| 0 <= m < n && (#[trigger] t.values@[m]).key@.len() != 0;
            assert(t@[m].0.len() != 0);
        }
        CwValue::Table(t)
    }
}

fn value(s: &Vec<char>, i: usize) -> (r: Option<(CwValue, usize)>)
    requires
        i <= s.len(),
    ensures
        read_value(r, value_at(s@, i as int)),
        r matches Some((_, e)) ==> i < e <= s.len(),
    decreases s.len() - i, 0int,
{
    let w = word(s, i);
    if w > i {
        return Some((CwValue::String(text_between(s, i, w)), w));
    }
    if i < s.len() && s[i] == '"' {
        match quoted(s, i + 1) {
            Some((t, e)) => Some((CwValue::String(t), e)),
            None => None,
        }
    } else if i < s.len() && s[i] == '{' {
        let (t, j) = entries(s, i + 1);
        if j < s.len() && s[j] == '}' {
            Some((devolve_table(t), j + 1))
        } else {
            None
        }
    } else {
        None
    }
}

fn key_value(s: &Vec<char>, i: usize) -> (r: Option<(CwKeyValue, usize)>)
    requires
        i <= s.len(),
    ensures
        read_entry(r, key_value_at(s@, i as int)),
        r matches Some((_, e)) ==> i < e <= s.len(),
    decreases s.len() - i, 1int,
{
    let w = word(s, i);
    if w == i {
        return None;
    }
    proof {
        lemma_word_end_bounds(s@, i as int);
    }
    let k = skip(s, w);
    proof {
        lemma_skip_end_bounds(s@, w as int);
    }
    if k < s.len() && s[k] == '=' {
        let m = skip(s, k + 1);
        proof {
            lemma_skip_end_bounds(s@, k + 1);
        }
        match value(s, m) {
            Some((v, e)) => Some((CwKeyValue { key: text_between(s, i, w), value: v }, e)),
            None => None,
        }
    } else {
        None
    }
}

fn entry(s: &Vec<char>, i: usize) -> (r: Option<(CwKeyValue, usize)>)
    requires
        i <= s.len(),
    ensures
        read_entry(r, entry_at(s@, i as int)),
        r matches Some((_, e)) ==> i < e <= s.len(),
    decreases s.len() - i, 2int,
{
    match key_value(s, i) {
        Some(r) => Some(r),
        None => match value(s, i) {
            Some((v, e)) => Some((CwKeyValue { key: String::new(), value: v }, e)),
            None => None,
        },
    }
}

fn entries(s: &Vec<char>, i: usize) -> (r: (CwTable, usize))
    requires
        i <= s.len(),
    ensures
        entries_at(s@, i as int) == (r.0@, r.1 as int),
        i <= r.1 <= s.len(),
    decreases s.len() - i, 3int,
{
    let mut t = CwTable { values: Vec::new() };
    let mut cur: usize = i;
    assert(t@ + entries_at(s@, i as int).0 =~= entries_at(s@, i as int).0);
    loop
        invariant
            i <= cur <= s.len(),
            entries_at(s@, i as int) == (t@ + entries_at(s@, cur as int).0, entries_at(s@, cur as int).1),
        decreases s.len() - cur,
    {
        let k = skip(s, cur);
        proof {
            lemma_skip_end_bounds(s@, cur as int);
        }
        match entry(s, k) {
            Some((kv, j)) => {
                if cur < j && j <= s.len() {
                    let ghost t0 = t@;
                    let ghost e = (kv.key@, kv.value@);
                    t.values.push(kv);
                    assert(t@ =~= t0.push(e));
                    assert(t0 + (seq![e] + entries_at(s@, j as int).0) =~= t@ + entries_at(s@, j as int).0);
                    cur = j;
                } else {
                    assert(t@ + Seq::empty() =~= t@);
                    return (t, k);
                }
            },
            None => {
                assert(t@ + Seq::empty() =~= t@);
                return (t, k);
            },
        }
    }
}

/// Reads a whole text as a document; fails when any part of it does not
/// follow the grammar.
pub fn parse(text: &str) -> (r: Result<CwTable, ParseError>)
    ensures
        match r {
            Ok(t) => document(text@) == Some(t@),
            Err(_) => document(text@) is None,
        },
{
    let s = chars_of(text);
    let (t, end) = entries(&s, 0);
    if end == s.len() {
        Ok(t)
    } else {
        Err(ParseError)
    }
}

} // verus!
