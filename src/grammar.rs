//! The grammar of the format, as functions from a text and a position to what
//! is read there and the position after it.
use vstd::prelude::*;
use crate::chars::{is_blank, is_word_char};
use crate::value::Value;

verus! {

/// Key/value pairs of a table, in order; an empty key marks a keyless entry.
pub type Entries = Seq<(Seq<char>, Value)>;

/// The end of the separators (blanks and `#` comments) that start at `i`.
pub open spec fn skip_end(s: Seq<char>, i: int) -> int
    decreases s.len() - i, 0int,
{
    if 0 <= i < s.len() && is_blank(s[i]) {
        skip_end(s, i + 1)
    } else if 0 <= i < s.len() && s[i] == '#' {
        comment_end(s, i + 1)
    } else {
        i
    }
}

/// The end of the separators that follow a comment body starting at `i`.
pub open spec fn comment_end(s: Seq<char>, i: int) -> int
    decreases s.len() - i, 1int,
{
    if 0 <= i < s.len() && s[i] != '\n' {
        comment_end(s, i + 1)
    } else {
        skip_end(s, i)
    }
}

/// The end of the run of word characters that starts at `i`.
pub open spec fn word_end(s: Seq<char>, i: int) -> int
    decreases s.len() - i,
{
    if 0 <= i < s.len() && is_word_char(s[i]) {
        word_end(s, i + 1)
    } else {
        i
    }
}

/// The character that an escape `\c` stands for.
pub open spec fn unescape(c: char) -> char {
    if c == 'b' {
        '\u{8}'
    } else if c == 'f' {
        '\u{c}'
    } else if c == 'n' {
        '\n'
    } else if c == 'r' {
        '\r'
    } else if c == 't' {
        '\t'
    } else {
        c
    }
}

/// The text of a quoted string whose body starts at `i`, and the position after
/// its closing quote; `None` when no closing quote comes.
pub open spec fn quoted_rest(s: Seq<char>, i: int) -> Option<(Seq<char>, int)>
    decreases s.len() - i,
{
    if i < 0 || i >= s.len() {
        None
    } else if s[i] == '"' {
        Some((Seq::empty(), i + 1))
    } else if s[i] == '\\' {
        if i + 1 >= s.len() {
            None
        } else {
            match quoted_rest(s, i + 2) {
                Some((t, e)) => Some((seq![unescape(s[i + 1])] + t, e)),
                None => None,
            }
        }
    } else {
        match quoted_rest(s, i + 1) {
            Some((t, e)) => Some((seq![s[i]] + t, e)),
            None => None,
        }
    }
}

/// Whether every entry is keyless (vacuously so when there are none).
pub open spec fn all_keyless(es: Entries) -> bool {
    forall|n: int| 0 <= n < es.len() ==> (#[trigger] es[n]).0.len() == 0
}

/// What a closed brace group becomes: an array of its values when every entry
/// is keyless, else a table.
pub open spec fn devolve(es: Entries) -> Value {
    if all_keyless(es) {
        Value::Array(es.map_values(|e: (Seq<char>, Value)| e.1))
    } else {
        Value::Table(es)
    }
}

/// A value at `i`: a word, else a quoted string, else a brace group.
pub open spec fn value_at(s: Seq<char>, i: int) -> Option<(Value, int)>
    decreases s.len() - i, 0int,
{
    let w = word_end(s, i);
    if w > i {
        Some((Value::Str(s.subrange(i, w)), w))
    } else if 0 <= i < s.len() && s[i] == '"' {
        match quoted_rest(s, i + 1) {
            Some((t, e)) => Some((Value::Str(t), e)),
            None => None,
        }
    } else if 0 <= i < s.len() && s[i] == '{' {
        let (es, j) = entries_at(s, i + 1);
        if 0 <= j < s.len() && s[j] == '}' {
            Some((devolve(es), j + 1))
        } else {
            None
        }
    } else {
        None
    }
}

/// A keyed entry at `i`: a word, separators, `=`, separators, a value.
pub open spec fn key_value_at(s: Seq<char>, i: int) -> Option<((Seq<char>, Value), int)>
    decreases s.len() - i, 1int,
{
    let w = word_end(s, i);
    if w > i {
        let k = skip_end(s, w);
        if 0 <= k < s.len() && s[k] == '=' {
            proof {
                lemma_word_end_bounds(s, i);
                lemma_skip_end_bounds(s, w);
                lemma_skip_end_bounds(s, k + 1);
            }
            match value_at(s, skip_end(s, k + 1)) {
                Some((v, e)) => Some(((s.subrange(i, w), v), e)),
                None => None,
            }
        } else {
            None
        }
    } else {
        None
    }
}

/// An entry at `i`: a keyed entry, else a value with an empty key.
pub open spec fn entry_at(s: Seq<char>, i: int) -> Option<((Seq<char>, Value), int)>
    decreases s.len() - i, 2int,
{
    match key_value_at(s, i) {
        Some(r) => Some(r),
        None => match value_at(s, i) {
            Some((v, e)) => Some(((Seq::empty(), v), e)),
            None => None,
        },
    }
}

/// The entries read from `i` on, each preceded by separators, and the position
/// after the separators that follow the last of them. An entry always reads at
/// least one character and never reads past the end; the bound on `j` states
/// this where the recursion needs it.
pub open spec fn entries_at(s: Seq<char>, i: int) -> (Entries, int)
    decreases s.len() - i, 3int,
{
    let k = skip_end(s, i);
    proof {
        lemma_skip_end_bounds(s, i);
    }
    match entry_at(s, k) {
        Some((e, j)) => if i < j <= s.len() {
            let (rest, end) = entries_at(s, j);
            (seq![e] + rest, end)
        } else {
            (Seq::empty(), k)
        },
        None => (Seq::empty(), k),
    }
}

/// The document that a whole text holds, if it is well formed.
pub open spec fn document(s: Seq<char>) -> Option<Entries> {
    let (es, end) = entries_at(s, 0);
    if end == s.len() {
        Some(es)
    } else {
        None
    }
}

pub proof fn lemma_skip_end_bounds(s: Seq<char>, i: int)
    ensures
        i <= skip_end(s, i),
        0 <= i <= s.len() ==> skip_end(s, i) <= s.len(),
        !(0 <= i <= s.len()) ==> skip_end(s, i) == i,
    decreases s.len() - i, 0int,
{
    if 0 <= i < s.len() && is_blank(s[i]) {
        lemma_skip_end_bounds(s, i + 1);
    } else if 0 <= i < s.len() && s[i] == '#' {
        lemma_comment_end_bounds(s, i + 1);
    }
}

pub proof fn lemma_comment_end_bounds(s: Seq<char>, i: int)
    requires
        0 <= i <= s.len(),
    ensures
        i <= comment_end(s, i) <= s.len(),
    decreases s.len() - i, 1int,
{
    if 0 <= i < s.len() && s[i] != '\n' {
        lemma_comment_end_bounds(s, i + 1);
    } else {
        lemma_skip_end_bounds(s, i);
    }
}

pub proof fn lemma_word_end_bounds(s: Seq<char>, i: int)
    ensures
        i <= word_end(s, i),
        0 <= i <= s.len() ==> word_end(s, i) <= s.len(),
        !(0 <= i <= s.len()) ==> word_end(s, i) == i,
    decreases s.len() - i,
{
    if 0 <= i < s.len() && is_word_char(s[i]) {
        lemma_word_end_bounds(s, i + 1);
    }
}

} // verus!
