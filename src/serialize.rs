//! Writing a document back to text.
use vstd::prelude::*;
use crate::chars::{chars_of, push_char};
use crate::grammar::Entries;
use crate::value::{CwValue, CwTable, Value};

verus! {

/// A string is written quoted when it is empty or holds a backslash or a space.
pub open spec fn needs_quotes(s: Seq<char>) -> bool {
    s.len() == 0 || s.contains('\\') || s.contains(' ')
}

/// `s` with every backslash doubled.
pub open spec fn double_backslashes(s: Seq<char>) -> Seq<char>
    decreases s.len(),
{
    if s.len() == 0 {
        Seq::empty()
    } else {
        double_backslashes(s.drop_last()) + if s.last() == '\\' {
            seq!['\\', '\\']
        } else {
            seq![s.last()]
        }
    }
}

/// `s` in quotes, backslashes doubled.
pub open spec fn quoted_text(s: Seq<char>) -> Seq<char> {
    seq!['"'] + double_backslashes(s) + seq!['"']
}

/// How a key or a string value is written.
pub open spec fn escaped_text(s: Seq<char>) -> Seq<char> {
    if needs_quotes(s) {
        quoted_text(s)
    } else {
        s
    }
}

/// What stands before the value of an entry: nothing for a keyless one,
/// else the key and ` = `.
pub open spec fn key_text(k: Seq<char>) -> Seq<char> {
    if k.len() == 0 {
        Seq::empty()
    } else {
        escaped_text(k) + seq![' ', '=', ' ']
    }
}

/// The text of a value, ending in a newline.
pub open spec fn value_text(v: Value) -> Seq<char>
    decreases v,
{
    match v {
        Value::Str(t) => escaped_text(t) + seq!['\n'],
        Value::Table(es) => seq!['{', '\n'] + table_text(es) + seq!['}', '\n'],
        Value::Array(vs) => seq!['{', '\n'] + array_text(vs) + seq!['}', '\n'],
    }
}

/// The text of a table's entries, one after another.
pub open spec fn table_text(es: Entries) -> Seq<char>
    decreases es,
{
    if es.len() == 0 {
        Seq::empty()
    } else {
        proof {
            assert(decreases_to!(es => es[es.len() - 1]));
        }
        table_text(es.drop_last()) + key_text(es.last().0) + value_text(es.last().1)
    }
}

/// The text of an array's values, one after another, each as a keyless entry.
pub open spec fn array_text(vs: Seq<Value>) -> Seq<char>
    decreases vs,
{
    if vs.len() == 0 {
        Seq::empty()
    } else {
        proof {
            assert(decreases_to!(vs => vs[vs.len() - 1]));
        }
        array_text(vs.drop_last()) + value_text(vs.last())
    }
}

/// `text` in quotes, with every backslash doubled and nothing else escaped.
pub fn escape_str(text: &str) -> (r: String)
    ensures
        r@ == quoted_text(text@),
{
    let s = chars_of(text);
    let mut target = String::new();
    push_char(&mut target, '"');
    let mut n: usize = 0;
    while n < s.len()
        invariant
            n <= s.len(),
            s@ == text@,
            target@ == seq!['"'] + double_backslashes(s@.take(n as int)),
        decreases s.len() - n,
    {
        let c = s[n];
        let ghost done = s@.take(n as int);
        if c == '\\' {
            push_char(&mut target, '\\');
            push_char(&mut target, '\\');
        } else {
            push_char(&mut target, c);
        }
        proof {
            let next = s@.take(n + 1);
            assert(next.drop_last() =~= done);
            assert(target@ =~= seq!['"'] + double_backslashes(next));
        }
        n = n + 1;
    }
    assert(s@.take(n as int) =~= text@);
    push_char(&mut target, '"');
    target
}

/// `text` as a key or string value is written: quoted when it is empty or
/// holds a backslash or a space, else as it is.
pub fn escape_str_if_needed(text: &str) -> (r: String)
    ensures
        r@ == escaped_text(text@),
{
    let s = chars_of(text);
    let mut special = false;
    let mut n: usize = 0;
    while n < s.len()
        invariant
            n <= s.len(),
            s@ == text@,
            special <==> (s@.take(n as int).contains('\\') || s@.take(n as int).contains(' ')),
        decreases s.len() - n,
    {
        let c = s[n];
        let ghost done = s@.take(n as int);
        if c == '\\' || c == ' ' {
            special = true;
        }
        proof {
            let next = s@.take(n + 1);
            assert(next =~= done.push(c));
            if done.contains('\\') {
                let n = choose|n: int| 0 <= n < done.len() && done[n] == '\\';
                assert(next[n] == '\\');
            }
            if done.contains(' ') {
                let n = choose|n: int| 0 <= n < done.len() && done[n] == ' ';
                assert(next[n] == ' ');
            }
            if next.contains('\\') && !(c == '\\') {
                let n = choose|n: int| 0 <= n < next.len() && next[n] == '\\';
                assert(done[n] == '\\');
            }
            if next.contains(' ') && !(c == ' ') {
                let n = choose|n: int| 0 <= n < next.len() && next[n] == ' ';
                assert(done[n] == ' ');
            }
            if c == '\\' {
                assert(next[done.len() as int] == c);
            }
            if c == ' ' {
                assert(next[done.len() as int] == c);
            }
        }
        n = n + 1;
    }
    assert(s@.take(n as int) =~= text@);
    if text.is_empty() || special {
        escape_str(text)
    } else {
        text.to_owned()
    }
}

impl CwValue {
    /// Appends the text of this value to `target`.
    pub fn serialize_to(&self, target: &mut String)
        ensures
            final(target)@ == old(target)@ + value_text(self@),
        decreases self,
    {
        match self {
            CwValue::String(v) => {
                let e = escape_str_if_needed(v.as_str());
                target.append(e.as_str());
                push_char(target, '\n');
                assert(final(target)@ =~= old(target)@ + value_text(self@));
            },
            CwValue::Table(t) => {
                push_char(target, '{');
                push_char(target, '\n');
                let inner = t.serialize();
                target.append(inner.as_str());
                push_char(target, '}');
                push_char(target, '\n');
                assert(final(target)@ =~= old(target)@ + value_text(self@));
            },
            CwValue::Array(a) => {
                push_char(target, '{');
                push_char(target, '\n');
                let ghost start = target@;
                let ghost vs = match self@ {
                    Value::Array(vs) => vs,
                    _ => Seq::empty(),
                };
                assert(vs.len() == a.len());
                assert(forall|i: int| 0 <= i < a.len() ==> vs[i] == (#[trigger] a@[i])@);
                let mut n: usize = 0;
                while n < a.len()
                    invariant
                        *self == CwValue::Array(*a),
                        n <= a.len(),
                        vs.len() == a.len(),
                        forall|i: int| 0 <= i < a.len() ==> vs[i] == (#[trigger] a@[i])@,
                        target@ == start + array_text(vs.take(n as int)),
                    decreases a.len() - n,
                {
                    proof {
                        let v: CwValue = *self;
                        let av: Vec<CwValue> = *a;
                        assert(v == CwValue::Array(av));
                        assert(decreases_to!(v => v->Array_0));
                        assert(decreases_to!(v => v->Array_0@[n as int]));
                    }
                    a[n].serialize_to(target);
                    assert(vs.take(n + 1).drop_last() =~= vs.take(n as int));
                    n = n + 1;
                }
                assert(vs.take(n as int) =~= vs);
                push_char(target, '}');
                push_char(target, '\n');
                assert(final(target)@ =~= old(target)@ + value_text(self@));
            },
        }
    }
}

impl CwTable {
    /// The text of this table: each entry in order, the key and ` = ` first
    /// unless it is keyless, then its value.
    pub fn serialize(&self) -> (r: String)
        ensures
            r@ == table_text(self@),
        decreases self,
    {
        let mut target = String::new();
        let mut n: usize = 0;
        while n < self.values.len()
            invariant
                n <= self.values.len(),
                target@ == table_text(self@.take(n as int)),
            decreases self.values.len() - n,
        {
            let kv = &self.values[n];
            if !kv.key.as_str().is_empty() {
                let k = escape_str_if_needed(kv.key.as_str());
                target.append(k.as_str());
                push_char(&mut target, ' ');
                push_char(&mut target, '=');
                push_char(&mut target, ' ');
            }
            kv.value.serialize_to(&mut target);
            assert(self@.take(n + 1).drop_last() =~= self@.take(n as int));
            n = n + 1;
        }
        assert(self@.take(n as int) =~= self@);
        target
    }
}

} // verus!
