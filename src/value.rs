//! The document tree: strings, tables of entries, and arrays.
use vstd::prelude::*;
use crate::chars::push_char;
use crate::grammar::{document, Entries};
use crate::parser::{parse, ParseError};

verus! {

/// The mathematical form of a value.
pub enum Value {
    Str(Seq<char>),
    Table(Seq<(Seq<char>, Value)>),
    Array(Seq<Value>),
}

/// A value of a document.
#[derive(Debug)]
pub enum CwValue {
    String(String),
    Table(CwTable),
    Array(Vec<CwValue>),
}

/// One entry of a table; an empty key marks a keyless entry.
#[derive(Debug)]
pub struct CwKeyValue {
    pub key: String,
    pub value: CwValue,
}

/// An ordered sequence of entries; keys may repeat.
#[derive(Debug)]
pub struct CwTable {
    pub values: Vec<CwKeyValue>,
}

impl View for CwValue {
    type V = Value;

    open spec fn view(&self) -> Value
        decreases self,
    {
        match self {
            CwValue::String(s) => Value::Str(s@),
            CwValue::Table(t) => Value::Table(t.entries_view()),
            CwValue::Array(a) => Value::Array(
                Seq::new(
                    a.len() as nat,
                    |i: int|
                        if 0 <= i < a.len() {
                            a@[i]@
                        } else {
                            Value::Array(Seq::empty())
                        },
                ),
            ),
        }
    }
}

impl CwTable {
    /// The entries as key/value pairs.
    pub open spec fn entries_view(&self) -> Seq<(Seq<char>, Value)>
        decreases self,
    {
        Seq::new(
            self.values.len() as nat,
            |i: int|
                if 0 <= i < self.values.len() {
                    (self.values@[i].key@, self.values@[i].value@)
                } else {
                    (Seq::empty(), Value::Array(Seq::empty()))
                },
        )
    }
}

impl View for CwTable {
    type V = Seq<(Seq<char>, Value)>;

    open spec fn view(&self) -> Seq<(Seq<char>, Value)> {
        self.entries_view()
    }
}

/// The position of the first entry keyed `k` at or after `i`, or the length
/// when none is.
pub open spec fn index_from(es: Entries, k: Seq<char>, i: int) -> int
    decreases es.len() - i,
{
    if i < 0 || i >= es.len() {
        es.len() as int
    } else if es[i].0 == k {
        i
    } else {
        index_from(es, k, i + 1)
    }
}

pub proof fn lemma_index_from(es: Entries, k: Seq<char>, i: int)
    requires
        0 <= i <= es.len(),
    ensures
        i <= index_from(es, k, i) <= es.len(),
        index_from(es, k, i) < es.len() ==> es[index_from(es, k, i)].0 == k,
        forall|j: int| i <= j < index_from(es, k, i) ==> (#[trigger] es[j]).0 != k,
    decreases es.len() - i,
{
    if i < es.len() && es[i].0 != k {
        lemma_index_from(es, k, i + 1);
    }
}

/// The position of the first entry keyed `k`, or the length when none is.
pub open spec fn key_index(es: Entries, k: Seq<char>) -> int {
    index_from(es, k, 0)
}

/// The value of the first entry keyed `k`.
pub open spec fn lookup(es: Entries, k: Seq<char>) -> Option<Value> {
    let i = key_index(es, k);
    if i < es.len() {
        Some(es[i].1)
    } else {
        None
    }
}

/// The entries after `set(k, v)`: the first entry keyed `k` gets the value
/// `v`; with no such entry, one is appended.
pub open spec fn set_entries(es: Entries, k: Seq<char>, v: Value) -> Entries {
    let i = key_index(es, k);
    if i < es.len() {
        es.update(i, (k, v))
    } else {
        es.push((k, v))
    }
}

/// The decimal digits of `n`, without leading zeros.
pub open spec fn decimal(n: nat) -> Seq<char>
    decreases n,
{
    if n < 10 {
        seq![digit(n)]
    } else {
        decimal(n / 10) + seq![digit(n % 10)]
    }
}

pub open spec fn digit(n: nat) -> char {
    if n == 0 { '0' } else if n == 1 { '1' } else if n == 2 { '2' } else if n == 3 { '3' }
    else if n == 4 { '4' } else if n == 5 { '5' } else if n == 6 { '6' } else if n == 7 { '7' }
    else if n == 8 { '8' } else { '9' }
}

fn digit_char(n: u8) -> (r: char)
    requires
        n < 10,
    ensures
        r == digit(n as nat),
{
    if n == 0 { '0' } else if n == 1 { '1' } else if n == 2 { '2' } else if n == 3 { '3' }
    else if n == 4 { '4' } else if n == 5 { '5' } else if n == 6 { '6' } else if n == 7 { '7' }
    else if n == 8 { '8' } else { '9' }
}

/// `n` written in decimal.
fn decimal_string(n: u8) -> (r: String)
    ensures
        r@ == decimal(n as nat),
{
    let mut s = String::new();
    if n >= 100 {
        push_char(&mut s, digit_char(n / 100));
    }
    if n >= 10 {
        push_char(&mut s, digit_char((n / 10) % 10));
    }
    push_char(&mut s, digit_char(n % 10));
    proof {
        let m = n as nat;
        if m >= 100 {
            assert(decimal(m / 10) == decimal(m / 100) + seq![digit((m / 10) % 10)]);
            assert(decimal(m / 100) == seq![digit(m / 100)]);
        } else if m >= 10 {
            assert(decimal(m / 10) == seq![digit(m / 10)]);
        }
        assert(s@ =~= decimal(m));
    }
    s
}

impl CwValue {
    /// A string value.
    pub fn from_str(value: &str) -> (r: Self)
        ensures
            r@ == Value::Str(value@),
    {
        CwValue::String(value.to_owned())
    }

    /// A color: an array of its three components in decimal.
    pub fn from_color(r: u8, g: u8, b: u8) -> (v: Self)
        ensures
            v@ == Value::Array(
                seq![
                    Value::Str(decimal(r as nat)),
                    Value::Str(decimal(g as nat)),
                    Value::Str(decimal(b as nat)),
                ],
            ),
    {
        let parts = vec![
            CwValue::String(decimal_string(r)),
            CwValue::String(decimal_string(g)),
            CwValue::String(decimal_string(b)),
        ];
        assert(parts@.len() == 3);
        assert(parts@[0]@ == Value::Str(decimal(r as nat)));
        assert(parts@[1]@ == Value::Str(decimal(g as nat)));
        assert(parts@[2]@ == Value::Str(decimal(b as nat)));
        let v = CwValue::Array(parts);
        assert(v@->Array_0 =~= seq![
            Value::Str(decimal(r as nat)),
            Value::Str(decimal(g as nat)),
            Value::Str(decimal(b as nat)),
        ]);
        v
    }

    /// The text, when this is a string.
    pub fn as_string(&self) -> (r: Option<&String>)
        ensures
            match self {
                CwValue::String(s) => r == Some(s),
                _ => r is None,
            },
    {
        if let CwValue::String(val) = self {
            Some(val)
        } else {
            None
        }
    }

    /// The table, when this is a table.
    pub fn as_table(&self) -> (r: Option<&CwTable>)
        ensures
            match self {
                CwValue::Table(t) => r == Some(t),
                _ => r is None,
            },
    {
        if let CwValue::Table(val) = self {
            Some(val)
        } else {
            None
        }
    }

    /// The table, to change in place, when this is a table.
    pub fn as_table_mut(&mut self) -> (r: Option<&mut CwTable>)
        ensures
            match *old(self) {
                CwValue::Table(t) => r matches Some(m) && *m == t
                    && *final(self) == CwValue::Table(*final(m)),
                _ => r is None && *final(self) == *old(self),
            },
    {
        if let CwValue::Table(val) = self {
            Some(val)
        } else {
            None
        }
    }
}

impl CwValue {
    /// A copy of this value, independent of it.
    pub fn deep_copy(&self) -> (r: Self)
        ensures
            r@ == self@,
        decreases self,
    {
        match self {
            CwValue::String(s) => CwValue::String(s.clone()),
            CwValue::Table(t) => CwValue::Table(t.deep_copy()),
            CwValue::Array(a) => {
                let mut out: Vec<CwValue> = Vec::new();
                let mut n: usize = 0;
                while n < a.len()
                    invariant
                        *self == CwValue::Array(*a),
                        n <= a.len(),
                        out@.len() == n,
                        forall|m: int| 0 <= m < n ==> (#[trigger] out@[m])@ == a@[m]@,
                    decreases a.len() - n,
                {
                    proof {
                        let v: CwValue = *self;
                        assert(decreases_to!(v => v->Array_0@[n as int]));
                    }
                    out.push(a[n].deep_copy());
                    n = n + 1;
                }
                let r = CwValue::Array(out);
                assert(r@->Array_0 =~= self@->Array_0);
                r
            },
        }
    }
}

impl Clone for CwValue {
    fn clone(&self) -> Self {
        self.deep_copy()
    }
}

impl Clone for CwKeyValue {
    fn clone(&self) -> Self {
        CwKeyValue { key: self.key.clone(), value: self.value.deep_copy() }
    }
}

impl Clone for CwTable {
    fn clone(&self) -> Self {
        self.deep_copy()
    }
}

impl From<String> for CwValue {
    fn from(value: String) -> (r: Self)
        ensures
            r@ == Value::Str(value@),
    {
        CwValue::String(value)
    }
}

impl vstd::std_specs::convert::FromSpecImpl<String> for CwValue {
    open spec fn obeys_from_spec() -> bool {
        true
    }

    open spec fn from_spec(v: String) -> CwValue {
        CwValue::String(v)
    }
}

impl CwTable {
    /// An empty table.
    pub fn new() -> (r: Self)
        ensures
            r@ == Seq::<(Seq<char>, Value)>::empty(),
    {
        let r = CwTable { values: Vec::new() };
        assert(r@ =~= Seq::<(Seq<char>, Value)>::empty());
        r
    }

    /// A copy of this table, independent of it.
    pub fn deep_copy(&self) -> (r: Self)
        ensures
            r@ == self@,
        decreases self,
    {
        let mut out: Vec<CwKeyValue> = Vec::new();
        let mut n: usize = 0;
        while n < self.values.len()
            invariant
                n <= self.values.len(),
                out@.len() == n,
                forall|m: int|
                    0 <= m < n ==> (#[trigger] out@[m]).key@ == self.values@[m].key@
                        && out@[m].value@ == self.values@[m].value@,
            decreases self.values.len() - n,
        {
            proof {
                let t: CwTable = *self;
                assert(decreases_to!(t => t.values@[n as int].value));
            }
            let kv = &self.values[n];
            out.push(CwKeyValue { key: kv.key.clone(), value: kv.value.deep_copy() });
            n = n + 1;
        }
        let r = CwTable { values: out };
        assert(r@ =~= self@);
        r
    }

    /// Reads a whole text as a table.
    pub fn parse(text: &str) -> (r: Result<CwTable, ParseError>)
        ensures
            match r {
                Ok(t) => document(text@) == Some(t@),
                Err(_) => document(text@) is None,
            },
    {
        parse(text)
    }

    /// The position of the first entry keyed `key`, or the length.
    pub(crate) fn position(&self, key: &str) -> (r: usize)
        ensures
            r == key_index(self@, key@),
            r <= self.values.len(),
            r < self.values.len() ==> self.values@[r as int].key@ == key@,
    {
        proof {
            lemma_index_from(self@, key@, 0);
        }
        let k = key.to_owned();
        let mut n: usize = 0;
        while n < self.values.len()
            invariant
                n <= self.values.len(),
                k@ == key@,
                key_index(self@, key@) == index_from(self@, key@, n as int),
            decreases self.values.len() - n,
        {
            if self.values[n].key == k {
                return n;
            }
            n = n + 1;
        }
        n
    }

    /// The value of the first entry keyed `key`.
    pub fn get(&self, key: &str) -> (r: Option<&CwValue>)
        ensures
            match r {
                Some(v) => lookup(self@, key@) == Some(v@),
                None => lookup(self@, key@) is None,
            },
    {
        let n = self.position(key);
        if n < self.values.len() {
            Some(&self.values[n].value)
        } else {
            None
        }
    }

    /// The value of the first entry keyed `key`, to change in place.
    pub fn get_mut(&mut self, key: &str) -> (r: Option<&mut CwValue>)
        ensures
            match r {
                Some(v) => lookup(old(self)@, key@) == Some(v@) && final(self)@ == old(self)@.update(
                    key_index(old(self)@, key@),
                    (key@, final(v)@),
                ),
                None => lookup(old(self)@, key@) is None && *final(self) == *old(self),
            },
    {
        let n = self.position(key);
        if n < self.values.len() {
            Some(&mut self.values[n].value)
        } else {
            None
        }
    }

    /// Gives the first entry keyed `key` the value `value`, or appends such an
    /// entry when there is none.
    pub fn set(&mut self, key: &str, value: CwValue)
        ensures
            final(self)@ == set_entries(old(self)@, key@, value@),
    {
        let n = self.position(key);
        if n < self.values.len() {
            let ghost e = (key@, value@);
            self.values[n].value = value;
            assert(self@ =~= old(self)@.update(n as int, e));
        } else {
            self.add(key, value);
        }
    }

    /// Appends an entry, whether or not one with the same key is there.
    pub fn add(&mut self, key: &str, value: CwValue)
        ensures
            final(self)@ == old(self)@.push((key@, value@)),
    {
        let ghost e = (key@, value@);
        self.values.push(CwKeyValue { key: key.to_owned(), value: value });
        assert(self@ =~= old(self)@.push(e));
    }
}

} // verus!
