//! Searching and splitting file names.
use vstd::prelude::*;
use crate::chars::{chars_of, push_char};

verus! {

/// Whether `n` occurs in `h` as a run of consecutive characters.
pub open spec fn has_infix(h: Seq<char>, n: Seq<char>) -> bool {
    exists|i: int| 0 <= i && i + n.len() <= h.len() && #[trigger] h.subrange(i, i + n.len()) == n
}

/// Whether `h` starts with `n`.
pub open spec fn has_prefix(h: Seq<char>, n: Seq<char>) -> bool {
    n.len() <= h.len() && h.subrange(0, n.len() as int) == n
}

fn matches_at(h: &Vec<char>, n: &Vec<char>, i: usize) -> (r: bool)
    requires
        i + n.len() <= h.len(),
    ensures
        r == (h@.subrange(i as int, i + n.len()) == n@),
{
    let mut j: usize = 0;
    while j < n.len()
        invariant
            i + n.len() <= h.len(),
            j <= n.len(),
            forall|m: int| 0 <= m < j ==> h@[i + m] == n@[m],
        decreases n.len() - j,
    {
        if h[i + j] != n[j] {
            assert(h@.subrange(i as int, i + n.len())[j as int] != n@[j as int]);
            return false;
        }
        j = j + 1;
    }
    assert(h@.subrange(i as int, i + n.len()) =~= n@);
    true
}

/// Whether `needle` occurs in `hay`.
pub fn contains_text(hay: &str, needle: &str) -> (r: bool)
    ensures
        r == has_infix(hay@, needle@),
{
    let h = chars_of(hay);
    let n = chars_of(needle);
    if n.len() > h.len() {
        return false;
    }
    let last = h.len() - n.len();
    let mut i: usize = 0;
    loop
        invariant
            h@ == hay@,
            n@ == needle@,
            n.len() <= h.len(),
            last == h.len() - n.len(),
            i <= last,
            forall|j: int| 0 <= j < i ==> #[trigger] h@.subrange(j, j + n.len()) != n@,
        decreases last - i,
    {
        if matches_at(&h, &n, i) {
            return true;
        }
        if i == last {
            return false;
        }
        i = i + 1;
    }
}

/// Whether `hay` starts with `prefix`.
pub fn starts_with_text(hay: &str, prefix: &str) -> (r: bool)
    ensures
        r == has_prefix(hay@, prefix@),
{
    let h = chars_of(hay);
    let n = chars_of(prefix);
    if n.len() > h.len() {
        return false;
    }
    matches_at(&h, &n, 0)
}

/// A character at which a file name is cut into pieces.
pub open spec fn is_name_sep(c: char) -> bool {
    c == '/' || c == ' ' || c == '-' || c == '.'
}

/// A piece worth keeping: not empty, and not the extension `txt`.
pub open spec fn keep_piece(p: Seq<char>) -> bool {
    p.len() > 0 && p != "txt"@
}

/// The kept pieces of `s` so far, and the piece being read.
pub open spec fn pieces_state(s: Seq<char>) -> (Seq<Seq<char>>, Seq<char>)
    decreases s.len(),
{
    if s.len() == 0 {
        (Seq::empty(), Seq::empty())
    } else {
        let (done, cur) = pieces_state(s.drop_last());
        if is_name_sep(s.last()) {
            (if keep_piece(cur) { done.push(cur) } else { done }, Seq::empty())
        } else {
            (done, cur.push(s.last()))
        }
    }
}

/// The pieces of `s` between separators, left to right, without the empty
/// ones and those that read `txt`.
pub open spec fn name_pieces(s: Seq<char>) -> Seq<Seq<char>> {
    let (done, cur) = pieces_state(s);
    if keep_piece(cur) {
        done.push(cur)
    } else {
        done
    }
}

/// Pieces joined by single spaces.
pub open spec fn join_words(ps: Seq<Seq<char>>) -> Seq<char>
    decreases ps.len(),
{
    if ps.len() == 0 {
        Seq::empty()
    } else if ps.len() == 1 {
        ps[0]
    } else {
        join_words(ps.drop_last()) + seq![' '] + ps.last()
    }
}

/// The name that a country's file path gives it: the kept pieces of the path
/// after the first, joined by spaces; none when there is no second piece.
pub open spec fn country_name_of(path: Seq<char>) -> Option<Seq<char>> {
    let ps = name_pieces(path);
    if ps.len() < 2 {
        None
    } else {
        Some(join_words(ps.drop_first()))
    }
}

pub open spec fn views_of(v: Seq<String>) -> Seq<Seq<char>> {
    v.map_values(|x: String| x@)
}

/// The name that the country file path `path` gives its country.
pub fn country_name(path: &str) -> (r: Option<String>)
    ensures
        match r {
            Some(n) => country_name_of(path@) == Some(n@),
            None => country_name_of(path@) is None,
        },
{
    let s = chars_of(path);
    let txt = "txt".to_owned();
    let mut done: Vec<String> = Vec::new();
    let mut cur = String::new();
    let mut n: usize = 0;
    while n < s.len()
        invariant
            n <= s.len(),
            s@ == path@,
            txt@ == "txt"@,
            pieces_state(s@.take(n as int)) == (views_of(done@), cur@),
        decreases s.len() - n,
    {
        let c = s[n];
        assert(s@.take(n + 1).drop_last() =~= s@.take(n as int));
        if c == '/' || c == ' ' || c == '-' || c == '.' {
            if !cur.as_str().is_empty() && !(cur == txt) {
                let ghost d0 = views_of(done@);
                done.push(cur);
                assert(views_of(done@) =~= d0.push(cur@));
            }
            cur = String::new();
        } else {
            push_char(&mut cur, c);
        }
        n = n + 1;
    }
    assert(s@.take(n as int) =~= s@);
    if !cur.as_str().is_empty() && !(cur == txt) {
        let ghost d0 = views_of(done@);
        done.push(cur);
        assert(views_of(done@) =~= d0.push(cur@));
    }
    if done.len() < 2 {
        return None;
    }
    let ghost ps = views_of(done@).drop_first();
    let mut name = String::new();
    name.append(done[1].as_str());
    assert(name@ == join_words(ps.take(1)));
    let mut k: usize = 2;
    while k < done.len()
        invariant
            2 <= k <= done.len(),
            ps == views_of(done@).drop_first(),
            name@ == join_words(ps.take(k - 1)),
        decreases done.len() - k,
    {
        push_char(&mut name, ' ');
        name.append(done[k].as_str());
        assert(ps.take(k as int).drop_last() =~= ps.take(k - 1));
        k = k + 1;
    }
    assert(ps.take(k - 1) =~= ps);
    Some(name)
}

} // verus!
