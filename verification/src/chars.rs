//! Character-sequence helpers shared by the text converters.

use vstd::prelude::*;
use vstd::std_specs::iter::IteratorSpec;

verus! {

broadcast use vstd::string::group_string_axioms;

/// `String::push` appends one character.
pub assume_specification[ String::push ](s: &mut String, ch: char)
    ensures
        final(s)@ == old(s)@.push(ch),
;

/// The characters of `s`, in order.
pub fn to_chars(s: &str) -> (v: Vec<char>)
    ensures
        v@ == s@,
{
    let mut v: Vec<char> = Vec::new();
    for c in it: s.chars()
        invariant
            it.seq() == s@,
            v@ == it.seq().take(it.index()),
    {
        v.push(c);
    }
    v
}

/// The string made of the characters of `v`.
pub fn from_chars(v: &Vec<char>) -> (s: String)
    ensures
        s@ == v@,
{
    let mut s = String::new();
    let mut i: usize = 0;
    while i < v.len()
        invariant
            i <= v.len(),
            s@ == v@.take(i as int),
        decreases v.len() - i,
    {
        s.push(v[i]);
        i += 1;
        assert(v@.take(i as int) == v@.take(i - 1).push(v@[i - 1]));
    }
    assert(v@.take(v.len() as int) == v@);
    s
}


/// `pat` occurs in `s` at position `i`.
pub open spec fn matches_at(s: Seq<char>, pat: Seq<char>, i: int) -> bool {
    0 <= i && i + pat.len() <= s.len() && s.subrange(i, i + pat.len()) == pat
}

/// The position of the first occurrence of `pat` in `s`.
pub open spec fn find(s: Seq<char>, pat: Seq<char>) -> Option<int>
    decreases s.len(),
{
    if s.len() < pat.len() {
        None
    } else if s.take(pat.len() as int) == pat {
        Some(0)
    } else if s.len() == 0 {
        None
    } else {
        match find(s.drop_first(), pat) {
            Some(i) => Some(i + 1),
            None => None,
        }
    }
}

/// What `find` returns is the first occurrence.
pub proof fn lemma_find_is_first(s: Seq<char>, pat: Seq<char>)
    ensures
        match find(s, pat) {
            Some(i) => matches_at(s, pat, i) && forall|j: int| 0 <= j < i ==> !matches_at(s, pat, j),
            None => forall|j: int| !matches_at(s, pat, j),
        },
    decreases s.len(),
{
    if s.len() < pat.len() {
    } else if s.take(pat.len() as int) == pat {
        assert(s.subrange(0, pat.len() as int) == s.take(pat.len() as int));
    } else if s.len() == 0 {
        assert(pat.len() == 0);
        assert(s.take(0) == pat);
    } else {
        let t = s.drop_first();
        lemma_find_is_first(t, pat);
        assert(!matches_at(s, pat, 0)) by {
            assert(s.subrange(0, pat.len() as int) == s.take(pat.len() as int));
        }
        assert forall|j: int| 1 <= j && matches_at(s, pat, j) implies matches_at(t, pat, j - 1) by {
            assert(t.subrange(j - 1, j - 1 + pat.len()) == s.subrange(j, j + pat.len()));
        }
        assert forall|j: int| 1 <= j && matches_at(t, pat, j - 1) implies matches_at(s, pat, j) by {
            assert(t.subrange(j - 1, j - 1 + pat.len()) == s.subrange(j, j + pat.len()));
        }
        match find(t, pat) {
            Some(i) => {
                assert(matches_at(t, pat, i));
                assert(matches_at(s, pat, i + 1));
            },
            None => {
                assert forall|j: int| !matches_at(s, pat, j) by {
                    if j >= 1 && matches_at(s, pat, j) {
                        assert(matches_at(t, pat, j - 1));
                    }
                }
            },
        }
    }
}

/// `find` is determined by where `pat` occurs.
pub proof fn lemma_find_unique(s: Seq<char>, pat: Seq<char>, i: int)
    requires
        matches_at(s, pat, i),
        forall|j: int| 0 <= j < i ==> !matches_at(s, pat, j),
    ensures
        find(s, pat) == Some(i),
{
    lemma_find_is_first(s, pat);
    match find(s, pat) {
        Some(k) => {
            if k < i {
                assert(!matches_at(s, pat, k));
            } else if k > i {
                assert(!matches_at(s, pat, i));
            }
        },
        None => {
            assert(!matches_at(s, pat, i));
        },
    }
}

pub proof fn lemma_find_none(s: Seq<char>, pat: Seq<char>)
    requires
        forall|j: int| !matches_at(s, pat, j),
    ensures
        find(s, pat) is None,
{
    lemma_find_is_first(s, pat);
}

/// Whether `pat` occurs in `s` at `i` (which must leave room for it).
fn matches_here(s: &Vec<char>, pat: &Vec<char>, i: usize) -> (r: bool)
    requires
        i + pat@.len() <= s@.len(),
    ensures
        r == matches_at(s@, pat@, i as int),
{
    let n = s.len();
    let mut k: usize = 0;
    while k < pat.len()
        invariant
            n == s@.len(),
            i + pat@.len() <= s@.len(),
            k <= pat@.len(),
            forall|j: int| 0 <= j < k ==> s@[i + j] == pat@[j],
        decreases pat.len() - k,
    {
        if s[i + k] != pat[k] {
            assert(s@.subrange(i as int, i + pat@.len())[k as int] != pat@[k as int]);
            return false;
        }
        k = k + 1;
    }
    assert(s@.subrange(i as int, i + pat@.len()) == pat@);
    true
}

/// The first occurrence of `pat` at or after `from`.
pub fn find_from(s: &Vec<char>, pat: &Vec<char>, from: usize) -> (r: Option<usize>)
    requires
        from <= s@.len(),
        pat@.len() > 0,
    ensures
        match find(s@.skip(from as int), pat@) {
            Some(i) => r matches Some(j) && j == from + i && matches_at(s@, pat@, j as int),
            None => r is None,
        },
{
    let ghost t = s@.skip(from as int);
    let mut i: usize = from;
    if s.len() < pat.len() {
        proof {
            assert forall|j: int| !matches_at(t, pat@, j) by {}
            lemma_find_none(t, pat@);
        }
        return None;
    }
    let last = s.len() - pat.len();
    while i <= last
        invariant
            from <= i,
            pat@.len() > 0,
            s@.len() <= usize::MAX,
            last == s@.len() - pat@.len(),
            t == s@.skip(from as int),
            forall|j: int| 0 <= j < i - from ==> !matches_at(t, pat@, j),
        decreases last + 1 - i,
    {
        if matches_here(s, pat, i) {
            proof {
                assert(t.subrange(i - from, i - from + pat@.len()) == s@.subrange(
                    i as int,
                    i + pat@.len(),
                ));
                lemma_find_unique(t, pat@, i - from);
            }
            return Some(i);
        }
        proof {
            assert(t.subrange(i - from, i - from + pat@.len()) == s@.subrange(
                i as int,
                i + pat@.len(),
            ));
        }
        i = i + 1;
    }
    proof {
        assert forall|j: int| !matches_at(t, pat@, j) by {
            if 0 <= j < i - from {
            }
        }
        lemma_find_none(t, pat@);
    }
    None
}

/// Every occurrence of `pat` in `s`, left to right and without overlap,
/// replaced by `rep` (as `str::replace` does for a non-empty pattern).
pub open spec fn replace_all(s: Seq<char>, pat: Seq<char>, rep: Seq<char>) -> Seq<char>
    decreases s.len(),
{
    if pat.len() == 0 {
        s
    } else {
        match find(s, pat) {
            None => s,
            Some(i) => if 0 <= i && i + pat.len() <= s.len() {
                s.take(i) + rep + replace_all(s.skip(i + pat.len()), pat, rep)
            } else {
                s
            },
        }
    }
}

/// Append `v[from..to]` to `out`.
pub fn push_range(out: &mut Vec<char>, v: &Vec<char>, from: usize, to: usize)
    requires
        from <= to <= v@.len(),
    ensures
        final(out)@ == old(out)@ + v@.subrange(from as int, to as int),
{
    let mut i = from;
    while i < to
        invariant
            from <= i <= to <= v@.len(),
            out@ == old(out)@ + v@.subrange(from as int, i as int),
        decreases to - i,
    {
        out.push(v[i]);
        i = i + 1;
        assert(v@.subrange(from as int, i as int) == v@.subrange(from as int, i - 1).push(
            v@[i - 1],
        ));
    }
}

/// Append all of `v` to `out`.
pub fn push_all(out: &mut Vec<char>, v: &Vec<char>)
    ensures
        final(out)@ == old(out)@ + v@,
{
    push_range(out, v, 0, v.len());
    assert(v@.subrange(0, v@.len() as int) == v@);
}

/// `s` with every occurrence of `pat` replaced by `rep`.
pub fn replace(s: &Vec<char>, pat: &Vec<char>, rep: &Vec<char>) -> (r: Vec<char>)
    requires
        pat@.len() > 0,
    ensures
        r@ == replace_all(s@, pat@, rep@),
{
    let mut out: Vec<char> = Vec::new();
    let mut pos: usize = 0;
    assert(s@.skip(0) == s@);
    loop
        invariant
            pat@.len() > 0,
            pos <= s@.len(),
            replace_all(s@, pat@, rep@) == out@ + replace_all(s@.skip(pos as int), pat@, rep@),
        decreases s@.len() - pos,
    {
        let ghost t = s@.skip(pos as int);
        let n = s.len();
        match find_from(s, pat, pos) {
            None => {
                push_range(&mut out, s, pos, s.len());
                assert(s@.subrange(pos as int, s@.len() as int) == t);
                return out;
            },
            Some(j) => {
                proof {
                    lemma_find_is_first(t, pat@);
                    let i = j - pos;
                    assert(t.take(i) == s@.subrange(pos as int, j as int));
                    assert(t.skip(i + pat@.len()) == s@.skip(j + pat@.len()));
                }
                push_range(&mut out, s, pos, j);
                push_all(&mut out, rep);
                pos = j + pat.len();
            },
        }
    }
}

/// The decimal digit for `d < 10`.
pub open spec fn digit(d: nat) -> char {
    if d == 0 {
        '0'
    } else if d == 1 {
        '1'
    } else if d == 2 {
        '2'
    } else if d == 3 {
        '3'
    } else if d == 4 {
        '4'
    } else if d == 5 {
        '5'
    } else if d == 6 {
        '6'
    } else if d == 7 {
        '7'
    } else if d == 8 {
        '8'
    } else {
        '9'
    }
}

/// The decimal representation of `n`, without leading zeros.
pub open spec fn decimal(n: nat) -> Seq<char>
    decreases n,
{
    if n < 10 {
        seq![digit(n)]
    } else {
        decimal(n / 10).push(digit(n % 10))
    }
}

fn digit_char(d: u64) -> (c: char)
    requires
        d < 10,
    ensures
        c == digit(d as nat),
{
    if d == 0 {
        '0'
    } else if d == 1 {
        '1'
    } else if d == 2 {
        '2'
    } else if d == 3 {
        '3'
    } else if d == 4 {
        '4'
    } else if d == 5 {
        '5'
    } else if d == 6 {
        '6'
    } else if d == 7 {
        '7'
    } else if d == 8 {
        '8'
    } else {
        '9'
    }
}

/// Append the decimal representation of `n`.
pub fn push_decimal(out: &mut Vec<char>, n: u64)
    ensures
        final(out)@ == old(out)@ + decimal(n as nat),
    decreases n,
{
    if n >= 10 {
        push_decimal(out, n / 10);
    }
    out.push(digit_char(n % 10));
    assert(old(out)@ + decimal(n as nat) == (if n >= 10 {
        old(out)@ + decimal((n / 10) as nat)
    } else {
        old(out)@
    }).push(digit((n % 10) as nat)));
}

/// The concatenation of `f(c)` over the characters `c` of `s`.
pub open spec fn map_chars(s: Seq<char>, f: spec_fn(char) -> Seq<char>) -> Seq<char>
    decreases s.len(),
{
    if s.len() == 0 {
        Seq::empty()
    } else {
        map_chars(s.drop_last(), f) + f(s.last())
    }
}

pub proof fn lemma_map_chars_step(s: Seq<char>, f: spec_fn(char) -> Seq<char>, i: int)
    requires
        0 <= i < s.len(),
    ensures
        map_chars(s.take(i + 1), f) == map_chars(s.take(i), f) + f(s[i]),
{
    assert(s.take(i + 1).drop_last() == s.take(i));
}

} // verus!
