//! Verified string utilities: equality, lexicographic comparison,
//! case mapping through the standard library, substring search and
//! comma-splitting. These back the
//! provider-name normalization and the validator's record ordering.

use vstd::prelude::*;

verus! {

/// Character-wise string equality.
pub fn str_eq(a: &str, b: &str) -> (r: bool)
    ensures
        r == (a@ == b@),
{
    let an = a.unicode_len();
    let bn = b.unicode_len();
    if an != bn {
        return false;
    }
    let mut i: usize = 0;
    while i < an
        invariant
            0 <= i <= an,
            an == a@.len(),
            bn == b@.len(),
            an == bn,
            forall|k: int| 0 <= k < i ==> a@[k] == b@[k],
        decreases an - i,
    {
        if a.get_char(i) != b.get_char(i) {
            assert(a@ != b@);
            return false;
        }
        i += 1;
    }
    assert(a@ =~= b@);
    true
}

/// Strict lexicographic order on character sequences, comparing
/// characters by code point.
pub open spec fn lex_lt(a: Seq<char>, b: Seq<char>) -> bool
    decreases a.len(),
{
    if b.len() == 0 {
        false
    } else if a.len() == 0 {
        true
    } else if (a[0] as u32) < (b[0] as u32) {
        true
    } else if a[0] == b[0] {
        lex_lt(a.drop_first(), b.drop_first())
    } else {
        false
    }
}

pub proof fn lemma_lex_lt_skip(a: Seq<char>, b: Seq<char>, i: int)
    requires
        0 <= i <= a.len(),
        i <= b.len(),
        forall|k: int| 0 <= k < i ==> a[k] == b[k],
    ensures
        lex_lt(a, b) == lex_lt(a.skip(i), b.skip(i)),
    decreases i,
{
    if i > 0 {
        assert(a[0] == b[0]);
        assert(a.drop_first() =~= a.skip(1));
        assert(b.drop_first() =~= b.skip(1));
        assert(!((a[0] as u32) < (b[0] as u32)));
        assert forall|k: int| 0 <= k < i - 1 implies a.skip(1)[k] == b.skip(1)[k] by {
            assert(a.skip(1)[k] == a[k + 1]);
            assert(b.skip(1)[k] == b[k + 1]);
        }
        lemma_lex_lt_skip(a.skip(1), b.skip(1), i - 1);
        assert(a.skip(1).skip(i - 1) =~= a.skip(i));
        assert(b.skip(1).skip(i - 1) =~= b.skip(i));
    } else {
        assert(a.skip(0) =~= a);
        assert(b.skip(0) =~= b);
    }
}

/// Exactly one of `lex_lt(a, b)`, `lex_lt(b, a)` and `a == b` holds.
pub proof fn lemma_lex_trichotomy(a: Seq<char>, b: Seq<char>)
    ensures
        !lex_lt(a, b) && !lex_lt(b, a) ==> a == b,
        lex_lt(a, b) ==> a != b,
    decreases a.len() + b.len(),
{
    if a.len() == 0 || b.len() == 0 {
        if !lex_lt(a, b) && !lex_lt(b, a) {
            assert(a.len() == 0 && b.len() == 0);
            assert(a =~= b);
        }
    } else {
        lemma_lex_trichotomy(a.drop_first(), b.drop_first());
        if !lex_lt(a, b) && !lex_lt(b, a) {
            assert((a[0] as u32) == (b[0] as u32));
            vstd::utf8::char_u32_cast(a[0], a[0] as u32);
            vstd::utf8::char_u32_cast(b[0], a[0] as u32);
            assert(a[0] == b[0]);
            assert(a.drop_first() == b.drop_first());
            assert forall|i: int| 0 <= i < a.len() implies a[i] == b[i] by {
                if i > 0 {
                    assert(a.drop_first()[i - 1] == a[i]);
                    assert(b.drop_first()[i - 1] == b[i]);
                }
            }
            assert(a =~= b);
        }
        if lex_lt(a, b) && a == b {
            assert(a[0] == b[0]);
            assert(a.drop_first() == b.drop_first());
            assert(false);
        }
    }
}

pub proof fn lemma_lex_lt_trans(a: Seq<char>, b: Seq<char>, c: Seq<char>)
    requires
        lex_lt(a, b),
        lex_lt(b, c),
    ensures
        lex_lt(a, c),
    decreases a.len() + b.len() + c.len(),
{
    if a.len() == 0 {
        assert(c.len() > 0);
    } else {
        assert(b.len() > 0 && c.len() > 0);
        if (a[0] as u32) < (b[0] as u32) {
            if (b[0] as u32) < (c[0] as u32) {
            } else {
                assert(b[0] == c[0]);
            }
        } else {
            assert(a[0] == b[0]);
            if (b[0] as u32) < (c[0] as u32) {
            } else {
                assert(b[0] == c[0]);
                lemma_lex_lt_trans(a.drop_first(), b.drop_first(), c.drop_first());
            }
        }
    }
}

/// What `str::to_lowercase` returns: the Unicode lower-case mapping of
/// the string, a function of its characters alone.
pub uninterp spec fn lower_of(s: Seq<char>) -> Seq<char>;

/// What `str::to_uppercase` returns: the Unicode upper-case mapping of
/// the string, a function of its characters alone.
pub uninterp spec fn upper_of(s: Seq<char>) -> Seq<char>;

/// Relies on `str::to_lowercase`: returns the lower-case equivalent of
/// the string, per the Unicode lowercase mapping; the result depends on
/// the characters alone.
pub assume_specification[ str::to_lowercase ](s: &str) -> (r: String)
    ensures
        r@ == lower_of(s@),
;

/// Relies on `str::to_uppercase`: returns the upper-case equivalent of
/// the string, per the Unicode uppercase mapping; the result depends on
/// the characters alone.
pub assume_specification[ str::to_uppercase ](s: &str) -> (r: String)
    ensures
        r@ == upper_of(s@),
;

/// Lower-cases every string of the list.
pub fn vec_to_lowercase(arr: &Vec<String>) -> (r: Vec<String>)
    ensures
        r@.len() == arr@.len(),
        forall|i: int| 0 <= i < arr@.len() ==> r@[i]@ == lower_of(arr@[i]@),
{
    let mut r: Vec<String> = Vec::new();
    let n = arr.len();
    let mut i: usize = 0;
    while i < n
        invariant
            0 <= i <= n,
            n == arr@.len(),
            r@.len() == i,
            forall|k: int| 0 <= k < i ==> r@[k]@ == lower_of(arr@[k]@),
        decreases n - i,
    {
        let low = arr[i].as_str().to_lowercase();
        r.push(low);
        i += 1;
    }
    r
}

/// Upper-cases every string of the list.
pub fn vec_to_uppercase(arr: &Vec<String>) -> (r: Vec<String>)
    ensures
        r@.len() == arr@.len(),
        forall|i: int| 0 <= i < arr@.len() ==> r@[i]@ == upper_of(arr@[i]@),
{
    let mut r: Vec<String> = Vec::new();
    let n = arr.len();
    let mut i: usize = 0;
    while i < n
        invariant
            0 <= i <= n,
            n == arr@.len(),
            r@.len() == i,
            forall|k: int| 0 <= k < i ==> r@[k]@ == upper_of(arr@[k]@),
        decreases n - i,
    {
        let up = arr[i].as_str().to_uppercase();
        r.push(up);
        i += 1;
    }
    r
}

/// `needle` occurs in `hay` starting at position `k`.
pub open spec fn matches_at(hay: Seq<char>, needle: Seq<char>, k: int) -> bool {
    0 <= k && k + needle.len() <= hay.len() && forall|t: int| #![trigger needle[t]]
        0 <= t < needle.len() ==> hay[k + t] == needle[t]
}

/// `needle` occurs somewhere in `hay`.
pub open spec fn contains_seq(hay: Seq<char>, needle: Seq<char>) -> bool {
    exists|k: int| matches_at(hay, needle, k)
}

pub proof fn lemma_contains_at(hay: Seq<char>, needle: Seq<char>, k: int)
    requires
        matches_at(hay, needle, k),
    ensures
        contains_seq(hay, needle),
{
    assert(matches_at(hay, needle, k));
}

/// Whether `needle` occurs as a substring of `hay`.
pub fn str_contains(hay: &str, needle: &str) -> (r: bool)
    ensures
        r == contains_seq(hay@, needle@),
{
    let hn = hay.unicode_len();
    let nn = needle.unicode_len();
    if nn > hn {
        proof {
            assert forall|k: int| !matches_at(hay@, needle@, k) by {}
        }
        return false;
    }
    let mut k: usize = 0;
    while k <= hn - nn
        invariant
            0 <= k <= hn - nn + 1,
            nn <= hn,
            hn == hay@.len(),
            nn == needle@.len(),
            forall|q: int| 0 <= q < k ==> !matches_at(hay@, needle@, q),
        decreases hn - nn - k + 1,
    {
        let mut t: usize = 0;
        let mut all = true;
        while t < nn
            invariant
                0 <= t <= nn,
                0 <= k <= hn - nn,
                hn == hay@.len(),
                nn == needle@.len(),
                all ==> forall|q: int| 0 <= q < t ==> hay@[k + q] == needle@[q],
                !all ==> !matches_at(hay@, needle@, k as int),
            decreases nn - t,
        {
            if all {
                let hc = hay.get_char(k + t);
                let nc = needle.get_char(t);
                if hc != nc {
                    proof {
                        assert(hay@[k as int + t as int] != needle@[t as int]);
                    }
                    all = false;
                }
            }
            t += 1;
        }
        if all {
            proof {
                lemma_contains_at(hay@, needle@, k as int);
            }
            return true;
        }
        k += 1;
    }
    proof {
        assert forall|q: int| !matches_at(hay@, needle@, q) by {
            if 0 <= q && q + needle@.len() <= hay@.len() {
                assert(q < k);
            }
        }
    }
    false
}

/// Position of the first comma, or -1 when there is none.
pub open spec fn comma_index(s: Seq<char>) -> int
    decreases s.len(),
{
    if s.len() == 0 {
        -1
    } else if s[0] == ',' {
        0
    } else {
        let r = comma_index(s.drop_first());
        if r == -1 {
            -1
        } else {
            r + 1
        }
    }
}

pub proof fn lemma_comma_index_bounds(s: Seq<char>)
    ensures
        comma_index(s) == -1 || (0 <= comma_index(s) < s.len() && s[comma_index(s)] == ','),
        comma_index(s) == -1 ==> forall|k: int| 0 <= k < s.len() ==> s[k] != ',',
        forall|k: int| 0 <= k < comma_index(s) ==> s[k] != ',',
    decreases s.len(),
{
    if s.len() != 0 && s[0] != ',' {
        lemma_comma_index_bounds(s.drop_first());
        assert forall|k: int| 0 <= k < comma_index(s) implies s[k] != ',' by {
            if k > 0 {
                assert(s.drop_first()[k - 1] == s[k]);
            }
        }
        if comma_index(s) == -1 {
            assert forall|k: int| 0 <= k < s.len() implies s[k] != ',' by {
                if k > 0 {
                    assert(s.drop_first()[k - 1] == s[k]);
                }
            }
        }
    }
}

/// The comma-separated segments of a string: splitting on each comma,
/// keeping segments as they are (an empty string yields one empty
/// segment).
pub open spec fn split_commas(s: Seq<char>) -> Seq<Seq<char>>
    decreases s.len(),
{
    let i = comma_index(s);
    if 0 <= i < s.len() {
        seq![s.subrange(0, i)] + split_commas(s.subrange(i + 1, s.len() as int))
    } else {
        seq![s]
    }
}

/// Position of the first comma, if any.
fn find_comma(s: &str) -> (r: Option<usize>)
    ensures
        match r {
            Some(i) => i < s@.len() && comma_index(s@) == i as int,
            None => comma_index(s@) == -1,
        },
{
    let n = s.unicode_len();
    let mut j: usize = 0;
    while j < n
        invariant
            0 <= j <= n,
            n == s@.len(),
            forall|k: int| 0 <= k < j ==> s@[k] != ',',
        decreases n - j,
    {
        if s.get_char(j) == ',' {
            proof {
                lemma_comma_skip(s@, j as int);
            }
            return Some(j);
        }
        j += 1;
    }
    proof {
        lemma_comma_index_bounds(s@);
        if comma_index(s@) != -1 {
            assert(s@[comma_index(s@)] == ',');
        }
    }
    None
}

/// Splits a comma-separated list into its segments.
pub fn split_commas_exec(s: &str) -> (r: Vec<String>)
    ensures
        r@.len() == split_commas(s@).len(),
        forall|i: int| 0 <= i < r@.len() ==> r@[i]@ == split_commas(s@)[i],
    decreases s@.len(),
{
    let n = s.unicode_len();
    let idx = find_comma(s);
    match idx {
        Some(i) => {
            let head = s.substring_char(0, i);
            let tail = s.substring_char(i + 1, n);
            let rest = split_commas_exec(tail);
            let mut r: Vec<String> = Vec::new();
            r.push(head.to_owned());
            let mut t: usize = 0;
            let m = rest.len();
            proof {
                assert(comma_index(s@) == i as int);
                assert(split_commas(s@) =~= seq![s@.subrange(0, i as int)] + split_commas(
                    s@.subrange(i as int + 1, n as int),
                ));
            }
            while t < m
                invariant
                    0 <= t <= m,
                    m == rest@.len(),
                    r@.len() == t + 1,
                    r@[0]@ == split_commas(s@)[0],
                    split_commas(s@).len() == m + 1,
                    forall|k: int| 0 <= k < m ==> rest@[k]@ == split_commas(s@)[k + 1],
                    forall|k: int| 1 <= k < t + 1 ==> r@[k]@ == split_commas(s@)[k],
                decreases m - t,
            {
                let seg = rest[t].clone();
                r.push(seg);
                t += 1;
            }
            r
        },
        None => {
            let mut r: Vec<String> = Vec::new();
            r.push(s.to_owned());
            r
        },
    }
}

proof fn lemma_comma_skip(s: Seq<char>, j: int)
    requires
        0 <= j < s.len(),
        s[j] == ',',
        forall|k: int| 0 <= k < j ==> s[k] != ',',
    ensures
        comma_index(s) == j,
    decreases j,
{
    if j > 0 {
        assert(s.drop_first()[j - 1] == s[j]);
        assert forall|k: int| 0 <= k < j - 1 implies s.drop_first()[k] != ',' by {
            assert(s.drop_first()[k] == s[k + 1]);
        }
        lemma_comma_skip(s.drop_first(), j - 1);
    }
}

/// Lexicographic comparison of strings by code point.
pub fn str_lt(a: &str, b: &str) -> (r: bool)
    ensures
        r == lex_lt(a@, b@),
{
    let an = a.unicode_len();
    let bn = b.unicode_len();
    let m = if an < bn {
        an
    } else {
        bn
    };
    let mut i: usize = 0;
    while i < m
        invariant
            0 <= i <= m,
            an == a@.len(),
            bn == b@.len(),
            m == if an < bn {
                an
            } else {
                bn
            },
            forall|k: int| 0 <= k < i ==> a@[k] == b@[k],
        decreases m - i,
    {
        let ca = a.get_char(i);
        let cb = b.get_char(i);
        if ca != cb {
            proof {
                lemma_lex_lt_skip(a@, b@, i as int);
                lemma_lex_lt_skip(b@, a@, i as int);
                assert(a@.skip(i as int)[0] == ca);
                assert(b@.skip(i as int)[0] == cb);
            }
            return (ca as u32) < (cb as u32);
        }
        i += 1;
    }
    proof {
        lemma_lex_lt_skip(a@, b@, m as int);
        lemma_lex_lt_skip(b@, a@, m as int);
        if an < bn {
            assert(a@.skip(m as int).len() == 0);
            assert(b@.skip(m as int).len() > 0);
        } else {
            assert(b@.skip(m as int).len() == 0);
        }
    }
    an < bn
}

} // verus!
