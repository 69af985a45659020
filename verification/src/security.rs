//! The seed-integrity policy: decides whether a candidate record set is
//! consistent with a declared exception list, and repairs or filters the
//! records that violate the policy.
//!
//! The privilege ceiling is the lowest level among the exempted records;
//! an ordinary candidate must stay strictly below it, while an exempted
//! candidate must carry exactly its canonical level.

use vstd::prelude::*;
use crate::json::{
    json_get, lemma_obj_put_get, obj_put_rel, upsert_obj_prop, JsonValue,
};
use crate::records::{HasName, SeedRecord};
use crate::strings::{lemma_lex_lt_trans, lemma_lex_trichotomy, lex_lt, str_lt};

verus! {

/// The privilege level a record carries: present only when its config is
/// a JSON object whose `level` property is a number reading as a `u64`.
pub open spec fn rec_level(r: SeedRecord) -> Option<u64> {
    match r.config {
        Some(c) => match json_get(c, "level"@) {
            Some(JsonValue::Number(n)) => n,
            _ => None,
        },
        None => None,
    }
}

/// The first exception whose name matches, if any.
pub open spec fn find_exception(es: Seq<SeedRecord>, name: Seq<char>) -> Option<SeedRecord>
    decreases es.len(),
{
    if es.len() == 0 {
        None
    } else if es[0].name@ == name {
        Some(es[0])
    } else {
        find_exception(es.drop_first(), name)
    }
}

/// Every record in the list carries a valid privilege level. The
/// exception list handed to the validator is expected to satisfy this.
pub open spec fn wf_exceptions(es: Seq<SeedRecord>) -> bool {
    forall|i: int| 0 <= i < es.len() ==> rec_level(es[i]) is Some
}

/// The privilege ceiling: the lowest level among the given records
/// (`u64::MAX` when the list is empty; members without a valid level do
/// not lower the ceiling).
pub open spec fn spec_min_level(es: Seq<SeedRecord>) -> u64
    decreases es.len(),
{
    if es.len() == 0 {
        u64::MAX
    } else {
        let rest = spec_min_level(es.drop_first());
        match rec_level(es[0]) {
            Some(l) => if l < rest {
                l
            } else {
                rest
            },
            None => rest,
        }
    }
}

/// Whether one candidate is secure against the exception list: it must
/// carry a valid level, and that level must equal the matching
/// exception's level exactly, or, for a non-exempt candidate, stay
/// strictly below the ceiling.
pub open spec fn is_secure_spec(c: SeedRecord, es: Seq<SeedRecord>) -> bool {
    match rec_level(c) {
        Some(l) => match find_exception(es, c.name@) {
            Some(e) => rec_level(e) == Some(l),
            None => l < spec_min_level(es),
        },
        None => false,
    }
}

/// No two records share a name.
pub open spec fn no_dup_names(s: Seq<SeedRecord>) -> bool {
    forall|i: int, j: int| 0 <= i < j < s.len() ==> s[i].name@ != s[j].name@
}

/// Whether a whole candidate set is secure: duplicate-free and every
/// member secure.
pub open spec fn is_data_secure_spec(s: Seq<SeedRecord>, es: Seq<SeedRecord>) -> bool {
    no_dup_names(s) && forall|i: int| 0 <= i < s.len() ==> is_secure_spec(s[i], es)
}

/// The highest privilege level a canonical record may carry.
pub fn get_max_level() -> (r: u32)
    ensures
        r == u32::MAX,
{
    u32::MAX
}

/// Reads the privilege level out of a record, mirroring `rec_level`.
pub fn config_level(r: &SeedRecord) -> (res: Option<u64>)
    ensures
        res == rec_level(*r),
{
    match &r.config {
        Some(c) => match c.get("level") {
            Some(v) => match v {
                JsonValue::Number(n) => *n,
                _ => None,
            },
            None => None,
        },
        None => None,
    }
}

proof fn lemma_find_exception_skip(es: Seq<SeedRecord>, name: Seq<char>, i: int)
    requires
        0 <= i <= es.len(),
        forall|k: int| 0 <= k < i ==> es[k].name@ != name,
    ensures
        find_exception(es, name) == find_exception(es.skip(i), name),
    decreases i,
{
    if i > 0 {
        assert(es.drop_first() =~= es.skip(1));
        assert(es.skip(1).skip(i - 1) =~= es.skip(i));
        lemma_find_exception_skip(es.skip(1), name, i - 1);
    } else {
        assert(es.skip(0) =~= es);
    }
}

/// Finds the first exception with the given name.
fn find_exception_ref<'a>(exceptions: &'a Vec<SeedRecord>, name: &String) -> (r: Option<
    &'a SeedRecord,
>)
    ensures
        match r {
            Some(e) => find_exception(exceptions@, name@) == Some(*e),
            None => find_exception(exceptions@, name@) is None,
        },
{
    let n = exceptions.len();
    let mut i: usize = 0;
    while i < n
        invariant
            n == exceptions.len(),
            0 <= i <= n,
            forall|k: int| 0 <= k < i ==> exceptions@[k].name@ != name@,
        decreases n - i,
    {
        if crate::strings::str_eq(exceptions[i].name.as_str(), name.as_str()) {
            proof {
                lemma_find_exception_skip(exceptions@, name@, i as int);
                assert(exceptions@.skip(i as int)[0] == exceptions@[i as int]);
            }
            return Some(&exceptions[i]);
        }
        i += 1;
    }
    proof {
        lemma_find_exception_skip(exceptions@, name@, n as int);
    }
    None
}

proof fn lemma_min_level_skip_step(es: Seq<SeedRecord>, i: int)
    requires
        0 <= i < es.len(),
    ensures
        spec_min_level(es.skip(i)) == ({
            let rest = spec_min_level(es.skip(i + 1));
            match rec_level(es[i]) {
                Some(l) => if l < rest {
                    l
                } else {
                    rest
                },
                None => rest,
            }
        }),
{
    assert(es.skip(i).len() == es.len() - i);
    assert(es.skip(i)[0] == es[i]);
    assert(es.skip(i).drop_first() =~= es.skip(i + 1));
}

/// The privilege ceiling of a record group: the lowest level among its
/// members.
fn get_max_allowed_level(group: &Vec<SeedRecord>) -> (r: u64)
    ensures
        r == spec_min_level(group@),
{
    let n = group.len();
    let mut acc: u64 = u64::MAX;
    let mut i: usize = n;
    proof {
        assert(group@.skip(n as int) =~= Seq::<SeedRecord>::empty());
    }
    while i > 0
        invariant
            0 <= i <= n,
            n == group.len(),
            acc == spec_min_level(group@.skip(i as int)),
        decreases i,
    {
        i -= 1;
        let l = config_level(&group[i]);
        proof {
            lemma_min_level_skip_step(group@, i as int);
        }
        match l {
            Some(v) => {
                if v < acc {
                    acc = v;
                }
            },
            None => {},
        }
    }
    proof {
        assert(group@.skip(0) =~= group@);
    }
    acc
}

/// Whether one candidate is secure against the exception list.
pub fn is_secure(candidate: &SeedRecord, exceptions: &Vec<SeedRecord>) -> (r: bool)
    ensures
        r == is_secure_spec(*candidate, exceptions@),
{
    is_level_ok(candidate, exceptions)
}

fn is_level_ok(candidate: &SeedRecord, exceptions: &Vec<SeedRecord>) -> (r: bool)
    ensures
        r == is_secure_spec(*candidate, exceptions@),
{
    let candidate_level = config_level(candidate);
    let l = match candidate_level {
        Some(l) => l,
        None => {
            return false;
        },
    };
    let exception = find_exception_ref(exceptions, &candidate.name);
    match exception {
        Some(e) => {
            let el = config_level(e);
            el == Some(l)
        },
        None => {
            let max_allowed_level = get_max_allowed_level(exceptions);
            l < max_allowed_level
        },
    }
}

/// Whether any two records in the set share a name.
pub fn any_duplicates(candidates: &Vec<SeedRecord>) -> (r: bool)
    ensures
        r == !no_dup_names(candidates@),
{
    let n = candidates.len();
    let mut i: usize = 0;
    while i < n
        invariant
            0 <= i <= n,
            n == candidates.len(),
            forall|a: int, b: int| 0 <= a < b < candidates@.len() && a < i ==> candidates@[a].name@
                != candidates@[b].name@,
        decreases n - i,
    {
        let mut j: usize = i + 1;
        while j < n
            invariant
                0 <= i < j <= n,
                n == candidates.len(),
                forall|b: int| i < b < j ==> candidates@[i as int].name@ != candidates@[b].name@,
            decreases n - j,
        {
            if crate::strings::str_eq(candidates[i].name.as_str(), candidates[j].name.as_str()) {
                return true;
            }
            j += 1;
        }
        i += 1;
    }
    false
}

/// Whether the candidate set as a whole is secure: no duplicate names and
/// every candidate individually secure.
pub fn is_data_secure(candidates: &Vec<SeedRecord>, exceptions: &Vec<SeedRecord>) -> (r: bool)
    ensures
        r == is_data_secure_spec(candidates@, exceptions@),
{
    if any_duplicates(candidates) {
        return false;
    }
    let n = candidates.len();
    let mut i: usize = 0;
    while i < n
        invariant
            0 <= i <= n,
            n == candidates.len(),
            forall|k: int| 0 <= k < i ==> is_secure_spec(candidates@[k], exceptions@),
        decreases n - i,
    {
        if !is_secure(&candidates[i], exceptions) {
            return false;
        }
        i += 1;
    }
    true
}

/// The level a record is ordered by: its privilege level, or 0 when it
/// has none.
pub open spec fn lvl_or_zero(r: SeedRecord) -> u64 {
    match rec_level(r) {
        Some(l) => l,
        None => 0,
    }
}

/// The canonical record order: by name, then by level.
pub open spec fn record_le(x: SeedRecord, y: SeedRecord) -> bool {
    lex_lt(x.name@, y.name@) || (x.name@ == y.name@ && lvl_or_zero(x) <= lvl_or_zero(y))
}

pub open spec fn sorted_records(s: Seq<SeedRecord>) -> bool {
    forall|i: int, j: int| 0 <= i < j < s.len() ==> record_le(s[i], s[j])
}

/// Every record of `a` occurs in `b`.
pub open spec fn records_from(a: Seq<SeedRecord>, b: Seq<SeedRecord>) -> bool {
    forall|i: int| #![trigger a[i]] 0 <= i < a.len() ==> b.contains(a[i])
}

/// Some record in `s` carries this name.
pub open spec fn contains_name(s: Seq<SeedRecord>, name: Seq<char>) -> bool {
    exists|i: int| 0 <= i < s.len() && s[i].name@ == name
}

/// Every record of `a` still has a record of its name in `b`.
pub open spec fn names_preserved(a: Seq<SeedRecord>, b: Seq<SeedRecord>) -> bool {
    forall|j: int| #![trigger a[j]] 0 <= j < a.len() ==> contains_name(b, a[j].name@)
}

pub proof fn lemma_contains_name(s: Seq<SeedRecord>, name: Seq<char>, w: int)
    requires
        0 <= w < s.len(),
        s[w].name@ == name,
    ensures
        contains_name(s, name),
{
    assert(0 <= w < s.len() && s[w].name@ == name);
}

pub proof fn lemma_record_le_total(x: SeedRecord, y: SeedRecord)
    ensures
        record_le(x, y) || record_le(y, x),
{
    lemma_lex_trichotomy(x.name@, y.name@);
}

pub proof fn lemma_record_le_trans(x: SeedRecord, y: SeedRecord, z: SeedRecord)
    requires
        record_le(x, y),
        record_le(y, z),
    ensures
        record_le(x, z),
{
    if lex_lt(x.name@, y.name@) && lex_lt(y.name@, z.name@) {
        lemma_lex_lt_trans(x.name@, y.name@, z.name@);
    }
}

fn lvl_exec(r: &SeedRecord) -> (res: u64)
    ensures
        res == lvl_or_zero(*r),
{
    match config_level(r) {
        Some(l) => l,
        None => 0,
    }
}

fn record_le_exec(x: &SeedRecord, y: &SeedRecord) -> (r: bool)
    ensures
        r == record_le(*x, *y),
{
    if str_lt(x.name.as_str(), y.name.as_str()) {
        true
    } else if crate::strings::str_eq(x.name.as_str(), y.name.as_str()) {
        lvl_exec(x) <= lvl_exec(y)
    } else {
        false
    }
}

/// First position in `v[0..i]` whose record does not precede `x`.
fn insert_pos(v: &Vec<SeedRecord>, x: &SeedRecord, i: usize) -> (j: usize)
    requires
        i <= v@.len(),
    ensures
        j <= i,
        forall|k: int| 0 <= k < j ==> record_le(v@[k], *x),
        j < i ==> !record_le(v@[j as int], *x),
{
    let mut j: usize = 0;
    while j < i
        invariant
            0 <= j <= i,
            i <= v@.len(),
            forall|k: int| 0 <= k < j ==> record_le(v@[k], *x),
        decreases i - j,
    {
        if !record_le_exec(&v[j], x) {
            return j;
        }
        j += 1;
    }
    j
}

/// Sorts the records by name, then level.
#[verifier::rlimit(50)]
#[verifier::spinoff_prover]
fn sort_records(v: &mut Vec<SeedRecord>)
    ensures
        final(v)@.to_multiset() == old(v)@.to_multiset(),
        sorted_records(final(v)@),
        final(v)@.len() == old(v)@.len(),
{
    let ghost orig = old(v)@;
    let mut i: usize = 1;
    while i < v.len()
        invariant
            i >= 1,
            v@.len() == orig.len(),
            v@.to_multiset() == orig.to_multiset(),
            forall|a: int, b: int| 0 <= a < b < i && b < v@.len() ==> record_le(v@[a], v@[b]),
        decreases v@.len() - i,
    {
        let ghost before = v@;
        let x = v.remove(i);
        let ghost mid = v@;
        proof {
            assert(mid == before.remove(i as int));
            assert(x == before[i as int]);
            vstd::seq_lib::to_multiset_remove(before, i as int);
            assert(mid.to_multiset() == before.to_multiset().remove(x));
            assert forall|a: int, b: int| 0 <= a < b < i && b < mid.len() implies record_le(
                mid[a],
                mid[b],
            ) by {
                assert(mid[a] == before[a]);
                assert(mid[b] == before[b]);
            }
        }
        let j = insert_pos(v, &x, i);
        proof {
            if j < i {
                lemma_record_le_total(mid[j as int], x);
            }
        }
        proof {
            vstd::seq_lib::to_multiset_insert(mid, j as int, x);
        }
        v.insert(j, x);
        proof {
            broadcast use vstd::multiset::group_multiset_axioms;

            let now = v@;
            assert(now == mid.insert(j as int, x));
            assert(now.to_multiset() == mid.to_multiset().insert(x));
            vstd::seq_lib::to_multiset_contains(before, x);
            assert(before.contains(x));
            assert(before.to_multiset().count(x) > 0);
            assert forall|a: SeedRecord| now.to_multiset().count(a) == before.to_multiset().count(
                a,
            ) by {
                if a == x {
                    assert(mid.to_multiset().count(x) == before.to_multiset().count(x) - 1);
                } else {
                    assert(mid.to_multiset().count(a) == before.to_multiset().count(a));
                }
            }
            assert(now.to_multiset() =~= before.to_multiset());
            if j < i {
                lemma_record_le_total(mid[j as int], x);
            }
            assert forall|a: int, b: int| 0 <= a < b < i + 1 && b < now.len() implies record_le(
                now[a],
                now[b],
            ) by {
                let ja = j as int;
                if b < ja {
                    assert(now[a] == mid[a] && now[b] == mid[b]);
                } else if a < ja && b == ja {
                    assert(now[a] == mid[a]);
                    assert(now[b] == x);
                } else if a < ja && b > ja {
                    assert(now[a] == mid[a] && now[b] == mid[b - 1]);
                } else if a == ja {
                    assert(now[a] == x);
                    assert(now[b] == mid[b - 1]);
                    assert(record_le(x, mid[ja]));
                    if b - 1 > ja {
                        lemma_record_le_trans(x, mid[ja], mid[b - 1]);
                    }
                } else {
                    assert(now[a] == mid[a - 1] && now[b] == mid[b - 1]);
                }
            }
        }
        i += 1;
    }
    proof {
        if orig.len() == 0 {
            assert(v@ =~= orig);
        }
    }
}

/// Adjacent records all carry distinct names.
pub open spec fn adjacent_distinct(s: Seq<SeedRecord>, upto: int) -> bool {
    forall|a: int, b: int| #![trigger s[a], s[b]] 0 <= a && b == a + 1 && b < upto && b < s.len()
        ==> s[a].name@ != s[b].name@
}

/// In sorted input, records whose names all differ from their neighbours'
/// have pairwise-distinct names.
proof fn lemma_name_chain(s: Seq<SeedRecord>, a: int, b: int)
    requires
        sorted_records(s),
        adjacent_distinct(s, s.len() as int),
        0 <= a < b < s.len(),
    ensures
        lex_lt(s[a].name@, s[b].name@),
    decreases b - a,
{
    assert(record_le(s[b - 1], s[b]));
    assert(s[b - 1].name@ != s[b].name@);
    assert(lex_lt(s[b - 1].name@, s[b].name@));
    if a < b - 1 {
        lemma_name_chain(s, a, b - 1);
        lemma_lex_lt_trans(s[a].name@, s[b - 1].name@, s[b].name@);
    }
}

proof fn lemma_adjacent_distinct_no_dup(s: Seq<SeedRecord>)
    requires
        sorted_records(s),
        adjacent_distinct(s, s.len() as int),
    ensures
        no_dup_names(s),
{
    assert forall|i: int, j: int| 0 <= i < j < s.len() implies s[i].name@ != s[j].name@ by {
        lemma_name_chain(s, i, j);
        lemma_lex_trichotomy(s[i].name@, s[j].name@);
    }
}

proof fn lemma_seq_refl(s: Seq<SeedRecord>)
    ensures
        records_from(s, s),
        names_preserved(s, s),
{
    assert forall|i: int| #![trigger s[i]] 0 <= i < s.len() implies s.contains(s[i]) by {
        let w: int = i;
        assert(0 <= w < s.len() && s[w] == s[i]);
    }
    assert forall|j: int| #![trigger s[j]] 0 <= j < s.len() implies contains_name(
        s,
        s[j].name@,
    ) by {
        lemma_contains_name(s, s[j].name@, j);
    }
}

proof fn lemma_records_from_trans(a: Seq<SeedRecord>, b: Seq<SeedRecord>, c: Seq<SeedRecord>)
    requires
        records_from(a, b),
        records_from(b, c),
    ensures
        records_from(a, c),
{
    assert forall|i: int| #![trigger a[i]] 0 <= i < a.len() implies c.contains(a[i]) by {
        assert(b.contains(a[i]));
        let w1 = choose|w1: int| 0 <= w1 < b.len() && b[w1] == a[i];
        assert(c.contains(b[w1]));
    }
}

proof fn lemma_names_preserved_trans(a: Seq<SeedRecord>, b: Seq<SeedRecord>, c: Seq<SeedRecord>)
    requires
        names_preserved(a, b),
        names_preserved(b, c),
    ensures
        names_preserved(a, c),
{
    assert forall|j: int| #![trigger a[j]] 0 <= j < a.len() implies contains_name(
        c,
        a[j].name@,
    ) by {
        assert(contains_name(b, a[j].name@));
        let w1 = choose|w1: int| 0 <= w1 < b.len() && b[w1].name@ == a[j].name@;
        assert(contains_name(c, b[w1].name@));
    }
}

/// Sequences with equal multisets draw on the same records.
proof fn lemma_multiset_perm(a: Seq<SeedRecord>, b: Seq<SeedRecord>)
    requires
        a.to_multiset() == b.to_multiset(),
    ensures
        records_from(a, b),
        names_preserved(a, b),
{
    assert forall|i: int| #![trigger a[i]] 0 <= i < a.len() implies b.contains(a[i]) by {
        let w: int = i;
        assert(0 <= w < a.len() && a[w] == a[i]);
        assert(a.contains(a[i]));
        vstd::seq_lib::to_multiset_contains(a, a[i]);
        vstd::seq_lib::to_multiset_contains(b, a[i]);
    }
    assert forall|j: int| #![trigger a[j]] 0 <= j < a.len() implies contains_name(
        b,
        a[j].name@,
    ) by {
        let w: int = j;
        assert(0 <= w < a.len() && a[w] == a[j]);
        assert(a.contains(a[j]));
        vstd::seq_lib::to_multiset_contains(a, a[j]);
        vstd::seq_lib::to_multiset_contains(b, a[j]);
        let w1 = choose|w1: int| 0 <= w1 < b.len() && b[w1] == a[j];
        lemma_contains_name(b, a[j].name@, w1);
    }
}

/// Some record in `s` shares `x`'s name and does not exceed it in the
/// canonical order.
pub open spec fn name_dominated(s: Seq<SeedRecord>, x: SeedRecord) -> bool {
    exists|a: int| 0 <= a < s.len() && s[a].name@ == x.name@ && record_le(s[a], x)
}

pub proof fn lemma_name_dominated(s: Seq<SeedRecord>, x: SeedRecord, w: int)
    requires
        0 <= w < s.len(),
        s[w].name@ == x.name@,
        record_le(s[w], x),
    ensures
        name_dominated(s, x),
{
    assert(0 <= w < s.len() && s[w].name@ == x.name@ && record_le(s[w], x));
}

/// Removing the later of two same-name neighbours keeps every record of
/// the original set dominated by a surviving record of its name.
proof fn lemma_remove_dominated(cur: Seq<SeedRecord>, orig: Seq<SeedRecord>, i: int)
    requires
        1 <= i < cur.len(),
        sorted_records(cur),
        cur[i].name@ == cur[i - 1].name@,
        forall|b: int| #![trigger orig[b]] 0 <= b < orig.len() ==> name_dominated(cur, orig[b]),
    ensures
        forall|b: int| #![trigger orig[b]] 0 <= b < orig.len() ==> name_dominated(
            cur.remove(i),
            orig[b],
        ),
{
    let now = cur.remove(i);
    assert forall|b: int| #![trigger orig[b]] 0 <= b < orig.len() implies name_dominated(
        now,
        orig[b],
    ) by {
        let x = orig[b];
        let a0 = choose|a0: int| 0 <= a0 < cur.len() && cur[a0].name@ == x.name@ && record_le(
            cur[a0],
            x,
        );
        if a0 < i {
            assert(now[a0] == cur[a0]);
            lemma_name_dominated(now, x, a0);
        } else if a0 == i {
            assert(record_le(cur[i - 1], cur[i as int]));
            lemma_record_le_trans(cur[i - 1], cur[i as int], x);
            assert(now[i - 1] == cur[i - 1]);
            lemma_name_dominated(now, x, i - 1);
        } else {
            assert(now[a0 - 1] == cur[a0]);
            lemma_name_dominated(now, x, a0 - 1);
        }
    }
}

proof fn lemma_remove_sorted(cur: Seq<SeedRecord>, i: int)
    requires
        0 <= i < cur.len(),
        sorted_records(cur),
    ensures
        sorted_records(cur.remove(i)),
{
    let now = cur.remove(i);
    assert forall|a: int, b: int| 0 <= a < b < now.len() implies record_le(now[a], now[b]) by {
        let a2 = if a < i {
            a
        } else {
            a + 1
        };
        let b2 = if b < i {
            b
        } else {
            b + 1
        };
        assert(now[a] == cur[a2] && now[b] == cur[b2]);
        assert(record_le(cur[a2], cur[b2]));
    }
}

proof fn lemma_remove_records_from(cur: Seq<SeedRecord>, orig: Seq<SeedRecord>, i: int)
    requires
        0 <= i < cur.len(),
        records_from(cur, orig),
    ensures
        records_from(cur.remove(i), orig),
{
    let now = cur.remove(i);
    assert forall|a: int| #![trigger now[a]] 0 <= a < now.len() implies orig.contains(now[a]) by {
        let a2 = if a < i {
            a
        } else {
            a + 1
        };
        assert(now[a] == cur[a2]);
        assert(orig.contains(cur[a2]));
    }
}

/// Removing a record whose name its predecessor also carries loses no
/// name.
proof fn lemma_remove_dup_names(cur: Seq<SeedRecord>, orig: Seq<SeedRecord>, i: int)
    requires
        1 <= i < cur.len(),
        cur[i].name@ == cur[i - 1].name@,
        names_preserved(orig, cur),
    ensures
        names_preserved(orig, cur.remove(i)),
{
    let now = cur.remove(i);
    assert forall|j: int| #![trigger orig[j]] 0 <= j < orig.len() implies contains_name(
        now,
        orig[j].name@,
    ) by {
        assert(contains_name(cur, orig[j].name@));
        let a0 = choose|a0: int| 0 <= a0 < cur.len() && cur[a0].name@ == orig[j].name@;
        if a0 < i {
            assert(now[a0] == cur[a0]);
            lemma_contains_name(now, orig[j].name@, a0);
        } else if a0 == i {
            let w: int = i - 1;
            assert(now[w] == cur[w]);
            assert(cur[i - 1].name@ == cur[i].name@);
            lemma_contains_name(now, orig[j].name@, w);
        } else {
            let w: int = a0 - 1;
            assert(now[w] == cur[a0]);
            lemma_contains_name(now, orig[j].name@, w);
        }
    }
}

/// Keeping a record whose name differs from its predecessor's extends
/// the distinct-neighbours prefix by one.
proof fn lemma_keep_adjacent(cur: Seq<SeedRecord>, i: int)
    requires
        1 <= i < cur.len(),
        adjacent_distinct(cur, i),
        cur[i].name@ != cur[i - 1].name@,
    ensures
        adjacent_distinct(cur, i + 1),
{
    assert forall|a: int, b: int| #![trigger cur[a], cur[b]] 0 <= a && b == a + 1 && b < i + 1 && b
        < cur.len() implies cur[a].name@ != cur[b].name@ by {
        if b < i {
            assert(cur[a].name@ != cur[b].name@);
        }
    }
}

proof fn lemma_remove_adjacent(cur: Seq<SeedRecord>, i: int)
    requires
        0 <= i < cur.len(),
        adjacent_distinct(cur, i),
    ensures
        adjacent_distinct(cur.remove(i), i),
{
    let now = cur.remove(i);
    assert forall|a: int, b: int| #![trigger now[a], now[b]] 0 <= a && b == a + 1 && b < i && b
        < now.len() implies now[a].name@ != now[b].name@ by {
        assert(now[a] == cur[a] && now[b] == cur[b]);
    }
}

/// Drops every record whose name repeats its predecessor's, keeping the
/// first of each run. On sorted input this leaves exactly one record per
/// name.
#[verifier::rlimit(100)]
#[verifier::spinoff_prover]
fn dedup_by_name(v: &mut Vec<SeedRecord>)
    requires
        sorted_records(old(v)@),
    ensures
        sorted_records(final(v)@),
        no_dup_names(final(v)@),
        records_from(final(v)@, old(v)@),
        names_preserved(old(v)@, final(v)@),
        forall|b: int| #![trigger old(v)@[b]] 0 <= b < old(v)@.len() ==> name_dominated(
            final(v)@,
            old(v)@[b],
        ),
{
    let ghost orig = old(v)@;
    proof {
        lemma_seq_refl(orig);
        assert forall|b: int| #![trigger orig[b]] 0 <= b < orig.len() implies name_dominated(
            v@,
            orig[b],
        ) by {
            lemma_name_dominated(v@, orig[b], b);
        }
    }
    let mut i: usize = 1;
    while i < v.len()
        invariant
            i >= 1,
            v@.len() == 0 ==> i == 1,
            v@.len() > 0 ==> i <= v@.len(),
            sorted_records(v@),
            records_from(v@, orig),
            names_preserved(orig, v@),
            forall|b: int| #![trigger orig[b]] 0 <= b < orig.len() ==> name_dominated(
                v@,
                orig[b],
            ),
            adjacent_distinct(v@, i as int),
        decreases v@.len() - i,
    {
        let ghost cur = v@;
        let dup = crate::strings::str_eq(v[i].name.as_str(), v[i - 1].name.as_str());
        if dup {
            proof {
                lemma_remove_sorted(cur, i as int);
                lemma_remove_records_from(cur, orig, i as int);
                lemma_remove_dup_names(cur, orig, i as int);
                lemma_remove_dominated(cur, orig, i as int);
                lemma_remove_adjacent(cur, i as int);
            }
            let _removed = v.remove(i);
        } else {
            proof {
                lemma_keep_adjacent(cur, i as int);
            }
            i += 1;
        }
    }
    proof {
        assert(adjacent_distinct(v@, v@.len() as int));
        lemma_adjacent_distinct_no_dup(v@);
    }
}

/// Sorts the candidates and removes records whose name repeats an
/// earlier one, keeping the first after the sort: among records sharing
/// a name, the least in the canonical (name, level) order survives.
pub fn remove_duplicates(candidates: &mut Vec<SeedRecord>)
    ensures
        sorted_records(final(candidates)@),
        no_dup_names(final(candidates)@),
        records_from(final(candidates)@, old(candidates)@),
        names_preserved(old(candidates)@, final(candidates)@),
        forall|i: int, j: int|
            0 <= i < final(candidates)@.len() && 0 <= j < old(candidates)@.len() && (
            #[trigger] final(candidates)@[i]).name@ == (#[trigger] old(candidates)@[j]).name@
                ==> record_le(final(candidates)@[i], old(candidates)@[j]),
{
    let ghost orig = old(candidates)@;
    sort_records(candidates);
    let ghost sorted = candidates@;
    proof {
        lemma_multiset_perm(sorted, orig);
        lemma_multiset_perm(orig, sorted);
    }
    dedup_by_name(candidates);
    proof {
        lemma_records_from_trans(candidates@, sorted, orig);
        lemma_names_preserved_trans(orig, sorted, candidates@);
        let fin = candidates@;
        assert forall|i: int, j: int|
            0 <= i < fin.len() && 0 <= j < orig.len() && (#[trigger] fin[i]).name@ == (
            #[trigger] orig[j]).name@ implies record_le(fin[i], orig[j]) by {
            assert(sorted.contains(orig[j]));
            let w = choose|w: int| 0 <= w < sorted.len() && sorted[w] == orig[j];
            assert(name_dominated(fin, sorted[w]));
            let a = choose|a: int|
                0 <= a < fin.len() && fin[a].name@ == sorted[w].name@ && record_le(
                    fin[a],
                    sorted[w],
                );
            assert(fin[a].name@ == fin[i].name@);
            assert(a == i);
            assert(record_le(fin[i], orig[j]));
        }
    }
}

/// How one repair pass changes a candidate: a secure record is left
/// untouched; an insecure one has its level normalized (an unreadable
/// level counts as 0) and is then either pinned back to its exception's
/// level, quarantined under the sentinel name when it impersonates an
/// exception at the wrong level, or reset to 0 when it reaches the
/// ceiling.
pub open spec fn set_level_ok_rel(c0: SeedRecord, c1: SeedRecord, es: Seq<SeedRecord>) -> bool {
    if is_secure_spec(c0, es) {
        c1 == c0
    } else {
        let norm = lvl_or_zero(c0);
        match find_exception(es, c0.name@) {
            Some(e) => if rec_level(e) == Some(norm) {
                c1.name@ == c0.name@ && rec_level(c1) == Some(norm)
            } else {
                c1.name@ == "TEST"@ && rec_level(c1) == Some(0u64)
            },
            None => c1.name@ == c0.name@ && rec_level(c1) == Some(
                if norm >= spec_min_level(es) {
                    0u64
                } else {
                    norm
                },
            ),
        }
    }
}

/// Forces the record's configuration to carry `l` as its level, creating
/// a fresh `{"level": l}` object when the configuration is missing or not
/// an object.
fn set_record_level(c: &mut SeedRecord, l: u64)
    ensures
        final(c).name == old(c).name,
        rec_level(*final(c)) == Some(l),
{
    let key: String = "level".to_owned();
    let is_obj = match &c.config {
        Some(JsonValue::Object(_)) => true,
        _ => false,
    };
    if is_obj {
        match &mut c.config {
            Some(cfg) => {
                upsert_obj_prop(cfg, &key, JsonValue::Number(Some(l)), true);
                proof {
                    lemma_obj_put_get(
                        (*old(c)).config->Some_0->Object_0@,
                        (*c).config->Some_0->Object_0@,
                        "level"@,
                        JsonValue::Number(Some(l)),
                    );
                }
            },
            None => {
                assert(false);
            },
        }
    } else {
        let mut es: Vec<(String, JsonValue)> = Vec::new();
        es.push((key, JsonValue::Number(Some(l))));
        proof {
            assert(es@[0].0@ == "level"@);
            assert(crate::json::obj_key_index(es@, "level"@) == 0);
        }
        c.config = Some(JsonValue::Object(es));
    }
}

/// Renames a candidate that impersonates a protected record to the
/// quarantine sentinel and resets its level.
fn protect_exception(candidate: &mut SeedRecord)
    ensures
        final(candidate).name@ == "TEST"@,
        rec_level(*final(candidate)) == Some(0u64),
{
    let quarantine: String = "TEST".to_owned();
    candidate.set_name(&quarantine);
    set_record_level(candidate, 0);
}

/// Repairs a single candidate as `set_level_ok_rel` describes.
pub fn set_level_ok(candidate: &mut SeedRecord, exceptions: &Vec<SeedRecord>)
    requires
        wf_exceptions(exceptions@),
    ensures
        set_level_ok_rel(*old(candidate), *final(candidate), exceptions@),
{
    if is_level_ok(candidate, exceptions) {
        return ;
    }
    let norm = lvl_exec(candidate);
    let found = find_exception_ref(exceptions, &candidate.name);
    match found {
        Some(e) => {
            let el = config_level(e);
            let same = match el {
                Some(x) => x == norm,
                None => false,
            };
            if same {
                set_record_level(candidate, norm);
            } else {
                protect_exception(candidate);
            }
        },
        None => {
            let max_allowed_level = get_max_allowed_level(exceptions);
            if norm >= max_allowed_level {
                set_record_level(candidate, 0);
            } else {
                set_record_level(candidate, norm);
            }
        },
    }
}

/// One repair pass over a whole candidate set, index by index.
pub open spec fn fix_rel(a: Seq<SeedRecord>, m: Seq<SeedRecord>, es: Seq<SeedRecord>) -> bool {
    m.len() == a.len() && forall|k: int| 0 <= k < a.len() ==> set_level_ok_rel(a[k], m[k], es)
}

/// Repairs every insecure candidate in place.
pub fn fix_unsecure_data(candidates: &mut Vec<SeedRecord>, exceptions: &Vec<SeedRecord>)
    requires
        wf_exceptions(exceptions@),
    ensures
        fix_rel(old(candidates)@, final(candidates)@, exceptions@),
{
    let ghost orig = old(candidates)@;
    let n = candidates.len();
    let mut i: usize = 0;
    while i < n
        invariant
            0 <= i <= n,
            n == candidates@.len(),
            candidates@.len() == orig.len(),
            wf_exceptions(exceptions@),
            forall|k: int| 0 <= k < i ==> set_level_ok_rel(orig[k], candidates@[k], exceptions@),
            forall|k: int| i <= k < n ==> candidates@[k] == orig[k],
        decreases n - i,
    {
        let ghost pre = candidates@;
        let mut x = candidates.remove(i);
        set_level_ok(&mut x, exceptions);
        candidates.insert(i, x);
        proof {
            assert(candidates@ =~= pre.update(i as int, x));
        }
        i += 1;
    }
}

/// Retains only the candidates that are secure.
pub fn filter_secure_data(candidates: &mut Vec<SeedRecord>, exceptions: &Vec<SeedRecord>)
    ensures
        final(candidates)@ == old(candidates)@.filter(
            |c: SeedRecord| is_secure_spec(c, exceptions@),
        ),
{
    let ghost orig = old(candidates)@;
    let ghost pred = (|c: SeedRecord| is_secure_spec(c, exceptions@));
    let n0 = candidates.len();
    let mut out: Vec<SeedRecord> = Vec::new();
    let mut k: usize = 0;
    proof {
        assert(orig.subrange(0, 0).filter(pred) =~= Seq::<SeedRecord>::empty());
        assert(orig.skip(0) =~= orig);
    }
    while candidates.len() > 0
        invariant
            0 <= k <= orig.len(),
            orig.len() == n0,
            candidates@.len() == orig.len() - k,
            candidates@ == orig.skip(k as int),
            pred == (|c: SeedRecord| is_secure_spec(c, exceptions@)),
            out@ == orig.subrange(0, k as int).filter(pred),
        decreases candidates@.len(),
    {
        let ghost cur = candidates@;
        let x = candidates.remove(0);
        proof {
            let ki = k as int;
            assert(x == orig.skip(ki)[0]);
            assert(orig.skip(ki)[0] == orig[ki]);
            assert(candidates@ == cur.remove(0));
            assert(cur.remove(0) =~= orig.skip(ki + 1));
            assert(orig.subrange(0, ki + 1).drop_last() =~= orig.subrange(0, ki));
            assert(orig.subrange(0, ki + 1).last() == orig[ki]);
        }
        let secure = is_secure(&x, exceptions);
        proof {
            reveal_with_fuel(Seq::filter, 2);
            assert(pred(x) == is_secure_spec(x, exceptions@));
            let ki = k as int;
            if pred(orig[ki]) {
                assert(orig.subrange(0, ki + 1).filter(pred) =~= orig.subrange(0, ki).filter(
                    pred,
                ).push(orig[ki]));
            } else {
                assert(orig.subrange(0, ki + 1).filter(pred) =~= orig.subrange(0, ki).filter(
                    pred,
                ));
            }
        }
        if secure {
            out.push(x);
        }
        k += 1;
    }
    proof {
        assert(orig.subrange(0, k as int) =~= orig);
        assert(pred =~= (|c: SeedRecord| is_secure_spec(c, exceptions@)));
    }
    *candidates = out;
}

/// Everything the filter keeps satisfies the predicate and came from the
/// input.
proof fn lemma_filter_membership(s: Seq<SeedRecord>, pred: spec_fn(SeedRecord) -> bool)
    ensures
        forall|i: int| #![trigger s.filter(pred)[i]] 0 <= i < s.filter(pred).len() ==> pred(
            s.filter(pred)[i],
        ),
        records_from(s.filter(pred), s),
    decreases s.len(),
{
    reveal_with_fuel(Seq::filter, 2);
    let f = s.filter(pred);
    assert forall|i: int| #![trigger f[i]] 0 <= i < f.len() implies pred(f[i]) by {
        s.lemma_filter_pred(pred, i);
    }
    if s.len() == 0 {
    } else {
        lemma_filter_membership(s.drop_last(), pred);
        let f0 = s.drop_last().filter(pred);
        assert forall|i: int| #![trigger f[i]] 0 <= i < f.len() implies s.contains(f[i]) by {
            if i < f0.len() {
                assert(f[i] == f0[i]);
                assert(s.drop_last().contains(f0[i]));
                let w = choose|w: int| 0 <= w < s.drop_last().len() && s.drop_last()[w] == f0[i];
                assert(s[w] == f0[i]);
                assert(0 <= w < s.len() && s[w] == f[i]);
            } else {
                assert(pred(s.last()));
                assert(f[i] == s.last());
                let w: int = s.len() - 1;
                assert(0 <= w < s.len() && s[w] == f[i]);
            }
        }
    }
}

/// The repair pipeline's overall shape: some repaired copy `m` of the
/// input exists from which the final records are drawn, with every name
/// of `m` still present.
pub open spec fn repaired_from(a: Seq<SeedRecord>, fin: Seq<SeedRecord>, es: Seq<SeedRecord>) -> bool {
    exists|m: Seq<SeedRecord>| fix_rel(a, m, es) && records_from(fin, m) && names_preserved(m, fin)
}

proof fn lemma_repaired_from(
    a: Seq<SeedRecord>,
    fin: Seq<SeedRecord>,
    es: Seq<SeedRecord>,
    m: Seq<SeedRecord>,
)
    requires
        fix_rel(a, m, es),
        records_from(fin, m),
        names_preserved(m, fin),
    ensures
        repaired_from(a, fin, es),
{
    let w = m;
    assert(fix_rel(a, w, es) && records_from(fin, w) && names_preserved(w, fin));
}

/// Filters or repairs the candidate set, then removes duplicate names.
/// With `filter` set, exactly the secure candidates survive the first
/// pass — the final records are drawn from the filtered set and carry
/// every one of its names, so a secure, uniquely-named candidate is
/// never dropped. Without it, every insecure candidate is disarmed in
/// place first.
pub fn set_data_secure(candidates: &mut Vec<SeedRecord>, exceptions: &Vec<SeedRecord>, filter: bool)
    requires
        wf_exceptions(exceptions@),
    ensures
        no_dup_names(final(candidates)@),
        sorted_records(final(candidates)@),
        filter ==> forall|i: int| 0 <= i < final(candidates)@.len() ==> is_secure_spec(
            final(candidates)@[i],
            exceptions@,
        ),
        filter ==> records_from(
            final(candidates)@,
            old(candidates)@.filter((|c: SeedRecord| is_secure_spec(c, exceptions@))),
        ),
        filter ==> names_preserved(
            old(candidates)@.filter((|c: SeedRecord| is_secure_spec(c, exceptions@))),
            final(candidates)@,
        ),
        filter ==> records_from(final(candidates)@, old(candidates)@),
        !filter ==> repaired_from(old(candidates)@, final(candidates)@, exceptions@),
{
    let ghost orig = old(candidates)@;
    if filter {
        filter_secure_data(candidates, exceptions);
    } else {
        fix_unsecure_data(candidates, exceptions);
    }
    let ghost m = candidates@;
    remove_duplicates(candidates);
    proof {
        let fin = candidates@;
        if filter {
            let pred = (|c: SeedRecord| is_secure_spec(c, exceptions@));
            assert(pred =~= (|c: SeedRecord| is_secure_spec(c, exceptions@)));
            assert(m == orig.filter(pred));
            lemma_filter_membership(orig, pred);
            assert forall|i: int| 0 <= i < fin.len() implies is_secure_spec(
                fin[i],
                exceptions@,
            ) by {
                assert(m.contains(fin[i]));
                let w = choose|w: int| 0 <= w < m.len() && m[w] == fin[i];
                assert(m[w] == orig.filter(pred)[w]);
                assert(pred(orig.filter(pred)[w]));
            }
            lemma_records_from_trans(fin, m, orig);
        } else {
            lemma_repaired_from(orig, fin, exceptions@, m);
        }
    }
}

/// An exempted candidate is secure exactly when it carries its
/// exception's level: any drift, up or down, is insecure.
pub proof fn lemma_exempt_rule(c: SeedRecord, exceptions: Seq<SeedRecord>, e: SeedRecord)
    requires
        find_exception(exceptions, c.name@) == Some(e),
    ensures
        is_secure_spec(c, exceptions) <==> (rec_level(c) is Some && rec_level(e) == rec_level(c)),
{
}

/// A non-exempt candidate is secure exactly when its level lies strictly
/// below the ceiling: reaching the ceiling is itself a violation.
pub proof fn lemma_ceiling_rule(c: SeedRecord, exceptions: Seq<SeedRecord>)
    requires
        find_exception(exceptions, c.name@) is None,
    ensures
        is_secure_spec(c, exceptions) <==> (rec_level(c) is Some && rec_level(c)->Some_0
            < spec_min_level(exceptions)),
{
}

/// The ceiling really is the minimum over the exempted records: no
/// member's level lies below it, and a nonempty well-formed list attains
/// it.
pub proof fn lemma_min_level_bounds(es: Seq<SeedRecord>)
    requires
        wf_exceptions(es),
    ensures
        forall|i: int| 0 <= i < es.len() ==> spec_min_level(es) <= rec_level(es[i])->Some_0,
        es.len() > 0 ==> exists|i: int|
            0 <= i < es.len() && rec_level(#[trigger] es[i]) == Some(spec_min_level(es)),
    decreases es.len(),
{
    if es.len() > 0 {
        let tail = es.drop_first();
        assert forall|i: int| 0 <= i < tail.len() implies rec_level(#[trigger] tail[i]) is Some by {
            assert(tail[i] == es[i + 1]);
        }
        lemma_min_level_bounds(tail);
        let rest = spec_min_level(tail);
        let l0 = rec_level(es[0])->Some_0;
        assert forall|i: int| 0 <= i < es.len() implies spec_min_level(es) <= rec_level(
            es[i],
        )->Some_0 by {
            if i > 0 {
                assert(tail[i - 1] == es[i]);
                assert(rest <= rec_level(tail[i - 1])->Some_0);
            }
        }
        if l0 <= rest {
            let w: int = 0;
            assert(0 <= w < es.len() && rec_level(es[w]) == Some(spec_min_level(es)));
        } else {
            assert(tail.len() > 0);
            let wt = choose|wt: int|
                0 <= wt < tail.len() && rec_level(#[trigger] tail[wt]) == Some(rest);
            let w: int = wt + 1;
            assert(es[w] == tail[wt]);
            assert(0 <= w < es.len() && rec_level(es[w]) == Some(spec_min_level(es)));
        }
    }
}

/// Duplicate names alone make the whole set insecure, whatever the
/// levels.
pub proof fn lemma_duplicates_insecure(s: Seq<SeedRecord>, exceptions: Seq<SeedRecord>)
    requires
        !no_dup_names(s),
    ensures
        !is_data_secure_spec(s, exceptions),
{
}

/// The repair pass drives every originally-insecure candidate to level
/// 0.
pub proof fn lemma_fix_resets_insecure(c0: SeedRecord, c1: SeedRecord, es: Seq<SeedRecord>)
    requires
        set_level_ok_rel(c0, c1, es),
        !is_secure_spec(c0, es),
    ensures
        rec_level(c1) == Some(0u64),
{
    let norm = lvl_or_zero(c0);
    match find_exception(es, c0.name@) {
        Some(e) => {
            if rec_level(e) == Some(norm) {
                if rec_level(c0) is Some {
                    assert(is_secure_spec(c0, es));
                }
                assert(norm == 0);
            }
        },
        None => {
            if rec_level(c0) is Some {
                assert(rec_level(c0)->Some_0 >= spec_min_level(es));
            }
        },
    }
}

/// Filtering an already-secure set keeps every record.
pub proof fn lemma_secure_filter_identity(s: Seq<SeedRecord>, es: Seq<SeedRecord>)
    requires
        forall|i: int| 0 <= i < s.len() ==> is_secure_spec(s[i], es),
    ensures
        s.filter((|c: SeedRecord| is_secure_spec(c, es))) == s,
    decreases s.len(),
{
    reveal_with_fuel(Seq::filter, 2);
    let pred = (|c: SeedRecord| is_secure_spec(c, es));
    if s.len() == 0 {
        assert(s.filter(pred) =~= s);
    } else {
        assert forall|i: int| 0 <= i < s.drop_last().len() implies is_secure_spec(
            s.drop_last()[i],
            es,
        ) by {
            assert(s.drop_last()[i] == s[i]);
        }
        lemma_secure_filter_identity(s.drop_last(), es);
        assert(pred(s.last()));
        assert(s.filter(pred) =~= s.drop_last().push(s.last()));
        assert(s.drop_last().push(s.last()) =~= s);
    }
}

/// Repairing an already-secure set changes no record: the validator is
/// idempotent on secure data.
pub proof fn lemma_repair_idempotent(a: Seq<SeedRecord>, m: Seq<SeedRecord>, es: Seq<SeedRecord>)
    requires
        fix_rel(a, m, es),
        forall|i: int| 0 <= i < a.len() ==> is_secure_spec(a[i], es),
    ensures
        m == a,
{
    assert forall|i: int| 0 <= i < a.len() implies m[i] == a[i] by {
        assert(set_level_ok_rel(a[i], m[i], es));
    }
    assert(m =~= a);
}

/// Two sorted, name-distinct sequences are equal when each record of
/// the second occurs in the first and each name of the first survives
/// into the second.
proof fn lemma_sorted_unique_eq(a: Seq<SeedRecord>, b: Seq<SeedRecord>)
    requires
        sorted_records(a),
        no_dup_names(a),
        sorted_records(b),
        no_dup_names(b),
        records_from(b, a),
        names_preserved(a, b),
    ensures
        b == a,
    decreases a.len(),
{
    if a.len() == 0 {
        if b.len() > 0 {
            assert(a.contains(b[0]));
            let w = choose|w: int| 0 <= w < a.len() && a[w] == b[0];
            assert(false);
        }
        assert(b =~= a);
    } else {
        assert(contains_name(b, a[0].name@));
        let t = choose|t: int| 0 <= t < b.len() && b[t].name@ == a[0].name@;
        assert(a.contains(b[0]));
        let w = choose|w: int| 0 <= w < a.len() && a[w] == b[0];
        let n0 = a[0].name@;
        let nb = b[0].name@;
        if n0 != nb {
            if w > 0 {
                assert(record_le(a[0], a[w]));
            }
            assert(lex_lt(n0, nb) || n0 == nb);
            if t > 0 {
                assert(record_le(b[0], b[t]));
            }
            assert(lex_lt(nb, n0) || nb == n0);
            lemma_lex_lt_trans(n0, nb, n0);
            lemma_lex_trichotomy(n0, n0);
            assert(false);
        }
        assert(w == 0);
        assert(b[0] == a[0]);
        let a2 = a.drop_first();
        let b2 = b.drop_first();
        assert forall|i: int, j: int| 0 <= i < j < a2.len() implies record_le(a2[i], a2[j])
            && a2[i].name@ != a2[j].name@ by {
            assert(a2[i] == a[i + 1] && a2[j] == a[j + 1]);
        }
        assert forall|i: int, j: int| 0 <= i < j < b2.len() implies record_le(b2[i], b2[j])
            && b2[i].name@ != b2[j].name@ by {
            assert(b2[i] == b[i + 1] && b2[j] == b[j + 1]);
        }
        assert forall|i: int| #![trigger b2[i]] 0 <= i < b2.len() implies a2.contains(b2[i]) by {
            assert(b2[i] == b[i + 1]);
            assert(a.contains(b[i + 1]));
            let w2 = choose|w2: int| 0 <= w2 < a.len() && a[w2] == b[i + 1];
            assert(b[i + 1].name@ != b[0].name@);
            assert(w2 > 0);
            let ww: int = w2 - 1;
            assert(0 <= ww < a2.len() && a2[ww] == b2[i]);
        }
        assert forall|j: int| #![trigger a2[j]] 0 <= j < a2.len() implies contains_name(
            b2,
            a2[j].name@,
        ) by {
            assert(a2[j] == a[j + 1]);
            assert(contains_name(b, a[j + 1].name@));
            let t2 = choose|t2: int| 0 <= t2 < b.len() && b[t2].name@ == a[j + 1].name@;
            assert(a[j + 1].name@ != a[0].name@);
            assert(t2 > 0);
            lemma_contains_name(b2, a2[j].name@, t2 - 1);
        }
        lemma_sorted_unique_eq(a2, b2);
        assert(b.len() == a.len());
        assert forall|i: int| 0 <= i < a.len() implies b[i] == a[i] by {
            if i > 0 {
                assert(b2[i - 1] == b[i] && a2[i - 1] == a[i]);
                assert(b2[i - 1] == a2[i - 1]);
            }
        }
        assert(b =~= a);
    }
}

/// The validator is idempotent on an already-secure set: filtering a
/// sorted, name-distinct set whose records are all secure, and then
/// removing duplicates, hands back exactly the input — so a second run
/// changes nothing either. The hypotheses on `fin` are what
/// `set_data_secure`'s filter mode ensures.
pub proof fn lemma_validator_idempotent(
    a: Seq<SeedRecord>,
    fin: Seq<SeedRecord>,
    es: Seq<SeedRecord>,
)
    requires
        sorted_records(a),
        no_dup_names(a),
        forall|i: int| 0 <= i < a.len() ==> is_secure_spec(a[i], es),
        sorted_records(fin),
        no_dup_names(fin),
        records_from(fin, a.filter((|c: SeedRecord| is_secure_spec(c, es)))),
        names_preserved(a.filter((|c: SeedRecord| is_secure_spec(c, es))), fin),
    ensures
        fin == a,
{
    lemma_secure_filter_identity(a, es);
    assert(a.filter((|c: SeedRecord| is_secure_spec(c, es))) == a);
    lemma_sorted_unique_eq(a, fin);
}

/// The same idempotence holds for the repair mode: disarming an
/// already-secure, sorted, name-distinct set and removing duplicates
/// hands back exactly the input. The hypotheses on `fin` are what
/// `set_data_secure` ensures without `filter`.
pub proof fn lemma_fix_mode_idempotent(
    a: Seq<SeedRecord>,
    fin: Seq<SeedRecord>,
    es: Seq<SeedRecord>,
)
    requires
        sorted_records(a),
        no_dup_names(a),
        forall|i: int| 0 <= i < a.len() ==> is_secure_spec(a[i], es),
        sorted_records(fin),
        no_dup_names(fin),
        repaired_from(a, fin, es),
    ensures
        fin == a,
{
    let m = choose|m: Seq<SeedRecord>|
        fix_rel(a, m, es) && records_from(fin, m) && names_preserved(m, fin);
    lemma_repair_idempotent(a, m, es);
    lemma_sorted_unique_eq(a, fin);
}

} // verus!
