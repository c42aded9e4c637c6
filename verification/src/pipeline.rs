//! The pipeline steps around scanning and enrichment: the total order that
//! the inventory is sorted by, the sort itself, the substring filter, and the
//! path helpers that resolve roots and shorten paths for display.

use vstd::multiset::Multiset;
use vstd::prelude::*;
use vstd::seq_lib::lemma_multiset_commutative;

use crate::strutil::{
    chars_vec, contains_sub, lower_vec, spec_contains, spec_lower, string_from, subvec,
};
use crate::types::{DependencyRecord, RecordView};

verus! {

broadcast use vstd::seq_lib::group_to_multiset_ensures;

/// Three-way lexicographic comparison of character sequences, by code point:
/// the order `str::cmp` gives, since UTF-8 byte order equals code-point
/// order.
pub open spec fn lex_cmp(a: Seq<char>, b: Seq<char>) -> int
    decreases a.len(),
{
    if a.len() == 0 && b.len() == 0 {
        0
    } else if a.len() == 0 {
        -1
    } else if b.len() == 0 {
        1
    } else if a[0] < b[0] {
        -1
    } else if b[0] < a[0] {
        1
    } else {
        lex_cmp(a.drop_first(), b.drop_first())
    }
}

/// An absent value sorts before any present one.
pub open spec fn opt_cmp(a: Option<Seq<char>>, b: Option<Seq<char>>) -> int {
    match (a, b) {
        (Option::None, Option::None) => 0,
        (Option::None, Option::Some(_)) => -1,
        (Option::Some(_), Option::None) => 1,
        (Option::Some(x), Option::Some(y)) => lex_cmp(x, y),
    }
}

/// The inventory order: by manager, then name, then version, then source.
pub open spec fn record_cmp(a: RecordView, b: RecordView) -> int {
    if lex_cmp(a.manager, b.manager) != 0 {
        lex_cmp(a.manager, b.manager)
    } else if lex_cmp(a.name, b.name) != 0 {
        lex_cmp(a.name, b.name)
    } else if opt_cmp(a.version, b.version) != 0 {
        opt_cmp(a.version, b.version)
    } else {
        lex_cmp(a.source, b.source)
    }
}

pub open spec fn record_le(a: RecordView, b: RecordView) -> bool {
    record_cmp(a, b) <= 0
}

/// The comparison is a three-way total order: bounded, antisymmetric, and
/// zero exactly on equal sequences.
pub proof fn lemma_lex_cmp_props(a: Seq<char>, b: Seq<char>)
    ensures
        -1 <= lex_cmp(a, b) <= 1,
        (lex_cmp(a, b) == 0) <==> (a == b),
        lex_cmp(a, b) == -lex_cmp(b, a),
    decreases a.len(),
{
    if a.len() > 0 && b.len() > 0 {
        if a[0] < b[0] {
            assert(a != b);
        } else if b[0] < a[0] {
            assert(a != b);
        } else {
            assert(a[0] == b[0]);
            lemma_lex_cmp_props(a.drop_first(), b.drop_first());
            if lex_cmp(a.drop_first(), b.drop_first()) == 0 {
                assert(a.drop_first() == b.drop_first());
                assert(a.len() == b.len());
                assert forall|i: int| 0 <= i < a.len() implies a[i] == b[i] by {
                    if i > 0 {
                        assert(a.drop_first()[i - 1] == b.drop_first()[i - 1]);
                    }
                }
                assert(a =~= b);
            } else {
                assert(a.drop_first() != b.drop_first());
                assert(a != b) by {
                    if a == b {
                        assert(a.drop_first() =~= b.drop_first());
                    }
                }
            }
        }
    } else if a.len() == 0 && b.len() == 0 {
        assert(a =~= b);
    }
}

pub proof fn lemma_lex_cmp_trans(a: Seq<char>, b: Seq<char>, c: Seq<char>)
    requires
        lex_cmp(a, b) <= 0,
        lex_cmp(b, c) <= 0,
    ensures
        lex_cmp(a, c) <= 0,
    decreases a.len(),
{
    if a.len() > 0 && b.len() > 0 && c.len() > 0 {
        if a[0] == b[0] && b[0] == c[0] {
            lemma_lex_cmp_trans(a.drop_first(), b.drop_first(), c.drop_first());
        }
    }
}

pub proof fn lemma_opt_cmp_props(a: Option<Seq<char>>, b: Option<Seq<char>>)
    ensures
        -1 <= opt_cmp(a, b) <= 1,
        (opt_cmp(a, b) == 0) <==> (a == b),
        opt_cmp(a, b) == -opt_cmp(b, a),
{
    match (a, b) {
        (Option::Some(x), Option::Some(y)) => {
            lemma_lex_cmp_props(x, y);
        },
        _ => {},
    }
}

pub proof fn lemma_opt_cmp_trans(a: Option<Seq<char>>, b: Option<Seq<char>>, c: Option<Seq<char>>)
    requires
        opt_cmp(a, b) <= 0,
        opt_cmp(b, c) <= 0,
    ensures
        opt_cmp(a, c) <= 0,
{
    match (a, b, c) {
        (Option::Some(x), Option::Some(y), Option::Some(z)) => {
            lemma_lex_cmp_trans(x, y, z);
        },
        _ => {},
    }
}

/// The record order is total: any two records compare one way or the other,
/// and both ways only when all four key fields agree.
pub proof fn lemma_record_le_total(a: RecordView, b: RecordView)
    ensures
        record_le(a, b) || record_le(b, a),
        record_cmp(a, b) == -record_cmp(b, a),
        record_le(a, b) && record_le(b, a) ==> a.manager == b.manager && a.name == b.name
            && a.version == b.version && a.source == b.source,
{
    lemma_lex_cmp_props(a.manager, b.manager);
    lemma_lex_cmp_props(a.name, b.name);
    lemma_opt_cmp_props(a.version, b.version);
    lemma_lex_cmp_props(a.source, b.source);
}

pub proof fn lemma_record_le_trans(a: RecordView, b: RecordView, c: RecordView)
    requires
        record_le(a, b),
        record_le(b, c),
    ensures
        record_le(a, c),
{
    lemma_lex_cmp_props(a.manager, b.manager);
    lemma_lex_cmp_props(b.manager, c.manager);
    lemma_lex_cmp_props(a.manager, c.manager);
    lemma_lex_cmp_trans(a.manager, b.manager, c.manager);
    if lex_cmp(a.manager, b.manager) == 0 && lex_cmp(b.manager, c.manager) == 0 {
        lemma_lex_cmp_props(a.name, b.name);
        lemma_lex_cmp_props(b.name, c.name);
        lemma_lex_cmp_props(a.name, c.name);
        lemma_lex_cmp_trans(a.name, b.name, c.name);
        if lex_cmp(a.name, b.name) == 0 && lex_cmp(b.name, c.name) == 0 {
            lemma_opt_cmp_props(a.version, b.version);
            lemma_opt_cmp_props(b.version, c.version);
            lemma_opt_cmp_props(a.version, c.version);
            lemma_opt_cmp_trans(a.version, b.version, c.version);
            if opt_cmp(a.version, b.version) == 0 && opt_cmp(b.version, c.version) == 0 {
                lemma_lex_cmp_trans(a.source, b.source, c.source);
            }
        }
    }
}

/// The comparison reads only the four key fields, so records equal on those
/// fields compare alike against anything.
pub proof fn lemma_record_cmp_key_congruence(a: RecordView, b: RecordView, c: RecordView)
    requires
        b.manager == c.manager,
        b.name == c.name,
        b.version == c.version,
        b.source == c.source,
    ensures
        record_cmp(a, b) == record_cmp(a, c),
{
}

/// `perm` witnesses that `sorted` is a stable rearrangement of `orig`: a
/// bijective index map under which each output record is an input record,
/// and records tied on all four sort keys keep their original relative
/// order.
pub open spec fn stable_permutation(
    orig: Seq<DependencyRecord>,
    sorted: Seq<DependencyRecord>,
    perm: Seq<int>,
) -> bool {
    &&& perm.len() == sorted.len()
    &&& sorted.len() == orig.len()
    &&& forall|i: int| 0 <= i < perm.len() ==> 0 <= #[trigger] perm[i] < orig.len()
    &&& forall|i: int, j: int| 0 <= i < j < perm.len() ==> perm[i] != perm[j]
    &&& forall|i: int| 0 <= i < perm.len() ==> #[trigger] sorted[i] == orig[perm[i]]
    &&& forall|i: int, j: int|
        0 <= i < j < perm.len() && record_cmp(sorted[i]@, sorted[j]@) == 0 ==> perm[i] < perm[j]
}

/// `lex_cmp` on vectors of characters.
fn cmp_chars(a: &Vec<char>, b: &Vec<char>) -> (r: i32)
    ensures
        r as int == lex_cmp(a@, b@),
        -1 <= r <= 1,
{
    let ghost av = a@;
    let ghost bv = b@;
    let mut i: usize = 0;
    proof {
        assert(av.subrange(0, av.len() as int) =~= av);
        assert(bv.subrange(0, bv.len() as int) =~= bv);
    }
    loop
        invariant
            i <= av.len(),
            i <= bv.len(),
            av == a@,
            bv == b@,
            lex_cmp(av, bv) == lex_cmp(
                av.subrange(i as int, av.len() as int),
                bv.subrange(i as int, bv.len() as int),
            ),
        decreases av.len() - i,
    {
        let ghost ta = av.subrange(i as int, av.len() as int);
        let ghost tb = bv.subrange(i as int, bv.len() as int);
        if i == a.len() && i == b.len() {
            return 0;
        }
        if i == a.len() {
            return -1;
        }
        if i == b.len() {
            return 1;
        }
        proof {
            assert(ta[0] == av[i as int]);
            assert(tb[0] == bv[i as int]);
            assert(ta.drop_first() =~= av.subrange(i + 1 as int, av.len() as int));
            assert(tb.drop_first() =~= bv.subrange(i + 1 as int, bv.len() as int));
        }
        if a[i] < b[i] {
            return -1;
        }
        if b[i] < a[i] {
            return 1;
        }
        i = i + 1;
    }
}

fn cmp_str(a: &str, b: &str) -> (r: i32)
    ensures
        r as int == lex_cmp(a@, b@),
        -1 <= r <= 1,
{
    let av = chars_vec(a);
    let bv = chars_vec(b);
    cmp_chars(&av, &bv)
}

/// `record_cmp` on records.
pub fn compare_records(a: &DependencyRecord, b: &DependencyRecord) -> (r: i32)
    ensures
        r as int == record_cmp(a@, b@),
{
    let c = cmp_str(a.manager.as_str(), b.manager.as_str());
    if c != 0 {
        return c;
    }
    let c = cmp_str(a.name.as_str(), b.name.as_str());
    if c != 0 {
        return c;
    }
    let c = match (&a.version, &b.version) {
        (None, None) => 0,
        (None, Some(_)) => -1,
        (Some(_), None) => 1,
        (Some(x), Some(y)) => cmp_str(x.as_str(), y.as_str()),
    };
    if c != 0 {
        return c;
    }
    cmp_str(a.source.as_str(), b.source.as_str())
}

/// Inserting an element anywhere adds exactly it to the multiset.
proof fn lemma_insert_to_multiset(s: Seq<DependencyRecord>, p: int, x: DependencyRecord)
    requires
        0 <= p <= s.len(),
    ensures
        s.insert(p, x).to_multiset() == s.to_multiset().insert(x),
{
    let pre = s.subrange(0, p);
    let suf = s.subrange(p, s.len() as int);
    assert(s =~= pre + suf);
    assert(s.insert(p, x) =~= pre + (seq![x] + suf));
    lemma_multiset_commutative(pre, suf);
    lemma_multiset_commutative(pre, seq![x] + suf);
    lemma_multiset_commutative(seq![x], suf);
    assert(seq![x].to_multiset() =~= Multiset::<DependencyRecord>::empty().insert(x)) by {
        assert(seq![x].drop_first() =~= Seq::<DependencyRecord>::empty());
    }
    assert(s.insert(p, x).to_multiset() =~= s.to_multiset().insert(x));
}

/// Stable sort of the inventory by `(manager, name, version, source)`: the
/// result is a permutation of the input, ascending in the record order.
pub fn sort_records(records: &mut Vec<DependencyRecord>)
    ensures
        final(records)@.len() == old(records)@.len(),
        forall|i: int, j: int|
            0 <= i <= j < final(records)@.len() ==> record_le(
                #[trigger] final(records)@[i]@,
                #[trigger] final(records)@[j]@,
            ),
        final(records)@.to_multiset() == old(records)@.to_multiset(),
        exists|perm: Seq<int>| stable_permutation(old(records)@, final(records)@, perm),
{
    let ghost orig = records@;
    let mut out: Vec<DependencyRecord> = Vec::new();
    let ghost mut perm: Seq<int> = Seq::empty();
    proof {
        assert(out@.to_multiset().add(records@.to_multiset()) =~= orig.to_multiset());
        assert(records@ =~= orig.subrange(0, orig.len() as int));
    }
    while records.len() > 0
        invariant
            out@.to_multiset().add(records@.to_multiset()) == orig.to_multiset(),
            forall|i: int, j: int|
                0 <= i <= j < out@.len() ==> record_le(
                    #[trigger] out@[i]@,
                    #[trigger] out@[j]@,
                ),
            out@.len() + records@.len() == orig.len(),
            records@ == orig.subrange(out@.len() as int, orig.len() as int),
            perm.len() == out@.len(),
            forall|i: int| 0 <= i < perm.len() ==> 0 <= #[trigger] perm[i] < out@.len(),
            forall|i: int, j: int| 0 <= i < j < perm.len() ==> perm[i] != perm[j],
            forall|i: int| 0 <= i < perm.len() ==> #[trigger] out@[i] == orig[perm[i]],
            forall|i: int, j: int|
                0 <= i < j < perm.len() && record_cmp(out@[i]@, out@[j]@) == 0 ==> perm[i]
                    < perm[j],
        decreases records@.len(),
    {
        let ghost rest = records@;
        let ghost k = out@.len() as int;
        let x = records.remove(0);
        proof {
            assert(rest.contains(rest[0]));
            assert(rest.to_multiset().count(rest[0]) > 0);
            assert(rest.remove(0).to_multiset() =~= rest.to_multiset().remove(rest[0]));
            assert(x == orig[k]);
            assert(records@ =~= orig.subrange(k + 1, orig.len() as int));
        }
        // Find the first position whose record sorts strictly after `x`;
        // equal records stay before it, which keeps the sort stable.
        let mut p: usize = 0;
        while p < out.len() && compare_records(&out[p], &x) <= 0
            invariant
                p <= out@.len(),
                forall|j: int| 0 <= j < p ==> record_le(#[trigger] out@[j]@, x@),
            decreases out@.len() - p,
        {
            p = p + 1;
        }
        let ghost before = out@;
        let ghost perm_before = perm;
        proof {
            assert(forall|j: int| 0 <= j < p ==> record_le(#[trigger] before[j]@, x@));
            assert(forall|i: int, j: int|
                0 <= i <= j < before.len() ==> record_le(
                    #[trigger] before[i]@,
                    #[trigger] before[j]@,
                ));
            if p < before.len() {
                assert(!record_le(before[p as int]@, x@));
                lemma_record_le_total(before[p as int]@, x@);
                assert(record_le(x@, before[p as int]@));
            }
            // Nothing at or past `p` ties with `x`: a tie would compare
            // against `x` exactly as against itself, contradicting the
            // strict step at `p`.
            assert forall|j: int| p <= j < before.len() implies record_cmp(x@, before[j]@)
                != 0 by {
                if record_cmp(x@, before[j]@) == 0 {
                    lemma_record_le_total(x@, before[j]@);
                    lemma_record_cmp_key_congruence(before[p as int]@, before[j]@, x@);
                    assert(record_le(before[p as int]@, before[j]@));
                    assert(record_cmp(before[p as int]@, before[j]@) == record_cmp(
                        before[p as int]@,
                        x@,
                    ));
                }
            }
        }
        out.insert(p, x);
        proof {
            perm = perm.insert(p as int, k);
            lemma_insert_to_multiset(before, p as int, x);
            assert(out@.to_multiset().add(records@.to_multiset()) =~= orig.to_multiset());
            // Order: everything before `p` is at most `x`, and `x` is at
            // most everything at or past `p`.
            assert forall|i: int, j: int| 0 <= i <= j < out@.len() implies record_le(
                #[trigger] out@[i]@,
                #[trigger] out@[j]@,
            ) by {
                lemma_record_le_total(x@, x@);
                if i < p {
                    assert(out@[i] == before[i]);
                }
                if i > p {
                    assert(out@[i] == before[i - 1]);
                }
                if j < p {
                    assert(out@[j] == before[j]);
                }
                if j > p {
                    assert(out@[j] == before[j - 1]);
                }
                if j > p {
                    assert(record_le(before[p as int]@, before[j - 1]@));
                    lemma_record_le_trans(x@, before[p as int]@, before[j - 1]@);
                }
                if i < p && j > p {
                    lemma_record_le_trans(before[i]@, x@, before[j - 1]@);
                }
            }
            // Stability: the new index `k` is larger than every index already
            // placed, and nothing at or past `p` ties with `x`.
            assert forall|i: int| 0 <= i < perm.len() implies #[trigger] out@[i] == orig[
                perm[i]
            ] by {
                if i < p {
                    assert(out@[i] == before[i] && perm[i] == perm_before[i]);
                } else if i == p {
                    assert(out@[i] == x && perm[i] == k);
                } else {
                    assert(out@[i] == before[i - 1] && perm[i] == perm_before[i - 1]);
                }
            }
            assert forall|i: int, j: int|
                0 <= i < j < perm.len() && record_cmp(out@[i]@, out@[j]@) == 0 implies perm[i]
                < perm[j] by {
                if j < p {
                    assert(out@[i] == before[i] && out@[j] == before[j]);
                    assert(perm[i] == perm_before[i] && perm[j] == perm_before[j]);
                } else if i < p && j == p {
                    assert(perm[i] == perm_before[i] && perm_before[i] < k);
                    assert(perm[j] == k);
                } else if i == p && j > p {
                    assert(out@[j] == before[j - 1]);
                    assert(record_cmp(x@, before[j - 1]@) != 0);
                } else if i < p && j > p {
                    assert(out@[i] == before[i] && out@[j] == before[j - 1]);
                    assert(perm[i] == perm_before[i] && perm[j] == perm_before[j - 1]);
                } else {
                    assert(out@[i] == before[i - 1] && out@[j] == before[j - 1]);
                    assert(perm[i] == perm_before[i - 1] && perm[j] == perm_before[j - 1]);
                }
            }
        }
    }
    proof {
        assert(records@.to_multiset() =~= Multiset::<DependencyRecord>::empty());
        assert(out@.to_multiset().add(records@.to_multiset()) =~= out@.to_multiset());
        assert(out@.to_multiset().len() == orig.to_multiset().len());
        assert(stable_permutation(orig, out@, perm));
    }
    *records = out;
}

/// The lowered field holds the (pre-lowered) query as a substring.
pub open spec fn field_matches(f: Seq<char>, needle: Seq<char>) -> bool {
    spec_contains(spec_lower(f), needle)
}

/// The query matches a record when any of its six displayed fields, lowered,
/// holds it; an absent version or homepage counts as empty text.
pub open spec fn spec_record_matches(r: RecordView, needle: Seq<char>) -> bool {
    field_matches(r.manager, needle) || field_matches(r.name, needle) || field_matches(
        r.license,
        needle,
    ) || field_matches(
        match r.version {
            Some(v) => v,
            None => Seq::empty(),
        },
        needle,
    ) || field_matches(
        match r.homepage {
            Some(h) => h,
            None => Seq::empty(),
        },
        needle,
    ) || field_matches(r.source, needle)
}

fn str_field_matches(f: &str, needle: &Vec<char>) -> (r: bool)
    ensures
        r == field_matches(f@, needle@),
{
    let fc = chars_vec(f);
    let lowered = lower_vec(&fc);
    contains_sub(&lowered, needle)
}

/// Whether the case-folded query appears in any displayed field of the
/// record. The query is expected already lowered, as the caller folds it
/// once per run.
pub fn record_matches_query(record: &DependencyRecord, needle: &str) -> (r: bool)
    ensures
        r == spec_record_matches(record@, needle@),
{
    let nv = chars_vec(needle);
    if str_field_matches(record.manager.as_str(), &nv) {
        return true;
    }
    if str_field_matches(record.name.as_str(), &nv) {
        return true;
    }
    if str_field_matches(record.license.as_str(), &nv) {
        return true;
    }
    let version_hit = match &record.version {
        Some(v) => str_field_matches(v.as_str(), &nv),
        None => str_field_matches("", &nv),
    };
    if version_hit {
        proof {
            reveal_strlit("");
        }
        return true;
    }
    let homepage_hit = match &record.homepage {
        Some(h) => str_field_matches(h.as_str(), &nv),
        None => str_field_matches("", &nv),
    };
    if homepage_hit {
        proof {
            reveal_strlit("");
        }
        return true;
    }
    proof {
        reveal_strlit("");
    }
    str_field_matches(record.source.as_str(), &nv)
}

/// A path is absolute when it starts with a separator; anything else is
/// resolved under the working directory.
pub open spec fn spec_resolve_path(p: Seq<char>, cwd: Seq<char>) -> Seq<char> {
    if p.len() > 0 && p[0] == '/' {
        p
    } else {
        cwd + seq!['/'] + p
    }
}

/// The roots a run scans: the given paths, relative ones resolved under the
/// working directory, or the working directory alone when none were given.
pub open spec fn spec_resolve_search_paths(paths: Seq<Seq<char>>, cwd: Seq<char>) -> Seq<
    Seq<char>,
> {
    if paths.len() == 0 {
        seq![cwd]
    } else {
        Seq::new(paths.len(), |i: int| spec_resolve_path(paths[i], cwd))
    }
}

/// `spec_resolve_search_paths` on strings.
#[verifier::loop_isolation(false)]
pub fn resolve_search_paths(paths: &Vec<String>, cwd: &str) -> (r: Vec<String>)
    ensures
        r.deep_view() == spec_resolve_search_paths(paths.deep_view(), cwd@),
{
    let ghost all = paths.deep_view();
    if paths.len() == 0 {
        let mut r: Vec<String> = Vec::new();
        r.push(cwd.to_owned());
        proof {
            assert(r.deep_view() =~~= seq![cwd@]);
        }
        return r;
    }
    let mut r: Vec<String> = Vec::new();
    let mut i: usize = 0;
    while i < paths.len()
        invariant
            i <= all.len(),
            r.deep_view() == Seq::new(i as nat, |k: int| spec_resolve_path(all[k], cwd@)),
        decreases all.len() - i,
    {
        let ghost prev = r.deep_view();
        proof {
            assert(paths@[i as int]@ == all[i as int]);
        }
        let p = &paths[i];
        let pc = chars_vec(p.as_str());
        if pc.len() > 0 && pc[0] == '/' {
            proof {
                assert(spec_resolve_path(all[i as int], cwd@) == all[i as int]);
            }
            r.push(p.clone());
        } else {
            let mut joined = cwd.to_owned();
            joined.append("/");
            joined.append(p.as_str());
            proof {
                reveal_strlit("/");
                assert("/"@ =~= seq!['/']);
                assert(joined@ == cwd@ + seq!['/'] + all[i as int]);
                assert(joined@ == spec_resolve_path(all[i as int], cwd@));
            }
            r.push(joined);
        }
        proof {
            assert(r.deep_view() =~~= prev.push(spec_resolve_path(all[i as int], cwd@)));
            assert(prev.push(spec_resolve_path(all[i as int], cwd@)) =~~= Seq::new(
                (i + 1) as nat,
                |k: int| spec_resolve_path(all[k], cwd@),
            ));
        }
        i = i + 1;
    }
    proof {
        assert(r.deep_view() =~~= spec_resolve_search_paths(all, cwd@));
    }
    r
}

/// What `Path::strip_prefix` yields on plain string paths: the empty path on
/// equality, the remainder after `base/`, or nothing.
pub open spec fn spec_strip_relative(source: Seq<char>, base: Seq<char>) -> Option<Seq<char>> {
    if source == base {
        Some(Seq::empty())
    } else if crate::strutil::spec_starts_with(source, base + seq!['/']) {
        Some(source.subrange(base.len() as int + 1, source.len() as int))
    } else {
        None
    }
}

/// `spec_strip_relative` on strings.
pub fn strip_relative(source: &str, base: &str) -> (r: Option<String>)
    ensures
        r.deep_view() == spec_strip_relative(source@, base@),
{
    let sc = chars_vec(source);
    let bc = chars_vec(base);
    if crate::strutil::seq_eq(&sc, &bc) {
        let empty: Vec<char> = Vec::new();
        proof {
            assert(empty@ =~= Seq::<char>::empty());
        }
        return Some(string_from(&empty));
    }
    let mut pat = subvec(&bc, 0, bc.len());
    pat.push('/');
    proof {
        assert(pat@ =~= base@ + seq!['/']);
    }
    if pat.len() <= sc.len() && crate::strutil::match_at_x(&sc, &pat, 0) {
        proof {
            assert(crate::strutil::spec_starts_with(source@, base@ + seq!['/']));
        }
        let rest = subvec(&sc, pat.len(), sc.len());
        Some(string_from(&rest))
    } else {
        proof {
            if crate::strutil::spec_starts_with(source@, base@ + seq!['/']) {
                assert(crate::strutil::match_at(sc@, pat@, 0));
            }
        }
        None
    }
}

/// The last path component, with trailing separators ignored; a root or
/// empty path has none.
pub open spec fn spec_file_name(base: Seq<char>) -> Option<Seq<char>> {
    let t = crate::registry::spec_trim_end_char(base, '/');
    if t.len() == 0 {
        None
    } else {
        Some(crate::registry::spec_last_piece(t, seq!['/']))
    }
}

/// The display a search-path base gives a source path under it, if any: the
/// base's own name joined with the remainder.
pub open spec fn spec_base_display(source: Seq<char>, bases: Seq<Seq<char>>) -> Option<Seq<char>>
    decreases bases.len(),
{
    if bases.len() == 0 {
        None
    } else {
        let attempt = match spec_strip_relative(source, bases[0]) {
            Some(rel) => match spec_file_name(bases[0]) {
                Some(name) => if rel.len() == 0 {
                    Some(name)
                } else {
                    Some(name + seq!['/'] + rel)
                },
                None => if rel.len() > 0 {
                    Some(rel)
                } else {
                    None
                },
            },
            None => None,
        };
        match attempt {
            Some(d) => Some(d),
            None => spec_base_display(source, bases.drop_first()),
        }
    }
}

/// The displayed form of a source path: relative to the working directory
/// when under it, else under a search path's own name, else under `~`, else
/// the path as it stands.
pub open spec fn spec_shorten_source_path(
    source: Seq<char>,
    cwd: Seq<char>,
    bases: Seq<Seq<char>>,
    home: Option<Seq<char>>,
) -> Seq<char> {
    match spec_strip_relative(source, cwd) {
        Some(rel) => rel,
        None => match spec_base_display(source, bases) {
            Some(d) => d,
            None => match home {
                Some(h) => match spec_strip_relative(source, h) {
                    Some(rel) => if rel.len() == 0 {
                        seq!['~']
                    } else {
                        seq!['~', '/'] + rel
                    },
                    None => source,
                },
                None => source,
            },
        },
    }
}

fn file_name_of(base: &str) -> (r: Option<String>)
    ensures
        r.deep_view() == spec_file_name(base@),
{
    let bc = chars_vec(base);
    let t = crate::registry::trim_end_char(&bc, '/');
    if t.len() == 0 {
        return None;
    }
    let sep: Vec<char> = vec!['/'];
    proof {
        assert(sep@ =~= seq!['/']);
    }
    Some(string_from(&crate::registry::last_piece(&t, &sep)))
}

/// `spec_shorten_source_path` on strings.
#[verifier::loop_isolation(false)]
pub fn shorten_source_path(
    source: &str,
    cwd: &str,
    search_paths: &Vec<String>,
    home_dir: Option<&str>,
) -> (r: String)
    ensures
        r@ == spec_shorten_source_path(
            source@,
            cwd@,
            search_paths.deep_view(),
            home_dir.deep_view(),
        ),
{
    match strip_relative(source, cwd) {
        Some(rel) => {
            return rel;
        },
        None => {},
    }
    let ghost bases = search_paths.deep_view();
    let mut k: usize = 0;
    proof {
        assert(bases.subrange(0, bases.len() as int) =~= bases);
    }
    while k < search_paths.len()
        invariant
            k <= bases.len(),
            spec_base_display(source@, bases) == spec_base_display(
                source@,
                bases.subrange(k as int, bases.len() as int),
            ),
        decreases bases.len() - k,
    {
        proof {
            assert(bases.subrange(k as int, bases.len() as int)[0] == bases[k as int]);
            assert(bases.subrange(k as int, bases.len() as int).drop_first() =~= bases.subrange(
                k + 1 as int,
                bases.len() as int,
            ));
            assert(search_paths@[k as int]@ == bases[k as int]);
        }
        let base = &search_paths[k];
        match strip_relative(source, base.as_str()) {
            Some(rel) => {
                match file_name_of(base.as_str()) {
                    Some(name) => {
                        if rel.as_str().is_empty() {
                            return name;
                        }
                        let mut d = name;
                        d.append("/");
                        d.append(rel.as_str());
                        proof {
                            reveal_strlit("/");
                            assert("/"@ =~= seq!['/']);
                        }
                        return d;
                    },
                    None => {
                        if !rel.as_str().is_empty() {
                            return rel;
                        }
                    },
                }
            },
            None => {},
        }
        k = k + 1;
    }
    match home_dir {
        Some(h) => {
            match strip_relative(source, h) {
                Some(rel) => {
                    if rel.as_str().is_empty() {
                        let t = "~";
                        proof {
                            reveal_strlit("~");
                            assert(t@ =~= seq!['~']);
                        }
                        t.to_owned()
                    } else {
                        let mut d = "~/".to_owned();
                        d.append(rel.as_str());
                        proof {
                            reveal_strlit("~/");
                            assert("~/"@ =~= seq!['~', '/']);
                        }
                        d
                    }
                },
                None => source.to_owned(),
            }
        },
        None => source.to_owned(),
    }
}

/// A URL cut to its first sixty characters, with an ellipsis when longer.
pub open spec fn spec_shorten_url(url: Seq<char>) -> Seq<char> {
    if url.len() <= 60 {
        url
    } else {
        url.subrange(0, 60) + seq!['.', '.', '.']
    }
}

/// `spec_shorten_url` on a string.
pub fn shorten_url(url: &str) -> (r: String)
    ensures
        r@ == spec_shorten_url(url@),
{
    let uc = chars_vec(url);
    if uc.len() <= 60 {
        string_from(&uc)
    } else {
        let mut cut = subvec(&uc, 0, 60);
        cut.push('.');
        cut.push('.');
        cut.push('.');
        proof {
            assert(cut@ =~= url@.subrange(0, 60) + seq!['.', '.', '.']);
        }
        string_from(&cut)
    }
}

} // verus!