//! The pip requirements parser: line-oriented text, one dependency per line,
//! comments after `#`, environment markers after `;`, and a fixed priority
//! list of version comparators.

use vstd::prelude::*;

use crate::strutil::{
    before_char, before_char_x, chars_vec, find_sub, lemma_find_from_advance,
    lemma_find_from_none, lemma_trim_fixpoint_ends, match_at, replace_char, spec_find, spec_lines,
    spec_replace_char, spec_trim, spec_trim_end, spec_trim_start, split_lines, string_from,
    subvec, trim,
};
use crate::types::{
    pip_manager, pip_seq, record_ok, unknown_license, unknown_seq, DependencyRecord, RecordView,
};

verus! {

/// The comparator tokens, in the priority order they are searched for.
pub open spec fn markers() -> Seq<Seq<char>> {
    seq![
        seq!['=', '=', '='],
        seq!['=', '='],
        seq!['>', '='],
        seq!['<', '='],
        seq!['~', '='],
        seq!['!', '='],
        seq!['>'],
        seq!['<'],
        seq!['='],
    ]
}

/// The first comparator of `ms` (in priority order, not position order) that
/// occurs in `req`, with the position of its first occurrence.
pub open spec fn spec_find_marker(req: Seq<char>, ms: Seq<Seq<char>>) -> Option<(Seq<char>, int)>
    decreases ms.len(),
{
    if ms.len() == 0 {
        None
    } else {
        match spec_find(req, ms[0]) {
            Some(i) => Some((ms[0], i)),
            None => spec_find_marker(req, ms.drop_first()),
        }
    }
}

/// Package-name normalization: trim, cut at the extras marker `[`, map `_`
/// to `-`; an empty outcome drops the line.
pub open spec fn spec_normalize_name(name: Seq<char>) -> Option<Seq<char>> {
    let t = spec_trim(name);
    if t.len() == 0 {
        None
    } else {
        let base = spec_replace_char(before_char(t, '['), '_', '-');
        if base.len() == 0 {
            None
        } else {
            Some(base)
        }
    }
}

/// What one requirements line denotes: a `(name, optional version)` pair, or
/// nothing for blank lines, comments and pip option lines.
pub open spec fn spec_parse_requirement_line(line: Seq<char>) -> Option<
    (Seq<char>, Option<Seq<char>>),
> {
    let wc = spec_trim(before_char(line, '#'));
    if wc.len() == 0 || wc[0] == '-' {
        None
    } else {
        let req = spec_trim(before_char(wc, ';'));
        if req.len() == 0 {
            None
        } else {
            match spec_find_marker(req, markers()) {
                Some((m, idx)) => match spec_normalize_name(req.subrange(0, idx)) {
                    Some(n) => {
                        let ver = spec_trim(req.subrange(idx + m.len(), req.len() as int));
                        Some((n, if ver.len() == 0 { None } else { Some(ver) }))
                    },
                    None => None,
                },
                None => match spec_normalize_name(req) {
                    Some(n) => Some((n, None)),
                    None => None,
                },
            }
        }
    }
}

fn normalize_name_vec(v: &Vec<char>) -> (r: Option<Vec<char>>)
    ensures
        r.deep_view() == spec_normalize_name(v@),
{
    let t = trim(v);
    if t.len() == 0 {
        return None;
    }
    let cut = before_char_x(&t, '[');
    let base = replace_char(&cut, '_', '-');
    if base.len() == 0 {
        None
    } else {
        Some(base)
    }
}

/// `spec_normalize_name` on a string, building a fresh `String`.
pub fn normalize_package_name(name: &str) -> (r: Option<String>)
    ensures
        r.deep_view() == spec_normalize_name(name@),
{
    let v = chars_vec(name);
    match normalize_name_vec(&v) {
        Some(base) => Some(string_from(&base)),
        None => None,
    }
}

/// The executable comparator list, matching `markers()`.
fn markers_vec() -> (r: Vec<Vec<char>>)
    ensures
        r.deep_view() == markers(),
        forall|k: int| 0 <= k < r@.len() ==> r@[k]@ == markers()[k],
{
    let mut r: Vec<Vec<char>> = Vec::new();
    r.push(vec!['=', '=', '=']);
    r.push(vec!['=', '=']);
    r.push(vec!['>', '=']);
    r.push(vec!['<', '=']);
    r.push(vec!['~', '=']);
    r.push(vec!['!', '=']);
    r.push(vec!['>']);
    r.push(vec!['<']);
    r.push(vec!['=']);
    proof {
        assert(r.deep_view() =~~= markers());
        assert forall|k: int| 0 <= k < r@.len() implies r@[k]@ == markers()[k] by {
            assert(r.deep_view()[k] == r@[k].deep_view());
        }
    }
    r
}

/// One requirements line parsed into a `(name, version)` pair.
pub fn parse_requirement_line(line: &str) -> (r: Option<(String, Option<String>)>)
    ensures
        r.deep_view() == spec_parse_requirement_line(line@),
{
    let chars = chars_vec(line);
    parse_line_vec(&chars)
}

#[verifier::loop_isolation(false)]
fn parse_line_vec(chars: &Vec<char>) -> (r: Option<(String, Option<String>)>)
    ensures
        r.deep_view() == spec_parse_requirement_line(chars@),
{
    let no_comment = before_char_x(chars, '#');
    let wc = trim(&no_comment);
    if wc.len() == 0 {
        return None;
    }
    if wc[0] == '-' {
        return None;
    }
    let no_marker = before_char_x(&wc, ';');
    let req = trim(&no_marker);
    if req.len() == 0 {
        return None;
    }
    let ms = markers_vec();
    proof {
        assert(markers().subrange(0, markers().len() as int) =~= markers());
    }
    let mut k: usize = 0;
    while k < ms.len()
        invariant
            k <= ms@.len(),
            ms.deep_view() == markers(),
            forall|j: int| 0 <= j < ms@.len() ==> ms@[j]@ == markers()[j],
            spec_find_marker(req@, markers()) == spec_find_marker(
                req@,
                markers().subrange(k as int, markers().len() as int),
            ),
        decreases ms.len() - k,
    {
        proof {
            assert(markers().subrange(k as int, markers().len() as int)[0] == markers()[k as int]);
        }
        match find_sub(&req, &ms[k]) {
            Some(idx) => {
                proof {
                    assert(spec_find_marker(
                        req@,
                        markers().subrange(k as int, markers().len() as int),
                    ) == Some((markers()[k as int], idx as int)));
                }
                let name_part = subvec(&req, 0, idx);
                match normalize_name_vec(&name_part) {
                    Some(n) => {
                        let mlen = ms[k].len();
                        let rlen = req.len();
                        proof {
                            assert(idx + mlen <= rlen);
                        }
                        let raw_ver = subvec(&req, idx + mlen, rlen);
                        let ver = trim(&raw_ver);
                        let name_s = string_from(&n);
                        if ver.len() == 0 {
                            return Some((name_s, None));
                        } else {
                            let ver_s = string_from(&ver);
                            return Some((name_s, Some(ver_s)));
                        }
                    },
                    None => {
                        return None;
                    },
                }
            },
            None => {
                proof {
                    assert(markers().subrange(k as int, markers().len() as int).drop_first()
                        =~= markers().subrange(k + 1 as int, markers().len() as int));
                }
            },
        }
        k = k + 1;
    }
    proof {
        assert(markers().subrange(markers().len() as int, markers().len() as int).len() == 0);
    }
    match normalize_name_vec(&req) {
        Some(n) => Some((string_from(&n), None)),
        None => None,
    }
}

/// A character that a canonical requirement name may not hold: a comment,
/// environment-marker, comparator, extras or underscore character, each of
/// which the parser would fold away.
pub open spec fn name_breaking(c: char) -> bool {
    c == '#' || c == ';' || c == '=' || c == '[' || c == '_'
}

/// A canonical requirement name, the shape the parser itself emits from an
/// ordinary line: non-empty, trimmed, not an option line, no folding
/// characters.
pub open spec fn canonical_name(n: Seq<char>) -> bool {
    n.len() > 0 && spec_trim(n) == n && n[0] != '-' && (forall|j: int|
        0 <= j < n.len() ==> !name_breaking(#[trigger] n[j]))
}

/// A character that a canonical version constraint may not hold.
pub open spec fn version_breaking(c: char) -> bool {
    c == '#' || c == ';' || c == '='
}

/// A canonical version constraint: non-empty, trimmed, no comment,
/// environment-marker or equals characters.
pub open spec fn canonical_version(v: Seq<char>) -> bool {
    v.len() > 0 && spec_trim(v) == v && (forall|j: int|
        0 <= j < v.len() ==> !version_breaking(#[trigger] v[j]))
}

/// The line `name==version` derived from a parsed pair.
pub open spec fn derived_line(n: Seq<char>, v: Seq<char>) -> Seq<char> {
    n + seq!['=', '='] + v
}

/// Parsing is idempotent: a canonical `(name, version)` pair, written back as
/// the line `name==version`, parses to exactly the same pair. Canonicity is
/// what parsing itself yields on ordinary lines; it rules out pairs such as a
/// name starting with a folded underscore, which a reparse would re-fold.
pub proof fn lemma_parse_roundtrip(n: Seq<char>, v: Seq<char>)
    requires
        canonical_name(n),
        canonical_version(v),
    ensures
        spec_parse_requirement_line(derived_line(n, v)) == Some((n, Some(v))),
{
    let d = derived_line(n, v);
    let nl = n.len() as int;
    assert(d.len() == nl + 2 + v.len());
    assert(forall|j: int| 0 <= j < nl ==> d[j] == n[j]);
    assert(d[nl] == '=' && d[nl + 1] == '=');
    assert(forall|j: int| 0 <= j < v.len() ==> d[nl + 2 + j] == v[j]);
    // No character of the derived line is a comment or marker character, and
    // equals signs stand only at the two comparator positions.
    assert forall|k: int| 0 <= k < d.len() implies d[k] != '#' && d[k] != ';' && (d[k] == '='
        ==> k == nl || k == nl + 1) by {
        if k < nl {
            assert(d[k] == n[k]);
        } else if k >= nl + 2 {
            assert(d[k] == v[k - nl - 2]);
        }
    }
    // Hence neither '#' nor ';' occurs at all.
    assert forall|k: int| true implies !match_at(d, seq!['#'], k) && !match_at(
        d,
        seq![';'],
        k,
    ) by {
        if match_at(d, seq!['#'], k) {
            assert(d.subrange(k, k + 1)[0] == seq!['#'][0]);
        }
        if match_at(d, seq![';'], k) {
            assert(d.subrange(k, k + 1)[0] == seq![';'][0]);
        }
    }
    lemma_find_from_none(d, seq!['#'], 0);
    lemma_find_from_none(d, seq![';'], 0);
    assert(before_char(d, '#') == d);
    // The derived line is itself trimmed: its first character is the name's,
    // its last the version's.
    lemma_trim_fixpoint_ends(n);
    lemma_trim_fixpoint_ends(v);
    assert(d[0] == n[0]);
    assert(d[d.len() - 1] == v[v.len() - 1]);
    assert(spec_trim_start(d) == d);
    assert(spec_trim_end(d) == d);
    assert(spec_trim(d) == d);
    assert(before_char(d, ';') == d);
    // The triple comparator does not occur: three adjacent equals signs would
    // need three positions among the two comparator ones.
    assert forall|k: int| true implies !match_at(d, seq!['=', '=', '='], k) by {
        if match_at(d, seq!['=', '=', '='], k) {
            assert(d.subrange(k, k + 3)[0] == '=');
            assert(d.subrange(k, k + 3)[1] == '=');
            assert(d.subrange(k, k + 3)[2] == '=');
            assert(d[k] == '=' && d[k + 1] == '=' && d[k + 2] == '=');
        }
    }
    lemma_find_from_none(d, seq!['=', '=', '='], 0);
    // The double comparator occurs first at the boundary position.
    assert(d.subrange(nl, nl + 2) =~= seq!['=', '=']);
    assert(match_at(d, seq!['=', '='], nl));
    assert forall|k: int| 0 <= k < nl implies !match_at(d, seq!['=', '='], k) by {
        if match_at(d, seq!['=', '='], k) {
            assert(d.subrange(k, k + 2)[0] == '=');
            assert(d[k] == '=');
        }
    }
    lemma_find_from_advance(d, seq!['=', '='], 0, nl);
    assert(spec_find(d, seq!['=', '=']) == Some(nl));
    // So the marker search lands on the double comparator.
    assert(markers()[0] =~= seq!['=', '=', '=']);
    assert(markers().drop_first()[0] =~= seq!['=', '=']);
    assert(spec_find_marker(d, markers()) == Some((seq!['=', '='], nl))) by {
        assert(spec_find(d, markers()[0]) is None);
        assert(spec_find_marker(d, markers()) == spec_find_marker(d, markers().drop_first()));
        assert(markers().drop_first().len() > 0);
        assert(spec_find(d, markers().drop_first()[0]) == Some(nl));
        assert(spec_find_marker(d, markers().drop_first()) == Some(
            (markers().drop_first()[0], nl),
        ));
        assert(markers().drop_first()[0] == seq!['=', '=']);
    }
    // The name part normalizes to the name itself.
    assert(d.subrange(0, nl) =~= n);
    assert(spec_find(n, seq!['[']) is None) by {
        assert forall|k: int| true implies !match_at(n, seq!['['], k) by {
            if match_at(n, seq!['['], k) {
                assert(n.subrange(k, k + 1)[0] == seq!['['][0]);
            }
        }
        lemma_find_from_none(n, seq!['['], 0);
    }
    assert(before_char(n, '[') == n);
    assert(spec_replace_char(n, '_', '-') =~= n);
    assert(spec_normalize_name(n) == Some(n));
    // The version part trims to the version itself.
    assert(d.subrange(nl + 2, d.len() as int) =~= v);
}

/// The idempotence law on a parsed line: when parsing a line produced a
/// canonical pair, writing the pair back as `name==version` and parsing
/// again yields the same pair. An uncanonical pair can fold differently: the
/// line `_a==1` parses to the name `-a`, whose written-back form `-a==1`
/// reads as an option line and parses to nothing.
pub proof fn lemma_parse_requirement_idempotent(line: Seq<char>, n: Seq<char>, v: Seq<char>)
    requires
        spec_parse_requirement_line(line) == Some((n, Some(v))),
        canonical_name(n),
        canonical_version(v),
    ensures
        spec_parse_requirement_line(derived_line(n, v)) == spec_parse_requirement_line(line),
{
    lemma_parse_roundtrip(n, v);
}

/// The record one accepted requirements line yields.
pub open spec fn spec_pip_record(
    name: Seq<char>,
    version: Option<Seq<char>>,
    source: Seq<char>,
) -> RecordView {
    RecordView {
        manager: pip_seq(),
        name,
        version,
        license: unknown_seq(),
        source,
        homepage: None,
    }
}

/// The records of a whole requirements file, line by line; lines that denote
/// nothing contribute nothing.
pub open spec fn spec_pip_records(lines: Seq<Seq<char>>, source: Seq<char>) -> Seq<RecordView>
    decreases lines.len(),
{
    if lines.len() == 0 {
        Seq::empty()
    } else {
        let rest = spec_pip_records(lines.drop_first(), source);
        match spec_parse_requirement_line(lines[0]) {
            Some(nv) => seq![spec_pip_record(nv.0, nv.1, source)] + rest,
            None => rest,
        }
    }
}

/// Every record of a requirements file carries the pip manager tag, the
/// `"Unknown"` license, the file's path and no homepage.
pub proof fn lemma_pip_records_shape(lines: Seq<Seq<char>>, source: Seq<char>)
    ensures
        forall|j: int|
            0 <= j < spec_pip_records(lines, source).len() ==> {
                let r = #[trigger] spec_pip_records(lines, source)[j];
                r.manager == pip_seq() && r.license == unknown_seq() && r.source == source
                    && r.homepage is None && record_ok(r)
            },
    decreases lines.len(),
{
    if lines.len() > 0 {
        lemma_pip_records_shape(lines.drop_first(), source);
    }
}

/// A whole requirements file parsed into dependency records.
#[verifier::loop_isolation(false)]
pub fn parse_requirements(content: &str, source: &str) -> (r: Vec<DependencyRecord>)
    ensures
        r.deep_view() == spec_pip_records(spec_lines(content@), source@),
{
    let cv = chars_vec(content);
    let lines = split_lines(&cv);
    let src: String = source.to_owned();
    let mut out: Vec<DependencyRecord> = Vec::new();
    let ghost all = lines.deep_view();
    let mut i: usize = 0;
    proof {
        assert(all.subrange(i as int, all.len() as int) =~= all);
        assert(out.deep_view() + spec_pip_records(all, source@) =~= spec_pip_records(
            all,
            source@,
        ));
    }
    while i < lines.len()
        invariant
            i <= lines@.len(),
            all == lines.deep_view(),
            src@ == source@,
            out.deep_view() + spec_pip_records(
                all.subrange(i as int, all.len() as int),
                source@,
            ) == spec_pip_records(all, source@),
        decreases lines@.len() - i,
    {
        let ghost tail = all.subrange(i as int, all.len() as int);
        let ghost prev_out = out.deep_view();
        proof {
            assert(tail[0] == all[i as int]);
            assert(tail.drop_first() =~= all.subrange(i + 1 as int, all.len() as int));
            assert(lines@[i as int].deep_view() == all[i as int]);
            assert(lines@[i as int]@ =~= lines@[i as int].deep_view());
        }
        match parse_line_vec(&lines[i]) {
            Some((name, version)) => {
                let rec = DependencyRecord {
                    manager: pip_manager(),
                    name,
                    version,
                    license: unknown_license(),
                    source: src.clone(),
                    homepage: None,
                };
                proof {
                    let nv = spec_parse_requirement_line(all[i as int])->Some_0;
                    assert(rec@ =~= spec_pip_record(nv.0, nv.1, source@));
                }
                out.push(rec);
                proof {
                    assert(out.deep_view() =~= prev_out.push(
                        spec_pip_record(
                            spec_parse_requirement_line(all[i as int])->Some_0.0,
                            spec_parse_requirement_line(all[i as int])->Some_0.1,
                            source@,
                        ),
                    ));
                    assert(out.deep_view() + spec_pip_records(tail.drop_first(), source@)
                        =~= prev_out + spec_pip_records(tail, source@));
                }
            },
            None => {},
        }
        i = i + 1;
    }
    proof {
        assert(all.subrange(all.len() as int, all.len() as int).len() == 0);
        assert(out.deep_view() + spec_pip_records(
            all.subrange(all.len() as int, all.len() as int),
            source@,
        ) =~= out.deep_view());
    }
    out
}

} // verus!
