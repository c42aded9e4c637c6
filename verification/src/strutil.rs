//! Character-sequence utilities shared by the manifest parsers, the cache
//! keying and the query filter: ASCII case folding, whitespace trimming and
//! substring search, each specified over `Seq<char>`.

use vstd::prelude::*;

verus! {

/// ASCII whitespace, the only whitespace these manifests use.
pub open spec fn is_space(c: char) -> bool {
    c == ' ' || c == '\t' || c == '\r' || c == '\n'
}

/// ASCII lower-casing of a single character; other characters are unchanged.
pub open spec fn spec_lower_char(c: char) -> char {
    if 'A' <= c && c <= 'Z' {
        ((c as u8) + 32) as char
    } else {
        c
    }
}

pub open spec fn spec_lower(s: Seq<char>) -> Seq<char> {
    Seq::new(s.len(), |i: int| spec_lower_char(s[i]))
}

pub open spec fn spec_trim_start(s: Seq<char>) -> Seq<char>
    decreases s.len(),
{
    if s.len() > 0 && is_space(s[0]) {
        spec_trim_start(s.drop_first())
    } else {
        s
    }
}

pub open spec fn spec_trim_end(s: Seq<char>) -> Seq<char>
    decreases s.len(),
{
    if s.len() > 0 && is_space(s[s.len() - 1]) {
        spec_trim_end(s.drop_last())
    } else {
        s
    }
}

/// Whitespace removed from both ends, as `str::trim` does on ASCII text.
pub open spec fn spec_trim(s: Seq<char>) -> Seq<char> {
    spec_trim_end(spec_trim_start(s))
}

/// The pattern `pat` occurs in `s` at position `i`.
pub open spec fn match_at(s: Seq<char>, pat: Seq<char>, i: int) -> bool {
    0 <= i && i + pat.len() <= s.len() && s.subrange(i, i + pat.len()) == pat
}

/// Position of the first occurrence of `pat` in `s` at or after `from`.
pub open spec fn spec_find_from(s: Seq<char>, pat: Seq<char>, from: int) -> Option<int>
    decreases s.len() - from,
{
    if from < 0 || from + pat.len() > s.len() {
        None
    } else if pat.len() == 0 {
        Some(from)
    } else if match_at(s, pat, from) {
        Some(from)
    } else {
        spec_find_from(s, pat, from + 1)
    }
}

/// Position of the first occurrence of `pat` in `s`, as `str::find` gives it.
pub open spec fn spec_find(s: Seq<char>, pat: Seq<char>) -> Option<int> {
    spec_find_from(s, pat, 0)
}

pub open spec fn spec_contains(s: Seq<char>, pat: Seq<char>) -> bool {
    spec_find(s, pat) is Some
}

/// Everything before the first occurrence of `c`, or all of `s` when `c` does
/// not occur: the first piece of `str::split`.
pub open spec fn before_char(s: Seq<char>, c: char) -> Seq<char> {
    match spec_find(s, seq![c]) {
        Some(i) => s.subrange(0, i),
        None => s,
    }
}

/// Every occurrence of `from` replaced by `to`.
pub open spec fn spec_replace_char(s: Seq<char>, from: char, to: char) -> Seq<char> {
    Seq::new(s.len(), |i: int| if s[i] == from { to } else { s[i] })
}

pub open spec fn spec_starts_with(s: Seq<char>, pat: Seq<char>) -> bool {
    pat.len() <= s.len() && s.subrange(0, pat.len() as int) == pat
}

/// One carriage return stripped from the end, as `str::lines` strips it from
/// a piece that ended at a line feed.
pub open spec fn strip_cr(l: Seq<char>) -> Seq<char> {
    if l.len() > 0 && l[l.len() - 1] == '\r' {
        l.drop_last()
    } else {
        l
    }
}

pub proof fn lemma_trim_start_len(s: Seq<char>)
    ensures
        spec_trim_start(s).len() <= s.len(),
    decreases s.len(),
{
    if s.len() > 0 && is_space(s[0]) {
        lemma_trim_start_len(s.drop_first());
    }
}

pub proof fn lemma_trim_end_len(s: Seq<char>)
    ensures
        spec_trim_end(s).len() <= s.len(),
    decreases s.len(),
{
    if s.len() > 0 && is_space(s[s.len() - 1]) {
        lemma_trim_end_len(s.drop_last());
    }
}

pub proof fn lemma_trim_start_head(s: Seq<char>)
    ensures
        spec_trim_start(s).len() > 0 ==> !is_space(spec_trim_start(s)[0]),
    decreases s.len(),
{
    if s.len() > 0 && is_space(s[0]) {
        lemma_trim_start_head(s.drop_first());
    }
}

pub proof fn lemma_trim_end_last(s: Seq<char>)
    ensures
        spec_trim_end(s).len() > 0 ==> !is_space(spec_trim_end(s)[spec_trim_end(s).len() - 1]),
    decreases s.len(),
{
    if s.len() > 0 && is_space(s[s.len() - 1]) {
        lemma_trim_end_last(s.drop_last());
    }
}

/// Trimming the end keeps a prefix of the text unchanged.
pub proof fn lemma_trim_end_prefix(s: Seq<char>)
    ensures
        spec_trim_end(s).len() <= s.len(),
        forall|i: int| 0 <= i < spec_trim_end(s).len() ==> spec_trim_end(s)[i] == s[i],
    decreases s.len(),
{
    if s.len() > 0 && is_space(s[s.len() - 1]) {
        lemma_trim_end_prefix(s.drop_last());
        assert forall|i: int| 0 <= i < spec_trim_end(s).len() implies spec_trim_end(s)[i]
            == s[i] by {
            assert(spec_trim_end(s) == spec_trim_end(s.drop_last()));
            assert(spec_trim_end(s.drop_last())[i] == s.drop_last()[i]);
            assert(s.drop_last()[i] == s[i]);
        }
    }
}

/// Trimming is idempotent.
pub proof fn lemma_trim_idempotent(s: Seq<char>)
    ensures
        spec_trim(spec_trim(s)) == spec_trim(s),
{
    let u = spec_trim_start(s);
    let t = spec_trim_end(u);
    lemma_trim_start_head(s);
    lemma_trim_end_last(u);
    lemma_trim_end_prefix(u);
    if t.len() > 0 {
        assert(t[0] == u[0]);
        assert(!is_space(t[0]));
        assert(spec_trim_start(t) == t);
        assert(!is_space(t[t.len() - 1]));
        assert(spec_trim_end(t) == t);
    } else {
        assert(spec_trim_start(t) == t);
        assert(spec_trim_end(t) == t);
    }
}

/// A non-empty fixpoint of `spec_trim` neither starts nor ends with a space.
pub proof fn lemma_trim_fixpoint_ends(s: Seq<char>)
    requires
        spec_trim(s) == s,
        s.len() > 0,
    ensures
        !is_space(s[0]),
        !is_space(s[s.len() - 1]),
{
    if is_space(s[0]) {
        lemma_trim_start_len(s.drop_first());
        lemma_trim_end_len(spec_trim_start(s.drop_first()));
        assert(false);
    }
    assert(spec_trim_start(s) == s);
    if is_space(s[s.len() - 1]) {
        lemma_trim_end_len(s.drop_last());
        assert(false);
    }
}

/// A found position lies where the pattern fits and holds a match.
pub proof fn lemma_find_from_is_match(s: Seq<char>, pat: Seq<char>, from: int)
    ensures
        match spec_find_from(s, pat, from) {
            Some(i) => from <= i && 0 <= i && i + pat.len() <= s.len() && (pat.len() == 0
                || match_at(s, pat, i)),
            None => true,
        },
    decreases s.len() - from,
{
    if from < 0 || from + pat.len() > s.len() {
    } else if pat.len() == 0 {
    } else if match_at(s, pat, from) {
    } else {
        lemma_find_from_is_match(s, pat, from + 1);
    }
}

/// The lines of `s`, split as `str::lines` splits them: at each `\n`, with a
/// `\r` before the `\n` removed, and no empty line after a final `\n`.
pub open spec fn spec_lines(s: Seq<char>) -> Seq<Seq<char>>
    decreases s.len(),
    via spec_lines_decreases
{
    if s.len() == 0 {
        Seq::empty()
    } else {
        match spec_find(s, seq!['\n']) {
            Some(i) => seq![strip_cr(s.subrange(0, i))] + spec_lines(
                s.subrange(i + 1, s.len() as int),
            ),
            None => seq![s],
        }
    }
}

#[via_fn]
proof fn spec_lines_decreases(s: Seq<char>) {
    lemma_find_from_is_match(s, seq!['\n'], 0);
}

/// Relies on `String::push`: appends the one character `c` at the end.
#[verifier::external_body]
pub(crate) fn push_char(s: &mut String, c: char)
    ensures
        final(s)@ == old(s)@.push(c),
{
    s.push(c)
}

/// The characters of `s`, in order, as a vector.
pub fn chars_vec(s: &str) -> (r: Vec<char>)
    ensures
        r@ == s@,
{
    let n = s.unicode_len();
    let mut v: Vec<char> = Vec::new();
    let mut i: usize = 0;
    while i < n
        invariant
            i <= n,
            n == s@.len(),
            v@ == s@.subrange(0, i as int),
        decreases n - i,
    {
        let c = s.get_char(i);
        v.push(c);
        proof {
            assert(v@ =~= s@.subrange(0, i + 1 as int));
        }
        i = i + 1;
    }
    proof {
        assert(v@ =~= s@);
    }
    v
}

/// A string holding exactly the characters of `chars`.
pub fn string_from(chars: &Vec<char>) -> (r: String)
    ensures
        r@ == chars@,
{
    let mut s = String::new();
    let mut i: usize = 0;
    while i < chars.len()
        invariant
            i <= chars.len(),
            s@ == chars@.subrange(0, i as int),
        decreases chars.len() - i,
    {
        push_char(&mut s, chars[i]);
        proof {
            assert(s@ =~= chars@.subrange(0, i + 1 as int));
        }
        i = i + 1;
    }
    proof {
        assert(s@ =~= chars@);
    }
    s
}

pub fn is_space_c(c: char) -> (r: bool)
    ensures
        r == is_space(c),
{
    c == ' ' || c == '\t' || c == '\r' || c == '\n'
}

pub fn lower_char(c: char) -> (r: char)
    ensures
        r == spec_lower_char(c),
{
    if 'A' <= c && c <= 'Z' {
        ((c as u8) + 32) as char
    } else {
        c
    }
}

pub fn lower_vec(v: &Vec<char>) -> (r: Vec<char>)
    ensures
        r@ == spec_lower(v@),
{
    let mut out: Vec<char> = Vec::new();
    let mut i: usize = 0;
    while i < v.len()
        invariant
            i <= v.len(),
            out@ == spec_lower(v@).subrange(0, i as int),
        decreases v.len() - i,
    {
        out.push(lower_char(v[i]));
        proof {
            assert(out@ =~= spec_lower(v@).subrange(0, i + 1 as int));
        }
        i = i + 1;
    }
    proof {
        assert(out@ =~= spec_lower(v@));
    }
    out
}

pub fn replace_char(v: &Vec<char>, from: char, to: char) -> (r: Vec<char>)
    ensures
        r@ == spec_replace_char(v@, from, to),
{
    let mut out: Vec<char> = Vec::new();
    let mut i: usize = 0;
    while i < v.len()
        invariant
            i <= v.len(),
            out@ == spec_replace_char(v@, from, to).subrange(0, i as int),
        decreases v.len() - i,
    {
        if v[i] == from {
            out.push(to);
        } else {
            out.push(v[i]);
        }
        proof {
            assert(out@ =~= spec_replace_char(v@, from, to).subrange(0, i + 1 as int));
        }
        i = i + 1;
    }
    proof {
        assert(out@ =~= spec_replace_char(v@, from, to));
    }
    out
}

/// A copy of `v[from..to]`.
pub fn subvec(v: &Vec<char>, from: usize, to: usize) -> (r: Vec<char>)
    requires
        from <= to <= v@.len(),
    ensures
        r@ == v@.subrange(from as int, to as int),
{
    let mut out: Vec<char> = Vec::new();
    let mut i: usize = from;
    while i < to
        invariant
            from <= i <= to <= v@.len(),
            out@ == v@.subrange(from as int, i as int),
        decreases to - i,
    {
        out.push(v[i]);
        proof {
            assert(out@ =~= v@.subrange(from as int, i + 1 as int));
        }
        i = i + 1;
    }
    out
}

pub fn seq_eq(a: &Vec<char>, b: &Vec<char>) -> (r: bool)
    ensures
        r == (a@ == b@),
{
    if a.len() != b.len() {
        proof {
            assert(a@ != b@);
        }
        return false;
    }
    let mut i: usize = 0;
    while i < a.len()
        invariant
            i <= a.len(),
            a@.len() == b@.len(),
            forall|j: int| 0 <= j < i ==> a@[j] == b@[j],
        decreases a.len() - i,
    {
        if a[i] != b[i] {
            return false;
        }
        i = i + 1;
    }
    proof {
        assert(a@ =~= b@);
    }
    true
}

proof fn lemma_trim_start_prefix_spaces(s: Seq<char>, i: int)
    requires
        0 <= i <= s.len(),
        forall|j: int| 0 <= j < i ==> is_space(s[j]),
    ensures
        spec_trim_start(s) == spec_trim_start(s.subrange(i, s.len() as int)),
    decreases i,
{
    if i > 0 {
        assert(is_space(s[0]));
        assert(s.drop_first() =~= s.subrange(1, s.len() as int));
        let t = s.subrange(1, s.len() as int);
        lemma_trim_start_prefix_spaces(t, i - 1);
        assert(t.subrange(i - 1, t.len() as int) =~= s.subrange(i, s.len() as int));
    } else {
        assert(s.subrange(0, s.len() as int) =~= s);
    }
}

proof fn lemma_trim_end_suffix_spaces(s: Seq<char>, e: int)
    requires
        0 <= e <= s.len(),
        forall|j: int| e <= j < s.len() ==> is_space(s[j]),
    ensures
        spec_trim_end(s) == spec_trim_end(s.subrange(0, e)),
    decreases s.len() - e,
{
    if e < s.len() {
        assert(is_space(s[s.len() - 1]));
        assert(s.drop_last() =~= s.subrange(0, s.len() - 1));
        let t = s.subrange(0, s.len() - 1);
        lemma_trim_end_suffix_spaces(t, e);
        assert(t.subrange(0, e) =~= s.subrange(0, e));
    } else {
        assert(s.subrange(0, s.len() as int) =~= s);
    }
}

/// Whitespace removed from both ends, the executable form of `spec_trim`.
pub fn trim(v: &Vec<char>) -> (r: Vec<char>)
    ensures
        r@ == spec_trim(v@),
{
    let mut start: usize = 0;
    while start < v.len() && is_space_c(v[start])
        invariant
            start <= v.len(),
            forall|j: int| 0 <= j < start ==> is_space(v@[j]),
        decreases v.len() - start,
    {
        start = start + 1;
    }
    let mut end: usize = v.len();
    while end > start && is_space_c(v[end - 1])
        invariant
            start <= end <= v.len(),
            forall|j: int| end <= j < v.len() ==> is_space(v@[j]),
        decreases end,
    {
        end = end - 1;
    }
    let r = subvec(v, start, end);
    proof {
        lemma_trim_start_prefix_spaces(v@, start as int);
        let tail = v@.subrange(start as int, v@.len() as int);
        if start < v@.len() {
            assert(!is_space(tail[0]));
        }
        assert(spec_trim_start(v@) == tail);
        lemma_trim_end_suffix_spaces(tail, end - start);
        let mid = tail.subrange(0, end - start);
        assert(mid =~= v@.subrange(start as int, end as int));
        if end > start {
            assert(!is_space(mid[mid.len() - 1]));
        }
        assert(spec_trim_end(tail) == mid);
    }
    r
}

/// Positions at or past `from` and below `i` hold no match, so the search
/// result from `from` equals the one from `i`.
pub proof fn lemma_find_from_advance(s: Seq<char>, pat: Seq<char>, from: int, i: int)
    requires
        0 <= from <= i,
        i + pat.len() <= s.len(),
        pat.len() > 0,
        forall|k: int| from <= k < i ==> !match_at(s, pat, k),
    ensures
        spec_find_from(s, pat, from) == spec_find_from(s, pat, i),
    decreases i - from,
{
    if from < i {
        assert(!match_at(s, pat, from));
        lemma_find_from_advance(s, pat, from + 1, i);
    }
}

/// No position at or past `from` holds a match, so the search from `from`
/// finds nothing.
pub proof fn lemma_find_from_none(s: Seq<char>, pat: Seq<char>, from: int)
    requires
        0 <= from,
        pat.len() > 0,
        forall|k: int| from <= k && k + pat.len() <= s.len() ==> !match_at(s, pat, k),
    ensures
        spec_find_from(s, pat, from) is None,
    decreases s.len() - from,
{
    if from + pat.len() <= s.len() {
        assert(!match_at(s, pat, from));
        lemma_find_from_none(s, pat, from + 1);
    }
}

/// Whether `pat` occurs in `v` at position `i`.
pub fn match_at_x(v: &Vec<char>, pat: &Vec<char>, i: usize) -> (r: bool)
    requires
        i + pat@.len() <= v@.len(),
    ensures
        r == match_at(v@, pat@, i as int),
{
    let n = v.len();
    let mut j: usize = 0;
    while j < pat.len()
        invariant
            j <= pat@.len(),
            i + pat@.len() <= v@.len(),
            n == v@.len(),
            forall|k: int| 0 <= k < j ==> v@[i + k] == pat@[k],
        decreases pat.len() - j,
    {
        proof {
            assert(i + j < v@.len());
        }
        if v[i + j] != pat[j] {
            proof {
                assert(v@.subrange(i as int, i + pat@.len())[j as int] != pat@[j as int]);
            }
            return false;
        }
        j = j + 1;
    }
    proof {
        assert(v@.subrange(i as int, i + pat@.len()) =~= pat@);
    }
    true
}

/// The position of the first occurrence of `pat` in `v`, if any.
pub fn find_sub(v: &Vec<char>, pat: &Vec<char>) -> (r: Option<usize>)
    ensures
        match r {
            Some(i) => spec_find(v@, pat@) == Some(i as int) && i + pat@.len() <= v@.len(),
            None => spec_find(v@, pat@) is None,
        },
{
    if pat.len() == 0 {
        return Some(0);
    }
    if pat.len() > v.len() {
        proof {
            lemma_find_from_none(v@, pat@, 0);
        }
        return None;
    }
    let last = v.len() - pat.len();
    let mut i: usize = 0;
    while i <= last
        invariant
            i <= last + 1,
            last + pat@.len() == v@.len(),
            v@.len() <= usize::MAX,
            pat@.len() > 0,
            forall|k: int| 0 <= k < i ==> !match_at(v@, pat@, k),
        decreases last - i + 1,
    {
        if match_at_x(v, pat, i) {
            proof {
                lemma_find_from_advance(v@, pat@, 0, i as int);
            }
            return Some(i);
        }
        i = i + 1;
    }
    proof {
        lemma_find_from_none(v@, pat@, 0);
    }
    None
}

pub fn contains_sub(v: &Vec<char>, pat: &Vec<char>) -> (r: bool)
    ensures
        r == spec_contains(v@, pat@),
{
    match find_sub(v, pat) {
        Some(_) => true,
        None => false,
    }
}

/// Everything before the first occurrence of `c`, or a copy of all of `v`.
pub fn before_char_x(v: &Vec<char>, c: char) -> (r: Vec<char>)
    ensures
        r@ == before_char(v@, c),
{
    let pat: Vec<char> = vec![c];
    proof {
        assert(pat@ =~= seq![c]);
    }
    match find_sub(v, &pat) {
        Some(i) => subvec(v, 0, i),
        None => subvec(v, 0, v.len()),
    }
}

/// The lines of `v`, split as `spec_lines` describes.
pub fn split_lines(v: &Vec<char>) -> (r: Vec<Vec<char>>)
    ensures
        r.deep_view() == spec_lines(v@),
{
    let mut out: Vec<Vec<char>> = Vec::new();
    let mut rest: Vec<char> = subvec(v, 0, v.len());
    let nl: Vec<char> = vec!['\n'];
    proof {
        assert(nl@ =~~= seq!['\n']);
        assert(rest@ =~~= v@);
        assert(out.deep_view() + spec_lines(rest@) =~~= spec_lines(v@));
    }
    while rest.len() != 0
        invariant
            nl@ == seq!['\n'],
            out.deep_view() + spec_lines(rest@) == spec_lines(v@),
        decreases rest@.len(),
    {
        let ghost prev = rest@;
        let ghost prev_out = out.deep_view();
        match find_sub(&rest, &nl) {
            Some(i) => {
                let mut piece = subvec(&rest, 0, i);
                if piece.len() > 0 && piece[piece.len() - 1] == '\r' {
                    let _ = piece.pop();
                }
                proof {
                    assert(piece@ == strip_cr(prev.subrange(0, i as int)));
                }
                out.push(piece);
                let new_rest = subvec(&rest, i + 1, rest.len());
                rest = new_rest;
                proof {
                    assert(out.deep_view() =~~= prev_out.push(strip_cr(prev.subrange(0, i as int))));
                    assert(out.deep_view() + spec_lines(rest@) =~~= prev_out + (seq![
                        strip_cr(prev.subrange(0, i as int)),
                    ] + spec_lines(prev.subrange(i + 1, prev.len() as int))));
                }
            },
            None => {
                out.push(rest);
                rest = Vec::new();
                proof {
                    assert(out.deep_view() =~~= prev_out.push(prev));
                    assert(spec_lines(prev) =~~= seq![prev]);
                    assert(out.deep_view() + spec_lines(rest@) =~~= prev_out + seq![prev]);
                }
            },
        }
    }
    proof {
        assert(out.deep_view() + spec_lines(rest@) =~~= out.deep_view());
    }
    out
}

/// Character-for-character string equality.
pub fn str_eq(a: &str, b: &str) -> (r: bool)
    ensures
        r == (a@ == b@),
{
    let va = chars_vec(a);
    let vb = chars_vec(b);
    seq_eq(&va, &vb)
}

/// All pieces of `s` between occurrences of `sep`, as `str::split` yields
/// them: `n` separators give `n + 1` pieces, empty pieces included.
pub open spec fn spec_split_char(s: Seq<char>, sep: char) -> Seq<Seq<char>>
    decreases s.len(),
    via spec_split_char_decreases
{
    match spec_find(s, seq![sep]) {
        Some(i) => seq![s.subrange(0, i)] + spec_split_char(s.subrange(i + 1, s.len() as int), sep),
        None => seq![s],
    }
}

#[via_fn]
proof fn spec_split_char_decreases(s: Seq<char>, sep: char) {
    lemma_find_from_is_match(s, seq![sep], 0);
}

/// The pieces of `v` split at `sep`, matching `spec_split_char`.
pub fn split_char(v: &Vec<char>, sep: char) -> (r: Vec<Vec<char>>)
    ensures
        r.deep_view() == spec_split_char(v@, sep),
{
    let mut out: Vec<Vec<char>> = Vec::new();
    let mut rest: Vec<char> = subvec(v, 0, v.len());
    let pat: Vec<char> = vec![sep];
    proof {
        assert(pat@ =~= seq![sep]);
        assert(rest@ =~= v@);
        assert(out.deep_view() + spec_split_char(rest@, sep) =~~= spec_split_char(v@, sep));
    }
    loop
        invariant
            pat@ == seq![sep],
            out.deep_view() + spec_split_char(rest@, sep) == spec_split_char(v@, sep),
        decreases rest@.len(),
    {
        let ghost prev = rest@;
        let ghost prev_out = out.deep_view();
        match find_sub(&rest, &pat) {
            Some(i) => {
                let piece = subvec(&rest, 0, i);
                out.push(piece);
                let rl = rest.len();
                proof {
                    assert(i + 1 <= rl);
                }
                let new_rest = subvec(&rest, i + 1, rl);
                rest = new_rest;
                proof {
                    assert(out.deep_view() =~~= prev_out.push(prev.subrange(0, i as int)));
                    assert(out.deep_view() + spec_split_char(rest@, sep) =~~= prev_out + (seq![
                        prev.subrange(0, i as int),
                    ] + spec_split_char(prev.subrange(i + 1, prev.len() as int), sep)));
                }
            },
            None => {
                out.push(rest);
                proof {
                    assert(out.deep_view() =~~= prev_out.push(prev));
                    assert(spec_split_char(prev, sep) =~~= seq![prev]);
                    assert(out.deep_view() =~~= prev_out + spec_split_char(prev, sep));
                }
                return out;
            },
        }
    }
}

/// ASCII-case-insensitive equality, as `str::eq_ignore_ascii_case` decides it.
pub fn eq_ignore_case(a: &Vec<char>, b: &Vec<char>) -> (r: bool)
    ensures
        r == (spec_lower(a@) == spec_lower(b@)),
{
    let la = lower_vec(a);
    let lb = lower_vec(b);
    seq_eq(&la, &lb)
}

} // verus!
