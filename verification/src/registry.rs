//! Registry-facing pieces that stay pure: URL construction for the two
//! registries, the normalization of license texts and homepage URLs, and the
//! decoding of registry responses into package metadata.

use vstd::prelude::*;

use crate::json::{
    extract_license, spec_as_str, spec_extract_license, spec_get, spec_obj_get, JsonValue,
};
use crate::strutil::{
    chars_vec, contains_sub, find_sub, lemma_find_from_is_match, spec_contains,
    spec_find, spec_lower, spec_starts_with, spec_trim, string_from, subvec, trim,
};
use crate::types::{metadata_ok, MetadataView, PackageMetadata};

verus! {

/// The uppercase hexadecimal digit for `n` below 16.
pub open spec fn hex_digit(n: u8) -> char {
    if n < 10 {
        ((n + 0x30) as u8) as char
    } else {
        ((n - 10 + 0x41) as u8) as char
    }
}

/// A byte that percent-encoding leaves as it stands: an ASCII alphanumeric
/// or one of `-`, `.`, `_`, `~`.
pub open spec fn is_url_safe_byte(b: u8) -> bool {
    (0x30 <= b && b <= 0x39) || (0x41 <= b && b <= 0x5A) || (0x61 <= b && b <= 0x7A) || b == 0x2D
        || b == 0x2E || b == 0x5F || b == 0x7E
}

/// Each byte kept or replaced by `%` and two uppercase hex digits.
pub open spec fn percent_encode_bytes(bs: Seq<u8>) -> Seq<char>
    decreases bs.len(),
{
    if bs.len() == 0 {
        Seq::empty()
    } else {
        let head = if is_url_safe_byte(bs[0]) {
            seq![bs[0] as char]
        } else {
            seq!['%', hex_digit(bs[0] / 16), hex_digit(bs[0] % 16)]
        };
        head + percent_encode_bytes(bs.drop_first())
    }
}

/// Percent-encoding of a string: its UTF-8 bytes, each kept or escaped.
pub open spec fn spec_percent_encode(s: Seq<char>) -> Seq<char> {
    percent_encode_bytes(vstd::utf8::encode_utf8(s))
}

/// Relies on `urlencoding::encode`: percent-encodes every byte of the UTF-8
/// form except ASCII alphanumerics and `-`, `.`, `_`, `~`, writing two
/// uppercase hex digits after each `%`.
#[verifier::external_body]
fn percent_encode(s: &str) -> (r: String)
    ensures
        r@ == spec_percent_encode(s@),
{
    urlencoding::encode(s).into_owned()
}

/// The PyPI JSON API endpoint for a package.
pub open spec fn spec_pypi_url(name: Seq<char>) -> Seq<char> {
    "https://pypi.org/pypi/"@ + spec_percent_encode(name) + "/json"@
}

/// The npm registry endpoint for a package.
pub open spec fn spec_npm_url(name: Seq<char>) -> Seq<char> {
    "https://registry.npmjs.org/"@ + spec_percent_encode(name)
}

pub fn pypi_url(name: &str) -> (r: String)
    ensures
        r@ == spec_pypi_url(name@),
{
    let mut r = String::new();
    r.append("https://pypi.org/pypi/");
    let enc = percent_encode(name);
    r.append(enc.as_str());
    r.append("/json");
    r
}

pub fn npm_url(name: &str) -> (r: String)
    ensures
        r@ == spec_npm_url(name@),
{
    let mut r = String::new();
    r.append("https://registry.npmjs.org/");
    let enc = percent_encode(name);
    r.append(enc.as_str());
    r
}

/// The end of `s` with every trailing `c` removed, as `str::trim_end_matches`
/// leaves it for a one-character pattern.
pub open spec fn spec_trim_end_char(s: Seq<char>, c: char) -> Seq<char>
    decreases s.len(),
{
    if s.len() > 0 && s[s.len() - 1] == c {
        spec_trim_end_char(s.drop_last(), c)
    } else {
        s
    }
}

/// `s` with every repetition of the suffix `pat` removed, as
/// `str::trim_end_matches` leaves it.
pub open spec fn spec_trim_end_pat(s: Seq<char>, pat: Seq<char>) -> Seq<char>
    decreases s.len(),
{
    if pat.len() > 0 && pat.len() <= s.len() && s.subrange(s.len() - pat.len(), s.len() as int)
        == pat {
        spec_trim_end_pat(s.subrange(0, s.len() - pat.len()), pat)
    } else {
        s
    }
}

/// A URL trimmed of whitespace and of every trailing slash; an empty or
/// all-slash text counts as no URL.
pub open spec fn spec_normalize_homepage(url: Seq<char>) -> Option<Seq<char>> {
    let t = spec_trim(url);
    if t.len() == 0 {
        None
    } else {
        let c = spec_trim_end_char(t, '/');
        if c.len() == 0 {
            None
        } else {
            Some(c)
        }
    }
}

/// A license text trimmed; blank or (case-insensitively) "unknown" counts as
/// no license.
pub open spec fn spec_normalize_license_text(text: Seq<char>) -> Option<Seq<char>> {
    let t = spec_trim(text);
    if t.len() == 0 || spec_lower(t) == seq!['u', 'n', 'k', 'n', 'o', 'w', 'n'] {
        None
    } else {
        Some(t)
    }
}

/// A repository reference cut down to a homepage: one leading `git+` and
/// every trailing `.git` removed, then normalized as a homepage.
pub open spec fn spec_normalize_repository_url(url: Seq<char>) -> Option<Seq<char>> {
    let t = spec_trim(url);
    if t.len() == 0 {
        None
    } else {
        let no_prefix = if spec_starts_with(t, seq!['g', 'i', 't', '+']) {
            t.subrange(4, t.len() as int)
        } else {
            t
        };
        let cleaned = spec_trim_end_pat(no_prefix, seq!['.', 'g', 'i', 't']);
        spec_normalize_homepage(cleaned)
    }
}

/// `spec_trim_end_char` on a vector.
pub fn trim_end_char(v: &Vec<char>, c: char) -> (r: Vec<char>)
    ensures
        r@ == spec_trim_end_char(v@, c),
{
    let mut end: usize = v.len();
    proof {
        assert(v@.subrange(0, v@.len() as int) =~= v@);
    }
    while end > 0 && v[end - 1] == c
        invariant
            end <= v@.len(),
            spec_trim_end_char(v@, c) == spec_trim_end_char(v@.subrange(0, end as int), c),
        decreases end,
    {
        proof {
            let part = v@.subrange(0, end as int);
            assert(part[part.len() - 1] == c);
            assert(part.drop_last() =~= v@.subrange(0, end - 1));
        }
        end = end - 1;
    }
    let r = subvec(v, 0, end);
    proof {
        let part = v@.subrange(0, end as int);
        if end > 0 {
            assert(part[part.len() - 1] != c);
        }
        assert(spec_trim_end_char(part, c) == part);
    }
    r
}

/// Whether `pat` stands immediately before position `end`.
fn suffix_match(v: &Vec<char>, pat: &Vec<char>, end: usize) -> (r: bool)
    requires
        pat@.len() <= end,
        end <= v@.len(),
    ensures
        r == (v@.subrange(end - pat@.len(), end as int) == pat@),
{
    let i = end - pat.len();
    let r = crate::strutil::match_at_x(v, pat, i);
    proof {
        assert(i + pat@.len() == end);
    }
    r
}

/// `spec_trim_end_pat` on a vector.
fn trim_end_pat(v: &Vec<char>, pat: &Vec<char>) -> (r: Vec<char>)
    requires
        pat@.len() > 0,
    ensures
        r@ == spec_trim_end_pat(v@, pat@),
{
    let mut end: usize = v.len();
    proof {
        assert(v@.subrange(0, v@.len() as int) =~= v@);
    }
    while end >= pat.len() && suffix_match(v, pat, end)
        invariant
            end <= v@.len(),
            pat@.len() > 0,
            spec_trim_end_pat(v@, pat@) == spec_trim_end_pat(v@.subrange(0, end as int), pat@),
        decreases end,
    {
        proof {
            let part = v@.subrange(0, end as int);
            assert(part.subrange(part.len() - pat@.len(), part.len() as int) =~= v@.subrange(
                end - pat@.len(),
                end as int,
            ));
            assert(part.subrange(0, part.len() - pat@.len()) =~= v@.subrange(
                0,
                end - pat@.len(),
            ));
        }
        end = end - pat.len();
    }
    let r = subvec(v, 0, end);
    proof {
        let part = v@.subrange(0, end as int);
        if end >= pat@.len() {
            assert(part.subrange(part.len() - pat@.len(), part.len() as int) =~= v@.subrange(
                end - pat@.len(),
                end as int,
            ));
        }
        assert(spec_trim_end_pat(part, pat@) == part);
    }
    r
}

/// `spec_normalize_homepage` on a string.
pub fn normalize_homepage(url: &str) -> (r: Option<String>)
    ensures
        r.deep_view() == spec_normalize_homepage(url@),
{
    let chars = chars_vec(url);
    let t = trim(&chars);
    if t.len() == 0 {
        return None;
    }
    let c = trim_end_char(&t, '/');
    if c.len() == 0 {
        None
    } else {
        Some(string_from(&c))
    }
}

/// `spec_normalize_license_text` on a string.
pub fn normalize_license_text(text: &str) -> (r: Option<String>)
    ensures
        r.deep_view() == spec_normalize_license_text(text@),
        r matches Some(l) ==> spec_trim(l@) == l@ && l@.len() > 0,
{
    let chars = chars_vec(text);
    let t = trim(&chars);
    if t.len() == 0 {
        return None;
    }
    let lowered = crate::strutil::lower_vec(&t);
    let unknown: Vec<char> = vec!['u', 'n', 'k', 'n', 'o', 'w', 'n'];
    proof {
        assert(unknown@ =~= seq!['u', 'n', 'k', 'n', 'o', 'w', 'n']);
        crate::strutil::lemma_trim_idempotent(chars@);
    }
    if crate::strutil::seq_eq(&lowered, &unknown) {
        None
    } else {
        Some(string_from(&t))
    }
}

/// `spec_normalize_repository_url` on a string.
pub fn normalize_repository_url(url: &str) -> (r: Option<String>)
    ensures
        r.deep_view() == spec_normalize_repository_url(url@),
{
    let chars = chars_vec(url);
    let t = trim(&chars);
    if t.len() == 0 {
        return None;
    }
    let prefix: Vec<char> = vec!['g', 'i', 't', '+'];
    proof {
        assert(prefix@ =~= seq!['g', 'i', 't', '+']);
    }
    let no_prefix = if t.len() >= 4 && crate::strutil::match_at_x(&t, &prefix, 0) {
        proof {
            assert(spec_starts_with(t@, seq!['g', 'i', 't', '+']));
        }
        subvec(&t, 4, t.len())
    } else {
        proof {
            assert(!spec_starts_with(t@, seq!['g', 'i', 't', '+'])) by {
                if spec_starts_with(t@, seq!['g', 'i', 't', '+']) {
                    assert(crate::strutil::match_at(t@, seq!['g', 'i', 't', '+'], 0));
                }
            }
            assert(t@.subrange(0, t@.len() as int) =~= t@);
        }
        subvec(&t, 0, t.len())
    };
    let suffix: Vec<char> = vec!['.', 'g', 'i', 't'];
    proof {
        assert(suffix@ =~= seq!['.', 'g', 'i', 't']);
    }
    let cleaned = trim_end_pat(&no_prefix, &suffix);
    let cs = string_from(&cleaned);
    normalize_homepage(cs.as_str())
}

/// The marker that names a license classifier.
pub open spec fn license_marker() -> Seq<char> {
    seq!['L', 'i', 'c', 'e', 'n', 's', 'e', ' ', ':', ':']
}

pub open spec fn sep_seq() -> Seq<char> {
    seq![':', ':']
}

/// Everything after the last left-scanned occurrence of `pat`: the last
/// piece of `str::split`.
pub open spec fn spec_last_piece(s: Seq<char>, pat: Seq<char>) -> Seq<char>
    decreases s.len(),
    via spec_last_piece_decreases
{
    if pat.len() == 0 {
        s
    } else {
        match spec_find(s, pat) {
            Some(i) => spec_last_piece(s.subrange(i + pat.len(), s.len() as int), pat),
            None => s,
        }
    }
}

#[via_fn]
proof fn spec_last_piece_decreases(s: Seq<char>, pat: Seq<char>) {
    lemma_find_from_is_match(s, pat, 0);
}

pub fn last_piece(v: &Vec<char>, pat: &Vec<char>) -> (r: Vec<char>)
    requires
        pat@.len() > 0,
    ensures
        r@ == spec_last_piece(v@, pat@),
{
    let mut rest = subvec(v, 0, v.len());
    proof {
        assert(rest@ =~= v@);
    }
    loop
        invariant
            pat@.len() > 0,
            spec_last_piece(v@, pat@) == spec_last_piece(rest@, pat@),
        decreases rest@.len(),
    {
        match find_sub(&rest, pat) {
            Some(i) => {
                let rl = rest.len();
                let plen = pat.len();
                proof {
                    assert(i + plen <= rl);
                }
                let next = subvec(&rest, i + plen, rl);
                rest = next;
            },
            None => {
                return rest;
            },
        }
    }
}

/// What one classifier contributes: the trimmed text after its last `::`,
/// when the classifier names a license and that text is non-empty and not,
/// case-insensitively, the word "unknown" — a present license is never the
/// sentinel in disguise.
pub open spec fn spec_classifier_candidate(cl: Seq<char>) -> Option<Seq<char>> {
    if spec_contains(cl, license_marker()) {
        let t = spec_trim(spec_last_piece(cl, sep_seq()));
        if t.len() > 0 && spec_lower(t) != crate::types::unknown_lower_seq() {
            Some(t)
        } else {
            None
        }
    } else {
        None
    }
}

/// The first license any classifier contributes.
pub open spec fn spec_license_from_classifiers(cs: Seq<Seq<char>>) -> Option<Seq<char>>
    decreases cs.len(),
{
    if cs.len() == 0 {
        None
    } else {
        match spec_classifier_candidate(cs[0]) {
            Some(l) => Some(l),
            None => spec_license_from_classifiers(cs.drop_first()),
        }
    }
}

/// `spec_license_from_classifiers` on strings; a found license is trimmed
/// and non-empty.
#[verifier::loop_isolation(false)]
pub fn license_from_classifiers(classifiers: &Vec<String>) -> (r: Option<String>)
    ensures
        r.deep_view() == spec_license_from_classifiers(classifiers.deep_view()),
        r matches Some(l) ==> spec_trim(l@) == l@ && l@.len() > 0 && spec_lower(l@)
            != crate::types::unknown_lower_seq(),
{
    let ghost all = classifiers.deep_view();
    let marker: Vec<char> = vec!['L', 'i', 'c', 'e', 'n', 's', 'e', ' ', ':', ':'];
    let sep: Vec<char> = vec![':', ':'];
    let unknown: Vec<char> = vec!['u', 'n', 'k', 'n', 'o', 'w', 'n'];
    proof {
        assert(marker@ =~= license_marker());
        assert(sep@ =~= sep_seq());
        assert(unknown@ =~= crate::types::unknown_lower_seq());
        assert(spec_lower(unknown@) =~= crate::types::unknown_lower_seq());
        assert(all.subrange(0, all.len() as int) =~= all);
    }
    let mut k: usize = 0;
    while k < classifiers.len()
        invariant
            k <= all.len(),
            spec_license_from_classifiers(all) == spec_license_from_classifiers(
                all.subrange(k as int, all.len() as int),
            ),
        decreases all.len() - k,
    {
        proof {
            assert(all.subrange(k as int, all.len() as int)[0] == all[k as int]);
            assert(all.subrange(k as int, all.len() as int).drop_first() =~= all.subrange(
                k + 1 as int,
                all.len() as int,
            ));
            assert(classifiers@[k as int]@ == all[k as int]);
        }
        let cl = chars_vec(classifiers[k].as_str());
        if contains_sub(&cl, &marker) {
            let piece = last_piece(&cl, &sep);
            let t = trim(&piece);
            if t.len() > 0 && !crate::strutil::eq_ignore_case(&t, &unknown) {
                proof {
                    crate::strutil::lemma_trim_idempotent(piece@);
                }
                return Some(string_from(&t));
            }
        }
        k = k + 1;
    }
    None
}

/// The fields of a PyPI package response that this library consumes.
pub struct PyPiInfo {
    pub license: Option<String>,
    pub classifiers: Option<Vec<String>>,
    pub home_page: Option<String>,
    pub project_urls: Option<Vec<(String, String)>>,
}

/// The value under the first project-URL entry named `key`.
pub open spec fn spec_urls_get(urls: Seq<(Seq<char>, Seq<char>)>, key: Seq<char>) -> Option<
    Seq<char>,
>
    decreases urls.len(),
{
    if urls.len() == 0 {
        None
    } else if urls[0].0 == key {
        Some(urls[0].1)
    } else {
        spec_urls_get(urls.drop_first(), key)
    }
}

/// The project-URL names tried first, in their fixed priority order.
pub open spec fn spec_priority_keys() -> Seq<Seq<char>> {
    seq![
        seq!['H', 'o', 'm', 'e', 'p', 'a', 'g', 'e'],
        seq!['H', 'o', 'm', 'e', ' ', 'P', 'a', 'g', 'e'],
        seq!['S', 'o', 'u', 'r', 'c', 'e'],
        seq!['R', 'e', 'p', 'o', 's', 'i', 't', 'o', 'r', 'y'],
        seq!['D', 'o', 'c', 'u', 'm', 'e', 'n', 't', 'a', 't', 'i', 'o', 'n'],
    ]
}

/// The first priority entry that normalizes to a URL.
pub open spec fn spec_first_priority(
    urls: Seq<(Seq<char>, Seq<char>)>,
    keys: Seq<Seq<char>>,
) -> Option<Seq<char>>
    decreases keys.len(),
{
    if keys.len() == 0 {
        None
    } else {
        let hit = match spec_urls_get(urls, keys[0]) {
            Some(u) => spec_normalize_homepage(u),
            None => None,
        };
        match hit {
            Some(u) => Some(u),
            None => spec_first_priority(urls, keys.drop_first()),
        }
    }
}

/// The first project-URL value, in document order, that normalizes to a URL.
pub open spec fn spec_first_value(urls: Seq<(Seq<char>, Seq<char>)>) -> Option<Seq<char>>
    decreases urls.len(),
{
    if urls.len() == 0 {
        None
    } else {
        match spec_normalize_homepage(urls[0].1) {
            Some(u) => Some(u),
            None => spec_first_value(urls.drop_first()),
        }
    }
}

/// The homepage a PyPI response yields: the priority project-URL names, then
/// any other project URL, then the legacy homepage field.
pub open spec fn spec_extract_pypi_homepage(
    purls: Option<Seq<(Seq<char>, Seq<char>)>>,
    home: Option<Seq<char>>,
) -> Option<Seq<char>> {
    let legacy = match home {
        Some(h) => spec_normalize_homepage(h),
        None => None,
    };
    match purls {
        Some(urls) => match spec_first_priority(urls, spec_priority_keys()) {
            Some(u) => Some(u),
            None => match spec_first_value(urls) {
                Some(u) => Some(u),
                None => legacy,
            },
        },
        None => legacy,
    }
}

fn urls_get<'a>(urls: &'a Vec<(String, String)>, key: &str) -> (r: Option<&'a String>)
    ensures
        match r {
            Some(u) => spec_urls_get(urls.deep_view(), key@) == Some(u@),
            None => spec_urls_get(urls.deep_view(), key@) is None,
        },
{
    let ghost all = urls.deep_view();
    let mut i: usize = 0;
    proof {
        assert(all.subrange(0, all.len() as int) =~= all);
    }
    while i < urls.len()
        invariant
            i <= all.len(),
            all == urls.deep_view(),
            all.len() == urls@.len(),
            spec_urls_get(all, key@) == spec_urls_get(
                all.subrange(i as int, all.len() as int),
                key@,
            ),
        decreases all.len() - i,
    {
        proof {
            assert(all.subrange(i as int, all.len() as int)[0] == all[i as int]);
            assert(all.subrange(i as int, all.len() as int).drop_first() =~= all.subrange(
                i + 1 as int,
                all.len() as int,
            ));
            assert(all[i as int] == (urls@[i as int].0@, urls@[i as int].1@));
        }
        let entry = &urls[i];
        if crate::strutil::str_eq(entry.0.as_str(), key) {
            return Some(&entry.1);
        }
        i = i + 1;
    }
    None
}

/// The executable priority-key list, matching `spec_priority_keys`.
fn priority_keys() -> (r: Vec<String>)
    ensures
        r.deep_view() == spec_priority_keys(),
{
    let mut r: Vec<String> = Vec::new();
    r.push("Homepage".to_owned());
    r.push("Home Page".to_owned());
    r.push("Source".to_owned());
    r.push("Repository".to_owned());
    r.push("Documentation".to_owned());
    proof {
        reveal_strlit("Homepage");
        reveal_strlit("Home Page");
        reveal_strlit("Source");
        reveal_strlit("Repository");
        reveal_strlit("Documentation");
        assert("Homepage"@ =~= spec_priority_keys()[0]);
        assert("Home Page"@ =~= spec_priority_keys()[1]);
        assert("Source"@ =~= spec_priority_keys()[2]);
        assert("Repository"@ =~= spec_priority_keys()[3]);
        assert("Documentation"@ =~= spec_priority_keys()[4]);
        assert(r.deep_view() =~= spec_priority_keys());
    }
    r
}

/// `spec_extract_pypi_homepage` on the decoded response fields.
#[verifier::loop_isolation(false)]
pub fn extract_pypi_homepage(info: &PyPiInfo) -> (r: Option<String>)
    ensures
        r.deep_view() == spec_extract_pypi_homepage(
            info.project_urls.deep_view(),
            info.home_page.deep_view(),
        ),
{
    match &info.project_urls {
        Some(urls) => {
            let keys = priority_keys();
            let ghost ks = spec_priority_keys();
            let mut k: usize = 0;
            proof {
                assert(ks.subrange(0, ks.len() as int) =~= ks);
            }
            while k < keys.len()
                invariant
                    k <= ks.len(),
                    keys.deep_view() == ks,
                    ks == spec_priority_keys(),
                    spec_first_priority(urls.deep_view(), ks) == spec_first_priority(
                        urls.deep_view(),
                        ks.subrange(k as int, ks.len() as int),
                    ),
                decreases ks.len() - k,
            {
                proof {
                    assert(ks.subrange(k as int, ks.len() as int)[0] == ks[k as int]);
                    assert(ks.subrange(k as int, ks.len() as int).drop_first() =~= ks.subrange(
                        k + 1 as int,
                        ks.len() as int,
                    ));
                    assert(keys@[k as int]@ == ks[k as int]);
                }
                match urls_get(urls, keys[k].as_str()) {
                    Some(u) => {
                        match normalize_homepage(u.as_str()) {
                            Some(n) => {
                                return Some(n);
                            },
                            None => {},
                        }
                    },
                    None => {},
                }
                k = k + 1;
            }
            // No priority name matched: any other project URL, in order.
            let ghost uv = urls.deep_view();
            let mut i: usize = 0;
            proof {
                assert(uv.subrange(0, uv.len() as int) =~= uv);
            }
            while i < urls.len()
                invariant
                    i <= uv.len(),
                    uv == urls.deep_view(),
                    spec_first_value(uv) == spec_first_value(
                        uv.subrange(i as int, uv.len() as int),
                    ),
                decreases uv.len() - i,
            {
                proof {
                    assert(uv.subrange(i as int, uv.len() as int)[0] == uv[i as int]);
                    assert(uv.subrange(i as int, uv.len() as int).drop_first() =~= uv.subrange(
                        i + 1 as int,
                        uv.len() as int,
                    ));
                    assert(uv[i as int] == (urls@[i as int].0@, urls@[i as int].1@));
                }
                match normalize_homepage(urls[i].1.as_str()) {
                    Some(n) => {
                        return Some(n);
                    },
                    None => {},
                }
                i = i + 1;
            }
            match &info.home_page {
                Some(h) => normalize_homepage(h.as_str()),
                None => None,
            }
        },
        None => match &info.home_page {
            Some(h) => normalize_homepage(h.as_str()),
            None => None,
        },
    }
}

/// The license a PyPI response yields: the direct field normalized, else the
/// first license classifier.
pub open spec fn spec_pypi_license(
    lic: Option<Seq<char>>,
    classifiers: Option<Seq<Seq<char>>>,
) -> Option<Seq<char>> {
    let from_classifiers = match classifiers {
        Some(cs) => spec_license_from_classifiers(cs),
        None => None,
    };
    match lic {
        Some(l) => match spec_normalize_license_text(l) {
            Some(n) => Some(n),
            None => from_classifiers,
        },
        None => from_classifiers,
    }
}

/// The metadata a PyPI response yields; nothing when neither a license nor a
/// homepage was found.
pub open spec fn spec_pypi_metadata(
    lic: Option<Seq<char>>,
    classifiers: Option<Seq<Seq<char>>>,
    purls: Option<Seq<(Seq<char>, Seq<char>)>>,
    home: Option<Seq<char>>,
) -> Option<MetadataView> {
    let license = spec_pypi_license(lic, classifiers);
    let homepage = spec_extract_pypi_homepage(purls, home);
    if license is Some || homepage is Some {
        Some(MetadataView { license, homepage })
    } else {
        None
    }
}

/// The metadata of a decoded PyPI response; present metadata is well formed.
pub fn pypi_metadata_from_info(info: &PyPiInfo) -> (r: Option<PackageMetadata>)
    ensures
        r.deep_view() == spec_pypi_metadata(
            info.license.deep_view(),
            info.classifiers.deep_view(),
            info.project_urls.deep_view(),
            info.home_page.deep_view(),
        ),
        r matches Some(m) ==> metadata_ok(m@),
{
    let license: Option<String> = {
        let direct = match &info.license {
            Some(l) => normalize_license_text(l.as_str()),
            None => None,
        };
        match direct {
            Some(n) => Some(n),
            None => match &info.classifiers {
                Some(cs) => license_from_classifiers(cs),
                None => None,
            },
        }
    };
    proof {
        match &license {
            Some(l) => {
                crate::strutil::lemma_trim_idempotent(l@);
            },
            None => {},
        }
    }
    let homepage = extract_pypi_homepage(info);
    match (&license, &homepage) {
        (None, None) => None,
        _ => Some(PackageMetadata { license, homepage }),
    }
}

/// A registry response that does not have the expected shape.
#[derive(Debug)]
pub enum DecodeError {
    Malformed,
}

pub open spec fn info_key() -> Seq<char> {
    seq!['i', 'n', 'f', 'o']
}

pub open spec fn license_key() -> Seq<char> {
    seq!['l', 'i', 'c', 'e', 'n', 's', 'e']
}

pub open spec fn classifiers_key() -> Seq<char> {
    seq!['c', 'l', 'a', 's', 's', 'i', 'f', 'i', 'e', 'r', 's']
}

pub open spec fn home_page_key() -> Seq<char> {
    seq!['h', 'o', 'm', 'e', '_', 'p', 'a', 'g', 'e']
}

pub open spec fn project_urls_key() -> Seq<char> {
    seq!['p', 'r', 'o', 'j', 'e', 'c', 't', '_', 'u', 'r', 'l', 's']
}

/// An optional string member: absent or `null` is nothing, a string is its
/// text, any other shape does not decode.
pub open spec fn spec_opt_str_field(v: Option<JsonValue>) -> Option<Option<Seq<char>>> {
    match v {
        None => Some(None),
        Some(JsonValue::Null) => Some(None),
        Some(JsonValue::Str(s)) => Some(Some(s@)),
        Some(_) => None,
    }
}

/// An optional array of strings; any non-string element does not decode.
pub open spec fn spec_str_list(items: Seq<JsonValue>) -> Option<Seq<Seq<char>>>
    decreases items.len(),
{
    if items.len() == 0 {
        Some(Seq::empty())
    } else {
        match spec_str_list(items.drop_last()) {
            Some(rest) => match items.last() {
                JsonValue::Str(s) => Some(rest.push(s@)),
                _ => None,
            },
            None => None,
        }
    }
}

/// An object of string values; any non-string value does not decode.
pub open spec fn spec_str_map(fields: Seq<(String, JsonValue)>) -> Option<
    Seq<(Seq<char>, Seq<char>)>,
>
    decreases fields.len(),
{
    if fields.len() == 0 {
        Some(Seq::empty())
    } else {
        match spec_str_map(fields.drop_last()) {
            Some(rest) => match fields.last().1 {
                JsonValue::Str(s) => Some(rest.push((fields.last().0@, s@))),
                _ => None,
            },
            None => None,
        }
    }
}

/// The decoded `info` member of a PyPI response, or nothing when the
/// response does not have the expected shape.
pub open spec fn spec_decode_pypi(v: JsonValue) -> Option<
    (Option<Seq<char>>, Option<Seq<Seq<char>>>, Option<Seq<char>>, Option<
        Seq<(Seq<char>, Seq<char>)>,
    >),
> {
    match spec_get(v, info_key()) {
        Some(info) => match info {
            JsonValue::Obj(_) => {
                let lic = spec_opt_str_field(spec_get(info, license_key()));
                let home = spec_opt_str_field(spec_get(info, home_page_key()));
                let cls = match spec_get(info, classifiers_key()) {
                    None => Some(None),
                    Some(JsonValue::Null) => Some(None),
                    Some(JsonValue::Arr(items)) => match spec_str_list(items@) {
                        Some(l) => Some(Some(l)),
                        None => None,
                    },
                    Some(_) => None,
                };
                let purls = match spec_get(info, project_urls_key()) {
                    None => Some(None),
                    Some(JsonValue::Null) => Some(None),
                    Some(JsonValue::Obj(fields)) => match spec_str_map(fields@) {
                        Some(m) => Some(Some(m)),
                        None => None,
                    },
                    Some(_) => None,
                };
                match (lic, cls, home, purls) {
                    (Some(l), Some(c), Some(h), Some(p)) => Some((l, c, h, p)),
                    _ => None,
                }
            },
            _ => None,
        },
        None => None,
    }
}

fn opt_str_field(v: Option<&JsonValue>) -> (r: Result<Option<String>, DecodeError>)
    ensures
        match r {
            Ok(f) => spec_opt_str_field(
                match v {
                    Some(x) => Some(*x),
                    None => None,
                },
            ) == Some(f.deep_view()),
            Err(_) => spec_opt_str_field(
                match v {
                    Some(x) => Some(*x),
                    None => None,
                },
            ) is None,
        },
{
    match v {
        None => Ok(None),
        Some(JsonValue::Null) => Ok(None),
        Some(JsonValue::Str(s)) => Ok(Some(s.clone())),
        Some(_) => Err(DecodeError::Malformed),
    }
}

/// The `info` member of a PyPI response, decoded field by field; a response
/// of any other shape is rejected as malformed rather than guessed at.
#[verifier::loop_isolation(false)]
pub fn decode_pypi_response(v: &JsonValue) -> (r: Result<PyPiInfo, DecodeError>)
    ensures
        match r {
            Ok(info) => spec_decode_pypi(*v) == Some(
                (
                    info.license.deep_view(),
                    info.classifiers.deep_view(),
                    info.home_page.deep_view(),
                    info.project_urls.deep_view(),
                ),
            ),
            Err(_) => spec_decode_pypi(*v) is None,
        },
{
    proof {
        reveal_strlit("info");
        reveal_strlit("license");
        reveal_strlit("classifiers");
        reveal_strlit("home_page");
        reveal_strlit("project_urls");
        assert("info"@ =~= info_key());
        assert("license"@ =~= license_key());
        assert("classifiers"@ =~= classifiers_key());
        assert("home_page"@ =~= home_page_key());
        assert("project_urls"@ =~= project_urls_key());
    }
    let info = match v.get("info") {
        Some(i) => i,
        None => {
            return Err(DecodeError::Malformed);
        },
    };
    let is_obj = match info {
        JsonValue::Obj(_) => true,
        _ => false,
    };
    if !is_obj {
        return Err(DecodeError::Malformed);
    }
    let license = match opt_str_field(info.get("license")) {
        Ok(f) => f,
        Err(e) => {
            return Err(e);
        },
    };
    let home_page = match opt_str_field(info.get("home_page")) {
        Ok(f) => f,
        Err(e) => {
            return Err(e);
        },
    };
    let classifiers: Option<Vec<String>> = match info.get("classifiers") {
        None => None,
        Some(JsonValue::Null) => None,
        Some(JsonValue::Arr(items)) => {
            let ghost all = items@;
            let mut out: Vec<String> = Vec::new();
            let mut i: usize = 0;
            proof {
                assert(all.subrange(0, 0) =~= Seq::<JsonValue>::empty());
                assert(spec_str_list(all.subrange(0, 0)) == Some(out.deep_view())) by {
                    assert(out.deep_view() =~= Seq::<Seq<char>>::empty());
                }
            }
            while i < items.len()
                invariant
                    i <= all.len(),
                    all == items@,
                    spec_str_list(all.subrange(0, i as int)) == Some(out.deep_view()),
                decreases all.len() - i,
            {
                proof {
                    assert(all.subrange(0, i + 1 as int).drop_last() =~= all.subrange(
                        0,
                        i as int,
                    ));
                    assert(all.subrange(0, i + 1 as int).last() == all[i as int]);
                }
                match &items[i] {
                    JsonValue::Str(s) => {
                        let ghost prev = out.deep_view();
                        out.push(s.clone());
                        proof {
                            assert(out.deep_view() =~~= prev.push(all[i as int]->Str_0@));
                        }
                    },
                    _ => {
                        proof {
                            lemma_str_list_fail(all, i as int);
                        }
                        return Err(DecodeError::Malformed);
                    },
                }
                i = i + 1;
            }
            proof {
                assert(all.subrange(0, all.len() as int) =~= all);
            }
            Some(out)
        },
        Some(_) => {
            return Err(DecodeError::Malformed);
        },
    };
    let project_urls: Option<Vec<(String, String)>> = match info.get("project_urls") {
        None => None,
        Some(JsonValue::Null) => None,
        Some(JsonValue::Obj(fields)) => {
            let ghost all = fields@;
            let mut out: Vec<(String, String)> = Vec::new();
            let mut i: usize = 0;
            proof {
                assert(all.subrange(0, 0) =~= Seq::<(String, JsonValue)>::empty());
                assert(spec_str_map(all.subrange(0, 0)) == Some(out.deep_view())) by {
                    assert(out.deep_view() =~= Seq::<(Seq<char>, Seq<char>)>::empty());
                }
            }
            while i < fields.len()
                invariant
                    i <= all.len(),
                    all == fields@,
                    spec_str_map(all.subrange(0, i as int)) == Some(out.deep_view()),
                decreases all.len() - i,
            {
                proof {
                    assert(all.subrange(0, i + 1 as int).drop_last() =~= all.subrange(
                        0,
                        i as int,
                    ));
                    assert(all.subrange(0, i + 1 as int).last() == all[i as int]);
                }
                let entry = &fields[i];
                match &entry.1 {
                    JsonValue::Str(s) => {
                        let ghost prev = out.deep_view();
                        out.push((entry.0.clone(), s.clone()));
                        proof {
                            assert(out.deep_view() =~~= prev.push(
                                (all[i as int].0@, all[i as int].1->Str_0@),
                            ));
                        }
                    },
                    _ => {
                        proof {
                            lemma_str_map_fail(all, i as int);
                        }
                        return Err(DecodeError::Malformed);
                    },
                }
                i = i + 1;
            }
            proof {
                assert(all.subrange(0, all.len() as int) =~= all);
            }
            Some(out)
        },
        Some(_) => {
            return Err(DecodeError::Malformed);
        },
    };
    Ok(PyPiInfo { license, classifiers, home_page, project_urls })
}

/// A non-string element anywhere fails the whole list.
proof fn lemma_str_list_fail(items: Seq<JsonValue>, i: int)
    requires
        0 <= i < items.len(),
        !(items[i] is Str),
    ensures
        spec_str_list(items) is None,
    decreases items.len(),
{
    if i < items.len() - 1 {
        lemma_str_list_fail(items.drop_last(), i);
    }
}

/// A non-string value anywhere fails the whole map.
proof fn lemma_str_map_fail(fields: Seq<(String, JsonValue)>, i: int)
    requires
        0 <= i < fields.len(),
        !(fields[i].1 is Str),
    ensures
        spec_str_map(fields) is None,
    decreases fields.len(),
{
    if i < fields.len() - 1 {
        lemma_str_map_fail(fields.drop_last(), i);
    }
}

pub open spec fn homepage_key() -> Seq<char> {
    seq!['h', 'o', 'm', 'e', 'p', 'a', 'g', 'e']
}

pub open spec fn repository_key() -> Seq<char> {
    seq!['r', 'e', 'p', 'o', 's', 'i', 't', 'o', 'r', 'y']
}

pub open spec fn url_key() -> Seq<char> {
    seq!['u', 'r', 'l']
}

pub open spec fn versions_key() -> Seq<char> {
    seq!['v', 'e', 'r', 's', 'i', 'o', 'n', 's']
}

pub open spec fn dist_tags_key() -> Seq<char> {
    seq!['d', 'i', 's', 't', '-', 't', 'a', 'g', 's']
}

pub open spec fn latest_key() -> Seq<char> {
    seq!['l', 'a', 't', 'e', 's', 't']
}

/// The homepage of a repository member: a bare string, or an object through
/// its `url` member.
pub open spec fn spec_npm_repository_url(repo: Option<JsonValue>) -> Option<Seq<char>> {
    match repo {
        Some(JsonValue::Str(s)) => spec_normalize_repository_url(s@),
        Some(JsonValue::Obj(fields)) => match spec_obj_get(fields@, url_key()) {
            Some(JsonValue::Str(u)) => spec_normalize_repository_url(u@),
            _ => None,
        },
        _ => None,
    }
}

/// The homepage an npm package object yields: its `homepage` field, else its
/// repository reference.
pub open spec fn spec_npm_homepage(v: JsonValue) -> Option<Seq<char>> {
    let direct = match spec_get(v, homepage_key()) {
        Some(JsonValue::Str(s)) => spec_normalize_homepage(s@),
        _ => None,
    };
    match direct {
        Some(u) => Some(u),
        None => spec_npm_repository_url(spec_get(v, repository_key())),
    }
}

/// The license an npm package object carries, when it is a real value:
/// neither blank nor, case-insensitively, the word "unknown".
pub open spec fn spec_npm_license_opt(v: JsonValue) -> Option<Seq<char>> {
    match spec_get(v, license_key()) {
        Some(l) => match spec_extract_license(l) {
            Some(t) => if spec_trim(t).len() > 0 && spec_lower(spec_trim(t))
                != crate::types::unknown_lower_seq() {
                Some(t)
            } else {
                None
            },
            None => None,
        },
        None => None,
    }
}

/// The metadata one npm package object yields; nothing when it names neither
/// a license nor a homepage.
pub open spec fn spec_npm_entry_metadata(v: JsonValue) -> Option<MetadataView> {
    let license = spec_npm_license_opt(v);
    let homepage = spec_npm_homepage(v);
    if license is Some || homepage is Some {
        Some(MetadataView { license, homepage })
    } else {
        None
    }
}

/// The metadata of one version entry of the response's `versions` map.
pub open spec fn spec_npm_version_lookup(root: JsonValue, ver: Seq<char>) -> Option<MetadataView> {
    match spec_get(root, versions_key()) {
        Some(vs) => match spec_get(vs, ver) {
            Some(entry) => spec_npm_entry_metadata(entry),
            None => None,
        },
        None => None,
    }
}

/// The `latest` tag of the response's `dist-tags`.
pub open spec fn spec_npm_latest(root: JsonValue) -> Option<Seq<char>> {
    match spec_get(root, dist_tags_key()) {
        Some(tags) => match spec_get(tags, latest_key()) {
            Some(t) => spec_as_str(t),
            None => None,
        },
        None => None,
    }
}

/// The metadata an npm registry response yields: the pinned version's entry
/// first, then the package-level fields, then the `latest` tag's entry.
pub open spec fn spec_npm_metadata(root: JsonValue, version: Option<Seq<char>>) -> Option<
    MetadataView,
> {
    let fallback = match spec_npm_entry_metadata(root) {
        Some(m) => Some(m),
        None => match spec_npm_latest(root) {
            Some(latest) => spec_npm_version_lookup(root, latest),
            None => None,
        },
    };
    match version {
        Some(ver) => match spec_npm_version_lookup(root, ver) {
            Some(m) => Some(m),
            None => fallback,
        },
        None => fallback,
    }
}

/// `spec_npm_entry_metadata` on a package object.
fn npm_entry_metadata(v: &JsonValue) -> (r: Option<PackageMetadata>)
    ensures
        r.deep_view() == spec_npm_entry_metadata(*v),
        r matches Some(m) ==> metadata_ok(m@),
{
    proof {
        reveal_strlit("license");
        reveal_strlit("homepage");
        reveal_strlit("repository");
        reveal_strlit("url");
        assert("license"@ =~= license_key());
        assert("homepage"@ =~= homepage_key());
        assert("repository"@ =~= repository_key());
        assert("url"@ =~= url_key());
    }
    let unknown: Vec<char> = vec!['u', 'n', 'k', 'n', 'o', 'w', 'n'];
    proof {
        assert(unknown@ =~= crate::types::unknown_lower_seq());
        assert(spec_lower(unknown@) =~= crate::types::unknown_lower_seq());
    }
    let license: Option<String> = match v.get("license") {
        Some(l) => match extract_license(l) {
            Some(t) => {
                let tc = chars_vec(t.as_str());
                let tt = trim(&tc);
                if tt.len() > 0 && !crate::strutil::eq_ignore_case(&tt, &unknown) {
                    Some(t)
                } else {
                    None
                }
            },
            None => None,
        },
        None => None,
    };
    let direct: Option<String> = match v.get("homepage") {
        Some(JsonValue::Str(s)) => normalize_homepage(s.as_str()),
        _ => None,
    };
    let homepage: Option<String> = match direct {
        Some(u) => Some(u),
        None => match v.get("repository") {
            Some(JsonValue::Str(s)) => normalize_repository_url(s.as_str()),
            Some(JsonValue::Obj(_)) => {
                let repo = v.get("repository");
                match repo {
                    Some(rv) => match rv.get("url") {
                        Some(JsonValue::Str(u)) => normalize_repository_url(u.as_str()),
                        _ => None,
                    },
                    None => None,
                }
            },
            _ => None,
        },
    };
    match (&license, &homepage) {
        (None, None) => None,
        _ => Some(PackageMetadata { license, homepage }),
    }
}

/// The metadata of a version entry in the response's `versions` map.
pub fn lookup_npm_version_metadata(json: &JsonValue, version: &str) -> (r: Option<PackageMetadata>)
    ensures
        r.deep_view() == spec_npm_version_lookup(*json, version@),
        r matches Some(m) ==> metadata_ok(m@),
{
    proof {
        reveal_strlit("versions");
        assert("versions"@ =~= versions_key());
    }
    match json.get("versions") {
        Some(vs) => match vs.get(version) {
            Some(entry) => npm_entry_metadata(entry),
            None => None,
        },
        None => None,
    }
}

/// The metadata an npm registry response yields for a record, honouring a
/// pinned version first.
pub fn npm_metadata_from_response(root: &JsonValue, version: Option<&String>) -> (r: Option<
    PackageMetadata,
>)
    ensures
        r.deep_view() == spec_npm_metadata(*root, version.deep_view()),
        r matches Some(m) ==> metadata_ok(m@),
{
    proof {
        reveal_strlit("dist-tags");
        reveal_strlit("latest");
        assert("dist-tags"@ =~= dist_tags_key());
        assert("latest"@ =~= latest_key());
    }
    match version {
        Some(ver) => {
            match lookup_npm_version_metadata(root, ver.as_str()) {
                Some(m) => {
                    return Some(m);
                },
                None => {},
            }
        },
        None => {},
    }
    match npm_entry_metadata(root) {
        Some(m) => {
            return Some(m);
        },
        None => {},
    }
    let latest: Option<&String> = match root.get("dist-tags") {
        Some(tags) => match tags.get("latest") {
            Some(t) => t.as_str_opt(),
            None => None,
        },
        None => None,
    };
    match latest {
        Some(l) => lookup_npm_version_metadata(root, l.as_str()),
        None => None,
    }
}

} // verus!
