//! The npm lockfile parser: a JSON document in one of two known shapes, a
//! `packages` map from install paths to package objects, or a legacy
//! `dependencies` map from names to objects with nested dependencies.

use vstd::prelude::*;

use crate::json::{spec_as_str, spec_extract_license, spec_get, spec_obj_get, extract_license,
    JsonValue};
use crate::strutil::{chars_vec, seq_eq, spec_split_char, spec_trim, split_char, string_from,
    subvec, trim};
use crate::types::{npm_manager, npm_seq, unknown_license, unknown_seq, DependencyRecord,
    RecordView};

verus! {

pub open spec fn version_key() -> Seq<char> {
    seq!['v', 'e', 'r', 's', 'i', 'o', 'n']
}

pub open spec fn license_key() -> Seq<char> {
    seq!['l', 'i', 'c', 'e', 'n', 's', 'e']
}

pub open spec fn name_key() -> Seq<char> {
    seq!['n', 'a', 'm', 'e']
}

pub open spec fn deps_key() -> Seq<char> {
    seq!['d', 'e', 'p', 'e', 'n', 'd', 'e', 'n', 'c', 'i', 'e', 's']
}

pub open spec fn packages_key() -> Seq<char> {
    seq!['p', 'a', 'c', 'k', 'a', 'g', 'e', 's']
}

/// The directory name whose last occurrence an install path is cut after.
pub open spec fn nm_seq() -> Seq<char> {
    seq!['n', 'o', 'd', 'e', '_', 'm', 'o', 'd', 'u', 'l', 'e', 's']
}

/// The non-empty pieces of `pieces`, in order.
pub open spec fn spec_filter_nonempty(pieces: Seq<Seq<char>>) -> Seq<Seq<char>>
    decreases pieces.len(),
{
    if pieces.len() == 0 {
        Seq::empty()
    } else {
        let rest = spec_filter_nonempty(pieces.drop_last());
        if pieces.last().len() > 0 {
            rest.push(pieces.last())
        } else {
            rest
        }
    }
}

/// The non-empty `/`-separated segments of an install path.
pub open spec fn spec_nonempty_segments(path: Seq<char>) -> Seq<Seq<char>> {
    spec_filter_nonempty(spec_split_char(path, '/'))
}

/// The segments after the last `node_modules` segment; all of them when none
/// occurs.
pub open spec fn spec_after_last_nm(segs: Seq<Seq<char>>) -> Seq<Seq<char>>
    decreases segs.len(),
{
    if segs.len() == 0 {
        Seq::empty()
    } else if segs.last() == nm_seq() {
        Seq::empty()
    } else {
        spec_after_last_nm(segs.drop_last()).push(segs.last())
    }
}

/// The package name an install path denotes: the first segment after the last
/// `node_modules`, with a leading `@scope` segment joined to the next one.
pub open spec fn spec_package_name_from_path(path: Seq<char>) -> Option<Seq<char>> {
    if path.len() == 0 {
        None
    } else {
        let segs = spec_nonempty_segments(path);
        if segs.len() == 0 {
            None
        } else {
            let tail = spec_after_last_nm(segs);
            if tail.len() == 0 {
                None
            } else if tail[0].len() > 0 && tail[0][0] == '@' && tail.len() >= 2 {
                Some(tail[0] + seq!['/'] + tail[1])
            } else {
                Some(tail[0])
            }
        }
    }
}

/// Positions from `cut` up hold no `node_modules` segment, and `cut` is
/// either the start or just past one, so the tail after the last
/// `node_modules` is exactly the suffix from `cut`.
proof fn lemma_after_last_nm_suffix(segs: Seq<Seq<char>>, cut: int)
    requires
        0 <= cut <= segs.len(),
        forall|k: int| cut <= k < segs.len() ==> segs[k] != nm_seq(),
        cut > 0 ==> segs[cut - 1] == nm_seq(),
    ensures
        spec_after_last_nm(segs) == segs.subrange(cut, segs.len() as int),
    decreases segs.len(),
{
    if segs.len() == 0 {
        assert(segs.subrange(0, 0) =~= Seq::<Seq<char>>::empty());
    } else if cut == segs.len() {
        if cut > 0 {
            assert(segs.last() == nm_seq());
        }
        assert(segs.subrange(cut, segs.len() as int) =~= Seq::<Seq<char>>::empty());
    } else {
        assert(segs.last() != nm_seq());
        lemma_after_last_nm_suffix(segs.drop_last(), cut);
        assert(segs.drop_last().subrange(cut, segs.len() - 1).push(segs.last()) =~= segs.subrange(
            cut,
            segs.len() as int,
        ));
    }
}

/// The executable `node_modules` segment.
fn nm_vec() -> (r: Vec<char>)
    ensures
        r@ == nm_seq(),
{
    let r: Vec<char> = vec!['n', 'o', 'd', 'e', '_', 'm', 'o', 'd', 'u', 'l', 'e', 's'];
    proof {
        assert(r@ =~= nm_seq());
    }
    r
}

/// `spec_package_name_from_path` on a string.
#[verifier::loop_isolation(false)]
pub fn package_name_from_path(path: &str) -> (r: Option<String>)
    ensures
        r.deep_view() == spec_package_name_from_path(path@),
{
    let chars = chars_vec(path);
    if chars.len() == 0 {
        return None;
    }
    let pieces = split_char(&chars, '/');
    let ghost allp = pieces.deep_view();
    let mut segs: Vec<Vec<char>> = Vec::new();
    let mut i: usize = 0;
    proof {
        assert(allp.subrange(0, 0) =~= Seq::<Seq<char>>::empty());
        assert(segs.deep_view() =~~= spec_filter_nonempty(allp.subrange(0, 0)));
    }
    while i < pieces.len()
        invariant
            i <= allp.len(),
            segs.deep_view() == spec_filter_nonempty(allp.subrange(0, i as int)),
        decreases allp.len() - i,
    {
        let ghost prev = segs.deep_view();
        proof {
            assert(allp.subrange(0, i + 1 as int).drop_last() =~= allp.subrange(0, i as int));
            assert(allp.subrange(0, i + 1 as int).last() == allp[i as int]);
            assert(pieces@[i as int].deep_view() == allp[i as int]);
            assert(pieces@[i as int]@ =~= pieces@[i as int].deep_view());
        }
        if pieces[i].len() > 0 {
            let seg = subvec(&pieces[i], 0, pieces[i].len());
            proof {
                assert(seg@ =~= allp[i as int]);
            }
            segs.push(seg);
            proof {
                assert(segs.deep_view() =~~= prev.push(allp[i as int]));
            }
        }
        proof {
            assert(segs.deep_view() =~~= spec_filter_nonempty(allp.subrange(0, i + 1 as int)));
        }
        i = i + 1;
    }
    proof {
        assert(allp.subrange(0, allp.len() as int) =~= allp);
    }
    let ghost sg = segs.deep_view();
    if segs.len() == 0 {
        return None;
    }
    // Scan backwards for the last node_modules segment.
    let nm = nm_vec();
    let mut cut: usize = 0;
    let mut found = false;
    let mut j: usize = segs.len();
    while j > 0 && !found
        invariant
            j <= segs@.len(),
            sg == segs.deep_view(),
            sg.len() == segs@.len(),
            nm@ == nm_seq(),
            !found ==> cut == 0 && (forall|k: int| j <= k < sg.len() ==> sg[k] != nm_seq()),
            found ==> 1 <= cut <= sg.len() && sg[cut - 1] == nm_seq() && (forall|k: int|
                cut <= k < sg.len() ==> sg[k] != nm_seq()),
        decreases j,
    {
        proof {
            assert(sg[j - 1] == segs@[j - 1].deep_view());
            assert(segs@[j - 1]@ =~= segs@[j - 1].deep_view());
        }
        if seq_eq(&segs[j - 1], &nm) {
            cut = j;
            found = true;
        }
        j = j - 1;
    }
    proof {
        lemma_after_last_nm_suffix(sg, cut as int);
    }
    let ghost tail = spec_after_last_nm(sg);
    proof {
        assert(tail == sg.subrange(cut as int, sg.len() as int));
    }
    if cut == segs.len() {
        return None;
    }
    proof {
        assert(tail.len() > 0);
        assert(tail[0] == sg[cut as int]);
        assert(segs@[cut as int]@ =~= sg[cut as int]);
    }
    let first = &segs[cut];
    let scoped = first.len() > 0 && first[0] == '@' && segs.len() - cut >= 2;
    if scoped {
        proof {
            assert(tail[1] == sg[cut + 1]);
            assert(segs@[cut + 1]@ =~= sg[cut + 1]);
        }
        let mut out = subvec(first, 0, first.len());
        out.push('/');
        let second = &segs[cut + 1];
        let mut k: usize = 0;
        while k < second.len()
            invariant
                k <= second@.len(),
                out@ == sg[cut as int] + seq!['/'] + second@.subrange(0, k as int),
            decreases second@.len() - k,
        {
            out.push(second[k]);
            proof {
                assert(out@ =~= sg[cut as int] + seq!['/'] + second@.subrange(0, k + 1 as int));
            }
            k = k + 1;
        }
        proof {
            assert(second@.subrange(0, second@.len() as int) =~= second@);
            assert(out@ == sg[cut as int] + seq!['/'] + sg[cut + 1]);
        }
        Some(string_from(&out))
    } else {
        Some(string_from(first))
    }
}

/// The version string a package object carries, when it is a string.
pub open spec fn spec_version_of(info: JsonValue) -> Option<Seq<char>> {
    match spec_get(info, version_key()) {
        Some(v) => spec_as_str(v),
        None => None,
    }
}

/// The license a package object contributes to its record: the extracted
/// license field when it is non-blank, the `"Unknown"` sentinel otherwise.
pub open spec fn spec_npm_license(info: JsonValue) -> Seq<char> {
    match spec_get(info, license_key()) {
        Some(l) => match spec_extract_license(l) {
            Some(t) => if spec_trim(t).len() > 0 {
                t
            } else {
                unknown_seq()
            },
            None => unknown_seq(),
        },
        None => unknown_seq(),
    }
}

/// The record a named lockfile entry yields.
pub open spec fn spec_npm_record(name: Seq<char>, info: JsonValue, source: Seq<char>) -> RecordView {
    RecordView {
        manager: npm_seq(),
        name,
        version: spec_version_of(info),
        license: spec_npm_license(info),
        source,
        homepage: None,
    }
}

/// The name a packages-map entry resolves to: the object's own `name` field,
/// else the install path, else the lockfile root's `name` field.
pub open spec fn spec_entry_name(pkg_path: Seq<char>, info: JsonValue, root: JsonValue) -> Option<
    Seq<char>,
> {
    match spec_get(info, name_key()) {
        Some(n) if spec_as_str(n) is Some => spec_as_str(n),
        _ => match spec_package_name_from_path(pkg_path) {
            Some(n) => Some(n),
            None => match spec_get(root, name_key()) {
                Some(n) => spec_as_str(n),
                None => None,
            },
        },
    }
}

/// The record a packages-map entry yields, when a name can be derived.
pub open spec fn spec_build_package_record(
    pkg_path: Seq<char>,
    info: JsonValue,
    root: JsonValue,
    source: Seq<char>,
) -> Option<RecordView> {
    match spec_entry_name(pkg_path, info, root) {
        Some(n) => Some(spec_npm_record(n, info, source)),
        None => None,
    }
}

/// The records of a packages-map lockfile, entry by entry.
pub open spec fn spec_packages_records(
    fields: Seq<(String, JsonValue)>,
    root: JsonValue,
    source: Seq<char>,
) -> Seq<RecordView>
    decreases fields.len(),
{
    if fields.len() == 0 {
        Seq::empty()
    } else {
        let rest = spec_packages_records(fields.drop_first(), root, source);
        match spec_build_package_record(fields[0].0@, fields[0].1, root, source) {
            Some(r) => seq![r] + rest,
            None => rest,
        }
    }
}

/// A member value stands structurally below the sequence of members.
proof fn lemma_obj_get_below(fields: Seq<(String, JsonValue)>, key: Seq<char>)
    requires
        spec_obj_get(fields, key) is Some,
    ensures
        decreases_to!(fields => spec_obj_get(fields, key)->Some_0),
    decreases fields.len(),
{
    if fields.len() > 0 {
        if fields[0].0@ == key {
            assert(decreases_to!(fields => fields[0]));
            assert(decreases_to!(fields[0] => fields[0].1));
        } else {
            lemma_obj_get_below(fields.drop_first(), key);
            assert(decreases_to!(fields => fields.drop_first()));
        }
    }
}

/// The records of a legacy dependencies-map lockfile: one per entry, with the
/// nested dependencies flattened in after it.
pub open spec fn spec_deps_records(fields: Seq<(String, JsonValue)>, source: Seq<char>) -> Seq<
    RecordView,
>
    decreases fields,
    via spec_deps_records_decreases
{
    if fields.len() == 0 {
        Seq::empty()
    } else {
        let head = spec_npm_record(fields[0].0@, fields[0].1, source);
        let nested = match spec_get(fields[0].1, deps_key()) {
            Some(d) => match d {
                JsonValue::Obj(inner) => spec_deps_records(inner@, source),
                _ => Seq::empty(),
            },
            None => Seq::empty(),
        };
        seq![head] + nested + spec_deps_records(fields.drop_first(), source)
    }
}

#[via_fn]
proof fn spec_deps_records_decreases(fields: Seq<(String, JsonValue)>, source: Seq<char>) {
    if fields.len() > 0 {
        assert(decreases_to!(fields => fields.drop_first()));
        match fields[0].1 {
            JsonValue::Obj(info) => {
                if spec_obj_get(info@, deps_key()) is Some {
                    lemma_obj_get_below(info@, deps_key());
                    let got = spec_obj_get(info@, deps_key())->Some_0;
                    assert(decreases_to!(fields => fields[0]));
                    assert(decreases_to!(fields[0] => fields[0].1));
                    assert(decreases_to!(fields[0].1 => fields[0].1->Obj_0));
                    assert(fields[0].1->Obj_0 == info);
                    assert(decreases_to!(info => info@));
                    match got {
                        JsonValue::Obj(inner) => {
                            assert(decreases_to!(got => got->Obj_0));
                            assert(decreases_to!(inner => inner@));
                        },
                        _ => {},
                    }
                }
            },
            _ => {},
        }
    }
}

/// Every lockfile record carries the npm manager tag, the lockfile's path,
/// no homepage, and a license that is the sentinel or non-blank.
pub proof fn lemma_npm_record_shape(name: Seq<char>, info: JsonValue, source: Seq<char>)
    ensures
        spec_npm_record(name, info, source).manager == npm_seq(),
        spec_npm_record(name, info, source).source == source,
        spec_npm_record(name, info, source).homepage is None,
        crate::types::record_ok(spec_npm_record(name, info, source)),
{
}

/// All records a lockfile document yields, by whichever of the two shapes it
/// has; a document of neither shape yields none.
pub open spec fn spec_parse_package_lock(root: JsonValue, source: Seq<char>) -> Seq<RecordView> {
    match spec_get(root, packages_key()) {
        Some(JsonValue::Obj(pkgs)) => spec_packages_records(pkgs@, root, source),
        _ => match spec_get(root, deps_key()) {
            Some(JsonValue::Obj(deps)) => spec_deps_records(deps@, source),
            _ => Seq::empty(),
        },
    }
}

fn version_of(info: &JsonValue) -> (r: Option<String>)
    ensures
        r.deep_view() == spec_version_of(*info),
{
    proof {
        reveal_strlit("version");
        assert("version"@ =~= version_key());
    }
    match info.get("version") {
        Some(v) => match v.as_str_opt() {
            Some(s) => Some(s.clone()),
            None => None,
        },
        None => None,
    }
}

fn npm_license(info: &JsonValue) -> (r: String)
    ensures
        r@ == spec_npm_license(*info),
{
    proof {
        reveal_strlit("license");
        assert("license"@ =~= license_key());
    }
    match info.get("license") {
        Some(l) => match extract_license(l) {
            Some(t) => {
                let tc = chars_vec(t.as_str());
                let trimmed = trim(&tc);
                if trimmed.len() > 0 {
                    t
                } else {
                    unknown_license()
                }
            },
            None => unknown_license(),
        },
        None => unknown_license(),
    }
}

/// The record a named lockfile entry yields.
fn npm_record(name: String, info: &JsonValue, source: &str) -> (r: DependencyRecord)
    ensures
        r@ == spec_npm_record(name@, *info, source@),
{
    let r = DependencyRecord {
        manager: npm_manager(),
        name,
        version: version_of(info),
        license: npm_license(info),
        source: source.to_owned(),
        homepage: None,
    };
    r
}

/// The record one packages-map entry yields: named by the object's own
/// `name`, else the install path, else the lockfile root's `name`.
pub fn build_package_lock_record(
    pkg_path: &str,
    info: &JsonValue,
    source: &str,
    root_json: &JsonValue,
) -> (r: Option<DependencyRecord>)
    ensures
        r.deep_view() == spec_build_package_record(pkg_path@, *info, *root_json, source@),
{
    proof {
        reveal_strlit("name");
        assert("name"@ =~= name_key());
    }
    let own_name: Option<String> = match info.get("name") {
        Some(n) => match n.as_str_opt() {
            Some(s) => Some(s.clone()),
            None => None,
        },
        None => None,
    };
    let name: Option<String> = match own_name {
        Some(n) => Some(n),
        None => match package_name_from_path(pkg_path) {
            Some(n) => Some(n),
            None => match root_json.get("name") {
                Some(n) => match n.as_str_opt() {
                    Some(s) => Some(s.clone()),
                    None => None,
                },
                None => None,
            },
        },
    };
    match name {
        Some(n) => Some(npm_record(n, info, source)),
        None => None,
    }
}

/// Walks a legacy dependencies map, one record per entry, recursing into each
/// entry's own nested dependencies map.
pub fn collect_from_dependencies_map(
    map: &Vec<(String, JsonValue)>,
    source: &str,
    acc: &mut Vec<DependencyRecord>,
)
    ensures
        final(acc).deep_view() == old(acc).deep_view() + spec_deps_records(map@, source@),
    decreases map@,
{
    proof {
        reveal_strlit("dependencies");
        assert("dependencies"@ =~= deps_key());
    }
    let ghost all = map@;
    let ghost base = acc.deep_view();
    let mut i: usize = 0;
    proof {
        assert(all.subrange(0, all.len() as int) =~= all);
        assert(base + spec_deps_records(all, source@) =~~= acc.deep_view() + spec_deps_records(
            all.subrange(0, all.len() as int),
            source@,
        ));
    }
    while i < map.len()
        invariant
            i <= all.len(),
            all == map@,
            base + spec_deps_records(all, source@) == acc.deep_view() + spec_deps_records(
                all.subrange(i as int, all.len() as int),
                source@,
            ),
        decreases all.len() - i,
    {
        let ghost tail = all.subrange(i as int, all.len() as int);
        proof {
            reveal_strlit("dependencies");
            assert("dependencies"@ =~= deps_key());
            assert(tail[0] == all[i as int]);
            assert(tail.drop_first() =~= all.subrange(i + 1 as int, all.len() as int));
        }
        let entry = &map[i];
        let rec = npm_record(entry.0.clone(), &entry.1, source);
        let ghost before = acc.deep_view();
        acc.push(rec);
        proof {
            assert(acc.deep_view() =~~= before.push(
                spec_npm_record(all[i as int].0@, all[i as int].1, source@),
            ));
        }
        let ghost mid = acc.deep_view();
        match entry.1.get("dependencies") {
            Some(d) => {
                match d {
                    JsonValue::Obj(inner) => {
                        proof {
                            assert(spec_get(all[i as int].1, deps_key()) == Some(*d));
                            let f = all[i as int].1->Obj_0;
                            lemma_obj_get_below(f@, deps_key());
                            assert(decreases_to!(all => all[i as int]));
                            assert(decreases_to!(all[i as int] => all[i as int].1));
                            assert(decreases_to!(all[i as int].1 => f));
                            assert(decreases_to!(f => f@));
                            assert(decreases_to!(*d => d->Obj_0));
                            assert(decreases_to!(d->Obj_0 => inner@));
                        }
                        collect_from_dependencies_map(inner, source, acc);
                    },
                    _ => {},
                }
            },
            None => {},
        }
        proof {
            let nested = match spec_get(all[i as int].1, deps_key()) {
                Some(JsonValue::Obj(nested_fields)) => spec_deps_records(nested_fields@, source@),
                _ => Seq::<RecordView>::empty(),
            };
            assert(acc.deep_view() =~~= mid + nested);
            assert(spec_deps_records(tail, source@) =~~= seq![
                spec_npm_record(all[i as int].0@, all[i as int].1, source@),
            ] + nested + spec_deps_records(tail.drop_first(), source@));
            assert(base + spec_deps_records(all, source@) =~~= acc.deep_view()
                + spec_deps_records(tail.drop_first(), source@));
        }
        i = i + 1;
    }
    proof {
        assert(spec_deps_records(all.subrange(all.len() as int, all.len() as int), source@)
            =~~= Seq::<RecordView>::empty());
        assert(acc.deep_view() =~~= base + spec_deps_records(all, source@));
    }
}

/// All records of a lockfile document, by whichever shape it has.
#[verifier::loop_isolation(false)]
pub fn parse_package_lock(root: &JsonValue, source: &str) -> (r: Vec<DependencyRecord>)
    ensures
        r.deep_view() == spec_parse_package_lock(*root, source@),
{
    proof {
        reveal_strlit("packages");
        assert("packages"@ =~= packages_key());
    }
    let packages = root.get("packages");
    match packages {
        Some(p) => match p {
            JsonValue::Obj(pkgs) => {
                let ghost all = pkgs@;
                let mut out: Vec<DependencyRecord> = Vec::new();
                let mut i: usize = 0;
                proof {
                    assert(all.subrange(0, all.len() as int) =~= all);
                    assert(out.deep_view() + spec_packages_records(all, *root, source@)
                        =~~= spec_packages_records(all, *root, source@));
                }
                while i < pkgs.len()
                    invariant
                        i <= all.len(),
                        all == pkgs@,
                        out.deep_view() + spec_packages_records(
                            all.subrange(i as int, all.len() as int),
                            *root,
                            source@,
                        ) == spec_packages_records(all, *root, source@),
                    decreases all.len() - i,
                {
                    let ghost tail = all.subrange(i as int, all.len() as int);
                    let ghost prev = out.deep_view();
                    proof {
                        assert(tail[0] == all[i as int]);
                        assert(tail.drop_first() =~= all.subrange(
                            i + 1 as int,
                            all.len() as int,
                        ));
                    }
                    let entry = &pkgs[i];
                    match build_package_lock_record(entry.0.as_str(), &entry.1, source, root) {
                        Some(rec) => {
                            out.push(rec);
                            proof {
                                assert(out.deep_view() =~~= prev.push(
                                    spec_build_package_record(
                                        all[i as int].0@,
                                        all[i as int].1,
                                        *root,
                                        source@,
                                    )->Some_0,
                                ));
                                assert(out.deep_view() + spec_packages_records(
                                    tail.drop_first(),
                                    *root,
                                    source@,
                                ) =~~= prev + spec_packages_records(tail, *root, source@));
                            }
                        },
                        None => {},
                    }
                    i = i + 1;
                }
                proof {
                    assert(spec_packages_records(
                        all.subrange(all.len() as int, all.len() as int),
                        *root,
                        source@,
                    ) =~~= Seq::<RecordView>::empty());
                    assert(out.deep_view() =~~= spec_packages_records(all, *root, source@));
                }
                out
            },
            _ => parse_deps_shape(root, source),
        },
        None => parse_deps_shape(root, source),
    }
}

/// The legacy dependencies-map shape, or no records when it is absent.
fn parse_deps_shape(root: &JsonValue, source: &str) -> (r: Vec<DependencyRecord>)
    requires
        !(spec_get(*root, packages_key()) matches Some(JsonValue::Obj(_))),
    ensures
        r.deep_view() == spec_parse_package_lock(*root, source@),
{
    proof {
        reveal_strlit("dependencies");
        assert("dependencies"@ =~= deps_key());
    }
    let deps = root.get("dependencies");
    match deps {
        Some(d) => match d {
            JsonValue::Obj(inner) => {
                let mut out: Vec<DependencyRecord> = Vec::new();
                proof {
                    assert(out.deep_view() =~~= Seq::<RecordView>::empty());
                }
                collect_from_dependencies_map(inner, source, &mut out);
                proof {
                    assert(out.deep_view() =~~= spec_deps_records(inner@, source@));
                }
                out
            },
            _ => Vec::new(),
        },
        None => Vec::new(),
    }
}

} // verus!
