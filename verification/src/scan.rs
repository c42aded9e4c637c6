//! The filesystem scanner over a directory-tree value: exclusion of the
//! fixed denylist of subtree names, the depth cap, manifest identification by
//! exact file name, and dispatch to the matching parser. A walk of the real
//! filesystem only has to build the tree; every decision is made here.

use vstd::prelude::*;

use crate::json::JsonValue;
use crate::lockfile::{parse_package_lock, spec_parse_package_lock};
use crate::requirements::{parse_requirements, spec_pip_records};
use crate::strutil::{chars_vec, lower_vec, seq_eq, spec_lines, spec_lower, str_eq};
use crate::types::{DependencyRecord, RecordView};

verus! {

/// What a walk found in one file: not read, raw text, or a parsed JSON
/// document where parsing may have failed.
pub enum FileData {
    Unread,
    Text(String),
    Json(Option<JsonValue>),
}

/// A directory tree as a value: what the scanner decides over.
pub enum FsTree {
    Dir { name: String, entries: Vec<FsTree> },
    File { name: String, data: FileData },
}

/// The fatal scan failures: a manifest that could not be read, and a
/// lockfile that is not valid JSON.
#[derive(Debug)]
pub enum ScanError {
    UnreadManifest(String),
    MalformedLockfile(String),
}

/// The mathematical shadow of a `ScanError`.
#[verifier::ext_equal]
pub ghost struct ScanIssueView {
    pub malformed: bool,
    pub path: Seq<char>,
}

impl View for ScanError {
    type V = ScanIssueView;

    open spec fn view(&self) -> ScanIssueView {
        match self {
            ScanError::UnreadManifest(p) => ScanIssueView { malformed: false, path: p@ },
            ScanError::MalformedLockfile(p) => ScanIssueView { malformed: true, path: p@ },
        }
    }
}

impl ScanError {
    /// The path of the file the scan failed on.
    pub fn path(&self) -> (r: &String)
        ensures
            r@ == self@.path,
    {
        match self {
            ScanError::UnreadManifest(p) => p,
            ScanError::MalformedLockfile(p) => p,
        }
    }
}

pub open spec fn requirements_name() -> Seq<char> {
    seq!['r', 'e', 'q', 'u', 'i', 'r', 'e', 'm', 'e', 'n', 't', 's', '.', 't', 'x', 't']
}

pub open spec fn lockfile_name() -> Seq<char> {
    seq![
        'p', 'a', 'c', 'k', 'a', 'g', 'e', '-', 'l', 'o', 'c', 'k', '.', 'j', 's', 'o', 'n',
    ]
}

/// A subtree name that is pruned, compared case-insensitively.
pub open spec fn spec_excluded(name: Seq<char>) -> bool {
    let l = spec_lower(name);
    l == seq!['n', 'o', 'd', 'e', '_', 'm', 'o', 'd', 'u', 'l', 'e', 's'] || l == seq![
        '.', 'g', 'i', 't',
    ] || l == seq!['t', 'a', 'r', 'g', 'e', 't'] || l == seq![
        '_', '_', 'p', 'y', 'c', 'a', 'c', 'h', 'e', '_', '_',
    ] || l == seq!['v', 'e', 'n', 'v'] || l == seq!['.', 'v', 'e', 'n', 'v']
}

/// Whether an entry at this depth is descended into at all: the depth cap
/// and the denylist, applied before descending.
pub open spec fn spec_admit(name: Seq<char>, depth: int) -> bool {
    depth <= 64 && !spec_excluded(name)
}

pub open spec fn node_name(node: FsTree) -> Seq<char> {
    match node {
        FsTree::Dir { name, .. } => name@,
        FsTree::File { name, .. } => name@,
    }
}

/// The records below one admitted node, or the first fatal failure.
pub open spec fn spec_scan_node(node: FsTree, path: Seq<char>, depth: int) -> Result<
    Seq<RecordView>,
    ScanIssueView,
>
    decreases node,
{
    match node {
        FsTree::File { name, data } => {
            if name@ == requirements_name() {
                match data {
                    FileData::Text(c) => Ok(spec_pip_records(spec_lines(c@), path)),
                    _ => Err(ScanIssueView { malformed: false, path }),
                }
            } else if name@ == lockfile_name() {
                match data {
                    FileData::Json(Some(v)) => Ok(spec_parse_package_lock(v, path)),
                    FileData::Json(None) => Err(ScanIssueView { malformed: true, path }),
                    _ => Err(ScanIssueView { malformed: false, path }),
                }
            } else {
                Ok(Seq::empty())
            }
        },
        FsTree::Dir { name: _, entries } => spec_scan_entries(entries@, path, depth),
    }
}

/// The records of a directory's entries in order, skipping entries the
/// admission rule prunes, stopping at the first fatal failure.
pub open spec fn spec_scan_entries(entries: Seq<FsTree>, dirpath: Seq<char>, depth: int) -> Result<
    Seq<RecordView>,
    ScanIssueView,
>
    decreases entries,
{
    if entries.len() == 0 {
        Ok(Seq::empty())
    } else {
        let e = entries[0];
        let head: Result<Seq<RecordView>, ScanIssueView> = if spec_admit(
            node_name(e),
            depth + 1,
        ) {
            spec_scan_node(e, dirpath + seq!['/'] + node_name(e), depth + 1)
        } else {
            Ok(Seq::empty())
        };
        match head {
            Err(err) => Err(err),
            Ok(rs) => match spec_scan_entries(entries.drop_first(), dirpath, depth) {
                Err(err) => Err(err),
                Ok(rest) => Ok(rs + rest),
            },
        }
    }
}

/// A pruned directory entry contributes nothing: scanning with it present
/// equals scanning with it removed, so nothing below an excluded or
/// too-deep subtree is ever reached.
pub proof fn lemma_pruned_entry_not_scanned(
    entries: Seq<FsTree>,
    i: int,
    dirpath: Seq<char>,
    depth: int,
)
    requires
        0 <= i < entries.len(),
        !spec_admit(node_name(entries[i]), depth + 1),
    ensures
        spec_scan_entries(entries, dirpath, depth) == spec_scan_entries(
            entries.remove(i),
            dirpath,
            depth,
        ),
    decreases entries.len(),
{
    if i == 0 {
        assert(entries.remove(0) =~= entries.drop_first());
        match spec_scan_entries(entries.drop_first(), dirpath, depth) {
            Ok(rest) => {
                assert(Seq::<RecordView>::empty() + rest =~= rest);
            },
            Err(_) => {},
        }
    } else {
        lemma_pruned_entry_not_scanned(entries.drop_first(), i - 1, dirpath, depth);
        assert(entries.remove(i)[0] == entries[0]);
        assert(entries.remove(i).drop_first() =~= entries.drop_first().remove(i - 1));
        assert(entries.remove(i).len() > 0);
    }
}

/// `spec_excluded` on a name.
pub fn is_excluded_name(name: &str) -> (r: bool)
    ensures
        r == spec_excluded(name@),
{
    let l = lower_vec(&chars_vec(name));
    let nm: Vec<char> = vec!['n', 'o', 'd', 'e', '_', 'm', 'o', 'd', 'u', 'l', 'e', 's'];
    let git: Vec<char> = vec!['.', 'g', 'i', 't'];
    let target: Vec<char> = vec!['t', 'a', 'r', 'g', 'e', 't'];
    let pycache: Vec<char> = vec!['_', '_', 'p', 'y', 'c', 'a', 'c', 'h', 'e', '_', '_'];
    let venv: Vec<char> = vec!['v', 'e', 'n', 'v'];
    let dot_venv: Vec<char> = vec!['.', 'v', 'e', 'n', 'v'];
    proof {
        assert(nm@ =~= seq!['n', 'o', 'd', 'e', '_', 'm', 'o', 'd', 'u', 'l', 'e', 's']);
        assert(git@ =~= seq!['.', 'g', 'i', 't']);
        assert(target@ =~= seq!['t', 'a', 'r', 'g', 'e', 't']);
        assert(pycache@ =~= seq!['_', '_', 'p', 'y', 'c', 'a', 'c', 'h', 'e', '_', '_']);
        assert(venv@ =~= seq!['v', 'e', 'n', 'v']);
        assert(dot_venv@ =~= seq!['.', 'v', 'e', 'n', 'v']);
    }
    seq_eq(&l, &nm) || seq_eq(&l, &git) || seq_eq(&l, &target) || seq_eq(&l, &pycache) || seq_eq(
        &l,
        &venv,
    ) || seq_eq(&l, &dot_venv)
}

/// Which manifest parser a file name selects, if any: 1 for a pip
/// requirements file, 2 for an npm lockfile, 0 for any other file.
pub fn manifest_kind(name: &str) -> (r: u8)
    ensures
        r == 1 <==> name@ == requirements_name(),
        r == 2 <==> name@ != requirements_name() && name@ == lockfile_name(),
        r == 0 <==> name@ != requirements_name() && name@ != lockfile_name(),
{
    proof {
        reveal_strlit("requirements.txt");
        reveal_strlit("package-lock.json");
        assert("requirements.txt"@ =~= requirements_name());
        assert("package-lock.json"@ =~= lockfile_name());
    }
    if str_eq(name, "requirements.txt") {
        1
    } else if str_eq(name, "package-lock.json") {
        2
    } else {
        0
    }
}

fn scan_node(node: &FsTree, path: &String, depth: usize, acc: &mut Vec<DependencyRecord>) -> (r:
    Result<(), ScanError>)
    requires
        depth <= 64,
    ensures
        match r {
            Ok(_) => spec_scan_node(*node, path@, depth as int) is Ok && final(acc).deep_view()
                == old(acc).deep_view() + spec_scan_node(*node, path@, depth as int)->Ok_0,
            Err(e) => spec_scan_node(*node, path@, depth as int) == Err::<
                Seq<RecordView>,
                ScanIssueView,
            >(e@),
        },
    decreases *node,
{
    match node {
        FsTree::File { name, data } => {
            let kind = manifest_kind(name.as_str());
            if kind == 1 {
                match data {
                    FileData::Text(c) => {
                        let mut recs = parse_requirements(c.as_str(), path.as_str());
                        let ghost gained = recs.deep_view();
                        acc.append(&mut recs);
                        proof {
                            assert(acc.deep_view() =~~= old(acc).deep_view() + gained);
                        }
                        Ok(())
                    },
                    _ => Err(ScanError::UnreadManifest(path.clone())),
                }
            } else if kind == 2 {
                match data {
                    FileData::Json(Some(v)) => {
                        let mut recs = parse_package_lock(v, path.as_str());
                        let ghost gained = recs.deep_view();
                        acc.append(&mut recs);
                        proof {
                            assert(acc.deep_view() =~~= old(acc).deep_view() + gained);
                        }
                        Ok(())
                    },
                    FileData::Json(None) => Err(ScanError::MalformedLockfile(path.clone())),
                    _ => Err(ScanError::UnreadManifest(path.clone())),
                }
            } else {
                proof {
                    assert(acc.deep_view() =~~= old(acc).deep_view() + Seq::<
                        RecordView,
                    >::empty());
                }
                Ok(())
            }
        },
        FsTree::Dir { name: _, entries } => {
            let ghost all = entries@;
            let ghost base = old(acc).deep_view();
            let ghost dp = path@;
            let mut gained: Ghost<Seq<RecordView>> = Ghost(Seq::empty());
            let mut i: usize = 0;
            proof {
                assert(all.subrange(0, all.len() as int) =~= all);
                assert(acc.deep_view() =~~= base + gained@);
                assert(decreases_to!(*node => all));
            }
            while i < entries.len()
                invariant
                    i <= all.len(),
                    all == entries@,
                    depth <= 64,
                    dp == path@,
                    decreases_to!(*node => all),
                    spec_scan_node(*node, path@, depth as int) == spec_scan_entries(
                        all,
                        dp,
                        depth as int,
                    ),
                    acc.deep_view() == base + gained@,
                    spec_scan_entries(all, dp, depth as int) == (match spec_scan_entries(
                        all.subrange(i as int, all.len() as int),
                        dp,
                        depth as int,
                    ) {
                        Ok(rs) => Ok::<Seq<RecordView>, ScanIssueView>(gained@ + rs),
                        Err(e) => Err::<Seq<RecordView>, ScanIssueView>(e),
                    }),
                decreases all.len() - i,
            {
                let ghost tail = all.subrange(i as int, all.len() as int);
                let ghost g_old = gained@;
                let ghost mut hrs: Seq<RecordView> = Seq::empty();
                proof {
                    assert(tail[0] == all[i as int]);
                    assert(tail.drop_first() =~= all.subrange(i + 1 as int, all.len() as int));
                }
                let entry = &entries[i];
                let entry_name: &String = match entry {
                    FsTree::Dir { name, .. } => name,
                    FsTree::File { name, .. } => name,
                };
                let admitted = depth < 64 && !is_excluded_name(entry_name.as_str());
                if admitted {
                    let mut child_path = path.clone();
                    child_path.append("/");
                    child_path.append(entry_name.as_str());
                    proof {
                        reveal_strlit("/");
                        assert("/"@ =~= seq!['/']);
                        assert(child_path@ == dp + seq!['/'] + node_name(all[i as int]));
                        assert(decreases_to!(all => all[i as int]));
                    }
                    let ghost before = acc.deep_view();
                    match scan_node(entry, &child_path, depth + 1, acc) {
                        Ok(_) => {
                            proof {
                                hrs = spec_scan_node(
                                    all[i as int],
                                    dp + seq!['/'] + node_name(all[i as int]),
                                    depth + 1,
                                )->Ok_0;
                                gained@ = gained@ + hrs;
                                assert(acc.deep_view() =~~= base + gained@);
                            }
                        },
                        Err(e) => {
                            proof {
                                assert(spec_scan_entries(tail, dp, depth as int) == Err::<
                                    Seq<RecordView>,
                                    ScanIssueView,
                                >(e@));
                            }
                            return Err(e);
                        },
                    }
                } else {
                    proof {
                        assert(!spec_admit(node_name(all[i as int]), depth + 1));
                        gained@ = gained@ + hrs;
                        assert(g_old + Seq::<RecordView>::empty() =~= g_old);
                        assert(acc.deep_view() =~~= base + gained@);
                    }
                }
                proof {
                    assert(gained@ == g_old + hrs);
                    let head: Result<Seq<RecordView>, ScanIssueView> = if spec_admit(
                        node_name(tail[0]),
                        depth + 1,
                    ) {
                        spec_scan_node(tail[0], dp + seq!['/'] + node_name(tail[0]), depth + 1)
                    } else {
                        Ok(Seq::empty())
                    };
                    assert(head == Ok::<Seq<RecordView>, ScanIssueView>(hrs));
                    match spec_scan_entries(tail.drop_first(), dp, depth as int) {
                        Ok(rr) => {
                            assert(spec_scan_entries(tail, dp, depth as int) == Ok::<
                                Seq<RecordView>,
                                ScanIssueView,
                            >(hrs + rr));
                            assert(g_old + (hrs + rr) =~= gained@ + rr);
                        },
                        Err(_) => {},
                    }
                }
                i = i + 1;
            }
            proof {
                assert(spec_scan_entries(
                    all.subrange(all.len() as int, all.len() as int),
                    dp,
                    depth as int,
                ) == Ok::<Seq<RecordView>, ScanIssueView>(Seq::empty()));
                assert(gained@ + Seq::<RecordView>::empty() =~= gained@);
            }
            Ok(())
        },
    }
}

/// All dependency records below a root node: the scanner's whole contract.
pub fn collect_records(root: &FsTree, root_path: &str) -> (r: Result<
    Vec<DependencyRecord>,
    ScanError,
>)
    ensures
        match r {
            Ok(v) => spec_scan_node(*root, root_path@, 0) == Ok::<
                Seq<RecordView>,
                ScanIssueView,
            >(v.deep_view()),
            Err(e) => spec_scan_node(*root, root_path@, 0) == Err::<
                Seq<RecordView>,
                ScanIssueView,
            >(e@),
        },
{
    let mut acc: Vec<DependencyRecord> = Vec::new();
    let p = root_path.to_owned();
    proof {
        assert(acc.deep_view() =~~= Seq::<RecordView>::empty());
    }
    match scan_node(root, &p, 0, &mut acc) {
        Ok(_) => {
            proof {
                assert(acc.deep_view() =~~= spec_scan_node(*root, root_path@, 0)->Ok_0);
            }
            Ok(acc)
        },
        Err(e) => Err(e),
    }
}

} // verus!