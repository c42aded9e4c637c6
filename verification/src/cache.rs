//! The persistent license cache: a lookup table from lowercased
//! `manager::name` keys to package metadata, held in memory during a run and
//! exchanged with its backing file as a versioned JSON document.

use vstd::prelude::*;

use crate::json::{spec_get, spec_obj_get, JsonValue};
use crate::strutil::{
    chars_vec, eq_ignore_case, lower_vec, spec_lower, spec_trim, str_eq, string_from, trim,
};
use crate::types::{metadata_ok, unknown_lower_seq, MetadataView, PackageMetadata};

verus! {

/// The composite cache key: both parts lowercased, joined with `::`.
pub open spec fn spec_cache_key(manager: Seq<char>, name: Seq<char>) -> Seq<char> {
    spec_lower(manager) + seq![':', ':'] + spec_lower(name)
}

/// `spec_cache_key` as a string.
pub fn cache_key(manager: &str, name: &str) -> (r: String)
    ensures
        r@ == spec_cache_key(manager@, name@),
{
    let mv = lower_vec(&chars_vec(manager));
    let nv = lower_vec(&chars_vec(name));
    let mut out = mv;
    out.push(':');
    out.push(':');
    let mut k: usize = 0;
    while k < nv.len()
        invariant
            k <= nv@.len(),
            out@ == spec_lower(manager@) + seq![':', ':'] + nv@.subrange(0, k as int),
        decreases nv@.len() - k,
    {
        out.push(nv[k]);
        proof {
            assert(out@ =~= spec_lower(manager@) + seq![':', ':'] + nv@.subrange(0, k + 1 as int));
        }
        k = k + 1;
    }
    proof {
        assert(out@ =~= spec_cache_key(manager@, name@));
    }
    string_from(&out)
}

/// The lookup table an entry sequence denotes: a later entry under the same
/// key overwrites an earlier one.
pub open spec fn entries_map(s: Seq<(String, PackageMetadata)>) -> Map<Seq<char>, MetadataView>
    decreases s.len(),
{
    if s.len() == 0 {
        Map::empty()
    } else {
        entries_map(s.drop_last()).insert(s.last().0@, s.last().1@)
    }
}

/// Every metadata value of the entry sequence is well formed.
pub open spec fn entries_ok(s: Seq<(String, PackageMetadata)>) -> bool {
    forall|i: int| 0 <= i < s.len() ==> metadata_ok(#[trigger] s[i].1@)
}

/// The process-scoped, disk-persisted license lookup table.
pub struct LicenseCache {
    entries: Vec<(String, PackageMetadata)>,
    dirty: bool,
}

impl LicenseCache {
    /// The lookup table this cache holds.
    pub closed spec fn map(&self) -> Map<Seq<char>, MetadataView> {
        entries_map(self.entries@)
    }

    /// Whether the table changed since it was loaded or last saved.
    pub closed spec fn spec_dirty(&self) -> bool {
        self.dirty
    }

    pub closed spec fn wf(&self) -> bool {
        entries_ok(self.entries@)
    }

    /// An empty table, as a missing cache file starts one.
    pub fn new() -> (r: Self)
        ensures
            r.map() == Map::<Seq<char>, MetadataView>::empty(),
            !r.spec_dirty(),
            r.wf(),
    {
        let r = LicenseCache { entries: Vec::new(), dirty: false };
        proof {
            assert(r.map() =~= Map::<Seq<char>, MetadataView>::empty());
        }
        r
    }

    /// The stored metadata under the case-folded key, if any.
    pub fn get(&self, manager: &str, name: &str) -> (r: Option<PackageMetadata>)
        requires
            self.wf(),
        ensures
            r.deep_view() == (if self.map().contains_key(spec_cache_key(manager@, name@)) {
                Some(self.map()[spec_cache_key(manager@, name@)])
            } else {
                None
            }),
            r matches Some(m) ==> metadata_ok(m@),
    {
        let key = cache_key(manager, name);
        let ghost k = spec_cache_key(manager@, name@);
        let ghost all = self.entries@;
        let mut j: usize = self.entries.len();
        proof {
            assert(all.subrange(0, all.len() as int) =~= all);
        }
        while j > 0
            invariant
                j <= all.len(),
                all == self.entries@,
                key@ == k,
                k == spec_cache_key(manager@, name@),
                entries_ok(all),
                entries_map(all).contains_key(k) == entries_map(
                    all.subrange(0, j as int),
                ).contains_key(k),
                entries_map(all).contains_key(k) ==> entries_map(all)[k] == entries_map(
                    all.subrange(0, j as int),
                )[k],
            decreases j,
        {
            let ghost part = all.subrange(0, j as int);
            proof {
                assert(part.drop_last() =~= all.subrange(0, j - 1));
                assert(part.last() == all[j - 1]);
            }
            let entry = &self.entries[j - 1];
            if str_eq(entry.0.as_str(), key.as_str()) {
                proof {
                    assert(entries_map(part).contains_key(k));
                    assert(entries_map(part)[k] == all[j - 1].1@);
                    assert(self.map().contains_key(k));
                    assert(self.map()[k] == all[j - 1].1@);
                }
                let m = entry.1.clone();
                proof {
                    assert(m@ == all[j - 1].1@);
                }
                return Some(m);
            }
            j = j - 1;
        }
        proof {
            assert(!entries_map(all.subrange(0, 0)).contains_key(k));
        }
        None
    }

    /// Stores metadata under the case-folded key, overwriting an earlier
    /// entry, and marks the table dirty.
    pub fn insert(&mut self, manager: &str, name: &str, metadata: PackageMetadata)
        requires
            old(self).wf(),
            metadata_ok(metadata@),
        ensures
            final(self).wf(),
            final(self).map() == old(self).map().insert(
                spec_cache_key(manager@, name@),
                metadata@,
            ),
            final(self).spec_dirty(),
    {
        let key = cache_key(manager, name);
        let ghost prev = self.entries@;
        self.entries.push((key, metadata));
        self.dirty = true;
        proof {
            assert(self.entries@.drop_last() =~= prev);
            assert(self.map() =~= old(self).map().insert(
                spec_cache_key(manager@, name@),
                metadata@,
            ));
        }
    }

    /// Marks the table as flushed.
    pub fn mark_saved(&mut self)
        requires
            old(self).wf(),
        ensures
            final(self).wf(),
            final(self).map() == old(self).map(),
            !final(self).spec_dirty(),
    {
        self.dirty = false;
    }

    /// Whether a flush must write the table out.
    pub fn is_dirty(&self) -> (r: bool)
        ensures
            r == self.spec_dirty(),
    {
        self.dirty
    }
}

pub open spec fn version_field_key() -> Seq<char> {
    seq!['v', 'e', 'r', 's', 'i', 'o', 'n']
}

pub open spec fn entries_field_key() -> Seq<char> {
    seq!['e', 'n', 't', 'r', 'i', 'e', 's']
}

pub open spec fn license_field_key() -> Seq<char> {
    seq!['l', 'i', 'c', 'e', 'n', 's', 'e']
}

pub open spec fn homepage_field_key() -> Seq<char> {
    seq!['h', 'o', 'm', 'e', 'p', 'a', 'g', 'e']
}

/// An optional string member: absent or `null` is nothing, a string is its
/// text, any other shape is corrupt.
pub open spec fn spec_decode_field(v: Option<JsonValue>) -> Option<Option<Seq<char>>> {
    match v {
        None => Some(None),
        Some(JsonValue::Null) => Some(None),
        Some(JsonValue::Str(s)) => Some(Some(s@)),
        Some(_) => None,
    }
}

/// The metadata a cache-entry object denotes; a stored license that is blank
/// or, case-insensitively, the word "unknown" counts as absent, so that
/// present metadata is always a real value.
pub open spec fn spec_decode_meta(v: JsonValue) -> Option<MetadataView> {
    match v {
        JsonValue::Obj(_) => match (
            spec_decode_field(spec_get(v, license_field_key())),
            spec_decode_field(spec_get(v, homepage_field_key())),
        ) {
            (Some(lic), Some(home)) => Some(
                MetadataView {
                    license: match lic {
                        Some(l) => if spec_trim(l).len() > 0 && spec_lower(spec_trim(l))
                            != unknown_lower_seq() {
                            Some(l)
                        } else {
                            None
                        },
                        None => None,
                    },
                    homepage: home,
                },
            ),
            _ => None,
        },
        _ => None,
    }
}

/// The lookup table an entries object denotes, or nothing when any entry is
/// corrupt.
pub open spec fn spec_entries_from(ents: Seq<(String, JsonValue)>) -> Option<
    Map<Seq<char>, MetadataView>,
>
    decreases ents.len(),
{
    if ents.len() == 0 {
        Some(Map::empty())
    } else {
        match spec_entries_from(ents.drop_last()) {
            Some(m) => match spec_decode_meta(ents.last().1) {
                Some(mv) => Some(m.insert(ents.last().0@, mv)),
                None => None,
            },
            None => None,
        }
    }
}

/// The lookup table a cache document denotes: an object whose `version` is
/// exactly 1 and whose `entries` decode; anything else is corrupt, and a
/// version mismatch fails closed.
pub open spec fn spec_cache_from_json(v: JsonValue) -> Option<Map<Seq<char>, MetadataView>> {
    if spec_get(v, version_field_key()) == Some(JsonValue::Int(1)) {
        match spec_get(v, entries_field_key()) {
            Some(JsonValue::Obj(ents)) => spec_entries_from(ents@),
            _ => None,
        }
    } else {
        None
    }
}

/// The backing file's content cannot be read as a cache table.
#[derive(Debug)]
pub enum CacheError {
    Corrupt,
}

/// A corrupt entry anywhere makes the whole entries object corrupt.
proof fn lemma_entries_from_fail(ents: Seq<(String, JsonValue)>, i: int)
    requires
        0 <= i < ents.len(),
        spec_decode_meta(ents[i].1) is None,
    ensures
        spec_entries_from(ents) is None,
    decreases ents.len(),
{
    if i < ents.len() - 1 {
        lemma_entries_from_fail(ents.drop_last(), i);
    }
}

/// Entries that decode pointwise fold to the same table.
proof fn lemma_entries_roundtrip(
    ents: Seq<(String, JsonValue)>,
    entries: Seq<(String, PackageMetadata)>,
)
    requires
        ents.len() == entries.len(),
        forall|i: int|
            0 <= i < ents.len() ==> (#[trigger] ents[i]).0@ == entries[i].0@ && spec_decode_meta(
                ents[i].1,
            ) == Some(entries[i].1@),
    ensures
        spec_entries_from(ents) == Some(entries_map(entries)),
    decreases ents.len(),
{
    if ents.len() > 0 {
        assert(forall|i: int|
            0 <= i < ents.len() - 1 ==> ents.drop_last()[i] == ents[i] && entries.drop_last()[i]
                == entries[i]);
        lemma_entries_roundtrip(ents.drop_last(), entries.drop_last());
        assert(ents.last() == ents[ents.len() - 1]);
    }
}

fn decode_field(v: Option<&JsonValue>) -> (r: Result<Option<String>, CacheError>)
    ensures
        match r {
            Ok(f) => spec_decode_field(
                match v {
                    Some(x) => Some(*x),
                    None => None,
                },
            ) == Some(f.deep_view()),
            Err(_) => spec_decode_field(
                match v {
                    Some(x) => Some(*x),
                    None => None,
                },
            ) is None,
        },
{
    match v {
        None => Ok(None),
        Some(JsonValue::Null) => Ok(None),
        Some(JsonValue::Str(s)) => Ok(Some(s.clone())),
        Some(_) => Err(CacheError::Corrupt),
    }
}

impl LicenseCache {
    /// The table a cache document holds; a document of any other shape, or of
    /// another version, is reported corrupt.
    pub fn from_json(v: &JsonValue) -> (r: Result<LicenseCache, CacheError>)
        ensures
            match r {
                Ok(c) => spec_cache_from_json(*v) == Some(c.map()) && c.wf() && !c.spec_dirty(),
                Err(_) => spec_cache_from_json(*v) is None,
            },
    {
        proof {
            reveal_strlit("version");
            reveal_strlit("entries");
            reveal_strlit("license");
            reveal_strlit("homepage");
            assert("version"@ =~= version_field_key());
            assert("entries"@ =~= entries_field_key());
            assert("license"@ =~= license_field_key());
            assert("homepage"@ =~= homepage_field_key());
        }
        let version_ok = match v.get("version") {
            Some(JsonValue::Int(n)) => *n == 1i64,
            _ => false,
        };
        if !version_ok {
            return Err(CacheError::Corrupt);
        }
        let ents = match v.get("entries") {
            Some(e) => match e {
                JsonValue::Obj(ents) => ents,
                _ => {
                    return Err(CacheError::Corrupt);
                },
            },
            None => {
                return Err(CacheError::Corrupt);
            },
        };
        let ghost all = ents@;
        let mut table: Vec<(String, PackageMetadata)> = Vec::new();
        let mut i: usize = 0;
        proof {
            assert(all.subrange(0, 0) =~= Seq::<(String, JsonValue)>::empty());
            assert(spec_entries_from(all.subrange(0, 0)) == Some(entries_map(table@))) by {
                assert(entries_map(table@) =~= Map::<Seq<char>, MetadataView>::empty());
            }
            assert(spec_cache_from_json(*v) == spec_entries_from(all));
        }
        while i < ents.len()
            invariant
                i <= all.len(),
                all == ents@,
                spec_cache_from_json(*v) == spec_entries_from(all),
                table@.len() == i,
                entries_ok(table@),
                forall|j: int|
                    0 <= j < i ==> (#[trigger] all[j]).0@ == table@[j].0@ && spec_decode_meta(
                        all[j].1,
                    ) == Some(table@[j].1@),
            decreases all.len() - i,
        {
            proof {
                reveal_strlit("license");
                reveal_strlit("homepage");
                assert("license"@ =~= license_field_key());
                assert("homepage"@ =~= homepage_field_key());
            }
            let entry = &ents[i];
            let lic_raw = match decode_field(entry.1.get("license")) {
                Ok(f) => f,
                Err(e) => {
                    proof {
                        lemma_entries_from_fail(all, i as int);
                    }
                    return Err(e);
                },
            };
            let home = match decode_field(entry.1.get("homepage")) {
                Ok(f) => f,
                Err(e) => {
                    proof {
                        lemma_entries_from_fail(all, i as int);
                    }
                    return Err(e);
                },
            };
            if !(match entry.1 {
                JsonValue::Obj(_) => true,
                _ => false,
            }) {
                proof {
                    lemma_entries_from_fail(all, i as int);
                }
                return Err(CacheError::Corrupt);
            }
            let unknown: Vec<char> = vec!['u', 'n', 'k', 'n', 'o', 'w', 'n'];
            proof {
                assert(unknown@ =~= unknown_lower_seq());
                assert(spec_lower(unknown@) =~= unknown_lower_seq());
            }
            let lic = match lic_raw {
                Some(l) => {
                    let lc = chars_vec(l.as_str());
                    let lt = trim(&lc);
                    if lt.len() > 0 && !eq_ignore_case(&lt, &unknown) {
                        Some(l)
                    } else {
                        None
                    }
                },
                None => None,
            };
            let meta = PackageMetadata { license: lic, homepage: home };
            table.push((entry.0.clone(), meta));
            i = i + 1;
        }
        proof {
            assert(all.subrange(0, all.len() as int) =~= all);
            lemma_entries_roundtrip(all, table@);
        }
        Ok(LicenseCache { entries: table, dirty: false })
    }

    /// The versioned document that stores this table; decoding it yields the
    /// same table back.
    pub fn to_json(&self) -> (r: JsonValue)
        requires
            self.wf(),
        ensures
            spec_cache_from_json(r) == Some(self.map()),
    {
        proof {
            reveal_strlit("version");
            reveal_strlit("entries");
            reveal_strlit("license");
            reveal_strlit("homepage");
            assert("version"@ =~= version_field_key());
            assert("entries"@ =~= entries_field_key());
            assert("license"@ =~= license_field_key());
            assert("homepage"@ =~= homepage_field_key());
        }
        let ghost all = self.entries@;
        let mut ents: Vec<(String, JsonValue)> = Vec::new();
        let mut i: usize = 0;
        while i < self.entries.len()
            invariant
                i <= all.len(),
                all == self.entries@,
                entries_ok(all),
                ents@.len() == i,
                forall|j: int|
                    0 <= j < i ==> (#[trigger] ents@[j]).0@ == all[j].0@ && spec_decode_meta(
                        ents@[j].1,
                    ) == Some(all[j].1@),
            decreases all.len() - i,
        {
            proof {
                reveal_strlit("license");
                reveal_strlit("homepage");
                assert("license"@ =~= license_field_key());
                assert("homepage"@ =~= homepage_field_key());
            }
            let entry = &self.entries[i];
            let lic_json = match &entry.1.license {
                Some(l) => JsonValue::Str(l.clone()),
                None => JsonValue::Null,
            };
            let home_json = match &entry.1.homepage {
                Some(h) => JsonValue::Str(h.clone()),
                None => JsonValue::Null,
            };
            let mut meta_fields: Vec<(String, JsonValue)> = Vec::new();
            meta_fields.push(("license".to_owned(), lic_json));
            meta_fields.push(("homepage".to_owned(), home_json));
            let meta_json = JsonValue::Obj(meta_fields);
            proof {
                let mf = meta_json->Obj_0@;
                assert(mf.len() == 2);
                assert(mf[0].0@ == license_field_key());
                assert(mf[1].0@ == homepage_field_key());
                assert(license_field_key() != homepage_field_key());
                assert(spec_obj_get(mf, license_field_key()) == Some(mf[0].1));
                assert(mf.drop_first() =~= seq![mf[1]]);
                assert(spec_obj_get(mf, homepage_field_key()) == spec_obj_get(
                    mf.drop_first(),
                    homepage_field_key(),
                ));
                assert(spec_obj_get(seq![mf[1]], homepage_field_key()) == Some(mf[1].1));
                assert(spec_decode_meta(meta_json) == Some(all[i as int].1@));
            }
            ents.push((entry.0.clone(), meta_json));
            i = i + 1;
        }
        let mut top: Vec<(String, JsonValue)> = Vec::new();
        top.push(("version".to_owned(), JsonValue::Int(1)));
        top.push(("entries".to_owned(), JsonValue::Obj(ents)));
        let r = JsonValue::Obj(top);
        proof {
            let tf = r->Obj_0@;
            assert(tf.len() == 2);
            assert(tf[0].0@ == version_field_key());
            assert(tf[1].0@ == entries_field_key());
            assert(version_field_key() != entries_field_key());
            assert(spec_obj_get(tf, version_field_key()) == Some(tf[0].1));
            assert(tf.drop_first() =~= seq![tf[1]]);
            assert(spec_obj_get(tf, entries_field_key()) == spec_obj_get(
                tf.drop_first(),
                entries_field_key(),
            ));
            assert(spec_obj_get(seq![tf[1]], entries_field_key()) == Some(tf[1].1));
            assert(all.subrange(0, all.len() as int) =~= all);
            lemma_entries_roundtrip(ents@, all);
        }
        r
    }
}

} // verus!
