//! The metadata enricher's decision core: which records need metadata, how
//! fetched metadata merges into a record, and the per-run session memo that
//! keeps any `(manager, name)` key from being fetched twice.

use vstd::prelude::*;

use crate::cache::{spec_cache_key, LicenseCache};
use crate::strutil::{chars_vec, eq_ignore_case, spec_lower, spec_trim, str_eq, trim};
use crate::types::{metadata_ok, record_ok, unknown_lower_seq, DependencyRecord, MetadataView,
    PackageMetadata, RecordView};

verus! {

/// A record needs metadata when its homepage is absent, or its license is
/// blank or (case-insensitively) the sentinel.
pub open spec fn spec_needs_metadata(r: RecordView) -> bool {
    r.homepage is None || spec_trim(r.license).len() == 0 || spec_lower(r.license)
        == unknown_lower_seq()
}

/// `spec_needs_metadata` on a record.
pub fn needs_metadata(record: &DependencyRecord) -> (r: bool)
    ensures
        r == spec_needs_metadata(record@),
{
    if record.homepage.is_none() {
        return true;
    }
    let lc = chars_vec(record.license.as_str());
    let lt = trim(&lc);
    if lt.len() == 0 {
        return true;
    }
    let unknown: Vec<char> = vec!['u', 'n', 'k', 'n', 'o', 'w', 'n'];
    proof {
        assert(unknown@ =~= unknown_lower_seq());
        assert(spec_lower(unknown@) =~= unknown_lower_seq());
    }
    eq_ignore_case(&lc, &unknown)
}

/// A fetched license overwrites only a blank or sentinel one, and only when
/// a fetched license is present at all.
pub open spec fn spec_should_update_license(
    current: Seq<char>,
    candidate: Option<Seq<char>>,
) -> bool {
    candidate is Some && (spec_trim(current).len() == 0 || spec_lower(current) == unknown_lower_seq())
}

/// `spec_should_update_license` on strings.
pub fn should_update_license(current: &str, candidate: Option<&str>) -> (r: bool)
    ensures
        r == spec_should_update_license(current@, candidate.deep_view()),
{
    if candidate.is_none() {
        return false;
    }
    let cc = chars_vec(current);
    let ct = trim(&cc);
    if ct.len() == 0 {
        return true;
    }
    let unknown: Vec<char> = vec!['u', 'n', 'k', 'n', 'o', 'w', 'n'];
    proof {
        assert(unknown@ =~= unknown_lower_seq());
        assert(spec_lower(unknown@) =~= unknown_lower_seq());
    }
    eq_ignore_case(&cc, &unknown)
}

/// The record after metadata merges in: the license only replaced when the
/// present one is blank or the sentinel and the fetched one is present; the
/// homepage only filled when absent; everything else untouched.
pub open spec fn spec_apply_metadata(r: RecordView, metadata: Option<MetadataView>) -> RecordView {
    match metadata {
        Some(m) => RecordView {
            license: if spec_should_update_license(r.license, m.license) {
                m.license->Some_0
            } else {
                r.license
            },
            homepage: if r.homepage is None {
                m.homepage
            } else {
                r.homepage
            },
            ..r
        },
        None => r,
    }
}

/// Merges fetched metadata into a record, as `spec_apply_metadata` says.
/// Already-good data is never clobbered, and a well-formed record stays well
/// formed when the metadata is.
pub fn apply_metadata(record: &mut DependencyRecord, metadata: &Option<PackageMetadata>)
    ensures
        final(record)@ == spec_apply_metadata(old(record)@, metadata.deep_view()),
        record_ok(old(record)@) && (match metadata.deep_view() {
            Some(m) => metadata_ok(m),
            None => true,
        }) ==> record_ok(final(record)@),
{
    match metadata {
        Some(meta) => {
            let update = match &meta.license {
                Some(l) => should_update_license(record.license.as_str(), Some(l.as_str())),
                None => should_update_license(record.license.as_str(), None),
            };
            if update {
                match &meta.license {
                    Some(license) => {
                        record.license = license.clone();
                    },
                    None => {},
                }
            }
            if record.homepage.is_none() {
                record.homepage = match &meta.homepage {
                    Some(h) => Some(h.clone()),
                    None => None,
                };
            }
            proof {
                assert(final(record)@ =~= spec_apply_metadata(
                    old(record)@,
                    metadata.deep_view(),
                ));
            }
        },
        None => {},
    }
}

/// Enrichment never downgrades a record: a record whose license is already a
/// real value keeps it whatever a fetch returned, and a fetch that returned
/// no license changes no license.
pub proof fn lemma_enrichment_never_downgrades(r: RecordView, metadata: Option<MetadataView>)
    ensures
        !spec_should_update_license(
            r.license,
            match metadata {
                Some(m) => m.license,
                None => None,
            },
        ) ==> spec_apply_metadata(r, metadata).license == r.license,
        (match metadata {
            Some(m) => m.license is None,
            None => true,
        }) ==> spec_apply_metadata(r, metadata).license == r.license,
{
}

/// One fetch outcome, as the transport layer reports it back.
pub enum FetchOutcome {
    /// A successful response that yielded metadata.
    Success(PackageMetadata),
    /// The registry answered that the package does not exist, or a successful
    /// response yielded neither license nor homepage.
    NotFound,
    /// A transport failure or an unexpected status: recoverable, per record.
    Failed,
}

/// What the caller must do for one record.
#[derive(PartialEq, Eq, Structural)]
pub enum FetchDecision {
    /// The record is settled without network work.
    NoFetch,
    /// A live registry fetch is required; its outcome must be handed back
    /// through `complete`.
    Fetch,
}

/// The per-run session memo: one resolution, possibly negative, per
/// `(manager, name)` key seen this run.
pub struct EnrichmentSession {
    memo: Vec<((String, String), Option<PackageMetadata>)>,
}

/// The memo as a map from key pairs to resolutions.
pub open spec fn memo_map(s: Seq<((String, String), Option<PackageMetadata>)>) -> Map<
    (Seq<char>, Seq<char>),
    Option<MetadataView>,
>
    decreases s.len(),
{
    if s.len() == 0 {
        Map::empty()
    } else {
        memo_map(s.drop_last()).insert(
            (s.last().0.0@, s.last().0.1@),
            s.last().1.deep_view(),
        )
    }
}

pub open spec fn memo_ok(s: Seq<((String, String), Option<PackageMetadata>)>) -> bool {
    forall|i: int|
        0 <= i < s.len() ==> (match (#[trigger] s[i]).1.deep_view() {
            Some(m) => metadata_ok(m),
            None => true,
        })
}

/// A live fetch is due exactly when the record needs metadata and neither
/// the session memo nor the persistent cache knows its key.
pub open spec fn spec_would_fetch(
    memo: Map<(Seq<char>, Seq<char>), Option<MetadataView>>,
    cache: Map<Seq<char>, MetadataView>,
    r: RecordView,
) -> bool {
    spec_needs_metadata(r) && !memo.contains_key((r.manager, r.name)) && !cache.contains_key(
        spec_cache_key(r.manager, r.name),
    )
}

impl EnrichmentSession {
    pub closed spec fn memo(&self) -> Map<(Seq<char>, Seq<char>), Option<MetadataView>> {
        memo_map(self.memo@)
    }

    pub closed spec fn wf(&self) -> bool {
        memo_ok(self.memo@)
    }

    pub fn new() -> (r: Self)
        ensures
            r.memo() == Map::<(Seq<char>, Seq<char>), Option<MetadataView>>::empty(),
            r.wf(),
    {
        let r = EnrichmentSession { memo: Vec::new() };
        proof {
            assert(r.memo() =~= Map::<(Seq<char>, Seq<char>), Option<MetadataView>>::empty());
        }
        r
    }

    /// The memoized resolution under a key, if this run has one.
    fn lookup(&self, manager: &str, name: &str) -> (r: Option<&Option<PackageMetadata>>)
        requires
            self.wf(),
        ensures
            match r {
                Some(m) => self.memo().contains_key((manager@, name@)) && self.memo()[
                    (manager@, name@)
                ] == m.deep_view() && (match m.deep_view() {
                    Some(mv) => metadata_ok(mv),
                    None => true,
                }),
                None => !self.memo().contains_key((manager@, name@)),
            },
    {
        let ghost all = self.memo@;
        let ghost k = (manager@, name@);
        let mut j: usize = self.memo.len();
        proof {
            assert(all.subrange(0, all.len() as int) =~= all);
        }
        while j > 0
            invariant
                j <= all.len(),
                all == self.memo@,
                k == (manager@, name@),
                memo_ok(all),
                memo_map(all).contains_key(k) == memo_map(
                    all.subrange(0, j as int),
                ).contains_key(k),
                memo_map(all).contains_key(k) ==> memo_map(all)[k] == memo_map(
                    all.subrange(0, j as int),
                )[k],
            decreases j,
        {
            let ghost part = all.subrange(0, j as int);
            proof {
                assert(part.drop_last() =~= all.subrange(0, j - 1));
                assert(part.last() == all[j - 1]);
            }
            let entry = &self.memo[j - 1];
            if str_eq(entry.0.0.as_str(), manager) && str_eq(entry.0.1.as_str(), name) {
                proof {
                    assert(memo_map(part).contains_key(k));
                    assert(memo_map(part)[k] == all[j - 1].1.deep_view());
                }
                return Some(&entry.1);
            }
            j = j - 1;
        }
        proof {
            assert(!memo_map(all.subrange(0, 0)).contains_key(k));
        }
        None
    }

    /// Records a resolution for a key in this run's memo.
    fn remember(&mut self, manager: &str, name: &str, resolution: Option<PackageMetadata>)
        requires
            old(self).wf(),
            match resolution.deep_view() {
                Some(m) => metadata_ok(m),
                None => true,
            },
        ensures
            final(self).wf(),
            final(self).memo() == old(self).memo().insert(
                (manager@, name@),
                resolution.deep_view(),
            ),
    {
        let ghost prev = self.memo@;
        self.memo.push(((manager.to_owned(), name.to_owned()), resolution));
        proof {
            assert(self.memo@.drop_last() =~= prev);
            assert(self.memo() =~= old(self).memo().insert(
                (manager@, name@),
                resolution.deep_view(),
            ));
        }
    }

    /// Settles one record without network work where this run's memo or the
    /// persistent cache already knows its key, and otherwise asks the caller
    /// to fetch. A fetch is requested only for a key this run has never
    /// resolved, so no key is fetched twice within a run.
    pub fn begin(
        &mut self,
        cache: &LicenseCache,
        record: &mut DependencyRecord,
    ) -> (d: FetchDecision)
        requires
            old(self).wf(),
            cache.wf(),
        ensures
            final(self).wf(),
            d == FetchDecision::Fetch <==> spec_would_fetch(
                old(self).memo(),
                cache.map(),
                old(record)@,
            ),
            old(self).memo().submap_of(final(self).memo()),
            d == FetchDecision::Fetch ==> final(record)@ == old(record)@ && final(self).memo()
                == old(self).memo(),
            !spec_needs_metadata(old(record)@) ==> final(record)@ == old(record)@
                && final(self).memo() == old(self).memo(),
            spec_needs_metadata(old(record)@) && old(self).memo().contains_key(
                (old(record)@.manager, old(record)@.name),
            ) ==> final(record)@ == spec_apply_metadata(
                old(record)@,
                old(self).memo()[(old(record)@.manager, old(record)@.name)],
            ) && final(self).memo() == old(self).memo(),
            spec_needs_metadata(old(record)@) && !old(self).memo().contains_key(
                (old(record)@.manager, old(record)@.name),
            ) && cache.map().contains_key(
                spec_cache_key(old(record)@.manager, old(record)@.name),
            ) ==> final(record)@ == spec_apply_metadata(
                old(record)@,
                Some(cache.map()[spec_cache_key(old(record)@.manager, old(record)@.name)]),
            ) && final(self).memo() == old(self).memo().insert(
                (old(record)@.manager, old(record)@.name),
                Some(cache.map()[spec_cache_key(old(record)@.manager, old(record)@.name)]),
            ),
            record_ok(old(record)@) ==> record_ok(final(record)@),
            final(record)@.manager == old(record)@.manager && final(record)@.name == old(
                record,
            )@.name && final(record)@.version == old(record)@.version && final(record)@.source
                == old(record)@.source,
    {
        if !needs_metadata(record) {
            proof {
                assert(old(self).memo().submap_of(self.memo()));
            }
            return FetchDecision::NoFetch;
        }
        let memo_hit: Option<Option<PackageMetadata>> = {
            match self.lookup(record.manager.as_str(), record.name.as_str()) {
                Some(m) => Some(
                    match m {
                        Some(meta) => Some(meta.clone()),
                        None => None,
                    },
                ),
                None => None,
            }
        };
        match memo_hit {
            Some(m) => {
                apply_metadata(record, &m);
                proof {
                    assert(old(self).memo().submap_of(self.memo()));
                }
                return FetchDecision::NoFetch;
            },
            None => {},
        }
        let cached = cache.get(record.manager.as_str(), record.name.as_str());
        match cached {
            Some(meta) => {
                let resolution = Some(meta.clone());
                self.remember(record.manager.as_str(), record.name.as_str(), resolution);
                let m = Some(meta);
                apply_metadata(record, &m);
                proof {
                    assert(old(self).memo().submap_of(self.memo()));
                }
                return FetchDecision::NoFetch;
            },
            None => {},
        }
        proof {
            assert(old(self).memo().submap_of(self.memo()));
        }
        FetchDecision::Fetch
    }

    /// Hands a fetch outcome back: success merges into the record and into
    /// both layers; a negative or failed outcome is memoized for this run
    /// only, never persisted. Afterwards the key is always memoized.
    pub fn complete(
        &mut self,
        cache: &mut LicenseCache,
        record: &mut DependencyRecord,
        outcome: FetchOutcome,
    )
        requires
            old(self).wf(),
            old(cache).wf(),
            !old(self).memo().contains_key((old(record)@.manager, old(record)@.name)),
            match outcome {
                FetchOutcome::Success(m) => metadata_ok(m@),
                _ => true,
            },
        ensures
            final(self).wf(),
            final(cache).wf(),
            old(self).memo().submap_of(final(self).memo()),
            final(self).memo().contains_key((old(record)@.manager, old(record)@.name)),
            match outcome {
                FetchOutcome::Success(m) => {
                    &&& final(record)@ == spec_apply_metadata(old(record)@, Some(m@))
                    &&& final(cache).map() == old(cache).map().insert(
                        spec_cache_key(old(record)@.manager, old(record)@.name),
                        m@,
                    )
                    &&& final(self).memo() == old(self).memo().insert(
                        (old(record)@.manager, old(record)@.name),
                        Some(m@),
                    )
                },
                _ => {
                    &&& final(record)@ == old(record)@
                    &&& final(cache).map() == old(cache).map()
                    &&& final(self).memo() == old(self).memo().insert(
                        (old(record)@.manager, old(record)@.name),
                        None,
                    )
                },
            },
            record_ok(old(record)@) ==> record_ok(final(record)@),
    {
        match outcome {
            FetchOutcome::Success(meta) => {
                let m = Some(meta.clone());
                cache.insert(record.manager.as_str(), record.name.as_str(), meta.clone());
                self.remember(record.manager.as_str(), record.name.as_str(), Some(meta));
                apply_metadata(record, &m);
            },
            _ => {
                self.remember(record.manager.as_str(), record.name.as_str(), None);
            },
        }
    }
}

/// Within one run, a key that has been resolved once is never fetched again:
/// once the memo holds the key, no decision for a record under that key asks
/// for a fetch, whatever the cache holds.
pub proof fn lemma_no_refetch(
    memo: Map<(Seq<char>, Seq<char>), Option<MetadataView>>,
    cache: Map<Seq<char>, MetadataView>,
    r: RecordView,
)
    requires
        memo.contains_key((r.manager, r.name)),
    ensures
        !spec_would_fetch(memo, cache, r),
{
}

} // verus!