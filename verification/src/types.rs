//! The record and metadata types that every stage of the pipeline exchanges,
//! with their mathematical views and well-formedness conditions.

use vstd::prelude::*;

use crate::strutil::{spec_lower, spec_trim};

verus! {

/// One dependency occurrence discovered in a manifest file.
#[derive(Debug)]
pub struct DependencyRecord {
    /// Which ecosystem the record belongs to: `"pip"` or `"npm"`.
    pub manager: String,
    /// Normalized package identifier.
    pub name: String,
    /// Version constraint, absent when the manifest pins none.
    pub version: Option<String>,
    /// Free-text license; `"Unknown"` is the sentinel for "not yet resolved".
    pub license: String,
    /// Path of the manifest file the record was discovered in.
    pub source: String,
    /// Homepage URL, if resolved.
    pub homepage: Option<String>,
}

/// Resolved, cacheable facts about a package.
#[derive(Debug)]
pub struct PackageMetadata {
    pub license: Option<String>,
    pub homepage: Option<String>,
}

/// The mathematical shadow of a `DependencyRecord`.
#[verifier::ext_equal]
pub ghost struct RecordView {
    pub manager: Seq<char>,
    pub name: Seq<char>,
    pub version: Option<Seq<char>>,
    pub license: Seq<char>,
    pub source: Seq<char>,
    pub homepage: Option<Seq<char>>,
}

/// The mathematical shadow of a `PackageMetadata`.
#[verifier::ext_equal]
pub ghost struct MetadataView {
    pub license: Option<Seq<char>>,
    pub homepage: Option<Seq<char>>,
}

impl View for DependencyRecord {
    type V = RecordView;

    open spec fn view(&self) -> RecordView {
        RecordView {
            manager: self.manager@,
            name: self.name@,
            version: self.version.deep_view(),
            license: self.license@,
            source: self.source@,
            homepage: self.homepage.deep_view(),
        }
    }
}

impl DeepView for DependencyRecord {
    type V = RecordView;

    open spec fn deep_view(&self) -> RecordView {
        self.view()
    }
}

impl View for PackageMetadata {
    type V = MetadataView;

    open spec fn view(&self) -> MetadataView {
        MetadataView { license: self.license.deep_view(), homepage: self.homepage.deep_view() }
    }
}

impl DeepView for PackageMetadata {
    type V = MetadataView;

    open spec fn deep_view(&self) -> MetadataView {
        self.view()
    }
}

impl Clone for DependencyRecord {
    fn clone(&self) -> (r: Self)
        ensures
            r@ == self@,
    {
        DependencyRecord {
            manager: self.manager.clone(),
            name: self.name.clone(),
            version: match &self.version {
                Some(v) => Some(v.clone()),
                None => None,
            },
            license: self.license.clone(),
            source: self.source.clone(),
            homepage: match &self.homepage {
                Some(h) => Some(h.clone()),
                None => None,
            },
        }
    }
}

impl Clone for PackageMetadata {
    fn clone(&self) -> (r: Self)
        ensures
            r@ == self@,
    {
        PackageMetadata {
            license: match &self.license {
                Some(l) => Some(l.clone()),
                None => None,
            },
            homepage: match &self.homepage {
                Some(h) => Some(h.clone()),
                None => None,
            },
        }
    }
}

/// The manager tag of records found in pip manifests.
pub open spec fn pip_seq() -> Seq<char> {
    seq!['p', 'i', 'p']
}

/// The manager tag of records found in npm lockfiles.
pub open spec fn npm_seq() -> Seq<char> {
    seq!['n', 'p', 'm']
}

pub fn pip_manager() -> (r: String)
    ensures
        r@ == pip_seq(),
{
    let s = "pip";
    proof {
        reveal_strlit("pip");
        assert(s@ =~= pip_seq());
    }
    s.to_owned()
}

pub fn npm_manager() -> (r: String)
    ensures
        r@ == npm_seq(),
{
    let s = "npm";
    proof {
        reveal_strlit("npm");
        assert(s@ =~= npm_seq());
    }
    s.to_owned()
}

/// The license sentinel `"Unknown"`.
pub open spec fn unknown_seq() -> Seq<char> {
    seq!['U', 'n', 'k', 'n', 'o', 'w', 'n']
}

/// A record's license is never the empty string: it is the `"Unknown"`
/// sentinel or a non-blank value.
pub open spec fn record_ok(r: RecordView) -> bool {
    r.license == unknown_seq() || spec_trim(r.license).len() > 0
}

/// The lowercase spelling of the license sentinel.
pub open spec fn unknown_lower_seq() -> Seq<char> {
    seq!['u', 'n', 'k', 'n', 'o', 'w', 'n']
}

/// A present metadata license is non-blank and not, case-insensitively, the
/// word "unknown".
pub open spec fn metadata_ok(m: MetadataView) -> bool {
    match m.license {
        Some(l) => spec_trim(l).len() > 0 && spec_lower(spec_trim(l)) != unknown_lower_seq(),
        None => true,
    }
}

/// The `"Unknown"` sentinel as a string value.
pub fn unknown_license() -> (r: String)
    ensures
        r@ == unknown_seq(),
{
    let s = "Unknown";
    proof {
        reveal_strlit("Unknown");
        assert(s@ =~= unknown_seq());
    }
    s.to_owned()
}

} // verus!
