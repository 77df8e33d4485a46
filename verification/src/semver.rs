//! Semantic versions as `node_semver` reads and orders them.

use std::str::FromStr;
use vstd::prelude::*;

verus! {

/// One dot-separated identifier of a pre-release tag.
pub enum PreReleaseIdent {
    /// An identifier made of digits only.
    Numeric(u64),
    /// An identifier holding letters, digits or `-`.
    AlphaNumeric(String),
}

/// The mathematical value of a [`PreReleaseIdent`].
pub enum IdentModel {
    Numeric(u64),
    AlphaNumeric(Seq<char>),
}

impl View for PreReleaseIdent {
    type V = IdentModel;

    open spec fn view(&self) -> IdentModel {
        match self {
            PreReleaseIdent::Numeric(n) => IdentModel::Numeric(*n),
            PreReleaseIdent::AlphaNumeric(s) => IdentModel::AlphaNumeric(s@),
        }
    }
}

/// The parts of a semantic version that decide its precedence: build
/// metadata takes no part in it and is not held.
pub struct SemVer {
    pub major: u64,
    pub minor: u64,
    pub patch: u64,
    pub pre_release: Vec<PreReleaseIdent>,
}

/// The mathematical value of a [`SemVer`].
pub struct SemVerModel {
    pub major: u64,
    pub minor: u64,
    pub patch: u64,
    pub pre_release: Seq<IdentModel>,
}

impl View for SemVer {
    type V = SemVerModel;

    open spec fn view(&self) -> SemVerModel {
        SemVerModel {
            major: self.major,
            minor: self.minor,
            patch: self.patch,
            pre_release: self.pre_release@.map_values(|i: PreReleaseIdent| i@),
        }
    }
}

pub open spec fn opt_semver_view(v: Option<SemVer>) -> Option<SemVerModel> {
    match v {
        Some(v) => Some(v@),
        None => None,
    }
}

/// Strings are ordered by their characters, compared by code point; a
/// proper prefix comes first.
pub open spec fn text_less(a: Seq<char>, b: Seq<char>) -> bool
    decreases a.len(),
{
    if a.len() == 0 {
        b.len() > 0
    } else if b.len() == 0 {
        false
    } else if a[0] != b[0] {
        (a[0] as u32) < (b[0] as u32)
    } else {
        text_less(a.drop_first(), b.drop_first())
    }
}

/// Numeric identifiers come before alphanumeric ones; numeric ones are
/// ordered by value, alphanumeric ones as strings.
pub open spec fn ident_less(a: IdentModel, b: IdentModel) -> bool {
    match (a, b) {
        (IdentModel::Numeric(x), IdentModel::Numeric(y)) => x < y,
        (IdentModel::Numeric(_), IdentModel::AlphaNumeric(_)) => true,
        (IdentModel::AlphaNumeric(_), IdentModel::Numeric(_)) => false,
        (IdentModel::AlphaNumeric(x), IdentModel::AlphaNumeric(y)) => text_less(x, y),
    }
}

/// Identifier lists are ordered lexicographically; a proper prefix comes first.
pub open spec fn idents_less(a: Seq<IdentModel>, b: Seq<IdentModel>) -> bool
    decreases a.len(),
{
    if a.len() == 0 {
        b.len() > 0
    } else if b.len() == 0 {
        false
    } else if a[0] != b[0] {
        ident_less(a[0], b[0])
    } else {
        idents_less(a.drop_first(), b.drop_first())
    }
}

/// Semantic-version precedence: `a` is greater than `b`. Major, minor and
/// patch decide in that order; with those equal, a version without a
/// pre-release tag is greater than one with it, and two pre-release tags are
/// compared identifier by identifier.
pub open spec fn semver_greater(a: SemVerModel, b: SemVerModel) -> bool {
    if a.major != b.major {
        a.major > b.major
    } else if a.minor != b.minor {
        a.minor > b.minor
    } else if a.patch != b.patch {
        a.patch > b.patch
    } else if a.pre_release.len() == 0 {
        b.pre_release.len() > 0
    } else if b.pre_release.len() == 0 {
        false
    } else {
        idents_less(b.pre_release, a.pre_release)
    }
}

/// The version that `node_semver` reads from `text`, if it reads one.
pub uninterp spec fn parsed_semver(text: Seq<char>) -> Option<SemVerModel>;

/// Reads `text` as a semantic version.
/// Calls `node_semver::Version::from_str`; the contract says only that the
/// result is the one that function gives for `text` (without its build
/// metadata), and names it.
#[verifier::external_body]
pub(crate) fn parse_semver(text: &str) -> (r: Option<SemVer>)
    ensures
        opt_semver_view(r) == parsed_semver(text@),
{
    let version = node_semver::Version::from_str(text).ok()?;
    let pre_release = version.pre_release.into_iter().map(|ident| match ident {
        node_semver::Identifier::Numeric(n) => PreReleaseIdent::Numeric(n),
        node_semver::Identifier::AlphaNumeric(s) => PreReleaseIdent::AlphaNumeric(s),
    }).collect();
    Some(SemVer { major: version.major, minor: version.minor, patch: version.patch, pre_release })
}

/// Whether `a` has higher precedence than `b`.
/// Calls `>` on `node_semver::Version` (its hand-written `Ord`), on versions
/// built from `a` and `b` with no build metadata, which that order ignores.
/// The contract states that order as `node_semver`'s source writes it.
#[verifier::external_body]
pub(crate) fn semver_gt(a: &SemVer, b: &SemVer) -> (r: bool)
    ensures
        r == semver_greater(a@, b@),
{
    let rebuild = |v: &SemVer| node_semver::Version {
        major: v.major,
        minor: v.minor,
        patch: v.patch,
        build: Vec::new(),
        pre_release: v.pre_release.iter().map(|ident| match ident {
            PreReleaseIdent::Numeric(n) => node_semver::Identifier::Numeric(*n),
            PreReleaseIdent::AlphaNumeric(s) => node_semver::Identifier::AlphaNumeric(s.clone()),
        }).collect(),
    };
    rebuild(a) > rebuild(b)
}

proof fn lemma_text_less_asymmetric(a: Seq<char>, b: Seq<char>)
    ensures
        !(text_less(a, b) && text_less(b, a)),
        !text_less(a, a),
    decreases a.len(),
{
    if a.len() > 0 && b.len() > 0 && a[0] == b[0] {
        lemma_text_less_asymmetric(a.drop_first(), b.drop_first());
    }
    if a.len() > 0 {
        lemma_text_less_asymmetric(a.drop_first(), a.drop_first());
    }
}

proof fn lemma_ident_less_asymmetric(a: IdentModel, b: IdentModel)
    ensures
        !(ident_less(a, b) && ident_less(b, a)),
        !ident_less(a, a),
{
    match (a, b) {
        (IdentModel::AlphaNumeric(x), IdentModel::AlphaNumeric(y)) => {
            lemma_text_less_asymmetric(x, y);
        },
        (IdentModel::AlphaNumeric(x), _) => {
            lemma_text_less_asymmetric(x, x);
        },
        _ => {},
    }
}

proof fn lemma_idents_less_asymmetric(a: Seq<IdentModel>, b: Seq<IdentModel>)
    ensures
        !(idents_less(a, b) && idents_less(b, a)),
        !idents_less(a, a),
    decreases a.len(),
{
    if a.len() > 0 && b.len() > 0 {
        lemma_ident_less_asymmetric(a[0], b[0]);
        if a[0] == b[0] {
            lemma_idents_less_asymmetric(a.drop_first(), b.drop_first());
        }
    }
    if a.len() > 0 {
        lemma_idents_less_asymmetric(a.drop_first(), a.drop_first());
    }
}

/// Precedence is a strict order: no version is greater than itself, and of
/// two versions at most one is greater than the other.
pub proof fn lemma_semver_greater_asymmetric(a: SemVerModel, b: SemVerModel)
    ensures
        !(semver_greater(a, b) && semver_greater(b, a)),
        !semver_greater(a, a),
{
    lemma_idents_less_asymmetric(a.pre_release, b.pre_release);
    lemma_idents_less_asymmetric(b.pre_release, a.pre_release);
}

} // verus!
