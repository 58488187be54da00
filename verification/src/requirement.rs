//! The requirement upgrader: given an existing version-requirement string
//! and a new concrete version, decide whether and how to rewrite the
//! requirement so that it reflects the new version while keeping the
//! original operator style.
//!
//! Parsing, matching, and formatting of requirements are the version
//! library's work and stand behind trusted wrappers; every decision made on
//! the parsed form is verified.

use vstd::prelude::*;

use crate::text::{chars_string, str_chars};

verus! {

/// A comparison operator of one requirement comparator.
#[derive(Clone, Copy, PartialEq, Eq, Structural, Debug)]
pub enum ReqOp {
    Exact,
    Greater,
    GreaterEq,
    Less,
    LessEq,
    Tilde,
    Caret,
    Wildcard,
}

/// One comparator of a parsed requirement: operator and partial version.
pub struct Comparator {
    pub op: ReqOp,
    pub major: u64,
    pub minor: Option<u64>,
    pub patch: Option<u64>,
    pub pre: String,
}

/// A concrete version: numbers and optional pre-release identifier.
pub struct Version {
    pub major: u64,
    pub minor: u64,
    pub patch: u64,
    pub pre: String,
}

/// The mathematical value of a comparator.
pub ghost struct CompV {
    pub op: ReqOp,
    pub major: u64,
    pub minor: Option<u64>,
    pub patch: Option<u64>,
    pub pre: Seq<char>,
}

/// The mathematical value of a version.
pub ghost struct VersionV {
    pub major: u64,
    pub minor: u64,
    pub patch: u64,
    pub pre: Seq<char>,
}

impl Comparator {
    /// The comparator's mathematical value.
    pub open spec fn view(&self) -> CompV {
        CompV {
            op: self.op,
            major: self.major,
            minor: self.minor,
            patch: self.patch,
            pre: self.pre@,
        }
    }
}

impl Version {
    /// The version's mathematical value.
    pub open spec fn view(&self) -> VersionV {
        VersionV { major: self.major, minor: self.minor, patch: self.patch, pre: self.pre@ }
    }
}

/// The values of a sequence of comparators.
pub open spec fn comp_views(cs: Seq<Comparator>) -> Seq<CompV> {
    Seq::new(cs.len(), |i: int| cs[i]@)
}

/// What the version library parses a requirement string into: `None` when
/// the string is not a well-formed requirement or uses an operator this
/// crate does not handle, otherwise its comparators in order.
pub uninterp spec fn parsed_req(s: Seq<char>) -> Option<Seq<CompV>>;

/// What the version library prints for a list of comparators: `None` only
/// when a pre-release identifier is not well-formed.
pub uninterp spec fn formatted_req(cs: Seq<CompV>) -> Option<Seq<char>>;

/// Whether a version satisfies the comparators: `None` only when the
/// version's pre-release identifier is not well-formed.
pub uninterp spec fn req_matches(cs: Seq<CompV>, v: VersionV) -> Option<bool>;

/// semver's comparison operator.
#[verifier::external_type_specification]
#[verifier::external_body]
pub struct ExOp(semver::Op);

/// semver's version requirement.
#[verifier::external_type_specification]
#[verifier::external_body]
pub struct ExVersionReq(semver::VersionReq);

/// Converts one of semver's comparison operators to this crate's form;
/// an operator added to semver later than these is not handled.
#[verifier::external_body]
fn op_from_semver(o: semver::Op) -> (r: Option<ReqOp>)
{
    match o {
        semver::Op::Exact => Some(ReqOp::Exact),
        semver::Op::Greater => Some(ReqOp::Greater),
        semver::Op::GreaterEq => Some(ReqOp::GreaterEq),
        semver::Op::Less => Some(ReqOp::Less),
        semver::Op::LessEq => Some(ReqOp::LessEq),
        semver::Op::Tilde => Some(ReqOp::Tilde),
        semver::Op::Caret => Some(ReqOp::Caret),
        semver::Op::Wildcard => Some(ReqOp::Wildcard),
        _ => None,
    }
}

/// Converts one of this crate's comparison operators to semver's form.
#[verifier::external_body]
fn op_to_semver(o: ReqOp) -> (r: semver::Op)
{
    match o {
        ReqOp::Exact => semver::Op::Exact,
        ReqOp::Greater => semver::Op::Greater,
        ReqOp::GreaterEq => semver::Op::GreaterEq,
        ReqOp::Less => semver::Op::Less,
        ReqOp::LessEq => semver::Op::LessEq,
        ReqOp::Tilde => semver::Op::Tilde,
        ReqOp::Caret => semver::Op::Caret,
        ReqOp::Wildcard => semver::Op::Wildcard,
    }
}

/// Converts the comparators to a semver requirement; relies on semver's
/// `Prerelease::new` for each pre-release identifier.
#[verifier::external_body]
fn comps_to_semver(cs: &Vec<Comparator>) -> (r: Option<semver::VersionReq>)
{
    let mut comparators = Vec::new();
    for c in cs.iter() {
        let (op, pre) = (op_to_semver(c.op), semver::Prerelease::new(c.pre.as_str()).ok()?);
        let (major, minor, patch) = (c.major, c.minor, c.patch);
        comparators.push(semver::Comparator { op, major, minor, patch, pre });
    }
    Some(semver::VersionReq { comparators })
}

/// Relies on semver's `VersionReq::parse`: the comparators of the parsed
/// requirement, in order, converted field by field.
#[verifier::external_body]
fn parse_req(s: &str) -> (r: Option<Vec<Comparator>>)
    ensures
        match r {
            Some(cs) => parsed_req(s@) == Some(comp_views(cs@)),
            None => parsed_req(s@) is None,
        },
{
    let req = semver::VersionReq::parse(s).ok()?;
    let mut out = Vec::new();
    for c in req.comparators.iter() {
        let op = op_from_semver(c.op)?;
        let pre = c.pre.as_str().to_owned();
        out.push(Comparator { op, major: c.major, minor: c.minor, patch: c.patch, pre });
    }
    Some(out)
}

/// Relies on semver's `Display` for `VersionReq`: the requirement printed
/// from the comparators; fails only when a pre-release identifier does not
/// parse back into the version library's form.
#[verifier::external_body]
fn format_req(cs: &Vec<Comparator>) -> (r: Option<String>)
    ensures
        match r {
            Some(t) => formatted_req(comp_views(cs@)) == Some(t@),
            None => formatted_req(comp_views(cs@)) is None,
        },
{
    Some(comps_to_semver(cs)?.to_string())
}

/// Relies on semver's `VersionReq::matches`: whether the version satisfies
/// every comparator; fails only when a pre-release identifier does not
/// parse back into the version library's form.
#[verifier::external_body]
fn matches_req(cs: &Vec<Comparator>, v: &Version) -> (r: Option<bool>)
    ensures
        r == req_matches(comp_views(cs@), v@),
{
    let req = comps_to_semver(cs)?;
    let mut version = semver::Version::new(v.major, v.minor, v.patch);
    version.pre = semver::Prerelease::new(v.pre.as_str()).ok()?;
    Some(req.matches(&version))
}

/// A comparator rewritten to reflect the new version: each number present
/// in the original stays present and takes the new version's value; the
/// operator is kept; outside the wildcard form, the pre-release identifier
/// follows the new version.
pub open spec fn spec_set_comparator(c: CompV, v: VersionV) -> CompV {
    CompV {
        op: c.op,
        major: v.major,
        minor: if c.minor is Some {
            Some(v.minor)
        } else {
            None
        },
        patch: if c.patch is Some {
            Some(v.patch)
        } else {
            None
        },
        pre: if c.op is Wildcard {
            c.pre
        } else {
            v.pre
        },
    }
}

/// Rewrite one comparator to reflect the new version.
pub fn set_comparator(c: &Comparator, v: &Version) -> (r: Comparator)
    ensures
        r@ == spec_set_comparator(c@, v@),
{
    Comparator {
        op: c.op,
        major: v.major,
        minor: match c.minor {
            Some(_) => Some(v.minor),
            None => None,
        },
        patch: match c.patch {
            Some(_) => Some(v.patch),
            None => None,
        },
        pre: if matches!(c.op, ReqOp::Wildcard) {
            c.pre.clone()
        } else {
            v.pre.clone()
        },
    }
}

/// The rewritten requirement for `req` under version `v`: `None` when the
/// requirement does not parse, has no comparators, a pre-release identifier
/// fails to print, or the rewrite prints back to the original text. The
/// leading caret the printer adds is stripped when the original had none.
pub open spec fn spec_upgrade_requirement(req: Seq<char>, v: VersionV) -> Option<Seq<char>> {
    match parsed_req(req) {
        None => None,
        Some(cs) => {
            if cs.len() == 0 {
                None
            } else {
                let ns = Seq::new(cs.len(), |i: int| spec_set_comparator(cs[i], v));
                match formatted_req(ns) {
                    None => None,
                    Some(t) => {
                        let t2 = if t.len() > 0 && t[0] == '^' && !(req.len() > 0 && req[0]
                            == '^') {
                            t.skip(1)
                        } else {
                            t
                        };
                        if t2 == req {
                            None
                        } else {
                            Some(t2)
                        }
                    },
                }
            }
        },
    }
}

/// Rewrite `req` so it reflects version `v`, keeping the operator style;
/// `None` when nothing can or need be rewritten.
pub fn upgrade_requirement(req: &str, v: &Version) -> (r: Option<String>)
    ensures
        match r {
            Some(t) => spec_upgrade_requirement(req@, v@) == Some(t@),
            None => spec_upgrade_requirement(req@, v@) is None,
        },
{
    let comps = match parse_req(req) {
        Some(cs) => cs,
        None => {
            return None;
        },
    };
    if comps.len() == 0 {
        return None;
    }
    let mut upgraded: Vec<Comparator> = Vec::new();
    let mut i: usize = 0;
    while i < comps.len()
        invariant
            i <= comps@.len(),
            upgraded@.len() == i,
            forall|k: int| 0 <= k < i ==> #[trigger] upgraded@[k]@ == spec_set_comparator(
                comps@[k]@,
                v@,
            ),
        decreases comps@.len() - i,
    {
        upgraded.push(set_comparator(&comps[i], v));
        i = i + 1;
    }
    proof {
        assert(comp_views(upgraded@) =~= Seq::new(
            comp_views(comps@).len(),
            |k: int| spec_set_comparator(comp_views(comps@)[k], v@),
        ));
    }
    let formatted = match format_req(&upgraded) {
        Some(t) => t,
        None => {
            return None;
        },
    };
    let fc = str_chars(formatted.as_str());
    let rc = str_chars(req);
    let caret = '^';
    let new_chars: Vec<char> = if fc.len() > 0 && fc[0] == caret && !(rc.len() > 0 && rc[0]
        == caret) {
        skip_first(&fc)
    } else {
        fc
    };
    if eq_chars(&new_chars, &rc) {
        return None;
    }
    Some(chars_string(&new_chars))
}

/// All characters after the first.
fn skip_first(v: &Vec<char>) -> (r: Vec<char>)
    requires
        v@.len() > 0,
    ensures
        r@ == v@.skip(1),
{
    let mut out: Vec<char> = Vec::new();
    let mut i: usize = 1;
    while i < v.len()
        invariant
            1 <= i <= v@.len(),
            out@ =~= v@.subrange(1, i as int),
        decreases v@.len() - i,
    {
        out.push(v[i]);
        proof {
            assert(v@.subrange(1, i + 1) =~= v@.subrange(1, i as int).push(v@[i as int]));
        }
        i = i + 1;
    }
    proof {
        assert(v@.subrange(1, v@.len() as int) =~= v@.skip(1));
    }
    out
}

/// Whether two character vectors hold the same characters.
fn eq_chars(a: &Vec<char>, b: &Vec<char>) -> (r: bool)
    ensures
        r == (a@ == b@),
{
    if a.len() != b.len() {
        proof {
            assert(a@ != b@);
        }
        return false;
    }
    let mut i: usize = 0;
    while i < a.len()
        invariant
            a@.len() == b@.len(),
            i <= a@.len(),
            forall|k: int| 0 <= k < i ==> a@[k] == b@[k],
        decreases a@.len() - i,
    {
        if a[i] != b[i] {
            proof {
                assert(a@ != b@) by {
                    assert(a@[i as int] != b@[i as int]);
                }
            }
            return false;
        }
        i = i + 1;
    }
    proof {
        assert(a@ =~= b@);
    }
    true
}

/// The policy on rewriting a dependent's requirement.
#[derive(Clone, Copy, PartialEq, Eq, Structural, Debug)]
pub enum DependentVersion {
    /// Rewrite only when the new version no longer satisfies it.
    Fix,
    /// Always rewrite to reflect the new version.
    Upgrade,
}

/// The rewrite decided for one dependency entry: `None` leaves the entry
/// untouched. An unparseable requirement is skipped; under `Fix` a
/// requirement the version still satisfies is kept as it is.
pub open spec fn spec_upgrade_decision(
    existing: Seq<char>,
    v: VersionV,
    policy: DependentVersion,
) -> Option<Seq<char>> {
    match parsed_req(existing) {
        None => None,
        Some(cs) => match policy {
            DependentVersion::Fix => {
                if req_matches(cs, v) == Some(true) {
                    None
                } else {
                    spec_upgrade_requirement(existing, v)
                }
            },
            DependentVersion::Upgrade => spec_upgrade_requirement(existing, v),
        },
    }
}

/// Decide the rewrite for one dependency entry under the given policy.
pub fn upgrade_req_decision(existing: &str, v: &Version, policy: DependentVersion) -> (r: Option<
    String,
>)
    ensures
        match r {
            Some(t) => spec_upgrade_decision(existing@, v@, policy) == Some(t@),
            None => spec_upgrade_decision(existing@, v@, policy) is None,
        },
{
    let comps = match parse_req(existing) {
        Some(cs) => cs,
        None => {
            return None;
        },
    };
    match policy {
        DependentVersion::Fix => {
            match matches_req(&comps, v) {
                Some(true) => None,
                _ => upgrade_requirement(existing, v),
            }
        },
        DependentVersion::Upgrade => upgrade_requirement(existing, v),
    }
}

/// With policy `Fix`, a requirement that the version already satisfies is
/// left untouched, so a second run after a successful fix decides no new
/// change.
pub proof fn lemma_fix_stops_once_matching(existing: Seq<char>, v: VersionV)
    requires
        parsed_req(existing) is Some,
        req_matches(parsed_req(existing).unwrap(), v) == Some(true),
    ensures
        spec_upgrade_decision(existing, v, DependentVersion::Fix) is None,
{
}

} // verus!
