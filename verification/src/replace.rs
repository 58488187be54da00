//! The file replacement engine: regex-driven search and replace over file
//! contents, with occurrence-count validation and templated replacement
//! text.
//!
//! Rules are grouped by target file in sorted order; within one file they
//! apply sequentially, each seeing the previous rule's output, and a bound
//! violation abandons the whole file with nothing written. The regex
//! library's matching stands behind trusted wrappers; every decision on the
//! counts and the rule flow is verified.

use vstd::prelude::*;

use crate::owners::{spec_has, spec_strictly_sorted};
use crate::release::views;
use crate::template::{spec_render, Template};

verus! {

/// One replacement rule.
#[derive(Debug)]
pub struct Replace {
    pub file: String,
    pub search: String,
    pub replace: String,
    pub min: Option<usize>,
    pub max: Option<usize>,
    pub exactly: Option<usize>,
    pub prerelease: bool,
}

impl Replace {
    /// A field-by-field copy.
    pub fn duplicate(&self) -> (r: Replace)
        ensures
            r == *self,
    {
        Replace {
            file: self.file.clone(),
            search: self.search.clone(),
            replace: self.replace.clone(),
            min: self.min,
            max: self.max,
            exactly: self.exactly,
            prerelease: self.prerelease,
        }
    }
}

/// The compiled form of a search pattern.
#[verifier::external_type_specification]
#[verifier::external_body]
pub struct ExRegex(regex::Regex);

/// Whether the pattern compiles as a multi-line regular expression.
pub uninterp spec fn regex_valid(pat: Seq<char>) -> bool;

/// The pattern a compiled regex was built from.
pub uninterp spec fn regex_source(r: regex::Regex) -> Seq<char>;

/// How many non-overlapping matches the pattern finds in the text.
pub uninterp spec fn match_count(pat: Seq<char>, text: Seq<char>) -> usize;

/// The text with every match of the pattern replaced by the replacement
/// string, taken literally.
pub uninterp spec fn replaced_text(pat: Seq<char>, text: Seq<char>, rep: Seq<char>) -> Seq<char>;

/// Relies on regex's `RegexBuilder` with multi-line mode: the compiled
/// pattern, or nothing when the pattern is not a valid expression.
#[verifier::external_body]
fn build_regex(pat: &str) -> (r: Option<regex::Regex>)
    ensures
        r is Some <==> regex_valid(pat@),
        r is Some ==> regex_source(r.unwrap()) == pat@,
{
    regex::RegexBuilder::new(pat).multi_line(true).build().ok()
}

/// Relies on regex's `find_iter`: the number of non-overlapping matches.
#[verifier::external_body]
fn count_matches(r: &regex::Regex, text: &str) -> (n: usize)
    ensures
        n == match_count(regex_source(*r), text@),
{
    r.find_iter(text).count()
}

/// Relies on regex's `replace_all` with `NoExpand`: the text with every
/// match replaced by the replacement string taken literally, never as a
/// capture-group reference.
#[verifier::external_body]
fn regex_replace_all(r: &regex::Regex, text: &str, rep: &str) -> (out: String)
    ensures
        out@ == replaced_text(regex_source(*r), text@, rep@),
{
    r.replace_all(text, regex::NoExpand(rep)).into_owned()
}

/// Why a file's replacements were abandoned.
#[derive(Debug)]
pub enum ReplaceError {
    /// The target file does not exist.
    FileMissing { file: String },
    /// The search pattern does not compile.
    InvalidPattern { pattern: String, file: String },
    /// Fewer matches than the configured minimum.
    TooFewMatches { pattern: String, file: String, min: usize, actual: usize },
    /// More matches than the configured maximum.
    TooManyMatches { pattern: String, file: String, max: usize, actual: usize },
}

/// The mathematical value of a replacement failure.
pub ghost enum ReplaceErrV {
    FileMissing { file: Seq<char> },
    InvalidPattern { pattern: Seq<char>, file: Seq<char> },
    TooFewMatches { pattern: Seq<char>, file: Seq<char>, min: usize, actual: usize },
    TooManyMatches { pattern: Seq<char>, file: Seq<char>, max: usize, actual: usize },
}

impl ReplaceError {
    /// The failure's mathematical value.
    pub open spec fn view(&self) -> ReplaceErrV {
        match self {
            ReplaceError::FileMissing { file } => (ReplaceErrV::FileMissing { file: file@ }),
            ReplaceError::InvalidPattern { pattern, file } => (ReplaceErrV::InvalidPattern {
                pattern: pattern@,
                file: file@,
            }),
            ReplaceError::TooFewMatches { pattern, file, min, actual } => (
            ReplaceErrV::TooFewMatches {
                pattern: pattern@,
                file: file@,
                min: *min,
                actual: *actual,
            }),
            ReplaceError::TooManyMatches { pattern, file, max, actual } => (
            ReplaceErrV::TooManyMatches {
                pattern: pattern@,
                file: file@,
                max: *max,
                actual: *actual,
            }),
        }
    }
}

/// The lower occurrence bound of a rule: `min`, else `exactly`, else one.
pub open spec fn spec_min_bound(r: Replace) -> usize {
    match r.min {
        Some(m) => m,
        None => match r.exactly {
            Some(e) => e,
            None => 1,
        },
    }
}

/// The upper occurrence bound of a rule: `max`, else `exactly`, else
/// unbounded.
pub open spec fn spec_max_bound(r: Replace) -> usize {
    match r.max {
        Some(m) => m,
        None => match r.exactly {
            Some(e) => e,
            None => usize::MAX,
        },
    }
}

/// The result of applying the rules to `cur`, in order, under the
/// pre-release policy: the transformed text, or the first failure.
pub open spec fn spec_apply_rules(
    cur: Seq<char>,
    rules: Seq<Replace>,
    t: Template,
    prerelease: bool,
    file: Seq<char>,
) -> Result<Seq<char>, ReplaceErrV>
    decreases rules.len(),
{
    if rules.len() == 0 {
        Ok(cur)
    } else {
        let rule = rules[0];
        if prerelease && !rule.prerelease {
            spec_apply_rules(cur, rules.skip(1), t, prerelease, file)
        } else if !regex_valid(rule.search@) {
            Err(ReplaceErrV::InvalidPattern { pattern: rule.search@, file })
        } else {
            let actual = match_count(rule.search@, cur);
            if actual < spec_min_bound(rule) {
                Err(
                    ReplaceErrV::TooFewMatches {
                        pattern: rule.search@,
                        file,
                        min: spec_min_bound(rule),
                        actual,
                    },
                )
            } else if spec_max_bound(rule) < actual {
                Err(
                    ReplaceErrV::TooManyMatches {
                        pattern: rule.search@,
                        file,
                        max: spec_max_bound(rule),
                        actual,
                    },
                )
            } else {
                spec_apply_rules(
                    replaced_text(rule.search@, cur, spec_render(t, rule.replace@)),
                    rules.skip(1),
                    t,
                    prerelease,
                    file,
                )
            }
        }
    }
}

/// Apply one file's rules to its content, in order. A rule not eligible
/// for pre-releases is skipped when `prerelease` holds; a bound violation
/// or invalid pattern abandons the file.
pub fn apply_rules(
    file: &String,
    content: &String,
    rules: &Vec<Replace>,
    t: &Template,
    prerelease: bool,
) -> (r: Result<String, ReplaceError>)
    ensures
        match r {
            Ok(out) => spec_apply_rules(content@, rules@, *t, prerelease, file@) == Ok::<
                Seq<char>,
                ReplaceErrV,
            >(out@),
            Err(e) => spec_apply_rules(content@, rules@, *t, prerelease, file@) == Err::<
                Seq<char>,
                ReplaceErrV,
            >(e@),
        },
{
    let mut cur: String = content.clone();
    let mut i: usize = 0;
    proof {
        assert(rules@.skip(0) =~= rules@);
    }
    while i < rules.len()
        invariant
            i <= rules@.len(),
            spec_apply_rules(content@, rules@, *t, prerelease, file@) == spec_apply_rules(
                cur@,
                rules@.skip(i as int),
                *t,
                prerelease,
                file@,
            ),
        decreases rules@.len() - i,
    {
        let ghost rest = rules@.skip(i as int);
        proof {
            assert(rest[0] == rules@[i as int]);
            assert(rest.skip(1) =~= rules@.skip(i + 1));
        }
        let rule = &rules[i];
        if !(prerelease && !rule.prerelease) {
            let re = match build_regex(rule.search.as_str()) {
                Some(re) => re,
                None => {
                    return Err(
                        ReplaceError::InvalidPattern {
                            pattern: rule.search.clone(),
                            file: file.clone(),
                        },
                    );
                },
            };
            let min = match rule.min {
                Some(m) => m,
                None => match rule.exactly {
                    Some(e) => e,
                    None => 1,
                },
            };
            let max = match rule.max {
                Some(m) => m,
                None => match rule.exactly {
                    Some(e) => e,
                    None => usize::MAX,
                },
            };
            let actual = count_matches(&re, cur.as_str());
            if actual < min {
                return Err(
                    ReplaceError::TooFewMatches {
                        pattern: rule.search.clone(),
                        file: file.clone(),
                        min,
                        actual,
                    },
                );
            }
            if max < actual {
                return Err(
                    ReplaceError::TooManyMatches {
                        pattern: rule.search.clone(),
                        file: file.clone(),
                        max,
                        actual,
                    },
                );
            }
            let rendered = t.render(rule.replace.as_str());
            cur = regex_replace_all(&re, cur.as_str(), rendered.as_str());
        }
        i = i + 1;
    }
    proof {
        assert(rules@.skip(rules@.len() as int) =~= Seq::<Replace>::empty());
    }
    Ok(cur)
}

/// One file prepared for replacement: its rules, and its content when the
/// file exists.
#[derive(Debug)]
pub struct FileInput {
    pub file: String,
    pub content: Option<String>,
    pub rules: Vec<Replace>,
}

/// One file's planned outcome: the content before and after its rules.
#[derive(Debug)]
pub struct FileOutcome {
    pub file: String,
    pub original: String,
    pub replaced: String,
    pub changed: bool,
}

/// The mathematical value of one outcome.
pub ghost struct OutcomeV {
    pub file: Seq<char>,
    pub original: Seq<char>,
    pub replaced: Seq<char>,
    pub changed: bool,
}

impl FileOutcome {
    /// The outcome's mathematical value.
    pub open spec fn view(&self) -> OutcomeV {
        OutcomeV {
            file: self.file@,
            original: self.original@,
            replaced: self.replaced@,
            changed: self.changed,
        }
    }
}

/// What one file's processing yields: a missing file, a rule failure, or
/// the planned outcome. Failures are per file: one file's failure leaves
/// every other file's processing untouched.
pub open spec fn spec_file_outcome(g: FileInput, t: Template, prerelease: bool) -> Result<
    OutcomeV,
    ReplaceErrV,
> {
    match g.content {
        None => Err(ReplaceErrV::FileMissing { file: g.file@ }),
        Some(content) => match spec_apply_rules(content@, g.rules@, t, prerelease, g.file@) {
            Err(e) => Err(e),
            Ok(out) => Ok(
                OutcomeV {
                    file: g.file@,
                    original: content@,
                    replaced: out,
                    changed: out != content@,
                },
            ),
        },
    }
}

/// The value of one file's report.
pub open spec fn report_view(r: Result<FileOutcome, ReplaceError>) -> Result<
    OutcomeV,
    ReplaceErrV,
> {
    match r {
        Ok(out) => Ok(out@),
        Err(e) => Err(e@),
    }
}

/// Apply every file's rules to its content: one report per file, in order.
/// A missing file or a rule failure abandons that file alone, with nothing
/// partially transformed and no other file affected; the caller aggregates
/// whether any file failed.
pub fn do_file_replacements(groups: &Vec<FileInput>, t: &Template, prerelease: bool) -> (r: Vec<
    Result<FileOutcome, ReplaceError>,
>)
    ensures
        r@.len() == groups@.len(),
        forall|i: int|
            0 <= i < groups@.len() ==> report_view(#[trigger] r@[i]) == spec_file_outcome(
                groups@[i],
                *t,
                prerelease,
            ),
{
    let mut reports: Vec<Result<FileOutcome, ReplaceError>> = Vec::new();
    let mut i: usize = 0;
    while i < groups.len()
        invariant
            i <= groups@.len(),
            reports@.len() == i,
            forall|k: int|
                0 <= k < i ==> report_view(#[trigger] reports@[k]) == spec_file_outcome(
                    groups@[k],
                    *t,
                    prerelease,
                ),
        decreases groups@.len() - i,
    {
        let g = &groups[i];
        let report: Result<FileOutcome, ReplaceError> = match &g.content {
            None => Err(ReplaceError::FileMissing { file: g.file.clone() }),
            Some(content) => {
                match apply_rules(&g.file, content, &g.rules, t, prerelease) {
                    Err(e) => Err(e),
                    Ok(replaced) => {
                        let changed = !(replaced == *content);
                        Ok(
                            FileOutcome {
                                file: g.file.clone(),
                                original: content.clone(),
                                replaced,
                                changed,
                            },
                        )
                    },
                }
            },
        };
        reports.push(report);
        i = i + 1;
    }
    reports
}

/// The rules whose target is `file`, in their given order.
pub open spec fn spec_rules_for(rules: Seq<Replace>, file: Seq<char>) -> Seq<Replace>
    decreases rules.len(),
{
    if rules.len() == 0 {
        Seq::empty()
    } else {
        spec_rules_for(rules.drop_last(), file) + if rules.last().file@ == file {
            seq![rules.last()]
        } else {
            Seq::empty()
        }
    }
}

/// The rules whose target is `file`, in their given order.
pub fn rules_for(rules: &Vec<Replace>, file: &String) -> (r: Vec<Replace>)
    ensures
        r@ == spec_rules_for(rules@, file@),
{
    let mut out: Vec<Replace> = Vec::new();
    let mut i: usize = 0;
    while i < rules.len()
        invariant
            i <= rules@.len(),
            out@ =~= spec_rules_for(rules@.take(i as int), file@),
        decreases rules@.len() - i,
    {
        proof {
            assert(rules@.take(i + 1).drop_last() =~= rules@.take(i as int));
            assert(rules@.take(i + 1).last() == rules@[i as int]);
        }
        if string_eq(&rules[i].file, file) {
            out.push(rules[i].duplicate());
        }
        i = i + 1;
    }
    proof {
        assert(rules@.take(rules@.len() as int) =~= rules@);
    }
    out
}

/// Whether two strings hold the same characters.
fn string_eq(a: &String, b: &String) -> (r: bool)
    ensures
        r == (a@ == b@),
{
    *a == *b
}

/// Whether some rule targets the file named `y`.
pub open spec fn rule_file_named(rules: Seq<Replace>, y: Seq<char>) -> bool {
    exists|k: int| 0 <= k < rules.len() && (#[trigger] rules[k]).file@ == y
}

/// Whether some group is for the file named `y`.
pub open spec fn group_named(r: Seq<(String, Vec<Replace>)>, y: Seq<char>) -> bool {
    exists|k: int| 0 <= k < r.len() && (#[trigger] r[k]).0@ == y
}

/// Group the rules by target file: the distinct file names in sorted
/// order, each with exactly its rules in their given order. Sorting makes
/// multi-rule runs reproducible independent of input ordering.
pub fn group_by_file(rules: &Vec<Replace>) -> (r: Vec<(String, Vec<Replace>)>)
    ensures
        spec_strictly_sorted(Seq::new(r@.len(), |i: int| r@[i].0@)),
        forall|k: int| 0 <= k < r@.len() ==> (#[trigger] r@[k]).1@ == spec_rules_for(
            rules@,
            r@[k].0@,
        ),
        forall|y: Seq<char>| #[trigger] group_named(r@, y) <==> rule_file_named(rules@, y),
{
    let mut files: Vec<String> = Vec::new();
    let mut i: usize = 0;
    while i < rules.len()
        invariant
            i <= rules@.len(),
            spec_strictly_sorted(views(files@)),
            forall|y: Seq<char>|
                #[trigger] spec_has(files@, y) <==> rule_file_named(rules@.take(i as int), y),
        decreases rules@.len() - i,
    {
        let ghost pre_files = files@;
        crate::owners::insert_sorted(&mut files, rules[i].file.clone());
        proof {
            assert forall|y: Seq<char>| #[trigger]
                spec_has(files@, y) implies rule_file_named(rules@.take(i + 1), y) by {
                if spec_has(pre_files, y) {
                    assert(rule_file_named(rules@.take(i as int), y));
                    let k = choose|k: int|
                        0 <= k < rules@.take(i as int).len() && (#[trigger] rules@.take(
                            i as int,
                        )[k]).file@ == y;
                    assert((rules@.take(i + 1)[k]).file@ == y);
                } else {
                    assert(y == rules@[i as int].file@);
                    assert((rules@.take(i + 1)[i as int]).file@ == y);
                }
            }
            assert forall|y: Seq<char>|
                rule_file_named(rules@.take(i + 1), y) implies #[trigger] spec_has(
                files@,
                y,
            ) by {
                let k = choose|k: int|
                    0 <= k < rules@.take(i + 1).len() && (#[trigger] rules@.take(i + 1)[k]).file@
                        == y;
                if k < i {
                    assert((rules@.take(i as int)[k]).file@ == y);
                    assert(rule_file_named(rules@.take(i as int), y));
                    assert(spec_has(pre_files, y));
                }
            }
        }
        i = i + 1;
    }
    proof {
        assert(rules@.take(rules@.len() as int) =~= rules@);
    }
    let mut out: Vec<(String, Vec<Replace>)> = Vec::new();
    let mut j: usize = 0;
    while j < files.len()
        invariant
            j <= files@.len(),
            out@.len() == j,
            spec_strictly_sorted(views(files@)),
            forall|y: Seq<char>| #[trigger] spec_has(files@, y) <==> rule_file_named(rules@, y),
            forall|k: int| 0 <= k < j ==> (#[trigger] out@[k]).0@ == views(files@)[k],
            forall|k: int| 0 <= k < j ==> (#[trigger] out@[k]).1@ == spec_rules_for(
                rules@,
                views(files@)[k],
            ),
        decreases files@.len() - j,
    {
        let f = files[j].clone();
        let group = rules_for(rules, &f);
        out.push((f, group));
        j = j + 1;
    }
    proof {
        let names = Seq::new(out@.len(), |i: int| out@[i].0@);
        assert(names =~= views(files@));
        assert forall|y: Seq<char>| #[trigger] group_named(out@, y) implies rule_file_named(
            rules@,
            y,
        ) by {
            let k = choose|k: int| 0 <= k < out@.len() && (#[trigger] out@[k]).0@ == y;
            assert(views(files@)[k] == y);
            assert(spec_has(files@, y)) by {
                assert(files@[k]@ == y);
            }
        }
        assert forall|y: Seq<char>| rule_file_named(rules@, y) implies #[trigger] group_named(
            out@,
            y,
        ) by {
            assert(spec_has(files@, y));
            let k = choose|k: int| 0 <= k < files@.len() && files@[k]@ == y;
            assert(out@[k].0@ == views(files@)[k]);
            assert(out@[k].0@ == y);
        }
    }
    out
}

} // verus!
