//! The manifest mutator: semantic edits on a structured, format-preserving
//! manifest document.
//!
//! The document representation is the TOML library's; reads and writes on
//! it stand behind trusted wrappers whose contracts speak of the value a
//! path holds in the document a text parses to. Which entries are
//! examined, which are rewritten, and with what requirement, is decided in
//! verified code: the dependency sweep records every entry it must
//! examine and rewrites exactly those whose recorded canonicalization
//! answer names the released root and for which the policy decides a
//! rewrite.

use vstd::prelude::*;

use crate::release::views;
use crate::requirement::{upgrade_req_decision, spec_upgrade_decision, DependentVersion, Version};

verus! {

/// The TOML library's mutable, format-preserving document.
#[verifier::external_type_specification]
#[verifier::external_body]
pub struct ExDocumentMut(toml_edit::DocumentMut);

/// Whether the text is a well-formed manifest document.
pub uninterp spec fn toml_parses(s: Seq<char>) -> bool;

/// The text a document prints back to.
pub uninterp spec fn doc_text(d: toml_edit::DocumentMut) -> Seq<char>;

/// The string value at a key path in the document the text parses to:
/// `None` when the path is missing or not a string.
pub uninterp spec fn text_node_str(t: Seq<char>, path: Seq<Seq<char>>) -> Option<Seq<char>>;

/// The keys of the table-like item at a key path in the document the text
/// parses to, in document order; empty when the path holds no table.
pub uninterp spec fn text_node_keys(t: Seq<char>, path: Seq<Seq<char>>) -> Seq<Seq<char>>;

/// Whether a value can be assigned at the path: every item already present
/// along the way is table-like, so the assignment operator neither panics
/// nor overwrites a non-table value.
pub uninterp spec fn text_path_settable(t: Seq<char>, path: Seq<Seq<char>>) -> bool;

/// The text after assigning `val` at `path`: the one document the TOML
/// library produces for these arguments.
pub uninterp spec fn text_set(t: Seq<char>, path: Seq<Seq<char>>, val: Seq<char>) -> Seq<char>;

/// Relies on toml_edit's `DocumentMut` parsing: the parsed document prints
/// back to exactly the input text (the library preserves formatting,
/// comments and order), and an item's keys are reachable only through its
/// parent table, so a path with keys below it is itself listed by its
/// parent.
#[verifier::external_body]
fn parse_doc(s: &str) -> (r: Option<toml_edit::DocumentMut>)
    ensures
        r is Some <==> toml_parses(s@),
        r is Some ==> doc_text(r.unwrap()) == s@,
        r is Some ==> forall|p: Seq<Seq<char>>, k: Seq<char>|
            #[trigger] text_node_keys(s@, p.push(k)).len() > 0 ==> text_node_keys(s@, p).contains(
                k,
            ),
{
    s.parse::<toml_edit::DocumentMut>().ok()
}

/// Relies on toml_edit's `Display` for `DocumentMut`: the document's text.
#[verifier::external_body]
fn doc_to_string(d: &toml_edit::DocumentMut) -> (r: String)
    ensures
        r@ == doc_text(*d),
{
    d.to_string()
}

/// Relies on toml_edit's table iteration: the root table's keys in order.
#[verifier::external_body]
fn doc_keys0(d: &toml_edit::DocumentMut) -> (r: Vec<String>)
    ensures
        views(r@) == text_node_keys(doc_text(*d), Seq::empty()),
{
    d.as_table().iter().map(|(k, _)| k.to_owned()).collect()
}

/// Relies on toml_edit's item lookup and table iteration: the keys of the
/// table-like item at the given key, in order; empty when there is none.
#[verifier::external_body]
fn doc_keys1(d: &toml_edit::DocumentMut, k1: &String) -> (r: Vec<String>)
    ensures
        views(r@) == text_node_keys(doc_text(*d), seq![k1@]),
{
    match d.get(k1.as_str()).and_then(|i| i.as_table_like()) {
        Some(t) => t.iter().map(|(k, _)| k.to_owned()).collect(),
        None => Vec::new(),
    }
}

/// Relies on toml_edit's item lookup and table iteration, two levels deep.
#[verifier::external_body]
fn doc_keys2(d: &toml_edit::DocumentMut, k1: &String, k2: &String) -> (r: Vec<String>)
    ensures
        views(r@) == text_node_keys(doc_text(*d), seq![k1@, k2@]),
{
    match d.get(k1.as_str()).and_then(|i| i.get(k2.as_str())).and_then(|i| i.as_table_like()) {
        Some(t) => t.iter().map(|(k, _)| k.to_owned()).collect(),
        None => Vec::new(),
    }
}

/// Relies on toml_edit's item lookup and table iteration, three levels deep.
#[verifier::external_body]
fn doc_keys3(d: &toml_edit::DocumentMut, k1: &String, k2: &String, k3: &String) -> (r: Vec<
    String,
>)
    ensures
        views(r@) == text_node_keys(doc_text(*d), seq![k1@, k2@, k3@]),
{
    match d
        .get(k1.as_str())
        .and_then(|i| i.get(k2.as_str()))
        .and_then(|i| i.get(k3.as_str()))
        .and_then(|i| i.as_table_like())
    {
        Some(t) => t.iter().map(|(k, _)| k.to_owned()).collect(),
        None => Vec::new(),
    }
}

/// Relies on toml_edit's item lookup: the string at a three-key path.
#[verifier::external_body]
fn doc_get_str3(d: &toml_edit::DocumentMut, k1: &String, k2: &String, k3: &String) -> (r: Option<
    String,
>)
    ensures
        match r {
            Some(s) => text_node_str(doc_text(*d), seq![k1@, k2@, k3@]) == Some(s@),
            None => text_node_str(doc_text(*d), seq![k1@, k2@, k3@]) is None,
        },
{
    d.get(k1.as_str())
        .and_then(|i| i.get(k2.as_str()))
        .and_then(|i| i.get(k3.as_str()))
        .and_then(|i| i.as_str())
        .map(|s| s.to_owned())
}

/// Relies on toml_edit's item lookup: the string at a four-key path.
#[verifier::external_body]
fn doc_get_str4(
    d: &toml_edit::DocumentMut,
    k1: &String,
    k2: &String,
    k3: &String,
    k4: &String,
) -> (r: Option<String>)
    ensures
        match r {
            Some(s) => text_node_str(doc_text(*d), seq![k1@, k2@, k3@, k4@]) == Some(s@),
            None => text_node_str(doc_text(*d), seq![k1@, k2@, k3@, k4@]) is None,
        },
{
    d.get(k1.as_str())
        .and_then(|i| i.get(k2.as_str()))
        .and_then(|i| i.get(k3.as_str()))
        .and_then(|i| i.get(k4.as_str()))
        .and_then(|i| i.as_str())
        .map(|s| s.to_owned())
}

/// Relies on toml_edit's item lookup: the string at a five-key path.
#[verifier::external_body]
fn doc_get_str5(
    d: &toml_edit::DocumentMut,
    k1: &String,
    k2: &String,
    k3: &String,
    k4: &String,
    k5: &String,
) -> (r: Option<String>)
    ensures
        match r {
            Some(s) => text_node_str(doc_text(*d), seq![k1@, k2@, k3@, k4@, k5@]) == Some(s@),
            None => text_node_str(doc_text(*d), seq![k1@, k2@, k3@, k4@, k5@]) is None,
        },
{
    d.get(k1.as_str())
        .and_then(|i| i.get(k2.as_str()))
        .and_then(|i| i.get(k3.as_str()))
        .and_then(|i| i.get(k4.as_str()))
        .and_then(|i| i.get(k5.as_str()))
        .and_then(|i| i.as_str())
        .map(|s| s.to_owned())
}

/// toml_edit's document item.
#[verifier::external_type_specification]
#[verifier::external_body]
pub struct ExItem(toml_edit::Item);

/// Relies on toml_edit's `is_table_like`: whether an item, if present,
/// could be indexed further without the assignment operator panicking.
#[verifier::external_body]
fn tablish(i: Option<&toml_edit::Item>) -> (r: bool)
{
    i.map_or(true, |i| i.is_table_like())
}

/// Relies on toml_edit's index assignment. The items already present along
/// the way are tested first, mirroring exactly the operator's panic
/// condition; on success the value at the path is replaced (created when
/// absent), on failure the document is untouched.
#[verifier::external_body]
fn doc_set_str2(d: &mut toml_edit::DocumentMut, k1: &String, k2: &String, val: &str) -> (r: bool)
    ensures
        r == text_path_settable(doc_text(*old(d)), seq![k1@, k2@]),
        text_node_str(doc_text(*old(d)), seq![k1@, k2@]) is Some ==> r,
        r ==> doc_text(*final(d)) == text_set(doc_text(*old(d)), seq![k1@, k2@], val@),
        r ==> doc_set_post(doc_text(*old(d)), doc_text(*final(d)), seq![k1@, k2@], val@),
        !r ==> doc_text(*final(d)) == doc_text(*old(d)),
{
    if !tablish(d.get(k1.as_str())) {
        return false;
    }
    d[k1.as_str()][k2.as_str()] = toml_edit::value(val);
    true
}

/// Relies on toml_edit's index assignment, three levels deep.
#[verifier::external_body]
fn doc_set_str3(
    d: &mut toml_edit::DocumentMut,
    k1: &String,
    k2: &String,
    k3: &String,
    val: &str,
) -> (r: bool)
    ensures
        r == text_path_settable(doc_text(*old(d)), seq![k1@, k2@, k3@]),
        text_node_str(doc_text(*old(d)), seq![k1@, k2@, k3@]) is Some ==> r,
        r ==> doc_set_post(doc_text(*old(d)), doc_text(*final(d)), seq![k1@, k2@, k3@], val@),
        !r ==> doc_text(*final(d)) == doc_text(*old(d)),
{
    let i1 = d.get(k1.as_str());
    let i2 = i1.and_then(|i| i.get(k2.as_str()));
    if !(tablish(i1) && tablish(i2)) {
        return false;
    }
    d[k1.as_str()][k2.as_str()][k3.as_str()] = toml_edit::value(val);
    true
}

/// Relies on toml_edit's index assignment, four levels deep.
#[verifier::external_body]
fn doc_set_str4(
    d: &mut toml_edit::DocumentMut,
    k1: &String,
    k2: &String,
    k3: &String,
    k4: &String,
    val: &str,
) -> (r: bool)
    ensures
        r == text_path_settable(doc_text(*old(d)), seq![k1@, k2@, k3@, k4@]),
        text_node_str(doc_text(*old(d)), seq![k1@, k2@, k3@, k4@]) is Some ==> r,
        r ==> doc_set_post(doc_text(*old(d)), doc_text(*final(d)), seq![k1@, k2@, k3@, k4@], val@),
        !r ==> doc_text(*final(d)) == doc_text(*old(d)),
{
    let i1 = d.get(k1.as_str());
    let i2 = i1.and_then(|i| i.get(k2.as_str()));
    let i3 = i2.and_then(|i| i.get(k3.as_str()));
    if !(tablish(i1) && tablish(i2) && tablish(i3)) {
        return false;
    }
    d[k1.as_str()][k2.as_str()][k3.as_str()][k4.as_str()] = toml_edit::value(val);
    true
}

/// Relies on toml_edit's index assignment, five levels deep.
#[verifier::external_body]
fn doc_set_str5(
    d: &mut toml_edit::DocumentMut,
    k1: &String,
    k2: &String,
    k3: &String,
    k4: &String,
    k5: &String,
    val: &str,
) -> (r: bool)
    ensures
        r == text_path_settable(doc_text(*old(d)), seq![k1@, k2@, k3@, k4@, k5@]),
        text_node_str(doc_text(*old(d)), seq![k1@, k2@, k3@, k4@, k5@]) is Some ==> r,
        r ==> doc_set_post(
            doc_text(*old(d)),
            doc_text(*final(d)),
            seq![k1@, k2@, k3@, k4@, k5@],
            val@,
        ),
        !r ==> doc_text(*final(d)) == doc_text(*old(d)),
{
    let i1 = d.get(k1.as_str());
    let i2 = i1.and_then(|i| i.get(k2.as_str()));
    let i3 = i2.and_then(|i| i.get(k3.as_str()));
    let i4 = i3.and_then(|i| i.get(k4.as_str()));
    if !(tablish(i1) && tablish(i2) && tablish(i3) && tablish(i4)) {
        return false;
    }
    d[k1.as_str()][k2.as_str()][k3.as_str()][k4.as_str()][k5.as_str()] = toml_edit::value(val);
    true
}

/// What a successful index assignment guarantees: the result is the one
/// text the TOML library computes, the path now holds the value and, when
/// the path already held a string (so no table is created or replaced
/// along the way), every other path's string value and every table's key
/// list are what they were.
pub open spec fn doc_set_post(
    old_t: Seq<char>,
    new_t: Seq<char>,
    path: Seq<Seq<char>>,
    val: Seq<char>,
) -> bool {
    &&& new_t == text_set(old_t, path, val)
    &&& text_node_str(new_t, path) == Some(val)
    &&& text_node_str(old_t, path) is Some ==> forall|p: Seq<Seq<char>>|
        p != path ==> #[trigger] text_node_str(new_t, p) == text_node_str(old_t, p)
    &&& text_node_str(old_t, path) is Some ==> forall|p: Seq<Seq<char>>|
        #[trigger] text_node_keys(new_t, p) == text_node_keys(old_t, p)
}

/// Relies on dunce's `canonicalize` over a joined path: the canonical form
/// of `base/rel` on this machine's filesystem, when it resolves. The result
/// depends on what is on disk, so nothing more is claimed of it.
#[verifier::external_body]
fn canon_join(base: &str, rel: &str) -> (r: Option<String>)
{
    let joined = std::path::Path::new(base).join(rel);
    dunce::canonicalize(joined).ok().and_then(|p| p.to_str().map(|s| s.to_owned()))
}

/// Set the package version field of a manifest text. `None` exactly when
/// the text does not parse or `package` is already a non-table value;
/// otherwise the returned text is the one the TOML library computes, it
/// holds the new version under `package.version`, and, when the field was
/// already present, every other path is untouched.
pub fn set_package_version(text: &str, version: &str) -> (r: Option<String>)
    ensures
        r is Some <==> toml_parses(text@) && text_path_settable(
            text@,
            seq!["package"@, "version"@],
        ),
        r is Some ==> {
            let new_t = r.unwrap()@;
            &&& new_t == text_set(text@, seq!["package"@, "version"@], version@)
            &&& text_node_str(new_t, seq!["package"@, "version"@]) == Some(version@)
            &&& text_node_str(text@, seq!["package"@, "version"@]) is Some ==> forall|
                p: Seq<Seq<char>>,
            |
                p != seq!["package"@, "version"@] ==> #[trigger] text_node_str(new_t, p)
                    == text_node_str(text@, p)
        },
{
    let mut doc = match parse_doc(text) {
        Some(d) => d,
        None => {
            return None;
        },
    };
    let k1 = package_lit();
    let k2 = version_lit();
    if !doc_set_str2(&mut doc, &k1, &k2, version) {
        return None;
    }
    Some(doc_to_string(&doc))
}

/// Set the workspace-wide version field of a manifest text. `None` exactly
/// when the text does not parse or an item along `workspace.package` is
/// already a non-table value; otherwise the returned text is the one the
/// TOML library computes, it holds the new version under
/// `workspace.package.version`, and, when the field was already present,
/// every other path is untouched.
pub fn set_workspace_version(text: &str, version: &str) -> (r: Option<String>)
    ensures
        r is Some <==> toml_parses(text@) && text_path_settable(
            text@,
            seq!["workspace"@, "package"@, "version"@],
        ),
        r is Some ==> {
            let new_t = r.unwrap()@;
            &&& new_t == text_set(text@, seq!["workspace"@, "package"@, "version"@], version@)
            &&& text_node_str(new_t, seq!["workspace"@, "package"@, "version"@]) == Some(
                version@,
            )
            &&& text_node_str(text@, seq!["workspace"@, "package"@, "version"@]) is Some
                ==> forall|p: Seq<Seq<char>>|
                p != seq!["workspace"@, "package"@, "version"@] ==> #[trigger] text_node_str(
                    new_t,
                    p,
                ) == text_node_str(text@, p)
        },
{
    let mut doc = match parse_doc(text) {
        Some(d) => d,
        None => {
            return None;
        },
    };
    let k1 = workspace_lit();
    let k2 = package_lit();
    let k3 = version_lit();
    if !doc_set_str3(&mut doc, &k1, &k2, &k3, version) {
        return None;
    }
    Some(doc_to_string(&doc))
}

/// One examined dependency entry: where it stands, the requirement and
/// path strings it held, the canonicalization answer its path received,
/// and the rewrite applied to it, when one was.
#[derive(Debug)]
pub struct DepScan {
    pub table_path: Vec<String>,
    pub name: String,
    pub old_req: String,
    pub dep_path: String,
    pub canon: Option<String>,
    pub new_req: Option<String>,
}

/// The version-field path of a scanned entry.
pub open spec fn scan_path(e: DepScan) -> Seq<Seq<char>> {
    views(e.table_path@) + seq![e.name@, "version"@]
}

/// Whether some rewritten entry's version field is path `p`.
pub open spec fn updates_touch(es: Seq<DepScan>, p: Seq<Seq<char>>) -> bool {
    exists|k: int| 0 <= k < es.len() && (#[trigger] es[k]).new_req is Some && scan_path(es[k]) == p
}

/// Whether the key names a dependency-like table.
pub open spec fn spec_dep_table_name(k: Seq<char>) -> bool {
    k == "dependencies"@ || k == "dev-dependencies"@ || k == "build-dependencies"@
}

/// The table paths dependency entries live under: a top-level
/// dependency-like table, the workspace's shared dependency table, or a
/// per-target dependency-like table.
pub open spec fn dep_table_shape(tp: Seq<Seq<char>>) -> bool {
    ||| (tp.len() == 1 && spec_dep_table_name(tp[0]))
    ||| (tp.len() == 2 && tp[0] == "workspace"@ && tp[1] == "dependencies"@)
    ||| (tp.len() == 3 && tp[0] == "target"@ && spec_dep_table_name(tp[2]))
}

/// Whether a recorded canonicalization answer names the released crate's
/// root.
pub open spec fn canon_matches(canon: Option<String>, root: Seq<char>) -> bool {
    match canon {
        Some(c) => c@ == root,
        None => false,
    }
}

/// What holds of every record: it sits under a dependency-like table, its
/// old requirement and path are the values the original text held at its
/// entry, and it carries a rewrite exactly when its recorded
/// canonicalization answer names the released root and the policy decides
/// one, in which case the rewrite is that decision.
pub open spec fn scans_sound(
    es: Seq<DepScan>,
    text0: Seq<char>,
    root: Seq<char>,
    v: Version,
    policy: DependentVersion,
) -> bool {
    forall|k: int|
        0 <= k < es.len() ==> {
            let e = #[trigger] es[k];
            &&& dep_table_shape(views(e.table_path@))
            &&& text_node_str(text0, scan_path(e)) == Some(e.old_req@)
            &&& text_node_str(text0, views(e.table_path@) + seq![e.name@, "path"@]) == Some(
                e.dep_path@,
            )
            &&& (e.new_req is Some <==> canon_matches(e.canon, root) && spec_upgrade_decision(
                e.old_req@,
                v@,
                policy,
            ) is Some)
            &&& (e.new_req is Some ==> spec_upgrade_decision(e.old_req@, v@, policy) == Some(
                e.new_req.unwrap()@,
            ))
        }
}

/// An entry the sweep must examine: listed in its table, with both a
/// version string and a path string.
pub open spec fn eligible_entry(t0: Seq<char>, tp: Seq<Seq<char>>, n: Seq<char>) -> bool {
    &&& text_node_keys(t0, tp).contains(n)
    &&& text_node_str(t0, tp + seq![n, "version"@]) is Some
    &&& text_node_str(t0, tp + seq![n, "path"@]) is Some
}

/// Whether a record stands for the entry `n` under `tp`.
pub open spec fn scanned(es: Seq<DepScan>, tp: Seq<Seq<char>>, n: Seq<char>) -> bool {
    exists|k: int|
        0 <= k < es.len() && views((#[trigger] es[k]).table_path@) == tp && es[k].name@ == n
}

/// Every entry of every dependency-like table that holds a version string
/// and a path string has a record.
pub open spec fn scan_complete(t0: Seq<char>, es: Seq<DepScan>) -> bool {
    forall|tp: Seq<Seq<char>>, n: Seq<char>|
        dep_table_shape(tp) && #[trigger] eligible_entry(t0, tp, n) ==> scanned(es, tp, n)
}

/// The text after applying each recorded rewrite in order: what the TOML
/// library computes, starting from the original text.
pub open spec fn text_after(text0: Seq<char>, es: Seq<DepScan>) -> Seq<char>
    decreases es.len(),
{
    if es.len() == 0 {
        text0
    } else {
        let rest = text_after(text0, es.drop_last());
        match es.last().new_req {
            Some(nr) => text_set(rest, scan_path(es.last()), nr@),
            None => rest,
        }
    }
}

/// The distinct literals the traversal tells apart.
proof fn lemma_strlit_facts()
    ensures
        "version"@ != "path"@,
        "dependencies"@ != "workspace"@,
        "dev-dependencies"@ != "workspace"@,
        "build-dependencies"@ != "workspace"@,
        "dependencies"@ != "target"@,
        "dev-dependencies"@ != "target"@,
        "build-dependencies"@ != "target"@,
        "workspace"@ != "target"@,
{
    reveal_strlit("version");
    reveal_strlit("path");
    reveal_strlit("dependencies");
    reveal_strlit("dev-dependencies");
    reveal_strlit("build-dependencies");
    reveal_strlit("workspace");
    reveal_strlit("target");
    assert("version"@.len() == 7);
    assert("path"@.len() == 4);
    assert("dependencies"@.len() == 12);
    assert("dev-dependencies"@.len() == 16);
    assert("build-dependencies"@.len() == 18);
    assert("workspace"@.len() == 9);
    assert("target"@.len() == 6);
}

/// A version-field path determines its table path and entry name.
proof fn lemma_scan_path_inj(e: DepScan, tp: Seq<Seq<char>>, n: Seq<char>)
    requires
        scan_path(e) == tp + seq![n, "version"@],
    ensures
        views(e.table_path@) == tp,
        e.name@ == n,
{
    let lhs = scan_path(e);
    let rhs = tp + seq![n, "version"@];
    assert(lhs.len() == views(e.table_path@).len() + 2);
    assert(rhs.len() == tp.len() + 2);
    assert(views(e.table_path@).len() == tp.len());
    assert forall|t: int| 0 <= t < tp.len() implies views(e.table_path@)[t] == tp[t] by {
        assert(lhs[t] == views(e.table_path@)[t]);
        assert(rhs[t] == tp[t]);
    }
    assert(views(e.table_path@) =~= tp);
    assert(lhs[tp.len() as int] == e.name@);
    assert(rhs[tp.len() as int] == n);
}

/// A record survives appending further records.
proof fn lemma_scanned_grows(pre: Seq<DepScan>, post: Seq<DepScan>, tp: Seq<Seq<char>>, n: Seq<
    char,
>)
    requires
        post.len() >= pre.len(),
        forall|k: int| 0 <= k < pre.len() ==> post[k] == pre[k],
        scanned(pre, tp, n),
    ensures
        scanned(post, tp, n),
{
    let k = choose|k: int|
        0 <= k < pre.len() && views((#[trigger] pre[k]).table_path@) == tp && pre[k].name@ == n;
    assert(views(post[k].table_path@) == tp && post[k].name@ == n);
}

/// The parent-table facts the completeness argument walks through.
pub open spec fn keys_nested(t0: Seq<char>) -> bool {
    forall|p: Seq<Seq<char>>, k: Seq<char>|
        #[trigger] text_node_keys(t0, p.push(k)).len() > 0 ==> text_node_keys(t0, p).contains(k)
}

/// Upgrade every eligible dependency entry of a manifest text. `None`
/// exactly when the text does not parse; otherwise the new text together
/// with one record per examined entry: every entry of a dependency-like
/// table holding a version string and a path string is recorded
/// (`scan_complete`); each record carries the entry's original requirement
/// and path, the canonicalization answer the path received, and a rewrite
/// exactly when that answer names the released root and the policy decides
/// one (`scans_sound`); the new text is what the TOML library computes by
/// the recorded rewrites, every path no rewrite touches is untouched, and
/// every rewritten entry holds its new requirement.
#[verifier::rlimit(100)]
pub fn upgrade_dependency_req(
    text: &str,
    manifest_dir: &str,
    root: &str,
    version: &Version,
    policy: DependentVersion,
) -> (r: Option<(String, Vec<DepScan>)>)
    ensures
        r is Some <==> toml_parses(text@),
        r is Some ==> {
            let (new_text, scans) = r.unwrap();
            &&& scans_sound(scans@, text@, root@, *version, policy)
            &&& scan_complete(text@, scans@)
            &&& new_text@ == text_after(text@, scans@)
            &&& forall|p: Seq<Seq<char>>|
                !updates_touch(scans@, p) ==> #[trigger] text_node_str(new_text@, p)
                    == text_node_str(text@, p)
            &&& forall|k: int|
                0 <= k < scans@.len() && (#[trigger] scans@[k]).new_req is Some ==> text_node_str(
                    new_text@,
                    scan_path(scans@[k]),
                ) == Some(scans@[k].new_req.unwrap()@)
        },
{
    let mut doc = match parse_doc(text) {
        Some(d) => d,
        None => {
            return None;
        },
    };
    let mut scans: Vec<DepScan> = Vec::new();
    let ghost text0 = text@;
    let root_keys = doc_keys0(&doc);
    let ghost rkv = views(root_keys@);
    proof {
        assert(text_after(text0, Seq::<DepScan>::empty()) == text0);
    }
    let mut i: usize = 0;
    while i < root_keys.len()
        invariant
            i <= root_keys@.len(),
            upgrade_inv(text0, root@, doc, scans@, *version, policy),
            rkv == views(root_keys@),
            rkv == text_node_keys(text0, Seq::empty()),
            keys_nested(text0),
            forall|tp: Seq<Seq<char>>, n: Seq<char>|
                dep_table_shape(tp) && #[trigger] eligible_entry(text0, tp, n) && (exists|m: int|
                    0 <= m < i && rkv[m] == tp[0]) ==> scanned(scans@, tp, n),
        decreases root_keys@.len() - i,
    {
        let ghost ev0 = scans@;
        let k1 = &root_keys[i];
        if is_dep_table_name(k1) {
            let mut tpath: Vec<String> = Vec::new();
            tpath.push(k1.clone());
            proof {
                assert(views(tpath@) =~= seq![k1@]);
            }
            process_entries(&mut doc, &tpath, manifest_dir, root, version, policy, &mut scans, Ghost(text0));
            proof {
                lemma_strlit_facts();
                assert forall|tp: Seq<Seq<char>>, n: Seq<char>|
                    dep_table_shape(tp) && #[trigger] eligible_entry(text0, tp, n) && (exists|
                    m: int|
                    0 <= m < i + 1 && rkv[m] == tp[0]) implies scanned(scans@, tp, n) by {
                    let m = choose|m: int| 0 <= m < i + 1 && rkv[m] == tp[0];
                    if m < i {
                        lemma_scanned_grows(ev0, scans@, tp, n);
                    } else {
                        assert(tp[0] == k1@);
                        assert(tp.len() == 1);
                        assert(tp =~= views(tpath@));
                    }
                }
            }
        } else if string_is(k1, "workspace") {
            let mut tpath: Vec<String> = Vec::new();
            tpath.push(k1.clone());
            tpath.push(dependencies_lit());
            proof {
                assert(views(tpath@) =~= seq![k1@, "dependencies"@]);
            }
            process_entries(&mut doc, &tpath, manifest_dir, root, version, policy, &mut scans, Ghost(text0));
            proof {
                lemma_strlit_facts();
                assert forall|tp: Seq<Seq<char>>, n: Seq<char>|
                    dep_table_shape(tp) && #[trigger] eligible_entry(text0, tp, n) && (exists|
                    m: int|
                    0 <= m < i + 1 && rkv[m] == tp[0]) implies scanned(scans@, tp, n) by {
                    let m = choose|m: int| 0 <= m < i + 1 && rkv[m] == tp[0];
                    if m < i {
                        lemma_scanned_grows(ev0, scans@, tp, n);
                    } else {
                        assert(tp[0] == k1@);
                        assert(tp.len() == 2);
                        assert(tp =~= views(tpath@));
                    }
                }
            }
        } else if string_is(k1, "target") {
            let targets = doc_keys1(&doc, k1);
            let ghost tgv = views(targets@);
            proof {
                assert(tgv == text_node_keys(text0, seq![k1@]));
            }
            let mut t: usize = 0;
            while t < targets.len()
                invariant
                    t <= targets@.len(),
                    k1@ == "target"@,
                    upgrade_inv(text0, root@, doc, scans@, *version, policy),
                    rkv == views(root_keys@),
                    keys_nested(text0),
                    tgv == views(targets@),
                    tgv == text_node_keys(text0, seq![k1@]),
                    scans@.len() >= ev0.len(),
                    forall|k: int| 0 <= k < ev0.len() ==> scans@[k] == ev0[k],
                    forall|tp: Seq<Seq<char>>, n: Seq<char>|
                        dep_table_shape(tp) && #[trigger] eligible_entry(text0, tp, n) && (exists|
                        m: int|
                        0 <= m < i && rkv[m] == tp[0]) ==> scanned(scans@, tp, n),
                    forall|tp: Seq<Seq<char>>, n: Seq<char>|
                        dep_table_shape(tp) && #[trigger] eligible_entry(text0, tp, n) && tp.len()
                            == 3 && tp[0] == k1@ && (exists|m: int|
                            0 <= m < t && tgv[m] == tp[1]) ==> scanned(scans@, tp, n),
                decreases targets@.len() - t,
            {
                let ghost evt = scans@;
                let tgt = &targets[t];
                let subs = doc_keys2(&doc, k1, tgt);
                let ghost sbv = views(subs@);
                proof {
                    assert(sbv == text_node_keys(text0, seq![k1@, tgt@]));
                }
                let mut sx: usize = 0;
                while sx < subs.len()
                    invariant
                        sx <= subs@.len(),
                        k1@ == "target"@,
                        upgrade_inv(text0, root@, doc, scans@, *version, policy),
                        rkv == views(root_keys@),
                        keys_nested(text0),
                        tgv == views(targets@),
                        sbv == views(subs@),
                        sbv == text_node_keys(text0, seq![k1@, tgt@]),
                        scans@.len() >= ev0.len(),
                        forall|k: int| 0 <= k < ev0.len() ==> scans@[k] == ev0[k],
                        scans@.len() >= evt.len(),
                        forall|k: int| 0 <= k < evt.len() ==> scans@[k] == evt[k],
                        forall|tp: Seq<Seq<char>>, n: Seq<char>|
                            dep_table_shape(tp) && #[trigger] eligible_entry(text0, tp, n) && (
                            exists|m: int|
                                0 <= m < i && rkv[m] == tp[0]) ==> scanned(scans@, tp, n),
                        forall|tp: Seq<Seq<char>>, n: Seq<char>|
                            dep_table_shape(tp) && #[trigger] eligible_entry(text0, tp, n)
                                && tp.len() == 3 && tp[0] == k1@ && (exists|m: int|
                                0 <= m < t && tgv[m] == tp[1]) ==> scanned(scans@, tp, n),
                        forall|tp: Seq<Seq<char>>, n: Seq<char>|
                            dep_table_shape(tp) && #[trigger] eligible_entry(text0, tp, n)
                                && tp.len() == 3 && tp[0] == k1@ && tp[1] == tgt@ && (exists|
                            m: int|
                                0 <= m < sx && sbv[m] == tp[2]) ==> scanned(scans@, tp, n),
                    decreases subs@.len() - sx,
                {
                    let ghost evs = scans@;
                    let sub = &subs[sx];
                    if is_dep_table_name(sub) {
                        let mut tpath: Vec<String> = Vec::new();
                        tpath.push(k1.clone());
                        tpath.push(tgt.clone());
                        tpath.push(sub.clone());
                        proof {
                            assert(views(tpath@) =~= seq![k1@, tgt@, sub@]);
                        }
                        process_entries(&mut doc, &tpath, manifest_dir, root, version, policy, &mut scans, Ghost(text0));
                        proof {
                            assert forall|tp: Seq<Seq<char>>, n: Seq<char>|
                                dep_table_shape(tp) && #[trigger] eligible_entry(text0, tp, n)
                                    && tp.len() == 3 && tp[0] == k1@ && tp[1] == tgt@ && (exists|
                                m: int|
                                    0 <= m < sx + 1 && sbv[m] == tp[2]) implies scanned(
                                scans@,
                                tp,
                                n,
                            ) by {
                                let m = choose|m: int| 0 <= m < sx + 1 && sbv[m] == tp[2];
                                if m < sx {
                                    lemma_scanned_grows(evs, scans@, tp, n);
                                } else {
                                    assert(tp[2] == sub@);
                                    assert(tp =~= views(tpath@));
                                }
                            }
                            assert forall|tp: Seq<Seq<char>>, n: Seq<char>|
                                dep_table_shape(tp) && #[trigger] eligible_entry(text0, tp, n) && (
                            exists|m: int| 0 <= m < i && rkv[m] == tp[0]) implies scanned(
                                scans@,
                                tp,
                                n,
                            ) by {
                                lemma_scanned_grows(evs, scans@, tp, n);
                            }
                            assert forall|tp: Seq<Seq<char>>, n: Seq<char>|
                                dep_table_shape(tp) && #[trigger] eligible_entry(text0, tp, n)
                                    && tp.len() == 3 && tp[0] == k1@ && (exists|m: int|
                                    0 <= m < t && tgv[m] == tp[1]) implies scanned(
                                scans@,
                                tp,
                                n,
                            ) by {
                                lemma_scanned_grows(evs, scans@, tp, n);
                            }
                        }
                    } else {
                        proof {
                            assert forall|tp: Seq<Seq<char>>, n: Seq<char>|
                                dep_table_shape(tp) && #[trigger] eligible_entry(text0, tp, n)
                                    && tp.len() == 3 && tp[0] == k1@ && tp[1] == tgt@ && (exists|
                                m: int|
                                    0 <= m < sx + 1 && sbv[m] == tp[2]) implies scanned(
                                scans@,
                                tp,
                                n,
                            ) by {
                                let m = choose|m: int| 0 <= m < sx + 1 && sbv[m] == tp[2];
                                if m < sx {
                                } else {
                                    assert(tp[2] == sub@);
                                    assert(spec_dep_table_name(sub@));
                                }
                            }
                        }
                    }
                    sx = sx + 1;
                }
                proof {
                    // every dependency table of this target is now covered
                    assert forall|tp: Seq<Seq<char>>, n: Seq<char>|
                        dep_table_shape(tp) && #[trigger] eligible_entry(text0, tp, n) && tp.len()
                            == 3 && tp[0] == k1@ && (exists|m: int|
                            0 <= m < t + 1 && tgv[m] == tp[1]) implies scanned(scans@, tp, n) by {
                        let m = choose|m: int| 0 <= m < t + 1 && tgv[m] == tp[1];
                        if m < t {
                            lemma_scanned_grows(evt, scans@, tp, n);
                        } else {
                            assert(tp[1] == tgt@);
                            assert(text_node_keys(text0, tp).contains(n));
                            assert(text_node_keys(text0, tp).len() > 0);
                            assert(tp =~= seq![tp[0], tp[1]].push(tp[2]));
                            assert(text_node_keys(text0, seq![tp[0], tp[1]].push(tp[2])).len()
                                > 0);
                            assert(text_node_keys(text0, seq![tp[0], tp[1]]).contains(tp[2]));
                            assert(seq![tp[0], tp[1]] =~= seq![k1@, tgt@]);
                            assert(sbv.contains(tp[2]));
                            let m2 = choose|m2: int| 0 <= m2 < sbv.len() && sbv[m2] == tp[2];
                            assert(0 <= m2 < subs@.len() && sbv[m2] == tp[2]);
                        }
                    }
                    assert forall|tp: Seq<Seq<char>>, n: Seq<char>|
                        dep_table_shape(tp) && #[trigger] eligible_entry(text0, tp, n) && (exists|
                        m: int|
                        0 <= m < i && rkv[m] == tp[0]) implies scanned(scans@, tp, n) by {
                        lemma_scanned_grows(evt, scans@, tp, n);
                    }
                }
                t = t + 1;
            }
            proof {
                lemma_strlit_facts();
                assert forall|tp: Seq<Seq<char>>, n: Seq<char>|
                    dep_table_shape(tp) && #[trigger] eligible_entry(text0, tp, n) && (exists|
                    m: int|
                    0 <= m < i + 1 && rkv[m] == tp[0]) implies scanned(scans@, tp, n) by {
                    let m = choose|m: int| 0 <= m < i + 1 && rkv[m] == tp[0];
                    if m < i {
                        lemma_scanned_grows(ev0, scans@, tp, n);
                    } else {
                        assert(tp[0] == k1@);
                        assert(tp.len() == 3);
                        // the target name is listed under the target table
                        assert(text_node_keys(text0, tp).contains(n));
                        assert(text_node_keys(text0, tp).len() > 0);
                        assert(tp =~= seq![tp[0], tp[1]].push(tp[2]));
                        assert(text_node_keys(text0, seq![tp[0], tp[1]].push(tp[2])).len() > 0);
                        assert(text_node_keys(text0, seq![tp[0], tp[1]]).contains(tp[2]));
                        assert(text_node_keys(text0, seq![tp[0], tp[1]]).len() > 0);
                        assert(seq![tp[0], tp[1]] =~= seq![tp[0]].push(tp[1]));
                        assert(text_node_keys(text0, seq![tp[0]].push(tp[1])).len() > 0);
                        assert(text_node_keys(text0, seq![tp[0]]).contains(tp[1]));
                        assert(seq![tp[0]] =~= seq![k1@]);
                        assert(tgv.contains(tp[1]));
                    }
                }
            }
        } else {
            proof {
                lemma_strlit_facts();
                assert forall|tp: Seq<Seq<char>>, n: Seq<char>|
                    dep_table_shape(tp) && #[trigger] eligible_entry(text0, tp, n) && (exists|
                    m: int|
                    0 <= m < i + 1 && rkv[m] == tp[0]) implies scanned(scans@, tp, n) by {
                    let m = choose|m: int| 0 <= m < i + 1 && rkv[m] == tp[0];
                    if m < i {
                    } else {
                        assert(tp[0] == k1@);
                        // k1 is none of the heads a dependency-shaped path can have
                        assert(!spec_dep_table_name(k1@));
                        assert(k1@ != "workspace"@);
                        assert(k1@ != "target"@);
                        assert(false);
                    }
                }
            }
        }
        i = i + 1;
    }
    proof {
        // every dependency-shaped table's head key is listed at the root
        assert forall|tp: Seq<Seq<char>>, n: Seq<char>|
            dep_table_shape(tp) && #[trigger] eligible_entry(text0, tp, n) implies scanned(
            scans@,
            tp,
            n,
        ) by {
            assert(text_node_keys(text0, tp).contains(n));
            assert(text_node_keys(text0, tp).len() > 0);
            if tp.len() == 1 {
                assert(tp =~= Seq::<Seq<char>>::empty().push(tp[0]));
                assert(text_node_keys(text0, Seq::<Seq<char>>::empty().push(tp[0])).len() > 0);
            } else if tp.len() == 2 {
                assert(tp =~= seq![tp[0]].push(tp[1]));
                assert(text_node_keys(text0, seq![tp[0]].push(tp[1])).len() > 0);
                assert(text_node_keys(text0, seq![tp[0]]).contains(tp[1]));
                assert(text_node_keys(text0, seq![tp[0]]).len() > 0);
                assert(seq![tp[0]] =~= Seq::<Seq<char>>::empty().push(tp[0]));
                assert(text_node_keys(text0, Seq::<Seq<char>>::empty().push(tp[0])).len() > 0);
            } else {
                assert(tp =~= seq![tp[0], tp[1]].push(tp[2]));
                assert(text_node_keys(text0, seq![tp[0], tp[1]].push(tp[2])).len() > 0);
                assert(text_node_keys(text0, seq![tp[0], tp[1]]).contains(tp[2]));
                assert(text_node_keys(text0, seq![tp[0], tp[1]]).len() > 0);
                assert(seq![tp[0], tp[1]] =~= seq![tp[0]].push(tp[1]));
                assert(text_node_keys(text0, seq![tp[0]].push(tp[1])).len() > 0);
                assert(text_node_keys(text0, seq![tp[0]]).contains(tp[1]));
                assert(text_node_keys(text0, seq![tp[0]]).len() > 0);
                assert(seq![tp[0]] =~= Seq::<Seq<char>>::empty().push(tp[0]));
                assert(text_node_keys(text0, Seq::<Seq<char>>::empty().push(tp[0])).len() > 0);
            }
            assert(text_node_keys(text0, Seq::empty()).contains(tp[0]));
            assert(rkv.contains(tp[0]));
            let m = choose|m: int| 0 <= m < rkv.len() && rkv[m] == tp[0];
            assert(0 <= m < root_keys@.len() && rkv[m] == tp[0]);
        }
    }
    Some((doc_to_string(&doc), scans))
}

/// The traversal's invariant: every record is sound against the original
/// text and root, the document's text is the fold of the recorded
/// rewrites, no table's key list has changed, paths no rewrite touches
/// hold their original value, and every rewritten entry holds its new
/// requirement.
pub open spec fn upgrade_inv(
    text0: Seq<char>,
    root: Seq<char>,
    doc: toml_edit::DocumentMut,
    scans: Seq<DepScan>,
    version: Version,
    policy: DependentVersion,
) -> bool {
    &&& scans_sound(scans, text0, root, version, policy)
    &&& doc_text(doc) == text_after(text0, scans)
    &&& forall|p: Seq<Seq<char>>|
        #[trigger] text_node_keys(doc_text(doc), p) == text_node_keys(text0, p)
    &&& forall|p: Seq<Seq<char>>|
        !updates_touch(scans, p) ==> #[trigger] text_node_str(doc_text(doc), p) == text_node_str(
            text0,
            p,
        )
    &&& forall|k: int|
        0 <= k < scans.len() && (#[trigger] scans[k]).new_req is Some ==> text_node_str(
            doc_text(doc),
            scan_path(scans[k]),
        ) == Some(scans[k].new_req.unwrap()@)
}

/// Examine every entry of one dependency-like table, rewriting the
/// eligible ones and recording them all.
#[verifier::rlimit(100)]
fn process_entries(
    doc: &mut toml_edit::DocumentMut,
    tpath: &Vec<String>,
    manifest_dir: &str,
    root: &str,
    version: &Version,
    policy: DependentVersion,
    scans: &mut Vec<DepScan>,
    Ghost(text0): Ghost<Seq<char>>,
)
    requires
        1 <= tpath@.len() <= 3,
        dep_table_shape(views(tpath@)),
        upgrade_inv(text0, root@, *old(doc), old(scans)@, *version, policy),
    ensures
        upgrade_inv(text0, root@, *final(doc), final(scans)@, *version, policy),
        final(scans)@.len() >= old(scans)@.len(),
        forall|k: int| 0 <= k < old(scans)@.len() ==> final(scans)@[k] == old(scans)@[k],
        forall|n: Seq<char>|
            #[trigger] eligible_entry(text0, views(tpath@), n) ==> scanned(
                final(scans)@,
                views(tpath@),
                n,
            ),
{
    let ghost tpv = views(tpath@);
    let ghost pre0 = old(scans)@;
    let names = table_keys(doc, tpath);
    proof {
        assert(views(names@) == text_node_keys(text0, tpv));
    }
    let mut nx: usize = 0;
    while nx < names.len()
        invariant
            nx <= names@.len(),
            1 <= tpath@.len() <= 3,
            tpv == views(tpath@),
            dep_table_shape(tpv),
            views(names@) == text_node_keys(text0, tpv),
            upgrade_inv(text0, root@, *doc, scans@, *version, policy),
            scans@.len() >= pre0.len(),
            pre0 == old(scans)@,
            forall|k: int| 0 <= k < pre0.len() ==> scans@[k] == pre0[k],
            forall|j: int|
                0 <= j < nx && eligible_entry(text0, tpv, (#[trigger] names@[j])@) ==> scanned(
                    scans@,
                    tpv,
                    names@[j]@,
                ),
        decreases names@.len() - nx,
    {
        let name = &names[nx];
        let ghost q = tpv + seq![name@, "version"@];
        let ghost qp = tpv + seq![name@, "path"@];
        let existing = entry_field(doc, tpath, name, &version_lit());
        let dep_field = entry_field(doc, tpath, name, &path_lit());
        proof {
            lemma_strlit_facts();
            // the path field of an entry is never rewritten
            assert(!updates_touch(scans@, qp)) by {
                if updates_touch(scans@, qp) {
                    let k = choose|k: int|
                        0 <= k < scans@.len() && (#[trigger] scans@[k]).new_req is Some
                            && scan_path(scans@[k]) == qp;
                    let sp = scan_path(scans@[k]);
                    assert(sp[sp.len() - 1] == "version"@);
                    assert(qp[qp.len() - 1] == "path"@);
                }
            }
            assert(text_node_str(doc_text(*doc), qp) == text_node_str(text0, qp));
        }
        if existing.is_some() && dep_field.is_some() {
            if touches(scans, tpath, name) {
                proof {
                    // already rewritten: that record covers this entry
                    let k = choose|k: int|
                        0 <= k < scans@.len() && (#[trigger] scans@[k]).new_req is Some
                            && scan_path(scans@[k]) == q;
                    lemma_scan_path_inj(scans@[k], tpv, name@);
                    assert(scanned(scans@, tpv, name@));
                }
            } else {
                let existing_req = existing.unwrap();
                let rel = dep_field.unwrap();
                proof {
                    // the reads equal the original text's values
                    assert(text_node_str(text0, q) == Some(existing_req@));
                    assert(text_node_str(text0, qp) == Some(rel@));
                }
                let canon = canon_join(manifest_dir, rel.as_str());
                let matched = is_relevant(true, &canon, root);
                let new_req_opt: Option<String> = if matched {
                    upgrade_req_decision(existing_req.as_str(), version, policy)
                } else {
                    None
                };
                let ghost doc_pre = *doc;
                if let Some(nr) = &new_req_opt {
                    let set_ok = set_entry_version(doc, tpath, name, nr.as_str());
                    proof {
                        // the version path holds a string, so the assignment applies
                        assert(text_node_str(doc_text(doc_pre), q) is Some);
                        assert(set_ok);
                    }
                }
                let ghost pre_scans = scans@;
                scans.push(
                    DepScan {
                        table_path: crate::owners::clone_strings(tpath),
                        name: name.clone(),
                        old_req: existing_req,
                        dep_path: rel,
                        canon,
                        new_req: new_req_opt,
                    },
                );
                proof {
                    let e = scans@.last();
                    assert(scans@.drop_last() =~= pre_scans);
                    assert(views(e.table_path@) =~= tpv);
                    assert(scan_path(e) =~= q);
                    lemma_scan_extend(
                        text0,
                        root@,
                        doc_pre,
                        *doc,
                        pre_scans,
                        e,
                        *version,
                        policy,
                    );
                    assert(scanned(scans@, tpv, name@)) by {
                        assert(views(scans@[scans@.len() - 1].table_path@) == tpv);
                    }
                    assert forall|j: int|
                        0 <= j < nx && eligible_entry(
                            text0,
                            tpv,
                            (#[trigger] names@[j])@,
                        ) implies scanned(scans@, tpv, names@[j]@) by {
                        lemma_scanned_grows(pre_scans, scans@, tpv, names@[j]@);
                    }
                }
            }
        } else {
            proof {
                if existing is None {
                    assert(!updates_touch(scans@, q)) by {
                        if updates_touch(scans@, q) {
                            let k = choose|k: int|
                                0 <= k < scans@.len() && (#[trigger] scans@[k]).new_req is Some
                                    && scan_path(scans@[k]) == q;
                            assert(text_node_str(doc_text(*doc), q) is Some);
                        }
                    }
                    assert(text_node_str(text0, q) is None);
                } else {
                    assert(text_node_str(text0, qp) is None);
                }
                assert(!eligible_entry(text0, tpv, name@));
            }
        }
        nx = nx + 1;
    }
    proof {
        assert forall|n: Seq<char>| #[trigger]
            eligible_entry(text0, tpv, n) implies scanned(scans@, tpv, n) by {
            assert(text_node_keys(text0, tpv).contains(n));
            let j = choose|j: int|
                0 <= j < text_node_keys(text0, tpv).len() && text_node_keys(text0, tpv)[j] == n;
            assert(views(names@)[j] == n);
            assert(names@[j]@ == n);
            assert(eligible_entry(text0, tpv, names@[j]@));
        }
    }
}

/// Appending one sound, fresh record keeps the traversal's invariant: on a
/// rewrite the document took exactly that assignment, otherwise it is
/// untouched.
proof fn lemma_scan_extend(
    text0: Seq<char>,
    root: Seq<char>,
    doc_pre: toml_edit::DocumentMut,
    doc: toml_edit::DocumentMut,
    pre: Seq<DepScan>,
    e: DepScan,
    version: Version,
    policy: DependentVersion,
)
    requires
        upgrade_inv(text0, root, doc_pre, pre, version, policy),
        dep_table_shape(views(e.table_path@)),
        text_node_str(text0, scan_path(e)) == Some(e.old_req@),
        text_node_str(text0, views(e.table_path@) + seq![e.name@, "path"@]) == Some(e.dep_path@),
        e.new_req is Some <==> canon_matches(e.canon, root) && spec_upgrade_decision(
            e.old_req@,
            version@,
            policy,
        ) is Some,
        e.new_req is Some ==> spec_upgrade_decision(e.old_req@, version@, policy) == Some(
            e.new_req.unwrap()@,
        ),
        !updates_touch(pre, scan_path(e)),
        e.new_req is Some ==> text_node_str(doc_text(doc_pre), scan_path(e)) is Some,
        e.new_req is Some ==> doc_set_post(
            doc_text(doc_pre),
            doc_text(doc),
            scan_path(e),
            e.new_req.unwrap()@,
        ),
        e.new_req is None ==> doc == doc_pre,
    ensures
        upgrade_inv(text0, root, doc, pre.push(e), version, policy),
{
    let es = pre.push(e);
    let q = scan_path(e);
    assert(es.last() == e);
    assert forall|k: int| 0 <= k < es.len() implies {
        let ev = #[trigger] es[k];
        &&& dep_table_shape(views(ev.table_path@))
        &&& text_node_str(text0, scan_path(ev)) == Some(ev.old_req@)
        &&& text_node_str(text0, views(ev.table_path@) + seq![ev.name@, "path"@]) == Some(
            ev.dep_path@,
        )
        &&& (ev.new_req is Some <==> canon_matches(ev.canon, root) && spec_upgrade_decision(
            ev.old_req@,
            version@,
            policy,
        ) is Some)
        &&& (ev.new_req is Some ==> spec_upgrade_decision(ev.old_req@, version@, policy) == Some(
            ev.new_req.unwrap()@,
        ))
    } by {
        if k < pre.len() {
            assert(es[k] == pre[k]);
        } else {
            assert(es[k] == e);
        }
    }
    assert(doc_text(doc) == text_after(text0, es)) by {
        assert(es.drop_last() =~= pre);
    }
    assert forall|p: Seq<Seq<char>>| #[trigger]
        text_node_keys(doc_text(doc), p) == text_node_keys(text0, p) by {
        if e.new_req is Some {
            assert(text_node_keys(doc_text(doc), p) == text_node_keys(doc_text(doc_pre), p));
        }
    }
    assert forall|p: Seq<Seq<char>>|
        !updates_touch(es, p) implies #[trigger] text_node_str(doc_text(doc), p)
        == text_node_str(text0, p) by {
        assert(!updates_touch(pre, p)) by {
            if updates_touch(pre, p) {
                let k = choose|k: int|
                    0 <= k < pre.len() && (#[trigger] pre[k]).new_req is Some && scan_path(pre[k])
                        == p;
                assert(es[k] == pre[k]);
            }
        }
        if e.new_req is Some {
            assert(p != q) by {
                if p == q {
                    assert(es[es.len() - 1] == e);
                }
            }
            assert(text_node_str(doc_text(doc), p) == text_node_str(doc_text(doc_pre), p));
        }
    }
    assert forall|k: int|
        0 <= k < es.len() && (#[trigger] es[k]).new_req is Some implies text_node_str(
        doc_text(doc),
        scan_path(es[k]),
    ) == Some(es[k].new_req.unwrap()@) by {
        if k < pre.len() {
            assert(es[k] == pre[k]);
            if e.new_req is Some {
                assert(scan_path(pre[k]) != q) by {
                    if scan_path(pre[k]) == q {
                        assert(updates_touch(pre, q));
                    }
                }
                assert(text_node_str(doc_text(doc), scan_path(pre[k])) == text_node_str(
                    doc_text(doc_pre),
                    scan_path(pre[k]),
                ));
            }
        } else {
            assert(es[k] == e);
        }
    }
}

/// Whether some recorded rewrite already touches the version field of the
/// entry `name` under `tpath`.
fn touches(scans: &Vec<DepScan>, tpath: &Vec<String>, name: &String) -> (r: bool)
    ensures
        r == updates_touch(scans@, views(tpath@) + seq![name@, "version"@]),
{
    let ghost q = views(tpath@) + seq![name@, "version"@];
    let mut k: usize = 0;
    while k < scans.len()
        invariant
            k <= scans@.len(),
            q == views(tpath@) + seq![name@, "version"@],
            forall|j: int|
                0 <= j < k ==> !((#[trigger] scans@[j]).new_req is Some && scan_path(scans@[j])
                    == q),
        decreases scans@.len() - k,
    {
        if scans[k].new_req.is_some() && path_matches(&scans[k], tpath, name) {
            proof {
                assert(updates_touch(scans@, q)) by {
                    assert((scans@[k as int]).new_req is Some && scan_path(scans@[k as int]) == q);
                }
            }
            return true;
        }
        k = k + 1;
    }
    proof {
        if updates_touch(scans@, q) {
            let j = choose|j: int|
                0 <= j < scans@.len() && (#[trigger] scans@[j]).new_req is Some && scan_path(
                    scans@[j],
                ) == q;
            assert(!(scans@[j].new_req is Some && scan_path(scans@[j]) == q));
        }
    }
    false
}

/// Whether this record's entry is exactly `name` under `tpath`.
fn path_matches(e: &DepScan, tpath: &Vec<String>, name: &String) -> (r: bool)
    ensures
        r == (scan_path(*e) == views(tpath@) + seq![name@, "version"@]),
{
    let ghost q = views(tpath@) + seq![name@, "version"@];
    let ghost pe = scan_path(*e);
    if e.table_path.len() != tpath.len() {
        proof {
            assert(pe != q) by {
                assert(pe.len() != q.len());
            }
        }
        return false;
    }
    let mut j: usize = 0;
    while j < tpath.len()
        invariant
            j <= tpath@.len(),
            e.table_path@.len() == tpath@.len(),
            q == views(tpath@) + seq![name@, "version"@],
            pe == scan_path(*e),
            forall|t: int| 0 <= t < j ==> e.table_path@[t]@ == tpath@[t]@,
        decreases tpath@.len() - j,
    {
        if !string_same(&e.table_path[j], &tpath[j]) {
            proof {
                assert(pe != q) by {
                    assert(pe[j as int] == e.table_path@[j as int]@);
                    assert(q[j as int] == tpath@[j as int]@);
                }
            }
            return false;
        }
        j = j + 1;
    }
    if !string_same(&e.name, name) {
        proof {
            assert(pe != q) by {
                assert(pe[tpath@.len() as int] == e.name@);
                assert(q[tpath@.len() as int] == name@);
            }
        }
        return false;
    }
    proof {
        assert(pe =~= q) by {
            assert(forall|t: int|
                0 <= t < tpath@.len() ==> pe[t] == e.table_path@[t]@ && q[t] == tpath@[t]@);
            assert(pe[tpath@.len() as int] == e.name@ && q[tpath@.len() as int] == name@);
            assert(pe[tpath@.len() as int + 1] == "version"@ && q[tpath@.len() as int + 1]
                == "version"@);
        }
    }
    true
}

/// Whether two strings hold the same characters.
fn string_same(a: &String, b: &String) -> (r: bool)
    ensures
        r == (a@ == b@),
{
    *a == *b
}


/// The keys of the table at a one- to three-key path.
fn table_keys(doc: &toml_edit::DocumentMut, tpath: &Vec<String>) -> (r: Vec<String>)
    requires
        1 <= tpath@.len() <= 3,
    ensures
        views(r@) == text_node_keys(doc_text(*doc), views(tpath@)),
{
    if tpath.len() == 1 {
        let r = doc_keys1(doc, &tpath[0]);
        proof {
            assert(views(tpath@) =~= seq![tpath@[0]@]);
        }
        r
    } else if tpath.len() == 2 {
        let r = doc_keys2(doc, &tpath[0], &tpath[1]);
        proof {
            assert(views(tpath@) =~= seq![tpath@[0]@, tpath@[1]@]);
        }
        r
    } else {
        let r = doc_keys3(doc, &tpath[0], &tpath[1], &tpath[2]);
        proof {
            assert(views(tpath@) =~= seq![tpath@[0]@, tpath@[1]@, tpath@[2]@]);
        }
        r
    }
}

/// The string under `table_path.name.field`, at any supported depth.
fn entry_field(doc: &toml_edit::DocumentMut, tpath: &Vec<String>, name: &String, field: &String)
    -> (r: Option<String>)
    requires
        1 <= tpath@.len() <= 3,
    ensures
        match r {
            Some(s) => text_node_str(doc_text(*doc), views(tpath@) + seq![name@, field@]) == Some(
                s@,
            ),
            None => text_node_str(doc_text(*doc), views(tpath@) + seq![name@, field@]) is None,
        },
{
    if tpath.len() == 1 {
        let r = doc_get_str3(doc, &tpath[0], name, field);
        proof {
            assert(views(tpath@) + seq![name@, field@] =~= seq![tpath@[0]@, name@, field@]);
        }
        r
    } else if tpath.len() == 2 {
        let r = doc_get_str4(doc, &tpath[0], &tpath[1], name, field);
        proof {
            assert(views(tpath@) + seq![name@, field@] =~= seq![
                tpath@[0]@,
                tpath@[1]@,
                name@,
                field@,
            ]);
        }
        r
    } else {
        let r = doc_get_str5(doc, &tpath[0], &tpath[1], &tpath[2], name, field);
        proof {
            assert(views(tpath@) + seq![name@, field@] =~= seq![
                tpath@[0]@,
                tpath@[1]@,
                tpath@[2]@,
                name@,
                field@,
            ]);
        }
        r
    }
}

/// Set the version string under `table_path.name`, at any supported
/// depth: the document is untouched when an item along the way is a
/// non-table value.
fn set_entry_version(
    doc: &mut toml_edit::DocumentMut,
    tpath: &Vec<String>,
    name: &String,
    val: &str,
) -> (r: bool)
    requires
        1 <= tpath@.len() <= 3,
    ensures
        text_node_str(doc_text(*old(doc)), views(tpath@) + seq![name@, "version"@]) is Some ==> r,
        r ==> doc_set_post(
            doc_text(*old(doc)),
            doc_text(*final(doc)),
            views(tpath@) + seq![name@, "version"@],
            val@,
        ),
        !r ==> doc_text(*final(doc)) == doc_text(*old(doc)),
{
    let field = version_lit();
    if tpath.len() == 1 {
        let r = doc_set_str3(doc, &tpath[0], name, &field, val);
        proof {
            assert(views(tpath@) + seq![name@, "version"@] =~= seq![tpath@[0]@, name@, field@]);
        }
        r
    } else if tpath.len() == 2 {
        let r = doc_set_str4(doc, &tpath[0], &tpath[1], name, &field, val);
        proof {
            assert(views(tpath@) + seq![name@, "version"@] =~= seq![
                tpath@[0]@,
                tpath@[1]@,
                name@,
                field@,
            ]);
        }
        r
    } else {
        let r = doc_set_str5(doc, &tpath[0], &tpath[1], &tpath[2], name, &field, val);
        proof {
            assert(views(tpath@) + seq![name@, "version"@] =~= seq![
                tpath@[0]@,
                tpath@[1]@,
                tpath@[2]@,
                name@,
                field@,
            ]);
        }
        r
    }
}

/// Whether a dependency entry is eligible for a requirement rewrite: it
/// holds a version field, and its path canonicalized to exactly the
/// released crate's root.
pub fn is_relevant(has_version: bool, canon: &Option<String>, root: &str) -> (r: bool)
    ensures
        r == (has_version && match canon {
            Some(c) => c@ == root@,
            None => false,
        }),
{
    if !has_version {
        return false;
    }
    match canon {
        Some(c) => {
            let rs = root_string(root);
            *c == rs
        },
        None => false,
    }
}

/// Whether the key names a dependency-like table.
fn is_dep_table_name(k: &String) -> (r: bool)
    ensures
        r == (k@ == "dependencies"@ || k@ == "dev-dependencies"@ || k@ == "build-dependencies"@),
{
    string_is(k, "dependencies") || string_is(k, "dev-dependencies") || string_is(
        k,
        "build-dependencies",
    )
}

/// Whether the string equals the literal.
fn string_is(k: &String, lit: &str) -> (r: bool)
    ensures
        r == (k@ == lit@),
{
    let l = lit.to_owned();
    *k == l
}

/// An owned copy of the crate-root string.
fn root_string(root: &str) -> (r: String)
    ensures
        r@ == root@,
{
    root.to_owned()
}

/// The literal `package`.
fn package_lit() -> (r: String)
    ensures
        r@ == "package"@,
{
    "package".to_owned()
}

/// The literal `version`.
fn version_lit() -> (r: String)
    ensures
        r@ == "version"@,
{
    "version".to_owned()
}

/// The literal `workspace`.
fn workspace_lit() -> (r: String)
    ensures
        r@ == "workspace"@,
{
    "workspace".to_owned()
}

/// The literal `dependencies`.
fn dependencies_lit() -> (r: String)
    ensures
        r@ == "dependencies"@,
{
    "dependencies".to_owned()
}

/// The literal `path`.
fn path_lit() -> (r: String)
    ensures
        r@ == "path"@,
{
    "path".to_owned()
}

} // verus!
