//! Publish-step planning: the argument list handed to the package manager,
//! the published-version check, and package content paths.
//!
//! Nothing here touches a process or the network; the surrounding
//! application runs the commands and feeds the answers back in.

use vstd::prelude::*;

use crate::text::{join_strs, spec_join};

verus! {

/// Expresses what features flags should be used.
#[derive(Clone, Debug)]
pub enum Features {
    /// Don't use special features
    NoDefault,
    /// Only use selected features
    Selective(Vec<String>),
    /// Use all features via `all-features`
    All,
}

/// The views of a sequence of strings.
pub open spec fn views(v: Seq<String>) -> Seq<Seq<char>> {
    Seq::new(v.len(), |i: int| v[i]@)
}

/// Appending a string appends its view.
pub proof fn lemma_views_push(v: Seq<String>, s: String)
    ensures
        views(v.push(s)) == views(v).push(s@),
{
    assert(views(v.push(s)) =~= views(v).push(s@));
}

/// `--package` followed by each package id, in order.
pub open spec fn pkgid_args(pkgids: Seq<Seq<char>>) -> Seq<Seq<char>>
    decreases pkgids.len(),
{
    if pkgids.len() == 0 {
        Seq::empty()
    } else {
        pkgid_args(pkgids.drop_last()) + seq!["--package"@, pkgids.last()]
    }
}

/// Whether some entry asks for no default features.
pub open spec fn any_feature_none(fs: Seq<Features>) -> bool {
    exists|i: int| 0 <= i < fs.len() && fs[i] is NoDefault
}

/// Whether some entry asks for all features.
pub open spec fn any_feature_all(fs: Seq<Features>) -> bool {
    exists|i: int| 0 <= i < fs.len() && fs[i] is All
}

/// The selected feature names, flattened in order.
pub open spec fn selective_features(fs: Seq<Features>) -> Seq<Seq<char>>
    decreases fs.len(),
{
    if fs.len() == 0 {
        Seq::empty()
    } else {
        selective_features(fs.drop_last()) + match fs.last() {
            Features::Selective(v) => views(v@),
            _ => Seq::empty(),
        }
    }
}

/// `flag value` when the optional value is present.
pub open spec fn opt_args(flag: Seq<char>, v: Option<Seq<char>>) -> Seq<Seq<char>> {
    match v {
        Some(s) => seq![flag, s],
        None => Seq::empty(),
    }
}

/// The feature-related arguments of the publish invocation.
pub open spec fn feature_args(features: Seq<Features>) -> Seq<Seq<char>> {
    let joined = spec_join(selective_features(features), ","@);
    (if any_feature_none(features) {
        seq!["--no-default-features"@]
    } else {
        Seq::empty()
    }) + (if any_feature_all(features) {
        seq!["--all-features"@]
    } else {
        Seq::empty()
    }) + (if joined.len() > 0 {
        seq!["--features"@, joined]
    } else {
        Seq::empty()
    })
}

/// The full argument list of the publish invocation, after the program name.
pub open spec fn spec_publish_args(
    dry_run: bool,
    verify: bool,
    manifest_path: Seq<char>,
    pkgids: Seq<Seq<char>>,
    features: Seq<Features>,
    registry: Option<Seq<char>>,
    target: Option<Seq<char>>,
) -> Seq<Seq<char>> {
    seq!["publish"@, "--manifest-path"@, manifest_path] + (if pkgids.len() > 1 {
        seq!["-Zpackage-workspace"@]
    } else {
        Seq::empty()
    }) + pkgid_args(pkgids) + opt_args("--registry"@, registry) + (if dry_run {
        seq!["--dry-run"@, "--allow-dirty"@]
    } else {
        Seq::empty()
    }) + (if !verify {
        seq!["--no-verify"@]
    } else {
        Seq::empty()
    }) + opt_args("--target"@, target) + feature_args(features)
}

/// Plan the publish invocation: `None` when there is nothing to publish,
/// otherwise the argument list to hand to the package manager.
pub fn publish(
    dry_run: bool,
    verify: bool,
    manifest_path: &String,
    pkgids: &Vec<String>,
    features: &Vec<Features>,
    registry: &Option<String>,
    target: &Option<String>,
) -> (r: Option<Vec<String>>)
    ensures
        pkgids@.len() == 0 <==> r is None,
        r is Some ==> views(r.unwrap()@) == spec_publish_args(
            dry_run,
            verify,
            manifest_path@,
            views(pkgids@),
            features@,
            match registry {
                Some(s) => Some(s@),
                None => None,
            },
            match target {
                Some(s) => Some(s@),
                None => None,
            },
        ),
{
    if pkgids.len() == 0 {
        return None;
    }
    let ghost spec_registry: Option<Seq<char>> = match registry {
        Some(s) => Some(s@),
        None => None,
    };
    let ghost spec_target: Option<Seq<char>> = match target {
        Some(s) => Some(s@),
        None => None,
    };
    let mut cmd: Vec<String> = Vec::new();
    push_str(&mut cmd, "publish");
    push_str(&mut cmd, "--manifest-path");
    push_string(&mut cmd, manifest_path.clone());
    if pkgids.len() > 1 {
        push_str(&mut cmd, "-Zpackage-workspace");
    }
    let ghost seg1 = seq!["publish"@, "--manifest-path"@, manifest_path@] + (if views(
        pkgids@,
    ).len() > 1 {
        seq!["-Zpackage-workspace"@]
    } else {
        Seq::<Seq<char>>::empty()
    });
    proof {
        assert(views(cmd@) =~= seg1);
    }
    push_pkgid_args(&mut cmd, pkgids);
    if let Some(r) = registry {
        push_str(&mut cmd, "--registry");
        push_string(&mut cmd, r.clone());
    }
    let ghost seg2 = seg1 + pkgid_args(views(pkgids@)) + opt_args("--registry"@, spec_registry);
    proof {
        assert(views(cmd@) =~= seg2);
    }
    if dry_run {
        push_str(&mut cmd, "--dry-run");
        push_str(&mut cmd, "--allow-dirty");
    }
    if !verify {
        push_str(&mut cmd, "--no-verify");
    }
    if let Some(t) = target {
        push_str(&mut cmd, "--target");
        push_string(&mut cmd, t.clone());
    }
    let ghost seg3 = seg2 + (if dry_run {
        seq!["--dry-run"@, "--allow-dirty"@]
    } else {
        Seq::<Seq<char>>::empty()
    }) + (if !verify {
        seq!["--no-verify"@]
    } else {
        Seq::<Seq<char>>::empty()
    }) + opt_args("--target"@, spec_target);
    proof {
        assert(views(cmd@) =~= seg3);
    }
    push_feature_args(&mut cmd, features);
    proof {
        assert(views(cmd@) =~= seg3 + feature_args(features@));
        assert(views(cmd@) =~= spec_publish_args(
            dry_run,
            verify,
            manifest_path@,
            views(pkgids@),
            features@,
            spec_registry,
            spec_target,
        ));
    }
    Some(cmd)
}

/// Append `--package id` for each package id.
fn push_pkgid_args(cmd: &mut Vec<String>, pkgids: &Vec<String>)
    ensures
        views(final(cmd)@) == views(old(cmd)@) + pkgid_args(views(pkgids@)),
{
    let ghost s1 = views(old(cmd)@);
    let mut i: usize = 0;
    proof {
        assert(views(cmd@) =~= s1 + pkgid_args(views(pkgids@).take(0)));
    }
    while i < pkgids.len()
        invariant
            i <= pkgids@.len(),
            views(cmd@) =~= s1 + pkgid_args(views(pkgids@).take(i as int)),
        decreases pkgids@.len() - i,
    {
        push_str(cmd, "--package");
        push_string(cmd, pkgids[i].clone());
        proof {
            let pv = views(pkgids@);
            assert(pv.take(i + 1).drop_last() =~= pv.take(i as int));
            assert(pv.take(i + 1).last() == pv[i as int]);
            assert(views(cmd@) =~= s1 + pkgid_args(pv.take(i + 1)));
        }
        i = i + 1;
    }
    proof {
        assert(views(pkgids@).take(pkgids@.len() as int) =~= views(pkgids@));
        assert(views(cmd@) =~= s1 + pkgid_args(views(pkgids@)));
    }
}

/// Append the feature-related arguments.
fn push_feature_args(cmd: &mut Vec<String>, features: &Vec<Features>)
    ensures
        views(final(cmd)@) == views(old(cmd)@) + feature_args(features@),
{
    let ghost s0 = views(old(cmd)@);
    if features_any_none(features) {
        push_str(cmd, "--no-default-features");
    }
    if features_any_all(features) {
        push_str(cmd, "--all-features");
    }
    let selective = collect_selective(features);
    let joined = join_strs(&selective, ",");
    proof {
        assert(selective.deep_view() =~= views(selective@));
        assert(joined@ == spec_join(selective_features(features@), ","@));
    }
    if joined.as_str().unicode_len() > 0 {
        push_str(cmd, "--features");
        push_string(cmd, joined);
    }
    proof {
        assert(views(cmd@) =~= s0 + feature_args(features@));
    }
}

/// Append a literal argument.
fn push_str(cmd: &mut Vec<String>, s: &str)
    ensures
        views(final(cmd)@) == views(old(cmd)@).push(s@),
{
    cmd.push(s.to_owned());
    proof {
        lemma_views_push(old(cmd)@, final(cmd)@.last());
        assert(final(cmd)@ =~= old(cmd)@.push(final(cmd)@.last()));
        assert(views(final(cmd)@) =~= views(old(cmd)@).push(s@));
    }
}

/// Append an owned argument.
fn push_string(cmd: &mut Vec<String>, s: String)
    ensures
        views(final(cmd)@) == views(old(cmd)@).push(s@),
{
    let ghost sv = s@;
    cmd.push(s);
    proof {
        lemma_views_push(old(cmd)@, final(cmd)@.last());
        assert(final(cmd)@ =~= old(cmd)@.push(final(cmd)@.last()));
        assert(final(cmd)@.last()@ == sv);
        assert(views(final(cmd)@) =~= views(old(cmd)@).push(sv));
    }
}

/// Whether some entry is `Features::None`.
fn features_any_none(fs: &Vec<Features>) -> (r: bool)
    ensures
        r == any_feature_none(fs@),
{
    let mut i: usize = 0;
    while i < fs.len()
        invariant
            i <= fs@.len(),
            forall|k: int| 0 <= k < i ==> !(fs@[k] is NoDefault),
        decreases fs@.len() - i,
    {
        if matches!(&fs[i], Features::NoDefault) {
            return true;
        }
        i = i + 1;
    }
    false
}

/// Whether some entry is `Features::All`.
fn features_any_all(fs: &Vec<Features>) -> (r: bool)
    ensures
        r == any_feature_all(fs@),
{
    let mut i: usize = 0;
    while i < fs.len()
        invariant
            i <= fs@.len(),
            forall|k: int| 0 <= k < i ==> !(fs@[k] is All),
        decreases fs@.len() - i,
    {
        if matches!(&fs[i], Features::All) {
            return true;
        }
        i = i + 1;
    }
    false
}

/// Flatten the selected feature names, in order.
fn collect_selective(fs: &Vec<Features>) -> (r: Vec<String>)
    ensures
        views(r@) == selective_features(fs@),
{
    let mut out: Vec<String> = Vec::new();
    let mut i: usize = 0;
    while i < fs.len()
        invariant
            i <= fs@.len(),
            views(out@) =~= selective_features(fs@.take(i as int)),
        decreases fs@.len() - i,
    {
        proof {
            assert(fs@.take(i + 1).drop_last() =~= fs@.take(i as int));
            assert(fs@.take(i + 1).last() == fs@[i as int]);
        }
        if let Features::Selective(names) = &fs[i] {
            let mut j: usize = 0;
            let ghost out0 = views(out@);
            while j < names.len()
                invariant
                    j <= names@.len(),
                    views(out@) =~= out0 + views(names@).take(j as int),
                decreases names@.len() - j,
            {
                push_string(&mut out, names[j].clone());
                proof {
                    let nv = views(names@);
                    assert(nv.take(j + 1) =~= nv.take(j as int).push(nv[j as int]));
                    assert(views(out@) =~= out0 + nv.take(j + 1));
                }
                j = j + 1;
            }
            proof {
                assert(views(names@).take(names@.len() as int) =~= views(names@));
            }
        }
        proof {
            assert(views(out@) =~= selective_features(fs@.take(i + 1)));
        }
        i = i + 1;
    }
    proof {
        assert(fs@.take(fs@.len() as int) =~= fs@);
    }
    out
}

/// Whether a version lookup against the registry reported the version as
/// present: only a definite positive answer counts, a missing answer or a
/// failed query counts as not published.
pub fn is_published(lookup: Result<Option<bool>, String>) -> (r: bool)
    ensures
        r == (lookup is Ok && lookup.unwrap() is Some && lookup.unwrap().unwrap()),
{
    match lookup {
        Ok(Some(b)) => b,
        Ok(None) => false,
        Err(_) => false,
    }
}

/// Where a listed package file lives: an absolute entry stands alone, any
/// other is joined under the package directory.
pub open spec fn spec_joined_path(parent: Seq<char>, file: Seq<char>) -> Seq<char> {
    if file.len() > 0 && file[0] == '/' {
        file
    } else if parent.len() == 0 {
        file
    } else {
        parent + "/"@ + file
    }
}

/// Resolve each listed package file against the package directory.
pub fn package_content_paths(parent: &str, files: &Vec<String>) -> (r: Vec<String>)
    ensures
        r@.len() == files@.len(),
        forall|i: int|
            0 <= i < r@.len() ==> #[trigger] r@[i]@ == spec_joined_path(parent@, files@[i]@),
{
    proof {
        reveal_strlit("/");
    }
    let mut out: Vec<String> = Vec::new();
    let mut i: usize = 0;
    while i < files.len()
        invariant
            i <= files@.len(),
            out@.len() == i,
            forall|k: int|
                0 <= k < i ==> #[trigger] out@[k]@ == spec_joined_path(parent@, files@[k]@),
        decreases files@.len() - i,
    {
        let f = &files[i];
        let f_len = f.as_str().unicode_len();
        let absolute = f_len > 0 && f.as_str().get_char(0) == '/';
        if absolute || parent.unicode_len() == 0 {
            out.push(f.clone());
        } else {
            let mut joined = String::new();
            joined.append(parent);
            joined.append("/");
            joined.append(f.as_str());
            out.push(joined);
        }
        i = i + 1;
    }
    out
}

} // verus!
