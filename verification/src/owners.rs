//! Owner maintenance planning: which packages need their owner list
//! reconciled, and which owners are missing from the registry's answer.
//!
//! The surrounding application talks to the registry; the decisions here
//! are pure.

use vstd::prelude::*;

use crate::text::{lex_lt, spec_lex_lt, str_chars};

verus! {

/// One package as the owner step sees it.
pub struct OwnerRequest {
    pub name: String,
    pub publish: bool,
    pub ensure_owners: bool,
    pub owners: Vec<String>,
    pub registry: Option<String>,
}

/// One reconciliation to perform against the registry.
pub struct OwnerTask {
    pub name: String,
    pub owners: Vec<String>,
    pub registry: Option<String>,
}

/// The view of one reconciliation: name, owners, registry.
pub open spec fn task_view(t: OwnerTask) -> (Seq<char>, Seq<Seq<char>>, Option<Seq<char>>) {
    (
        t.name@,
        crate::release::views(t.owners@),
        match t.registry {
            Some(s) => Some(s@),
            None => None,
        },
    )
}

/// The views of a sequence of reconciliations.
pub open spec fn task_views(ts: Seq<OwnerTask>) -> Seq<
    (Seq<char>, Seq<Seq<char>>, Option<Seq<char>>),
> {
    Seq::new(ts.len(), |i: int| task_view(ts[i]))
}

/// The tasks selected from the packages: one per package that is published
/// and asks for owner maintenance, in input order.
pub open spec fn spec_owner_tasks(pkgs: Seq<OwnerRequest>) -> Seq<
    (Seq<char>, Seq<Seq<char>>, Option<Seq<char>>),
>
    decreases pkgs.len(),
{
    if pkgs.len() == 0 {
        Seq::empty()
    } else {
        spec_owner_tasks(pkgs.drop_last()) + {
            let p = pkgs.last();
            if p.publish && p.ensure_owners {
                seq![
                    (
                        p.name@,
                        crate::release::views(p.owners@),
                        match p.registry {
                            Some(s) => Some(s@),
                            None => None,
                        },
                    )
                ]
            } else {
                Seq::empty()
            }
        }
    }
}

/// Select the owner reconciliations to perform: packages that are not
/// published, or that do not ask for owner maintenance, are skipped.
pub fn ensure_owners(pkgs: &Vec<OwnerRequest>) -> (r: Vec<OwnerTask>)
    ensures
        task_views(r@) == spec_owner_tasks(pkgs@),
{
    let mut out: Vec<OwnerTask> = Vec::new();
    let mut i: usize = 0;
    while i < pkgs.len()
        invariant
            i <= pkgs@.len(),
            task_views(out@) =~= spec_owner_tasks(pkgs@.take(i as int)),
        decreases pkgs@.len() - i,
    {
        proof {
            assert(pkgs@.take(i + 1).drop_last() =~= pkgs@.take(i as int));
            assert(pkgs@.take(i + 1).last() == pkgs@[i as int]);
        }
        let p = &pkgs[i];
        if p.publish && p.ensure_owners {
            let owners = clone_strings(&p.owners);
            proof {
                assert(crate::release::views(owners@) =~= crate::release::views(p.owners@));
            }
            out.push(
                OwnerTask {
                    name: p.name.clone(),
                    owners,
                    registry: match &p.registry {
                        Some(r) => Some(r.clone()),
                        None => None,
                    },
                },
            );
        }
        proof {
            assert(task_views(out@) =~= spec_owner_tasks(pkgs@.take(i + 1)));
        }
        i = i + 1;
    }
    proof {
        assert(pkgs@.take(pkgs@.len() as int) =~= pkgs@);
    }
    out
}

/// Clone a vector of strings.
pub fn clone_strings(v: &Vec<String>) -> (r: Vec<String>)
    ensures
        r@ == v@,
{
    let mut out: Vec<String> = Vec::new();
    let mut i: usize = 0;
    while i < v.len()
        invariant
            i <= v@.len(),
            out@ =~= v@.take(i as int),
        decreases v@.len() - i,
    {
        out.push(v[i].clone());
        proof {
            assert(v@.take(i + 1) =~= v@.take(i as int).push(v@[i as int]));
        }
        i = i + 1;
    }
    proof {
        assert(v@.take(v@.len() as int) =~= v@);
        assert(out@ == v@);
    }
    out
}

/// Strictly increasing in lexicographic order: sorted with no duplicates.
pub open spec fn spec_strictly_sorted(s: Seq<Seq<char>>) -> bool {
    forall|i: int, j: int| 0 <= i < j < s.len() ==> spec_lex_lt(#[trigger] s[i], #[trigger] s[j])
}

/// Whether some string in `v` has view `x`.
pub open spec fn spec_has(v: Seq<String>, x: Seq<char>) -> bool {
    exists|k: int| 0 <= k < v.len() && v[k]@ == x
}

proof fn lemma_lex_connex(a: Seq<char>, b: Seq<char>)
    ensures
        a == b || spec_lex_lt(a, b) || spec_lex_lt(b, a),
    decreases a.len(),
{
    if a.len() == 0 || b.len() == 0 {
        if a.len() == 0 && b.len() == 0 {
            assert(a =~= b);
        }
    } else if a[0] == b[0] {
        lemma_lex_connex(a.skip(1), b.skip(1));
        if a.skip(1) == b.skip(1) {
            assert(a.skip(1).len() == b.skip(1).len());
            assert(a.len() == b.len());
            assert forall|k: int| 0 <= k < a.len() implies a[k] == b[k] by {
                if k >= 1 {
                    assert(a.skip(1)[k - 1] == b.skip(1)[k - 1]);
                    assert(a[k] == a.skip(1)[k - 1]);
                    assert(b[k] == b.skip(1)[k - 1]);
                }
            }
            assert(a =~= b);
        }
    } else {
        // distinct first characters: the smaller code point decides
        if !spec_lex_lt(a, b) && !spec_lex_lt(b, a) {
            let x = a[0];
            let y = b[0];
            assert(x as u32 == y as u32);
            vstd::utf8::char_u32_cast(x, x as u32);
            vstd::utf8::char_u32_cast(y, y as u32);
            assert(false);
        }
    }
}

proof fn lemma_lex_trans(a: Seq<char>, b: Seq<char>, c: Seq<char>)
    requires
        spec_lex_lt(a, b),
        spec_lex_lt(b, c),
    ensures
        spec_lex_lt(a, c),
    decreases a.len() + b.len() + c.len(),
{
    if b.len() == 0 {
        // impossible: nothing sorts before the empty sequence
    } else if a.len() == 0 {
        // c is nonempty because b sorts before it
    } else if c.len() > 0 {
        if a[0] == b[0] && b[0] == c[0] {
            lemma_lex_trans(a.skip(1), b.skip(1), c.skip(1));
        }
    }
}

/// Insert `x` into a strictly sorted vector, keeping it strictly sorted;
/// a string already present is not duplicated.
pub fn insert_sorted(out: &mut Vec<String>, x: String)
    requires
        spec_strictly_sorted(crate::release::views(old(out)@)),
    ensures
        spec_strictly_sorted(crate::release::views(final(out)@)),
        forall|y: Seq<char>|
            #[trigger] spec_has(final(out)@, y) <==> spec_has(old(out)@, y) || y == x@,
{
    let xc = str_chars(x.as_str());
    let ghost vs = crate::release::views(old(out)@);
    let mut i: usize = 0;
    while i < out.len() && lex_lt(&str_chars(out[i].as_str()), &xc)
        invariant
            i <= out@.len(),
            out@ == old(out)@,
            vs == crate::release::views(out@),
            xc@ == x@,
            forall|k: int| 0 <= k < i ==> spec_lex_lt(#[trigger] vs[k], x@),
        decreases out@.len() - i,
    {
        i = i + 1;
    }
    if i < out.len() && out[i] == x {
        proof {
            assert(spec_has(out@, x@)) by {
                assert(out@[i as int]@ == x@);
            }
        }
        return ;
    }
    proof {
        if i < out@.len() {
            assert(!spec_lex_lt(vs[i as int], x@));
            lemma_lex_connex(vs[i as int], x@);
            assert(out@[i as int]@ == vs[i as int]);
            assert(vs[i as int] != x@) by {
                if vs[i as int] == x@ {
                    assert(out@[i as int]@ == x@);
                    // the equality test above would have returned
                }
            }
            assert(spec_lex_lt(x@, vs[i as int]));
        }
    }
    out.insert(i, x);
    proof {
        let nvs = crate::release::views(out@);
        assert forall|a: int, b: int| 0 <= a < b < nvs.len() implies spec_lex_lt(
            #[trigger] nvs[a],
            #[trigger] nvs[b],
        ) by {
            if b < i {
                assert(nvs[a] == vs[a] && nvs[b] == vs[b]);
            } else if a < i && b == i {
                assert(nvs[a] == vs[a] && nvs[b] == xc@);
            } else if a < i && b > i {
                assert(nvs[a] == vs[a] && nvs[b] == vs[b - 1]);
                if b - 1 == i {
                    // vs[i] is after x, and vs[a] is before x
                    lemma_lex_trans(vs[a], xc@, vs[i as int]);
                } else {
                    assert(spec_lex_lt(vs[a], vs[b - 1]));
                }
            } else if a == i {
                assert(nvs[a] == xc@ && nvs[b] == vs[b - 1]);
                if b - 1 == i {
                } else {
                    lemma_lex_trans(xc@, vs[i as int], vs[b - 1]);
                }
            } else {
                assert(nvs[a] == vs[a - 1] && nvs[b] == vs[b - 1]);
            }
        }
        assert forall|y: Seq<char>| #[trigger]
            spec_has(out@, y) implies spec_has(old(out)@, y) || y == x@ by {
            let k = choose|k: int| 0 <= k < out@.len() && out@[k]@ == y;
            if k < i {
                assert(old(out)@[k]@ == y);
            } else if k > i {
                assert(old(out)@[k - 1]@ == y);
            }
        }
        assert forall|y: Seq<char>|
            spec_has(old(out)@, y) || y == x@ implies #[trigger] spec_has(out@, y) by {
            if spec_has(old(out)@, y) {
                let k = choose|k: int| 0 <= k < old(out)@.len() && old(out)@[k]@ == y;
                if k < i {
                    assert(out@[k]@ == y);
                } else {
                    assert(out@[k + 1]@ == y);
                }
            } else {
                assert(out@[i as int]@ == y);
            }
        }
    }
}

/// The owners that must be added: the expected owners not reported as
/// current, as a strictly sorted list of distinct names.
pub fn missing_owners(expected: &Vec<String>, current: &Vec<String>) -> (r: Vec<String>)
    ensures
        spec_strictly_sorted(crate::release::views(r@)),
        forall|y: Seq<char>|
            #[trigger] spec_has(r@, y) <==> spec_has(expected@, y) && !spec_has(current@, y),
{
    let mut out: Vec<String> = Vec::new();
    let mut i: usize = 0;
    while i < expected.len()
        invariant
            i <= expected@.len(),
            spec_strictly_sorted(crate::release::views(out@)),
            forall|y: Seq<char>|
                #[trigger] spec_has(out@, y) <==> spec_has(expected@.take(i as int), y)
                    && !spec_has(current@, y),
        decreases expected@.len() - i,
    {
        let e = &expected[i];
        proof {
            assert(expected@.take(i + 1) =~= expected@.take(i as int).push(expected@[i as int]));
            assert forall|y: Seq<char>| #[trigger]
                spec_has(expected@.take(i + 1), y) implies spec_has(expected@.take(i as int), y)
                || y == e@ by {
                let k = choose|k: int|
                    0 <= k < expected@.take(i + 1).len() && (#[trigger] expected@.take(i + 1)[k])@
                        == y;
                if k < i {
                    assert(expected@.take(i as int)[k]@ == y);
                }
            }
            assert(spec_has(expected@.take(i + 1), e@)) by {
                assert(expected@.take(i + 1)[i as int]@ == e@);
            }
            assert forall|y: Seq<char>| #[trigger]
                spec_has(expected@.take(i as int), y) implies spec_has(
                expected@.take(i + 1),
                y,
            ) by {
                let k = choose|k: int|
                    0 <= k < expected@.take(i as int).len() && expected@.take(i as int)[k]@ == y;
                assert(expected@.take(i + 1)[k]@ == y);
            }
        }
        if !contains_string(current, e) {
            insert_sorted(&mut out, e.clone());
        }
        i = i + 1;
    }
    proof {
        assert(expected@.take(expected@.len() as int) =~= expected@);
    }
    out
}

/// Whether `v` holds a string equal to `x`.
pub fn contains_string(v: &Vec<String>, x: &String) -> (r: bool)
    ensures
        r == spec_has(v@, x@),
{
    let mut i: usize = 0;
    while i < v.len()
        invariant
            i <= v@.len(),
            forall|k: int| 0 <= k < i ==> v@[k]@ != x@,
        decreases v@.len() - i,
    {
        if v[i] == *x {
            proof {
                assert(spec_has(v@, x@)) by {
                    assert(v@[i as int]@ == x@);
                }
            }
            return true;
        }
        i = i + 1;
    }
    false
}

} // verus!
