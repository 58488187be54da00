//! Verified text utilities: literal search-and-replace, lexicographic
//! comparison, and joining, over character sequences.

use vstd::prelude::*;

verus! {

/// Relies on str::chars collecting into a vector: the characters of the
/// string, in order, which is exactly the string's view.
#[verifier::external_body]
pub fn str_chars(s: &str) -> (r: Vec<char>)
    ensures
        r@ == s@,
{
    s.chars().collect()
}

/// Relies on String collecting from an iterator of characters: the resulting
/// string holds exactly those characters, in order.
#[verifier::external_body]
pub fn chars_string(v: &Vec<char>) -> (r: String)
    ensures
        r@ == v@,
{
    v.iter().collect()
}

/// `s` with every non-overlapping occurrence of `pat`, found left to right,
/// replaced by `rep`. When `pat` is empty the input is returned unchanged.
pub open spec fn spec_replace(s: Seq<char>, pat: Seq<char>, rep: Seq<char>) -> Seq<char>
    decreases s.len(),
{
    if pat.len() == 0 || s.len() < pat.len() {
        s
    } else if s.take(pat.len() as int) == pat {
        rep + spec_replace(s.skip(pat.len() as int), pat, rep)
    } else {
        seq![s[0]] + spec_replace(s.skip(1), pat, rep)
    }
}

/// Whether `pat` occurs in `s` starting at `i`.
fn matches_at(s: &Vec<char>, pat: &Vec<char>, i: usize) -> (r: bool)
    requires
        i + pat@.len() <= s@.len(),
    ensures
        r == (s@.skip(i as int).take(pat@.len() as int) == pat@),
{
    let ghost sub = s@.skip(i as int).take(pat@.len() as int);
    let n = s.len();
    let mut j: usize = 0;
    while j < pat.len()
        invariant
            n == s@.len(),
            i + pat@.len() <= s@.len(),
            j <= pat@.len(),
            sub == s@.skip(i as int).take(pat@.len() as int),
            forall|k: int| 0 <= k < j ==> s@[i + k] == pat@[k],
        decreases pat@.len() - j,
    {
        if s[i + j] != pat[j] {
            proof {
                assert(sub[j as int] == s@[i + j]);
                assert(sub != pat@) by {
                    assert(sub[j as int] != pat@[j as int]);
                }
            }
            return false;
        }
        j = j + 1;
    }
    proof {
        assert(sub =~= pat@) by {
            assert(forall|k: int| 0 <= k < pat@.len() ==> sub[k] == s@[i + k]);
        }
    }
    true
}

/// Replace every non-overlapping occurrence of `pat` in `s` by `rep`,
/// scanning left to right.
pub fn replace_all(s: &Vec<char>, pat: &Vec<char>, rep: &Vec<char>) -> (r: Vec<char>)
    requires
        pat@.len() > 0,
    ensures
        r@ == spec_replace(s@, pat@, rep@),
{
    let mut out: Vec<char> = Vec::new();
    proof {
        assert(s@.skip(0) =~= s@);
        assert(Seq::<char>::empty() + spec_replace(s@, pat@, rep@) =~= spec_replace(
            s@,
            pat@,
            rep@,
        ));
    }
    let mut i: usize = 0;
    while i < s.len()
        invariant
            pat@.len() > 0,
            i <= s@.len(),
            out@ + spec_replace(s@.skip(i as int), pat@, rep@) == spec_replace(s@, pat@, rep@),
        decreases s@.len() - i,
    {
        let ghost rest = s@.skip(i as int);
        let ghost out0 = out@;
        if pat.len() <= s.len() - i && matches_at(s, pat, i) {
            let mut j: usize = 0;
            while j < rep.len()
                invariant
                    j <= rep@.len(),
                    out@ == out0 + rep@.take(j as int),
                decreases rep@.len() - j,
            {
                out.push(rep[j]);
                proof {
                    assert(rep@.take(j + 1) =~= rep@.take(j as int).push(rep@[j as int]));
                    assert(out@ =~= out0 + rep@.take(j + 1));
                }
                j = j + 1;
            }
            proof {
                assert(rep@.take(rep@.len() as int) =~= rep@);
                assert(rest.take(pat@.len() as int) == pat@);
                assert(spec_replace(rest, pat@, rep@) == rep@ + spec_replace(
                    rest.skip(pat@.len() as int),
                    pat@,
                    rep@,
                ));
                assert(rest.skip(pat@.len() as int) =~= s@.skip(i + pat@.len()));
                assert(out@ + spec_replace(s@.skip(i + pat@.len()), pat@, rep@) =~= out0
                    + spec_replace(rest, pat@, rep@));
            }
            i = i + pat.len();
        } else {
            proof {
                if i + pat@.len() <= s@.len() {
                    assert(rest.take(pat@.len() as int) != pat@);
                } else {
                    assert(rest.len() < pat@.len());
                }
                if rest.len() >= pat@.len() {
                    assert(spec_replace(rest, pat@, rep@) == seq![rest[0]] + spec_replace(
                        rest.skip(1),
                        pat@,
                        rep@,
                    ));
                } else {
                    assert(rest.len() < pat@.len());
                    assert(spec_replace(rest, pat@, rep@) == rest);
                    assert(rest.len() > 0);
                    assert(rest =~= seq![rest[0]] + rest.skip(1));
                    assert(spec_replace(rest.skip(1), pat@, rep@) == rest.skip(1));
                }
                assert(rest[0] == s@[i as int]);
                assert(rest.skip(1) =~= s@.skip(i + 1));
            }
            out.push(s[i]);
            proof {
                assert(out@ + spec_replace(s@.skip(i + 1), pat@, rep@) =~= out0 + (seq![rest[0]]
                    + spec_replace(rest.skip(1), pat@, rep@)));
            }
            i = i + 1;
        }
    }
    proof {
        assert(s@.skip(s@.len() as int) =~= Seq::<char>::empty());
        assert(spec_replace(Seq::<char>::empty(), pat@, rep@) =~= Seq::<char>::empty());
        assert(out@ =~= out@ + Seq::<char>::empty());
    }
    out
}

/// Strict lexicographic order on character sequences, by code point.
pub open spec fn spec_lex_lt(a: Seq<char>, b: Seq<char>) -> bool
    decreases a.len(),
{
    if b.len() == 0 {
        false
    } else if a.len() == 0 {
        true
    } else if a[0] != b[0] {
        (a[0] as u32) < (b[0] as u32)
    } else {
        spec_lex_lt(a.skip(1), b.skip(1))
    }
}

/// Whether `a` sorts strictly before `b`, by code point.
pub fn lex_lt(a: &Vec<char>, b: &Vec<char>) -> (r: bool)
    ensures
        r == spec_lex_lt(a@, b@),
{
    proof {
        assert(a@.skip(0) =~= a@);
        assert(b@.skip(0) =~= b@);
    }
    let mut i: usize = 0;
    while i < a.len() && i < b.len()
        invariant
            i <= a@.len(),
            i <= b@.len(),
            spec_lex_lt(a@, b@) == spec_lex_lt(a@.skip(i as int), b@.skip(i as int)),
        decreases a@.len() - i,
    {
        let ca = a[i];
        let cb = b[i];
        proof {
            let ra = a@.skip(i as int);
            let rb = b@.skip(i as int);
            assert(ra[0] == a@[i as int] && rb[0] == b@[i as int]);
            if ca == cb {
                assert(ra.skip(1) =~= a@.skip(i + 1));
                assert(rb.skip(1) =~= b@.skip(i + 1));
            }
        }
        if ca != cb {
            return (ca as u32) < (cb as u32);
        }
        i = i + 1;
    }
    proof {
        let ra = a@.skip(i as int);
        let rb = b@.skip(i as int);
        assert(ra.len() == 0 || rb.len() == 0);
    }
    a.len() < b.len()
}

/// The parts joined with `sep` between consecutive parts.
pub open spec fn spec_join(parts: Seq<Seq<char>>, sep: Seq<char>) -> Seq<char>
    decreases parts.len(),
{
    if parts.len() == 0 {
        Seq::empty()
    } else if parts.len() == 1 {
        parts[0]
    } else {
        spec_join(parts.drop_last(), sep) + sep + parts.last()
    }
}

/// Join owned strings with a separator.
pub fn join_strs(parts: &Vec<String>, sep: &str) -> (r: String)
    ensures
        r@ == spec_join(parts.deep_view(), sep@),
{
    let mut out = String::new();
    let mut i: usize = 0;
    while i < parts.len()
        invariant
            i <= parts@.len(),
            parts.deep_view().len() == parts@.len(),
            out@ == spec_join(parts.deep_view().take(i as int), sep@),
            forall|k: int|
                0 <= k < parts@.len() ==> parts.deep_view()[k] == #[trigger] parts@[k]@,
        decreases parts@.len() - i,
    {
        if i > 0 {
            out.append(sep);
        }
        out.append(parts[i].as_str());
        proof {
            let dv = parts.deep_view();
            assert(dv.take(i + 1).drop_last() =~= dv.take(i as int));
            assert(dv.take(i + 1).last() == dv[i as int]);
            if i == 0 {
                assert(dv.take(1).len() == 1);
            }
        }
        i = i + 1;
    }
    proof {
        assert(parts.deep_view().take(parts@.len() as int) =~= parts.deep_view());
    }
    out
}

} // verus!
