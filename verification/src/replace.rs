//! Global substring replacement, specified character by character: the
//! shorthand transform is built out of this one operation.

use vstd::prelude::*;

verus! {

/// `pat` occurs in `s` starting at position `i`.
pub open spec fn occurs_at(s: Seq<char>, pat: Seq<char>, i: int) -> bool {
    0 <= i && i + pat.len() <= s.len() && s.subrange(i, i + pat.len() as int) == pat
}

/// `pat` occurs somewhere in `s`.
pub open spec fn contains_pat(s: Seq<char>, pat: Seq<char>) -> bool {
    exists|i: int| occurs_at(s, pat, i)
}

/// The result of replacing, left to right and without overlap, every
/// occurrence of `pat` in `s` by `sub`. An empty pattern matches nothing.
pub open spec fn spec_replace(s: Seq<char>, pat: Seq<char>, sub: Seq<char>) -> Seq<char>
    decreases s.len(),
{
    if pat.len() == 0 || s.len() < pat.len() {
        s
    } else if s.subrange(0, pat.len() as int) == pat {
        sub + spec_replace(s.subrange(pat.len() as int, s.len() as int), pat, sub)
    } else {
        seq![s[0]] + spec_replace(s.subrange(1, s.len() as int), pat, sub)
    }
}

/// Replacing a pattern that does not occur leaves the string unchanged.
pub proof fn lemma_replace_absent(s: Seq<char>, pat: Seq<char>, sub: Seq<char>)
    requires
        pat.len() >= 1,
        !contains_pat(s, pat),
    ensures
        spec_replace(s, pat, sub) == s,
    decreases s.len(),
{
    if s.len() < pat.len() {
    } else {
        assert(!occurs_at(s, pat, 0));
        assert(s.subrange(0, pat.len() as int) != pat);
        let tail = s.subrange(1, s.len() as int);
        assert forall|i: int| !occurs_at(tail, pat, i) by {
            if occurs_at(tail, pat, i) {
                assert(s.subrange(i + 1, i + 1 + pat.len() as int) =~= tail.subrange(
                    i,
                    i + pat.len() as int,
                ));
                assert(occurs_at(s, pat, i + 1));
            }
        }
        lemma_replace_absent(tail, pat, sub);
        assert(seq![s[0]] + tail =~= s);
    }
}

/// Whether `pat` occurs in `s` at position `i`.
fn match_at(s: &str, pat: &str, i: usize) -> (r: bool)
    requires
        i + pat@.len() <= s@.len(),
        s@.len() <= usize::MAX as nat,
    ensures
        r == occurs_at(s@, pat@, i as int),
{
    let p = pat.unicode_len();
    let mut j: usize = 0;
    while j < p
        invariant
            j <= p,
            p == pat@.len(),
            i + p <= s@.len() <= usize::MAX as nat,
            forall|k: int| 0 <= k < j ==> s@[i + k] == pat@[k],
        decreases p - j,
    {
        if s.get_char(i + j) != pat.get_char(j) {
            proof {
                assert(s@.subrange(i as int, i + p as int)[j as int] != pat@[j as int]);
            }
            return false;
        }
        j = j + 1;
    }
    proof {
        assert(s@.subrange(i as int, i + p as int) =~= pat@);
    }
    true
}

/// Replace every occurrence of `pat` in `s` by `sub`, left to right.
pub fn replace(s: &str, pat: &str, sub: &str) -> (r: String)
    requires
        pat@.len() >= 1,
    ensures
        r@ == spec_replace(s@, pat@, sub@),
{
    let n = s.unicode_len();
    let p = pat.unicode_len();
    let mut out = String::new();
    let mut i: usize = 0;
    proof {
        assert(s@.subrange(0, n as int) =~= s@);
    }
    while i < n
        invariant
            i <= n,
            n == s@.len(),
            s@.len() <= usize::MAX as nat,
            p == pat@.len(),
            p >= 1,
            out@ + spec_replace(s@.subrange(i as int, n as int), pat@, sub@) == spec_replace(
                s@,
                pat@,
                sub@,
            ),
        decreases n - i,
    {
        let ghost suf = s@.subrange(i as int, n as int);
        if p <= n - i && match_at(s, pat, i) {
            out.append(sub);
            proof {
                assert(suf.subrange(0, p as int) =~= s@.subrange(i as int, i + p as int));
                assert(suf.subrange(p as int, suf.len() as int) =~= s@.subrange(
                    (i + p) as int,
                    n as int,
                ));
                assert(spec_replace(suf, pat@, sub@) == sub@ + spec_replace(
                    s@.subrange((i + p) as int, n as int),
                    pat@,
                    sub@,
                ));
            }
            i = i + p;
        } else {
            let c = s.substring_char(i, i + 1);
            out.append(c);
            proof {
                assert(c@ =~= seq![s@[i as int]]);
                let rest = s@.subrange(i + 1, n as int);
                if suf.len() < p {
                    assert(spec_replace(suf, pat@, sub@) == suf);
                    assert(spec_replace(rest, pat@, sub@) == rest);
                    assert(suf =~= seq![s@[i as int]] + rest);
                } else {
                    assert(suf.subrange(0, p as int) =~= s@.subrange(i as int, i + p as int));
                    assert(!occurs_at(s@, pat@, i as int));
                    assert(suf.subrange(0, p as int) != pat@);
                    assert(suf.subrange(1, suf.len() as int) =~= rest);
                    assert(spec_replace(suf, pat@, sub@) == seq![suf[0]] + spec_replace(
                        rest,
                        pat@,
                        sub@,
                    ));
                }
            }
            i = i + 1;
        }
    }
    proof {
        assert(s@.subrange(n as int, n as int) =~= Seq::<char>::empty());
        assert(spec_replace(Seq::<char>::empty(), pat@, sub@) == Seq::<char>::empty());
        assert(out@ + Seq::<char>::empty() =~= out@);
    }
    out
}

} // verus!
