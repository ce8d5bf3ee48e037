//! Character-level text helpers shared by the codec, the executor and the
//! protocol: conversions between `String` and `Vec<char>`, and verified
//! placeholder substitution.

use vstd::prelude::*;

verus! {

/// Relies on `str::chars`: yields exactly the characters of the string,
/// in order.
#[verifier::external_body]
pub fn chars_of(s: &str) -> (r: Vec<char>)
    ensures
        r@ == s@,
{
    s.chars().collect()
}

/// Relies on `String: FromIterator<&char>`: collects exactly the given
/// characters, in order, into a string.
#[verifier::external_body]
pub fn string_from_chars(v: &Vec<char>) -> (r: String)
    ensures
        r@ == v@,
{
    v.iter().collect()
}

/// The pattern `pat` occurs in `s` at position `i`.
pub open spec fn matches_at(s: Seq<char>, i: int, pat: Seq<char>) -> bool {
    0 <= i && i + pat.len() <= s.len() && s.subrange(i, i + pat.len()) == pat
}

/// Every occurrence of `pat` in `s`, scanned left to right without overlap,
/// replaced by `rep`; the identity when `pat` is empty.
pub open spec fn spec_replace_all(s: Seq<char>, pat: Seq<char>, rep: Seq<char>) -> Seq<char>
    decreases s.len(),
{
    if pat.len() == 0 || s.len() < pat.len() {
        s
    } else if s.take(pat.len() as int) == pat {
        rep + spec_replace_all(s.skip(pat.len() as int), pat, rep)
    } else {
        seq![s[0]] + spec_replace_all(s.skip(1), pat, rep)
    }
}

/// `pat` occurs in `s` at position `i` (executable check).
fn matches_here(s: &Vec<char>, i: usize, pat: &Vec<char>) -> (r: bool)
    requires
        i <= s@.len(),
    ensures
        r == matches_at(s@, i as int, pat@),
{
    if s.len() - i < pat.len() {
        assert(!matches_at(s@, i as int, pat@));
        return false;
    }
    let mut j: usize = 0;
    while j < pat.len()
        invariant
            i + pat@.len() <= s@.len(),
            s@.len() <= usize::MAX,
            j <= pat@.len(),
            forall|k: int| 0 <= k < j ==> s@[i + k] == pat@[k],
        decreases pat@.len() - j,
    {
        if s[i + j] != pat[j] {
            assert(!matches_at(s@, i as int, pat@)) by {
                if s@.subrange(i as int, i + pat@.len()) == pat@ {
                    assert(s@.subrange(i as int, i + pat@.len())[j as int] == s@[i + j]);
                }
            }
            return false;
        }
        j += 1;
    }
    assert(s@.subrange(i as int, i + pat@.len()) =~= pat@);
    true
}

/// Every occurrence of `pat` in `s` replaced by `rep`, scanning left to
/// right without overlap.
pub fn replace_all(s: &str, pat: &str, rep: &str) -> (r: String)
    requires
        pat@.len() >= 1,
    ensures
        r@ == spec_replace_all(s@, pat@, rep@),
{
    let sc = chars_of(s);
    let pc = chars_of(pat);
    let rc = chars_of(rep);
    let mut out: Vec<char> = Vec::new();
    let mut i: usize = 0;
    proof {
        assert(s@.skip(0) =~= s@);
        assert(out@ + spec_replace_all(s@, pat@, rep@) =~= spec_replace_all(
            s@,
            pat@,
            rep@,
        ));
    }
    while i < sc.len()
        invariant
            sc@ == s@,
            pc@ == pat@,
            rc@ == rep@,
            pat@.len() >= 1,
            i <= sc@.len(),
            spec_replace_all(s@, pat@, rep@) == out@ + spec_replace_all(
                s@.skip(i as int),
                pat@,
                rep@,
            ),
        decreases sc@.len() - i,
    {
        if matches_here(&sc, i, &pc) {
            let ghost out0 = out@;
            let mut k: usize = 0;
            while k < rc.len()
                invariant
                    rc@ == rep@,
                    k <= rc@.len(),
                    out@ == out0 + rep@.take(k as int),
                decreases rc@.len() - k,
            {
                let c = rc[k];
                out.push(c);
                k += 1;
                assert(rep@.take(k as int) =~= rep@.take(k - 1) + seq![rep@[k - 1]]);
            }
            assert(out@ == out0 + rep@) by {
                assert(rep@.take(rc@.len() as int) =~= rep@);
            }
            proof {
                let rest = s@.skip(i as int);
                assert(rest.take(pat@.len() as int) =~= s@.subrange(
                    i as int,
                    i + pat@.len(),
                ));
                assert(rest.skip(pat@.len() as int) =~= s@.skip(i + pat@.len()));
            }
            i += pc.len();
        } else {
            let c = sc[i];
            out.push(c);
            proof {
                let rest = s@.skip(i as int);
                if rest.len() >= pat@.len() {
                    assert(rest.take(pat@.len() as int) =~= s@.subrange(
                        i as int,
                        i + pat@.len(),
                    ));
                    assert(rest.take(pat@.len() as int) != pat@);
                }
                assert(seq![rest[0]] =~= seq![s@[i as int]]);
                assert(rest.skip(1) =~= s@.skip(i + 1));
                assert(spec_replace_all(rest, pat@, rep@) == seq![s@[i as int]]
                    + spec_replace_all(s@.skip(i + 1), pat@, rep@));
            }
            i += 1;
        }
    }
    proof {
        assert(s@.skip(s@.len() as int) =~= Seq::<char>::empty());
        assert(spec_replace_all(Seq::<char>::empty(), pat@, rep@)
            == Seq::<char>::empty());
        assert(out@ + Seq::<char>::empty() =~= out@);
    }
    string_from_chars(&out)
}

} // verus!
