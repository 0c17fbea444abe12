//! Character-level utilities: converting between `String` and `Vec<char>`,
//! and replacing every occurrence of a pattern inside a character sequence.

use vstd::prelude::*;

verus! {

/// The sequence obtained from `s` by scanning left to right and replacing
/// each occurrence of `pat` with `val`, without overlap: after a match the
/// scan resumes past the matched characters.
pub open spec fn replaced(s: Seq<char>, pat: Seq<char>, val: Seq<char>) -> Seq<char>
    decreases s.len(),
{
    if pat.len() == 0 || s.len() < pat.len() {
        s
    } else if s.subrange(0, pat.len() as int) == pat {
        val + replaced(s.skip(pat.len() as int), pat, val)
    } else {
        seq![s[0]] + replaced(s.skip(1), pat, val)
    }
}

/// `pat` occurs in `s` starting at position `i`.
pub open spec fn occurs_at(s: Seq<char>, pat: Seq<char>, i: int) -> bool {
    0 <= i && i + pat.len() <= s.len() && s.subrange(i, i + pat.len() as int) == pat
}

/// `pat` occurs somewhere in `s`.
pub open spec fn occurs(s: Seq<char>, pat: Seq<char>) -> bool {
    exists|i: int| occurs_at(s, pat, i)
}

/// The characters of `s`, in order, as a vector.
pub fn chars_of(s: &str) -> (r: Vec<char>)
    ensures
        r@ == s@,
{
    let n = s.unicode_len();
    let mut r: Vec<char> = Vec::new();
    let mut i: usize = 0;
    while i < n
        invariant
            i <= n,
            n == s@.len(),
            r@ == s@.take(i as int),
        decreases n - i,
    {
        let c = s.get_char(i);
        r.push(c);
        proof {
            assert(s@.take(i + 1 as int) =~= s@.take(i as int).push(s@[i as int]));
        }
        i = i + 1;
    }
    proof {
        assert(s@.take(n as int) =~= s@);
    }
    r
}

/// Relies on std's `String::push`: appends one character at the end of the
/// string.
#[verifier::external_body]
fn push_char(s: &mut String, c: char)
    ensures
        final(s)@ == old(s)@.push(c),
{
    s.push(c);
}

/// A string holding exactly the characters of `v`, in order.
pub fn string_of_chars(v: &Vec<char>) -> (r: String)
    ensures
        r@ == v@,
{
    let mut r = String::new();
    let mut i: usize = 0;
    while i < v.len()
        invariant
            i <= v.len(),
            r@ == v@.take(i as int),
        decreases v.len() - i,
    {
        push_char(&mut r, v[i]);
        proof {
            assert(v@.take(i + 1 as int) =~= v@.take(i as int).push(v@[i as int]));
        }
        i = i + 1;
    }
    proof {
        assert(v@.take(v.len() as int) =~= v@);
    }
    r
}

/// Whether `pat` occurs in `s` starting at position `i`.
fn match_at(s: &Vec<char>, i: usize, pat: &Vec<char>) -> (r: bool)
    requires
        i + pat.len() <= s.len(),
    ensures
        r <==> occurs_at(s@, pat@, i as int),
{
    let mut j: usize = 0;
    while j < pat.len()
        invariant
            j <= pat.len(),
            i + pat.len() <= s.len(),
            forall|k: int| 0 <= k < j ==> s@[i + k] == pat@[k],
        decreases pat.len() - j,
    {
        if s[i + j] != pat[j] {
            proof {
                assert(s@.subrange(i as int, i + pat@.len()) != pat@) by {
                    assert(s@.subrange(i as int, i + pat@.len())[j as int] == s@[i + j]);
                }
            }
            return false;
        }
        j = j + 1;
    }
    proof {
        assert(s@.subrange(i as int, i + pat@.len()) =~= pat@);
    }
    true
}

/// The characters of `s` with every occurrence of `pat` replaced by `val`,
/// scanning left to right without overlap.
pub fn replace_all(s: &Vec<char>, pat: &Vec<char>, val: &Vec<char>) -> (r: Vec<char>)
    requires
        pat.len() >= 1,
    ensures
        r@ == replaced(s@, pat@, val@),
{
    let mut out: Vec<char> = Vec::new();
    let mut i: usize = 0;
    proof {
        assert(s@.skip(0) =~= s@);
        assert(Seq::<char>::empty() + replaced(s@, pat@, val@) =~= replaced(s@, pat@, val@));
    }
    while i < s.len()
        invariant
            pat@.len() >= 1,
            i <= s.len(),
            replaced(s@, pat@, val@) == out@ + replaced(s@.skip(i as int), pat@, val@),
        decreases s.len() - i,
    {
        let ghost prev = s@.skip(i as int);
        let ghost kept = out@;
        if pat.len() <= s.len() - i && match_at(s, i, pat) {
            out.extend_from_slice(val.as_slice());
            proof {
                assert(prev.subrange(0, pat@.len() as int) =~= s@.subrange(
                    i as int,
                    i + pat@.len(),
                ));
                assert(prev.skip(pat@.len() as int) =~= s@.skip(i + pat@.len()));
                assert(replaced(prev, pat@, val@) == val@ + replaced(
                    s@.skip(i + pat@.len()),
                    pat@,
                    val@,
                ));
            }
            i = i + pat.len();
            proof {
                let rest = replaced(s@.skip(i as int), pat@, val@);
                assert((kept + val@) + rest =~= kept + (val@ + rest));
            }
        } else {
            out.push(s[i]);
            proof {
                assert(prev.len() >= 1);
                assert(prev[0] == s@[i as int]);
                assert(prev.skip(1) =~= s@.skip(i + 1));
                if prev.len() < pat@.len() {
                    assert(prev.skip(1).len() < pat@.len());
                    assert(replaced(prev, pat@, val@) == prev);
                    assert(prev =~= seq![prev[0]] + prev.skip(1));
                } else {
                    assert(prev.subrange(0, pat@.len() as int) =~= s@.subrange(
                        i as int,
                        i + pat@.len(),
                    ));
                    assert(prev.subrange(0, pat@.len() as int) != pat@);
                }
                assert(replaced(prev, pat@, val@) == seq![s@[i as int]] + replaced(
                    s@.skip(i + 1),
                    pat@,
                    val@,
                ));
            }
            i = i + 1;
            proof {
                let rest = replaced(s@.skip(i as int), pat@, val@);
                assert(kept.push(s@[i - 1]) + rest =~= kept + (seq![s@[i - 1]] + rest));
            }
        }
    }
    proof {
        assert(s@.skip(s.len() as int) =~= Seq::<char>::empty());
        assert(replaced(Seq::<char>::empty(), pat@, val@) == Seq::<char>::empty());
        assert(out@ + Seq::<char>::empty() =~= out@);
    }
    out
}

} // verus!
