//! Small string helpers: verified character-level conversions, and the few
//! trusted windows onto `std`'s string routines that the library relies on.

use vstd::prelude::*;
use vstd::string::StrSliceExecFns;
use vstd::string::StringExecFns;

verus! {

/// Whether two string slices hold the same characters.
pub fn str_eq(a: &str, b: &str) -> (r: bool)
    ensures
        r == (a@ == b@),
{
    let x = String::from_str(a);
    let y = String::from_str(b);
    x == y
}

/// The characters of `s`, in order, as a vector.
pub fn str_to_chars(s: &str) -> (r: Vec<char>)
    ensures
        r@ == s@,
{
    let n = s.unicode_len();
    let mut r: Vec<char> = Vec::new();
    let mut i: usize = 0;
    while i < n
        invariant
            i <= n,
            n == s@.len(),
            r@ == s@.take(i as int),
        decreases n - i,
    {
        r.push(s.get_char(i));
        i = i + 1;
        proof {
            assert(r@ =~= s@.take(i as int));
        }
    }
    proof {
        assert(s@.take(n as int) =~= s@);
    }
    r
}

/// The string holding exactly the characters of `v`, in order.
pub fn chars_to_string(v: &Vec<char>) -> (r: String)
    ensures
        r@ == v@,
{
    let mut r = String::new();
    let mut i: usize = 0;
    while i < v.len()
        invariant
            i <= v@.len(),
            r@ == v@.take(i as int),
        decreases v@.len() - i,
    {
        push_char(&mut r, v[i]);
        i = i + 1;
        proof {
            assert(r@ =~= v@.take(i as int));
        }
    }
    proof {
        assert(v@.take(v@.len() as int) =~= v@);
    }
    r
}

/// Whether `needle` occurs as a contiguous run of characters inside
/// `haystack` (every string contains the empty one).
pub open spec fn contains_seq(haystack: Seq<char>, needle: Seq<char>) -> bool {
    exists|i: int|
        0 <= i && i + needle.len() <= haystack.len() && #[trigger] haystack.subrange(
            i,
            i + needle.len(),
        ) == needle
}

/// `s` with every non-overlapping occurrence of `from`, found left to
/// right, replaced by `to`.
pub open spec fn replaced(s: Seq<char>, from: Seq<char>, to: Seq<char>) -> Seq<char>
    decreases s.len(),
    when from.len() > 0
{
    if s.len() < from.len() {
        s
    } else if s.take(from.len() as int) == from {
        to + replaced(s.skip(from.len() as int), from, to)
    } else {
        seq![s[0]] + replaced(s.skip(1), from, to)
    }
}

/// Whether the characters of `pat` stand in `s` at position `i`.
#[verifier::loop_isolation(false)]
fn window_eq(s: &Vec<char>, i: usize, pat: &Vec<char>) -> (r: bool)
    requires
        i + pat@.len() <= s@.len(),
    ensures
        r == (s@.subrange(i as int, i as int + pat@.len() as int) == pat@),
{
    let n = s.len();
    let mut j: usize = 0;
    while j < pat.len()
        invariant
            j <= pat@.len(),
            n == s@.len(),
            i + pat@.len() <= n,
            forall|k: int| 0 <= k < j ==> s@[i + k] == pat@[k],
        decreases pat@.len() - j,
    {
        if s[i + j] != pat[j] {
            proof {
                let w = s@.subrange(i as int, i as int + pat@.len() as int);
                assert(w[j as int] != pat@[j as int]);
            }
            return false;
        }
        j = j + 1;
    }
    proof {
        assert(s@.subrange(i as int, i as int + pat@.len() as int) =~= pat@);
    }
    true
}

/// Replaces every occurrence of `from` in `s` by `to`, scanning left to
/// right without overlap.
#[verifier::loop_isolation(false)]
pub fn replace_all(s: &str, from: &str, to: &str) -> (r: String)
    requires
        from@.len() > 0,
    ensures
        r@ == replaced(s@, from@, to@),
{
    let sc = str_to_chars(s);
    let fc = str_to_chars(from);
    let tc = str_to_chars(to);
    let mut out: Vec<char> = Vec::new();
    let mut i: usize = 0;
    proof {
        assert(sc@.skip(0) =~= sc@);
        assert(out@ + replaced(sc@, fc@, tc@) =~= replaced(sc@, fc@, tc@));
    }
    while i < sc.len()
        invariant
            i <= sc@.len(),
            replaced(s@, from@, to@) == out@ + replaced(sc@.skip(i as int), fc@, tc@),
        decreases sc@.len() - i,
    {
        let ghost rem = sc@.skip(i as int);
        if fc.len() <= sc.len() - i && window_eq(&sc, i, &fc) {
            proof {
                assert(rem.take(fc@.len() as int) =~= sc@.subrange(
                    i as int,
                    i as int + fc@.len() as int,
                ));
                assert(rem.skip(fc@.len() as int) =~= sc@.skip(i as int + fc@.len() as int));
            }
            let mut k: usize = 0;
            let ghost out0 = out@;
            while k < tc.len()
                invariant
                    k <= tc@.len(),
                    out@ == out0 + tc@.take(k as int),
                decreases tc@.len() - k,
            {
                out.push(tc[k]);
                proof {
                    assert(out@ =~= out0 + tc@.take(k as int + 1));
                }
                k = k + 1;
            }
            proof {
                assert(tc@.take(tc@.len() as int) =~= tc@);
                assert(out0 + tc@ + replaced(sc@.skip(i as int + fc@.len() as int), fc@, tc@)
                    =~= out0 + (tc@ + replaced(sc@.skip(i as int + fc@.len() as int), fc@, tc@)));
            }
            i = i + fc.len();
        } else {
            proof {
                if rem.len() >= fc@.len() {
                    assert(rem.take(fc@.len() as int) =~= sc@.subrange(
                        i as int,
                        i as int + fc@.len() as int,
                    ));
                }
                assert(rem.skip(1) =~= sc@.skip(i as int + 1));
            }
            out.push(sc[i]);
            proof {
                assert(out@ + replaced(sc@.skip(i as int + 1), fc@, tc@) =~= out@.take(out@.len()
                    - 1) + (seq![rem[0]] + replaced(sc@.skip(i as int + 1), fc@, tc@)));
            }
            i = i + 1;
        }
    }
    proof {
        assert(sc@.skip(sc@.len() as int) =~= Seq::<char>::empty());
        assert(out@ + Seq::<char>::empty() =~= out@);
    }
    chars_to_string(&out)
}

/// Relies on `String::push`: appends the one character at the end.
#[verifier::external_body]
pub(crate) fn push_char(s: &mut String, c: char)
    ensures
        final(s)@ == old(s)@.push(c),
{
    s.push(c)
}

/// What `str::to_lowercase` returns: a function of the characters alone.
pub uninterp spec fn lower_of(s: Seq<char>) -> Seq<char>;

/// Relies on `str::to_lowercase`: the result depends only on the
/// characters of the input, and an empty input stays empty.
#[verifier::external_body]
pub(crate) fn to_lowercase(s: &str) -> (r: String)
    ensures
        r@ == lower_of(s@),
        s@.len() == 0 ==> r@.len() == 0,
{
    s.to_lowercase()
}

/// What `str::to_uppercase` returns: a function of the characters alone.
pub uninterp spec fn upper_of(s: Seq<char>) -> Seq<char>;

/// Relies on `str::to_uppercase`: the result depends only on the
/// characters of the input, and an empty input stays empty.
#[verifier::external_body]
pub(crate) fn to_uppercase(s: &str) -> (r: String)
    ensures
        r@ == upper_of(s@),
        s@.len() == 0 ==> r@.len() == 0,
{
    s.to_uppercase()
}

/// Relies on `str::contains` with a string pattern: true exactly when the
/// pattern matches a sub-slice of the string.
#[verifier::external_body]
pub(crate) fn str_contains(haystack: &str, needle: &str) -> (r: bool)
    ensures
        r == contains_seq(haystack@, needle@),
{
    haystack.contains(needle)
}

/// What `char::is_whitespace` returns: a property of the character alone.
pub uninterp spec fn is_space(c: char) -> bool;

/// Relies on `char::is_whitespace`, defined by Unicode's `White_Space`
/// property: the plain space character has it, and the ASCII letters,
/// digits and the path and word punctuation named below do not.
#[verifier::external_body]
pub(crate) fn char_is_whitespace(c: char) -> (r: bool)
    ensures
        r == is_space(c),
        c == ' ' ==> r,
        (48 <= c as u32 <= 57 || 65 <= c as u32 <= 90 || 97 <= c as u32 <= 122) ==> !r,
        (c == '/' || c == '.' || c == '-' || c == ',') ==> !r,
{
    c.is_whitespace()
}

} // verus!
