//! String metrics: reversal, vowel count and the palindrome test.

use vstd::prelude::*;
use crate::chars::{alnum, ascii_lower, chars_of, is_alnum, lower_of, lowercase, string_of, to_ascii_lower};

verus! {

/// A vowel in either case: its ASCII lower-case form is one of `a e i o u`.
pub open spec fn is_vowel(c: char) -> bool {
    let l = ascii_lower(c);
    l == 'a' || l == 'e' || l == 'i' || l == 'o' || l == 'u'
}

/// How many characters of `s` are vowels.
pub open spec fn vowel_count(s: Seq<char>) -> nat
    decreases s.len(),
{
    if s.len() == 0 {
        0
    } else {
        vowel_count(s.drop_last()) + if is_vowel(s.last()) { 1nat } else { 0nat }
    }
}

/// The alphanumeric characters of `s`, in order.
pub open spec fn alnum_only(s: Seq<char>) -> Seq<char>
    decreases s.len(),
{
    if s.len() == 0 {
        Seq::empty()
    } else if is_alnum(s.last()) {
        alnum_only(s.drop_last()).push(s.last())
    } else {
        alnum_only(s.drop_last())
    }
}

/// The alphanumeric characters of `s`, lower-cased.
pub open spec fn cleaned(s: Seq<char>) -> Seq<char> {
    lower_of(alnum_only(s))
}

/// `s` reads the same both ways once cleaned.
pub open spec fn palindrome(s: Seq<char>) -> bool {
    cleaned(s) == cleaned(s).reverse()
}

/// The characters of `s` in reverse order.
pub fn reverse_string(s: &str) -> (r: String)
    ensures
        r@ == s@.reverse(),
{
    let v = chars_of(s);
    let n = v.len();
    let mut out: Vec<char> = Vec::with_capacity(n);
    let mut i: usize = 0;
    while i < n
        invariant
            v@ == s@,
            n == v@.len(),
            i <= n,
            out@ =~= Seq::new(i as nat, |k: int| v@[n - 1 - k]),
        decreases n - i,
    {
        out.push(v[n - 1 - i]);
        i = i + 1;
    }
    assert(out@ =~= s@.reverse());
    string_of(out.as_slice())
}

/// The number of vowels in `s`, case-insensitively.
pub fn count_vowels(s: &str) -> (r: usize)
    ensures
        r == vowel_count(s@),
{
    let v = chars_of(s);
    let mut count: usize = 0;
    let mut i: usize = 0;
    while i < v.len()
        invariant
            v@ == s@,
            i <= v@.len(),
            count == vowel_count(v@.subrange(0, i as int)),
            count <= i,
        decreases v@.len() - i,
    {
        let c = to_ascii_lower(v[i]);
        assert(v@.subrange(0, i + 1).drop_last() =~= v@.subrange(0, i as int));
        if c == 'a' || c == 'e' || c == 'i' || c == 'o' || c == 'u' {
            count = count + 1;
        }
        i = i + 1;
    }
    assert(v@.subrange(0, v@.len() as int) =~= v@);
    count
}

/// Whether `s` is a palindrome once non-alphanumeric characters are dropped and
/// the rest is lower-cased. A string with nothing left is a palindrome.
pub fn is_palindrome(s: &str) -> (r: bool)
    ensures
        r == palindrome(s@),
{
    let v = chars_of(s);
    let mut kept: Vec<char> = Vec::new();
    let mut i: usize = 0;
    while i < v.len()
        invariant
            v@ == s@,
            i <= v@.len(),
            kept@ == alnum_only(v@.subrange(0, i as int)),
        decreases v@.len() - i,
    {
        assert(v@.subrange(0, i + 1).drop_last() =~= v@.subrange(0, i as int));
        let c = v[i];
        if alnum(c) {
            kept.push(c);
        }
        i = i + 1;
    }
    assert(v@.subrange(0, v@.len() as int) =~= v@);
    let lowered = lowercase(string_of(kept.as_slice()).as_str());
    let clean = chars_of(lowered.as_str());
    let n = clean.len();
    let mut j: usize = 0;
    while j < n / 2
        invariant
            clean@ == cleaned(s@),
            n == clean@.len(),
            j <= n / 2,
            forall|k: int| 0 <= k < j ==> #[trigger] clean@[k] == clean@[n - 1 - k],
        decreases n / 2 - j,
    {
        if clean[j] != clean[n - 1 - j] {
            assert(clean@.reverse()[n - 1 - j as int] == clean@[j as int]);
            return false;
        }
        j = j + 1;
    }
    assert(clean@ =~= clean@.reverse()) by {
        assert forall|k: int| 0 <= k < n implies clean@.reverse()[k] == clean@[k] by {
            if k >= n / 2 {
                assert(clean@[n - 1 - k] == clean@[k]) by {
                    if n - 1 - k < n / 2 {
                        assert(clean@[n - 1 - k] == clean@[n - 1 - (n - 1 - k)]);
                    }
                }
            }
        }
    }
    true
}

/// The three metrics of one string, side by side.
pub struct TestResult {
    pub reversed: String,
    pub vowels: usize,
    pub is_palindrome: bool,
}

/// All three metrics of `s`; this never fails.
pub fn run_tests(s: &str) -> (r: Result<TestResult, String>)
    ensures
        r is Ok,
        r matches Ok(t) ==> t.reversed@ == s@.reverse() && t.vowels == vowel_count(s@)
            && t.is_palindrome == palindrome(s@),
{
    Ok(TestResult { reversed: reverse_string(s), vowels: count_vowels(s), is_palindrome: is_palindrome(s) })
}

/// Reversing twice gives the string back.
pub proof fn reverse_involution(s: Seq<char>)
    ensures
        s.reverse().reverse() == s,
{
    assert(s.reverse().reverse() =~= s);
}

} // verus!
