//! A purely syntactic e-mail heuristic. A `true` result says nothing about
//! whether the address exists or conforms to the RFCs.

use vstd::prelude::*;
use crate::chars::chars_of;

verus! {

/// `s` holds the character `c` somewhere.
pub open spec fn has_char(s: Seq<char>, c: char) -> bool {
    exists|i: int| 0 <= i < s.len() && s[i] == c
}

/// The heuristic: an `@`, a `.`, and more than five bytes of UTF-8 in all.
pub open spec fn plausible_email(s: &str) -> bool {
    has_char(s@, '@') && has_char(s@, '.') && s.len() > 5
}

/// Whether `email` holds an `@` and a `.` and is longer than five bytes.
pub fn validate_email(email: &str) -> (r: bool)
    ensures
        r == plausible_email(email),
{
    let v = chars_of(email);
    let mut at = false;
    let mut dot = false;
    let mut i: usize = 0;
    while i < v.len()
        invariant
            v@ == email@,
            i <= v@.len(),
            at == has_char(v@.subrange(0, i as int), '@'),
            dot == has_char(v@.subrange(0, i as int), '.'),
        decreases v@.len() - i,
    {
        let c = v[i];
        proof {
            let pre = v@.subrange(0, i as int);
            let next = v@.subrange(0, i + 1);
            assert(next[i as int] == c);
            assert forall|k: int| 0 <= k < i implies next[k] == pre[k] by {}
            if has_char(pre, '@') {
                let k = choose|k: int| 0 <= k < pre.len() && pre[k] == '@';
                assert(next[k] == '@');
            }
            if has_char(pre, '.') {
                let k = choose|k: int| 0 <= k < pre.len() && pre[k] == '.';
                assert(next[k] == '.');
            }
            if has_char(next, '@') && c != '@' {
                let k = choose|k: int| 0 <= k < next.len() && next[k] == '@';
                assert(pre[k] == '@');
            }
            if has_char(next, '.') && c != '.' {
                let k = choose|k: int| 0 <= k < next.len() && next[k] == '.';
                assert(pre[k] == '.');
            }
        }
        if c == '@' {
            at = true;
        }
        if c == '.' {
            dot = true;
        }
        i = i + 1;
    }
    assert(v@.subrange(0, v@.len() as int) =~= v@);
    at && dot && email.len() > 5
}

} // verus!
