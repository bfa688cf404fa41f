//! Reading a board size written as `"<width>,<height>"`.
//!
//! The text is read as its UTF-8 bytes. Digits and the comma are one byte
//! each there, and no byte of any other character is a digit or a comma.

use vstd::prelude::*;
use vstd::string::StringSliceAdditionalSpecFns;

verus! {

pub open spec fn is_digit(b: u8) -> bool {
    48 <= b <= 57
}

pub open spec fn all_digits(s: Seq<u8>) -> bool {
    forall|i: int| 0 <= i < s.len() ==> is_digit(#[trigger] s[i])
}

/// The value of a run of decimal digits.
pub open spec fn digits_value(s: Seq<u8>) -> nat
    decreases s.len(),
{
    if s.len() == 0 {
        0
    } else {
        digits_value(s.drop_last()) * 10 + (s.last() - 48) as nat
    }
}

/// The number that `s` spells: a nonempty run of digits whose value fits a `usize`.
pub open spec fn spec_number(s: Seq<u8>) -> Option<usize> {
    if s.len() > 0 && all_digits(s) && digits_value(s) <= usize::MAX {
        Some(digits_value(s) as usize)
    } else {
        None
    }
}

/// `k` is the index of the first comma of `s`.
pub open spec fn is_first_comma(s: Seq<u8>, k: int) -> bool {
    &&& 0 <= k < s.len()
    &&& s[k] == 44
    &&& forall|j: int| 0 <= j < k ==> #[trigger] s[j] != 44
}

/// Width and height, when `s` is two numbers joined by one comma.
pub open spec fn spec_dims(s: Seq<u8>) -> Option<(usize, usize)> {
    if exists|k: int| is_first_comma(s, k) {
        let k = choose|k: int| is_first_comma(s, k);
        match (spec_number(s.subrange(0, k)), spec_number(s.subrange(k + 1, s.len() as int))) {
            (Some(w), Some(h)) => Some((w, h)),
            _ => None,
        }
    } else {
        None
    }
}

/// A prefix of a run of digits is worth no more than the whole run.
proof fn lemma_prefix_value(s: Seq<u8>, n: int)
    requires
        all_digits(s),
        0 <= n <= s.len(),
    ensures
        digits_value(s.subrange(0, n)) <= digits_value(s),
    decreases s.len(),
{
    if n < s.len() {
        let init = s.drop_last();
        assert(init.subrange(0, n) == s.subrange(0, n));
        assert forall|i: int| 0 <= i < init.len() implies is_digit(#[trigger] init[i]) by {
            assert(init[i] == s[i]);
        }
        lemma_prefix_value(init, n);
    } else {
        assert(s.subrange(0, n) == s);
    }
}

/// The number spelt by `b[lo..hi]`.
fn parse_number(b: &[u8], lo: usize, hi: usize) -> (r: Option<usize>)
    requires
        lo <= hi <= b@.len(),
    ensures
        r == spec_number(b@.subrange(lo as int, hi as int)),
{
    let ghost whole = b@.subrange(lo as int, hi as int);
    if lo == hi {
        return None;
    }
    let mut v: usize = 0;
    let mut i: usize = lo;
    while i < hi
        invariant
            lo <= i <= hi <= b@.len(),
            whole == b@.subrange(lo as int, hi as int),
            all_digits(b@.subrange(lo as int, i as int)),
            v == digits_value(b@.subrange(lo as int, i as int)),
        decreases hi - i,
    {
        let c = b[i];
        let ghost next = b@.subrange(lo as int, i + 1);
        assert(next.drop_last() == b@.subrange(lo as int, i as int));
        assert(whole[i - lo] == c);
        if c < 48 || c > 57 {
            return None;
        }
        assert forall|j: int| 0 <= j < next.len() implies is_digit(#[trigger] next[j]) by {
            if j < next.len() - 1 {
                assert(next[j] == b@.subrange(lo as int, i as int)[j]);
            }
        }
        assert(next == whole.subrange(0, i + 1 - lo));
        match v.checked_mul(10) {
            Some(t) => match t.checked_add((c - 48) as usize) {
                Some(u) => {
                    v = u;
                },
                None => {
                    proof {
                        if all_digits(whole) {
                            lemma_prefix_value(whole, i + 1 - lo);
                        }
                    }
                    return None;
                },
            },
            None => {
                proof {
                    if all_digits(whole) {
                        lemma_prefix_value(whole, i + 1 - lo);
                    }
                }
                return None;
            },
        }
        i = i + 1;
    }
    Some(v)
}

/// Reads `"<width>,<height>"`: two runs of decimal digits joined by a single
/// comma, each fitting a `usize`. Anything else gives `None`.
pub fn args_to_dims(input: &str) -> (r: Option<[usize; 2]>)
    ensures
        match spec_dims(input.spec_bytes()) {
            Some((w, h)) => r is Some && r->0@ == seq![w, h],
            None => r is None,
        },
{
    let b = input.as_bytes();
    let ghost s = b@;
    let mut k: usize = 0;
    while k < b.len() && b[k] != 44
        invariant
            b@ == s,
            k <= s.len(),
            forall|j: int| 0 <= j < k ==> #[trigger] s[j] != 44,
        decreases s.len() - k,
    {
        k = k + 1;
    }
    if k == b.len() {
        return None;
    }
    assert(is_first_comma(s, k as int));
    let ghost c = choose|c: int| is_first_comma(s, c);
    assert(c == k as int);
    let w = match parse_number(b, 0, k) {
        Some(w) => w,
        None => {
            return None;
        },
    };
    let h = match parse_number(b, k + 1, b.len()) {
        Some(h) => h,
        None => {
            return None;
        },
    };
    let d = [w, h];
    assert(d@ == seq![w, h]);
    Some(d)
}

} // verus!
