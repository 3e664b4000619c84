//! Octal permission values as they are written on the command line.

use vstd::prelude::*;
use vstd::string::*;

verus! {

/// The largest mode value a permission specifier may denote: the nine
/// permission bits together with setuid, setgid and sticky.
pub const MAX_MODE: u32 = 0o7777;

/// `c` is one of the digits `0` to `7`.
pub open spec fn is_octal_digit(c: char) -> bool {
    '0' <= c && c <= '7'
}

/// The number that the octal digit `c` stands for.
pub open spec fn digit_value(c: char) -> nat {
    (c as nat - '0' as nat) as nat
}

/// Every character of `s` is an octal digit.
pub open spec fn all_octal(s: Seq<char>) -> bool {
    forall|i: int| 0 <= i < s.len() ==> is_octal_digit(#[trigger] s[i])
}

/// The number written by the octal digits `s`, most significant digit first.
pub open spec fn octal_value(s: Seq<char>) -> nat
    decreases s.len(),
{
    if s.len() == 0 {
        0
    } else {
        octal_value(s.drop_last()) * 8 + digit_value(s.last())
    }
}

/// The mode value that `s` denotes, if it denotes one: `s` is made of octal
/// digits only, at least one, and the number written is at most
/// [`MAX_MODE`]. A sign, a blank or any other character makes it unreadable.
pub open spec fn parse_octal_spec(s: Seq<char>) -> Option<u32> {
    if s.len() > 0 && all_octal(s) && octal_value(s) <= MAX_MODE {
        Some(octal_value(s) as u32)
    } else {
        None
    }
}

/// Reads `s` as an octal mode value. Anything that is not a string of octal
/// digits, and any number above [`MAX_MODE`], is rejected.
pub fn parse_octal(s: &str) -> (r: Option<u32>)
    ensures
        r == parse_octal_spec(s@),
        r matches Some(v) ==> v <= MAX_MODE,
{
    let n: usize = s.unicode_len();
    if n == 0 {
        return None;
    }
    let mut acc: u32 = 0;
    let mut over: bool = false;
    let mut i: usize = 0;
    while i < n
        invariant
            i <= n,
            n == s@.len(),
            all_octal(s@.subrange(0, i as int)),
            !over ==> acc == octal_value(s@.subrange(0, i as int)) && acc <= MAX_MODE,
            over ==> octal_value(s@.subrange(0, i as int)) > MAX_MODE,
        decreases n - i,
    {
        let c: char = s.get_char(i);
        if !('0' <= c && c <= '7') {
            assert(!is_octal_digit(s@[i as int]));
            assert(!all_octal(s@));
            return None;
        }
        let digit: u32 = c as u32 - '0' as u32;
        proof {
            let next = s@.subrange(0, i + 1);
            assert(next.drop_last() == s@.subrange(0, i as int));
            assert(next.last() == c);
        }
        if !over {
            let next: u32 = acc * 8 + digit;
            if next > MAX_MODE {
                over = true;
            } else {
                acc = next;
            }
        }
        i += 1;
    }
    assert(s@.subrange(0, n as int) == s@);
    if over {
        None
    } else {
        Some(acc)
    }
}

/// A text with a character that is no octal digit denotes no mode value,
/// and neither does the empty text.
pub proof fn lemma_only_octal_digits_are_read(s: Seq<char>, i: int)
    ensures
        s.len() == 0 ==> parse_octal_spec(s) is None,
        0 <= i < s.len() && !is_octal_digit(s[i]) ==> parse_octal_spec(s) is None,
{
}

} // verus!
