//! The vote argument as it arrives on the wire: a decimal numeral.
//!
//! A well-formed vote is a non-empty string of decimal digits whose value
//! fits the vote field; anything else is a malformed argument.

use vstd::prelude::*;

verus! {

/// All characters of `s` are decimal digits.
pub open spec fn all_vote_digits(s: Seq<char>) -> bool {
    forall|i: int| 0 <= i < s.len() ==> '0' <= #[trigger] s[i] <= '9'
}

/// The value of `s` read as a decimal numeral, high digit first.
pub open spec fn digits_val(s: Seq<char>) -> int
    decreases s.len(),
{
    if s.len() == 0 {
        0
    } else {
        digits_val(s.drop_last()) * 10 + (s.last() as int - '0' as int)
    }
}

/// What a vote argument denotes: its value if it is a non-empty digit string
/// whose value fits in a vote, nothing otherwise.
pub open spec fn parse_vote_spec(s: Seq<char>) -> Option<u16> {
    if s.len() > 0 && all_vote_digits(s) && digits_val(s) <= u16::MAX as int {
        Some(digits_val(s) as u16)
    } else {
        None
    }
}

/// Under `all_vote_digits`, a numeral's value is never negative.
proof fn lemma_digits_val_nonneg(s: Seq<char>)
    requires
        all_vote_digits(s),
    ensures
        digits_val(s) >= 0,
    decreases s.len(),
{
    if s.len() > 0 {
        assert(all_vote_digits(s.drop_last()));
        lemma_digits_val_nonneg(s.drop_last());
    }
}

/// Reading one more digit multiplies the prefix value by ten and adds it.
proof fn lemma_digits_val_step(s: Seq<char>, i: int)
    requires
        0 <= i < s.len(),
    ensures
        digits_val(s.take(i + 1)) == digits_val(s.take(i)) * 10 + (s[i] as int - '0' as int),
{
    assert(s.take(i + 1).drop_last() =~= s.take(i));
    assert(s.take(i + 1).last() == s[i]);
}

/// Under `all_vote_digits`, a prefix of a numeral never exceeds its value.
proof fn lemma_digits_val_prefix(s: Seq<char>, i: int)
    requires
        all_vote_digits(s),
        0 <= i <= s.len(),
    ensures
        digits_val(s.take(i)) <= digits_val(s),
    decreases s.len() - i,
{
    if i < s.len() {
        lemma_digits_val_step(s, i);
        assert(all_vote_digits(s.take(i)));
        lemma_digits_val_nonneg(s.take(i));
        lemma_digits_val_prefix(s, i + 1);
    } else {
        assert(s.take(i) =~= s);
    }
}

/// Reads a vote argument: the value of a non-empty decimal numeral that fits
/// in a vote, or nothing for any other string.
pub fn parse_vote(s: &str) -> (r: Option<u16>)
    ensures
        r == parse_vote_spec(s@),
{
    if !s.is_ascii() {
        proof {
            let i = choose|i: int| 0 <= i < s@.len() && !('\0' <= #[trigger] s@[i] <= '\u{7f}');
            assert(!('0' <= s@[i] <= '9'));
        }
        return None;
    }
    proof {
        vstd::utf8::is_ascii_chars_encode_utf8(s@);
    }
    let b = s.as_bytes();
    if b.len() == 0 {
        return None;
    }
    let n = b.len();
    let mut i: usize = 0;
    let mut acc: u32 = 0;
    while i < n
        invariant
            vstd::utf8::is_ascii_chars(s@),
            b@ == vstd::utf8::encode_utf8(s@),
            b@.len() == s@.len(),
            n == b@.len(),
            i <= n,
            forall|j: int| 0 <= j < i ==> '0' <= #[trigger] s@[j] <= '9',
            acc == digits_val(s@.take(i as int)),
            acc <= 0xFFFF,
        decreases n - i,
    {
        let c = b[i];
        proof {
            vstd::utf8::is_ascii_chars_encode_utf8(s@);
            assert(s@[i as int] as u8 == b@[i as int]);
            assert('\0' <= s@[i as int] <= '\u{7f}');
        }
        if c < 48 || c > 57 {
            proof {
                assert(!('0' <= s@[i as int] <= '9'));
            }
            return None;
        }
        let d = (c - 48) as u32;
        proof {
            lemma_digits_val_step(s@, i as int);
            assert('0' <= s@[i as int] <= '9');
            assert(s@[i as int] as int - '0' as int == d as int);
        }
        let next = acc * 10 + d;
        if next > 0xFFFF {
            proof {
                if all_vote_digits(s@) {
                    lemma_digits_val_prefix(s@, i + 1 as int);
                }
            }
            return None;
        }
        acc = next;
        i = i + 1;
    }
    proof {
        assert(s@.take(n as int) =~= s@);
    }
    Some(acc as u16)
}

} // verus!
