//! Decimal integers written in one word.
use vstd::prelude::*;
use vstd::string::*;

verus! {

pub open spec fn is_digit(c: char) -> bool {
    '0' <= c && c <= '9'
}

pub open spec fn digit_value(c: char) -> int {
    (c as u32) as int - ('0' as u32) as int
}

/// The value of a string of decimal digits.
pub open spec fn digits_value(s: Seq<char>) -> int
    decreases s.len(),
{
    if s.len() == 0 {
        0
    } else {
        digits_value(s.drop_last()) * 10 + digit_value(s.last())
    }
}

pub open spec fn is_digits(s: Seq<char>) -> bool {
    s.len() > 0 && forall|i: int| 0 <= i < s.len() ==> #[trigger] is_digit(s[i])
}

/// The integer that a word writes: decimal digits, after an optional sign.
pub open spec fn integer_of(s: Seq<char>) -> Option<int> {
    if s.len() > 0 && (s[0] == '-' || s[0] == '+') {
        if is_digits(s.skip(1)) {
            Some(if s[0] == '-' { -digits_value(s.skip(1)) } else { digits_value(s.skip(1)) })
        } else {
            None
        }
    } else if is_digits(s) {
        Some(digits_value(s))
    } else {
        None
    }
}

/// The word writes an integer that an `i64` holds.
pub open spec fn fits_i64(s: Seq<char>) -> bool {
    integer_of(s) is Some && i64::MIN <= integer_of(s)->0 <= i64::MAX
}

proof fn lemma_digits_grow(s: Seq<char>, i: int)
    requires
        0 <= i <= s.len(),
        forall|j: int| 0 <= j < s.len() ==> #[trigger] is_digit(s[j]),
    ensures
        0 <= digits_value(s.take(i)) <= digits_value(s),
    decreases s.len(),
{
    if i < s.len() {
        let t = s.drop_last();
        assert forall|j: int| 0 <= j < t.len() implies #[trigger] is_digit(t[j]) by {
            assert(t[j] == s[j]);
        }
        lemma_digits_grow(t, i);
        assert(t.take(i) =~= s.take(i));
        assert(is_digit(s.last()));
    } else {
        assert(s.take(i) =~= s);
        if s.len() > 0 {
            let t = s.drop_last();
            assert forall|j: int| 0 <= j < t.len() implies #[trigger] is_digit(t[j]) by {
                assert(t[j] == s[j]);
            }
            lemma_digits_grow(t, t.len() as int);
            assert(t.take(t.len() as int) =~= t);
            assert(is_digit(s.last()));
        }
    }
}

/// Reads the integer that `s` writes, when an `i64` holds it.
pub fn parse_integer(s: &str) -> (r: Option<i64>)
    ensures
        r is Some <==> fits_i64(s@),
        r is Some ==> r->0 == integer_of(s@)->0,
{
    let n = s.unicode_len();
    let signed = n > 0 && (s.get_char(0) == '-' || s.get_char(0) == '+');
    let negative = n > 0 && s.get_char(0) == '-';
    let start: usize = if signed { 1 } else { 0 };
    let ghost body = s@.skip(start as int);
    proof {
        if !signed {
            assert(body =~= s@);
        }
    }
    let ghost meaning = if is_digits(body) {
        Some(if negative { -digits_value(body) } else { digits_value(body) })
    } else {
        None::<int>
    };
    assert(integer_of(s@) == meaning);
    if start == n {
        return None;
    }
    let mut acc: u128 = 0;
    let mut i: usize = start;
    assert(body.take(0) =~= Seq::<char>::empty());
    while i < n
        invariant
            n == s@.len(),
            start <= i <= n,
            body == s@.skip(start as int),
            forall|j: int| 0 <= j < i - start ==> #[trigger] is_digit(body[j]),
            acc == digits_value(body.take(i - start)),
            acc <= 0x8000_0000_0000_0000,
            integer_of(s@) == meaning,
            meaning == (if is_digits(body) {
                Some(if negative { -digits_value(body) } else { digits_value(body) })
            } else {
                None::<int>
            }),
        decreases n - i,
    {
        let c = s.get_char(i);
        assert(body[i - start] == c);
        if !('0' <= c && c <= '9') {
            assert(!is_digit(body[i - start]));
            return None;
        }
        let d = (c as u32 - '0' as u32) as u128;
        assert(body.take(i - start + 1).drop_last() =~= body.take(i - start));
        acc = acc * 10 + d;
        if acc > 0x8000_0000_0000_0000 {
            proof {
                if is_digits(body) {
                    lemma_digits_grow(body, i - start + 1);
                }
            }
            return None;
        }
        i = i + 1;
    }
    assert(body.take(n - start) =~= body);
    if negative {
        Some((0 - (acc as i128)) as i64)
    } else if acc <= 0x7fff_ffff_ffff_ffff {
        Some(acc as i64)
    } else {
        None
    }
}

} // verus!
