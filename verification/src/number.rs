use crate::decimal::spec_digits_value;
use vstd::prelude::*;

verus! {

/// Whether `c` is one of the digits `0` to `9`.
pub open spec fn is_digit_char(c: char) -> bool {
    48 <= c as u32 <= 57
}

/// Whether `t` is one digit or more, and nothing else.
pub open spec fn is_decimal_text(t: Seq<char>) -> bool {
    t.len() > 0 && forall|i: int| 0 <= i < t.len() ==> is_digit_char(#[trigger] t[i])
}

/// The characters of `t` as bytes; for characters beyond U+00FF, the low byte.
pub open spec fn low_bytes(t: Seq<char>) -> Seq<u8> {
    Seq::new(t.len(), |i: int| ((t[i] as u32) % 256) as u8)
}

/// The number that the digits `t` write in base ten.
pub open spec fn spec_decimal_value(t: Seq<char>) -> nat {
    spec_digits_value(low_bytes(t))
}

/// The number that `t` writes, where `t` is an optional sign and then one digit
/// or more. With `signed`, the sign may be `+` or `-`; without, only `+`.
pub open spec fn spec_parse_decimal(t: Seq<char>, signed: bool) -> Option<int> {
    if t.len() > 0 && t[0] == '+' {
        if is_decimal_text(t.subrange(1, t.len() as int)) {
            Some(spec_decimal_value(t.subrange(1, t.len() as int)) as int)
        } else {
            None
        }
    } else if signed && t.len() > 0 && t[0] == '-' {
        if is_decimal_text(t.subrange(1, t.len() as int)) {
            Some(-(spec_decimal_value(t.subrange(1, t.len() as int)) as int))
        } else {
            None
        }
    } else if is_decimal_text(t) {
        Some(spec_decimal_value(t) as int)
    } else {
        None
    }
}

/// The unsigned 64-bit number that `t` writes, if it writes one.
pub open spec fn spec_parse_u64(t: Seq<char>) -> Option<u64> {
    match spec_parse_decimal(t, false) {
        Some(v) => if v <= u64::MAX {
            Some(v as u64)
        } else {
            None
        },
        None => None,
    }
}

/// The signed 64-bit number that `t` writes, if it writes one.
pub open spec fn spec_parse_i64(t: Seq<char>) -> Option<i64> {
    match spec_parse_decimal(t, true) {
        Some(v) => if i64::MIN <= v <= i64::MAX {
            Some(v as i64)
        } else {
            None
        },
        None => None,
    }
}

/// The smaller of two numbers.
pub open spec fn at_most(v: int, cap: int) -> int {
    if v <= cap {
        v
    } else {
        cap
    }
}

/// Reads the digits that stand in `chars` from `from` up to `to`: the number they
/// write, or `cap` where that is larger; nothing where they are not digits, or none.
pub fn read_digits(chars: &[char], from: usize, to: usize, cap: u128) -> (r: Option<u128>)
    requires
        from <= to <= chars@.len(),
        cap <= 0x1_0000_0000_0000_0000,
    ensures
        match r {
            Some(v) => is_decimal_text(chars@.subrange(from as int, to as int)) && v == at_most(
                spec_decimal_value(chars@.subrange(from as int, to as int)) as int,
                cap as int,
            ),
            None => !is_decimal_text(chars@.subrange(from as int, to as int)),
        },
{
    let ghost text = chars@.subrange(from as int, to as int);
    if from == to {
        return None;
    }
    let mut acc: u128 = 0;
    let mut i: usize = from;
    proof {
        assert(low_bytes(text.take(0)) =~= Seq::<u8>::empty());
    }
    while i < to
        invariant
            from <= i <= to <= chars@.len(),
            cap <= 0x1_0000_0000_0000_0000,
            text == chars@.subrange(from as int, to as int),
            forall|k: int| 0 <= k < i - from ==> is_digit_char(#[trigger] text[k]),
            acc == at_most(spec_decimal_value(text.take(i - from)) as int, cap as int),
        decreases to - i,
    {
        let v: u32 = chars[i] as u32;
        if v < 48 || v > 57 {
            proof {
                assert(text[i - from] == chars@[i as int]);
                assert(!is_digit_char(text[i - from]));
            }
            return None;
        }
        proof {
            let before = text.take(i - from);
            let after = text.take(i - from + 1);
            assert(text[i - from] == chars@[i as int]);
            assert(low_bytes(after).drop_last() =~= low_bytes(before));
            assert(low_bytes(after).last() == v as u8);
            assert(spec_decimal_value(after) == spec_decimal_value(before) * 10 + (v - 48));
        }
        let next: u128 = acc * 10 + (v - 48) as u128;
        acc = if next > cap {
            cap
        } else {
            next
        };
        i = i + 1;
    }
    proof {
        assert(text.take(to - from) =~= text);
    }
    Some(acc)
}

/// The unsigned 64-bit number that the characters from `from` up to `to` write.
pub fn parse_u64_chars(chars: &[char], from: usize, to: usize) -> (r: Option<u64>)
    requires
        from <= to <= chars@.len(),
    ensures
        r == spec_parse_u64(chars@.subrange(from as int, to as int)),
{
    let ghost text = chars@.subrange(from as int, to as int);
    let start: usize = if from < to && chars[from] == '+' {
        from + 1
    } else {
        from
    };
    proof {
        assert(text.len() > 0 ==> text[0] == chars@[from as int]);
        if start > from {
            assert(text.subrange(1, text.len() as int) =~= chars@.subrange(start as int, to as int));
        }
    }
    match read_digits(chars, start, to, 0x1_0000_0000_0000_0000) {
        Some(v) => if v <= u64::MAX as u128 {
            Some(v as u64)
        } else {
            None
        },
        None => None,
    }
}

/// The signed 64-bit number that the characters from `from` up to `to` write.
pub fn parse_i64_chars(chars: &[char], from: usize, to: usize) -> (r: Option<i64>)
    requires
        from <= to <= chars@.len(),
    ensures
        r == spec_parse_i64(chars@.subrange(from as int, to as int)),
{
    let ghost text = chars@.subrange(from as int, to as int);
    let negative = from < to && chars[from] == '-';
    let start: usize = if from < to && (chars[from] == '+' || chars[from] == '-') {
        from + 1
    } else {
        from
    };
    proof {
        assert(text.len() > 0 ==> text[0] == chars@[from as int]);
        if start > from {
            assert(text.subrange(1, text.len() as int) =~= chars@.subrange(start as int, to as int));
        }
    }
    match read_digits(chars, start, to, 0x8000_0000_0000_0001) {
        Some(v) => if negative {
            if v <= 0x8000_0000_0000_0000 {
                Some((-(v as i128)) as i64)
            } else {
                None
            }
        } else {
            if v <= 0x7FFF_FFFF_FFFF_FFFF {
                Some(v as i64)
            } else {
                None
            }
        },
        None => None,
    }
}

} // verus!
