use vstd::prelude::*;
use vstd::string::*;

verus! {

/// Ten to the power `k`.
pub open spec fn pow10(k: nat) -> nat
    decreases k,
{
    if k == 0 {
        1
    } else {
        10 * pow10((k - 1) as nat)
    }
}

/// Whether `b` is one of the ASCII digits `0` to `9`.
pub open spec fn is_digit_byte(b: u8) -> bool {
    48 <= b <= 57
}

/// Whether every byte of `s` is an ASCII digit.
pub open spec fn all_digit_bytes(s: Seq<u8>) -> bool {
    forall|i: int| 0 <= i < s.len() ==> is_digit_byte(#[trigger] s[i])
}

/// The decimal writing of `n`, most significant digit first, in ASCII, without
/// leading zeros (0 is written `0`).
pub open spec fn spec_decimal_digits(n: nat) -> Seq<u8>
    decreases n,
{
    if n < 10 {
        seq![(48 + n) as u8]
    } else {
        spec_decimal_digits(n / 10).push((48 + n % 10) as u8)
    }
}

/// The number that the ASCII digits `s` write in base ten; 0 for no digits.
pub open spec fn spec_digits_value(s: Seq<u8>) -> nat
    decreases s.len(),
{
    if s.len() == 0 {
        0
    } else {
        spec_digits_value(s.drop_last()) * 10 + (s.last() - 48) as nat
    }
}

/// `s` back to front.
pub open spec fn reversed(s: Seq<u8>) -> Seq<u8> {
    Seq::new(s.len(), |i: int| s[s.len() - 1 - i])
}

pub proof fn lemma_pow10_monotonic(i: nat, j: nat)
    requires
        i <= j,
    ensures
        1 <= pow10(i) <= pow10(j),
    decreases j,
{
    if j > 0 {
        if i < j {
            lemma_pow10_monotonic(i, (j - 1) as nat);
        } else {
            lemma_pow10_monotonic((i - 1) as nat, (j - 1) as nat);
        }
    }
}

/// The decimal writing of a number consists of digits, and of at least one.
pub proof fn lemma_decimal_digits_are_digits(n: nat)
    ensures
        spec_decimal_digits(n).len() >= 1,
        all_digit_bytes(spec_decimal_digits(n)),
    decreases n,
{
    if n >= 10 {
        lemma_decimal_digits_are_digits(n / 10);
    }
}

/// A number with `k` decimal digits lies in `10^(k-1) .. 10^k` (0 has one digit).
pub proof fn lemma_decimal_digits_len(n: nat)
    ensures
        n < pow10(spec_decimal_digits(n).len()),
        n >= 10 ==> n >= pow10((spec_decimal_digits(n).len() - 1) as nat),
    decreases n,
{
    reveal_with_fuel(pow10, 3);
    if n >= 10 {
        lemma_decimal_digits_len(n / 10);
        lemma_decimal_digits_are_digits(n / 10);
    }
}

/// Digits write a number below ten to the number of digits.
pub proof fn lemma_digits_value_bound(s: Seq<u8>)
    requires
        all_digit_bytes(s),
    ensures
        spec_digits_value(s) < pow10(s.len()),
    decreases s.len(),
{
    if s.len() > 0 {
        lemma_digits_value_bound(s.drop_last());
    }
}

/// Reading the decimal writing of a number gives the number back.
pub proof fn lemma_digits_value_of_decimal_digits(n: nat)
    ensures
        spec_digits_value(spec_decimal_digits(n)) == n,
    decreases n,
{
    let s = spec_decimal_digits(n);
    if n < 10 {
        assert(s.drop_last() =~= Seq::<u8>::empty());
        assert(spec_digits_value(s.drop_last()) == 0);
    } else {
        lemma_digits_value_of_decimal_digits(n / 10);
        assert(s.drop_last() =~= spec_decimal_digits(n / 10));
    }
}

/// The decimal writing of `n`.
pub fn decimal_digits(n: u64) -> (out: Vec<u8>)
    ensures
        out@ == spec_decimal_digits(n as nat),
{
    let mut rev: Vec<u8> = Vec::new();
    let mut m: u64 = n;
    while m >= 10
        invariant
            spec_decimal_digits(n as nat) == spec_decimal_digits(m as nat) + reversed(rev@),
        decreases m,
    {
        let d: u8 = 48 + (m % 10) as u8;
        proof {
            let next = rev@.push(d);
            assert(reversed(next) =~= seq![d] + reversed(rev@));
            assert(spec_decimal_digits(m as nat) == spec_decimal_digits((m / 10) as nat).push(d));
            assert(spec_decimal_digits((m / 10) as nat).push(d) + reversed(rev@)
                =~= spec_decimal_digits((m / 10) as nat) + reversed(next));
        }
        rev.push(d);
        m = m / 10;
    }
    let last: u8 = 48 + m as u8;
    proof {
        let next = rev@.push(last);
        assert(reversed(next) =~= seq![last] + reversed(rev@));
        assert(spec_decimal_digits(m as nat) =~= seq![last]);
    }
    rev.push(last);
    let len = rev.len();
    let mut out: Vec<u8> = Vec::new();
    let mut i: usize = 0;
    while i < len
        invariant
            len == rev.len(),
            i <= len,
            out@ == reversed(rev@).take(i as int),
        decreases len - i,
    {
        out.push(rev[len - 1 - i]);
        proof {
            assert(out@ =~= reversed(rev@).take(i + 1));
        }
        i = i + 1;
    }
    proof {
        assert(reversed(rev@).take(len as int) =~= reversed(rev@));
    }
    out
}

/// The number written by the first `len` bytes of `digits`.
pub fn digits_value(digits: &[u8], len: usize) -> (v: u64)
    requires
        len <= digits.len(),
        len <= 19,
        all_digit_bytes(digits@.take(len as int)),
    ensures
        v == spec_digits_value(digits@.take(len as int)),
{
    let mut acc: u64 = 0;
    let mut i: usize = 0;
    while i < len
        invariant
            i <= len <= digits.len(),
            len <= 19,
            all_digit_bytes(digits@.take(len as int)),
            acc == spec_digits_value(digits@.take(i as int)),
        decreases len - i,
    {
        let b = digits[i];
        proof {
            let next = digits@.take(i + 1);
            assert(next.drop_last() =~= digits@.take(i as int));
            assert(next.last() == digits@.take(len as int)[i as int]);
            assert forall|j: int| 0 <= j < next.len() implies is_digit_byte(#[trigger] next[j]) by {
                assert(next[j] == digits@.take(len as int)[j]);
            }
            lemma_digits_value_bound(next);
            lemma_pow10_monotonic((i + 1) as nat, 19);
            reveal_with_fuel(pow10, 20);
            assert(pow10(19) == 10000000000000000000);
        }
        acc = acc * 10 + (b - 48) as u64;
        i = i + 1;
    }
    acc
}

/// The decimal writing of `n` as text.
pub open spec fn spec_decimal_text(n: nat) -> Seq<char> {
    Seq::new(spec_decimal_digits(n).len(), |i: int| spec_decimal_digits(n)[i] as char)
}

/// The text of one ASCII digit.
fn digit_text(b: u8) -> (t: &'static str)
    requires
        is_digit_byte(b),
    ensures
        t@ == seq![b as char],
{
    proof {
        reveal_strlit("0");
        reveal_strlit("1");
        reveal_strlit("2");
        reveal_strlit("3");
        reveal_strlit("4");
        reveal_strlit("5");
        reveal_strlit("6");
        reveal_strlit("7");
        reveal_strlit("8");
        reveal_strlit("9");
    }
    let t = if b == 48 {
        "0"
    } else if b == 49 {
        "1"
    } else if b == 50 {
        "2"
    } else if b == 51 {
        "3"
    } else if b == 52 {
        "4"
    } else if b == 53 {
        "5"
    } else if b == 54 {
        "6"
    } else if b == 55 {
        "7"
    } else if b == 56 {
        "8"
    } else {
        "9"
    };
    assert(t@ =~= seq![b as char]);
    t
}

/// Appends the decimal writing of `n` to `out`.
pub fn push_decimal(out: &mut String, n: u64)
    ensures
        final(out)@ == old(out)@ + spec_decimal_text(n as nat),
{
    let digits = decimal_digits(n);
    proof {
        lemma_decimal_digits_are_digits(n as nat);
    }
    let mut i: usize = 0;
    while i < digits.len()
        invariant
            i <= digits.len(),
            digits@ == spec_decimal_digits(n as nat),
            all_digit_bytes(digits@),
            out@ == old(out)@ + spec_decimal_text(n as nat).take(i as int),
        decreases digits.len() - i,
    {
        let piece = digit_text(digits[i]);
        proof {
            assert(spec_decimal_text(n as nat).take(i as int) + piece@ =~= spec_decimal_text(
                n as nat,
            ).take(i + 1));
        }
        out.append(piece);
        i = i + 1;
    }
    proof {
        assert(spec_decimal_text(n as nat).take(digits.len() as int) =~= spec_decimal_text(
            n as nat,
        ));
    }
}

} // verus!
