use vstd::prelude::*;
use vstd::string::*;

verus! {

/// Whether `c` is white space: one of the characters U+0009 to U+000D, U+0020,
/// U+0085, U+00A0, U+1680, U+2000 to U+200A, U+2028, U+2029, U+202F, U+205F and
/// U+3000.
pub open spec fn is_white_space(c: char) -> bool {
    let v = c as u32;
    ||| 0x09 <= v <= 0x0D
    ||| v == 0x20
    ||| v == 0x85
    ||| v == 0xA0
    ||| v == 0x1680
    ||| 0x2000 <= v <= 0x200A
    ||| v == 0x2028
    ||| v == 0x2029
    ||| v == 0x202F
    ||| v == 0x205F
    ||| v == 0x3000
}

/// The place of the first character at or after `from` that is no white space;
/// the length of `s` where there is none.
pub open spec fn first_non_space(s: Seq<char>, from: int) -> int
    decreases s.len() - from,
{
    if from >= s.len() {
        s.len() as int
    } else if !is_white_space(s[from]) {
        from
    } else {
        first_non_space(s, from + 1)
    }
}

/// The place just behind the last character before `upto` that is no white
/// space; 0 where there is none.
pub open spec fn end_of_text(s: Seq<char>, upto: int) -> int
    decreases upto,
{
    if upto <= 0 {
        0
    } else if !is_white_space(s[upto - 1]) {
        upto
    } else {
        end_of_text(s, upto - 1)
    }
}

/// `s` without the white space at its two ends.
pub open spec fn spec_trim(s: Seq<char>) -> Seq<char> {
    let start = first_non_space(s, 0);
    let end = end_of_text(s, s.len() as int);
    if start >= end {
        Seq::<char>::empty()
    } else {
        s.subrange(start, end)
    }
}

/// `s` without the characters equal to `c`, the others in their order.
pub open spec fn spec_without_char(s: Seq<char>, c: char) -> Seq<char>
    decreases s.len(),
{
    if s.len() == 0 {
        s
    } else if s.last() == c {
        spec_without_char(s.drop_last(), c)
    } else {
        spec_without_char(s.drop_last(), c).push(s.last())
    }
}

/// Whether `c` occurs in `s`.
pub open spec fn has_char(s: Seq<char>, c: char) -> bool {
    exists|i: int| 0 <= i < s.len() && s[i] == c
}

/// Taking out a character that does not occur changes nothing.
pub proof fn lemma_without_absent_char(s: Seq<char>, c: char)
    requires
        !has_char(s, c),
    ensures
        spec_without_char(s, c) == s,
    decreases s.len(),
{
    if s.len() > 0 {
        assert(s[s.len() - 1] != c);
        assert forall|i: int| 0 <= i < s.drop_last().len() implies s.drop_last()[i] != c by {
            assert(s.drop_last()[i] == s[i]);
        }
        lemma_without_absent_char(s.drop_last(), c);
        assert(s.drop_last().push(s.last()) =~= s);
    }
}

/// What `first_non_space` finds: white space before it, none at it.
pub proof fn lemma_first_non_space(s: Seq<char>, from: int)
    requires
        0 <= from <= s.len(),
    ensures
        from <= first_non_space(s, from) <= s.len(),
        forall|i: int| from <= i < first_non_space(s, from) ==> is_white_space(#[trigger] s[i]),
        first_non_space(s, from) < s.len() ==> !is_white_space(s[first_non_space(s, from)]),
    decreases s.len() - from,
{
    if from < s.len() && is_white_space(s[from]) {
        lemma_first_non_space(s, from + 1);
    }
}

/// What `end_of_text` finds: white space from it on, none just before it.
pub proof fn lemma_end_of_text(s: Seq<char>, upto: int)
    requires
        0 <= upto <= s.len(),
    ensures
        0 <= end_of_text(s, upto) <= upto,
        forall|i: int| end_of_text(s, upto) <= i < upto ==> is_white_space(#[trigger] s[i]),
        end_of_text(s, upto) > 0 ==> !is_white_space(s[end_of_text(s, upto) - 1]),
    decreases upto,
{
    if upto > 0 && is_white_space(s[upto - 1]) {
        lemma_end_of_text(s, upto - 1);
    }
}

/// Whether `c` is white space.
pub fn char_is_white_space(c: char) -> (r: bool)
    ensures
        r == is_white_space(c),
{
    let v: u32 = c as u32;
    (0x09 <= v && v <= 0x0D) || v == 0x20 || v == 0x85 || v == 0xA0 || v == 0x1680 || (0x2000 <= v
        && v <= 0x200A) || v == 0x2028 || v == 0x2029 || v == 0x202F || v == 0x205F || v == 0x3000
}

/// The characters of `s`.
pub fn chars_of(s: &str) -> (out: Vec<char>)
    ensures
        out@ == s@,
{
    let mut out: Vec<char> = Vec::new();
    for c in it: s.chars()
        invariant
            out@ == it.seq().take(it.index() as int),
            it.seq() == s@,
    {
        out.push(c);
    }
    out
}

/// The two places between which the trimmed text stands in `chars`.
pub fn trim_bounds(chars: &[char]) -> (bounds: (usize, usize))
    ensures
        bounds.0 <= bounds.1 <= chars@.len(),
        chars@.subrange(bounds.0 as int, bounds.1 as int) == spec_trim(chars@),
{
    let len = chars.len();
    let mut start: usize = 0;
    while start < len && char_is_white_space(chars[start])
        invariant
            start <= len == chars@.len(),
            first_non_space(chars@, 0) == first_non_space(chars@, start as int),
        decreases len - start,
    {
        start = start + 1;
    }
    let mut end: usize = len;
    while end > start && char_is_white_space(chars[end - 1])
        invariant
            start <= end <= len == chars@.len(),
            end_of_text(chars@, len as int) == end_of_text(chars@, end as int),
        decreases end,
    {
        end = end - 1;
    }
    proof {
        lemma_first_non_space(chars@, 0);
        lemma_end_of_text(chars@, len as int);
        if end == start {
            // Nothing before `start` is text, and nothing from `start` on.
            lemma_end_of_text(chars@, end as int);
            assert(chars@.subrange(start as int, end as int) =~= Seq::<char>::empty());
        }
    }
    (start, end)
}

/// `s` without the white space at its two ends.
pub fn trim(s: &str) -> (t: &str)
    ensures
        t@ == spec_trim(s@),
{
    let chars = chars_of(s);
    let (start, end) = trim_bounds(chars.as_slice());
    s.substring_char(start, end)
}

/// Whether `s` holds nothing but white space.
pub fn is_blank(s: &str) -> (r: bool)
    ensures
        r == (spec_trim(s@).len() == 0),
{
    let chars = chars_of(s);
    let (start, end) = trim_bounds(chars.as_slice());
    start == end
}

/// `s` without the characters equal to `c`.
pub fn without_char(s: &str, c: char) -> (out: String)
    ensures
        out@ == spec_without_char(s@, c),
{
    let chars = chars_of(s);
    let len = chars.len();
    let mut found = false;
    let mut i: usize = 0;
    while i < len
        invariant
            i <= len == chars@.len(),
            found == has_char(chars@.take(i as int), c),
        decreases len - i,
    {
        proof {
            let before = chars@.take(i as int);
            let after = chars@.take(i + 1);
            if has_char(before, c) {
                let k = choose|k: int| 0 <= k < before.len() && before[k] == c;
                assert(after[k] == c);
            }
            if chars@[i as int] == c {
                assert(after[i as int] == c);
            }
            if has_char(after, c) {
                let k = choose|k: int| 0 <= k < after.len() && after[k] == c;
                if k < i {
                    assert(before[k] == c);
                }
            }
        }
        if chars[i] == c {
            found = true;
        }
        i = i + 1;
    }
    proof {
        assert(chars@.take(len as int) =~= chars@);
    }
    if !found {
        proof {
            lemma_without_absent_char(s@, c);
        }
        return s.to_owned();
    }
    let mut out = String::new();
    let mut j: usize = 0;
    while j < len
        invariant
            j <= len == chars@.len(),
            chars@ == s@,
            out@ == spec_without_char(chars@.take(j as int), c),
        decreases len - j,
    {
        proof {
            assert(chars@.take(j + 1).drop_last() =~= chars@.take(j as int));
            assert(chars@.take(j + 1).last() == chars@[j as int]);
        }
        if chars[j] != c {
            let piece = s.substring_char(j, j + 1);
            proof {
                assert(piece@ =~= seq![chars@[j as int]]);
                assert(out@ + piece@ =~= out@.push(chars@[j as int]));
            }
            out.append(piece);
        }
        j = j + 1;
    }
    proof {
        assert(chars@.take(len as int) =~= chars@);
    }
    out
}

/// Whether two texts are the same.
pub fn same_text(a: &str, b: &str) -> (same: bool)
    ensures
        same == (a@ == b@),
{
    let left = chars_of(a);
    let right = chars_of(b);
    if left.len() != right.len() {
        return false;
    }
    let mut i: usize = 0;
    while i < left.len()
        invariant
            i <= left.len() == right.len(),
            left@ == a@,
            right@ == b@,
            forall|k: int| 0 <= k < i ==> left@[k] == right@[k],
        decreases left.len() - i,
    {
        if left[i] != right[i] {
            return false;
        }
        i = i + 1;
    }
    assert(left@ =~= right@);
    true
}

} // verus!
