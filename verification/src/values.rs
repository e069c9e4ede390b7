use crate::error::MeshError;
use crate::number::{parse_i64_chars, spec_parse_i64};
use crate::text::{chars_of, spec_trim, trim_bounds};
use vstd::prelude::*;

verus! {

/// The value that marks a cell for which nothing was observed.
pub const NO_DATA_I32: i32 = i32::MIN;

/// Whether a trimmed cell says that there is no value: it is empty, or a lone `*`.
pub open spec fn is_no_data_text(t: Seq<char>) -> bool {
    t.len() == 0 || (t.len() == 1 && t[0] == '*')
}

/// What `parse_stat_value` returns for a cell: the no-data value for a cell that
/// is blank or a lone `*`; else the integer that the trimmed cell writes, where
/// it fits in 32 signed bits.
pub open spec fn spec_parse_stat_value(value: Seq<char>) -> Result<i32, MeshError> {
    let t = spec_trim(value);
    if is_no_data_text(t) {
        Ok(NO_DATA_I32)
    } else {
        match spec_parse_i64(t) {
            None => Err(MeshError::InvalidInteger),
            Some(v) => if v < i32::MIN || v > i32::MAX {
                Err(MeshError::ValueOutOfRange)
            } else {
                Ok(v as i32)
            },
        }
    }
}

/// Reads the value of a cell of statistics.
pub fn parse_stat_value(value: &str) -> (r: Result<i32, MeshError>)
    ensures
        r == spec_parse_stat_value(value@),
{
    let chars = chars_of(value);
    let (start, end) = trim_bounds(chars.as_slice());
    if start == end {
        return Ok(NO_DATA_I32);
    }
    proof {
        assert(spec_trim(value@)[0] == chars@[start as int]);
    }
    if end - start == 1 && chars[start] == '*' {
        return Ok(NO_DATA_I32);
    }
    let parsed = match parse_i64_chars(chars.as_slice(), start, end) {
        Some(v) => v,
        None => {
            return Err(MeshError::InvalidInteger);
        },
    };
    if parsed < i32::MIN as i64 || parsed > i32::MAX as i64 {
        return Err(MeshError::ValueOutOfRange);
    }
    Ok(parsed as i32)
}

/// An integer type that a cell of a table can hold.
pub trait CellInteger: Sized {
    /// The least value of the type.
    spec fn least() -> int;

    /// The greatest value of the type.
    spec fn greatest() -> int;

    /// The value as a number.
    spec fn number(&self) -> int;

    /// `v` in this type, where it fits.
    fn narrowed(v: i64) -> (r: Option<Self>)
        ensures
            match r {
                Some(n) => Self::least() <= v <= Self::greatest() && n.number() == v,
                None => v < Self::least() || v > Self::greatest(),
            },
    ;
}

impl CellInteger for i64 {
    open spec fn least() -> int {
        i64::MIN as int
    }

    open spec fn greatest() -> int {
        i64::MAX as int
    }

    open spec fn number(&self) -> int {
        *self as int
    }

    fn narrowed(v: i64) -> (r: Option<i64>) {
        Some(v)
    }
}

impl CellInteger for i32 {
    open spec fn least() -> int {
        i32::MIN as int
    }

    open spec fn greatest() -> int {
        i32::MAX as int
    }

    open spec fn number(&self) -> int {
        *self as int
    }

    fn narrowed(v: i64) -> (r: Option<i32>) {
        if v < i32::MIN as i64 || v > i32::MAX as i64 {
            None
        } else {
            Some(v as i32)
        }
    }
}

impl CellInteger for i16 {
    open spec fn least() -> int {
        i16::MIN as int
    }

    open spec fn greatest() -> int {
        i16::MAX as int
    }

    open spec fn number(&self) -> int {
        *self as int
    }

    fn narrowed(v: i64) -> (r: Option<i16>) {
        if v < i16::MIN as i64 || v > i16::MAX as i64 {
            None
        } else {
            Some(v as i16)
        }
    }
}

/// What `parse_nullable` reads from a cell, as a number: nothing for a cell that
/// is blank or a lone `*`; else the integer that the trimmed cell writes, where
/// it lies between `least` and `greatest`.
pub open spec fn spec_parse_nullable(value: Seq<char>, least: int, greatest: int) -> Result<
    Option<int>,
    MeshError,
> {
    let t = spec_trim(value);
    if is_no_data_text(t) {
        Ok(None)
    } else {
        match spec_parse_i64(t) {
            None => Err(MeshError::InvalidInteger),
            Some(v) => if v < least || v > greatest {
                Err(MeshError::InvalidInteger)
            } else {
                Ok(Some(v as int))
            },
        }
    }
}

/// The number in a result of `parse_nullable`.
pub open spec fn nullable_number<T: CellInteger>(r: Result<Option<T>, MeshError>) -> Result<
    Option<int>,
    MeshError,
> {
    match r {
        Ok(Some(n)) => Ok(Some(n.number())),
        Ok(None) => Ok(None),
        Err(e) => Err(e),
    }
}

/// Reads a cell that may be empty: nothing for a blank cell or a lone `*`, else
/// the integer of type `T` that the trimmed cell writes.
pub fn parse_nullable<T: CellInteger>(value: &str) -> (r: Result<Option<T>, MeshError>)
    ensures
        nullable_number(r) == spec_parse_nullable(value@, T::least(), T::greatest()),
{
    let chars = chars_of(value);
    let (start, end) = trim_bounds(chars.as_slice());
    if start == end {
        return Ok(None);
    }
    proof {
        assert(spec_trim(value@)[0] == chars@[start as int]);
    }
    if end - start == 1 && chars[start] == '*' {
        return Ok(None);
    }
    let parsed = match parse_i64_chars(chars.as_slice(), start, end) {
        Some(v) => v,
        None => {
            return Err(MeshError::InvalidInteger);
        },
    };
    match T::narrowed(parsed) {
        Some(n) => Ok(Some(n)),
        None => Err(MeshError::InvalidInteger),
    }
}

/// The four bytes of `v` in two's complement, the least significant first.
pub open spec fn spec_le_bytes_i32(v: i32) -> Seq<u8> {
    let u: int = if v >= 0 {
        v as int
    } else {
        v + 0x1_0000_0000
    };
    seq![
        (u % 256) as u8,
        ((u / 256) % 256) as u8,
        ((u / 65536) % 256) as u8,
        ((u / 16777216) % 256) as u8,
    ]
}

/// The value whose four bytes in two's complement, least significant first, are `b`.
pub open spec fn spec_i32_from_le_bytes(b: Seq<u8>) -> int {
    let u = b[0] + 256 * b[1] + 65536 * b[2] + 16777216 * b[3];
    if u >= 0x8000_0000 {
        u - 0x1_0000_0000
    } else {
        u
    }
}

/// The bytes of a tile: the values in their order, four bytes each, the least
/// significant byte first.
pub open spec fn spec_payload(values: Seq<i32>) -> Seq<u8>
    decreases values.len(),
{
    if values.len() == 0 {
        Seq::<u8>::empty()
    } else {
        spec_payload(values.drop_last()) + spec_le_bytes_i32(values.last())
    }
}

/// The payload holds four bytes for each value, at four times the value's place.
pub proof fn lemma_payload_layout(values: Seq<i32>)
    ensures
        spec_payload(values).len() == 4 * values.len(),
        forall|i: int, k: int|
            0 <= i < values.len() && 0 <= k < 4 ==> spec_payload(values)[4 * i + k]
                == #[trigger] spec_le_bytes_i32(values[i])[k],
    decreases values.len(),
{
    if values.len() > 0 {
        let front = values.drop_last();
        lemma_payload_layout(front);
        assert forall|i: int, k: int| 0 <= i < values.len() && 0 <= k < 4 implies spec_payload(
            values,
        )[4 * i + k] == #[trigger] spec_le_bytes_i32(values[i])[k] by {
            if i < front.len() {
                assert(front[i] == values[i]);
                assert(spec_payload(front)[4 * i + k] == spec_le_bytes_i32(front[i])[k]);
            }
        }
    }
}

/// The four bytes of a value give the value back.
pub proof fn lemma_le_bytes_round_trip(v: i32)
    ensures
        spec_i32_from_le_bytes(spec_le_bytes_i32(v)) == v,
{
}

/// The bytes of the values of a tile.
pub fn build_payload_i32(values: &[i32]) -> (payload: Vec<u8>)
    ensures
        payload@ == spec_payload(values@),
        payload@.len() == 4 * values@.len(),
{
    let mut payload: Vec<u8> = Vec::new();
    let mut i: usize = 0;
    while i < values.len()
        invariant
            i <= values.len(),
            payload@ == spec_payload(values@.take(i as int)),
        decreases values.len() - i,
    {
        let v = values[i];
        let u: u32 = if v >= 0 {
            v as u32
        } else {
            (v as i64 + 0x1_0000_0000) as u32
        };
        proof {
            assert(values@.take(i + 1).drop_last() =~= values@.take(i as int));
            assert(values@.take(i + 1).last() == v);
        }
        let ghost before = payload@;
        payload.push((u % 256) as u8);
        payload.push(((u / 256) % 256) as u8);
        payload.push(((u / 65536) % 256) as u8);
        payload.push((u / 16777216) as u8);
        proof {
            assert(payload@ =~= before + spec_le_bytes_i32(v));
        }
        i = i + 1;
    }
    proof {
        assert(values@.take(values.len() as int) =~= values@);
        lemma_payload_layout(values@);
    }
    payload
}

} // verus!
