use vstd::prelude::*;

use crate::data::{DataType, DataTypeValue, is_signed_kind};

verus! {

pub open spec fn is_digit(c: char) -> bool {
    '0' <= c && c <= '9'
}

pub open spec fn all_digits(s: Seq<char>) -> bool {
    forall|i: int| 0 <= i < s.len() ==> is_digit(#[trigger] s[i])
}

/// The number that a run of decimal digits spells.
pub open spec fn decimal_value(s: Seq<char>) -> int
    decreases s.len(),
{
    if s.len() == 0 {
        0
    } else {
        decimal_value(s.drop_last()) * 10 + (s.last() as int - '0' as int)
    }
}

/// The integer that a text spells: an optional sign and at least one decimal
/// digit, nothing else; a minus sign only where `signed`.
pub open spec fn integer_of(s: Seq<char>, signed: bool) -> Option<int> {
    if s.len() > 0 && (s[0] == '+' || (signed && s[0] == '-')) {
        let rest = s.drop_first();
        if rest.len() > 0 && all_digits(rest) {
            Some(if s[0] == '-' { -decimal_value(rest) } else { decimal_value(rest) })
        } else {
            None
        }
    } else if s.len() > 0 && all_digits(s) {
        Some(decimal_value(s))
    } else {
        None
    }
}

/// The range of each integer kind.
pub open spec fn in_range(t: DataType, x: int) -> bool {
    match t {
        DataType::U8 => 0 <= x <= u8::MAX,
        DataType::U16 => 0 <= x <= u16::MAX,
        DataType::U32 => 0 <= x <= u32::MAX,
        DataType::U64 => 0 <= x <= u64::MAX,
        DataType::U128 => 0 <= x <= u128::MAX,
        DataType::USize => 0 <= x <= usize::MAX,
        DataType::I8 => i8::MIN <= x <= i8::MAX,
        DataType::I16 => i16::MIN <= x <= i16::MAX,
        DataType::I32 => i32::MIN <= x <= i32::MAX,
        DataType::I64 => i64::MIN <= x <= i64::MAX,
        DataType::I128 => i128::MIN <= x <= i128::MAX,
        DataType::ISize => isize::MIN <= x <= isize::MAX,
        _ => false,
    }
}

/// The value of kind `t` that the text `s` spells, if any: `true` or `false`
/// for booleans, an integer in the kind's range, any text for the string kinds;
/// nothing for the floating-point kinds, which have no value in this library,
/// nor for unknown values.
pub open spec fn parsed_value(t: DataType, s: Seq<char>) -> Option<(DataType, int, Seq<char>)> {
    match t {
        DataType::Bool => {
            if s == "true"@ {
                Some((DataType::Bool, 1, Seq::empty()))
            } else if s == "false"@ {
                Some((DataType::Bool, 0, Seq::empty()))
            } else {
                None
            }
        },
        DataType::RcStr | DataType::String => Some((t, 0, s)),
        DataType::F32 | DataType::F64 | DataType::Unknown => None,
        _ => match integer_of(s, is_signed_kind(t)) {
            Some(x) => if in_range(t, x) {
                Some((t, x, Seq::<char>::empty()))
            } else {
                None
            },
            None => None,
        },
    }
}

proof fn lemma_decimal_grows(s: Seq<char>, k: int)
    requires
        all_digits(s),
        0 <= k <= s.len(),
    ensures
        decimal_value(s.subrange(0, k)) <= decimal_value(s),
        decimal_value(s) >= 0,
    decreases s.len(),
{
    if s.len() > 0 {
        let p = s.drop_last();
        assert(all_digits(p)) by {
            assert forall|i: int| 0 <= i < p.len() implies is_digit(#[trigger] p[i]) by {
                assert(p[i] == s[i]);
            }
        }
        assert(is_digit(s[s.len() - 1]));
        if k < s.len() {
            lemma_decimal_grows(p, k);
            assert(p.subrange(0, k) =~= s.subrange(0, k));
        } else {
            lemma_decimal_grows(p, 0);
            assert(s.subrange(0, k) =~= s);
        }
    } else {
        assert(s.subrange(0, k) =~= s);
    }
}

/// Reads the decimal digits of `s` from position `from` to its end.
fn read_magnitude(s: &str, from: usize) -> (r: Option<u128>)
    requires
        from <= s@.len(),
    ensures
        r matches Some(m) ==> {
            let d = s@.subrange(from as int, s@.len() as int);
            d.len() > 0 && all_digits(d) && m as int == decimal_value(d)
        },
        r is None ==> {
            let d = s@.subrange(from as int, s@.len() as int);
            d.len() == 0 || !all_digits(d) || decimal_value(d) > u128::MAX
        },
{
    let len = s.unicode_len();
    if from == len {
        return None;
    }
    let ghost d = s@.subrange(from as int, len as int);
    let mut m: u128 = 0;
    let mut i: usize = from;
    while i < len
        invariant
            from <= i <= len,
            len == s@.len(),
            d == s@.subrange(from as int, len as int),
            all_digits(d.subrange(0, i - from)),
            m as int == decimal_value(d.subrange(0, i - from)),
        decreases len - i,
    {
        let c = s.get_char(i);
        if !('0' <= c && c <= '9') {
            assert(d[i - from] == c);
            return None;
        }
        let digit: u128 = (c as u32 - '0' as u32) as u128;
        let ghost next = d.subrange(0, i + 1 - from);
        assert(next.drop_last() =~= d.subrange(0, i - from));
        assert(next.last() == c);
        assert(all_digits(next)) by {
            assert forall|j: int| 0 <= j < next.len() implies is_digit(#[trigger] next[j]) by {
                if j < next.len() - 1 {
                    assert(next[j] == d.subrange(0, i - from)[j]);
                }
            }
        }
        if m > (u128::MAX - digit) / 10 {
            proof {
                assert(decimal_value(next) > u128::MAX) by (nonlinear_arith)
                    requires
                        decimal_value(next) == m * 10 + digit,
                        m > (u128::MAX - digit) / 10,
                        0 <= digit <= 9,
                ;
                if all_digits(d) {
                    lemma_decimal_grows(d, i + 1 - from);
                }
            }
            return None;
        }
        assert(m * 10 + digit <= u128::MAX) by (nonlinear_arith)
            requires
                m <= (u128::MAX - digit) / 10,
                0 <= digit <= 9,
        ;
        m = m * 10 + digit;
        i = i + 1;
    }
    assert(d.subrange(0, len - from) =~= d);
    Some(m)
}

/// Reads an optionally signed decimal integer: its sign (negative or not) and
/// its magnitude.
fn read_integer(s: &str, signed: bool) -> (r: Option<(bool, u128)>)
    ensures
        r matches Some((neg, m)) ==> integer_of(s@, signed) == Some(
            if neg { -(m as int) } else { m as int },
        ) && (neg ==> signed),
        r is None ==> match integer_of(s@, signed) {
            Some(x) => x > u128::MAX || x < -u128::MAX,
            None => true,
        },
{
    let len = s.unicode_len();
    if len == 0 {
        return None;
    }
    let c = s.get_char(0);
    let from: usize = if c == '+' || (signed && c == '-') { 1 } else { 0 };
    proof {
        if from == 1 {
            assert(s@.drop_first() =~= s@.subrange(1, len as int));
        } else {
            assert(s@ =~= s@.subrange(0, len as int));
        }
    }
    match read_magnitude(s, from) {
        Some(m) => Some((from == 1 && c == '-', m)),
        None => None,
    }
}

fn unsigned_within(read: Option<(bool, u128)>, hi: u128) -> (r: Option<u128>)
    ensures
        r matches Some(x) ==> read matches Some((neg, m)) && !neg && m == x && x <= hi,
        r is None ==> (read matches Some((neg, m)) ==> neg || m > hi),
{
    match read {
        Some((false, m)) => if m <= hi {
            Some(m)
        } else {
            None
        },
        _ => None,
    }
}

/// The value of a sign and magnitude when it lies in `[-lo, hi]`, where
/// `lo <= 2^127` and `hi < 2^127`.
fn signed_within(read: Option<(bool, u128)>, lo: u128, hi: u128) -> (r: Option<i128>)
    requires
        lo <= 0x8000_0000_0000_0000_0000_0000_0000_0000u128,
        hi <= 0x7fff_ffff_ffff_ffff_ffff_ffff_ffff_ffffu128,
    ensures
        r matches Some(x) ==> read matches Some((neg, m)) && x as int == (if neg {
            -(m as int)
        } else {
            m as int
        }) && -(lo as int) <= x <= hi,
        r is None ==> (read matches Some((neg, m)) ==> (if neg {
            m > lo
        } else {
            m > hi
        })),
{
    match read {
        Some((true, m)) => if m <= lo {
            if m == 0 {
                Some(0)
            } else {
                Some(-((m - 1) as i128) - 1)
            }
        } else {
            None
        },
        Some((false, m)) => if m <= hi {
            Some(m as i128)
        } else {
            None
        },
        None => None,
    }
}

/// A text to be read as a value of a given kind.
pub struct DataTypeValueStr<'a>(pub &'a str);

impl<'a> DataTypeValueStr<'a> {
    /// The value of kind `data_type` that the text spells, or `None` where it
    /// spells none.
    pub fn data_type_value(&self, data_type: DataType) -> (r: Option<DataTypeValue>)
        ensures
            r matches Some(v) ==> parsed_value(data_type, self.0@) == Some(v@),
            r is None <==> parsed_value(data_type, self.0@) is None,
    {
        let s = self.0;
        let signed = matches!(data_type, DataType::I8 | DataType::I16 | DataType::I32 | DataType::I64 | DataType::I128 | DataType::ISize);
        match data_type {
            DataType::Bool => {
                let text = String::from_str(s);
                if text == String::from_str("true") {
                    Some(DataTypeValue::Bool(true))
                } else if text == String::from_str("false") {
                    Some(DataTypeValue::Bool(false))
                } else {
                    None
                }
            },
            DataType::RcStr => Some(DataTypeValue::RcStr(String::from_str(s))),
            DataType::String => Some(DataTypeValue::String(String::from_str(s))),
            DataType::F32 | DataType::F64 | DataType::Unknown => None,
            DataType::U8 => match unsigned_within(read_integer(s, signed), u8::MAX as u128) {
                Some(x) => Some(DataTypeValue::U8(x as u8)),
                None => None,
            },
            DataType::U16 => match unsigned_within(read_integer(s, signed), u16::MAX as u128) {
                Some(x) => Some(DataTypeValue::U16(x as u16)),
                None => None,
            },
            DataType::U32 => match unsigned_within(read_integer(s, signed), u32::MAX as u128) {
                Some(x) => Some(DataTypeValue::U32(x as u32)),
                None => None,
            },
            DataType::U64 => match unsigned_within(read_integer(s, signed), u64::MAX as u128) {
                Some(x) => Some(DataTypeValue::U64(x as u64)),
                None => None,
            },
            DataType::U128 => match unsigned_within(read_integer(s, signed), u128::MAX) {
                Some(x) => Some(DataTypeValue::U128(x)),
                None => None,
            },
            DataType::USize => match unsigned_within(read_integer(s, signed), usize::MAX as u128) {
                Some(x) => Some(DataTypeValue::USize(x as usize)),
                None => None,
            },
            DataType::I8 => match signed_within(read_integer(s, signed), 128, i8::MAX as u128) {
                Some(x) => Some(DataTypeValue::I8(x as i8)),
                None => None,
            },
            DataType::I16 => match signed_within(read_integer(s, signed), 32768, i16::MAX as u128) {
                Some(x) => Some(DataTypeValue::I16(x as i16)),
                None => None,
            },
            DataType::I32 => match signed_within(read_integer(s, signed), 0x8000_0000, i32::MAX as u128) {
                Some(x) => Some(DataTypeValue::I32(x as i32)),
                None => None,
            },
            DataType::I64 => match signed_within(
                read_integer(s, signed),
                0x8000_0000_0000_0000,
                i64::MAX as u128,
            ) {
                Some(x) => Some(DataTypeValue::I64(x as i64)),
                None => None,
            },
            DataType::I128 => match signed_within(
                read_integer(s, signed),
                0x8000_0000_0000_0000_0000_0000_0000_0000,
                i128::MAX as u128,
            ) {
                Some(x) => Some(DataTypeValue::I128(x)),
                None => None,
            },
            DataType::ISize => match signed_within(
                read_integer(s, signed),
                (isize::MAX as u128) + 1,
                isize::MAX as u128,
            ) {
                Some(x) => Some(DataTypeValue::ISize(x as isize)),
                None => None,
            },
        }
    }
}

} // verus!
