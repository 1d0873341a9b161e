use vstd::prelude::*;

use crate::error::ErrorKind;
pub use crate::parse::DataTypeValueStr;

verus! {

/// How values of a kind relate to one another: by magnitude, by identity, or by rank.
#[derive(Debug, Clone, Copy, PartialEq, Eq, Structural)]
pub enum DataCategory {
    Numerical,
    Categorical,
    Ordinal,
}

/// The closed set of value kinds that the graph knows.
#[derive(Debug, Clone, Copy, PartialEq, Eq, Structural)]
pub enum DataType {
    Bool,
    U8,
    U16,
    U32,
    U64,
    U128,
    USize,
    I8,
    I16,
    I32,
    I64,
    I128,
    ISize,
    F32,
    F64,
    RcStr,
    String,
    Unknown,
}

/// The category that belongs to each kind: integers and floats are numerical,
/// booleans, strings and unknown values categorical.
pub open spec fn category_of(t: DataType) -> DataCategory {
    match t {
        DataType::Bool | DataType::RcStr | DataType::String | DataType::Unknown => DataCategory::Categorical,
        _ => DataCategory::Numerical,
    }
}

pub open spec fn is_signed_kind(t: DataType) -> bool {
    t == DataType::I8 || t == DataType::I16 || t == DataType::I32 || t == DataType::I64
        || t == DataType::I128 || t == DataType::ISize
}

pub open spec fn is_text_kind(t: DataType) -> bool {
    t == DataType::RcStr || t == DataType::String
}

impl DataType {
    /// The category of this kind.
    pub fn category(&self) -> (r: DataCategory)
        ensures
            r == category_of(*self),
    {
        match self {
            DataType::Bool | DataType::RcStr | DataType::String | DataType::Unknown => DataCategory::Categorical,
            _ => DataCategory::Numerical,
        }
    }
}

/// A scalar value of one of the known kinds. Floating-point kinds have a tag in
/// [`DataType`] but no value here; an unknown value is an opaque handle that is
/// equal only to itself.
#[derive(Debug, Clone, PartialEq, Eq)]
pub enum DataTypeValue {
    Bool(bool),
    U8(u8),
    U16(u16),
    U32(u32),
    U64(u64),
    U128(u128),
    USize(usize),
    I8(i8),
    I16(i16),
    I32(i32),
    I64(i64),
    I128(i128),
    ISize(isize),
    RcStr(String),
    String(String),
    Unknown(u64),
}

/// A value seen as its kind, a number (the integer, `0` or `1` for a boolean, the
/// handle of an unknown value) and a text (the characters of a string).
impl View for DataTypeValue {
    type V = (DataType, int, Seq<char>);

    open spec fn view(&self) -> (DataType, int, Seq<char>) {
        match self {
            DataTypeValue::Bool(b) => (DataType::Bool, if *b { 1 } else { 0 }, Seq::empty()),
            DataTypeValue::U8(x) => (DataType::U8, *x as int, Seq::empty()),
            DataTypeValue::U16(x) => (DataType::U16, *x as int, Seq::empty()),
            DataTypeValue::U32(x) => (DataType::U32, *x as int, Seq::empty()),
            DataTypeValue::U64(x) => (DataType::U64, *x as int, Seq::empty()),
            DataTypeValue::U128(x) => (DataType::U128, *x as int, Seq::empty()),
            DataTypeValue::USize(x) => (DataType::USize, *x as int, Seq::empty()),
            DataTypeValue::I8(x) => (DataType::I8, *x as int, Seq::empty()),
            DataTypeValue::I16(x) => (DataType::I16, *x as int, Seq::empty()),
            DataTypeValue::I32(x) => (DataType::I32, *x as int, Seq::empty()),
            DataTypeValue::I64(x) => (DataType::I64, *x as int, Seq::empty()),
            DataTypeValue::I128(x) => (DataType::I128, *x as int, Seq::empty()),
            DataTypeValue::ISize(x) => (DataType::ISize, *x as int, Seq::empty()),
            DataTypeValue::RcStr(s) => (DataType::RcStr, 0, s@),
            DataTypeValue::String(s) => (DataType::String, 0, s@),
            DataTypeValue::Unknown(h) => (DataType::Unknown, *h as int, Seq::empty()),
        }
    }
}

pub open spec fn abs_diff(a: int, b: int) -> int {
    if a >= b {
        a - b
    } else {
        b - a
    }
}

/// Distance between two values: `None` across kinds or for unknown values; the
/// absolute difference for numerical kinds; `0` for equal and `1` for different
/// categorical values.
pub open spec fn distance_of(a: (DataType, int, Seq<char>), b: (DataType, int, Seq<char>)) -> Option<int> {
    if a.0 != b.0 || a.0 == DataType::Unknown {
        None
    } else if category_of(a.0) == DataCategory::Numerical {
        Some(abs_diff(a.1, b.1))
    } else if a == b {
        Some(0)
    } else {
        Some(1)
    }
}

pub open spec fn int_order(a: int, b: int) -> core::cmp::Ordering {
    if a < b {
        core::cmp::Ordering::Less
    } else if a == b {
        core::cmp::Ordering::Equal
    } else {
        core::cmp::Ordering::Greater
    }
}

/// Lexicographic order of two texts, character by character.
pub open spec fn text_order(a: Seq<char>, b: Seq<char>) -> core::cmp::Ordering
    decreases a.len(),
{
    if a.len() == 0 {
        if b.len() == 0 {
            core::cmp::Ordering::Equal
        } else {
            core::cmp::Ordering::Less
        }
    } else if b.len() == 0 {
        core::cmp::Ordering::Greater
    } else if (a[0] as u32) < (b[0] as u32) {
        core::cmp::Ordering::Less
    } else if (a[0] as u32) > (b[0] as u32) {
        core::cmp::Ordering::Greater
    } else {
        text_order(a.drop_first(), b.drop_first())
    }
}

/// Natural order of two values: `None` across kinds or for unknown values.
pub open spec fn order_of(a: (DataType, int, Seq<char>), b: (DataType, int, Seq<char>)) -> Option<core::cmp::Ordering> {
    if a.0 != b.0 || a.0 == DataType::Unknown {
        None
    } else if is_text_kind(a.0) {
        Some(text_order(a.2, b.2))
    } else {
        Some(int_order(a.1, b.1))
    }
}

fn diff_unsigned(a: u128, b: u128) -> (r: u128)
    ensures
        r == abs_diff(a as int, b as int),
{
    if a >= b {
        a - b
    } else {
        b - a
    }
}

fn diff_signed(a: i128, b: i128) -> (r: u128)
    ensures
        r == abs_diff(a as int, b as int),
{
    let (hi, lo) = if a >= b { (a, b) } else { (b, a) };
    if lo >= 0 || hi < 0 {
        (hi - lo) as u128
    } else {
        // hi >= 0 > lo: the gap is hi + |lo|, which may exceed i128::MAX
        let below: u128 = (-(lo + 1)) as u128;
        (hi as u128) + below + 1
    }
}

fn order_unsigned(a: u128, b: u128) -> (r: core::cmp::Ordering)
    ensures
        r == int_order(a as int, b as int),
{
    if a < b {
        core::cmp::Ordering::Less
    } else if a == b {
        core::cmp::Ordering::Equal
    } else {
        core::cmp::Ordering::Greater
    }
}

fn order_signed(a: i128, b: i128) -> (r: core::cmp::Ordering)
    ensures
        r == int_order(a as int, b as int),
{
    if a < b {
        core::cmp::Ordering::Less
    } else if a == b {
        core::cmp::Ordering::Equal
    } else {
        core::cmp::Ordering::Greater
    }
}


/// A value widened to the largest integer type of its signedness.
enum Wide<'a> {
    Unsigned(u128),
    Signed(i128),
    Text(&'a String),
    Opaque(u64),
}

/// What a kind of value says of itself.
pub trait DataDeductor {
    spec fn spec_data_type(&self) -> DataType;

    /// The kind of this value.
    fn data_type(&self) -> (r: DataType)
        ensures
            r == self.spec_data_type(),
    ;

    /// The category of this value's kind.
    fn data_category(&self) -> (r: DataCategory)
        ensures
            r == category_of(self.spec_data_type()),
    ;
}

impl DataDeductor for DataTypeValue {
    open spec fn spec_data_type(&self) -> DataType {
        self@.0
    }

    fn data_type(&self) -> (r: DataType) {
        match self {
            DataTypeValue::Bool(_) => DataType::Bool,
            DataTypeValue::U8(_) => DataType::U8,
            DataTypeValue::U16(_) => DataType::U16,
            DataTypeValue::U32(_) => DataType::U32,
            DataTypeValue::U64(_) => DataType::U64,
            DataTypeValue::U128(_) => DataType::U128,
            DataTypeValue::USize(_) => DataType::USize,
            DataTypeValue::I8(_) => DataType::I8,
            DataTypeValue::I16(_) => DataType::I16,
            DataTypeValue::I32(_) => DataType::I32,
            DataTypeValue::I64(_) => DataType::I64,
            DataTypeValue::I128(_) => DataType::I128,
            DataTypeValue::ISize(_) => DataType::ISize,
            DataTypeValue::RcStr(_) => DataType::RcStr,
            DataTypeValue::String(_) => DataType::String,
            DataTypeValue::Unknown(_) => DataType::Unknown,
        }
    }

    fn data_category(&self) -> (r: DataCategory) {
        self.data_type().category()
    }
}

impl DataTypeValue {
    fn widen(&self) -> (r: Wide<'_>)
        ensures
            r is Unsigned ==> r->Unsigned_0 as int == self@.1,
            r is Signed ==> r->Signed_0 as int == self@.1,
            r is Signed <==> is_signed_kind(self@.0),
            r is Text <==> is_text_kind(self@.0),
            r matches Wide::Text(t) ==> t@ == self@.2,
            r is Opaque <==> self@.0 == DataType::Unknown,
            r matches Wide::Opaque(h) ==> h as int == self@.1,
            (r is Unsigned || r is Signed) ==> self@.2 == Seq::<char>::empty(),
    {
        match self {
            DataTypeValue::Bool(b) => Wide::Unsigned(if *b { 1 } else { 0 }),
            DataTypeValue::U8(x) => Wide::Unsigned(*x as u128),
            DataTypeValue::U16(x) => Wide::Unsigned(*x as u128),
            DataTypeValue::U32(x) => Wide::Unsigned(*x as u128),
            DataTypeValue::U64(x) => Wide::Unsigned(*x as u128),
            DataTypeValue::U128(x) => Wide::Unsigned(*x),
            DataTypeValue::USize(x) => Wide::Unsigned(*x as u128),
            DataTypeValue::I8(x) => Wide::Signed(*x as i128),
            DataTypeValue::I16(x) => Wide::Signed(*x as i128),
            DataTypeValue::I32(x) => Wide::Signed(*x as i128),
            DataTypeValue::I64(x) => Wide::Signed(*x as i128),
            DataTypeValue::I128(x) => Wide::Signed(*x),
            DataTypeValue::ISize(x) => Wide::Signed(*x as i128),
            DataTypeValue::RcStr(t) => Wide::Text(t),
            DataTypeValue::String(t) => Wide::Text(t),
            DataTypeValue::Unknown(h) => Wide::Opaque(*h),
        }
    }

    /// Equality between values of one kind; comparing values of different
    /// kinds is an error.
    pub fn equals(&self, rhs: &DataTypeValue) -> (r: Result<bool, ErrorKind>)
        ensures
            self@.0 != rhs@.0 <==> r == Err::<bool, ErrorKind>(ErrorKind::TypeMismatch),
            self@.0 == rhs@.0 ==> r == Ok::<bool, ErrorKind>(self@ == rhs@),
    {
        if self.data_type() != rhs.data_type() {
            return Err(ErrorKind::TypeMismatch);
        }
        match (self.widen(), rhs.widen()) {
            (Wide::Unsigned(a), Wide::Unsigned(b)) => Ok(a == b),
            (Wide::Signed(a), Wide::Signed(b)) => Ok(a == b),
            (Wide::Text(a), Wide::Text(b)) => Ok(*a == *b),
            (Wide::Opaque(a), Wide::Opaque(b)) => Ok(a == b),
            _ => Err(ErrorKind::TypeMismatch),
        }
    }

    /// Distance to another value: `None` (incomparable) across kinds or for
    /// unknown values, the exact absolute difference for numerical kinds, and
    /// `0` or `1` for equal or different categorical values.
    pub fn distance(&self, rhs: &DataTypeValue) -> (r: Option<u128>)
        ensures
            r matches Some(d) ==> distance_of(self@, rhs@) == Some(d as int),
            r is None <==> distance_of(self@, rhs@) is None,
    {
        if self.data_type() != rhs.data_type() {
            return None;
        }
        let numerical = self.data_category() == DataCategory::Numerical;
        match (self.widen(), rhs.widen()) {
            (Wide::Unsigned(a), Wide::Unsigned(b)) => {
                if numerical {
                    Some(diff_unsigned(a, b))
                } else if a == b {
                    Some(0)
                } else {
                    Some(1)
                }
            },
            (Wide::Signed(a), Wide::Signed(b)) => Some(diff_signed(a, b)),
            (Wide::Text(a), Wide::Text(b)) => {
                if *a == *b {
                    Some(0)
                } else {
                    Some(1)
                }
            },
            _ => None,
        }
    }
}


fn compare_text(a: &str, b: &str) -> (r: core::cmp::Ordering)
    ensures
        r == text_order(a@, b@),
{
    let la = a.unicode_len();
    let lb = b.unicode_len();
    let mut i: usize = 0;
    assert(a@.subrange(0, la as int) =~= a@);
    assert(b@.subrange(0, lb as int) =~= b@);
    while i < la && i < lb
        invariant
            i <= la,
            i <= lb,
            la == a@.len(),
            lb == b@.len(),
            text_order(a@, b@) == text_order(
                a@.subrange(i as int, la as int),
                b@.subrange(i as int, lb as int),
            ),
        decreases la - i,
    {
        let ca = a.get_char(i);
        let cb = b.get_char(i);
        if (ca as u32) < (cb as u32) {
            return core::cmp::Ordering::Less;
        } else if (ca as u32) > (cb as u32) {
            return core::cmp::Ordering::Greater;
        }
        assert(a@.subrange(i as int, la as int).drop_first() =~= a@.subrange(i + 1, la as int));
        assert(b@.subrange(i as int, lb as int).drop_first() =~= b@.subrange(i + 1, lb as int));
        i = i + 1;
    }
    if la == lb {
        core::cmp::Ordering::Equal
    } else if i == la {
        core::cmp::Ordering::Less
    } else {
        core::cmp::Ordering::Greater
    }
}

impl DataTypeValue {
    /// A copy of this value.
    pub fn duplicate(&self) -> (r: DataTypeValue)
        ensures
            r@ == self@,
    {
        match self {
            DataTypeValue::Bool(x) => DataTypeValue::Bool(*x),
            DataTypeValue::U8(x) => DataTypeValue::U8(*x),
            DataTypeValue::U16(x) => DataTypeValue::U16(*x),
            DataTypeValue::U32(x) => DataTypeValue::U32(*x),
            DataTypeValue::U64(x) => DataTypeValue::U64(*x),
            DataTypeValue::U128(x) => DataTypeValue::U128(*x),
            DataTypeValue::USize(x) => DataTypeValue::USize(*x),
            DataTypeValue::I8(x) => DataTypeValue::I8(*x),
            DataTypeValue::I16(x) => DataTypeValue::I16(*x),
            DataTypeValue::I32(x) => DataTypeValue::I32(*x),
            DataTypeValue::I64(x) => DataTypeValue::I64(*x),
            DataTypeValue::I128(x) => DataTypeValue::I128(*x),
            DataTypeValue::ISize(x) => DataTypeValue::ISize(*x),
            DataTypeValue::RcStr(t) => DataTypeValue::RcStr(t.clone()),
            DataTypeValue::String(t) => DataTypeValue::String(t.clone()),
            DataTypeValue::Unknown(h) => DataTypeValue::Unknown(*h),
        }
    }

    /// Natural order against another value: `None` across kinds or for
    /// unknown values; numbers by magnitude, `false` before `true`, strings
    /// lexicographically.
    pub fn partial_compare(&self, rhs: &DataTypeValue) -> (r: Option<core::cmp::Ordering>)
        ensures
            r == order_of(self@, rhs@),
    {
        if self.data_type() != rhs.data_type() {
            return None;
        }
        match (self.widen(), rhs.widen()) {
            (Wide::Unsigned(a), Wide::Unsigned(b)) => Some(order_unsigned(a, b)),
            (Wide::Signed(a), Wide::Signed(b)) => Some(order_signed(a, b)),
            (Wide::Text(a), Wide::Text(b)) => Some(compare_text(a.as_str(), b.as_str())),
            _ => None,
        }
    }
}

pub open spec fn digit_char(d: int) -> char {
    if d == 0 {
        '0'
    } else if d == 1 {
        '1'
    } else if d == 2 {
        '2'
    } else if d == 3 {
        '3'
    } else if d == 4 {
        '4'
    } else if d == 5 {
        '5'
    } else if d == 6 {
        '6'
    } else if d == 7 {
        '7'
    } else if d == 8 {
        '8'
    } else {
        '9'
    }
}

/// The decimal digits of a natural number, without leading zeros.
pub open spec fn decimal_text(n: nat) -> Seq<char>
    decreases n,
{
    if n < 10 {
        seq![digit_char(n as int)]
    } else {
        decimal_text(n / 10).push(digit_char(n as int % 10))
    }
}

/// How a value is written: `true` or `false`, an integer in decimal with a
/// leading `-` when negative, a string as it is, an unknown value as `?`.
pub open spec fn text_of(v: (DataType, int, Seq<char>)) -> Seq<char> {
    if v.0 == DataType::Bool {
        if v.1 == 1 {
            "true"@
        } else {
            "false"@
        }
    } else if is_text_kind(v.0) {
        v.2
    } else if v.0 == DataType::Unknown {
        "?"@
    } else if v.1 < 0 {
        "-"@ + decimal_text((-v.1) as nat)
    } else {
        decimal_text(v.1 as nat)
    }
}

fn digit_str(d: u128) -> (r: &'static str)
    requires
        d < 10,
    ensures
        r@ == seq![digit_char(d as int)],
{
    proof {
        reveal_strlit("0");
        reveal_strlit("1");
        reveal_strlit("2");
        reveal_strlit("3");
        reveal_strlit("4");
        reveal_strlit("5");
        reveal_strlit("6");
        reveal_strlit("7");
        reveal_strlit("8");
        reveal_strlit("9");
    }
    let r = if d == 0 {
        "0"
    } else if d == 1 {
        "1"
    } else if d == 2 {
        "2"
    } else if d == 3 {
        "3"
    } else if d == 4 {
        "4"
    } else if d == 5 {
        "5"
    } else if d == 6 {
        "6"
    } else if d == 7 {
        "7"
    } else if d == 8 {
        "8"
    } else {
        "9"
    };
    assert(r@ =~= seq![digit_char(d as int)]);
    r
}

pub(crate) fn write_decimal(n: u128) -> (r: String)
    ensures
        r@ == decimal_text(n as nat),
    decreases n,
{
    if n < 10 {
        String::from_str(digit_str(n))
    } else {
        let mut text = write_decimal(n / 10);
        text.append(digit_str(n % 10));
        text
    }
}

impl DataTypeValue {
    /// The value written out (see [`text_of`]).
    pub fn to_text(&self) -> (r: String)
        ensures
            r@ == text_of(self@),
    {
        match self {
            DataTypeValue::Bool(b) => if *b {
                String::from_str("true")
            } else {
                String::from_str("false")
            },
            DataTypeValue::RcStr(t) => t.clone(),
            DataTypeValue::String(t) => t.clone(),
            DataTypeValue::Unknown(_) => String::from_str("?"),
            _ => match self.widen() {
                Wide::Unsigned(x) => write_decimal(x),
                Wide::Signed(x) => if x < 0 {
                    let magnitude: u128 = (-(x + 1)) as u128 + 1;
                    let mut text = String::from_str("-");
                    let digits = write_decimal(magnitude);
                    text.append(digits.as_str());
                    text
                } else {
                    write_decimal(x as u128)
                },
                _ => String::new(),
            },
        }
    }
}

} // verus!
