use associative_graph::data::{DataCategory, DataDeductor, DataType, DataTypeValue, DataTypeValueStr};
use associative_graph::error::ErrorKind;
use std::cmp::Ordering;

fn text(s: &str) -> DataTypeValue {
    DataTypeValue::String(s.to_string())
}

#[test]
fn distance_u64() {
    let d = DataTypeValue::U64(32).distance(&DataTypeValue::U64(33)).unwrap() as f64;
    assert!(d < 1.00001);
    assert!(d > 0.99999);
}

#[test]
fn distance_isize() {
    let d = DataTypeValue::ISize(32).distance(&DataTypeValue::ISize(33)).unwrap() as f64;
    assert!(d < 1.00001);
    assert!(d > 0.99999);
}

#[test]
fn distance_str() {
    assert_eq!(text("a").distance(&text("a")).map(|d| d as f64), Some(0.0));
    assert_eq!(text("a").distance(&text("b")).map(|d| d as f64), Some(1.0));
}

#[test]
fn categorical_distance_is_zero_or_one() {
    assert_eq!(DataTypeValue::Bool(true).distance(&DataTypeValue::Bool(true)), Some(0));
    assert_eq!(DataTypeValue::Bool(true).distance(&DataTypeValue::Bool(false)), Some(1));
    assert_eq!(text("red").distance(&text("red")), Some(0));
    assert_eq!(text("red").distance(&text("blue")), Some(1));
    let a = DataTypeValue::RcStr("x".to_string());
    let b = DataTypeValue::RcStr("y".to_string());
    assert_eq!(a.distance(&a), Some(0));
    assert_eq!(a.distance(&b), Some(1));
}

#[test]
fn numerical_distance_is_symmetric() {
    let pairs = [
        (DataTypeValue::I64(-5), DataTypeValue::I64(7)),
        (DataTypeValue::U8(3), DataTypeValue::U8(250)),
        (DataTypeValue::I128(i128::MIN), DataTypeValue::I128(i128::MAX)),
        (DataTypeValue::U128(0), DataTypeValue::U128(u128::MAX)),
    ];
    for (a, b) in pairs.iter() {
        assert_eq!(a.distance(b), b.distance(a));
    }
    assert_eq!(DataTypeValue::I64(-5).distance(&DataTypeValue::I64(7)), Some(12));
    assert_eq!(DataTypeValue::U8(3).distance(&DataTypeValue::U8(250)), Some(247));
    assert_eq!(
        DataTypeValue::I128(i128::MIN).distance(&DataTypeValue::I128(i128::MAX)),
        Some(u128::MAX)
    );
}

#[test]
fn distance_across_kinds_is_incomparable() {
    assert_eq!(DataTypeValue::U8(1).distance(&DataTypeValue::U16(1)), None);
    assert_eq!(text("1").distance(&DataTypeValue::RcStr("1".to_string())), None);
    assert_eq!(DataTypeValue::Unknown(4).distance(&DataTypeValue::Unknown(4)), None);
}

#[test]
fn equals_refuses_other_kinds() {
    assert_eq!(DataTypeValue::I32(4).equals(&DataTypeValue::I32(4)), Ok(true));
    assert_eq!(DataTypeValue::I32(4).equals(&DataTypeValue::I32(5)), Ok(false));
    assert_eq!(DataTypeValue::I32(4).equals(&DataTypeValue::I64(4)), Err(ErrorKind::TypeMismatch));
    assert_eq!(DataTypeValue::Unknown(9).equals(&DataTypeValue::Unknown(9)), Ok(true));
    assert_eq!(DataTypeValue::Unknown(9).equals(&DataTypeValue::Unknown(8)), Ok(false));
}

#[test]
fn partial_compare_follows_natural_order() {
    assert_eq!(DataTypeValue::I8(-3).partial_compare(&DataTypeValue::I8(2)), Some(Ordering::Less));
    assert_eq!(DataTypeValue::U32(9).partial_compare(&DataTypeValue::U32(9)), Some(Ordering::Equal));
    assert_eq!(DataTypeValue::Bool(true).partial_compare(&DataTypeValue::Bool(false)), Some(Ordering::Greater));
    assert_eq!(text("apple").partial_compare(&text("apricot")), Some(Ordering::Less));
    assert_eq!(text("ab").partial_compare(&text("a")), Some(Ordering::Greater));
    assert_eq!(text("").partial_compare(&text("")), Some(Ordering::Equal));
    assert_eq!(DataTypeValue::U8(1).partial_compare(&DataTypeValue::I8(1)), None);
    assert_eq!(DataTypeValue::Unknown(1).partial_compare(&DataTypeValue::Unknown(2)), None);
}

#[test]
fn kinds_and_categories() {
    assert_eq!(DataTypeValue::U16(1).data_type(), DataType::U16);
    assert_eq!(DataTypeValue::U16(1).data_category(), DataCategory::Numerical);
    assert_eq!(DataTypeValue::Bool(false).data_category(), DataCategory::Categorical);
    assert_eq!(text("x").data_category(), DataCategory::Categorical);
    assert_eq!(DataType::F64.category(), DataCategory::Numerical);
    assert_eq!(DataType::Unknown.category(), DataCategory::Categorical);
}

#[test]
fn values_written_as_text() {
    assert_eq!(DataTypeValue::I16(-42).to_text(), "-42");
    assert_eq!(DataTypeValue::U8(0).to_text(), "0");
    assert_eq!(DataTypeValue::I128(i128::MIN).to_text(), i128::MIN.to_string());
    assert_eq!(DataTypeValue::U128(u128::MAX).to_text(), u128::MAX.to_string());
    assert_eq!(DataTypeValue::Bool(true).to_text(), "true");
    assert_eq!(text("red").to_text(), "red");
    assert_eq!(DataTypeValue::Unknown(3).to_text(), "?");
}

#[test]
fn text_read_as_integers() {
    assert_eq!(DataTypeValueStr("255").data_type_value(DataType::U8), Some(DataTypeValue::U8(255)));
    assert_eq!(DataTypeValueStr("256").data_type_value(DataType::U8), None);
    assert_eq!(DataTypeValueStr("+7").data_type_value(DataType::U32), Some(DataTypeValue::U32(7)));
    assert_eq!(DataTypeValueStr("-0").data_type_value(DataType::U8), None);
    assert_eq!(DataTypeValueStr("-128").data_type_value(DataType::I8), Some(DataTypeValue::I8(-128)));
    assert_eq!(DataTypeValueStr("-129").data_type_value(DataType::I8), None);
    assert_eq!(DataTypeValueStr("0042").data_type_value(DataType::I64), Some(DataTypeValue::I64(42)));
    assert_eq!(DataTypeValueStr("").data_type_value(DataType::I64), None);
    assert_eq!(DataTypeValueStr("-").data_type_value(DataType::I64), None);
    assert_eq!(DataTypeValueStr("1 2").data_type_value(DataType::I64), None);
    assert_eq!(
        DataTypeValueStr("-170141183460469231731687303715884105728").data_type_value(DataType::I128),
        Some(DataTypeValue::I128(i128::MIN))
    );
    assert_eq!(
        DataTypeValueStr("340282366920938463463374607431768211455").data_type_value(DataType::U128),
        Some(DataTypeValue::U128(u128::MAX))
    );
    assert_eq!(
        DataTypeValueStr("340282366920938463463374607431768211456").data_type_value(DataType::U128),
        None
    );
}

#[test]
fn text_read_as_other_kinds() {
    assert_eq!(DataTypeValueStr("true").data_type_value(DataType::Bool), Some(DataTypeValue::Bool(true)));
    assert_eq!(DataTypeValueStr("false").data_type_value(DataType::Bool), Some(DataTypeValue::Bool(false)));
    assert_eq!(DataTypeValueStr("True").data_type_value(DataType::Bool), None);
    assert_eq!(DataTypeValueStr("abc").data_type_value(DataType::String), Some(text("abc")));
    assert_eq!(
        DataTypeValueStr("abc").data_type_value(DataType::RcStr),
        Some(DataTypeValue::RcStr("abc".to_string()))
    );
    assert_eq!(DataTypeValueStr("1.5").data_type_value(DataType::F32), None);
    assert_eq!(DataTypeValueStr("x").data_type_value(DataType::Unknown), None);
}
