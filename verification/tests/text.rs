use sql_to_mir::text::{
    joined, joined3, decimal_string, hex_string, signed_decimal_string, str_less, str_same,
    strip_trailing_string,
};
use sql_to_mir::universe::universe_suffix_string;
use sql_to_mir::value::DataType;

#[test]
fn decimal_numerals_have_no_leading_zeros() {
    assert_eq!(decimal_string(0), "0");
    assert_eq!(decimal_string(7), "7");
    assert_eq!(decimal_string(10), "10");
    assert_eq!(decimal_string(4096), "4096");
    assert_eq!(decimal_string(u64::MAX), "18446744073709551615");
}

#[test]
fn hexadecimal_numerals_are_lower_case() {
    assert_eq!(hex_string(0), "0");
    assert_eq!(hex_string(15), "f");
    assert_eq!(hex_string(16), "10");
    assert_eq!(hex_string(0xabc), "abc");
    assert_eq!(hex_string(0xdead_beef), "deadbeef");
    assert_eq!(hex_string(u64::MAX), "ffffffffffffffff");
}

#[test]
fn signed_numerals_carry_a_minus_sign() {
    assert_eq!(signed_decimal_string(0), "0");
    assert_eq!(signed_decimal_string(42), "42");
    assert_eq!(signed_decimal_string(-1), "-1");
    assert_eq!(signed_decimal_string(i64::MIN), "-9223372036854775808");
    assert_eq!(signed_decimal_string(i64::MAX), "9223372036854775807");
}

#[test]
fn concatenation_keeps_the_order() {
    assert_eq!(joined("q_", "abc"), "q_abc");
    assert_eq!(joined("", ""), "");
    assert_eq!(joined3("q", "_n", "12"), "q_n12");
}

#[test]
fn text_order_is_lexicographic() {
    assert!(str_less("a", "b"));
    assert!(!str_less("b", "a"));
    assert!(!str_less("a", "a"));
    assert!(str_less("", "a"));
    assert!(!str_less("a", ""));
    assert!(str_less("ab", "abc"));
    assert!(str_less("B", "a"));
    assert!(str_less("computed_columns", "t"));
    assert!(str_less("z", "é"));
}

#[test]
fn text_equality_compares_characters() {
    assert!(str_same("users", "users"));
    assert!(!str_same("users", "user"));
    assert!(str_same("", ""));
}

#[test]
fn trailing_suffix_is_stripped_repeatedly() {
    assert_eq!(strip_trailing_string("q_u7", "_u7"), "q");
    assert_eq!(strip_trailing_string("q_u7_u7", "_u7"), "q");
    assert_eq!(strip_trailing_string("q_u7x", "_u7"), "q_u7x");
    assert_eq!(strip_trailing_string("q", ""), "q");
    assert_eq!(strip_trailing_string("_u7", "_u7"), "");
    assert_eq!(strip_trailing_string("u7", "_u7"), "u7");
}

#[test]
fn universe_suffix_is_empty_for_the_global_universe() {
    assert_eq!(universe_suffix_string(&DataType::Text("global".to_string())), "");
    assert_eq!(universe_suffix_string(&DataType::Int(7)), "_u7");
    assert_eq!(universe_suffix_string(&DataType::BigInt(-3)), "_u-3");
    assert_eq!(universe_suffix_string(&DataType::Text("alice".to_string())), "_ualice");
    assert_eq!(universe_suffix_string(&DataType::Null), "_u*");
}

#[test]
fn values_render_for_names() {
    assert_eq!(DataType::Int(12).render(), "12");
    assert_eq!(DataType::BigInt(-12).render(), "-12");
    assert_eq!(DataType::Text("g".to_string()).render(), "g");
    assert_eq!(DataType::Null.render(), "*");
}
