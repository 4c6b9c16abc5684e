use block_sampler::format::{format_bytes, format_value, generate_csv_from_timestamped_data};
use block_sampler::value::DecodedValue;

fn uint(n: u64) -> DecodedValue {
    DecodedValue::Uint([n, 0, 0, 0], 256)
}

#[test]
fn bool_values() {
    assert_eq!(format_value(&DecodedValue::Bool(true)), "true");
    assert_eq!(format_value(&DecodedValue::Bool(false)), "false");
}

#[test]
fn unsigned_small_and_max() {
    assert_eq!(format_value(&uint(42)), "42");
    assert_eq!(format_value(&uint(0)), "0");
    let max = DecodedValue::Uint([u64::MAX; 4], 256);
    assert_eq!(
        format_value(&max),
        "115792089237316195423570985008687907853269984665640564039457584007913129639935"
    );
    let two_pow_64 = DecodedValue::Uint([0, 1, 0, 0], 256);
    assert_eq!(format_value(&two_pow_64), "18446744073709551616");
}

#[test]
fn signed_values() {
    assert_eq!(format_value(&DecodedValue::Int([5, 0, 0, 0], 256)), "5");
    assert_eq!(format_value(&DecodedValue::Int([u64::MAX; 4], 256)), "-1");
    let min = DecodedValue::Int([0, 0, 0, 1u64 << 63], 256);
    assert_eq!(
        format_value(&min),
        "-57896044618658097711785492504343953926634992332820282019728792003956564819968"
    );
}

#[test]
fn fixed_word_in_lower_hex() {
    let v = DecodedValue::FixedBytes([0xab; 32], 32);
    assert_eq!(format_value(&v), format!("0x{}", "ab".repeat(32)));
    let mut w = [0u8; 32];
    w[31] = 0x0f;
    assert_eq!(format_value(&DecodedValue::FixedBytes(w, 1)), format!("0x{}0f", "00".repeat(31)));
}

#[test]
fn function_selector_in_lower_hex() {
    let v = DecodedValue::Function([0x01; 24]);
    assert_eq!(format_value(&v), format!("0x{}", "01".repeat(24)));
}

#[test]
fn address_is_checksummed() {
    let a: [u8; 20] = [
        0x5a, 0xae, 0xb6, 0x05, 0x3f, 0x3e, 0x94, 0xc9, 0xb9, 0xa0, 0x9f, 0x33, 0x66, 0x94, 0x35,
        0xe7, 0xef, 0x1b, 0xea, 0xed,
    ];
    assert_eq!(
        format_value(&DecodedValue::Address(a)),
        "0x5aAeb6053F3E94C9b9A09f33669435E7Ef1BeAed"
    );
}

#[test]
fn byte_string_as_upper_hex_list() {
    assert_eq!(format_bytes(&vec![0x1f, 0x0a, 0x00]), "[1F, A, 0]");
    assert_eq!(format_bytes(&vec![]), "[]");
    assert_eq!(format_value(&DecodedValue::Bytes(vec![0xff])), "[FF]");
}

#[test]
fn text_is_kept() {
    assert_eq!(format_value(&DecodedValue::Str("hi there".to_string())), "hi there");
}

#[test]
fn composites_join_without_leading_separator() {
    let arr = DecodedValue::Array(vec![uint(1), DecodedValue::Bool(true)]);
    assert_eq!(format_value(&arr), "1, true");
    let nested = DecodedValue::Tuple(vec![
        DecodedValue::FixedArray(vec![uint(1), uint(2)]),
        DecodedValue::Str("x".to_string()),
    ]);
    assert_eq!(format_value(&nested), "1, 2, x");
    assert_eq!(format_value(&DecodedValue::Array(vec![])), "");
}

#[test]
fn two_samples_render_as_two_rows() {
    let data = vec![(100u64, vec![uint(42)]), (200u64, vec![uint(43)])];
    assert_eq!(generate_csv_from_timestamped_data(data), "100,42\n200,43\n");
}

#[test]
fn rows_with_several_or_no_values() {
    let data = vec![
        (7u64, vec![]),
        (8u64, vec![uint(1), DecodedValue::Tuple(vec![uint(2), uint(3)])]),
    ];
    assert_eq!(generate_csv_from_timestamped_data(data), "7\n8,1,2, 3\n");
    assert_eq!(generate_csv_from_timestamped_data(vec![]), "");
}
