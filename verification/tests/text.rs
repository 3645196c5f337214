use server_core::frames::strip_template;
use server_core::state::parse_data_id;
use server_core::text::{
    chars_of, ends_with, guess_mime, same_text, text_of, to_decimal, to_hex, to_hex_u64, to_padded_decimal,
};

#[test]
fn a_text_is_taken_apart_and_put_together() {
    assert_eq!(chars_of("héllo"), vec!['h', 'é', 'l', 'l', 'o']);
    assert_eq!(chars_of(""), Vec::<char>::new());
    assert_eq!(text_of(&['a', 'ß', 'c']), "aßc");
    assert_eq!(text_of(&[]), "");
    assert_eq!(text_of(&chars_of("round trip")), "round trip");
}

#[test]
fn texts_are_the_same_if_they_hold_the_same_characters() {
    assert!(same_text("last", "last"));
    assert!(!same_text("last", "Last"));
    assert!(!same_text("last", "las"));
    assert!(same_text("", ""));
}

#[test]
fn characters_end_with_others() {
    let name = chars_of("operator");
    assert!(ends_with(&name, &['t', 'o', 'r']));
    assert!(ends_with(&name, &[]));
    assert!(ends_with(&name, &chars_of("operator")));
    assert!(!ends_with(&name, &['t', 'o']));
    assert!(!ends_with(&name, &chars_of("an operator")));
}

#[test]
fn the_kind_of_a_file_is_told_by_the_end_of_its_name() {
    assert_eq!(guess_mime("index.html"), "text/html");
    assert_eq!(guess_mime("style.css"), "text/css");
    assert_eq!(guess_mime("bundle.js"), "text/javascript");
    assert_eq!(guess_mime("logo.svg"), "image/svg+xml");
    assert_eq!(guess_mime("font.woff"), "font/woff");
    assert_eq!(guess_mime("font.woff2"), "font/woff2");
    assert_eq!(guess_mime("font.ttf"), "font/ttf");
    assert_eq!(guess_mime("font.eot"), "application/vnd.ms-fontobject");
    assert_eq!(guess_mime("data.bin"), "application/octet-stream");
    assert_eq!(guess_mime("html"), "application/octet-stream");
    assert_eq!(guess_mime(""), "application/octet-stream");
    assert_eq!(guess_mime(".html"), "text/html");
    assert_eq!(guess_mime("page.HTML"), "application/octet-stream");
}

#[test]
fn bytes_are_written_with_two_digits_each() {
    assert_eq!(to_hex(&[]), "");
    assert_eq!(to_hex(&[0x00, 0x0f, 0xa0, 0xff]), "000fa0ff");
    assert_eq!(to_hex(&[0x12, 0x34, 0x56, 0x78, 0x9a, 0xbc, 0xde]), "123456789abcde");
}

#[test]
fn an_address_is_written_with_sixteen_digits() {
    assert_eq!(to_hex_u64(0), "0000000000000000");
    assert_eq!(to_hex_u64(0x1000), "0000000000001000");
    assert_eq!(to_hex_u64(0xdead_beef), "00000000DEADBEEF");
    assert_eq!(to_hex_u64(u64::MAX), "FFFFFFFFFFFFFFFF");
    assert_eq!(to_hex_u64(0x0123_4567_89ab_cdef), "0123456789ABCDEF");
}

#[test]
fn a_number_is_written_to_the_base_ten() {
    assert_eq!(to_decimal(0), "0");
    assert_eq!(to_decimal(7), "7");
    assert_eq!(to_decimal(10), "10");
    assert_eq!(to_decimal(4096), "4096");
    assert_eq!(to_decimal(u64::MAX), "18446744073709551615");
}

#[test]
fn a_number_is_filled_up_to_sixteen_digits() {
    assert_eq!(to_padded_decimal(0), "0000000000000000");
    assert_eq!(to_padded_decimal(4096), "0000000000004096");
    assert_eq!(to_padded_decimal(1234567890123456), "1234567890123456");
    assert_eq!(to_padded_decimal(12345678901234567), "12345678901234567");
    assert_eq!(to_padded_decimal(u64::MAX), "18446744073709551615");
}

#[test]
fn template_arguments_are_taken_out_of_a_name() {
    assert_eq!(strip_template("main"), "main");
    assert_eq!(strip_template(""), "");
    assert_eq!(strip_template("std::vector<int>::push_back"), "std::vector<...>::push_back");
    assert_eq!(strip_template("map<string, vector<int>>::at"), "map<...>::at");
    assert_eq!(strip_template("a<b>::c<d<e>>"), "a<...>::c<...>");
    assert_eq!(strip_template("f<>"), "f<...>");
}

#[test]
fn an_operator_is_no_template() {
    assert_eq!(strip_template("operator<"), "operator<");
    assert_eq!(strip_template("operator<<"), "operator<<");
    assert_eq!(strip_template("Foo::operator<(Foo const&)"), "Foo::operator<(Foo const&)");
    assert_eq!(strip_template("operator< <int>"), "operator< <...>");
}

#[test]
fn of_a_template_that_is_never_closed_the_inside_is_kept() {
    assert_eq!(strip_template("a<b"), "a<b");
    assert_eq!(strip_template("a<b<c>"), "a<b<c");
    assert_eq!(strip_template("a>b"), "a>b");
}

#[test]
fn the_id_of_a_capture_is_read_from_digits() {
    assert_eq!(parse_data_id("0"), Some(0));
    assert_eq!(parse_data_id("42"), Some(42));
    assert_eq!(parse_data_id("007"), Some(7));
    assert_eq!(parse_data_id("18446744073709551615"), Some(u64::MAX));
    assert_eq!(parse_data_id("18446744073709551616"), None);
    assert_eq!(parse_data_id("99999999999999999999999"), None);
    assert_eq!(parse_data_id(""), None);
    assert_eq!(parse_data_id("last"), None);
    assert_eq!(parse_data_id("12a"), None);
    assert_eq!(parse_data_id("-1"), None);
    assert_eq!(parse_data_id("+1"), None);
    assert_eq!(parse_data_id(" 1"), None);
    assert_eq!(parse_data_id(&to_decimal(123456789)), Some(123456789));
}
