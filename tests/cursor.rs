use parsa::ParserString;

#[test]
fn take_splits_off_the_front() {
    let mut input = ParserString::from("abc123");
    assert_eq!(input.take(3), "abc");
    assert_eq!(input.take(3), "123");
}

#[test]
fn take_counts_scalar_values() {
    let mut input = ParserString::from("🗻∈🌏");
    assert_eq!(input.take(2), "🗻∈");
    assert_eq!(input.take(1), "🌏");
    assert_eq!(input.len(), 0);
}

#[test]
fn take_then_remaining_is_stripped() {
    let mut input = ParserString::from("abc123");
    assert_eq!(input.take(3), "abc");
    assert_eq!(input.get(), "123");
}

#[test]
fn take_zero_reads_nothing() {
    let mut input = ParserString::from("abc");
    assert_eq!(input.take(0), "");
    assert_eq!(input.get(), "abc");
    assert_eq!(input.start(), 0);
}

#[test]
fn try_take_checks_what_is_left() {
    let mut input = ParserString::from("abc123");
    assert_eq!(input.try_take(5), Some("abc12"));
    assert_eq!(input.try_take(5), None);
    assert_eq!(input.get(), "3");
    assert_eq!(input.try_take(1), Some("3"));
    assert_eq!(input.try_take(0), Some(""));
}

#[test]
fn try_take_counts_scalar_values_not_bytes() {
    let mut input = ParserString::from("é");
    assert_eq!(input.try_take(2), None);
    assert_eq!(input.get(), "é");
}

#[test]
fn give_rewinds() {
    let mut input = ParserString::from("abc123");
    assert_eq!(input.take(3), "abc");
    input.give(3);
    assert_eq!(input.take(3), "abc");
    assert_eq!(input.take(3), "123");
}

#[test]
fn give_rewinds_over_wide_characters() {
    let mut input = ParserString::from("∈ab");
    assert_eq!(input.take(2), "∈a");
    input.give(1);
    assert_eq!(input.get(), "ab");
    assert_eq!(input.start(), 3);
}

#[test]
fn set_ptr_jumps_to_a_byte_offset() {
    let mut input = ParserString::from("abc123");
    input.set_ptr(3);
    assert_eq!(input.get(), "123");
    let mut wide = ParserString::from("🗻∈🌏");
    wide.set_ptr(7);
    assert_eq!(wide.get(), "🌏");
}

#[test]
fn get_does_not_read() {
    let mut input = ParserString::from("abc123");
    let _ = input.take(2);
    assert_eq!(input.get(), "c123");
    assert_eq!(input.get(), "c123");
}

#[test]
fn len_counts_what_is_left() {
    let mut input = ParserString::from("abc123");
    let _ = input.take(2);
    assert_eq!(input.len(), 4);
    let mut wide = ParserString::from("🗻∈🌏");
    let _ = wide.take(1);
    assert_eq!(wide.len(), 2);
}

#[test]
fn start_is_a_byte_offset() {
    let mut input = ParserString::from("abc123");
    let _ = input.take(2);
    assert_eq!(input.start(), 2);
    let mut wide = ParserString::from("🗻∈🌏");
    let _ = wide.take(2);
    assert_eq!(wide.start(), 7);
}

#[test]
fn from_owned_string() {
    let input = ParserString::from(String::from("xyz"));
    assert_eq!(input.get(), "xyz");
    assert_eq!(input.len(), 3);
}

#[test]
fn empty_input() {
    let mut input = ParserString::from("");
    assert_eq!(input.len(), 0);
    assert_eq!(input.get(), "");
    assert_eq!(input.try_take(1), None);
}

#[test]
fn char_width_of_each_encoding_length() {
    assert_eq!(parsa::cursor::char_width('a'), 1);
    assert_eq!(parsa::cursor::char_width('é'), 2);
    assert_eq!(parsa::cursor::char_width('∈'), 3);
    assert_eq!(parsa::cursor::char_width('🗻'), 4);
}
