use parsa::builtins::{
    between, float_with, integer_with, next, take, whitespace, word, BetweenErr, FloatErr, IntErr,
    Next, TakeErr, Whitespace, Word, WordErr,
};
use parsa::{Combine, Parser, ParserString};

#[test]
fn next_reads_one_scalar_value() {
    let mut input = ParserString::from("abc");
    assert_eq!(next(&mut input), Ok('a'));
    assert_eq!(next(&mut input), Ok('b'));
    assert_eq!(next(&mut input), Ok('c'));
    assert_eq!(next(&mut input), Err(()));
}

#[test]
fn next_on_empty_input_fails() {
    let mut input = ParserString::from("");
    assert_eq!(next(&mut input), Err(()));
    assert_eq!(Next.parse(&mut input), Err(()));
}

#[test]
fn word_stops_at_whitespace() {
    let mut input = ParserString::from("abc 123");
    assert!(word(&mut input).is_ok_and(|s| s == "abc"));
    assert_eq!(input.get(), " 123");
    input.take(1);
    assert!(word(&mut input).is_ok_and(|s| s == "123"));
    assert_eq!(word(&mut input), Err(WordErr));
}

#[test]
fn word_fails_on_leading_whitespace_and_reads_nothing() {
    let mut input = ParserString::from(" abc");
    assert_eq!(word(&mut input), Err(WordErr));
    assert_eq!(input.get(), " abc");
}

#[test]
fn word_stops_at_a_newline() {
    let mut input = ParserString::from("ab\ncd");
    assert_eq!(word(&mut input), Ok(String::from("ab")));
    assert_eq!(input.get(), "\ncd");
}

#[test]
fn whitespace_counts_spaces() {
    let mut input = ParserString::from("    abc");
    assert_eq!(whitespace(&mut input), Ok(4));
    assert_eq!(input.get(), "abc");
    assert_eq!(whitespace(&mut input), Ok(0));
    assert_eq!(input.get(), "abc");
}

#[test]
fn whitespace_keeps_a_last_character() {
    let mut input = ParserString::from("  x");
    assert_eq!(whitespace(&mut input), Ok(2));
    assert_eq!(input.get(), "x");
}

#[test]
fn whitespace_to_the_end() {
    let mut input = ParserString::from("abc   ");
    assert_eq!(word(&mut input), Ok(String::from("abc")));
    assert_eq!(whitespace(&mut input), Ok(3));
    assert_eq!(input.get(), "");
}

#[test]
fn whitespace_is_ascii_space_only() {
    let mut input = ParserString::from("\t a");
    assert_eq!(Whitespace.parse(&mut input), Ok(0));
    assert_eq!(input.get(), "\t a");
}

#[test]
fn word_whitespace_word() {
    let mut input = ParserString::from("abc 123");
    assert_eq!(Word.parse(&mut input), Ok(String::from("abc")));
    assert_eq!(Whitespace.parse(&mut input), Ok(1));
    assert_eq!(Word.parse(&mut input), Ok(String::from("123")));
}

#[test]
fn take_reads_a_delimiter() {
    let mut input = ParserString::from("abc 123");
    let head = take("ab").parse(&mut input);
    assert!(head.is_ok_and(|s| s == "ab"));
    assert_eq!(input.get(), "c 123");
}

#[test]
fn take_mismatch_is_not_put_back() {
    let mut input = ParserString::from("xyz");
    assert_eq!(take("ab").parse(&mut input), Err(TakeErr::NoMatch));
    assert_eq!(input.get(), "z");
}

#[test]
fn take_without_enough_input() {
    let mut input = ParserString::from("a");
    assert_eq!(take("ab").parse(&mut input), Err(TakeErr::NoSpace));
    assert_eq!(input.get(), "a");
}

#[test]
fn take_counts_scalar_values_of_the_delimiter() {
    let mut input = ParserString::from("∈x");
    assert_eq!(take("∈").parse(&mut input), Ok("∈"));
    assert_eq!(input.get(), "x");
}

#[test]
fn between_reads_a_segment() {
    let mut input = ParserString::from("(abc) ");
    let middle = between("(", ")").parse(&mut input);
    assert!(middle.is_ok_and(|s| s == "abc"));
    assert!(next(&mut input).is_ok_and(|c| c == ' '));
}

#[test]
fn between_stops_at_the_first_closer() {
    let mut input = ParserString::from("<<a>>b>>");
    assert_eq!(between("<<", ">>").parse(&mut input), Ok(String::from("a")));
    assert_eq!(input.get(), "b>>");
}

#[test]
fn between_without_opener() {
    let mut input = ParserString::from("abc)");
    assert_eq!(between("(", ")").parse(&mut input), Err(BetweenErr::NoOpen));
}

#[test]
fn between_without_closer() {
    let mut input = ParserString::from("(abc");
    assert_eq!(between("(", ")").parse(&mut input), Err(BetweenErr::Unmatched));
    assert_eq!(input.get(), "");
}

#[test]
fn between_empty_segment() {
    let mut input = ParserString::from("()x");
    assert_eq!(between("(", ")").parse(&mut input), Ok(String::new()));
    assert_eq!(input.get(), "x");
}

#[test]
fn integer_reads_a_word() {
    let mut input = ParserString::from("123");
    let num = integer_with(&mut input, |w: &str| w.parse::<i32>());
    assert!(num.is_ok_and(|i| i == 123));
}

#[test]
fn integer_without_a_word() {
    let mut input = ParserString::from(" 1");
    let num = integer_with(&mut input, |w: &str| w.parse::<i32>());
    assert_eq!(num, Err(IntErr::Word(WordErr)));
}

#[test]
fn integer_malformed() {
    let mut input = ParserString::from("12a rest");
    let num = integer_with(&mut input, |w: &str| w.parse::<i32>());
    assert!(matches!(num, Err(IntErr::Parse(_))));
    assert_eq!(input.get(), " rest");
}

#[test]
fn float_reads_a_word() {
    let mut input = ParserString::from("123.4");
    let num = float_with(&mut input, |w: &str| w.parse::<f32>());
    assert!(num.is_ok_and(|i| i == 123.4));
}

#[test]
fn float_errors() {
    let mut input = ParserString::from("");
    let num = float_with(&mut input, |w: &str| w.parse::<f64>());
    assert_eq!(num, Err(FloatErr::Word(WordErr)));
    let mut bad = ParserString::from("x.y");
    let num = float_with(&mut bad, |w: &str| w.parse::<f64>());
    assert!(matches!(num, Err(FloatErr::Parse(_))));
}

#[test]
fn descriptions() {
    assert_eq!(WordErr.describe(), "found no characters");
    assert_eq!(TakeErr::NoSpace.describe(), "ran out of space");
    assert_eq!(TakeErr::NoMatch.describe(), "did not match delim");
    assert_eq!(BetweenErr::NoOpen.describe(), "opener was not found");
    assert_eq!(BetweenErr::Unmatched.describe(), "string ended before closer was found");
}

#[test]
fn chain_of_word_and_whitespace() {
    let mut input = ParserString::from("abc   ");
    let (string, after) = Word.chain(Whitespace).parse(&mut input).unwrap();
    assert_eq!(string, "abc");
    assert_eq!(after, 3);
}
