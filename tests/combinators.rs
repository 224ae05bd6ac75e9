use std::convert::Infallible;

use parsa::builtins::{take, word, BetweenErr, FloatErr, IntErr, Next, TakeErr, Whitespace, Word, WordErr};
use parsa::combinators::{Chain, Many, Or};
use parsa::{Combine, Parsable, ParseResult, Parser, ParserString};

#[derive(Debug, PartialEq, Eq)]
struct Abc;

#[derive(Debug, PartialEq, Eq)]
struct Def;

#[derive(Debug, PartialEq, Eq)]
enum Tag {
    Abc(Abc),
    Def(Def),
}

impl Parsable for Abc {
    type Err = TakeErr;
    fn parse(s: &mut ParserString) -> Result<Self, Self::Err> {
        take("abc").map(|_: &'static str| Abc).parse(s)
    }
}

impl Parsable for Def {
    type Err = TakeErr;
    fn parse(s: &mut ParserString) -> Result<Self, Self::Err> {
        take("def").map(|_: &'static str| Def).parse(s)
    }
}

impl Parsable for Tag {
    type Err = ();
    fn parse(s: &mut ParserString) -> Result<Self, Self::Err> {
        take("abc")
            .map(|_: &'static str| Tag::Abc(Abc))
            .or(take("def").map(|_: &'static str| Tag::Def(Def)))
            .map_err(|_: TakeErr| ())
            .parse(s)
    }
}

#[test]
fn or_tries_the_second_after_the_first_fails() {
    let mut input = ParserString::from("abcdef");
    assert!(Tag::parse(&mut input).is_ok_and(|t| t == Tag::Abc(Abc)));
    assert!(Tag::parse(&mut input).is_ok_and(|t| t == Tag::Def(Def)));
}

#[test]
fn alternation_twice_over_abcdef() {
    let alt = take("abc").or(take("def"));
    let mut input = ParserString::from("abcdef");
    assert_eq!(alt.parse(&mut input), Ok("abc"));
    assert_eq!(input.get(), "def");
    assert_eq!(alt.parse(&mut input), Ok("def"));
    assert_eq!(input.get(), "");
}

#[test]
fn alternation_failure_leaves_the_cursor() {
    let alt = Or::new(take("abc"), take("def"));
    let mut input = ParserString::from("xyz");
    assert_eq!(alt.parse(&mut input), Err(TakeErr::NoMatch));
    assert_eq!(input.get(), "xyz");
    assert_eq!(input.start(), 0);
}

#[test]
fn alternation_built_with_or_leaves_the_cursor() {
    let alt = take("abc").or(take("def"));
    let mut input = ParserString::from("xyz");
    assert_eq!(alt.parse(&mut input), Err(TakeErr::NoMatch));
    assert_eq!(input.get(), "xyz");
}

#[test]
fn alternation_wrapped_to_rewind_leaves_the_cursor() {
    let alt = take("abc").or(take("def")).rewind_on_failure();
    let mut input = ParserString::from("xyz");
    assert_eq!(alt.parse(&mut input), Err(TakeErr::NoMatch));
    assert_eq!(input.get(), "xyz");
}

#[test]
fn rewind_keeps_progress_on_success() {
    let p = take("a").chain(take("b")).rewind_on_failure();
    let mut input = ParserString::from("abc");
    assert_eq!(p.parse(&mut input), Ok(("a", "b")));
    assert_eq!(input.get(), "c");
    let mut other = ParserString::from("acb");
    assert_eq!(p.parse(&mut other), Err(TakeErr::NoMatch));
    assert_eq!(other.get(), "acb");
}

#[test]
fn alternation_failure_reports_the_second_failure() {
    let alt = take("abc").or(take("defg"));
    let mut input = ParserString::from("xyz");
    assert_eq!(alt.parse(&mut input), Err(TakeErr::NoSpace));
    assert_eq!(input.get(), "xyz");
}

#[test]
fn alternation_prefers_the_first_match() {
    let alt = take("ab").or(take("abc"));
    let mut input = ParserString::from("abc");
    assert_eq!(alt.parse(&mut input), Ok("ab"));
    assert_eq!(input.get(), "c");
}

#[test]
fn many_collects_until_failure() {
    let mut input = ParserString::from("ab cd ef gh");
    let words = Word.after(Whitespace).many().parse(&mut input).unwrap();
    assert_eq!(words, vec!["ab", "cd", "ef", "gh"]);
}

#[test]
fn many_counts_successes_before_the_first_failure() {
    let mut input = ParserString::from("ababx");
    let found = Many::new(take("ab")).parse(&mut input).unwrap();
    assert_eq!(found.len(), 2);
    assert_eq!(input.get(), "x");
}

#[test]
fn many_can_be_empty() {
    let mut input = ParserString::from("xyz");
    let found: Result<Vec<&'static str>, Infallible> = take("ab").many().parse(&mut input);
    assert_eq!(found.unwrap().len(), 0);
    assert_eq!(input.get(), "xyz");
}

#[test]
fn many_rewinds_the_failing_attempt() {
    let mut input = ParserString::from("abac");
    let found = take("ab").many().parse(&mut input).unwrap();
    assert_eq!(found, vec!["ab"]);
    assert_eq!(input.get(), "ac");
}

#[test]
fn chain_returns_both_values() {
    let mut input = ParserString::from("ab12");
    let pair = Chain::new(take("ab"), take("1")).parse(&mut input);
    assert_eq!(pair, Ok(("ab", "1")));
    assert_eq!(Next.parse(&mut input), Ok('2'));
}

#[test]
fn chain_failure_of_the_first_does_not_run_the_second() {
    let mut input = ParserString::from("xy12");
    let r = take("ab").chain(take("12")).parse(&mut input);
    assert_eq!(r, Err(TakeErr::NoMatch));
    assert_eq!(input.get(), "12");
}

#[test]
fn chain_failure_of_the_second_is_converted() {
    let mut input = ParserString::from("abc");
    let r = Word.convert_err::<IntErr<()>>().chain(Word).parse(&mut input);
    assert_eq!(r, Err(IntErr::Word(WordErr)));
}

#[test]
fn chain_is_associative_on_success() {
    let mut left_input = ParserString::from("abc");
    let left = take("a").chain(take("b")).chain(take("c")).parse(&mut left_input).unwrap();
    let mut right_input = ParserString::from("abc");
    let right = take("a").chain(take("b").chain(take("c"))).parse(&mut right_input).unwrap();
    assert_eq!(left, (("a", "b"), "c"));
    assert_eq!(right, ("a", ("b", "c")));
    assert_eq!(left_input.start(), right_input.start());
}

#[test]
fn try_parse_rewinds_on_failure() {
    let mut input = ParserString::from("abx");
    let r = take("a").chain(take("c")).try_parse(&mut input);
    assert_eq!(r, Err(TakeErr::NoMatch));
    assert_eq!(input.get(), "abx");
}

#[test]
fn try_parse_keeps_progress_on_success() {
    let mut input = ParserString::from("abx");
    let r = take("a").chain(take("b")).try_parse(&mut input);
    assert_eq!(r, Ok(("a", "b")));
    assert_eq!(input.get(), "x");
}

#[test]
fn parse_without_rewind_keeps_partial_progress() {
    let mut input = ParserString::from("abx");
    let r = take("a").chain(take("c")).parse(&mut input);
    assert_eq!(r, Err(TakeErr::NoMatch));
    assert_eq!(input.get(), "x");
}

#[test]
fn parsable_try_parse_rewinds() {
    let mut input = ParserString::from("abd");
    assert_eq!(Abc::try_parse(&mut input), Err(TakeErr::NoMatch));
    assert_eq!(input.get(), "abd");
}

#[test]
fn map_and_map_err() {
    let mut input = ParserString::from("abc");
    let len = Word.map(|w: String| w.len()).parse(&mut input);
    assert_eq!(len, Ok(3));
    let mut empty = ParserString::from("");
    let e = Word.map_err(|_: WordErr| 7u8).parse(&mut empty);
    assert_eq!(e, Err(7u8));
}

#[test]
fn and_then_converts_its_failure() {
    let p = Word.convert_err::<IntErr<std::num::ParseIntError>>()
        .and_then(|w: String| w.parse::<i32>().map_err(IntErr::Parse));
    let mut good = ParserString::from("42");
    assert_eq!(p.parse(&mut good), Ok(42));
    let mut bad = ParserString::from("4x2");
    assert!(matches!(p.parse(&mut bad), Err(IntErr::Parse(_))));
    let mut none = ParserString::from("");
    assert_eq!(p.parse(&mut none), Err(IntErr::Word(WordErr)));
}

#[test]
fn after_and_replace_keep_one_side() {
    let mut input = ParserString::from("key=val");
    let key = take("key").after(take("=")).parse(&mut input);
    assert_eq!(key, Ok("key"));
    let mut again = ParserString::from("key=val");
    let val = take("key").replace(take("=")).parse(&mut again);
    assert_eq!(val, Ok("="));
    assert_eq!(again.get(), "val");
}

#[test]
fn coercion_keeps_the_kind() {
    let from_word: IntErr<()> = IntErr::from(WordErr);
    assert!(matches!(from_word, IntErr::Word(WordErr)));
    assert_ne!(from_word, IntErr::Parse(()));
    let float_word: FloatErr<()> = FloatErr::from(WordErr);
    assert!(matches!(float_word, FloatErr::Word(WordErr)));
    assert_ne!(float_word, FloatErr::Parse(()));
}

#[test]
fn infallible_parsers_mix_into_any_composite() {
    let mut input = ParserString::from("  (x)");
    let r = Whitespace.convert_err::<BetweenErr>().parse(&mut input);
    assert_eq!(r, Ok(2));
    let mut w = ParserString::from("ab  cd");
    assert_eq!(Word.after(Whitespace).parse(&mut w), Ok(String::from("ab")));
    assert_eq!(word(&mut w), Ok(String::from("cd")));
}

#[test]
fn parse_result_predicates() {
    let ok: ParseResult<i32, &str> = ParseResult::Success(1);
    let rec: ParseResult<i32, &str> = ParseResult::Recoverable("r");
    let unrec: ParseResult<i32, &str> = ParseResult::Unrecoverable("u");
    assert!(ok.is_ok() && !ok.is_recoverable() && !ok.is_unrecoverable());
    assert!(!rec.is_ok() && rec.is_recoverable() && !rec.is_unrecoverable());
    assert!(!unrec.is_ok() && !unrec.is_recoverable() && unrec.is_unrecoverable());
}

#[test]
fn parse_result_maps() {
    let ok: ParseResult<i32, &str> = ParseResult::from(2);
    assert!(matches!(ok.map(|v: i32| v * 10), ParseResult::Success(20)));
    let rec: ParseResult<i32, &str> = ParseResult::Recoverable("r");
    assert!(matches!(rec.map(|v: i32| v * 10), ParseResult::Recoverable("r")));
    let unrec: ParseResult<i32, &str> = ParseResult::Unrecoverable("u");
    assert!(matches!(unrec.map_err(|e: &str| e.len()), ParseResult::Unrecoverable(1)));
    let ok2: ParseResult<i32, &str> = ParseResult::Success(5);
    assert!(matches!(ok2.map_err(|e: &str| e.len()), ParseResult::Success(5)));
}

#[test]
fn parse_result_replaces() {
    let ok: ParseResult<i32, &str> = ParseResult::Success(2);
    assert!(matches!(ok.replace('x'), ParseResult::Success('x')));
    let rec: ParseResult<i32, &str> = ParseResult::Recoverable("r");
    assert!(matches!(rec.replace('x'), ParseResult::Recoverable("r")));
    let rec2: ParseResult<i32, &str> = ParseResult::Recoverable("r");
    assert!(matches!(rec2.replace_err(9u8), ParseResult::Recoverable(9u8)));
    let unrec: ParseResult<i32, &str> = ParseResult::Unrecoverable("u");
    assert!(matches!(unrec.replace_err(9u8), ParseResult::Unrecoverable(9u8)));
    let ok2: ParseResult<i32, &str> = ParseResult::Success(3);
    assert!(matches!(ok2.replace_err(9u8), ParseResult::Success(3)));
}
