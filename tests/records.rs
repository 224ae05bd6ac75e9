use std::convert::Infallible;
use std::num::ParseIntError;

use parsa::builtins::{take, word, TakeErr, Whitespace, Word, WordErr};
use parsa::{Combine, Parsable, Parser, ParserString};

#[derive(Debug, PartialEq, Eq)]
struct Var {
    name: String,
    val: i32,
}

#[derive(Debug)]
enum VarErr {
    Take(TakeErr),
    Word(WordErr),
    ParseInt(ParseIntError),
}

impl From<TakeErr> for VarErr {
    fn from(e: TakeErr) -> Self {
        VarErr::Take(e)
    }
}

impl From<WordErr> for VarErr {
    fn from(e: WordErr) -> Self {
        VarErr::Word(e)
    }
}

impl From<ParseIntError> for VarErr {
    fn from(e: ParseIntError) -> Self {
        VarErr::ParseInt(e)
    }
}

impl From<Infallible> for VarErr {
    fn from(e: Infallible) -> Self {
        match e {}
    }
}

impl Parsable for Var {
    type Err = VarErr;

    fn parse(s: &mut ParserString) -> Result<Self, Self::Err> {
        let name = Word
            .convert_err::<VarErr>()
            .after(Whitespace)
            .after(take("=").after(Whitespace))
            .parse(s)?;
        let val = Word
            .convert_err::<VarErr>()
            .and_then(|s: String| s.parse::<i32>())
            .parse(s)?;
        Ok(Self { name, val })
    }
}

#[test]
fn var_parse() {
    let mut inp = ParserString::from("val = 123");
    let res = Var::parse(&mut inp).unwrap();
    assert_eq!(Var { name: "val".to_owned(), val: 123 }, res);
}

#[test]
fn utf8() {
    let input = "🗻∈🌏";
    let mut pstring = ParserString::from(input);
    assert_eq!(pstring.get(), input);
    assert_eq!(pstring.take(1), "🗻");
}

#[test]
fn display_test() {
    let inp = ParserString::from("val = 123");
    println!("{:?}", &inp);
    println!("{}", inp.get());
}

#[test]
fn weird_many_bug() {
    let mut input = ParserString::from("abc 123");

    assert!(word(&mut input).is_ok_and(|s| s == "abc"));
    input.take(1);
    assert!(word(&mut input).is_ok_and(|s| s == "123"));

    let mut input = ParserString::from("abc 123");
    let vec = Word.map(|v: String| v).after(Whitespace.map(|i: usize| i))
        .many().parse(&mut input).unwrap();
    assert_eq!(vec, vec!["abc", "123"]);
}
