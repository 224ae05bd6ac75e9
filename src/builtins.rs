//! Ready-made parsers: single scalar values, words, runs of spaces, literal
//! delimiters, delimited segments and numbers.
//!
//! See the [failure coercion rules](crate::combinators) for how their failure
//! types combine.
use core::convert::Infallible;
use vstd::prelude::*;
use vstd::string::StrSliceExecFns;

use crate::cursor::{ParserString, utf8_width};
use crate::parser::Parser;

verus! {

/// Whether `c` has the Unicode `White_Space` property, as
/// [`char::is_whitespace`] decides it.
pub uninterp spec fn white_space(c: char) -> bool;

/// Relies on `char::is_whitespace`: whether `c` has the Unicode `White_Space`
/// property, a fact of `c` alone.
#[verifier::external_body]
fn is_white_space(c: char) -> (r: bool)
    ensures
        r == white_space(c),
{
    c.is_whitespace()
}

/// Relies on `String::push`: appends `c` to the end of `s`.
#[verifier::external_body]
fn push_char(s: &mut String, c: char)
    ensures
        final(s)@ == old(s)@.push(c),
{
    s.push(c)
}

/// Relies on `str`'s `==`: two string slices are equal when they hold the same
/// scalar values.
#[verifier::external_body]
fn same_text(a: &str, b: &str) -> (r: bool)
    ensures
        r == (a@ == b@),
{
    a == b
}

/// Length of the longest prefix of `rest` in which no scalar value meets
/// `stop`.
pub open spec fn run_len(rest: Seq<char>, stop: spec_fn(char) -> bool) -> nat
    decreases rest.len(),
{
    if rest.len() == 0 || stop(rest[0]) {
        0
    } else {
        1 + run_len(rest.drop_first(), stop)
    }
}

/// `run_len` is the first index at which `stop` holds, or the length.
pub proof fn lemma_run_len(rest: Seq<char>, stop: spec_fn(char) -> bool, n: int)
    requires
        0 <= n <= rest.len(),
        forall|k: int| 0 <= k < n ==> !stop(#[trigger] rest[k]),
        n == rest.len() || stop(rest[n]),
    ensures
        run_len(rest, stop) == n,
    decreases n,
{
    if n > 0 {
        assert(!stop(rest[0]));
        let tail = rest.drop_first();
        assert forall|k: int| 0 <= k < n - 1 implies !stop(#[trigger] tail[k]) by {
            assert(tail[k] == rest[k + 1]);
        }
        if n < rest.len() {
            assert(tail[n - 1] == rest[n]);
        }
        lemma_run_len(tail, stop, n - 1);
    }
}

/// Where a word stops: at whitespace.
pub open spec fn ends_word() -> spec_fn(char) -> bool {
    |c: char| white_space(c)
}

/// Where a run of spaces stops: at anything but an ASCII space.
pub open spec fn ends_spaces() -> spec_fn(char) -> bool {
    |c: char| c != ' '
}

/// Number of scalar values of the word at the start of `rest`.
pub open spec fn word_len(rest: Seq<char>) -> nat {
    run_len(rest, ends_word())
}

/// Number of ASCII spaces at the start of `rest`.
pub open spec fn spaces_len(rest: Seq<char>) -> nat {
    run_len(rest, ends_spaces())
}

/// What is left of `text` from `pos`.
pub open spec fn rest_of(text: Seq<char>, pos: int) -> Seq<char> {
    text.subrange(pos, text.len() as int)
}

/// Indicates that a [`word`] parser has failed: it found no characters.
#[derive(Debug, Clone, Copy, PartialEq, Eq)]
pub struct WordErr;

impl WordErr {
    /// A description of this failure.
    pub fn describe(&self) -> (r: &'static str)
        ensures
            r@ == "found no characters"@,
    {
        "found no characters"
    }
}

impl From<Infallible> for WordErr {
    /// `Infallible` has no values, so this never runs.
    fn from(value: Infallible) -> (r: WordErr) {
        WordErr
    }
}

impl vstd::std_specs::convert::FromSpecImpl<Infallible> for WordErr {
    open spec fn obeys_from_spec() -> bool {
        true
    }

    open spec fn from_spec(v: Infallible) -> WordErr {
        WordErr
    }
}

/// Returns the next scalar value, or `Err(())` when nothing is left.
pub fn next(s: &mut ParserString) -> (r: Result<char, ()>)
    ensures
        final(s).text() == old(s).text(),
        old(s).rest().len() > 0 ==> r == Ok::<char, ()>(old(s).rest()[0]) && final(s).pos()
            == old(s).pos() + 1,
        old(s).rest().len() == 0 ==> r == Err::<char, ()>(()) && final(s).pos() == old(s).pos(),
{
    match s.try_take(1) {
        Some(head) => {
            let c = head.get_char(0);
            Ok(c)
        },
        None => Err(()),
    }
}

/// Whether a run of [`word`] over `text` from `pos` may return `r` and leave
/// the cursor at `end`: it reads the scalar values up to the first whitespace
/// or the end, and fails when there are none.
pub open spec fn word_yields(text: Seq<char>, pos: int, r: Result<String, WordErr>, end: int) -> bool {
    let n = word_len(rest_of(text, pos));
    &&& end == pos + n
    &&& n > 0 ==> (r matches Ok(w) && w@ == text.subrange(pos, end))
    &&& n == 0 ==> r is Err
}

/// Reads the scalar values up to the next whitespace or the end of the text,
/// and fails with [`WordErr`] when there are none. The whitespace that ends a
/// word is not read.
pub fn word(s: &mut ParserString) -> (r: Result<String, WordErr>)
    ensures
        final(s).text() == old(s).text(),
        word_yields(old(s).text(), old(s).pos(), r, final(s).pos()),
{
    let ghost text = s.text();
    let ghost pos = s.pos();
    // Only to learn that the read position lies within the text.
    let _ = s.start();
    let mut out = String::new();
    loop
        invariant
            s.text() == text,
            0 <= pos <= s.pos() <= text.len(),
            out@ == text.subrange(pos, s.pos()),
            forall|k: int| pos <= k < s.pos() ==> !white_space(#[trigger] text[k]),
        ensures
            s.text() == text,
            pos <= s.pos() <= text.len(),
            out@ == text.subrange(pos, s.pos()),
            forall|k: int| pos <= k < s.pos() ==> !white_space(#[trigger] text[k]),
            s.pos() == text.len() || white_space(text[s.pos()]),
        decreases text.len() - s.pos(),
    {
        match next(s) {
            Ok(c) => {
                if is_white_space(c) {
                    s.give(1);
                    break;
                } else {
                    push_char(&mut out, c);
                    assert(out@ =~= text.subrange(pos, s.pos()));
                }
            },
            Err(_) => {
                break;
            },
        }
    }
    proof {
        let rest = rest_of(text, pos);
        assert forall|k: int| 0 <= k < s.pos() - pos implies !(ends_word())(#[trigger] rest[k]) by {
            assert(rest[k] == text[pos + k]);
        }
        if s.pos() < text.len() {
            assert(rest[s.pos() - pos] == text[s.pos()]);
        }
        lemma_run_len(rest, ends_word(), s.pos() - pos);
    }
    if out.as_str().is_empty() {
        Err(WordErr)
    } else {
        Ok(out)
    }
}

/// Reads the ASCII spaces at the read position and returns how many there
/// were. It never fails.
pub fn whitespace(s: &mut ParserString) -> (r: Result<usize, Infallible>)
    ensures
        final(s).text() == old(s).text(),
        r matches Ok(n) && n == spaces_len(old(s).rest()),
        final(s).pos() == old(s).pos() + spaces_len(old(s).rest()),
{
    let ghost text = s.text();
    let ghost pos = s.pos();
    // Only to learn that the read position lies within the text.
    let _ = s.start();
    let mut ctr: usize = 0;
    loop
        invariant
            s.text() == text,
            0 <= pos <= s.pos() <= text.len(),
            ctr == s.pos() - pos,
            text.len() <= usize::MAX,
            forall|k: int| pos <= k < s.pos() ==> #[trigger] text[k] == ' ',
        ensures
            s.text() == text,
            pos <= s.pos() <= text.len(),
            ctr == s.pos() - pos,
            forall|k: int| pos <= k < s.pos() ==> #[trigger] text[k] == ' ',
            s.pos() == text.len() || text[s.pos()] != ' ',
        decreases text.len() - s.pos(),
    {
        match next(s) {
            Ok(c) => {
                if c != ' ' {
                    s.give(1);
                    break;
                }
                ctr = ctr + 1;
            },
            Err(_) => {
                break;
            },
        }
    }
    proof {
        let rest = rest_of(text, pos);
        assert forall|k: int| 0 <= k < s.pos() - pos implies !(ends_spaces())(#[trigger] rest[k]) by {
            assert(rest[k] == text[pos + k]);
        }
        if s.pos() < text.len() {
            assert(rest[s.pos() - pos] == text[s.pos()]);
        }
        lemma_run_len(rest, ends_spaces(), s.pos() - pos);
    }
    Ok(ctr)
}

/// Reads the next scalar value; fails with `()` when nothing is left.
#[derive(Debug, Clone, Copy)]
pub struct Next;

impl Parser<char> for Next {
    type Err = ();

    open spec fn ready(&self) -> bool {
        true
    }

    open spec fn yields(&self, text: Seq<char>, pos: int, r: Result<char, ()>, end: int) -> bool {
        if pos < text.len() {
            r == Ok::<char, ()>(text[pos]) && end == pos + 1
        } else {
            r == Err::<char, ()>(()) && end == pos
        }
    }

    fn parse(&self, s: &mut ParserString) -> (r: Result<char, ()>) {
        // Only to learn that the read position lies within the text.
        let _ = s.start();
        next(s)
    }
}

/// The [`word`] parser as a value.
#[derive(Debug, Clone, Copy)]
pub struct Word;

impl Parser<String> for Word {
    type Err = WordErr;

    open spec fn ready(&self) -> bool {
        true
    }

    open spec fn yields(&self, text: Seq<char>, pos: int, r: Result<String, WordErr>, end: int) -> bool {
        word_yields(text, pos, r, end)
    }

    fn parse(&self, s: &mut ParserString) -> (r: Result<String, WordErr>) {
        word(s)
    }
}

/// The [`whitespace`] parser as a value.
#[derive(Debug, Clone, Copy)]
pub struct Whitespace;

impl Parser<usize> for Whitespace {
    type Err = Infallible;

    open spec fn ready(&self) -> bool {
        true
    }

    open spec fn yields(&self, text: Seq<char>, pos: int, r: Result<usize, Infallible>, end: int) -> bool {
        let n = spaces_len(rest_of(text, pos));
        r matches Ok(c) && c == n && end == pos + n
    }

    fn parse(&self, s: &mut ParserString) -> (r: Result<usize, Infallible>) {
        whitespace(s)
    }
}

/// Indicates that a [`take`] parser has failed.
#[derive(Debug, Clone, Copy, PartialEq, Eq)]
pub enum TakeErr {
    /// Parser failed because the string ended
    NoSpace,
    /// Parser failed because the captured slice didn't match the delimiter
    NoMatch,
}

impl TakeErr {
    /// A description of this failure.
    pub fn describe(&self) -> (r: &'static str)
        ensures
            *self == TakeErr::NoSpace ==> r@ == "ran out of space"@,
            *self == TakeErr::NoMatch ==> r@ == "did not match delim"@,
    {
        match self {
            TakeErr::NoSpace => "ran out of space",
            TakeErr::NoMatch => "did not match delim",
        }
    }
}

impl From<Infallible> for TakeErr {
    /// `Infallible` has no values, so this never runs.
    fn from(value: Infallible) -> (r: TakeErr) {
        TakeErr::NoSpace
    }
}

impl vstd::std_specs::convert::FromSpecImpl<Infallible> for TakeErr {
    open spec fn obeys_from_spec() -> bool {
        true
    }

    open spec fn from_spec(v: Infallible) -> TakeErr {
        TakeErr::NoSpace
    }
}

/// Reads a literal delimiter: as many scalar values as the delimiter has,
/// which must equal it. A mismatch is not put back.
#[derive(Debug, Clone, Copy)]
pub struct Take {
    delim: &'static str,
}

impl Take {
    /// The delimiter this parser reads.
    pub closed spec fn delim(&self) -> &'static str {
        self.delim
    }
}

/// Whether `delim` stands in `text` at `pos`.
pub open spec fn stands_at(text: Seq<char>, pos: int, delim: Seq<char>) -> bool {
    pos + delim.len() <= text.len() && text.subrange(pos, pos + delim.len()) == delim
}

/// What reading `delim` over `text` from `pos` returns, and where it leaves
/// the cursor: as many scalar values as `delim` has are read when there are
/// that many, and they must equal `delim`.
pub open spec fn delim_outcome(text: Seq<char>, pos: int, delim: Seq<char>) -> (Result<(), TakeErr>, int) {
    let n = delim.len();
    if pos + n > text.len() {
        (Err(TakeErr::NoSpace), pos)
    } else if stands_at(text, pos, delim) {
        (Ok(()), pos + n)
    } else {
        (Err(TakeErr::NoMatch), pos + n)
    }
}

/// Reads the delimiter `delim`; see [`delim_outcome`].
fn read_delim(s: &mut ParserString, delim: &str) -> (r: Result<(), TakeErr>)
    ensures
        final(s).text() == old(s).text(),
        (r, final(s).pos()) == delim_outcome(old(s).text(), old(s).pos(), delim@),
{
    // Only to learn that the read position lies within the text.
    let _ = s.start();
    let n = delim.unicode_len();
    match s.try_take(n) {
        None => Err(TakeErr::NoSpace),
        Some(head) => {
            assert(old(s).rest().take(n as int) =~= old(s).text().subrange(
                old(s).pos(),
                old(s).pos() + n,
            ));
            if same_text(head, delim) {
                Ok(())
            } else {
                Err(TakeErr::NoMatch)
            }
        },
    }
}

impl Parser<&'static str> for Take {
    type Err = TakeErr;

    open spec fn ready(&self) -> bool {
        true
    }

    open spec fn yields(&self, text: Seq<char>, pos: int, r: Result<&'static str, TakeErr>, end: int) -> bool {
        let (o, e) = delim_outcome(text, pos, self.delim()@);
        &&& end == e
        &&& match o {
            Ok(_) => r == Ok::<&'static str, TakeErr>(self.delim()),
            Err(x) => r == Err::<&'static str, TakeErr>(x),
        }
    }

    fn parse(&self, s: &mut ParserString) -> (r: Result<&'static str, TakeErr>) {
        match read_delim(s, self.delim) {
            Ok(()) => Ok(self.delim),
            Err(e) => Err(e),
        }
    }
}

/// Makes a parser that reads the delimiter `delim` from the front of the text.
pub fn take(delim: &'static str) -> (r: Take)
    ensures
        r.delim() == delim,
{
    Take { delim }
}

/// Indicates that an [`integer_with`] parser has failed.
#[derive(Debug, Clone, Copy, PartialEq, Eq)]
pub enum IntErr<E> {
    /// Parser failed from a [`WordErr`]
    Word(WordErr),
    /// Parser failed to convert the word
    Parse(E),
}

impl<E> From<WordErr> for IntErr<E> {
    fn from(value: WordErr) -> (r: IntErr<E>) {
        IntErr::Word(value)
    }
}

impl<E> vstd::std_specs::convert::FromSpecImpl<WordErr> for IntErr<E> {
    open spec fn obeys_from_spec() -> bool {
        true
    }

    open spec fn from_spec(v: WordErr) -> IntErr<E> {
        IntErr::Word(v)
    }
}

impl<E> From<Infallible> for IntErr<E> {
    /// `Infallible` has no values, so this never runs.
    fn from(value: Infallible) -> (r: IntErr<E>) {
        IntErr::Word(WordErr)
    }
}

impl<E> vstd::std_specs::convert::FromSpecImpl<Infallible> for IntErr<E> {
    open spec fn obeys_from_spec() -> bool {
        true
    }

    open spec fn from_spec(v: Infallible) -> IntErr<E> {
        IntErr::Word(WordErr)
    }
}

/// Reads a [`word`] and converts it with `convert` into an integer.
///
/// It fails with [`IntErr::Word`] exactly when there is no word; otherwise it
/// returns what `convert` returns for the word, its failure wrapped in
/// [`IntErr::Parse`]. The cursor moves past the word either way.
pub fn integer_with<I, E, F>(s: &mut ParserString, convert: F) -> (r: Result<I, IntErr<E>>) where
    F: Fn(&str) -> Result<I, E>,

    requires
        forall|w: &str| #[trigger] call_requires(convert, (w,)),
    ensures
        final(s).text() == old(s).text(),
        final(s).pos() == old(s).pos() + word_len(old(s).rest()),
        word_len(old(s).rest()) == 0 ==> r == Err::<I, IntErr<E>>(IntErr::Word(WordErr)),
        word_len(old(s).rest()) > 0 ==> exists|w: &str, out: Result<I, E>|
            #[trigger] call_ensures(convert, (w,), out) && w@ == old(s).rest().take(
                word_len(old(s).rest()) as int,
            ) && r == match out {
                Ok(i) => Ok::<I, IntErr<E>>(i),
                Err(e) => Err::<I, IntErr<E>>(IntErr::Parse(e)),
            },
{
    // Only to learn that the read position lies within the text.
    let _ = s.start();
    match word(s) {
        Err(e) => Err(IntErr::Word(e)),
        Ok(w) => {
            // Only to learn that the read position lies within the text.
            let _ = s.start();
            let text = w.as_str();
            let out = convert(text);
            proof {
                assert(old(s).rest().take(word_len(old(s).rest()) as int) =~= old(s).text().subrange(
                    old(s).pos(),
                    s.pos(),
                ));
            }
            let ghost og = out;
            let r = match out {
                Ok(i) => Ok(i),
                Err(e) => Err(IntErr::Parse(e)),
            };
            assert(call_ensures(convert, (text,), og));
            r
        },
    }
}

/// Indicates that a [`float_with`] parser has failed.
#[derive(Debug, Clone, Copy, PartialEq, Eq)]
pub enum FloatErr<E> {
    /// Parser failed from a [`WordErr`]
    Word(WordErr),
    /// Parser failed to convert the word
    Parse(E),
}

impl<E> From<WordErr> for FloatErr<E> {
    fn from(value: WordErr) -> (r: FloatErr<E>) {
        FloatErr::Word(value)
    }
}

impl<E> vstd::std_specs::convert::FromSpecImpl<WordErr> for FloatErr<E> {
    open spec fn obeys_from_spec() -> bool {
        true
    }

    open spec fn from_spec(v: WordErr) -> FloatErr<E> {
        FloatErr::Word(v)
    }
}

impl<E> From<Infallible> for FloatErr<E> {
    /// `Infallible` has no values, so this never runs.
    fn from(value: Infallible) -> (r: FloatErr<E>) {
        FloatErr::Word(WordErr)
    }
}

impl<E> vstd::std_specs::convert::FromSpecImpl<Infallible> for FloatErr<E> {
    open spec fn obeys_from_spec() -> bool {
        true
    }

    open spec fn from_spec(v: Infallible) -> FloatErr<E> {
        FloatErr::Word(WordErr)
    }
}

/// Reads a [`word`] and converts it with `convert` into a floating-point
/// number.
///
/// It fails with [`FloatErr::Word`] exactly when there is no word; otherwise
/// it returns what `convert` returns for the word, its failure wrapped in
/// [`FloatErr::Parse`]. The cursor moves past the word either way.
pub fn float_with<I, E, F>(s: &mut ParserString, convert: F) -> (r: Result<I, FloatErr<E>>) where
    F: Fn(&str) -> Result<I, E>,

    requires
        forall|w: &str| #[trigger] call_requires(convert, (w,)),
    ensures
        final(s).text() == old(s).text(),
        final(s).pos() == old(s).pos() + word_len(old(s).rest()),
        word_len(old(s).rest()) == 0 ==> r == Err::<I, FloatErr<E>>(FloatErr::Word(WordErr)),
        word_len(old(s).rest()) > 0 ==> exists|w: &str, out: Result<I, E>|
            #[trigger] call_ensures(convert, (w,), out) && w@ == old(s).rest().take(
                word_len(old(s).rest()) as int,
            ) && r == match out {
                Ok(i) => Ok::<I, FloatErr<E>>(i),
                Err(e) => Err::<I, FloatErr<E>>(FloatErr::Parse(e)),
            },
{
    // Only to learn that the read position lies within the text.
    let _ = s.start();
    match word(s) {
        Err(e) => Err(FloatErr::Word(e)),
        Ok(w) => {
            // Only to learn that the read position lies within the text.
            let _ = s.start();
            let text = w.as_str();
            let out = convert(text);
            proof {
                assert(old(s).rest().take(word_len(old(s).rest()) as int) =~= old(s).text().subrange(
                    old(s).pos(),
                    s.pos(),
                ));
            }
            let ghost og = out;
            let r = match out {
                Ok(i) => Ok(i),
                Err(e) => Err(FloatErr::Parse(e)),
            };
            assert(call_ensures(convert, (text,), og));
            r
        },
    }
}

/// Indicates that a [`between`] parser has failed.
#[derive(Debug, Clone, Copy, PartialEq, Eq)]
pub enum BetweenErr {
    /// Parser failed because the opener was not found
    NoOpen,
    /// Parser failed because the closer was not found
    Unmatched,
}

impl BetweenErr {
    /// A description of this failure.
    pub fn describe(&self) -> (r: &'static str)
        ensures
            *self == BetweenErr::NoOpen ==> r@ == "opener was not found"@,
            *self == BetweenErr::Unmatched ==> r@ == "string ended before closer was found"@,
    {
        match self {
            BetweenErr::NoOpen => "opener was not found",
            BetweenErr::Unmatched => "string ended before closer was found",
        }
    }
}

impl From<Infallible> for BetweenErr {
    /// `Infallible` has no values, so this never runs.
    fn from(value: Infallible) -> (r: BetweenErr) {
        BetweenErr::NoOpen
    }
}

impl vstd::std_specs::convert::FromSpecImpl<Infallible> for BetweenErr {
    open spec fn obeys_from_spec() -> bool {
        true
    }

    open spec fn from_spec(v: Infallible) -> BetweenErr {
        BetweenErr::NoOpen
    }
}

/// `delim` stands nowhere in `text` at a position from `from` up to, and not
/// including, `to`.
pub open spec fn absent_between(text: Seq<char>, from: int, to: int, delim: Seq<char>) -> bool {
    forall|k: int| from <= k < to ==> !#[trigger] stands_at(text, k, delim)
}

/// Reads a segment between an opener and a closer, and returns what stands
/// between them. Both are read; the closer is the first one after the opener.
#[derive(Debug, Clone, Copy)]
pub struct Between {
    open: &'static str,
    close: &'static str,
}

impl Between {
    /// The opener.
    pub closed spec fn opener(&self) -> &'static str {
        self.open
    }

    /// The closer.
    pub closed spec fn closer(&self) -> &'static str {
        self.close
    }
}

impl Parser<String> for Between {
    type Err = BetweenErr;

    open spec fn ready(&self) -> bool {
        true
    }

    open spec fn yields(&self, text: Seq<char>, pos: int, r: Result<String, BetweenErr>, end: int) -> bool {
        let open = self.opener()@;
        let close = self.closer()@;
        let inner = pos + open.len();
        if inner > text.len() {
            r == Err::<String, BetweenErr>(BetweenErr::NoOpen) && end == pos
        } else if !stands_at(text, pos, open) {
            r == Err::<String, BetweenErr>(BetweenErr::NoOpen) && end == inner
        } else {
            match r {
                Ok(v) => {
                    let j = inner + v@.len();
                    &&& j <= text.len()
                    &&& v@ == text.subrange(inner, j)
                    &&& stands_at(text, j, close)
                    &&& absent_between(text, inner, j, close)
                    &&& end == j + close.len()
                },
                Err(e) => {
                    &&& e == BetweenErr::Unmatched
                    &&& absent_between(text, inner, text.len() + 1int, close)
                    &&& end == text.len()
                },
            }
        }
    }

    fn parse(&self, s: &mut ParserString) -> (r: Result<String, BetweenErr>) {
        let ghost text = s.text();
        let ghost pos = s.pos();
        // Only to learn that the read position lies within the text.
        let _ = s.start();
        match read_delim(s, self.open) {
            Err(_) => {
                return Err(BetweenErr::NoOpen);
            },
            Ok(()) => {},
        }
        let ghost inner = s.pos();
        let mut out = String::new();
        loop
            invariant
                s.text() == text,
                text == old(s).text(),
                pos == old(s).pos(),
                0 <= pos,
                inner == pos + self.opener()@.len(),
                stands_at(text, pos, self.opener()@),
                inner <= s.pos() <= text.len(),
                out@ == text.subrange(inner, s.pos()),
                absent_between(text, inner, s.pos(), self.closer()@),
            decreases text.len() - s.pos(),
        {
            let ghost at = s.pos();
            let mark = s.start();
            match read_delim(s, self.close) {
                Ok(()) => {
                    let ghost rr: Result<String, BetweenErr> = Ok(out);
                    assert(rr matches Ok(v) && v@ == out@);
                    assert(self.yields(text, pos, rr, s.pos()));
                    return Ok(out);
                },
                Err(_) => {
                    assert(!stands_at(text, at, self.closer()@));
                    assert(0 <= at <= s.text().len() && utf8_width(s.text().take(at)) == mark);
                    s.set_ptr(mark);
                    match next(s) {
                        Ok(c) => {
                            push_char(&mut out, c);
                            assert(out@ =~= text.subrange(inner, s.pos()));
                        },
                        Err(_) => {
                            return Err(BetweenErr::Unmatched);
                        },
                    }
                },
            }
        }
    }
}

/// Makes a parser that reads a segment between `open` and `close`.
pub fn between(open: &'static str, close: &'static str) -> (r: Between)
    ensures
        r.opener() == open,
        r.closer() == close,
{
    Between { open, close }
}

} // verus!
