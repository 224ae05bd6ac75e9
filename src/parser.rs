use vstd::prelude::*;

use crate::combinators::{
    After, AndThen, Chain, ConvertErr, Many, MapErr, Mapped, Or, Replace, Rewind,
};
use crate::cursor::{ParserString, utf8_width};

verus! {

/// A parsing step: reads a prefix of what is left in a [`ParserString`] and
/// returns a value or a failure of type [`Parser::Err`].
///
/// What a parser does is stated by [`Parser::yields`]: a relation between the
/// text, the position where the run starts, the result, and the position where
/// it leaves the cursor. A failing run may leave the cursor moved; only
/// [`Parser::try_parse`] puts it back.
pub trait Parser<T>: Sized {
    /// What this parser returns when it fails.
    type Err;

    /// Whether this parser may be run: the closures it holds accept every
    /// value they can be handed, and the parsers it holds may be run.
    open spec fn ready(&self) -> bool {
        true
    }

    /// A run over `text` from position `pos` may return `r` and leave the
    /// cursor at `end`. Without a statement of its own, a parser claims
    /// nothing.
    open spec fn yields(&self, text: Seq<char>, pos: int, r: Result<T, Self::Err>, end: int) -> bool {
        true
    }

    /// Runs this parser on `s`.
    fn parse(&self, s: &mut ParserString) -> (r: Result<T, Self::Err>)
        requires
            self.ready(),
        ensures
            final(s).text() == old(s).text(),
            self.yields(old(s).text(), old(s).pos(), r, final(s).pos()),
    ;

    /// Runs this parser on `s`, and puts the read position back where it was
    /// when the run fails.
    fn try_parse(&self, s: &mut ParserString) -> (r: Result<T, Self::Err>)
        requires
            self.ready(),
        ensures
            final(s).text() == old(s).text(),
            r is Err ==> final(s).pos() == old(s).pos(),
            exists|end: int|
                self.yields(old(s).text(), old(s).pos(), r, end) && (r is Ok ==> end
                    == final(s).pos()),
    {
        let i = s.start();
        let ghost before = *s;
        let r = self.parse(s);
        let ghost end = s.pos();
        if r.is_err() {
            assert(0 <= before.pos() <= s.text().len() && utf8_width(s.text().take(before.pos()))
                == i);
            s.set_ptr(i);
        }
        proof {
            assert(self.yields(before.text(), before.pos(), r, end));
        }
        r
    }
}

/// Every run of `p` from a given position of a given text returns the same
/// result and leaves the cursor at the same place.
pub open spec fn deterministic<T, P: Parser<T>>(p: P) -> bool {
    forall|text: Seq<char>, pos: int, r1: Result<T, P::Err>, e1: int, r2: Result<T, P::Err>, e2: int|
        #[trigger] p.yields(text, pos, r1, e1) && #[trigger] p.yields(text, pos, r2, e2) ==> r1 == r2
            && e1 == e2
}

/// The builder methods of every [`Parser`]: each wraps the parser in a
/// combinator, without touching any cursor.
pub trait Combine<T>: Parser<T> {
    /// Constructs a [`Chain`] combinator.
    fn chain<U, P2, E>(self, other: P2) -> (r: Chain<T, U, Self, P2>) where
        P2: Parser<U, Err = E>,
        E: Into<Self::Err>,

        ensures
            r.first() == self,
            r.second() == other,
    {
        Chain::new(self, other)
    }

    /// Constructs an [`Or`] combinator.
    fn or<P2, E>(self, other: P2) -> (r: Or<T, E, Self, P2>) where
        P2: Parser<T, Err = E>,
        E: Into<Self::Err>,

        ensures
            r.first() == self,
            r.second() == other,
    {
        Or::new(self, other)
    }

    /// Constructs a [`Rewind`] combinator: this parser, with the read
    /// position put back when it fails.
    fn rewind_on_failure(self) -> (r: Rewind<T, Self>)
        ensures
            r.inner() == self,
    {
        Rewind::new(self)
    }

    /// Constructs a [`Many`] combinator.
    fn many(self) -> (r: Many<T, Self>)
        ensures
            r.inner() == self,
    {
        Many::new(self)
    }

    /// Applies a function to the output of this parser on success.
    fn map<U, F>(self, f: F) -> (r: Mapped<T, U, Self, F>) where F: Fn(T) -> U
        ensures
            r.inner() == self,
            r.func() == f,
    {
        Mapped::new(self, f)
    }

    /// Applies a function to the failure of this parser.
    fn map_err<E, F>(self, f: F) -> (r: MapErr<T, E, Self, F>) where F: Fn(Self::Err) -> E
        ensures
            r.inner() == self,
            r.func() == f,
    {
        MapErr::new(self, f)
    }

    /// Applies a fallible function to the output of this parser on success,
    /// converting its failure into this parser's failure type.
    fn and_then<U, E, F>(self, f: F) -> (r: AndThen<T, U, E, Self, F>) where
        E: Into<Self::Err>,
        F: Fn(T) -> Result<U, E>,

        ensures
            r.inner() == self,
            r.func() == f,
    {
        AndThen::new(self, f)
    }

    /// Like [`Parser::chain`], but keeps only the output of this parser.
    fn after<U, P2, E>(self, other: P2) -> (r: After<T, U, Self, P2>) where
        P2: Parser<U, Err = E>,
        E: Into<Self::Err>,

        ensures
            r.pair().first() == self,
            r.pair().second() == other,
    {
        After::new(self, other)
    }

    /// Like [`Parser::chain`], but keeps only the output of `other`.
    fn replace<U, P2, E>(self, other: P2) -> (r: Replace<T, U, Self, P2>) where
        P2: Parser<U, Err = E>,
        E: Into<Self::Err>,

        ensures
            r.pair().first() == self,
            r.pair().second() == other,
    {
        Replace::new(self, other)
    }

    /// Sets the failure type of this parser explicitly, which sets the target
    /// type of a composite that starts with it.
    fn convert_err<E>(self) -> (r: ConvertErr<T, E, Self>) where E: From<Self::Err>
        ensures
            r.inner() == self,
    {
        ConvertErr::new(self)
    }
}

impl<T, P: Parser<T>> Combine<T> for P {
}

/// A type that knows how to parse itself, much like [`core::str::FromStr`].
pub trait Parsable: Sized {
    /// What parsing returns when it fails.
    type Err;

    /// A run over `text` from position `pos` may return `r` and leave the
    /// cursor at `end`. Without a statement of its own, a type claims
    /// nothing.
    open spec fn yields(text: Seq<char>, pos: int, r: Result<Self, Self::Err>, end: int) -> bool {
        true
    }

    /// Parses a value from `s`.
    fn parse(s: &mut ParserString) -> (r: Result<Self, Self::Err>)
        ensures
            final(s).text() == old(s).text(),
            Self::yields(old(s).text(), old(s).pos(), r, final(s).pos()),
    ;

    /// Parses a value from `s`, and puts the read position back where it was
    /// when parsing fails.
    fn try_parse(s: &mut ParserString) -> (r: Result<Self, Self::Err>)
        ensures
            final(s).text() == old(s).text(),
            r is Err ==> final(s).pos() == old(s).pos(),
            exists|end: int|
                Self::yields(old(s).text(), old(s).pos(), r, end) && (r is Ok ==> end
                    == final(s).pos()),
    {
        let i = s.start();
        let ghost before = *s;
        let r = Self::parse(s);
        let ghost end = s.pos();
        if r.is_err() {
            assert(0 <= before.pos() <= s.text().len() && utf8_width(s.text().take(before.pos()))
                == i);
            s.set_ptr(i);
        }
        proof {
            assert(Self::yields(before.text(), before.pos(), r, end));
        }
        r
    }
}

} // verus!
