//! Parsers built out of other parsers.
//!
//! Each combinator is a parser in its own right, so they nest without bound.
//! The builder methods of [`Parser`] construct them too.
//!
//! # Failure coercion
//!
//! A combinator of two parsers with different failure types reports failures
//! of the first one's type, its target type. The second one's failure type
//! must convert into it (`E: Into<P1::Err>`), usually by a variant of the
//! target that wraps it, so that a new failure kind in a composite takes one
//! variant and one conversion, written once. A parser that cannot fail uses
//! [`core::convert::Infallible`], which converts into any type that implements
//! `From<Infallible>`.
use core::convert::Infallible;
use core::marker::PhantomData;
use vstd::prelude::*;
use vstd::std_specs::convert::{FromSpec, IntoSpec};

use crate::cursor::ParserString;
use crate::parser::Parser;

verus! {

/// Runs two parsers one after the other and returns both values.
///
/// A failure of the first is returned as it is, with no rewind and without
/// running the second; a failure of the second is converted into the first
/// one's failure type.
pub struct Chain<T, U, P1, P2> {
    p1: P1,
    p2: P2,
    t: PhantomData<T>,
    u: PhantomData<U>,
}

impl<T, U, P1, P2> Chain<T, U, P1, P2> {
    /// The parser that runs first.
    pub closed spec fn first(&self) -> P1 {
        self.p1
    }

    /// The parser that runs second.
    pub closed spec fn second(&self) -> P2 {
        self.p2
    }
}

impl<T, U, P1, P2> Chain<T, U, P1, P2> {
    /// Constructs this parser.
    pub fn new(p1: P1, p2: P2) -> (r: Self)
        ensures
            r.first() == p1,
            r.second() == p2,
    {
        Chain { p1, p2, t: PhantomData, u: PhantomData }
    }
}

impl<T, U, P1, P2, E> Parser<(T, U)> for Chain<T, U, P1, P2> where
    P1: Parser<T>,
    E: Into<P1::Err>,
    P2: Parser<U, Err = E>,
 {
    type Err = P1::Err;

    open spec fn ready(&self) -> bool {
        &&& self.first().ready()
        &&& self.second().ready()
    }

    open spec fn yields(
        &self,
        text: Seq<char>,
        pos: int,
        r: Result<(T, U), P1::Err>,
        end: int,
    ) -> bool {
        match r {
            Ok((t, u)) => exists|mid: int|
                #![trigger self.first().yields(text, pos, Ok(t), mid)]
                #![trigger self.second().yields(text, mid, Ok(u), end)]
                self.first().yields(text, pos, Ok(t), mid) && self.second().yields(
                    text,
                    mid,
                    Ok(u),
                    end,
                ),
            Err(e) => {
                ||| self.first().yields(text, pos, Err(e), end)
                ||| exists|mid: int, t: T, e2: E|
                    #![trigger self.first().yields(text, pos, Ok(t), mid), self.second().yields(text, mid, Err(e2), end)]
                    self.first().yields(text, pos, Ok(t), mid) && self.second().yields(
                        text,
                        mid,
                        Err(e2),
                        end,
                    ) && (E::obeys_into_spec() ==> e == e2.into_spec())
            },
        }
    }

    fn parse(&self, s: &mut ParserString) -> (r: Result<(T, U), P1::Err>) {
        let ghost text = s.text();
        let ghost pos = s.pos();
        let t = match self.p1.parse(s) {
            Ok(t) => t,
            Err(e) => {
                return Err(e);
            },
        };
        let ghost mid = s.pos();
        match self.p2.parse(s) {
            Ok(u) => {
                let ghost rr: Result<(T, U), P1::Err> = Ok((t, u));
                assert(rr matches Ok((a, b)) && a == t && b == u);
                assert(self.yields(text, pos, rr, s.pos()));
                Ok((t, u))
            },
            Err(e2) => {
                let e = e2.into();
                assert(self.first().yields(text, pos, Ok(t), mid));
                Err(e)
            },
        }
    }
}

/// Tries a first parser and, where it fails, a second one from the same
/// position.
///
/// Both run with a rewind on failure, whether or not they were wrapped for
/// that, so an alternation that fails reads nothing. The second runs only when
/// the first failed, and its failure is converted into the first one's failure
/// type. The first that matches wins.
pub struct Or<T, E, P1, P2> {
    p1: P1,
    p2: P2,
    t: PhantomData<T>,
    e: PhantomData<E>,
}

impl<T, E, P1, P2> Or<T, E, P1, P2> {
    /// The parser tried first.
    pub closed spec fn first(&self) -> P1 {
        self.p1
    }

    /// The parser tried when the first fails.
    pub closed spec fn second(&self) -> P2 {
        self.p2
    }
}

impl<T, E, P1, P2> Or<T, E, P1, P2> {
    /// Constructs this parser.
    pub fn new(p1: P1, p2: P2) -> (r: Self)
        ensures
            r.first() == p1,
            r.second() == p2,
    {
        Or { p1, p2, t: PhantomData, e: PhantomData }
    }
}

impl<T, E, P1, P2> Parser<T> for Or<T, E, P1, P2> where
    P1: Parser<T>,
    E: Into<P1::Err>,
    P2: Parser<T, Err = E>,
 {
    type Err = P1::Err;

    open spec fn ready(&self) -> bool {
        &&& self.first().ready()
        &&& self.second().ready()
    }

    open spec fn yields(&self, text: Seq<char>, pos: int, r: Result<T, P1::Err>, end: int) -> bool {
        ||| r is Ok && self.first().yields(text, pos, r, end)
        ||| (exists|e1: P1::Err, e1_end: int| self.first().yields(text, pos, Err(e1), e1_end))
            && match r {
            Ok(v) => self.second().yields(text, pos, Ok(v), end),
            Err(e) => end == pos && exists|e2: E, e2_end: int|
                #[trigger] self.second().yields(text, pos, Err(e2), e2_end) && (E::obeys_into_spec()
                    ==> e == e2.into_spec()),
        }
    }

    fn parse(&self, s: &mut ParserString) -> (r: Result<T, P1::Err>) {
        let ghost text = s.text();
        let ghost pos = s.pos();
        match self.p1.try_parse(s) {
            Ok(v) => Ok(v),
            Err(_) => {
                match self.p2.try_parse(s) {
                    Ok(v) => Ok(v),
                    Err(e2) => {
                        let ghost e2g = e2;
                        let e = e2.into();
                        assert(exists|e2_end: int| self.second().yields(text, pos, Err(e2g), e2_end));
                        Err(e)
                    },
                }
            },
        }
    }
}

/// Applies a parser again and again until it fails, and returns the values of
/// the runs that succeeded, in input order.
///
/// Each attempt rewinds on failure, so the failing attempt reads nothing. A
/// repetition cannot fail: a failure only ends the list.
pub struct Many<T, P> {
    p: P,
    t: PhantomData<T>,
}

/// The parser `p` read `vs` in turn over `text`, the run that gave `vs[i]`
/// starting at `ps[i]` and ending at `ps[i + 1]`.
pub open spec fn successive<T, P: Parser<T>>(p: P, text: Seq<char>, vs: Seq<T>, ps: Seq<int>) -> bool {
    &&& ps.len() == vs.len() + 1
    &&& forall|i: int|
        0 <= i < vs.len() ==> #[trigger] p.yields(text, ps[i], Ok(vs[i]), ps[i + 1])
}

/// Every run of `p` that succeeds reads at least one scalar value.
pub open spec fn advances<T, P: Parser<T>>(p: P) -> bool {
    forall|text: Seq<char>, pos: int, v: T, end: int|
        #[trigger] p.yields(text, pos, Ok(v), end) ==> end > pos
}

impl<T, P> Many<T, P> {
    /// The parser that is repeated.
    pub closed spec fn inner(&self) -> P {
        self.p
    }
}

impl<T, P> Many<T, P> {
    /// Constructs this parser.
    pub fn new(p: P) -> (r: Self)
        ensures
            r.inner() == p,
    {
        Many { p, t: PhantomData }
    }
}

impl<T, P> Parser<Vec<T>> for Many<T, P> where P: Parser<T> {
    type Err = Infallible;

    open spec fn ready(&self) -> bool {
        &&& self.inner().ready()
        &&& advances(self.inner())
    }

    open spec fn yields(
        &self,
        text: Seq<char>,
        pos: int,
        r: Result<Vec<T>, Infallible>,
        end: int,
    ) -> bool {
        &&& r matches Ok(vs) && exists|ps: Seq<int>|
            #[trigger] successive(self.inner(), text, vs@, ps) && ps[0] == pos && ps.last() == end
        &&& exists|e: P::Err, e_end: int| self.inner().yields(text, end, Err(e), e_end)
    }

    fn parse(&self, s: &mut ParserString) -> (r: Result<Vec<T>, Infallible>) {
        let ghost text = s.text();
        let ghost pos = s.pos();
        let mut out: Vec<T> = Vec::new();
        let ghost mut ps: Seq<int> = seq![pos];
        loop
            invariant
                self.ready(),
                s.text() == text,
                text == old(s).text(),
                pos == old(s).pos(),
                successive(self.inner(), text, out@, ps),
                ps[0] == pos,
                ps.last() == s.pos(),
            decreases text.len() - s.pos(),
        {
            // Only to learn that the read position lies within the text.
            let _ = s.start();
            match self.p.try_parse(s) {
                Ok(v) => {
                    proof {
                        let ps2 = ps.push(s.pos());
                        assert forall|i: int| 0 <= i < out@.len() + 1 implies #[trigger] self.inner().yields(text, ps2[i], Ok(out@.push(v)[i]), ps2[i + 1]) by {
                            if i < out@.len() {
                                assert(ps2[i] == ps[i] && ps2[i + 1] == ps[i + 1]);
                            }
                        }
                        ps = ps2;
                    }
                    out.push(v);
                    // Only to learn that the read position lies within the text.
                    let _ = s.start();
                },
                Err(e) => {
                    let ghost rr: Result<Vec<T>, Infallible> = Ok(out);
                    assert(rr matches Ok(vs) && vs == out);
                    assert(self.yields(text, pos, rr, s.pos()));
                    return Ok(out);
                },
            }
        }
    }
}

/// Applies a function to the value of a parser that succeeds; a failure
/// passes through unchanged.
pub struct Mapped<T, U, P, F> {
    p: P,
    f: F,
    t: PhantomData<T>,
    u: PhantomData<U>,
}

impl<T, U, P, F> Mapped<T, U, P, F> {
    /// The parser whose value is mapped.
    pub closed spec fn inner(&self) -> P {
        self.p
    }

    /// The function applied to the value.
    pub closed spec fn func(&self) -> F {
        self.f
    }
}

impl<T, U, P, F> Mapped<T, U, P, F> {
    /// Constructs this parser.
    pub fn new(p: P, f: F) -> (r: Self)
        ensures
            r.inner() == p,
            r.func() == f,
    {
        Mapped { p, f, t: PhantomData, u: PhantomData }
    }
}

impl<T, U, P, F> Parser<U> for Mapped<T, U, P, F> where P: Parser<T>, F: Fn(T) -> U {
    type Err = P::Err;

    open spec fn ready(&self) -> bool {
        &&& self.inner().ready()
        &&& forall|t: T| #[trigger] call_requires(self.func(), (t,))
    }

    open spec fn yields(&self, text: Seq<char>, pos: int, r: Result<U, P::Err>, end: int) -> bool {
        match r {
            Ok(u) => exists|t: T|
                #[trigger] self.inner().yields(text, pos, Ok(t), end) && call_ensures(
                    self.func(),
                    (t,),
                    u,
                ),
            Err(e) => self.inner().yields(text, pos, Err(e), end),
        }
    }

    fn parse(&self, s: &mut ParserString) -> (r: Result<U, P::Err>) {
        match self.p.parse(s) {
            Ok(t) => {
                assert(call_requires(self.func(), (t,)));
                Ok((self.f)(t))
            },
            Err(e) => Err(e),
        }
    }
}

/// Applies a function to the failure of a parser; a value passes through
/// unchanged.
pub struct MapErr<T, E, P, F> {
    p: P,
    f: F,
    t: PhantomData<T>,
    e: PhantomData<E>,
}

impl<T, E, P, F> MapErr<T, E, P, F> {
    /// The parser whose failure is mapped.
    pub closed spec fn inner(&self) -> P {
        self.p
    }

    /// The function applied to the failure.
    pub closed spec fn func(&self) -> F {
        self.f
    }
}

impl<T, E, P, F> MapErr<T, E, P, F> {
    /// Constructs this parser.
    pub fn new(p: P, f: F) -> (r: Self)
        ensures
            r.inner() == p,
            r.func() == f,
    {
        MapErr { p, f, t: PhantomData, e: PhantomData }
    }
}

impl<T, E, P, F> Parser<T> for MapErr<T, E, P, F> where P: Parser<T>, F: Fn(P::Err) -> E {
    type Err = E;

    open spec fn ready(&self) -> bool {
        &&& self.inner().ready()
        &&& forall|e: P::Err| #[trigger] call_requires(self.func(), (e,))
    }

    open spec fn yields(&self, text: Seq<char>, pos: int, r: Result<T, E>, end: int) -> bool {
        match r {
            Ok(t) => self.inner().yields(text, pos, Ok(t), end),
            Err(e) => exists|e1: P::Err|
                #[trigger] self.inner().yields(text, pos, Err(e1), end) && call_ensures(
                    self.func(),
                    (e1,),
                    e,
                ),
        }
    }

    fn parse(&self, s: &mut ParserString) -> (r: Result<T, E>) {
        match self.p.parse(s) {
            Ok(t) => Ok(t),
            Err(e) => {
                assert(call_requires(self.func(), (e,)));
                Err((self.f)(e))
            },
        }
    }
}

/// Applies a fallible function to the value of a parser that succeeds; a
/// failure of the function is converted into the parser's failure type.
pub struct AndThen<T, U, E, P, F> {
    p: P,
    f: F,
    t: PhantomData<T>,
    u: PhantomData<U>,
    e: PhantomData<E>,
}

impl<T, U, E, P, F> AndThen<T, U, E, P, F> {
    /// The parser whose value is handed on.
    pub closed spec fn inner(&self) -> P {
        self.p
    }

    /// The function applied to the value.
    pub closed spec fn func(&self) -> F {
        self.f
    }
}

impl<T, U, E, P, F> AndThen<T, U, E, P, F> {
    /// Constructs this parser.
    pub fn new(p: P, f: F) -> (r: Self)
        ensures
            r.inner() == p,
            r.func() == f,
    {
        AndThen { p, f, t: PhantomData, u: PhantomData, e: PhantomData }
    }
}

impl<T, U, E, P, F> Parser<U> for AndThen<T, U, E, P, F> where
    P: Parser<T>,
    E: Into<P::Err>,
    F: Fn(T) -> Result<U, E>,
 {
    type Err = P::Err;

    open spec fn ready(&self) -> bool {
        &&& self.inner().ready()
        &&& forall|t: T| #[trigger] call_requires(self.func(), (t,))
    }

    open spec fn yields(&self, text: Seq<char>, pos: int, r: Result<U, P::Err>, end: int) -> bool {
        ||| exists|t: T, out: Result<U, E>|
            #![trigger self.inner().yields(text, pos, Ok(t), end), call_ensures(self.func(), (t,), out)]
            self.inner().yields(text, pos, Ok(t), end) && call_ensures(self.func(), (t,), out)
                && match out {
                Ok(u) => r == Ok::<U, P::Err>(u),
                Err(e) => r is Err && (E::obeys_into_spec() ==> r == Err::<U, P::Err>(e.into_spec())),
            }
        ||| r matches Err(e) && self.inner().yields(text, pos, Err(e), end)
    }

    fn parse(&self, s: &mut ParserString) -> (r: Result<U, P::Err>) {
        let ghost text = s.text();
        let ghost pos = s.pos();
        match self.p.parse(s) {
            Ok(t) => {
                let ghost tg = t;
                assert(call_requires(self.func(), (t,)));
                let out = (self.f)(t);
                let ghost og = out;
                let r = match out {
                    Ok(u) => Ok(u),
                    Err(e) => Err(e.into()),
                };
                assert(self.inner().yields(text, pos, Ok(tg), s.pos()) && call_ensures(self.func(), (tg,), og));
                r
            },
            Err(e) => Err(e),
        }
    }
}

/// Runs two parsers one after the other, like [`Chain`], and keeps only the
/// first one's value.
pub struct After<T, U, P1, P2> {
    c: Chain<T, U, P1, P2>,
}

impl<T, U, P1, P2> After<T, U, P1, P2> {
    /// The chain of the two parsers.
    pub closed spec fn pair(&self) -> Chain<T, U, P1, P2> {
        self.c
    }
}

impl<T, U, P1, P2> After<T, U, P1, P2> {
    /// Constructs this parser.
    pub fn new(p1: P1, p2: P2) -> (r: Self)
        ensures
            r.pair().first() == p1,
            r.pair().second() == p2,
    {
        After { c: Chain::new(p1, p2) }
    }
}

impl<T, U, P1, P2, E> Parser<T> for After<T, U, P1, P2> where
    P1: Parser<T>,
    E: Into<P1::Err>,
    P2: Parser<U, Err = E>,
 {
    type Err = P1::Err;

    open spec fn ready(&self) -> bool {
        self.pair().ready()
    }

    open spec fn yields(&self, text: Seq<char>, pos: int, r: Result<T, P1::Err>, end: int) -> bool {
        match r {
            Ok(t) => exists|u: U| #[trigger] self.pair().yields(text, pos, Ok((t, u)), end),
            Err(e) => self.pair().yields(text, pos, Err(e), end),
        }
    }

    fn parse(&self, s: &mut ParserString) -> (r: Result<T, P1::Err>) {
        match self.c.parse(s) {
            Ok(pair) => {
                let ghost pg = pair;
                let (t, u) = pair;
                assert(self.pair().yields(old(s).text(), old(s).pos(), Ok((t, pg.1)), s.pos()));
                let ghost rr: Result<T, P1::Err> = Ok(t);
                assert(rr matches Ok(x) && x == t);
                assert(self.yields(old(s).text(), old(s).pos(), rr, s.pos()));
                Ok(t)
            },
            Err(e) => Err(e),
        }
    }
}

/// Runs two parsers one after the other, like [`Chain`], and keeps only the
/// second one's value.
pub struct Replace<T, U, P1, P2> {
    c: Chain<T, U, P1, P2>,
}

impl<T, U, P1, P2> Replace<T, U, P1, P2> {
    /// The chain of the two parsers.
    pub closed spec fn pair(&self) -> Chain<T, U, P1, P2> {
        self.c
    }
}

impl<T, U, P1, P2> Replace<T, U, P1, P2> {
    /// Constructs this parser.
    pub fn new(p1: P1, p2: P2) -> (r: Self)
        ensures
            r.pair().first() == p1,
            r.pair().second() == p2,
    {
        Replace { c: Chain::new(p1, p2) }
    }
}

impl<T, U, P1, P2, E> Parser<U> for Replace<T, U, P1, P2> where
    P1: Parser<T>,
    E: Into<P1::Err>,
    P2: Parser<U, Err = E>,
 {
    type Err = P1::Err;

    open spec fn ready(&self) -> bool {
        self.pair().ready()
    }

    open spec fn yields(&self, text: Seq<char>, pos: int, r: Result<U, P1::Err>, end: int) -> bool {
        match r {
            Ok(u) => exists|t: T| #[trigger] self.pair().yields(text, pos, Ok((t, u)), end),
            Err(e) => self.pair().yields(text, pos, Err(e), end),
        }
    }

    fn parse(&self, s: &mut ParserString) -> (r: Result<U, P1::Err>) {
        match self.c.parse(s) {
            Ok(pair) => {
                let ghost pg = pair;
                let (t, u) = pair;
                assert(self.pair().yields(old(s).text(), old(s).pos(), Ok((pg.0, u)), s.pos()));
                let ghost rr: Result<U, P1::Err> = Ok(u);
                assert(rr matches Ok(x) && x == u);
                assert(self.yields(old(s).text(), old(s).pos(), rr, s.pos()));
                Ok(u)
            },
            Err(e) => Err(e),
        }
    }
}

/// Converts the failure of a parser into the type `E`, which sets the target
/// type of a composite explicitly.
pub struct ConvertErr<T, E, P> {
    p: P,
    t: PhantomData<T>,
    e: PhantomData<E>,
}

impl<T, E, P> ConvertErr<T, E, P> {
    /// The parser whose failure is converted.
    pub closed spec fn inner(&self) -> P {
        self.p
    }
}

impl<T, E, P> ConvertErr<T, E, P> {
    /// Constructs this parser.
    pub fn new(p: P) -> (r: Self)
        ensures
            r.inner() == p,
    {
        ConvertErr { p, t: PhantomData, e: PhantomData }
    }
}

impl<T, E, P> Parser<T> for ConvertErr<T, E, P> where P: Parser<T>, E: From<P::Err> {
    type Err = E;

    open spec fn ready(&self) -> bool {
        self.inner().ready()
    }

    open spec fn yields(&self, text: Seq<char>, pos: int, r: Result<T, E>, end: int) -> bool {
        match r {
            Ok(t) => self.inner().yields(text, pos, Ok(t), end),
            Err(e) => exists|e1: P::Err|
                #[trigger] self.inner().yields(text, pos, Err(e1), end) && (E::obeys_from_spec() ==> e
                    == E::from_spec(e1)),
        }
    }

    fn parse(&self, s: &mut ParserString) -> (r: Result<T, E>) {
        match self.p.parse(s) {
            Ok(t) => Ok(t),
            Err(e) => Err(E::from(e)),
        }
    }
}

/// Runs a parser and, where it fails, puts the read position back where it
/// was, so that a failure reads nothing. A success keeps what was read.
pub struct Rewind<T, P> {
    p: P,
    t: PhantomData<T>,
}

impl<T, P> Rewind<T, P> {
    /// The parser that is run.
    pub closed spec fn inner(&self) -> P {
        self.p
    }

    /// Constructs this parser.
    pub fn new(p: P) -> (r: Self)
        ensures
            r.inner() == p,
    {
        Rewind { p, t: PhantomData }
    }
}

impl<T, P> Parser<T> for Rewind<T, P> where P: Parser<T> {
    type Err = P::Err;

    open spec fn ready(&self) -> bool {
        self.inner().ready()
    }

    open spec fn yields(&self, text: Seq<char>, pos: int, r: Result<T, P::Err>, end: int) -> bool {
        ||| r is Ok && self.inner().yields(text, pos, r, end)
        ||| r is Err && end == pos && exists|e: int| #[trigger] self.inner().yields(text, pos, r, e)
    }

    fn parse(&self, s: &mut ParserString) -> (r: Result<T, P::Err>) {
        self.p.try_parse(s)
    }
}

} // verus!
