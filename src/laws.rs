//! Laws that hold of the combinators, stated over [`Parser::yields`] and
//! proved.
use vstd::prelude::*;
use vstd::std_specs::convert::{FromSpec, IntoSpec};

use crate::builtins::{FloatErr, IntErr, Next, Take, Whitespace, Word, WordErr};
use crate::combinators::{advances, successive, Chain, ConvertErr, Many, Or, Rewind};
use crate::parser::{deterministic, Parser};

verus! {

/// A parser wrapped to rewind on failure either leaves the cursor where it
/// was, on a failure that the inner parser can give, or ends exactly where a
/// successful inner run ends, with the same value; and each such outcome of
/// the inner parser is one of the wrapper's.
pub proof fn lemma_rewind_round_trip<T, P>(
    rw: Rewind<T, P>,
    text: Seq<char>,
    pos: int,
    r: Result<T, P::Err>,
    end: int,
) where P: Parser<T>
    ensures
        rw.yields(text, pos, r, end) <==> {
            ||| r is Ok && rw.inner().yields(text, pos, r, end)
            ||| r is Err && end == pos && exists|e: int| rw.inner().yields(text, pos, r, e)
        },
        r is Err && rw.yields(text, pos, r, end) ==> end == pos,
{
}

/// Chaining is associative: `(a, b)` then `c` reads the same input and gives
/// the same values, paired the other way, as `a` then `(b, c)`, for every run
/// in which all three succeed.
#[verifier::spinoff_prover]
pub proof fn lemma_chain_assoc<A, B, C, PA, PB, PC, EB, EC>(
    left: Chain<(A, B), C, Chain<A, B, PA, PB>, PC>,
    right: Chain<A, (B, C), PA, Chain<B, C, PB, PC>>,
    text: Seq<char>,
    pos: int,
    x: A,
    y: B,
    z: C,
    end: int,
) where
    PA: Parser<A>,
    PB: Parser<B, Err = EB>,
    PC: Parser<C, Err = EC>,
    EB: Into<PA::Err>,
    EC: Into<PA::Err> + Into<EB>,

    requires
        left.first().first() == right.first(),
        left.first().second() == right.second().first(),
        left.second() == right.second().second(),
    ensures
        left.yields(text, pos, Ok(((x, y), z)), end) <==> right.yields(
            text,
            pos,
            Ok((x, (y, z))),
            end,
        ),
{
    let a = right.first();
    let b = right.second().first();
    let c = right.second().second();
    let l: Result<((A, B), C), PA::Err> = Ok(((x, y), z));
    let r: Result<(A, (B, C)), PA::Err> = Ok((x, (y, z)));
    let xy: Result<(A, B), PA::Err> = Ok((x, y));
    let yz: Result<(B, C), EB> = Ok((y, z));
    assert(l matches Ok((p, q)) && p == (x, y) && q == z);
    assert(r matches Ok((p, q)) && p == x && q == (y, z));
    assert(xy matches Ok((p, q)) && p == x && q == y);
    assert(yz matches Ok((p, q)) && p == y && q == z);
    if left.yields(text, pos, l, end) {
        let m = choose|m: int| left.first().yields(text, pos, xy, m) && c.yields(text, m, Ok(z), end);
        let m1 = choose|m1: int| a.yields(text, pos, Ok(x), m1) && b.yields(text, m1, Ok(y), m);
        assert(right.second().yields(text, m1, yz, end));
        assert(right.first().yields(text, pos, Ok(x), m1));
        assert(right.yields(text, pos, r, end));
    }
    if right.yields(text, pos, r, end) {
        let m1 = choose|m1: int|
            a.yields(text, pos, Ok(x), m1) && right.second().yields(text, m1, yz, end);
        let m = choose|m: int| b.yields(text, m1, Ok(y), m) && c.yields(text, m, Ok(z), end);
        assert(left.first().yields(text, pos, xy, m));
        assert(left.second().yields(text, m, Ok(z), end));
        assert(left.yields(text, pos, l, end));
    }
}

/// The first alternative wins: where every run of the first parser on the
/// input succeeds, the alternation gives exactly the results and end positions
/// of the first parser, whatever the second would do.
pub proof fn lemma_or_first_match<T, E, P1, P2>(
    alt: Or<T, E, P1, P2>,
    text: Seq<char>,
    pos: int,
    r: Result<T, P1::Err>,
    end: int,
) where P1: Parser<T>, E: Into<P1::Err>, P2: Parser<T, Err = E>
    requires
        forall|r1: Result<T, P1::Err>, e1: int| #[trigger]
            alt.first().yields(text, pos, r1, e1) ==> r1 is Ok,
    ensures
        alt.yields(text, pos, r, end) <==> alt.first().yields(text, pos, r, end),
{
    if exists|e1: P1::Err, e1_end: int| alt.first().yields(text, pos, Err(e1), e1_end) {
        let (e1, e1_end) = choose|e1: P1::Err, e1_end: int|
            alt.first().yields(text, pos, Err(e1), e1_end);
        assert(alt.first().yields(text, pos, Err(e1), e1_end));
    }
}

/// Every word that is read is at least one scalar value long, so a
/// repetition of words may run and ends.
pub proof fn lemma_word_advances()
    ensures
        advances(Word),
{
}

/// Reading a delimiter that is not empty moves forward, so a repetition of it
/// may run and ends.
pub proof fn lemma_take_advances(t: Take)
    requires
        t.delim()@.len() > 0,
    ensures
        advances(t),
{
}

/// A word failure converted into the failure type of the number readers comes
/// back out of a match as the same word failure, and never as a conversion
/// failure.
pub proof fn lemma_word_err_lossless<E>(w: WordErr, e: E)
    ensures
        <IntErr<E> as FromSpec<WordErr>>::obeys_from_spec(),
        <IntErr<E> as FromSpec<WordErr>>::from_spec(w) matches IntErr::Word(v) && v == w,
        <IntErr<E> as FromSpec<WordErr>>::from_spec(w) != IntErr::<E>::Parse(e),
        <FloatErr<E> as FromSpec<WordErr>>::obeys_from_spec(),
        <FloatErr<E> as FromSpec<WordErr>>::from_spec(w) matches FloatErr::Word(v) && v == w,
        <FloatErr<E> as FromSpec<WordErr>>::from_spec(w) != FloatErr::<E>::Parse(e),
{
}

/// The single-character, space-run and delimiter readers are deterministic.
pub proof fn lemma_builtins_deterministic(t: Take)
    ensures
        deterministic(Next),
        deterministic(Whitespace),
        deterministic(t),
{
}

/// For a deterministic parser, wrapping it to rewind on failure gives exactly
/// the inner run's result; the cursor ends where the inner run ended when it
/// succeeds, and stays where it was when it fails.
pub proof fn lemma_rewind_deterministic<T, P>(
    rw: Rewind<T, P>,
    text: Seq<char>,
    pos: int,
    r0: Result<T, P::Err>,
    e0: int,
    r: Result<T, P::Err>,
    end: int,
) where P: Parser<T>
    requires
        deterministic(rw.inner()),
        rw.inner().yields(text, pos, r0, e0),
    ensures
        rw.yields(text, pos, r, end) <==> r == r0 && end == (if r0 is Ok {
            e0
        } else {
            pos
        }),
{
    if r == r0 && r0 is Err {
        assert(rw.inner().yields(text, pos, r, e0));
    }
}

/// For a deterministic first parser that succeeds on the input, the
/// alternation gives exactly its value and ends exactly where it ends, whatever
/// the second parser would do.
pub proof fn lemma_or_first_match_deterministic<T, E, P1, P2>(
    alt: Or<T, E, P1, P2>,
    text: Seq<char>,
    pos: int,
    v: T,
    e1: int,
    r: Result<T, P1::Err>,
    end: int,
) where P1: Parser<T>, E: Into<P1::Err>, P2: Parser<T, Err = E>
    requires
        deterministic(alt.first()),
        alt.first().yields(text, pos, Ok(v), e1),
    ensures
        alt.yields(text, pos, r, end) <==> r == Ok::<T, P1::Err>(v) && end == e1,
{
    assert forall|r1: Result<T, P1::Err>, f1: int| #[trigger]
        alt.first().yields(text, pos, r1, f1) implies r1 is Ok by {
        assert(alt.first().yields(text, pos, Ok(v), e1));
    }
    lemma_or_first_match(alt, text, pos, r, end);
}

/// A chain of two deterministic parsers that both succeed in turn gives
/// exactly their pair of values and ends where the second ends.
#[verifier::spinoff_prover]
pub proof fn lemma_chain_deterministic<T, U, P1, P2, E>(
    ch: Chain<T, U, P1, P2>,
    text: Seq<char>,
    pos: int,
    x: T,
    mid: int,
    y: U,
    end: int,
    r: Result<(T, U), P1::Err>,
    e: int,
) where P1: Parser<T>, E: Into<P1::Err>, P2: Parser<U, Err = E>
    requires
        deterministic(ch.first()),
        deterministic(ch.second()),
        ch.first().yields(text, pos, Ok(x), mid),
        ch.second().yields(text, mid, Ok(y), end),
    ensures
        ch.yields(text, pos, r, e) <==> r == Ok::<(T, U), P1::Err>((x, y)) && e == end,
{
    lemma_chain_pair_deterministic(ch, text, pos, x, mid, y, end, r, e);
}

/// Chaining is associative for deterministic parsers that succeed one after
/// the other: both nestings give exactly the same three values, paired the
/// other way, and end at the same place, where the third run ends.
pub proof fn lemma_chain_assoc_deterministic<A, B, C, PA, PB, PC, EB, EC>(
    left: Chain<(A, B), C, Chain<A, B, PA, PB>, PC>,
    right: Chain<A, (B, C), PA, Chain<B, C, PB, PC>>,
    text: Seq<char>,
    pos: int,
    x: A,
    m1: int,
    y: B,
    m2: int,
    z: C,
    end: int,
    rl: Result<((A, B), C), PA::Err>,
    el: int,
    rr: Result<(A, (B, C)), PA::Err>,
    er: int,
) where
    PA: Parser<A>,
    PB: Parser<B, Err = EB>,
    PC: Parser<C, Err = EC>,
    EB: Into<PA::Err>,
    EC: Into<PA::Err> + Into<EB>,

    requires
        left.first().first() == right.first(),
        left.first().second() == right.second().first(),
        left.second() == right.second().second(),
        deterministic(right.first()),
        deterministic(right.second().first()),
        deterministic(right.second().second()),
        right.first().yields(text, pos, Ok(x), m1),
        right.second().first().yields(text, m1, Ok(y), m2),
        right.second().second().yields(text, m2, Ok(z), end),
    ensures
        left.yields(text, pos, rl, el) <==> rl == Ok::<((A, B), C), PA::Err>(((x, y), z)) && el
            == end,
        right.yields(text, pos, rr, er) <==> rr == Ok::<(A, (B, C)), PA::Err>((x, (y, z))) && er
            == end,
{
    let inner_l = left.first();
    let inner_r = right.second();
    assert forall|r1: Result<(A, B), PA::Err>, e1: int, r2: Result<(A, B), PA::Err>, e2: int|
        #[trigger] inner_l.yields(text, pos, r1, e1) && #[trigger] inner_l.yields(
            text,
            pos,
            r2,
            e2,
        ) implies r1 == r2 && e1 == e2 by {
        lemma_chain_deterministic(inner_l, text, pos, x, m1, y, m2, r1, e1);
        lemma_chain_deterministic(inner_l, text, pos, x, m1, y, m2, r2, e2);
    }
    assert forall|r1: Result<(B, C), EB>, e1: int, r2: Result<(B, C), EB>, e2: int|
        #[trigger] inner_r.yields(text, m1, r1, e1) && #[trigger] inner_r.yields(
            text,
            m1,
            r2,
            e2,
        ) implies r1 == r2 && e1 == e2 by {
        lemma_chain_deterministic(inner_r, text, m1, y, m2, z, end, r1, e1);
        lemma_chain_deterministic(inner_r, text, m1, y, m2, z, end, r2, e2);
    }
    let xy: Result<(A, B), PA::Err> = Ok((x, y));
    let yz: Result<(B, C), EB> = Ok((y, z));
    lemma_chain_deterministic(inner_l, text, pos, x, m1, y, m2, xy, m2);
    lemma_chain_deterministic(inner_r, text, m1, y, m2, z, end, yz, end);
    lemma_chain_pair_deterministic(left, text, pos, (x, y), m2, z, end, rl, el);
    lemma_chain_pair_deterministic(right, text, pos, x, m1, (y, z), end, rr, er);
}

/// Like [`lemma_chain_deterministic`], but asking determinism of each part only
/// at the positions where the runs start.
proof fn lemma_chain_pair_deterministic<T, U, P1, P2, E>(
    ch: Chain<T, U, P1, P2>,
    text: Seq<char>,
    pos: int,
    x: T,
    mid: int,
    y: U,
    end: int,
    r: Result<(T, U), P1::Err>,
    e: int,
) where P1: Parser<T>, E: Into<P1::Err>, P2: Parser<U, Err = E>
    requires
        forall|r1: Result<T, P1::Err>, e1: int| #[trigger]
            ch.first().yields(text, pos, r1, e1) ==> r1 == Ok::<T, P1::Err>(x) && e1 == mid,
        forall|r2: Result<U, E>, e2: int| #[trigger]
            ch.second().yields(text, mid, r2, e2) ==> r2 == Ok::<U, E>(y) && e2 == end,
        ch.first().yields(text, pos, Ok(x), mid),
        ch.second().yields(text, mid, Ok(y), end),
    ensures
        ch.yields(text, pos, r, e) <==> r == Ok::<(T, U), P1::Err>((x, y)) && e == end,
{
    let a = ch.first();
    let b = ch.second();
    let xy: Result<(T, U), P1::Err> = Ok((x, y));
    assert(xy matches Ok((p, q)) && p == x && q == y);
    assert(ch.yields(text, pos, xy, end));
    if ch.yields(text, pos, r, e) {
        match r {
            Ok(pq) => {
                let m = choose|m: int|
                    a.yields(text, pos, Ok(pq.0), m) && b.yields(text, m, Ok(pq.1), e);
                assert(a.yields(text, pos, Ok(pq.0), m));
                assert(b.yields(text, m, Ok(pq.1), e));
            },
            Err(f) => {
                if a.yields(text, pos, Err(f), e) {
                    assert(false);
                } else {
                    let (m, t, f2) = choose|m: int, t: T, f2: E|
                        a.yields(text, pos, Ok(t), m) && b.yields(text, m, Err(f2), e) && (
                        E::obeys_into_spec() ==> f == f2.into_spec());
                    assert(a.yields(text, pos, Ok(t), m));
                    assert(b.yields(text, m, Err(f2), e));
                    assert(false);
                }
            },
        }
    }
}

/// Two chains of successful runs of a deterministic parser from the same
/// position agree on their first `k` values and positions.
proof fn lemma_runs_agree<T, P: Parser<T>>(
    p: P,
    text: Seq<char>,
    vs: Seq<T>,
    ps: Seq<int>,
    ws: Seq<T>,
    qs: Seq<int>,
    k: int,
)
    requires
        deterministic(p),
        successive(p, text, vs, ps),
        successive(p, text, ws, qs),
        ps[0] == qs[0],
        0 <= k <= vs.len(),
        k <= ws.len(),
    ensures
        forall|i: int| 0 <= i < k ==> vs[i] == ws[i],
        ps[k] == qs[k],
    decreases k,
{
    if k > 0 {
        lemma_runs_agree(p, text, vs, ps, ws, qs, k - 1);
        let i = k - 1;
        assert(p.yields(text, ps[i], Ok(vs[i]), ps[i + 1]));
        assert(p.yields(text, qs[i], Ok(ws[i]), qs[i + 1]));
    }
}

/// For a deterministic parser, a repetition returns exactly the values of the
/// runs that succeed one after the other before the first failure, in input
/// order, and ends where that failing attempt starts.
pub proof fn lemma_many_deterministic<T, P>(
    m: Many<T, P>,
    text: Seq<char>,
    pos: int,
    vs: Seq<T>,
    ps: Seq<int>,
    fail: P::Err,
    fail_end: int,
    r: Result<Vec<T>, core::convert::Infallible>,
    end: int,
) where P: Parser<T>
    requires
        deterministic(m.inner()),
        successive(m.inner(), text, vs, ps),
        ps[0] == pos,
        m.inner().yields(text, ps.last(), Err(fail), fail_end),
    ensures
        m.yields(text, pos, r, end) <==> (r matches Ok(w) && w@ == vs && end == ps.last()),
{
    let p = m.inner();
    if m.yields(text, pos, r, end) {
        let w = r->Ok_0;
        let qs = choose|qs: Seq<int>|
            #[trigger] successive(p, text, w@, qs) && qs[0] == pos && qs.last() == end;
        let (f2, f2_end) = choose|f2: P::Err, f2_end: int| p.yields(text, end, Err(f2), f2_end);
        let n = vs.len() as int;
        let k = w@.len() as int;
        if n < k {
            lemma_runs_agree(p, text, vs, ps, w@, qs, n);
            assert(p.yields(text, qs[n], Ok(w@[n]), qs[n + 1]));
            assert(p.yields(text, ps[n], Err(fail), fail_end));
        } else if k < n {
            lemma_runs_agree(p, text, w@, qs, vs, ps, k);
            assert(p.yields(text, ps[k], Ok(vs[k]), ps[k + 1]));
            assert(p.yields(text, qs[k], Err(f2), f2_end));
        } else {
            lemma_runs_agree(p, text, vs, ps, w@, qs, n);
            assert(w@ =~= vs);
        }
    }
    if r matches Ok(w) && w@ == vs && end == ps.last() {
        assert(successive(p, text, r->Ok_0@, ps));
        assert(p.yields(text, end, Err(fail), fail_end));
    }
}

/// Setting the failure type of a deterministic parser changes nothing but the
/// failure: a value and the end position are the inner run's, and a failure
/// is the inner one converted by the target type's `From`.
pub proof fn lemma_convert_err_deterministic<T, E, P>(
    c: ConvertErr<T, E, P>,
    text: Seq<char>,
    pos: int,
    r0: Result<T, P::Err>,
    e0: int,
    r: Result<T, E>,
    end: int,
) where P: Parser<T>, E: From<P::Err>
    requires
        deterministic(c.inner()),
        c.inner().yields(text, pos, r0, e0),
        E::obeys_from_spec(),
    ensures
        c.yields(text, pos, r, end) <==> end == e0 && r == match r0 {
            Ok(v) => Ok::<T, E>(v),
            Err(f) => Err::<T, E>(E::from_spec(f)),
        },
{
    match r0 {
        Ok(v) => {},
        Err(f) => {
            if end == e0 && r == Err::<T, E>(E::from_spec(f)) {
                assert(c.inner().yields(text, pos, Err(f), end));
            }
        },
    }
}

} // verus!
