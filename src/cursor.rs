//! The read cursor, and facts about UTF-8 widths that its byte offsets rest on.
use vstd::prelude::*;
use vstd::utf8::*;
use vstd::string::StringSliceAdditionalSpecFns;
use vstd::std_specs::iter::IteratorSpec;

verus! {

/// Number of bytes that the UTF-8 encoding of `s` takes.
pub open spec fn utf8_width(s: Seq<char>) -> nat {
    encode_utf8(s).len()
}

/// The encoding of a concatenation is the concatenation of the encodings.
pub proof fn lemma_encode_concat(a: Seq<char>, b: Seq<char>)
    ensures
        encode_utf8(a + b) == encode_utf8(a) + encode_utf8(b),
    decreases a.len(),
{
    if a.len() == 0 {
        assert(a + b =~= b);
        assert(encode_utf8(a) + encode_utf8(b) =~= encode_utf8(b));
    } else {
        assert((a + b).drop_first() =~= a.drop_first() + b);
        lemma_encode_concat(a.drop_first(), b);
        assert(encode_utf8(a + b) =~= encode_utf8(a) + encode_utf8(b));
    }
}

/// The byte offset just after the first `a.len()` scalars is a character boundary.
pub proof fn lemma_boundary_after(a: Seq<char>, b: Seq<char>)
    ensures
        is_char_boundary(encode_utf8(a + b), utf8_width(a) as int),
    decreases a.len(),
{
    broadcast use encode_utf8_valid_utf8;

    let bytes = encode_utf8(a + b);
    lemma_encode_concat(a, b);
    if a.len() == 0 {
    } else {
        let ab = a + b;
        encode_utf8_first_scalar(ab);
        assert(ab.drop_first() =~= a.drop_first() + b);
        lemma_encode_concat(a.drop_first(), b);
        assert(pop_first_scalar(bytes) =~= encode_utf8(ab.drop_first()));
        lemma_boundary_after(a.drop_first(), b);
        assert(utf8_width(a) == encode_scalar(a[0] as u32).len() + utf8_width(a.drop_first()));
    }
}

/// A string slice whose bytes encode `v` reads as `v`.
pub proof fn lemma_view_of_bytes(x: &str, v: Seq<char>)
    requires
        x.spec_bytes() == encode_utf8(v),
    ensures
        x@ == v,
{
    encode_utf8_decode_utf8(v);
    encode_utf8_decode_utf8(x@);
}

/// The one scalar value at `k` takes between one and four bytes.
pub proof fn lemma_width_one(v: Seq<char>, k: int)
    requires
        0 <= k < v.len(),
    ensures
        utf8_width(v.subrange(k, k + 1)) == encode_scalar(v[k] as u32).len(),
        1 <= utf8_width(v.subrange(k, k + 1)) <= 4,
{
    let one = v.subrange(k, k + 1);
    assert(one.drop_first() =~= Seq::<char>::empty());
    assert(encode_utf8(one.drop_first()) =~= Seq::<u8>::empty());
    char_is_scalar(v[k]);
    assert(one[0] == v[k]);
    assert(encode_utf8(one) =~= encode_scalar(v[k] as u32));
}

/// Byte widths add up along a split of a text, and every scalar value takes at
/// least one byte.
pub proof fn lemma_width_split(v: Seq<char>, i: int, j: int)
    requires
        0 <= i <= j <= v.len(),
    ensures
        utf8_width(v.take(j)) == utf8_width(v.take(i)) + utf8_width(v.subrange(i, j)),
        utf8_width(v.subrange(i, j)) >= j - i,
        utf8_width(v.take(j)) <= utf8_width(v),
    decreases j - i,
{
    lemma_encode_concat(v.take(i), v.subrange(i, j));
    assert(v.take(j) =~= v.take(i) + v.subrange(i, j));
    lemma_encode_concat(v.take(j), v.subrange(j, v.len() as int));
    assert(v =~= v.take(j) + v.subrange(j, v.len() as int));
    if i < j {
        lemma_width_split(v, i + 1, j);
        lemma_encode_concat(v.take(i), v.subrange(i, i + 1));
        assert(v.take(i + 1) =~= v.take(i) + v.subrange(i, i + 1));
        lemma_width_one(v, i);
    }
}

/// Positions with the same byte offset are the same position.
pub proof fn lemma_width_injective(v: Seq<char>, i: int, j: int)
    requires
        0 <= i <= v.len(),
        0 <= j <= v.len(),
        utf8_width(v.take(i)) == utf8_width(v.take(j)),
    ensures
        i == j,
{
    if i < j {
        lemma_width_split(v, i, j);
    } else if j < i {
        lemma_width_split(v, j, i);
    }
}

/// Number of bytes in the UTF-8 encoding of `c`.
pub fn char_width(c: char) -> (w: usize)
    ensures
        w == encode_scalar(c as u32).len(),
        1 <= w <= 4,
{
    proof {
        char_is_scalar(c);
    }
    let u = c as u32;
    if u <= 0x7F {
        1
    } else if u <= 0x7FF {
        2
    } else if u <= 0xFFFF {
        3
    } else {
        4
    }
}


/// A shrinking read window over an immutable text.
///
/// The text is kept whole; reading moves a position forward, so what was read
/// stays reachable for a rewind. Positions are counted in scalar values
/// (`char`s); [`ParserString::start`] gives the same position in bytes.
#[derive(Debug)]
pub struct ParserString {
    full: String,
    chars: Vec<char>,
    at: (usize, usize),
}

impl ParserString {
    /// The whole text, read or not.
    pub closed spec fn text(&self) -> Seq<char> {
        self.chars@
    }

    /// The read position, in scalar values from the start of the text.
    pub closed spec fn pos(&self) -> int {
        self.at.0 as int
    }

    /// What is left to read.
    pub open spec fn rest(&self) -> Seq<char> {
        self.text().subrange(self.pos(), self.text().len() as int)
    }

    /// The read position in bytes.
    pub open spec fn byte_pos(&self) -> int {
        utf8_width(self.text().take(self.pos())) as int
    }

    #[verifier::type_invariant]
    closed spec fn inv(&self) -> bool {
        &&& self.chars@ == self.full@
        &&& self.at.0 <= self.chars.len()
        &&& self.at.1 == utf8_width(self.chars@.take(self.at.0 as int))
        &&& utf8_width(self.chars@) <= usize::MAX
    }

    /// Whether `b` is the byte offset of some position of the text.
    pub open spec fn is_boundary(&self, b: int) -> bool {
        exists|k: int| 0 <= k <= self.text().len() && utf8_width(self.text().take(k)) == b
    }

    /// Bytes taken by the scalar values from `from` up to `to`.
    fn width_between(&self, from: usize, to: usize) -> (w: usize)
        requires
            from <= to <= self.text().len(),
        ensures
            w == utf8_width(self.text().subrange(from as int, to as int)),
    {
        proof {
            use_type_invariant(self);
        }
        let mut w: usize = 0;
        let mut k: usize = from;
        while k < to
            invariant
                from <= k <= to <= self.chars@.len(),
                w == utf8_width(self.chars@.subrange(from as int, k as int)),
                utf8_width(self.chars@) <= usize::MAX,
            decreases to - k,
        {
            proof {
                let v = self.chars@;
                lemma_width_split(v, from as int, k as int + 1);
                lemma_width_split(v, from as int, k as int);
                lemma_width_split(v, k as int, k as int + 1);
                lemma_width_split(v, 0, from as int);
                lemma_width_split(v, 0, k as int + 1);
                lemma_width_one(v, k as int);
            }
            let c = self.chars[k];
            w = w + char_width(c);
            k = k + 1;
        }
        w
    }

    /// Makes a cursor at the start of `text`.
    pub fn new(text: &str) -> (r: ParserString)
        ensures
            r.text() == text@,
            r.pos() == 0,
    {
        let full = text.to_owned();
        let nbytes = full.as_str().as_bytes().len();
        let mut chars: Vec<char> = Vec::new();
        let mut it = full.as_str().chars();
        loop
            invariant
                chars@ + it.remaining() == full@,
                it.decrease() is Some,
            ensures
                chars@ == full@,
            decreases it.decrease()->0,
        {
            match it.next() {
                Some(c) => {
                    chars.push(c);
                },
                None => {
                    break;
                },
            }
        }
        assert(chars@.take(0) =~= Seq::<char>::empty());
        assert(nbytes == utf8_width(chars@));
        ParserString { full, chars, at: (0, 0) }
    }

    /// Reads the next `n` scalar values and returns them.
    ///
    /// The caller must know that at least `n` are left;
    /// [`ParserString::try_take`] checks this itself.
    pub fn take(&mut self, n: usize) -> (r: &str)
        requires
            n <= old(self).rest().len(),
        ensures
            r@ == old(self).rest().take(n as int),
            final(self).text() == old(self).text(),
            final(self).pos() == old(self).pos() + n,
            final(self).rest() == old(self).rest().subrange(n as int, old(self).rest().len() as int),
    {
        proof {
            use_type_invariant(&*self);
        }
        let from = self.at.0;
        let start = self.at.1;
        let w = self.width_between(from, from + n);
        proof {
            let v = self.chars@;
            lemma_width_split(v, from as int, (from + n) as int);
            lemma_width_split(v, 0, from as int);
            lemma_width_split(v, 0, (from + n) as int);
        }
        self.at = (from + n, start + w);
        let whole = self.full.as_str();
        proof {
            let v = self.chars@;
            let a = v.take(from as int);
            let b = v.subrange(from as int, (from + n) as int);
            let c = v.subrange((from + n) as int, v.len() as int);
            assert(v =~= a + (b + c));
            lemma_boundary_after(a, b + c);
            lemma_encode_concat(a, b + c);
            lemma_encode_concat(b, c);
            let ea = encode_utf8(a);
            let eb = encode_utf8(b);
            let ec = encode_utf8(c);
            assert((ea + (eb + ec)).subrange(ea.len() as int, (ea + (eb + ec)).len() as int) =~= eb + ec);
            assert(b + c =~= b + c);
            lemma_boundary_after(b, c);
            assert((eb + ec).subrange(0, eb.len() as int) =~= eb);
        }
        let (_, back) = whole.split_at(start);
        let (front, _) = back.split_at(w);
        proof {
            let v = self.chars@;
            lemma_view_of_bytes(front, v.subrange(from as int, (from + n) as int));
            assert(old(self).rest().take(n as int) =~= v.subrange(from as int, (from + n) as int));
            assert(self.rest() =~= old(self).rest().subrange(n as int, old(self).rest().len() as int));
        }
        front
    }

    /// Reads the next `n` scalar values and returns them, or returns `None`
    /// and reads nothing when fewer than `n` are left.
    pub fn try_take(&mut self, n: usize) -> (r: Option<&str>)
        ensures
            final(self).text() == old(self).text(),
            r is None <==> n > old(self).rest().len(),
            r is None ==> final(self).pos() == old(self).pos(),
            r matches Some(x) ==> x@ == old(self).rest().take(n as int) && final(self).pos()
                == old(self).pos() + n,
    {
        if n > self.len() {
            return None;
        }
        Some(self.take(n))
    }

    /// Moves the read position back by `n` scalar values.
    ///
    /// A parser gives back only what it read itself since it was called;
    /// giving back more leaves the caller of that parser with a position it
    /// did not expect.
    pub fn give(&mut self, n: usize)
        requires
            n <= old(self).pos(),
        ensures
            final(self).text() == old(self).text(),
            final(self).pos() == old(self).pos() - n,
    {
        proof {
            use_type_invariant(&*self);
        }
        let to = self.at.0;
        let w = self.width_between(to - n, to);
        proof {
            lemma_width_split(self.chars@, (to - n) as int, to as int);
        }
        self.at = (to - n, self.at.1 - w);
    }

    /// Moves the read position to the byte offset `b`, which must be the byte
    /// offset of a position of the text (such as one that
    /// [`ParserString::start`] returned).
    pub fn set_ptr(&mut self, b: usize)
        requires
            old(self).is_boundary(b as int),
        ensures
            final(self).text() == old(self).text(),
            final(self).byte_pos() == b,
            forall|k: int|
                0 <= k <= old(self).text().len() && utf8_width(old(self).text().take(k)) == b
                    ==> final(self).pos() == k,
    {
        proof {
            use_type_invariant(&*self);
        }
        let ghost v = self.chars@;
        let ghost target = choose|k: int| 0 <= k <= v.len() && utf8_width(v.take(k)) == b;
        let mut k: usize = 0;
        let mut acc: usize = 0;
        assert(v.take(0) =~= Seq::<char>::empty());
        while acc < b
            invariant
                v == self.chars@,
                0 <= k <= target <= v.len(),
                utf8_width(v.take(target)) == b,
                acc == utf8_width(v.take(k as int)),
            decreases target - k,
        {
            proof {
                if k == target {
                    assert(false);
                }
                lemma_width_split(v, k as int, k as int + 1);
                lemma_width_split(v, k as int + 1, target);
                lemma_width_split(v, 0, k as int + 1);
                lemma_width_split(v, 0, k as int);
                lemma_width_one(v, k as int);
            }
            acc = acc + char_width(self.chars[k]);
            k = k + 1;
        }
        proof {
            if k < target {
                lemma_width_split(v, k as int, target);
            }
            assert forall|j: int|
                0 <= j <= v.len() && utf8_width(v.take(j)) == b implies k == j by {
                lemma_width_injective(v, k as int, j);
            }
        }
        self.at = (k, acc);
    }

    /// Gets what is left to read, without reading it.
    pub fn get(&self) -> (r: &str)
        ensures
            r@ == self.rest(),
    {
        proof {
            use_type_invariant(self);
        }
        let whole = self.full.as_str();
        proof {
            let v = self.chars@;
            let p = self.at.0 as int;
            assert(v =~= v.take(p) + v.subrange(p, v.len() as int));
            lemma_boundary_after(v.take(p), v.subrange(p, v.len() as int));
            lemma_encode_concat(v.take(p), v.subrange(p, v.len() as int));
            let e1 = encode_utf8(v.take(p));
            let e2 = encode_utf8(v.subrange(p, v.len() as int));
            assert((e1 + e2).subrange(e1.len() as int, (e1 + e2).len() as int) =~= e2);
        }
        let (_, back) = whole.split_at(self.at.1);
        proof {
            lemma_view_of_bytes(back, self.rest());
        }
        back
    }

    /// Number of scalar values left to read.
    pub fn len(&self) -> (r: usize)
        ensures
            r == self.rest().len(),
    {
        proof {
            use_type_invariant(self);
        }
        self.chars.len() - self.at.0
    }

    /// The read position, in bytes from the start of the text.
    pub fn start(&self) -> (r: usize)
        ensures
            r == self.byte_pos(),
            0 <= self.pos() <= self.text().len(),
            self.text().len() <= usize::MAX,
    {
        proof {
            use_type_invariant(self);
        }
        self.at.1
    }
}

impl<'a> From<&'a str> for ParserString {
    fn from(value: &'a str) -> (r: ParserString)
        ensures
            r.text() == value@,
            r.pos() == 0,
    {
        ParserString::new(value)
    }
}

impl<'a> vstd::std_specs::convert::FromSpecImpl<&'a str> for ParserString {
    open spec fn obeys_from_spec() -> bool {
        false
    }

    open spec fn from_spec(v: &'a str) -> ParserString {
        vstd::pervasive::arbitrary()
    }
}

impl From<String> for ParserString {
    fn from(value: String) -> (r: ParserString)
        ensures
            r.text() == value@,
            r.pos() == 0,
    {
        ParserString::new(value.as_str())
    }
}

impl vstd::std_specs::convert::FromSpecImpl<String> for ParserString {
    open spec fn obeys_from_spec() -> bool {
        false
    }

    open spec fn from_spec(v: String) -> ParserString {
        vstd::pervasive::arbitrary()
    }
}

} // verus!
