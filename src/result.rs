use vstd::prelude::*;

verus! {

/// A three-way parse outcome: a value, a failure the caller may recover from,
/// or one it may not.
pub enum ParseResult<T, E> {
    /// Successfully parsed data.
    Success(T),
    /// Parser failed in a trivial/recoverable way
    Recoverable(E),
    /// Parser failed in a catastrophic/unrecoverable way
    Unrecoverable(E),
}

impl<T, E> From<T> for ParseResult<T, E> {
    fn from(v: T) -> (r: ParseResult<T, E>) {
        ParseResult::Success(v)
    }
}

impl<T, E> vstd::std_specs::convert::FromSpecImpl<T> for ParseResult<T, E> {
    open spec fn obeys_from_spec() -> bool {
        true
    }

    open spec fn from_spec(v: T) -> ParseResult<T, E> {
        ParseResult::Success(v)
    }
}

impl<T, E> ParseResult<T, E> {
    /// Returns `true` if the parse result is [`ParseResult::Success`].
    pub fn is_ok(&self) -> (r: bool)
        ensures
            r == self is Success,
    {
        match self {
            ParseResult::Success(_) => true,
            _ => false,
        }
    }

    /// Returns `true` if the parse result is [`ParseResult::Recoverable`].
    pub fn is_recoverable(&self) -> (r: bool)
        ensures
            r == self is Recoverable,
    {
        match self {
            ParseResult::Recoverable(_) => true,
            _ => false,
        }
    }

    /// Returns `true` if the parse result is [`ParseResult::Unrecoverable`].
    pub fn is_unrecoverable(&self) -> (r: bool)
        ensures
            r == self is Unrecoverable,
    {
        match self {
            ParseResult::Unrecoverable(_) => true,
            _ => false,
        }
    }

    /// Maps a `ParseResult<T, E>` to `ParseResult<U, E>` by applying a function
    /// to a contained [`ParseResult::Success`] value, leaving a failure untouched.
    pub fn map<U, F: FnOnce(T) -> U>(self, f: F) -> (r: ParseResult<U, E>)
        requires
            self matches ParseResult::Success(t) ==> call_requires(f, (t,)),
        ensures
            match self {
                ParseResult::Success(t) => r matches ParseResult::Success(u) && call_ensures(f, (t,), u),
                ParseResult::Recoverable(e) => r == ParseResult::<U, E>::Recoverable(e),
                ParseResult::Unrecoverable(e) => r == ParseResult::<U, E>::Unrecoverable(e),
            },
    {
        match self {
            ParseResult::Success(item) => ParseResult::Success(f(item)),
            ParseResult::Recoverable(e) => ParseResult::Recoverable(e),
            ParseResult::Unrecoverable(e) => ParseResult::Unrecoverable(e),
        }
    }

    /// Maps a `ParseResult<T, E>` to `ParseResult<T, U>` by applying a function
    /// to a contained failure, of either kind, leaving a value untouched.
    pub fn map_err<U, F: FnOnce(E) -> U>(self, f: F) -> (r: ParseResult<T, U>)
        requires
            self matches ParseResult::Recoverable(e) ==> call_requires(f, (e,)),
            self matches ParseResult::Unrecoverable(e) ==> call_requires(f, (e,)),
        ensures
            match self {
                ParseResult::Success(t) => r == ParseResult::<T, U>::Success(t),
                ParseResult::Recoverable(e) => r matches ParseResult::Recoverable(u) && call_ensures(
                    f,
                    (e,),
                    u,
                ),
                ParseResult::Unrecoverable(e) => r matches ParseResult::Unrecoverable(u)
                    && call_ensures(f, (e,), u),
            },
    {
        match self {
            ParseResult::Success(item) => ParseResult::Success(item),
            ParseResult::Recoverable(e) => ParseResult::Recoverable(f(e)),
            ParseResult::Unrecoverable(e) => ParseResult::Unrecoverable(f(e)),
        }
    }

    /// Replaces the value inside [`ParseResult::Success`], leaving failures
    /// untouched.
    pub fn replace<U>(self, value: U) -> (r: ParseResult<U, E>)
        ensures
            match self {
                ParseResult::Success(_) => r == ParseResult::<U, E>::Success(value),
                ParseResult::Recoverable(e) => r == ParseResult::<U, E>::Recoverable(e),
                ParseResult::Unrecoverable(e) => r == ParseResult::<U, E>::Unrecoverable(e),
            },
    {
        match self {
            ParseResult::Success(_) => ParseResult::Success(value),
            ParseResult::Recoverable(e) => ParseResult::Recoverable(e),
            ParseResult::Unrecoverable(e) => ParseResult::Unrecoverable(e),
        }
    }

    /// Replaces the failure inside [`ParseResult::Recoverable`] and
    /// [`ParseResult::Unrecoverable`], keeping its kind and leaving a value
    /// untouched.
    pub fn replace_err<U>(self, err: U) -> (r: ParseResult<T, U>)
        ensures
            match self {
                ParseResult::Success(t) => r == ParseResult::<T, U>::Success(t),
                ParseResult::Recoverable(_) => r == ParseResult::<T, U>::Recoverable(err),
                ParseResult::Unrecoverable(_) => r == ParseResult::<T, U>::Unrecoverable(err),
            },
    {
        match self {
            ParseResult::Success(ok) => ParseResult::Success(ok),
            ParseResult::Recoverable(_) => ParseResult::Recoverable(err),
            ParseResult::Unrecoverable(_) => ParseResult::Unrecoverable(err),
        }
    }
}

} // verus!
