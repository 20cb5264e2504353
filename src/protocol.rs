use either::Either;
use std::sync::Arc;
use vstd::prelude::*;
use vstd::std_specs::cmp::PartialEqSpec;

verus! {

/// Declares `either::Either` with its two public variants, so that the
/// storage of a protocol can be matched on.
#[verifier::external_type_specification]
#[verifier::reject_recursive_types(L)]
#[verifier::reject_recursive_types(R)]
pub struct ExEither<L, R>(Either<L, R>);

/// The text of a protocol identifier is valid when it starts with a forward slash.
pub open spec fn is_valid_protocol(s: Seq<char>) -> bool {
    s.len() > 0 && s[0] == '/'
}

/// Identifies a protocol for a stream.
///
/// Stream protocols are string-based and must start with a forward slash: `/`.
/// The text is held either as a string that lives for the whole program or as
/// a shared, reference-counted string; which one is never observable.
#[derive(Debug)]
pub struct StreamProtocol {
    inner: Either<&'static str, Arc<str>>,
}

impl View for StreamProtocol {
    type V = Seq<char>;

    closed spec fn view(&self) -> Seq<char> {
        match self.inner {
            Either::Left(s) => s@,
            Either::Right(a) => (*a)@,
        }
    }
}

/// Relies on `Arc::<str>::from`: the shared string holds the same text.
#[verifier::external_body]
fn share_string(s: String) -> (r: Arc<str>)
    ensures
        (*r)@ == s@,
{
    Arc::from(s)
}

/// Relies on `Arc::clone`: the new pointer refers to the same text.
#[verifier::external_body]
fn share_again(a: &Arc<str>) -> (r: Arc<str>)
    ensures
        (*r)@ == (**a)@,
{
    Arc::clone(a)
}

impl Clone for StreamProtocol {
    fn clone(&self) -> (r: Self)
        ensures
            r@ == self@,
    {
        proof {
            use_type_invariant(self);
        }
        match &self.inner {
            Either::Left(s) => StreamProtocol { inner: Either::Left(*s) },
            Either::Right(a) => StreamProtocol { inner: Either::Right(share_again(a)) },
        }
    }
}

impl StreamProtocol {
    #[verifier::type_invariant]
    closed spec fn inv(&self) -> bool {
        is_valid_protocol(self@)
    }

    /// Construct a new protocol from a static string slice.
    pub fn new(s: &'static str) -> (r: Self)
        requires
            is_valid_protocol(s@),
        ensures
            r@ == s@,
    {
        StreamProtocol { inner: Either::Left(s) }
    }

    /// Attempt to construct a protocol from an owned string.
    pub fn try_from_owned(protocol: String) -> (r: Result<Self, InvalidProtocol>)
        ensures
            r.is_ok() <==> is_valid_protocol(protocol@),
            r matches Ok(p) ==> p@ == protocol@,
    {
        if !starts_with_slash(protocol.as_str()) {
            return Err(InvalidProtocol::missing_forward_slash());
        }
        Ok(StreamProtocol { inner: Either::Right(share_string(protocol)) })
    }

    /// The text of the protocol, whichever way it is stored.
    pub fn as_ref(&self) -> (r: &str)
        ensures
            r@ == self@,
            is_valid_protocol(r@),
    {
        proof {
            use_type_invariant(self);
        }
        match &self.inner {
            Either::Left(s) => *s,
            Either::Right(a) => &**a,
        }
    }
}

/// Relies on `<str as PartialEq>::eq`: two string slices are equal exactly
/// when they hold the same characters.
#[verifier::external_body]
fn same_text(a: &str, b: &str) -> (r: bool)
    ensures
        r == (a@ == b@),
{
    a == b
}

impl PartialEq for StreamProtocol {
    fn eq(&self, other: &Self) -> (r: bool)
        ensures
            r == (self@ == other@),
    {
        same_text(self.as_ref(), other.as_ref())
    }
}

impl vstd::std_specs::cmp::PartialEqSpecImpl for StreamProtocol {
    open spec fn obeys_eq_spec() -> bool {
        true
    }

    open spec fn eq_spec(&self, other: &StreamProtocol) -> bool {
        self@ == other@
    }
}

impl Eq for StreamProtocol {
}

impl<'a> PartialEq<&'a str> for StreamProtocol {
    fn eq(&self, other: &&'a str) -> (r: bool)
        ensures
            r == (self@ == (*other)@),
    {
        same_text(self.as_ref(), *other)
    }
}

impl<'a> vstd::std_specs::cmp::PartialEqSpecImpl<&'a str> for StreamProtocol {
    open spec fn obeys_eq_spec() -> bool {
        true
    }

    open spec fn eq_spec(&self, other: &&'a str) -> bool {
        self@ == (*other)@
    }
}

impl<'a> PartialEq<StreamProtocol> for &'a str {
    fn eq(&self, other: &StreamProtocol) -> (r: bool)
        ensures
            r == ((*self)@ == other@),
    {
        same_text(*self, other.as_ref())
    }
}

impl<'a> vstd::std_specs::cmp::PartialEqSpecImpl<StreamProtocol> for &'a str {
    open spec fn obeys_eq_spec() -> bool {
        true
    }

    open spec fn eq_spec(&self, other: &StreamProtocol) -> bool {
        (*self)@ == other@
    }
}

impl core::hash::Hash for StreamProtocol {
    /// Relies on `<str as Hash>::hash`: either way the text is stored, the
    /// same string slice is fed to the hasher, so equal texts hash alike.
    #[verifier::external_body]
    fn hash<H: core::hash::Hasher>(&self, state: &mut H) {
        match &self.inner {
            Either::Left(s) => str::hash(s, state),
            Either::Right(a) => str::hash(a, state),
        }
    }
}

impl StreamProtocol {
    /// The text of the protocol as an owned string.
    pub fn to_string(&self) -> (r: String)
        ensures
            r@ == self@,
    {
        self.as_ref().to_owned()
    }
}

/// Two protocols are equal exactly when their texts are, whichever
/// constructor built each of them, and comparing with a plain string agrees
/// in both directions.
pub proof fn lemma_equality_is_textual(p: StreamProtocol, q: StreamProtocol, s: &str)
    ensures
        p.eq_spec(&q) <==> p@ == q@,
        p.eq_spec(&q) <==> q.eq_spec(&p),
        p.eq_spec(&s) <==> (&s).eq_spec(&p),
        p.eq_spec(&s) <==> p@ == s@,
{
}

fn starts_with_slash(s: &str) -> (r: bool)
    ensures
        r == is_valid_protocol(s@),
{
    !s.is_empty() && s.get_char(0) == '/'
}

/// The error of a protocol identifier that does not start with a forward slash.
#[derive(Debug)]
pub struct InvalidProtocol {
    _private: (),
}

impl InvalidProtocol {
    /// The error of a text that does not start with a forward slash.
    pub fn missing_forward_slash() -> (r: Self) {
        InvalidProtocol { _private: () }
    }

    /// The message that describes the error.
    pub fn to_string(&self) -> (r: String)
        ensures
            r@ == "invalid protocol: string does not start with a forward slash"@,
    {
        "invalid protocol: string does not start with a forward slash".to_owned()
    }
}

} // verus!
