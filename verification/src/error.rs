//! What can go wrong while reading a target process.
use vstd::prelude::*;

use crate::text::decimal;
#[allow(unused_imports)]
use crate::text::decimal_text;

verus! {

/// What a failed attempt to read the target process reported.
#[derive(Debug)]
pub struct ReadError {
    pub message: String,
}

/// Bytes read out of the target process aren't a well formed string. Its own type so callers
/// can tell this apart from an ordinary read failure: only this one discards the sample.
#[derive(Debug, Clone, Copy)]
pub struct InvalidString;

impl InvalidString {
    pub fn message(&self) -> (r: &'static str)
        ensures
            r@ == "invalid string read from target process"@,
    {
        "invalid string read from target process"
    }
}

/// Where bytes stop being UTF-8.
#[derive(Debug, Clone, Copy, PartialEq, Eq, Structural)]
pub struct Utf8Fault {
    /// The length of the longest valid prefix.
    pub valid_up_to: usize,
    /// The length of the invalid sequence behind it, or nothing where the bytes end too early.
    pub error_len: Option<usize>,
}

/// The text that describes where bytes stop being UTF-8.
pub open spec fn utf8_fault_text(fault: Utf8Fault) -> Seq<char> {
    match fault.error_len {
        Some(length) => "invalid utf-8 sequence of "@ + decimal_text(length as int)
            + " bytes from index "@ + decimal_text(fault.valid_up_to as int),
        None => "incomplete utf-8 byte sequence from index "@ + decimal_text(
            fault.valid_up_to as int,
        ),
    }
}

impl Utf8Fault {
    /// The text that describes this fault.
    pub fn message(&self) -> (r: String)
        ensures
            r@ == utf8_fault_text(*self),
    {
        match self.error_len {
            Some(length) => "invalid utf-8 sequence of ".to_owned().concat(
                decimal(length as i128).as_str(),
            ).concat(" bytes from index ").concat(decimal(self.valid_up_to as i128).as_str()),
            None => "incomplete utf-8 byte sequence from index ".to_owned().concat(
                decimal(self.valid_up_to as i128).as_str(),
            ),
        }
    }
}

/// One link in the chain of causes behind an [`Error`].
#[derive(Debug)]
pub enum Cause {
    /// The target process could not be read.
    Read(ReadError),
    /// The target process answered with another number of bytes than a value of fixed size has.
    ShortRead { wanted: usize, got: usize },
    /// The target's bytes are inconsistent with the string they are declared to be.
    Invalid(InvalidString),
    /// A string of this many characters is too long to be copied.
    StringTooLong(usize),
    /// A bytes object of this many bytes is too long to be copied.
    BytesTooLong(usize),
    /// No string is stored with this many bytes per character.
    UnknownKind(u32),
    /// The bytes are not UTF-8.
    NotUtf8(Utf8Fault),
    /// The code units are not UTF-16.
    NotUtf16,
    /// Any other reason, or what was being attempted when an inner cause struck.
    Message(&'static str),
}

/// The text that describes a cause.
pub open spec fn cause_text(cause: Cause) -> Seq<char> {
    match cause {
        Cause::Read(e) => e.message@,
        Cause::ShortRead { wanted, got } => "Read "@ + decimal_text(got as int) + " of "@
            + decimal_text(wanted as int) + " bytes"@,
        Cause::Invalid(_) => "invalid string read from target process"@,
        Cause::StringTooLong(chars) => "Refusing to copy "@ + decimal_text(chars as int)
            + " chars of a string"@,
        Cause::BytesTooLong(bytes) => "Refusing to copy "@ + decimal_text(bytes as int)
            + " bytes"@,
        Cause::UnknownKind(kind) => "Unknown string kind "@ + decimal_text(kind as int),
        Cause::NotUtf8(fault) => utf8_fault_text(fault),
        Cause::NotUtf16 => "invalid utf-16: lone surrogate found"@,
        Cause::Message(m) => m@,
    }
}

impl Cause {
    /// The text that describes this cause.
    pub fn message(&self) -> (r: String)
        ensures
            r@ == cause_text(*self),
    {
        match self {
            Cause::Read(e) => e.message.clone(),
            Cause::ShortRead { wanted, got } => "Read ".to_owned().concat(
                decimal(*got as i128).as_str(),
            ).concat(" of ").concat(decimal(*wanted as i128).as_str()).concat(" bytes"),
            Cause::Invalid(e) => e.message().to_owned(),
            Cause::StringTooLong(chars) => "Refusing to copy ".to_owned().concat(
                decimal(*chars as i128).as_str(),
            ).concat(" chars of a string"),
            Cause::BytesTooLong(bytes) => "Refusing to copy ".to_owned().concat(
                decimal(*bytes as i128).as_str(),
            ).concat(" bytes"),
            Cause::UnknownKind(kind) => "Unknown string kind ".to_owned().concat(
                decimal(*kind as i128).as_str(),
            ),
            Cause::NotUtf8(fault) => fault.message(),
            Cause::NotUtf16 => "invalid utf-16: lone surrogate found".to_owned(),
            Cause::Message(m) => (*m).to_owned(),
        }
    }
}

/// A failure, with what was being attempted around it.
///
/// Its view lists the causes from the root cause outwards.
#[derive(Debug)]
pub struct Error {
    causes: Vec<Cause>,
}

impl View for Error {
    type V = Seq<Cause>;

    closed spec fn view(&self) -> Seq<Cause> {
        self.causes@
    }
}

impl Error {
    /// A failure with a single cause.
    pub fn new(cause: Cause) -> (r: Error)
        ensures
            r@ == seq![cause],
    {
        let mut causes: Vec<Cause> = Vec::new();
        causes.push(cause);
        assert(causes@ =~= seq![cause]);
        Error { causes }
    }

    /// A failure described by a fixed text.
    pub fn msg(message: &'static str) -> (r: Error)
        ensures
            r@ == seq![Cause::Message(message)],
    {
        Error::new(Cause::Message(message))
    }

    /// The same failure, with a note of what was being attempted.
    pub fn context(self, message: &'static str) -> (r: Error)
        ensures
            r@ == self@.push(Cause::Message(message)),
    {
        let mut causes = self.causes;
        causes.push(Cause::Message(message));
        Error { causes }
    }

    /// The causes, from the root cause outwards.
    pub fn causes(&self) -> (r: &Vec<Cause>)
        ensures
            r@ == self@,
    {
        &self.causes
    }
}

impl vstd::std_specs::convert::FromSpecImpl<InvalidString> for Error {
    open spec fn obeys_from_spec() -> bool {
        false
    }

    open spec fn from_spec(e: InvalidString) -> Error {
        arbitrary()
    }
}

impl From<InvalidString> for Error {
    fn from(e: InvalidString) -> (r: Error)
        ensures
            r@ == seq![Cause::Invalid(e)],
    {
        Error::new(Cause::Invalid(e))
    }
}

/// Whether one of the causes is [`InvalidString`].
pub open spec fn holds_invalid_string(causes: Seq<Cause>) -> bool {
    exists|i: int| 0 <= i < causes.len() && #[trigger] causes[i] is Invalid
}

/// Walks the chain rather than looking at its outermost link: every call site adds context,
/// so an outermost-only check would silently disable the option.
pub fn is_invalid_string(err: &Error) -> (r: bool)
    ensures
        r == holds_invalid_string(err@),
{
    for i in 0..err.causes.len()
        invariant
            forall|j: int| 0 <= j < i ==> !(#[trigger] err.causes@[j] is Invalid),
    {
        if let Cause::Invalid(_) = err.causes[i] {
            return true;
        }
    }
    false
}

/// Adding context neither hides an invalid string nor makes one up.
pub proof fn law_context_keeps_invalid_string(causes: Seq<Cause>, message: &'static str)
    ensures
        holds_invalid_string(causes.push(Cause::Message(message))) == holds_invalid_string(causes),
{
    let wrapped = causes.push(Cause::Message(message));
    if holds_invalid_string(causes) {
        let i = choose|i: int| 0 <= i < causes.len() && #[trigger] causes[i] is Invalid;
        assert(wrapped[i] is Invalid);
    }
    if holds_invalid_string(wrapped) {
        let i = choose|i: int| 0 <= i < wrapped.len() && #[trigger] wrapped[i] is Invalid;
        assert(causes[i] is Invalid);
    }
}

} // verus!
