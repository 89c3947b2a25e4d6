//! Identifiers of tasks, approvals and operations.
//!
//! Each is a UUID, held as the 128-bit number that its bytes write.

use uuid::Uuid;

use vstd::prelude::*;

verus! {

/// The text that `Uuid::parse_str` reads as a UUID, as the number of that UUID.
pub uninterp spec fn uuid_value(text: Seq<char>) -> Option<u128>;

/// A lowercase hexadecimal digit.
pub open spec fn hex_char(n: int) -> char {
    if n < 10 {
        (48 + n) as char
    } else {
        (87 + n) as char
    }
}

/// The hexadecimal digit of `value` at `place`, counted from the left of 32.
pub open spec fn hex_place(value: u128, place: int) -> char {
    hex_char((value as int / vstd::arithmetic::power::pow(16, (31 - place) as nat)) % 16)
}

/// The hyphenated form of a UUID: groups of 8, 4, 4, 4 and 12 lowercase digits.
pub open spec fn hyphenated(value: u128) -> Seq<char> {
    Seq::new(
        36,
        |i: int|
            if i == 8 || i == 13 || i == 18 || i == 23 {
                '-'
            } else if i < 8 {
                hex_place(value, i)
            } else if i < 13 {
                hex_place(value, i - 1)
            } else if i < 18 {
                hex_place(value, i - 2)
            } else if i < 23 {
                hex_place(value, i - 3)
            } else {
                hex_place(value, i - 4)
            },
    )
}

/// Version 7 and the RFC 9562 variant in their places.
pub open spec fn is_version_7(value: u128) -> bool {
    &&& (value as int / 0x1000_0000_0000_0000_0000) % 16 == 7
    &&& (value as int / 0x4000_0000_0000_0000) % 4 == 2
}

/// `Uuid::now_v7`: some UUID of version 7. Which one is up to the clock and to chance. The call
/// panics where the wall clock stands before the Unix epoch or the system gives no random bytes.
#[verifier::external_body]
pub(crate) fn fresh_identifier() -> (r: u128)
    ensures
        is_version_7(r),
{
    Uuid::now_v7().as_u128()
}

/// `Display` of `Uuid`: the hyphenated form, which `Uuid::parse_str` reads back.
#[verifier::external_body]
fn uuid_text(value: u128) -> (r: String)
    ensures
        r@ == hyphenated(value),
        uuid_value(r@) == Some(value),
{
    Uuid::from_u128(value).to_string()
}

/// `Uuid::parse_str`: the UUID that the text writes in one of the accepted forms.
#[verifier::external_body]
fn parse_uuid(text: &str) -> (r: Option<u128>)
    ensures
        r == uuid_value(text@),
{
    match Uuid::parse_str(text) {
        Ok(value) => Some(value.as_u128()),
        Err(_) => None,
    }
}

/// Globally unique identifier for one task instance.
#[derive(Clone, Copy, Debug, PartialEq, Eq, Structural, PartialOrd, Ord, Hash)]
pub struct TaskId {
    pub value: u128,
}

impl TaskId {
    /// Generates a time-ordered UUIDv7 task identifier.
    #[must_use]
    pub fn new() -> (r: TaskId)
        ensures
            is_version_7(r.value),
    {
        TaskId { value: fresh_identifier() }
    }

    /// The identifier in hyphenated form.
    #[must_use]
    pub fn display(&self) -> (r: String)
        ensures
            r@ == hyphenated(self.value),
            uuid_value(r@) == Some(self.value),
    {
        uuid_text(self.value)
    }

    /// Reads an identifier.
    pub fn parse(text: &str) -> (r: Option<TaskId>)
        ensures
            r is Some <==> uuid_value(text@) is Some,
            r is Some ==> uuid_value(text@) == Some(r->0.value),
    {
        match parse_uuid(text) {
            Some(value) => Some(TaskId { value }),
            None => None,
        }
    }
}

impl Default for TaskId {
    fn default() -> (r: Self)
        ensures
            is_version_7(r.value),
    {
        TaskId::new()
    }
}

/// Public identifier for one pending human approval.
#[derive(Clone, Copy, Debug, PartialEq, Eq, Structural, PartialOrd, Ord, Hash)]
pub struct ApprovalId {
    pub value: u128,
}

impl ApprovalId {
    /// The identifier in hyphenated form.
    #[must_use]
    pub fn display(&self) -> (r: String)
        ensures
            r@ == hyphenated(self.value),
            uuid_value(r@) == Some(self.value),
    {
        uuid_text(self.value)
    }

    /// Reads an identifier.
    pub fn parse(text: &str) -> (r: Option<ApprovalId>)
        ensures
            r is Some <==> uuid_value(text@) is Some,
            r is Some ==> uuid_value(text@) == Some(r->0.value),
    {
        match parse_uuid(text) {
            Some(value) => Some(ApprovalId { value }),
            None => None,
        }
    }
}

/// Opaque identifier that a trusted adapter binds to one exact operation.
#[derive(Clone, Copy, Debug, PartialEq, Eq, Structural, PartialOrd, Ord, Hash)]
pub struct OperationId {
    pub value: u128,
}

impl OperationId {
    /// Generates a time-ordered UUIDv7 operation identifier.
    #[must_use]
    pub fn new() -> (r: OperationId)
        ensures
            is_version_7(r.value),
    {
        OperationId { value: fresh_identifier() }
    }

    /// The identifier in hyphenated form.
    #[must_use]
    pub fn display(&self) -> (r: String)
        ensures
            r@ == hyphenated(self.value),
            uuid_value(r@) == Some(self.value),
    {
        uuid_text(self.value)
    }

    /// Reads an identifier.
    pub fn parse(text: &str) -> (r: Option<OperationId>)
        ensures
            r is Some <==> uuid_value(text@) is Some,
            r is Some ==> uuid_value(text@) == Some(r->0.value),
    {
        match parse_uuid(text) {
            Some(value) => Some(OperationId { value }),
            None => None,
        }
    }
}

impl Default for OperationId {
    fn default() -> (r: Self)
        ensures
            is_version_7(r.value),
    {
        OperationId::new()
    }
}

} // verus!
