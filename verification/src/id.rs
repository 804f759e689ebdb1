//! Identifier generators: a counter with a prefix, and random UUIDs.
use std::sync::atomic::{AtomicU64, Ordering};
use vstd::prelude::*;

use crate::text::{chars_of, decimal, decimal_chars, extend_chars, extend_str, string_of};

verus! {

/// A source of application identifiers.
pub trait IdGenerator {
    /// The next identifier.
    fn next_id(&self) -> String;
}

/// Identifiers `prefix-1`, `prefix-2`, … from a shared counter.
pub struct AtomicIdGenerator {
    prefix: String,
    counter: AtomicU64,
}

/// The identifier with a prefix and a sequence number: `prefix-n`.
pub open spec fn prefixed_id(prefix: Seq<char>, n: nat) -> Seq<char> {
    prefix + "-"@ + decimal(n)
}

/// The identifier with a prefix and a machine-word sequence number.
pub open spec fn numbered_id(prefix: Seq<char>, n: u64) -> Seq<char> {
    prefixed_id(prefix, n as nat)
}

/// Formats an identifier from its prefix and sequence number.
pub fn format_id(prefix: &str, sequence: u64) -> (r: String)
    ensures
        r@ == prefixed_id(prefix@, sequence as nat),
{
    let mut v = chars_of(prefix);
    extend_str(&mut v, "-");
    let d = decimal_chars(sequence);
    extend_chars(&mut v, d.as_slice());
    string_of(v.as_slice())
}

impl AtomicIdGenerator {
    /// A generator with the `id` prefix.
    pub fn new() -> (r: Self)
        ensures
            r.prefix() == "id"@,
    {
        Self::with_prefix("id")
    }

    /// A generator with the given prefix, counting from one.
    pub fn with_prefix(prefix: &str) -> (r: Self)
        ensures
            r.prefix() == prefix@,
    {
        AtomicIdGenerator { prefix: prefix.to_string(), counter: AtomicU64::new(0) }
    }

    /// The prefix of the identifiers.
    pub closed spec fn prefix(&self) -> Seq<char> {
        self.prefix@
    }
}

impl Default for AtomicIdGenerator {
    fn default() -> (r: Self)
        ensures
            r.prefix() == "id"@,
    {
        Self::new()
    }
}

impl IdGenerator for AtomicIdGenerator {
    /// The prefix, a dash and the next number of the shared counter (which
    /// other threads also advance, so the number itself is left unsaid).
    fn next_id(&self) -> (r: String)
        ensures
            exists|n: u64| r@ == numbered_id(self.prefix(), n),
    {
        let previous = self.counter.fetch_add(1, Ordering::SeqCst);
        let sequence = if previous == u64::MAX {
            0
        } else {
            previous + 1
        };
        let r = format_id(self.prefix.as_str(), sequence);
        assert(r@ == numbered_id(self.prefix(), sequence));
        r
    }
}

/// Whether `c` is a lowercase hexadecimal digit.
pub open spec fn is_lower_hex(c: char) -> bool {
    ('0' <= c && c <= '9') || ('a' <= c && c <= 'f')
}

/// The text of a random (version 4) UUID: 36 characters, hyphens at 8,
/// 13, 18 and 23, lowercase hexadecimal digits elsewhere, version digit `4`
/// and an RFC 4122 variant digit (`8`, `9`, `a` or `b`).
pub open spec fn is_v4_uuid_text(s: Seq<char>) -> bool {
    &&& s.len() == 36
    &&& forall|i: int|
        0 <= i < 36 ==> if i == 8 || i == 13 || i == 18 || i == 23 {
            s[i] == '-'
        } else {
            is_lower_hex(#[trigger] s[i])
        }
    &&& s[14] == '4'
    &&& (s[19] == '8' || s[19] == '9' || s[19] == 'a' || s[19] == 'b')
}

/// `uuid::Uuid::new_v4().to_string()`: a random version-4 UUID in its
/// hyphenated lowercase form. Which bits are random is left unsaid.
#[verifier::external_body]
fn random_uuid_text() -> (r: String)
    ensures
        is_v4_uuid_text(r@),
{
    uuid::Uuid::new_v4().to_string()
}

/// Random UUID identifiers.
#[derive(Clone, Copy, Debug, Default)]
pub struct UuidIdGenerator;

impl IdGenerator for UuidIdGenerator {
    /// A fresh random UUID in its hyphenated lowercase form.
    fn next_id(&self) -> (r: String)
        ensures
            is_v4_uuid_text(r@),
    {
        random_uuid_text()
    }
}

} // verus!
