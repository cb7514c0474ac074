use vstd::prelude::*;
use crate::qutil::uuid::{
    parse_uuid, uuid_text, strip_dashes, parse_hex_u128, random_u128, format_uuid, fold_bytes,
};
use crate::util::ioutil::be_uint;

verus! {

/// A 128-bit universally unique identifier.
#[derive(Copy, Clone, Debug)]
pub struct Uuid(u128);

impl Uuid {
    /// The 128-bit value.
    pub closed spec fn value(&self) -> u128 {
        self.0
    }

    /// A UUID of 128 random bits.
    pub fn random() -> (r: Self) {
        Uuid(random_u128())
    }

    /// Reads 16 bytes big-endian, shifting the value up by one more byte at the end, so that
    /// the first byte falls off and the last byte of the value is zero. Any other number of
    /// bytes is an error.
    pub fn from_bytes(bytes: &[u8]) -> (r: Result<Self, &'static str>)
        ensures
            bytes@.len() != 16 ==> (r matches Err(e) && e@ == "Expected 16 bytes."@),
            bytes@.len() == 16 ==> (r matches Ok(u) && u.value() == (be_uint(bytes@) * 256)
                % 0x1_0000_0000_0000_0000_0000_0000_0000_0000nat),
    {
        if bytes.len() != 16 {
            return Err("Expected 16 bytes.");
        }
        Ok(Uuid(fold_bytes(bytes, true)))
    }

    /// Parses a UUID written as 32 hexadecimal digits, dashes anywhere being ignored.
    pub fn from_string(string: &str) -> (r: Result<Self, &'static str>)
        ensures
            match parse_uuid(string@) {
                Ok(n) => r matches Ok(u) && u.value() == n,
                Err(m) => r matches Err(e) && e@ == m,
            },
    {
        let raw = strip_dashes(string);
        if raw.as_str().as_bytes().len() != 32 {
            return Err("Expected condensed string to have length 32.");
        }
        match parse_hex_u128(raw.as_str()) {
            Some(inner) => Ok(Uuid(inner)),
            None => Err("Invalid UUID string."),
        }
    }

    /// The 128-bit value.
    pub fn as_u128(&self) -> (r: u128)
        ensures
            r == self.value(),
    {
        self.0
    }

    /// The UUID's text: 32 lowercase hexadecimal digits grouped 8-4-4-4-12 by dashes.
    pub fn to_string(&self) -> (s: String)
        ensures
            s@ == uuid_text(self.value()),
    {
        format_uuid(self.0)
    }
}

impl From<u128> for Uuid {
    fn from(inner: u128) -> (r: Self) {
        Uuid(inner)
    }
}

impl vstd::std_specs::convert::FromSpecImpl<u128> for Uuid {
    open spec fn obeys_from_spec() -> bool {
        true
    }

    closed spec fn from_spec(inner: u128) -> Self {
        Uuid(inner)
    }
}

} // verus!
