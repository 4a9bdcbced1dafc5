//! Identifiers that are unique everywhere, in the text forms of the uuid crate.
use vstd::prelude::*;

verus! {

/// A unique identifier, by its 128 bits.
#[derive(Clone, Copy, Debug, PartialEq, Eq, Structural)]
pub struct Uuid {
    pub bits: u128,
}

/// The bits that the uuid crate reads from a text, or what it says is wrong with it.
pub uninterp spec fn uuid_bits(text: Seq<char>) -> Result<u128, Seq<char>>;

/// The text that the uuid crate writes for an identifier.
pub uninterp spec fn uuid_text(bits: u128) -> Seq<char>;

/// The identifier that a text stands for, or what is wrong with it.
pub open spec fn uuid_of(text: Seq<char>) -> Result<Uuid, Seq<char>> {
    match uuid_bits(text) {
        Ok(bits) => Ok(Uuid { bits }),
        Err(e) => Err(e),
    }
}

/// A value, and no error.
pub open spec fn just<T>(value: T) -> Result<T, Seq<char>> {
    Ok(value)
}

/// `uuid::Uuid::parse_str`, and the text of its error. Both are functions of the text
/// alone.
#[verifier::external_body]
fn read_uuid(text: &str) -> (r: Result<u128, String>)
    ensures
        outcome(r) == uuid_bits(text@),
{
    match uuid::Uuid::parse_str(text) {
        Ok(id) => Ok(id.as_u128()),
        Err(e) => Err(e.to_string()),
    }
}

/// `uuid::Uuid`'s `to_string`. The text is a function of the bits alone, and parsing it
/// gives the bits back.
#[verifier::external_body]
fn write_uuid(bits: u128) -> (r: String)
    ensures
        r@ == uuid_text(bits),
        uuid_bits(r@) == just(bits),
{
    uuid::Uuid::from_u128(bits).to_string()
}

/// What a result with a text for its error says.
pub open spec fn outcome<T>(r: Result<T, String>) -> Result<T, Seq<char>> {
    match r {
        Ok(v) => Ok(v),
        Err(e) => Err(e@),
    }
}

impl Uuid {
    /// The identifier that a text stands for, or what is wrong with it.
    pub fn parse_str(text: &str) -> (r: Result<Uuid, String>)
        ensures
            outcome(r) == uuid_of(text@),
    {
        match read_uuid(text) {
            Ok(bits) => Ok(Uuid { bits }),
            Err(e) => Err(e),
        }
    }

    /// The identifier as text: parsing it gives the identifier back.
    pub fn text(&self) -> (r: String)
        ensures
            r@ == uuid_text(self.bits),
            uuid_of(r@) == just(*self),
    {
        write_uuid(self.bits)
    }
}

} // verus!
