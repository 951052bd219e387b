//! Canonical serialization: big-endian unsigned magnitude bytes, and
//! lowercase hexadecimal of the signed value for text formats.

use crate::backend::{
    bi_from_bytes_be, bi_from_str_radix, bi_to_bytes_be, bi_to_str_radix, radix_parse,
    radix_str_of,
};
use crate::bn::Bn;
use crate::math::{abs_i, be_val, lemma_be_val_bounds};
use vstd::prelude::*;

verus! {

/// The failure hex decoding reports: it carries the offending input rather
/// than panicking.
#[derive(Debug)]
pub struct BnError {
    /// The string that could not be read as a hexadecimal value.
    pub invalid: String,
}

impl Bn {
    /// Converts this value to its canonical big-endian byte form: the
    /// minimal unsigned encoding of the magnitude, with no sign and no
    /// padding, and the single byte `0` for zero.
    pub fn to_bytes(&self) -> (r: Vec<u8>)
        ensures
            be_val(r@) == abs_i(self@),
            self@ == 0 ==> r@ =~= seq![0u8],
            self@ != 0 ==> r@.len() > 0 && r@[0] != 0,
    {
        bi_to_bytes_be(&self.v)
    }

    /// Reads a byte sequence as a non-negative big-endian integer.
    pub fn from_slice(b: &[u8]) -> (r: Self)
        ensures
            r@ == be_val(b@),
            r@ >= 0,
    {
        proof {
            lemma_be_val_bounds(b@);
        }
        Bn { v: bi_from_bytes_be(b) }
    }

    /// Renders the signed value as lowercase hexadecimal digits, the form
    /// `from_hex` reads back.
    pub fn to_hex(&self) -> (r: String)
        ensures
            r@ == radix_str_of(self@, 16),
            radix_parse(r@, 16) == Some(self@),
    {
        bi_to_str_radix(&self.v, 16)
    }

    /// Reads hexadecimal digits back into a signed value, reporting the
    /// offending string as an invalid value rather than panicking.
    pub fn from_hex(s: &str) -> (r: Result<Self, BnError>)
        ensures
            r matches Ok(b) ==> radix_parse(s@, 16) == Some(b@),
            r is Err <==> radix_parse(s@, 16) is None,
            r matches Err(e) ==> e.invalid@ == s@,
    {
        match bi_from_str_radix(s, 16) {
            Some(v) => Ok(Bn { v }),
            None => Err(BnError { invalid: s.to_owned() }),
        }
    }

    /// Renders the decimal representation of the value.
    pub fn to_decimal(&self) -> (r: String)
        ensures
            r@ == radix_str_of(self@, 10),
            radix_parse(r@, 10) == Some(self@),
    {
        bi_to_str_radix(&self.v, 10)
    }

    /// The byte round trip: reading a value's canonical bytes back yields
    /// its magnitude, so every non-negative value survives unchanged.
    pub fn bytes_round_trip(x: &Bn) -> (r: Bn)
        ensures
            r@ == abs_i(x@),
            x@ >= 0 ==> r@ == x@,
    {
        let bytes = x.to_bytes();
        Bn::from_slice(bytes.as_slice())
    }

    /// The hex round trip: decoding what `to_hex` wrote yields the original
    /// value, negative values included.
    pub fn hex_round_trip(x: &Bn) -> (r: Bn)
        ensures
            r@ == x@,
    {
        let s = x.to_hex();
        match Bn::from_hex(s.as_str()) {
            Ok(b) => b,
            Err(_) => vstd::pervasive::unreached(),
        }
    }
}

} // verus!
