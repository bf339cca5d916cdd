//! Conversions between textual identifiers and the fixed-width numeric
//! columns of the interchange format: IMSI, MSISDN and IMEI as `u64`,
//! MCCMNC as `u32`, with zero-padding restored on the way back.

use vstd::prelude::*;
use crate::ids::{
    all_digits, digits_value, padded_decimal, parse_u64_digits, u64_to_padded_string,
};
use crate::subscriber_db::ParseError;

verus! {

/// Reads a decimal identifier (IMSI, MSISDN or IMEI) as a `u64`.
pub fn id_string_to_u64(s: &str) -> (r: Result<u64, ParseError>)
    ensures
        match r {
            Ok(v) => s@.len() > 0 && all_digits(s@) && digits_value(s@) <= u64::MAX && v as nat
                == digits_value(s@),
            Err(e) => e == ParseError::BadIdentifier && (s@.len() == 0 || !all_digits(s@)
                || digits_value(s@) > u64::MAX),
        },
{
    match parse_u64_digits(s) {
        Some(v) => Ok(v),
        None => Err(ParseError::BadIdentifier),
    }
}

/// Renders a numeric identifier as decimal text, zero-padded to `width`.
pub fn id_u64_to_string(n: u64, width: usize) -> (r: String)
    ensures
        r@ == padded_decimal(n as nat, width as nat),
{
    u64_to_padded_string(n, width)
}

/// Reads a decimal MCCMNC as a `u32`.
pub fn mccmnc_to_u32(s: &str) -> (r: Result<u32, ParseError>)
    ensures
        match r {
            Ok(v) => s@.len() > 0 && all_digits(s@) && digits_value(s@) <= u32::MAX && v as nat
                == digits_value(s@),
            Err(e) => e == ParseError::BadIdentifier && (s@.len() == 0 || !all_digits(s@)
                || digits_value(s@) > u32::MAX),
        },
{
    match parse_u64_digits(s) {
        Some(v) => {
            if v <= 0xFFFF_FFFFu64 {
                Ok(v as u32)
            } else {
                Err(ParseError::BadIdentifier)
            }
        },
        None => Err(ParseError::BadIdentifier),
    }
}

/// Renders an MCCMNC as decimal text, without padding.
pub fn mccmnc_u32_to_string(n: u32) -> (r: String)
    ensures
        r@ == crate::ids::dec_digits(n as nat),
{
    let r = u64_to_padded_string(n as u64, 0);
    proof {
        assert(padded_decimal(n as nat, 0) =~= crate::ids::dec_digits(n as nat));
    }
    r
}

} // verus!
