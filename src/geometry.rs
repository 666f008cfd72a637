//! Image geometry from the header dictionary: width, height and bytes per
//! pixel element.

use vstd::prelude::*;

use crate::header::Metadata;
use crate::text::{keyword_int, keyword_number};
use crate::FitsError;

verus! {

/// What a required numeric keyword of `m` holds: `None` where it is absent,
/// `Some(None)` where its value is not an integer in `[lo, hi]`.
pub open spec fn field_value(m: Map<Seq<char>, Seq<char>>, key: Seq<char>, lo: int, hi: int) -> Option<
    Option<int>,
> {
    if !m.contains_key(key) {
        None
    } else {
        match keyword_number(m[key]) {
            Some(v) => if lo <= v && v <= hi {
                Some(Some(v))
            } else {
                Some(None)
            },
            None => Some(None),
        }
    }
}

/// Whether `e` is the error for keyword `key` of `m` not holding a usable value.
pub open spec fn field_fault(
    m: Map<Seq<char>, Seq<char>>,
    key: Seq<char>,
    lo: int,
    hi: int,
    e: FitsError,
) -> bool {
    match field_value(m, key, lo, hi) {
        None => e matches FitsError::MissingKeywordError(k) && k@ == key,
        Some(None) => e matches FitsError::MalformedValueError(k, raw) && k@ == key && raw@
            == m[key],
        Some(Some(_)) => false,
    }
}

pub open spec fn bitpix_field(m: Map<Seq<char>, Seq<char>>) -> Option<Option<int>> {
    field_value(m, "BITPIX"@, i32::MIN as int, i32::MAX as int)
}

pub open spec fn naxis1_field(m: Map<Seq<char>, Seq<char>>) -> Option<Option<int>> {
    field_value(m, "NAXIS1"@, 0, u32::MAX as int)
}

pub open spec fn naxis2_field(m: Map<Seq<char>, Seq<char>>) -> Option<Option<int>> {
    field_value(m, "NAXIS2"@, 0, u32::MAX as int)
}

pub open spec fn abs(v: int) -> int {
    if v < 0 {
        -v
    } else {
        v
    }
}

/// The geometry `(width, height, bytes_per_element)` that a header dictionary
/// gives: `NAXIS1`, `NAXIS2`, and the magnitude of `BITPIX` over 8.
pub open spec fn geometry_of(m: Map<Seq<char>, Seq<char>>) -> Option<(u32, u32, u32)> {
    match (bitpix_field(m), naxis1_field(m), naxis2_field(m)) {
        (Some(Some(b)), Some(Some(w)), Some(Some(h))) => Some(
            (w as u32, h as u32, (abs(b) / 8) as u32),
        ),
        _ => None,
    }
}

/// The error for the first of `BITPIX`, `NAXIS1`, `NAXIS2` that holds no
/// usable value.
pub open spec fn geometry_fault(m: Map<Seq<char>, Seq<char>>, e: FitsError) -> bool {
    if !(bitpix_field(m) matches Some(Some(_))) {
        field_fault(m, "BITPIX"@, i32::MIN as int, i32::MAX as int, e)
    } else if !(naxis1_field(m) matches Some(Some(_))) {
        field_fault(m, "NAXIS1"@, 0, u32::MAX as int, e)
    } else {
        field_fault(m, "NAXIS2"@, 0, u32::MAX as int, e)
    }
}

/// Reads keyword `key` of `meta` as an integer in `[lo, hi]`.
fn required_number(meta: &Metadata, key: &str, lo: i64, hi: i64) -> (r: Result<i64, FitsError>)
    ensures
        match field_value(meta@, key@, lo as int, hi as int) {
            Some(Some(v)) => r matches Ok(x) && x == v,
            _ => r matches Err(e) && field_fault(meta@, key@, lo as int, hi as int, e),
        },
{
    match meta.get(key) {
        None => Err(FitsError::MissingKeywordError(key.to_string())),
        Some(raw) => match keyword_int(raw.as_str()) {
            Some(v) => {
                if lo <= v && v <= hi {
                    Ok(v)
                } else {
                    Err(FitsError::MalformedValueError(key.to_string(), raw.clone()))
                }
            },
            None => Err(FitsError::MalformedValueError(key.to_string(), raw.clone())),
        },
    }
}

/// The image geometry `(width, height, bytes_per_element)` that a header
/// dictionary declares, or the error for the first required keyword among
/// `BITPIX`, `NAXIS1`, `NAXIS2` that is missing or malformed.
pub fn get_image_dims(kv_pairs: &Metadata) -> (r: Result<(u32, u32, u32), FitsError>)
    ensures
        match r {
            Ok(g) => geometry_of(kv_pairs@) == Some(g),
            Err(e) => geometry_of(kv_pairs@) is None && geometry_fault(kv_pairs@, e),
        },
{
    let bitpix = required_number(kv_pairs, "BITPIX", i32::MIN as i64, i32::MAX as i64)?;
    let width = required_number(kv_pairs, "NAXIS1", 0, u32::MAX as i64)?;
    let height = required_number(kv_pairs, "NAXIS2", 0, u32::MAX as i64)?;
    let magnitude: i64 = if bitpix < 0 {
        -bitpix
    } else {
        bitpix
    };
    Ok((width as u32, height as u32, (magnitude / 8) as u32))
}

} // verus!
