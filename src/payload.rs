//! The pixel payload that follows the header, and the whole primary-unit decode.

use vstd::prelude::*;
use vstd::slice::{slice_subrange, slice_to_vec};

use crate::geometry::{geometry_fault, geometry_of, get_image_dims};
use crate::header::{header_dict, header_scan, read_header, HeaderScan, Metadata, BLOCK_LEN};
use crate::FitsError;

verus! {

/// Bytes of pixel data that a geometry declares.
pub open spec fn payload_bytes(width: u32, height: u32, bytes_per_element: u32) -> int {
    width as int * height as int * bytes_per_element as int
}

/// Whether `data` holds the whole payload of a geometry after `n` header blocks.
pub open spec fn payload_fits(data: Seq<u8>, n: int, g: (u32, u32, u32)) -> bool {
    2880 * n + payload_bytes(g.0, g.1, g.2) <= data.len()
}

/// The exact payload of a geometry after `n` header blocks, block padding left out.
pub open spec fn payload_of(data: Seq<u8>, n: int, g: (u32, u32, u32)) -> Seq<u8> {
    data.subrange(2880 * n, 2880 * n + payload_bytes(g.0, g.1, g.2))
}

/// Takes the `width * height * bytes_per_element` payload bytes that start
/// right after `n_header_blocks` header blocks.
pub fn extract_payload(
    data: &[u8],
    n_header_blocks: usize,
    width: u32,
    height: u32,
    bytes_per_element: u32,
) -> (r: Result<Vec<u8>, FitsError>)
    ensures
        payload_fits(data@, n_header_blocks as int, (width, height, bytes_per_element)) ==> (r matches Ok(
            p,
        ) && p@ == payload_of(data@, n_header_blocks as int, (width, height, bytes_per_element))),
        !payload_fits(data@, n_header_blocks as int, (width, height, bytes_per_element)) ==> r matches Err(
            FitsError::TruncatedDataError,
        ),
{
    assert(width as int * height as int <= 0xffff_ffff_ffff_ffff) by (nonlinear_arith)
        requires
            width <= 0xffff_ffff,
            height <= 0xffff_ffff,
    ;
    let wh: u128 = width as u128 * height as u128;
    assert(wh * bytes_per_element <= 0xffff_ffff_ffff_ffff_ffff_ffff) by (nonlinear_arith)
        requires
            wh == width as int * height as int,
            width <= 0xffff_ffff,
            height <= 0xffff_ffff,
            bytes_per_element <= 0xffff_ffff,
    ;
    let nbytes: u128 = wh * bytes_per_element as u128;
    let start: u128 = n_header_blocks as u128 * BLOCK_LEN as u128;
    if start + nbytes > data.len() as u128 {
        return Err(FitsError::TruncatedDataError);
    }
    let first = start as usize;
    let last = (start + nbytes) as usize;
    Ok(slice_to_vec(slice_subrange(data, first, last)))
}

/// Decodes the primary header and data unit of a FITS buffer: the header
/// dictionary and the exact pixel payload.
pub fn parse_primary_hdu(data: &[u8]) -> (r: Result<(Metadata, Vec<u8>), FitsError>)
    ensures
        match header_scan(data@) {
            HeaderScan::Undecodable => r matches Err(FitsError::DecodeError),
            HeaderScan::Truncated => r matches Err(FitsError::TruncatedHeaderError),
            HeaderScan::Complete(n) => match geometry_of(header_dict(data@, n)) {
                None => r matches Err(e) && geometry_fault(header_dict(data@, n), e),
                Some(g) => if payload_fits(data@, n as int, g) {
                    r matches Ok((m, p)) && m@ == header_dict(data@, n) && p@ == payload_of(
                        data@,
                        n as int,
                        g,
                    )
                } else {
                    r matches Err(FitsError::TruncatedDataError)
                },
            },
        },
{
    let (kv_pairs, n_header_blocks) = read_header(data)?;
    let (width, height, bytes_per_element) = get_image_dims(&kv_pairs)?;
    let pixels = extract_payload(data, n_header_blocks, width, height, bytes_per_element)?;
    Ok((kv_pairs, pixels))
}

} // verus!
