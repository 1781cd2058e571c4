//! The length and blob codec: executable readers for length tokens and
//! blobs, each proved equal to its ghost counterpart in `model`.
use vstd::prelude::*;

use crate::constants::ENC_INT16;
use crate::constants::ENC_INT32;
use crate::constants::ENC_INT8;
use crate::constants::ENC_LZF;
use crate::constants::VERSION_MAX;
use crate::constants::VERSION_MIN;
use crate::decimal::int_to_vec;
use crate::model::blob_dec;
use crate::model::len_dec;
use crate::model::lzf_expand;
use crate::model::magic_dec;
use crate::model::skip_blob_dec;
use crate::model::version_dec;
use crate::reader::Reader;
use crate::types::RdbError;
use crate::types::RdbOk;
use crate::types::RdbResult;

verus! {

/// Relies on lzf::decompress: expanding a compressed payload is a function
/// of the payload and the offered capacity alone; the expansion never holds
/// more than `real_length` bytes.
#[verifier::external_body]
fn lzf_decompress(data: &Vec<u8>, real_length: usize) -> (r: Option<Vec<u8>>)
    ensures
        match r {
            Some(v) => lzf_expand(data@, real_length as int) == Some(v@) && v@.len()
                <= real_length,
            None => lzf_expand(data@, real_length as int) is None,
        },
{
    match lzf::decompress(data.as_slice(), real_length) {
        Ok(v) => Some(v),
        Err(_) => None,
    }
}

/// Read one length token: the value and whether it carries a short
/// encoding instead of a byte count.
pub fn read_length_with_encoding(input: &mut Reader) -> (r: RdbResult<(u64, bool)>)
    ensures
        match len_dec(old(input).rem()) {
            Ok((length, is_encoded, rest)) => r == Ok::<(u64, bool), RdbError>((length, is_encoded))
                && final(input).rem() == rest,
            Err(e) => r == Err::<(u64, bool), RdbError>(e),
        },
{
    let b = input.read_u8()?;
    if b & 0xC0 == 0xC0 {
        Ok(((b & 0x3F) as u64, true))
    } else if b & 0xC0 == 0x00 {
        Ok(((b & 0x3F) as u64, false))
    } else if b & 0xC0 == 0x40 {
        let c = input.read_u8()?;
        Ok(((((b & 0x3F) as u64) << 8) | (c as u64), false))
    } else if b == 0x81 {
        let v = input.read_u64_be()?;
        Ok((v, false))
    } else {
        let v = input.read_u32_be()?;
        Ok((v as u64, false))
    }
}

/// Read one length token, dropping the encoded flag.
pub fn read_length(input: &mut Reader) -> (r: RdbResult<u64>)
    ensures
        match len_dec(old(input).rem()) {
            Ok((length, is_encoded, rest)) => r == Ok::<u64, RdbError>(length)
                && final(input).rem() == rest,
            Err(e) => r == Err::<u64, RdbError>(e),
        },
{
    let (length, _) = read_length_with_encoding(input)?;
    Ok(length)
}

/// Read one blob: raw bytes, a short integer rendered as decimal text, or
/// an expanded compressed payload.
pub fn read_blob(input: &mut Reader) -> (r: RdbResult<Vec<u8>>)
    ensures
        match blob_dec(old(input).rem()) {
            Ok((b, rest)) => r matches Ok(v) && v@ == b && final(input).rem() == rest,
            Err(e) => r == Err::<Vec<u8>, RdbError>(e),
        },
        (blob_dec(old(input).rem()) matches Err(e) && e matches RdbError::UnknownEncoding(tag))
            ==> (len_dec(old(input).rem()) matches Ok(o) && final(input).rem() == o.2),
{
    let (length, is_encoded) = read_length_with_encoding(input)?;
    if !is_encoded {
        input.read_exact(length as usize)
    } else if length == ENC_INT8 {
        let b = input.read_u8()?;
        let sv: i64 = if b >= 0x80 {
            b as i64 - 0x100
        } else {
            b as i64
        };
        Ok(int_to_vec(sv))
    } else if length == ENC_INT16 {
        let v = input.read_u16_le()?;
        let sv: i64 = if v >= 0x8000 {
            v as i64 - 0x10000
        } else {
            v as i64
        };
        Ok(int_to_vec(sv))
    } else if length == ENC_INT32 {
        let v = input.read_u32_le()?;
        let sv: i64 = if v >= 0x80000000 {
            v as i64 - 0x100000000
        } else {
            v as i64
        };
        Ok(int_to_vec(sv))
    } else if length == ENC_LZF {
        let compressed_length = read_length(input)?;
        let real_length = read_length(input)?;
        let data = input.read_exact(compressed_length as usize)?;
        match lzf_decompress(&data, real_length as usize) {
            Some(v) => Ok(v),
            None => Err(RdbError::LzfDecompressFailed),
        }
    } else {
        Err(RdbError::UnknownEncoding(length))
    }
}

/// Advance over one blob without decoding its payload.
pub fn skip_blob(input: &mut Reader) -> (r: RdbOk)
    ensures
        match skip_blob_dec(old(input).rem()) {
            Ok(rest) => r == Ok::<(), RdbError>(()) && final(input).rem() == rest,
            Err(e) => r == Err::<(), RdbError>(e),
        },
{
    let (length, is_encoded) = read_length_with_encoding(input)?;
    if !is_encoded {
        input.skip_bytes(length as usize)
    } else if length == ENC_INT8 {
        input.skip_bytes(1)
    } else if length == ENC_INT16 {
        input.skip_bytes(2)
    } else if length == ENC_INT32 {
        input.skip_bytes(4)
    } else if length == ENC_LZF {
        let compressed_length = read_length(input)?;
        let _real_length = read_length(input)?;
        input.skip_bytes(compressed_length as usize)
    } else {
        Err(RdbError::UnknownEncoding(length))
    }
}

/// Check the five magic bytes.
pub fn verify_magic(input: &mut Reader) -> (r: RdbOk)
    ensures
        match magic_dec(old(input).rem()) {
            Ok(rest) => r == Ok::<(), RdbError>(()) && final(input).rem() == rest,
            Err(e) => r == Err::<(), RdbError>(e),
        },
{
    let magic = input.read_exact(5)?;
    if magic[0] == 82 && magic[1] == 69 && magic[2] == 68 && magic[3] == 73 && magic[4] == 83 {
        Ok(())
    } else {
        Err(RdbError::InvalidMagic)
    }
}

/// Check the four version digits against the supported range.
pub fn verify_version(input: &mut Reader) -> (r: RdbOk)
    ensures
        match version_dec(old(input).rem()) {
            Ok(rest) => r == Ok::<(), RdbError>(()) && final(input).rem() == rest,
            Err(e) => r == Err::<(), RdbError>(e),
        },
{
    let digits = input.read_exact(4)?;
    if !(48 <= digits[0] && digits[0] <= 57 && 48 <= digits[1] && digits[1] <= 57 && 48 <= digits[2]
        && digits[2] <= 57 && 48 <= digits[3] && digits[3] <= 57) {
        return Err(RdbError::UnsupportedVersion);
    }
    let version: u32 = (digits[0] - 48) as u32 * 1000 + (digits[1] - 48) as u32 * 100 + (digits[2]
        - 48) as u32 * 10 + (digits[3] - 48) as u32;
    if VERSION_MIN <= version && version <= VERSION_MAX {
        Ok(())
    } else {
        Err(RdbError::UnsupportedVersion)
    }
}

} // verus!
