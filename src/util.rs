use vstd::prelude::*;

pub mod color;
pub mod io;
pub mod lzss;
pub mod rle;

pub use color::{ChannelOrder, Color};
pub use lzss::decompress as lzss_decompress;

use crate::error::DecodeError;
use io::{read_u32_le, u32_le};
use lzss::lzss_output;
use rle::{decode_runs, lemma_literal_runs_from, literal_runs, rle_from};

verus! {

/// Length of the header of a sliding-window or stored container.
pub const BLOCK_HEADER_LEN: usize = 16;

/// Length of the tag of a run-length container.
pub const RUN_HEADER_LEN: usize = 4;

/// `true` when `data` starts with the tag of a sliding-window (`1`) or stored
/// (`0`) container.
pub open spec fn is_block_tag(data: Seq<u8>, kind: u8) -> bool {
    data.len() >= 4 && data[0] == 0x12 && data[1] == 0x3D && data[2] == 0xDA && data[3] == kind
}

/// What a container buffer decompresses to.
pub open spec fn container_output(data: Seq<u8>) -> Result<Seq<u8>, DecodeError> {
    if data.len() < 4 {
        Err(DecodeError::TruncatedInput)
    } else if is_block_tag(data, 1) || is_block_tag(data, 0) {
        if data.len() < BLOCK_HEADER_LEN {
            Err(DecodeError::TruncatedInput)
        } else {
            let dst_size = u32_le(data, 4);
            let src_size = u32_le(data, 8);
            if is_block_tag(data, 1) {
                if data.len() < BLOCK_HEADER_LEN + src_size {
                    Err(DecodeError::TruncatedInput)
                } else {
                    Ok(
                        lzss_output(
                            data.subrange(BLOCK_HEADER_LEN as int, BLOCK_HEADER_LEN + src_size),
                            dst_size as nat,
                        ),
                    )
                }
            } else if data.len() < BLOCK_HEADER_LEN + dst_size {
                Err(DecodeError::TruncatedInput)
            } else {
                Ok(data.subrange(BLOCK_HEADER_LEN as int, BLOCK_HEADER_LEN + dst_size))
            }
        }
    } else if data[0] == 0x30 {
        match rle_from(data, RUN_HEADER_LEN as int, Seq::empty()) {
            Some(out) => Ok(out),
            None => Err(DecodeError::TruncatedInput),
        }
    } else {
        Err(DecodeError::UnknownFormat)
    }
}

/// Decompresses a container buffer according to its 4-byte tag:
/// `12 3D DA 01` sliding-window, `12 3D DA 00` stored, `30 lo hi _` run-length.
/// Any other tag is `UnknownFormat`: the buffer is plain. The length that a
/// run-length tag declares is not held against what the runs produce.
pub fn decompress(data: &[u8]) -> (r: Result<Vec<u8>, DecodeError>)
    ensures
        r matches Ok(v) ==> container_output(data@) == Ok::<Seq<u8>, DecodeError>(v@),
        r matches Err(e) ==> container_output(data@) == Err::<Seq<u8>, DecodeError>(e),
{
    if data.len() < 4 {
        return Err(DecodeError::TruncatedInput);
    }
    let tag0 = data[0];
    if tag0 == 0x12 && data[1] == 0x3D && data[2] == 0xDA && (data[3] == 0 || data[3] == 1) {
        if data.len() < BLOCK_HEADER_LEN {
            return Err(DecodeError::TruncatedInput);
        }
        let dst_size = read_u32_le(data, 4) as usize;
        let src_size = read_u32_le(data, 8) as usize;
        if data[3] == 1 {
            if data.len() - BLOCK_HEADER_LEN < src_size {
                return Err(DecodeError::TruncatedInput);
            }
            let payload = copy_range(data, BLOCK_HEADER_LEN, src_size);
            Ok(lzss_decompress(payload.as_slice(), dst_size))
        } else {
            if data.len() - BLOCK_HEADER_LEN < dst_size {
                return Err(DecodeError::TruncatedInput);
            }
            Ok(copy_range(data, BLOCK_HEADER_LEN, dst_size))
        }
    } else if tag0 == 0x30 {
        match decode_runs(data, RUN_HEADER_LEN) {
            Some(out) => Ok(out),
            None => Err(DecodeError::TruncatedInput),
        }
    } else {
        Err(DecodeError::UnknownFormat)
    }
}

/// The `len` bytes of `data` from `start` on.
pub fn copy_range(data: &[u8], start: usize, len: usize) -> (r: Vec<u8>)
    requires
        start + len <= data@.len(),
    ensures
        r@ == data@.subrange(start as int, start + len),
{
    let mut r: Vec<u8> = Vec::new();
    let mut k: usize = 0;
    let data_len = data.len();
    while k < len
        invariant
            k <= len,
            data@.len() == data_len,
            start + len <= data@.len(),
            r@ =~= data@.subrange(start as int, start + k),
        decreases len - k,
    {
        r.push(data[start + k]);
        k = k + 1;
        assert(r@ =~= data@.subrange(start as int, start + k));
    }
    r
}

/// A run-length container whose body is the literal-only stream of `s`
/// decompresses to exactly `s`, whatever its declared length.
pub proof fn lemma_literal_container(s: Seq<u8>, len_lo: u8, len_hi: u8, spare: u8)
    ensures
        container_output(seq![0x30u8, len_lo, len_hi, spare] + literal_runs(s)) == Ok::<
            Seq<u8>,
            DecodeError,
        >(s),
{
    let data = seq![0x30u8, len_lo, len_hi, spare] + literal_runs(s);
    assert(data.subrange(RUN_HEADER_LEN as int, data.len() as int) =~= literal_runs(s));
    lemma_literal_runs_from(data, RUN_HEADER_LEN as int, Seq::empty(), s);
    assert(Seq::<u8>::empty() + s =~= s);
}

} // verus!
