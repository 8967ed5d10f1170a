//! zlib compression of packet bodies, through `flate2`.
//!
//! A compressed body is the VarInt length of the uncompressed data, then
//! the zlib stream of it.
use vstd::prelude::*;
use std::io::{Read, Write};
use flate2::Compression;
use flate2::read::ZlibDecoder;
use flate2::write::ZlibEncoder;
use crate::buffer::{ByteReader, ByteWriter};
use crate::codecs::{read_var_int, var_int_bytes, var_int_consumed, var_int_read, write_var_int};

verus! {

#[verifier::external_type_specification]
#[verifier::external_body]
pub struct ExIoError(std::io::Error);

#[derive(Debug)]
pub enum CompressionError {
    /// The destination has no room.
    Overflow,
    /// The length prefix is unreadable or negative, or the data has the
    /// wrong length.
    LengthMismatch,
    /// zlib refused the data.
    Io(std::io::Error),
}

/// The zlib stream `flate2` produces for `data` at the default level, or
/// `None` where it reports an error.
pub uninterp spec fn zlib_compressed(data: Seq<u8>) -> Option<Seq<u8>>;

/// The data `flate2` inflates from the zlib stream at the front of `data`,
/// or `None` where it reports an error.
pub uninterp spec fn zlib_inflated(data: Seq<u8>) -> Option<Seq<u8>>;

/// Whether `data` compresses, and its zlib stream inflates back to it.
pub open spec fn zlib_roundtrips(data: Seq<u8>) -> bool {
    &&& zlib_compressed(data) is Some
    &&& zlib_inflated(zlib_compressed(data)->0) == Some(data)
}

/// Compresses `data` with a `flate2::write::ZlibEncoder` at the default
/// level (`write_all`, then `finish`). Claimed: it hands back the zlib
/// stream of `data` exactly when the encoder reports no error, and that
/// stream inflates back to `data`.
#[verifier::external_body]
fn zlib_compress(data: &[u8]) -> (r: Result<Vec<u8>, std::io::Error>)
    ensures
        r is Ok <==> zlib_compressed(data@) is Some,
        r matches Ok(v) ==> v@ == zlib_compressed(data@)->0,
        r matches Ok(v) ==> zlib_inflated(v@) == Some(data@),
{
    let mut encoder = ZlibEncoder::new(Vec::new(), Compression::default());
    encoder.write_all(data)?;
    encoder.finish()
}

/// Inflates the zlib stream at the front of `data` with a
/// `flate2::read::ZlibDecoder` and `read_to_end`. Claimed: it succeeds
/// exactly when the stream is accepted and hands back the inflated data.
#[verifier::external_body]
pub(crate) fn zlib_decompress(data: &[u8]) -> (r: Result<Vec<u8>, std::io::Error>)
    ensures
        r is Ok <==> zlib_inflated(data@) is Some,
        r matches Ok(v) ==> v@ == zlib_inflated(data@)->0,
{
    let mut decoder = ZlibDecoder::new(data);
    let mut out = Vec::new();
    decoder.read_to_end(&mut out)?;
    Ok(out)
}

/// The bytes `compress_payload` writes for `data`, where it compresses:
/// the VarInt length of `data`, then its zlib stream.
pub open spec fn compressed_wire(data: Seq<u8>) -> Seq<u8> {
    var_int_bytes(data.len() as i32 as u32) + zlib_compressed(data)->0
}

/// Writes the VarInt length of `packet_id_and_payload`, then its zlib
/// stream. It succeeds exactly when zlib compresses the data and both fit;
/// the stream it writes inflates back to the data.
pub fn compress_payload(packet_id_and_payload: &[u8], out: &mut ByteWriter) -> (r: Result<(), CompressionError>)
    ensures
        final(out).capacity() == old(out).capacity(),
        r is Ok <==> zlib_compressed(packet_id_and_payload@) is Some && compressed_wire(
            packet_id_and_payload@,
        ).len() <= old(out).room(),
        r is Ok ==> final(out)@ == old(out)@ + compressed_wire(packet_id_and_payload@)
            && zlib_roundtrips(packet_id_and_payload@),
        r matches Err(CompressionError::Io(_)) ==> zlib_compressed(packet_id_and_payload@) is None,
        r matches Err(CompressionError::Overflow) ==> var_int_bytes(
            packet_id_and_payload@.len() as i32 as u32,
        ).len() > old(out).room() || compressed_wire(packet_id_and_payload@).len() > old(out).room(),
        r matches Err(CompressionError::LengthMismatch) ==> false,
{
    let ghost data = packet_id_and_payload@;
    let ghost hdr = var_int_bytes(data.len() as i32 as u32);
    match write_var_int(packet_id_and_payload.len() as i32, out) {
        Ok(()) => {},
        Err(_) => {
            return Err(CompressionError::Overflow);
        },
    }
    let compressed = match zlib_compress(packet_id_and_payload) {
        Ok(v) => v,
        Err(e) => {
            return Err(CompressionError::Io(e));
        },
    };
    if out.remaining_mut() < compressed.len() {
        return Err(CompressionError::Overflow);
    }
    out.put_slice(compressed.as_slice());
    proof {
        assert(out@ =~= old(out)@ + compressed_wire(data));
    }
    Ok(())
}

/// What `decompress_payload` makes of `input`: the data, or `None` for a
/// length error; `Some(None)` where zlib refuses the stream.
pub open spec fn decompressed(input: Seq<u8>) -> Option<Option<Seq<u8>>> {
    match var_int_read(input) {
        Err(_) => None,
        Ok((v, n)) => if (v as i32) < 0 {
            None
        } else if (v as i32) == 0 {
            Some(Some(input.skip(n as int)))
        } else {
            Some(zlib_inflated(input.skip(n as int)))
        },
    }
}

/// Reads a VarInt data length, then: a negative length is an error; zero
/// means the rest is the data as it stands; otherwise the rest is a zlib
/// stream to inflate.
///
/// What `compress_payload` writes for non-empty data (of a length that
/// fits an `i32`) reads back as that data, as its zlib stream inflates
/// back to it.
pub fn decompress_payload(input: &[u8]) -> (r: Result<Vec<u8>, CompressionError>)
    ensures
        match decompressed(input@) {
            None => r matches Err(CompressionError::LengthMismatch),
            Some(None) => r matches Err(CompressionError::Io(_)),
            Some(Some(d)) => r matches Ok(v) && v@ == d,
        },
        forall|d: Seq<u8>|
            input@ == #[trigger] compressed_wire(d) && zlib_inflated(zlib_compressed(d)->0) == Some(d)
                && 0 < d.len() <= i32::MAX ==> (r matches Ok(v) && v@ == d),
{
    let mut buf = ByteReader::from_slice(input);
    proof {
        crate::codecs::lemma_var_int_parse_len(input@, 0, 0);
        assert forall|d: Seq<u8>|
            input@ == #[trigger] compressed_wire(d) && zlib_inflated(zlib_compressed(d)->0) == Some(d)
                && 0 < d.len() <= i32::MAX implies var_int_read(
                input@,
            ) == Ok::<(u32, nat), crate::codecs::VarIntReadError>(
                (d.len() as u32, var_int_bytes(d.len() as u32).len()),
            ) && (d.len() as u32) as i32 == d.len() && input@.skip(
                var_int_bytes(d.len() as u32).len() as int,
            ) == zlib_compressed(d)->0 by {
            assert((d.len() as i32) as u32 == d.len() as u32);
            crate::codecs::lemma_var_int_roundtrip(d.len() as u32, zlib_compressed(d)->0);
            assert(input@.skip(var_int_bytes(d.len() as u32).len() as int) =~= zlib_compressed(d)->0);
        }
    }
    let data_len = match read_var_int(&mut buf) {
        Ok(v) => v,
        Err(_) => {
            return Err(CompressionError::LengthMismatch);
        },
    };
    if data_len < 0 {
        return Err(CompressionError::LengthMismatch);
    }
    let rest = buf.take_rest();
    if data_len == 0 {
        return Ok(rest);
    }
    match zlib_decompress(rest.as_slice()) {
        Ok(v) => Ok(v),
        Err(e) => Err(CompressionError::Io(e)),
    }
}

} // verus!
