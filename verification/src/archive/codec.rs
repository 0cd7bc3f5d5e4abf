use vstd::prelude::*;

verus! {

/// The zstd frame that `zstd::stream::write::Encoder` writes for `data` at compression
/// level `level`, with or without a content checksum; `None` when the encoder reports an error.
pub uninterp spec fn zstd_stream_encode(data: Seq<u8>, level: i32, checksum: bool) -> Option<Seq<u8>>;

/// What a `zstd::stream::read::Decoder` over `frame` yields when read to its end, but
/// never more than `limit` bytes; `None` when the decoder reports an error.
pub uninterp spec fn zstd_stream_decode(frame: Seq<u8>, limit: u64) -> Option<Seq<u8>>;

/// Compresses `data` into one zstd frame with `zstd::stream::write::Encoder` (created by
/// `Encoder::new` at `level`, configured by `include_checksum`, fed by `write_all`,
/// closed by `finish`). The contract names the result, and claims the lossless
/// round trip that zstd documents: a `zstd::stream::read::Decoder` over the frame gives
/// the data back whenever the read limit is at least the data's length.
#[verifier::external_body]
pub(crate) fn zstd_compress(data: &[u8], level: i32, checksum: bool) -> (r: Option<Vec<u8>>)
    ensures
        match zstd_stream_encode(data@, level, checksum) {
            Some(frame) => r matches Some(out) && out@ == frame,
            None => r is None,
        },
        r matches Some(out) ==> forall|limit: u64|
            limit >= data@.len() ==> zstd_stream_decode(out@, limit) == Some(data@),
{
    let mut encoder = zstd::stream::write::Encoder::new(Vec::new(), level).ok()?;
    encoder.include_checksum(checksum).ok()?;
    std::io::Write::write_all(&mut encoder, data).ok()?;
    encoder.finish().ok()
}

/// Decodes zstd data with `zstd::stream::read::Decoder::new`, reading it to its end
/// through `std::io::Read::take(limit)`. The contract names the result and claims
/// what `take` documents: the output is never longer than `limit`.
#[verifier::external_body]
pub(crate) fn zstd_decompress(frame: &[u8], limit: u64) -> (r: Option<Vec<u8>>)
    ensures
        match zstd_stream_decode(frame@, limit) {
            Some(out) => r matches Some(v) && v@ == out,
            None => r is None,
        },
        r matches Some(v) ==> v@.len() <= limit,
{
    let decoder = zstd::stream::read::Decoder::new(frame).ok()?;
    let mut out = Vec::new();
    std::io::Read::read_to_end(&mut std::io::Read::take(decoder, limit), &mut out).ok()?;
    Some(out)
}

} // verus!
