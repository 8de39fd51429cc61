//! Decoding a body from its content encoding and encoding it back, chunk by chunk, with the
//! streaming writers of flate2 and brotli.
//!
//! Each writer is held in a struct of this library, with a name for the chunks it has been
//! written so far. What a writer gives for a chunk, and at its end, is a function of those
//! chunks: the writers keep no other state and read no clock, file or random source. Each
//! such result has a name of its own.
use std::io::Write;

use brotli::{CompressorWriter, DecompressorWriter};
use flate2::write::{GzDecoder, GzEncoder, ZlibDecoder, ZlibEncoder};
use vstd::prelude::*;

use crate::filter::encoding::SupportedEncoding;
use crate::filter::error::FilterBodyError;

verus! {

/// Flate2's gzip decoder over a `Vec`, which the library holds as it is.
#[verifier::external_body]
pub struct GzDecodeFilterBody {
    decoder: GzDecoder<Vec<u8>>,
}

/// The chunks written to flate2's gzip decoder so far, in order.
pub uninterp spec fn gz_decoder_input(w: GzDecodeFilterBody) -> Seq<Seq<u8>>;

/// What flate2's gzip decoder, once `input` has been written to it chunk by chunk, each chunk followed by a
/// flush, writes for the chunk `data` and a flush: `None` where the write or the flush fails.
pub uninterp spec fn spec_gz_decoder_feed(input: Seq<Seq<u8>>, data: Seq<u8>) -> Option<Seq<u8>>;

/// What flate2's gzip decoder writes when it is finished after `input`: `None` where finishing fails.
pub uninterp spec fn spec_gz_decoder_finish(input: Seq<Seq<u8>>) -> Option<Seq<u8>>;

/// `GzDecoder::new` over an empty `Vec`: nothing has been written to it.
#[verifier::external_body]
fn gz_decoder_new() -> (res: GzDecodeFilterBody)
    ensures
        gz_decoder_input(res) == Seq::<Seq<u8>>::empty(),
{
    GzDecodeFilterBody { decoder: GzDecoder::new(Vec::new()) }
}

/// Writes `data` with `write_all`, calls `flush`, and takes what the writer has put in its
/// `Vec` (`get_mut`); an I/O error of either call is the error. The chunk is recorded as
/// written either way.
#[verifier::external_body]
fn gz_decoder_feed(w: &mut GzDecodeFilterBody, data: &[u8]) -> (res: Result<Vec<u8>, FilterBodyError>)
    ensures
        gz_decoder_input(*final(w)) == gz_decoder_input(*old(w)).push(data@),
        match spec_gz_decoder_feed(gz_decoder_input(*old(w)), data@) {
            Some(o) => res matches Ok(v) && v@ == o,
            None => res is Err,
        },
{
    w.decoder.write_all(data)?;
    w.decoder.flush()?;
    Ok(std::mem::take(w.decoder.get_mut()))
}

/// `try_finish` then `finish` on the writer: what it writes at the end, or the I/O error.
#[verifier::external_body]
fn gz_decoder_finish(w: GzDecodeFilterBody) -> (res: Result<Vec<u8>, FilterBodyError>)
    ensures
        match spec_gz_decoder_finish(gz_decoder_input(w)) {
            Some(o) => res matches Ok(v) && v@ == o,
            None => res is Err,
        },
{
    let mut decoder = w.decoder;
    decoder.try_finish()?;
    Ok(decoder.finish()?)
}

/// Flate2's zlib decoder over a `Vec`, which the library holds as it is.
#[verifier::external_body]
pub struct ZlibDecodeFilterBody {
    decoder: ZlibDecoder<Vec<u8>>,
}

/// The chunks written to flate2's zlib decoder so far, in order.
pub uninterp spec fn zlib_decoder_input(w: ZlibDecodeFilterBody) -> Seq<Seq<u8>>;

/// What flate2's zlib decoder, once `input` has been written to it chunk by chunk, each chunk followed by a
/// flush, writes for the chunk `data` and a flush: `None` where the write or the flush fails.
pub uninterp spec fn spec_zlib_decoder_feed(input: Seq<Seq<u8>>, data: Seq<u8>) -> Option<Seq<u8>>;

/// What flate2's zlib decoder writes when it is finished after `input`: `None` where finishing fails.
pub uninterp spec fn spec_zlib_decoder_finish(input: Seq<Seq<u8>>) -> Option<Seq<u8>>;

/// `ZlibDecoder::new` over an empty `Vec`: nothing has been written to it.
#[verifier::external_body]
fn zlib_decoder_new() -> (res: ZlibDecodeFilterBody)
    ensures
        zlib_decoder_input(res) == Seq::<Seq<u8>>::empty(),
{
    ZlibDecodeFilterBody { decoder: ZlibDecoder::new(Vec::new()) }
}

/// Writes `data` with `write_all`, calls `flush`, and takes what the writer has put in its
/// `Vec` (`get_mut`); an I/O error of either call is the error. The chunk is recorded as
/// written either way.
#[verifier::external_body]
fn zlib_decoder_feed(w: &mut ZlibDecodeFilterBody, data: &[u8]) -> (res: Result<Vec<u8>, FilterBodyError>)
    ensures
        zlib_decoder_input(*final(w)) == zlib_decoder_input(*old(w)).push(data@),
        match spec_zlib_decoder_feed(zlib_decoder_input(*old(w)), data@) {
            Some(o) => res matches Ok(v) && v@ == o,
            None => res is Err,
        },
{
    w.decoder.write_all(data)?;
    w.decoder.flush()?;
    Ok(std::mem::take(w.decoder.get_mut()))
}

/// `try_finish` then `finish` on the writer: what it writes at the end, or the I/O error.
#[verifier::external_body]
fn zlib_decoder_finish(w: ZlibDecodeFilterBody) -> (res: Result<Vec<u8>, FilterBodyError>)
    ensures
        match spec_zlib_decoder_finish(zlib_decoder_input(w)) {
            Some(o) => res matches Ok(v) && v@ == o,
            None => res is Err,
        },
{
    let mut decoder = w.decoder;
    decoder.try_finish()?;
    Ok(decoder.finish()?)
}

/// Brotli's decompressor over a `Vec`, which the library holds as it is.
#[verifier::external_body]
pub struct BrotliDecodeFilterBody {
    decoder: Box<DecompressorWriter<Vec<u8>>>,
}

/// The chunks written to brotli's decompressor so far, in order.
pub uninterp spec fn brotli_decoder_input(w: BrotliDecodeFilterBody) -> Seq<Seq<u8>>;

/// What brotli's decompressor, once `input` has been written to it chunk by chunk, each chunk followed by a
/// flush, writes for the chunk `data` and a flush: `None` where the write or the flush fails.
pub uninterp spec fn spec_brotli_decoder_feed(input: Seq<Seq<u8>>, data: Seq<u8>) -> Option<Seq<u8>>;

/// What brotli's decompressor has written in all when it is taken back after `input`.
pub uninterp spec fn spec_brotli_decoder_finish(input: Seq<Seq<u8>>) -> Seq<u8>;

/// `DecompressorWriter::new` over an empty `Vec`, with a buffer of 4096 bytes: nothing has been written to it.
#[verifier::external_body]
fn brotli_decoder_new() -> (res: BrotliDecodeFilterBody)
    ensures
        brotli_decoder_input(res) == Seq::<Seq<u8>>::empty(),
{
    BrotliDecodeFilterBody { decoder: Box::new(DecompressorWriter::new(Vec::new(), 4096)) }
}

/// Writes `data` with `write_all`, calls `flush`, and takes what the writer has put in its
/// `Vec` (`get_mut`); an I/O error of either call is the error. The chunk is recorded as
/// written either way.
#[verifier::external_body]
fn brotli_decoder_feed(w: &mut BrotliDecodeFilterBody, data: &[u8]) -> (res: Result<Vec<u8>, FilterBodyError>)
    ensures
        brotli_decoder_input(*final(w)) == brotli_decoder_input(*old(w)).push(data@),
        match spec_brotli_decoder_feed(brotli_decoder_input(*old(w)), data@) {
            Some(o) => res matches Ok(v) && v@ == o,
            None => res is Err,
        },
{
    w.decoder.write_all(data)?;
    w.decoder.flush()?;
    Ok(std::mem::take(w.decoder.get_mut()))
}

/// `into_inner` on the decompressor: what it has written, whether or not the stream was
/// complete (`into_inner` gives the `Vec` in both of its results).
#[verifier::external_body]
fn brotli_decoder_finish(w: BrotliDecodeFilterBody) -> (res: Vec<u8>)
    ensures
        res@ == spec_brotli_decoder_finish(brotli_decoder_input(w)),
{
    match w.decoder.into_inner() {
        Ok(buffer) => buffer,
        Err(buffer) => buffer,
    }
}

/// Flate2's gzip encoder over a `Vec`, which the library holds as it is.
#[verifier::external_body]
pub struct GzEncodeFilterBody {
    encoder: GzEncoder<Vec<u8>>,
}

/// The chunks written to flate2's gzip encoder so far, in order.
pub uninterp spec fn gz_encoder_input(w: GzEncodeFilterBody) -> Seq<Seq<u8>>;

/// What flate2's gzip encoder, once `input` has been written to it chunk by chunk, each chunk followed by a
/// flush, writes for the chunk `data` and a flush: `None` where the write or the flush fails.
pub uninterp spec fn spec_gz_encoder_feed(input: Seq<Seq<u8>>, data: Seq<u8>) -> Option<Seq<u8>>;

/// What flate2's gzip encoder writes when it is finished after `input`: `None` where finishing fails.
pub uninterp spec fn spec_gz_encoder_finish(input: Seq<Seq<u8>>) -> Option<Seq<u8>>;

/// `GzEncoder::new` over an empty `Vec`, at the default compression: nothing has been written to it.
#[verifier::external_body]
fn gz_encoder_new() -> (res: GzEncodeFilterBody)
    ensures
        gz_encoder_input(res) == Seq::<Seq<u8>>::empty(),
{
    GzEncodeFilterBody { encoder: GzEncoder::new(Vec::new(), flate2::Compression::default()) }
}

/// Writes `data` with `write_all`, calls `flush`, and takes what the writer has put in its
/// `Vec` (`get_mut`); an I/O error of either call is the error. The chunk is recorded as
/// written either way.
#[verifier::external_body]
fn gz_encoder_feed(w: &mut GzEncodeFilterBody, data: &[u8]) -> (res: Result<Vec<u8>, FilterBodyError>)
    ensures
        gz_encoder_input(*final(w)) == gz_encoder_input(*old(w)).push(data@),
        match spec_gz_encoder_feed(gz_encoder_input(*old(w)), data@) {
            Some(o) => res matches Ok(v) && v@ == o,
            None => res is Err,
        },
{
    w.encoder.write_all(data)?;
    w.encoder.flush()?;
    Ok(std::mem::take(w.encoder.get_mut()))
}

/// `try_finish` then `finish` on the writer: what it writes at the end, or the I/O error.
#[verifier::external_body]
fn gz_encoder_finish(w: GzEncodeFilterBody) -> (res: Result<Vec<u8>, FilterBodyError>)
    ensures
        match spec_gz_encoder_finish(gz_encoder_input(w)) {
            Some(o) => res matches Ok(v) && v@ == o,
            None => res is Err,
        },
{
    let mut encoder = w.encoder;
    encoder.try_finish()?;
    Ok(encoder.finish()?)
}

/// Flate2's zlib encoder over a `Vec`, which the library holds as it is.
#[verifier::external_body]
pub struct ZlibEncodeFilterBody {
    encoder: ZlibEncoder<Vec<u8>>,
}

/// The chunks written to flate2's zlib encoder so far, in order.
pub uninterp spec fn zlib_encoder_input(w: ZlibEncodeFilterBody) -> Seq<Seq<u8>>;

/// What flate2's zlib encoder, once `input` has been written to it chunk by chunk, each chunk followed by a
/// flush, writes for the chunk `data` and a flush: `None` where the write or the flush fails.
pub uninterp spec fn spec_zlib_encoder_feed(input: Seq<Seq<u8>>, data: Seq<u8>) -> Option<Seq<u8>>;

/// What flate2's zlib encoder writes when it is finished after `input`: `None` where finishing fails.
pub uninterp spec fn spec_zlib_encoder_finish(input: Seq<Seq<u8>>) -> Option<Seq<u8>>;

/// `ZlibEncoder::new` over an empty `Vec`, at the default compression: nothing has been written to it.
#[verifier::external_body]
fn zlib_encoder_new() -> (res: ZlibEncodeFilterBody)
    ensures
        zlib_encoder_input(res) == Seq::<Seq<u8>>::empty(),
{
    ZlibEncodeFilterBody { encoder: ZlibEncoder::new(Vec::new(), flate2::Compression::default()) }
}

/// Writes `data` with `write_all`, calls `flush`, and takes what the writer has put in its
/// `Vec` (`get_mut`); an I/O error of either call is the error. The chunk is recorded as
/// written either way.
#[verifier::external_body]
fn zlib_encoder_feed(w: &mut ZlibEncodeFilterBody, data: &[u8]) -> (res: Result<Vec<u8>, FilterBodyError>)
    ensures
        zlib_encoder_input(*final(w)) == zlib_encoder_input(*old(w)).push(data@),
        match spec_zlib_encoder_feed(zlib_encoder_input(*old(w)), data@) {
            Some(o) => res matches Ok(v) && v@ == o,
            None => res is Err,
        },
{
    w.encoder.write_all(data)?;
    w.encoder.flush()?;
    Ok(std::mem::take(w.encoder.get_mut()))
}

/// `try_finish` then `finish` on the writer: what it writes at the end, or the I/O error.
#[verifier::external_body]
fn zlib_encoder_finish(w: ZlibEncodeFilterBody) -> (res: Result<Vec<u8>, FilterBodyError>)
    ensures
        match spec_zlib_encoder_finish(zlib_encoder_input(w)) {
            Some(o) => res matches Ok(v) && v@ == o,
            None => res is Err,
        },
{
    let mut encoder = w.encoder;
    encoder.try_finish()?;
    Ok(encoder.finish()?)
}

/// Brotli's compressor over a `Vec`, which the library holds as it is.
#[verifier::external_body]
pub struct BrotliEncodeFilterBody {
    encoder: Box<CompressorWriter<Vec<u8>>>,
}

/// The chunks written to brotli's compressor so far, in order.
pub uninterp spec fn brotli_encoder_input(w: BrotliEncodeFilterBody) -> Seq<Seq<u8>>;

/// What brotli's compressor, once `input` has been written to it chunk by chunk, each chunk followed by a
/// flush, writes for the chunk `data` and a flush: `None` where the write or the flush fails.
pub uninterp spec fn spec_brotli_encoder_feed(input: Seq<Seq<u8>>, data: Seq<u8>) -> Option<Seq<u8>>;

/// What brotli's compressor has written in all when it is taken back after `input`.
pub uninterp spec fn spec_brotli_encoder_finish(input: Seq<Seq<u8>>) -> Seq<u8>;

/// `CompressorWriter::new` over an empty `Vec`, with a buffer of 4096 bytes, quality 11 and a window of 22 bits: nothing has been written to it.
#[verifier::external_body]
fn brotli_encoder_new() -> (res: BrotliEncodeFilterBody)
    ensures
        brotli_encoder_input(res) == Seq::<Seq<u8>>::empty(),
{
    BrotliEncodeFilterBody { encoder: Box::new(CompressorWriter::new(Vec::new(), 4096, 11, 22)) }
}

/// Writes `data` with `write_all`, calls `flush`, and takes what the writer has put in its
/// `Vec` (`get_mut`); an I/O error of either call is the error. The chunk is recorded as
/// written either way.
#[verifier::external_body]
fn brotli_encoder_feed(w: &mut BrotliEncodeFilterBody, data: &[u8]) -> (res: Result<Vec<u8>, FilterBodyError>)
    ensures
        brotli_encoder_input(*final(w)) == brotli_encoder_input(*old(w)).push(data@),
        match spec_brotli_encoder_feed(brotli_encoder_input(*old(w)), data@) {
            Some(o) => res matches Ok(v) && v@ == o,
            None => res is Err,
        },
{
    w.encoder.write_all(data)?;
    w.encoder.flush()?;
    Ok(std::mem::take(w.encoder.get_mut()))
}

/// `into_inner` on the compressor, which ends the stream: all that it has written.
#[verifier::external_body]
fn brotli_encoder_finish(w: BrotliEncodeFilterBody) -> (res: Vec<u8>)
    ensures
        res@ == spec_brotli_encoder_finish(brotli_encoder_input(w)),
{
    w.encoder.into_inner()
}

/// Decodes a body from its content encoding, chunk by chunk.
pub enum DecodeFilterBody {
    Gzip(GzDecodeFilterBody),
    Brotli(BrotliDecodeFilterBody),
    Deflate(ZlibDecodeFilterBody),
}

/// Encodes a body with a content encoding, chunk by chunk.
pub enum EncodeFilterBody {
    Gzip(GzEncodeFilterBody),
    Brotli(BrotliEncodeFilterBody),
    Deflate(ZlibEncodeFilterBody),
}

/// What the decoder of `encoding` gives for the chunk `data`, after `input`.
pub open spec fn decode_feed(encoding: SupportedEncoding, input: Seq<Seq<u8>>, data: Seq<u8>) -> Option<Seq<u8>> {
    match encoding {
        SupportedEncoding::Gzip => spec_gz_decoder_feed(input, data),
        SupportedEncoding::Deflate => spec_zlib_decoder_feed(input, data),
        SupportedEncoding::Brotli => spec_brotli_decoder_feed(input, data),
    }
}

/// What the decoder of `encoding` gives at the end of the body, after `input`.
pub open spec fn decode_finish(encoding: SupportedEncoding, input: Seq<Seq<u8>>) -> Option<Seq<u8>> {
    match encoding {
        SupportedEncoding::Gzip => spec_gz_decoder_finish(input),
        SupportedEncoding::Deflate => spec_zlib_decoder_finish(input),
        SupportedEncoding::Brotli => Some(spec_brotli_decoder_finish(input)),
    }
}

/// What the encoder of `encoding` gives for the chunk `data`, after `input`.
pub open spec fn encode_feed(encoding: SupportedEncoding, input: Seq<Seq<u8>>, data: Seq<u8>) -> Option<Seq<u8>> {
    match encoding {
        SupportedEncoding::Gzip => spec_gz_encoder_feed(input, data),
        SupportedEncoding::Deflate => spec_zlib_encoder_feed(input, data),
        SupportedEncoding::Brotli => spec_brotli_encoder_feed(input, data),
    }
}

/// What the encoder of `encoding` gives at the end of the body, after `input`.
pub open spec fn encode_finish(encoding: SupportedEncoding, input: Seq<Seq<u8>>) -> Option<Seq<u8>> {
    match encoding {
        SupportedEncoding::Gzip => spec_gz_encoder_finish(input),
        SupportedEncoding::Deflate => spec_zlib_encoder_finish(input),
        SupportedEncoding::Brotli => Some(spec_brotli_encoder_finish(input)),
    }
}

impl DecodeFilterBody {
    /// The encoding the body is decoded from.
    pub open spec fn encoding(&self) -> SupportedEncoding {
        match self {
            DecodeFilterBody::Gzip(_) => SupportedEncoding::Gzip,
            DecodeFilterBody::Brotli(_) => SupportedEncoding::Brotli,
            DecodeFilterBody::Deflate(_) => SupportedEncoding::Deflate,
        }
    }

    /// The chunks the decoder has been given since its start.
    pub open spec fn input(&self) -> Seq<Seq<u8>> {
        match self {
            DecodeFilterBody::Gzip(d) => gz_decoder_input(*d),
            DecodeFilterBody::Brotli(d) => brotli_decoder_input(*d),
            DecodeFilterBody::Deflate(d) => zlib_decoder_input(*d),
        }
    }

    /// A decoder of `encoding`, at the start of a body.
    pub fn new(encoding: SupportedEncoding) -> (res: Self)
        ensures
            res.encoding() == encoding,
            res.input() == Seq::<Seq<u8>>::empty(),
    {
        match encoding {
            SupportedEncoding::Brotli => DecodeFilterBody::Brotli(brotli_decoder_new()),
            SupportedEncoding::Gzip => DecodeFilterBody::Gzip(gz_decoder_new()),
            SupportedEncoding::Deflate => DecodeFilterBody::Deflate(zlib_decoder_new()),
        }
    }

    /// Decodes a chunk: what the decoder of the encoding gives for it after the chunks before,
    /// or its error.
    pub fn filter(&mut self, data: Vec<u8>) -> (res: Result<Vec<u8>, FilterBodyError>)
        ensures
            final(self).encoding() == old(self).encoding(),
            final(self).input() == old(self).input().push(data@),
            match decode_feed(old(self).encoding(), old(self).input(), data@) {
                Some(o) => res matches Ok(v) && v@ == o,
                None => res is Err,
            },
    {
        match self {
            DecodeFilterBody::Deflate(decoder) => zlib_decoder_feed(decoder, data.as_slice()),
            DecodeFilterBody::Gzip(decoder) => gz_decoder_feed(decoder, data.as_slice()),
            DecodeFilterBody::Brotli(decoder) => brotli_decoder_feed(decoder, data.as_slice()),
        }
    }

    /// Ends the body: the decoder is finished and what it still held comes out, or its error;
    /// in its place stands a new decoder of the same encoding.
    pub fn end(&mut self) -> (res: Result<Vec<u8>, FilterBodyError>)
        ensures
            final(self).encoding() == old(self).encoding(),
            final(self).input() == Seq::<Seq<u8>>::empty(),
            match decode_finish(old(self).encoding(), old(self).input()) {
                Some(o) => res matches Ok(v) && v@ == o,
                None => res is Err,
            },
    {
        match self {
            DecodeFilterBody::Deflate(d) => {
                let mut decoder = zlib_decoder_new();
                std::mem::swap(d, &mut decoder);
                zlib_decoder_finish(decoder)
            },
            DecodeFilterBody::Gzip(d) => {
                let mut decoder = gz_decoder_new();
                std::mem::swap(d, &mut decoder);
                gz_decoder_finish(decoder)
            },
            DecodeFilterBody::Brotli(d) => {
                let mut decoder = brotli_decoder_new();
                std::mem::swap(d, &mut decoder);
                Ok(brotli_decoder_finish(decoder))
            },
        }
    }
}

impl EncodeFilterBody {
    /// The encoding the body is encoded with.
    pub open spec fn encoding(&self) -> SupportedEncoding {
        match self {
            EncodeFilterBody::Gzip(_) => SupportedEncoding::Gzip,
            EncodeFilterBody::Brotli(_) => SupportedEncoding::Brotli,
            EncodeFilterBody::Deflate(_) => SupportedEncoding::Deflate,
        }
    }

    /// The chunks the encoder has been given since its start.
    pub open spec fn input(&self) -> Seq<Seq<u8>> {
        match self {
            EncodeFilterBody::Gzip(e) => gz_encoder_input(*e),
            EncodeFilterBody::Brotli(e) => brotli_encoder_input(*e),
            EncodeFilterBody::Deflate(e) => zlib_encoder_input(*e),
        }
    }

    /// An encoder of `encoding`, at the start of a body.
    pub fn new(encoding: SupportedEncoding) -> (res: Self)
        ensures
            res.encoding() == encoding,
            res.input() == Seq::<Seq<u8>>::empty(),
    {
        match encoding {
            SupportedEncoding::Brotli => EncodeFilterBody::Brotli(brotli_encoder_new()),
            SupportedEncoding::Gzip => EncodeFilterBody::Gzip(gz_encoder_new()),
            SupportedEncoding::Deflate => EncodeFilterBody::Deflate(zlib_encoder_new()),
        }
    }

    /// Encodes a chunk: what the encoder of the encoding gives for it after the chunks before,
    /// or its error.
    pub fn filter(&mut self, data: Vec<u8>) -> (res: Result<Vec<u8>, FilterBodyError>)
        ensures
            final(self).encoding() == old(self).encoding(),
            final(self).input() == old(self).input().push(data@),
            match encode_feed(old(self).encoding(), old(self).input(), data@) {
                Some(o) => res matches Ok(v) && v@ == o,
                None => res is Err,
            },
    {
        match self {
            EncodeFilterBody::Deflate(encoder) => zlib_encoder_feed(encoder, data.as_slice()),
            EncodeFilterBody::Gzip(encoder) => gz_encoder_feed(encoder, data.as_slice()),
            EncodeFilterBody::Brotli(encoder) => brotli_encoder_feed(encoder, data.as_slice()),
        }
    }

    /// Ends the body: the encoder is finished and the end of the encoded body comes out, or
    /// its error; in its place stands a new encoder of the same encoding.
    pub fn end(&mut self) -> (res: Result<Vec<u8>, FilterBodyError>)
        ensures
            final(self).encoding() == old(self).encoding(),
            final(self).input() == Seq::<Seq<u8>>::empty(),
            match encode_finish(old(self).encoding(), old(self).input()) {
                Some(o) => res matches Ok(v) && v@ == o,
                None => res is Err,
            },
    {
        match self {
            EncodeFilterBody::Deflate(e) => {
                let mut encoder = zlib_encoder_new();
                std::mem::swap(e, &mut encoder);
                zlib_encoder_finish(encoder)
            },
            EncodeFilterBody::Gzip(e) => {
                let mut encoder = gz_encoder_new();
                std::mem::swap(e, &mut encoder);
                gz_encoder_finish(encoder)
            },
            EncodeFilterBody::Brotli(e) => {
                let mut encoder = brotli_encoder_new();
                std::mem::swap(e, &mut encoder);
                Ok(brotli_encoder_finish(encoder))
            },
        }
    }
}

} // verus!
