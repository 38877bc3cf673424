//! The WAV container header: canonical RIFF/WAVE, 16-bit PCM.
//!
//! The header is exactly 44 bytes: the RIFF chunk with its size, the 16-byte
//! `fmt ` subchunk declaring PCM samples of 16 bits, and the `data` subchunk
//! with the length of the sample data. Sample conversion and file output
//! happen outside the library; the header bytes are fixed here.

use vstd::prelude::*;

verus! {

/// Parameters for a WAVE file.
#[derive(Debug, Clone, Copy, PartialEq, Eq, Structural)]
pub struct Parameters {
    pub channel_count: u32,
    pub sample_rate: u32,
}

/// The four little-endian bytes of a 32-bit value.
pub open spec fn le32(v: u32) -> Seq<u8> {
    seq![
        (v & 0xff) as u8,
        ((v >> 8u32) & 0xff) as u8,
        ((v >> 16u32) & 0xff) as u8,
        ((v >> 24u32) & 0xff) as u8,
    ]
}

/// The two little-endian bytes of a 16-bit value.
pub open spec fn le16(v: u16) -> Seq<u8> {
    seq![(v & 0xff) as u8, ((v >> 8u16) & 0xff) as u8]
}

/// The number of bytes each frame takes: two per channel.
pub open spec fn spec_frame_bytes(p: Parameters) -> int {
    p.channel_count * 2
}

/// The 44 header bytes for a file of the given frame count: the RIFF chunk
/// sized 36 bytes past the sample data, the `fmt ` subchunk of size 16 with
/// format code 1, the channel count, rates, and 16 bits per sample, and the
/// `data` subchunk sized as the sample data.
pub open spec fn spec_header(frame_count: u32, p: Parameters) -> Seq<u8> {
    let frame_size = spec_frame_bytes(p);
    let data_len = frame_count * frame_size;
    seq![82u8, 73u8, 70u8, 70u8]  // RIFF
     + le32((data_len + 36) as u32) + seq![87u8, 65u8, 86u8, 69u8]  // WAVE
     + seq![102u8, 109u8, 116u8, 32u8]  // fmt
     + le32(16) + le16(1)  // PCM
     + le16(p.channel_count as u16) + le32(p.sample_rate) + le32(
        (p.sample_rate * frame_size) as u32,
    ) + le16(frame_size as u16) + le16(16)  // bits per sample
     + seq![100u8, 97u8, 116u8, 97u8]  // data
     + le32(data_len as u32)
}

/// Append the four little-endian bytes of the value.
fn push_le32(out: &mut Vec<u8>, v: u32)
    ensures
        final(out)@ == old(out)@ + le32(v),
{
    out.push((v & 0xff) as u8);
    out.push(((v >> 8) & 0xff) as u8);
    out.push(((v >> 16) & 0xff) as u8);
    out.push(((v >> 24) & 0xff) as u8);
    proof {
        assert(out@ =~= old(out)@ + le32(v));
    }
}

/// Append the two little-endian bytes of the value.
fn push_le16(out: &mut Vec<u8>, v: u16)
    ensures
        final(out)@ == old(out)@ + le16(v),
{
    out.push((v & 0xff) as u8);
    out.push(((v >> 8) & 0xff) as u8);
    proof {
        assert(out@ =~= old(out)@ + le16(v));
    }
}

/// Build the 44-byte header for a file with the given number of frames.
pub fn wave_header(frame_count: u32, parameters: &Parameters) -> (r: Vec<u8>)
    requires
        1 <= parameters.channel_count <= 0x7fff,
        frame_count * spec_frame_bytes(*parameters) + 36 <= u32::MAX,
        parameters.sample_rate * spec_frame_bytes(*parameters) <= u32::MAX,
    ensures
        r@ == spec_header(frame_count, *parameters),
        r@.len() == 44,
{
    let frame_size: u32 = parameters.channel_count * 2;
    let data_len: u32 = frame_count * frame_size;
    let mut out: Vec<u8> = Vec::new();
    out.push(82);
    out.push(73);
    out.push(70);
    out.push(70);
    push_le32(&mut out, data_len + 36);
    out.push(87);
    out.push(65);
    out.push(86);
    out.push(69);
    out.push(102);
    out.push(109);
    out.push(116);
    out.push(32);
    push_le32(&mut out, 16);
    push_le16(&mut out, 1);
    push_le16(&mut out, parameters.channel_count as u16);
    push_le32(&mut out, parameters.sample_rate);
    push_le32(&mut out, parameters.sample_rate * frame_size);
    push_le16(&mut out, frame_size as u16);
    push_le16(&mut out, 16);
    out.push(100);
    out.push(97);
    out.push(116);
    out.push(97);
    push_le32(&mut out, data_len);
    proof {
        assert(out@ =~= spec_header(frame_count, *parameters));
    }
    out
}

/// For a mono 16-bit stream of `n` frames, the file is the 44-byte header
/// and two bytes per frame, the RIFF chunk size field says 36 bytes more
/// than the sample data, and the data size field says exactly the sample
/// data.
#[verifier::rlimit(60)]
pub proof fn lemma_wave_file_shape(n: u32, p: Parameters)
    requires
        p.channel_count == 1,
        2 * n + 44 <= u32::MAX,
        p.sample_rate * 2 <= u32::MAX,
    ensures
        spec_header(n, p).len() + 2 * n == 44 + 2 * n,
        spec_header(n, p).subrange(4, 8) == le32((36 + 2 * n) as u32),
        spec_header(n, p).subrange(40, 44) == le32((2 * n) as u32),
        spec_header(n, p).subrange(20, 22) == le16(1),
        spec_header(n, p).subrange(34, 36) == le16(16),
{
    let h = spec_header(n, p);
    assert(spec_frame_bytes(p) == 2);
    assert(n * spec_frame_bytes(p) == 2 * n) by (nonlinear_arith)
        requires
            spec_frame_bytes(p) == 2,
    ;
    assert(h.subrange(4, 8) =~= le32((36 + 2 * n) as u32));
    assert(h.subrange(40, 44) =~= le32((2 * n) as u32));
    assert(h.subrange(20, 22) =~= le16(1));
    assert(h.subrange(34, 36) =~= le16(16));
}

} // verus!
