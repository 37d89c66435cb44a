//! The binary layer of the packet codec: the JSON rendering of a packet,
//! gzip-compressed into one self-contained frame, and the inverse.  The
//! compressor and decompressor are flate2's; everything around them is
//! verified against the names given to their results.

use vstd::prelude::*;
use crate::json::{json_of_wspacket, lemma_parse_of_rendered, packet_to_json, parse_wspacket,
    sp_wspacket};
use crate::packet::{PacketModel, WsPacket};
use crate::session::{close_step, step_packet, Action, Session};

verus! {

/// The text that a frame's bytes decompress and UTF-8-decode to, if they
/// are a well-formed gzip stream of well-formed UTF-8; decompression is a
/// function of the bytes alone.
pub uninterp spec fn gunzip_text(b: Seq<u8>) -> Option<Seq<char>>;

/// A frame failed to decompress or to parse.
#[derive(Debug, Clone, Copy, PartialEq, Eq)]
pub struct DecodeError;

/// Relies on flate2's `write::GzEncoder`: compressing text and feeding
/// the result to `read::GzDecoder` gives the original bytes back (gzip is
/// lossless), so the frame decompresses to exactly the input text.
/// Writing into a `Vec` cannot fail, so neither can the encoder.
#[verifier::external_body]
fn gzip_compress(text: &Vec<char>) -> (r: Vec<u8>)
    ensures
        gunzip_text(r@) == Some(text@),
{
    let s: String = text.iter().collect();
    let mut enc = flate2::write::GzEncoder::new(Vec::new(), flate2::Compression::default());
    std::io::Write::write_all(&mut enc, s.as_bytes()).expect("writing to a Vec cannot fail");
    enc.finish().expect("writing to a Vec cannot fail")
}

/// Relies on flate2's `read::GzDecoder`: reading it yields the
/// decompressed bytes of a well-formed gzip stream and fails otherwise;
/// `read_to_string` additionally fails on bytes that are not UTF-8.  Both
/// are functions of the input bytes alone.
#[verifier::external_body]
fn gzip_decompress(frame: &Vec<u8>) -> (r: Option<Vec<char>>)
    ensures
        match r {
            Some(text) => gunzip_text(frame@) == Some(text@),
            None => gunzip_text(frame@) is None,
        },
{
    let mut dec = flate2::read::GzDecoder::new(&frame[..]);
    let mut out = String::new();
    match std::io::Read::read_to_string(&mut dec, &mut out) {
        Ok(_) => Some(out.chars().collect()),
        Err(_) => None,
    }
}

/// The packet a frame decodes to: its bytes decompressed to text and that
/// text parsed as a wire document; nothing on any failure.
pub open spec fn decode_spec(b: Seq<u8>) -> Option<PacketModel> {
    match gunzip_text(b) {
        Some(text) => sp_wspacket(text),
        None => None,
    }
}

/// Encodes one packet as a self-contained compressed frame.  The frame
/// decompresses to exactly the packet's canonical JSON rendering, so it
/// decodes back to exactly the packet it was made from.
pub fn encode(p: &WsPacket) -> (r: Vec<u8>)
    ensures
        gunzip_text(r@) == Some(json_of_wspacket(p@)),
        decode_spec(r@) == Some(p@),
{
    let text = packet_to_json(p);
    let frame = gzip_compress(&text);
    proof {
        lemma_parse_of_rendered(p@);
    }
    frame
}

/// Decodes one frame, atomically: exactly the packet of [`decode_spec`],
/// or an error for a frame that does not decompress or does not parse.
pub fn decode(frame: &Vec<u8>) -> (r: Result<WsPacket, DecodeError>)
    ensures
        match r {
            Ok(p) => decode_spec(frame@) == Some(p@),
            Err(_) => decode_spec(frame@) is None,
        },
{
    match gzip_decompress(frame) {
        Some(text) => match parse_wspacket(&text) {
            Some(p) => Ok(p),
            None => Err(DecodeError),
        },
        None => Err(DecodeError),
    }
}

impl Session {
    /// One inbound frame: a frame that decodes is handled as its packet;
    /// a frame that does not terminates the session, and nothing is sent
    /// on or after that termination.
    pub fn handle_frame(&mut self, now: u64, frame: &Vec<u8>) -> (r: Vec<Action>)
        requires
            !old(self).closed,
        ensures
            match decode_spec(frame@) {
                Some(p) => final(self)@ == step_packet(old(self)@, now, p).0 && r.deep_view()
                    =~= step_packet(old(self)@, now, p).1,
                None => final(self)@ == close_step(old(self)@).0 && r.deep_view() =~= close_step(
                    old(self)@,
                ).1,
            },
    {
        match decode(frame) {
            Ok(p) => self.handle_packet(now, p.packet),
            Err(_) => self.close_now(),
        }
    }
}

} // verus!
