//! Caption detection over video payloads that were already demultiplexed.
use vstd::prelude::*;
use crate::mpeg_bitstream::STREAM_TYPE_H264;
use crate::mpeg_ts::PesPacket;
use crate::pipeline::{captions_from_payloads, payloads_captions};

verus! {

/// Finds captions in the payloads of an H.264 video stream.
pub struct CaptionDetector;

impl CaptionDetector {
    pub fn new() -> (r: Self) {
        CaptionDetector
    }

    /// The captions of the payloads, which are fed in order to one NAL
    /// scanner, so that units crossing payload boundaries are kept whole.
    pub fn detect_captions(&self, pes_packets: &[PesPacket]) -> (r: Vec<String>)
        ensures
            r@.map_values(|s: String| s@) == payloads_captions(
                pes_packets@.map_values(|p: PesPacket| p.data@),
                Some(STREAM_TYPE_H264),
            ),
    {
        captions_from_payloads(pes_packets, Some(STREAM_TYPE_H264))
    }
}

} // verus!
