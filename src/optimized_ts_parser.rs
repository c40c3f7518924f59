//! Reads whole transport stream segments in one pass over their packets.
use vstd::prelude::*;
use crate::mpeg_ts::{demux_segment, segment_stream_type};
use crate::pipeline::{captions_from_payloads, segment_captions};

verus! {

/// A segment reader; it keeps the video stream type of the last segment.
pub struct OptimizedTsParser {
    stream_type: Option<u8>,
}

impl OptimizedTsParser {
    /// The video stream type found in the last segment read.
    pub closed spec fn stream(&self) -> Option<u8> {
        self.stream_type
    }

    pub fn new() -> (r: Self)
        ensures
            r.stream() == None::<u8>,
    {
        OptimizedTsParser { stream_type: None }
    }

    pub fn stream_type(&self) -> (r: Option<u8>)
        ensures
            r == self.stream(),
    {
        self.stream_type
    }

    /// The captions of one segment, in the order their SEI messages arrive.
    /// Nothing is carried over from an earlier segment.
    pub fn parse_ts_file(&mut self, data: &[u8]) -> (r: Vec<String>)
        ensures
            r@.map_values(|s: String| s@) == segment_captions(data@),
            final(self).stream() == segment_stream_type(data@),
    {
        let (packets, stream_type) = demux_segment(data);
        self.stream_type = stream_type;
        captions_from_payloads(packets.as_slice(), stream_type)
    }
}

} // verus!
