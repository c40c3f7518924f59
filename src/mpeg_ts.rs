//! MPEG transport stream demultiplexing: PAT/PMT discovery of the video
//! PID, and the PES payload bytes of that PID with their timestamps.
use vstd::prelude::*;
use vstd::slice::{slice_subrange, slice_to_vec};

verus! {

pub const TS_PACKET_SIZE: usize = 188;

pub const TS_SYNC_BYTE: u8 = 0x47;

pub const STREAM_TYPE_H264: u8 = 0x1B;

pub const STREAM_TYPE_H265: u8 = 0x24;

/// A 13-bit field: the low five bits of `hi`, then `lo`.
pub open spec fn field13(hi: u8, lo: u8) -> int {
    (hi & 0x1F) as int * 256 + lo as int
}

/// A 12-bit field: the low four bits of `hi`, then `lo`.
pub open spec fn field12(hi: u8, lo: u8) -> int {
    (hi & 0x0F) as int * 256 + lo as int
}

/// A whole packet that starts with the sync byte.
pub open spec fn is_ts_packet(p: Seq<u8>) -> bool {
    p.len() == TS_PACKET_SIZE && p[0] == TS_SYNC_BYTE
}

pub open spec fn ts_pid(p: Seq<u8>) -> int {
    field13(p[1], p[2])
}

pub open spec fn ts_pusi(p: Seq<u8>) -> bool {
    p[1] & 0x40 != 0
}

pub open spec fn payload_present(p: Seq<u8>) -> bool {
    p[3] & 0x10 != 0
}

/// Where the payload starts: after the 4-byte header and, when present,
/// the length-prefixed adaptation field.
pub open spec fn payload_offset(p: Seq<u8>) -> int {
    if p[3] & 0x20 != 0 {
        5 + p[4]
    } else {
        4
    }
}

/// Where a PSI section starts: after the payload's pointer field.
pub open spec fn section_offset(p: Seq<u8>) -> int {
    payload_offset(p) + p[payload_offset(p)] + 1
}

/// The PMT PID that a PAT packet announces.
pub open spec fn pat_pmt_pid(p: Seq<u8>) -> Option<u16> {
    if payload_present(p) && payload_offset(p) < p.len() && section_offset(p) + 12 <= p.len() {
        let i = section_offset(p);
        Some(field13(p[i + 10], p[i + 11]) as u16)
    } else {
        None
    }
}

/// The first H.264/H.265 entry of a PMT stream loop that starts at `i`, with
/// `remaining` bytes of the loop declared, as (elementary PID, stream type).
pub open spec fn pmt_video_entry(p: Seq<u8>, i: int, remaining: int) -> Option<(u16, u8)>
    decreases p.len() - i,
{
    if remaining >= 5 && 0 <= i && i + 5 <= p.len() {
        let stream_type = p[i];
        if stream_type == STREAM_TYPE_H264 || stream_type == STREAM_TYPE_H265 {
            Some((field13(p[i + 1], p[i + 2]) as u16, stream_type))
        } else {
            let es_info = field12(p[i + 3], p[i + 4]);
            if i + 5 + es_info <= p.len() {
                pmt_video_entry(p, i + 5 + es_info, remaining - 5 - es_info)
            } else {
                None
            }
        }
    } else {
        None
    }
}

/// The video stream that a PMT packet announces, when its section is
/// current.
pub open spec fn pmt_video(p: Seq<u8>) -> Option<(u16, u8)> {
    if payload_present(p) && payload_offset(p) < p.len() && section_offset(p) + 12 <= p.len() {
        let i = section_offset(p);
        let section_length = field12(p[i + 1], p[i + 2]);
        let program_info = field12(p[i + 10], p[i + 11]);
        if p[i + 5] & 0x01 != 0 {
            pmt_video_entry(p, i + 12 + program_info, section_length - (9 + program_info + 4))
        } else {
            None
        }
    } else {
        None
    }
}

/// A 33-bit PES timestamp from the five bytes at `i`:
/// `[X][TS32..30][m][TS29..22][m][TS21..15][m][TS14..7][m][TS6..0][m]`.
pub open spec fn pes_timestamp(b: Seq<u8>, i: int) -> i64 {
    ((b[i] / 2 % 8) * 0x40000000 + b[i + 1] * 0x400000 + (b[i + 2] / 2) * 0x8000 + b[i + 3]
        * 0x80 + b[i + 4] / 2) as i64
}

/// The demultiplexer's state: what PAT and PMT have told it, and the
/// latest timestamps of the video stream.
#[derive(Debug, Clone, Copy)]
pub struct TsState {
    pub pmtpid: Option<u16>,
    pub ccpid: Option<u16>,
    pub stream_type: Option<u8>,
    pub pts: Option<i64>,
    pub dts: Option<i64>,
}

/// The transport stream demultiplexer; its state is `self@`.
#[derive(Debug)]
pub struct TsParser {
    state: TsState,
}

impl View for TsParser {
    type V = TsState;

    closed spec fn view(&self) -> TsState {
        self.state
    }
}

/// The payload of one video packet: its bytes, the DTS, and PTS − DTS, in
/// 90 kHz ticks.
pub enum TsParseResult {
    NoPayload,
    Ready { data: Vec<u8>, dts: i64, cts: i64 },
}

impl View for TsParseResult {
    type V = Option<(Seq<u8>, i64, i64)>;

    open spec fn view(&self) -> Option<(Seq<u8>, i64, i64)> {
        match self {
            TsParseResult::NoPayload => None,
            TsParseResult::Ready { data, dts, cts } => Some((data@, *dts, *cts)),
        }
    }
}

pub open spec fn initial_state() -> TsState {
    TsState { pmtpid: None, ccpid: None, stream_type: None, pts: None, dts: None }
}

pub open spec fn or_zero(t: Option<i64>) -> int {
    match t {
        Some(v) => v as int,
        None => 0,
    }
}

/// The state after the PES header of a video packet: its PTS, and its DTS
/// or else the PTS again, where the header carries them.
pub open spec fn pes_state(st: TsState, p: Seq<u8>) -> TsState {
    let i = payload_offset(p);
    if ts_pusi(p) && i + 14 <= p.len() && p[i + 7] & 0x80 != 0 {
        let pts = pes_timestamp(p, i + 9);
        let dts = if p[i + 7] & 0x40 != 0 && i + 19 <= p.len() {
            pes_timestamp(p, i + 14)
        } else {
            pts
        };
        TsState { pts: Some(pts), dts: Some(dts), ..st }
    } else {
        st
    }
}

/// Where the elementary stream bytes of a video packet start; past the end
/// where a PES header does not fit.
pub open spec fn es_offset(p: Seq<u8>) -> int {
    let i = payload_offset(p);
    if ts_pusi(p) {
        if i + 9 <= p.len() {
            i + 9 + p[i + 8]
        } else {
            p.len() as int
        }
    } else {
        i
    }
}

/// The packet belongs to the video stream, which is known.
pub open spec fn is_video_packet(st: TsState, p: Seq<u8>) -> bool {
    is_ts_packet(p) && st.ccpid.is_some() && ts_pid(p) == st.ccpid.unwrap() as int
        && payload_present(p)
}

/// The state after one packet. Until the video PID is known, PID 0 carries
/// the PAT and the PMT PID carries the PMT; once it is known, both are
/// ignored and only the video packets' timestamps are followed.
pub open spec fn ts_next(st: TsState, p: Seq<u8>) -> TsState {
    if !is_ts_packet(p) {
        st
    } else if st.ccpid.is_none() {
        if ts_pid(p) == 0 {
            match pat_pmt_pid(p) {
                Some(m) => TsState { pmtpid: Some(m), ..st },
                None => st,
            }
        } else if st.pmtpid.is_some() && ts_pid(p) == st.pmtpid.unwrap() as int {
            match pmt_video(p) {
                Some((v, t)) => TsState { ccpid: Some(v), stream_type: Some(t), ..st },
                None => st,
            }
        } else {
            st
        }
    } else if is_video_packet(st, p) {
        pes_state(st, p)
    } else {
        st
    }
}

/// What one packet yields: the bytes of a video packet after its headers,
/// where any are left, with the timestamps known after it.
pub open spec fn ts_output(st: TsState, p: Seq<u8>) -> Option<(Seq<u8>, i64, i64)> {
    if is_video_packet(st, p) && es_offset(p) < p.len() {
        let next = pes_state(st, p);
        Some(
            (
                p.subrange(es_offset(p), p.len() as int),
                or_zero(next.dts) as i64,
                (or_zero(next.pts) - or_zero(next.dts)) as i64,
            ),
        )
    } else {
        None
    }
}

/// The timestamps the state holds are 33-bit values.
pub open spec fn timestamps_bounded(st: TsState) -> bool {
    &&& (st.pts matches Some(v) ==> 0 <= v < 0x200000000)
    &&& (st.dts matches Some(v) ==> 0 <= v < 0x200000000)
}

fn field13_of(hi: u8, lo: u8) -> (r: u16)
    ensures
        r as int == field13(hi, lo),
{
    let h = hi & 0x1F;
    assert(h <= 0x1F) by (bit_vector)
        requires
            h == hi & 0x1F,
    ;
    (h as u16) * 256 + lo as u16
}

fn field12_of(hi: u8, lo: u8) -> (r: u16)
    ensures
        r as int == field12(hi, lo),
{
    let h = hi & 0x0F;
    assert(h <= 0x0F) by (bit_vector)
        requires
            h == hi & 0x0F,
    ;
    (h as u16) * 256 + lo as u16
}

impl TsParser {
    /// The timestamps held are always 33-bit values.
    #[verifier::type_invariant]
    spec fn bounded(self) -> bool {
        timestamps_bounded(self.state)
    }

    pub fn new() -> (r: Self)
        ensures
            r@ == initial_state(),
    {
        TsParser {
            state: TsState { pmtpid: None, ccpid: None, stream_type: None, pts: None, dts: None },
        }
    }

    pub fn stream_type(&self) -> (r: Option<u8>)
        ensures
            r == self@.stream_type,
    {
        self.state.stream_type
    }

    /// The PMT PID that a PAT announced, if any.
    pub fn pmt_pid(&self) -> (r: Option<u16>)
        ensures
            r == self@.pmtpid,
    {
        self.state.pmtpid
    }

    /// The video PID that a PMT announced, if any.
    pub fn video_pid(&self) -> (r: Option<u16>)
        ensures
            r == self@.ccpid,
    {
        self.state.ccpid
    }

    /// The latest PTS of the video stream, in 90 kHz ticks.
    pub fn pts(&self) -> (r: Option<i64>)
        ensures
            r == self@.pts,
    {
        self.state.pts
    }

    /// The latest DTS of the video stream, in 90 kHz ticks.
    pub fn dts(&self) -> (r: Option<i64>)
        ensures
            r == self@.dts,
    {
        self.state.dts
    }

    /// The 33-bit timestamp in the first five bytes of `data`; 0 where
    /// there are fewer.
    pub fn parse_timestamp(&self, data: &[u8]) -> (r: i64)
        ensures
            data.len() >= 5 ==> r == pes_timestamp(data@, 0),
            data.len() < 5 ==> r == 0,
            0 <= r < 0x200000000,
    {
        if data.len() < 5 {
            return 0;
        }
        let t = (data[0] as u64 / 2 % 8) * 0x40000000 + data[1] as u64 * 0x400000 + (data[2] as u64
            / 2) * 0x8000 + data[3] as u64 * 0x80 + data[4] as u64 / 2;
        t as i64
    }

    /// The timestamp in the five bytes of `packet` at `i`.
    fn timestamp_at(&self, packet: &[u8], i: usize) -> (r: i64)
        requires
            i + 5 <= packet.len(),
        ensures
            r == pes_timestamp(packet@, i as int),
            0 <= r < 0x200000000,
    {
        let field = slice_subrange(packet, i, i + 5);
        assert(pes_timestamp(field@, 0) == pes_timestamp(packet@, i as int));
        self.parse_timestamp(field)
    }

    /// The first H.264/H.265 entry of the PMT stream loop at `start`.
    fn find_video_entry(&self, packet: &[u8], start: usize, remaining: i32) -> (r: Option<
        (u16, u8),
    >)
        requires
            packet.len() <= TS_PACKET_SIZE,
        ensures
            r == pmt_video_entry(packet@, start as int, remaining as int),
    {
        let len: usize = packet.len();
        let mut i: usize = start;
        let mut left: i32 = remaining;
        while left >= 5 && i < len && len - i >= 5
            invariant
                len == packet.len(),
                len <= TS_PACKET_SIZE,
                left <= remaining,
                start <= i,
                pmt_video_entry(packet@, start as int, remaining as int) == pmt_video_entry(
                    packet@,
                    i as int,
                    left as int,
                ),
            decreases len - i,
        {
            let stream_type = packet[i];
            if stream_type == STREAM_TYPE_H264 || stream_type == STREAM_TYPE_H265 {
                return Some((field13_of(packet[i + 1], packet[i + 2]), stream_type));
            }
            let es_info = field12_of(packet[i + 3], packet[i + 4]);
            if i + 5 + es_info as usize > len {
                return None;
            }
            i = i + 5 + es_info as usize;
            left = left - 5 - es_info as i32;
        }
        None
    }

    /// Reads one packet: learns the PMT PID from a PAT and the video PID
    /// from a PMT, and hands out the elementary stream bytes of a video
    /// packet.
    pub fn parse_packet(&mut self, packet: &[u8]) -> (r: TsParseResult)
        ensures
            final(self)@ == ts_next(old(self)@, packet@),
            r@ == ts_output(old(self)@, packet@),
    {
        proof {
            use_type_invariant(&*self);
        }
        if packet.len() != TS_PACKET_SIZE || packet[0] != TS_SYNC_BYTE {
            return TsParseResult::NoPayload;
        }
        let len: usize = packet.len();
        let pusi = packet[1] & 0x40 != 0;
        let pid = field13_of(packet[1], packet[2]);
        let payload = packet[3] & 0x10 != 0;
        let mut i: usize = 4;
        if packet[3] & 0x20 != 0 {
            i = 5 + packet[4] as usize;
        }
        if self.state.ccpid.is_none() {
            if pid == 0 {
                if payload && i < len {
                    let s: usize = i + packet[i] as usize + 1;
                    if s + 12 <= len {
                        self.state.pmtpid = Some(field13_of(packet[s + 10], packet[s + 11]));
                    }
                }
                return TsParseResult::NoPayload;
            }
            match self.state.pmtpid {
                Some(pmt) => {
                    if pid == pmt && payload && i < len {
                        let s: usize = i + packet[i] as usize + 1;
                        if s + 12 <= len && packet[s + 5] & 0x01 != 0 {
                            let section_length = field12_of(packet[s + 1], packet[s + 2]);
                            let program_info = field12_of(packet[s + 10], packet[s + 11]);
                            let remaining: i32 = section_length as i32 - (9 + program_info as i32
                                + 4);
                            let start: usize = s + 12 + program_info as usize;
                            if let Some((video, stream_type)) = self.find_video_entry(
                                packet,
                                start,
                                remaining,
                            ) {
                                self.state.ccpid = Some(video);
                                self.state.stream_type = Some(stream_type);
                            }
                        }
                    }
                },
                None => {},
            }
            return TsParseResult::NoPayload;
        }
        let video = match self.state.ccpid {
            Some(v) => v,
            None => {
                return TsParseResult::NoPayload;
            },
        };
        if !payload || pid != video {
            return TsParseResult::NoPayload;
        }
        if pusi {
            if i + 9 > len {
                return TsParseResult::NoPayload;
            }
            if i + 14 <= len && packet[i + 7] & 0x80 != 0 {
                let pts = self.timestamp_at(packet, i + 9);
                let dts = if packet[i + 7] & 0x40 != 0 && i + 19 <= len {
                    self.timestamp_at(packet, i + 14)
                } else {
                    pts
                };
                self.state.pts = Some(pts);
                self.state.dts = Some(dts);
            }
            i = i + 9 + packet[i + 8] as usize;
        }
        if i >= len {
            return TsParseResult::NoPayload;
        }
        let pts: i64 = match self.state.pts {
            Some(v) => v,
            None => 0,
        };
        let dts: i64 = match self.state.dts {
            Some(v) => v,
            None => 0,
        };
        let data = slice_to_vec(slice_subrange(packet, i, len));
        TsParseResult::Ready { data, dts, cts: pts - dts }
    }
}

/// The elementary stream bytes of one video packet.
#[derive(Debug, Clone)]
pub struct PesPacket {
    pub data: Vec<u8>,
}

/// Packet `k` of a segment.
pub open spec fn packet_at(d: Seq<u8>, k: int) -> Seq<u8> {
    d.subrange(TS_PACKET_SIZE * k, TS_PACKET_SIZE * k + TS_PACKET_SIZE)
}

/// The number of whole packets in a segment.
pub open spec fn packet_count(d: Seq<u8>) -> int {
    d.len() as int / TS_PACKET_SIZE as int
}

/// The demultiplexer's state after the first `n` packets.
pub open spec fn demux_state(d: Seq<u8>, n: int) -> TsState
    decreases n,
{
    if n <= 0 {
        initial_state()
    } else {
        ts_next(demux_state(d, n - 1), packet_at(d, n - 1))
    }
}

/// The video payloads of the first `n` packets, in order.
pub open spec fn demux_payloads(d: Seq<u8>, n: int) -> Seq<Seq<u8>>
    decreases n,
{
    if n <= 0 {
        seq![]
    } else {
        let prev = demux_payloads(d, n - 1);
        match ts_output(demux_state(d, n - 1), packet_at(d, n - 1)) {
            Some(out) => prev.push(out.0),
            None => prev,
        }
    }
}

/// The video payloads of a whole segment.
pub open spec fn segment_payloads(d: Seq<u8>) -> Seq<Seq<u8>> {
    demux_payloads(d, packet_count(d))
}

/// The video stream type that a segment's PMT announces, if any.
pub open spec fn segment_stream_type(d: Seq<u8>) -> Option<u8> {
    demux_state(d, packet_count(d)).stream_type
}

/// Splits a segment into packets and demultiplexes them: the video payloads
/// in order, and the stream type of the video.
pub fn demux_segment(data: &[u8]) -> (r: (Vec<PesPacket>, Option<u8>))
    ensures
        r.0@.map_values(|p: PesPacket| p.data@) == segment_payloads(data@),
        r.1 == segment_stream_type(data@),
{
    let len: usize = data.len();
    let mut parser = TsParser::new();
    let mut packets: Vec<PesPacket> = Vec::new();
    let mut i: usize = 0;
    let mut k: usize = 0;
    while len - i >= TS_PACKET_SIZE
        invariant
            len == data.len(),
            i == TS_PACKET_SIZE * k,
            i <= len,
            k <= packet_count(data@),
            parser@ == demux_state(data@, k as int),
            packets@.map_values(|p: PesPacket| p.data@) == demux_payloads(data@, k as int),
        decreases len - i,
    {
        let ghost before = packets@.map_values(|p: PesPacket| p.data@);
        let packet = slice_subrange(data, i, i + TS_PACKET_SIZE);
        assert(packet@ == packet_at(data@, k as int));
        match parser.parse_packet(packet) {
            TsParseResult::Ready { data: payload, .. } => {
                packets.push(PesPacket { data: payload });
                assert(packets@.map_values(|p: PesPacket| p.data@) =~= demux_payloads(
                    data@,
                    k + 1,
                ));
            },
            TsParseResult::NoPayload => {},
        }
        i = i + TS_PACKET_SIZE;
        k = k + 1;
    }
    assert(k == packet_count(data@));
    let stream_type = parser.stream_type();
    (packets, stream_type)
}

pub struct MpegTsParser;

impl MpegTsParser {
    pub fn new() -> (r: Self) {
        MpegTsParser
    }

    /// The video payloads of a segment, in order.
    pub fn extract_pes_packets(&self, data: &[u8]) -> (r: Vec<PesPacket>)
        ensures
            r@.map_values(|p: PesPacket| p.data@) == segment_payloads(data@),
    {
        let (packets, _) = demux_segment(data);
        packets
    }
}

} // verus!
