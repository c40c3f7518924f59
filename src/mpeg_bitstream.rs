//! H.264/H.265 Annex B framing: a streaming start-code scanner that yields
//! NAL units across input boundaries, emulation-prevention removal, and the
//! SEI message parser.
use vstd::prelude::*;
use vstd::slice::{slice_subrange, slice_to_vec};

verus! {

/// The scanner's buffer never grows past this many bytes.
pub const MAX_NALU_SIZE: usize = 6 * 1024 * 1024;

pub const STREAM_TYPE_H264: u8 = 0x1B;

pub const STREAM_TYPE_H265: u8 = 0x24;

pub const H264_SEI_PACKET: u8 = 6;

pub const H265_SEI_PACKET: u8 = 39;

/// `sei_type_user_data_registered_itu_t_t35`.
pub const SEI_USER_DATA_REGISTERED: u32 = 4;

// ---------------------------------------------------------------------------
// Start-code framing
// ---------------------------------------------------------------------------

/// The three-byte pattern `00 00 01` starts at `i`.
pub open spec fn start_code_at(s: Seq<u8>, i: int) -> bool {
    0 <= i && i + 3 <= s.len() && s[i] == 0 && s[i + 1] == 0 && s[i + 2] == 1
}

/// The leftmost position at or after `i` where `00 00 01` starts, or
/// `s.len()` where there is none.
pub open spec fn next_start_code(s: Seq<u8>, i: int) -> int
    decreases s.len() - i,
{
    if i + 3 > s.len() {
        s.len() as int
    } else if start_code_at(s, i) {
        i
    } else {
        next_start_code(s, i + 1)
    }
}

/// Where the start code whose `00 00 01` is at `q` begins: one byte earlier
/// for the four-byte form `00 00 00 01`, when that zero lies at or after `lo`.
pub open spec fn code_begin(s: Seq<u8>, lo: int, q: int) -> int {
    if q > lo && s[q - 1] == 0 {
        q - 1
    } else {
        q
    }
}

/// The complete NAL units of `s`: each one runs from the byte after a start
/// code to the byte before the next start code.
pub open spec fn nal_units(s: Seq<u8>) -> Seq<Seq<u8>>
    decreases s.len(),
    via nal_units_decreases
{
    let q = next_start_code(s, 0);
    if q + 3 > s.len() {
        seq![]
    } else {
        let e = q + 3;
        let q2 = next_start_code(s, e);
        if q2 + 3 > s.len() {
            seq![]
        } else {
            let b = code_begin(s, e, q2);
            seq![s.subrange(e, b)] + nal_units(s.subrange(b, s.len() as int))
        }
    }
}

#[via_fn]
proof fn nal_units_decreases(s: Seq<u8>) {
    lemma_next_start_code(s, 0);
    let q = next_start_code(s, 0);
    if q + 3 <= s.len() {
        lemma_next_start_code(s, q + 3);
    }
}

/// What stays buffered once the complete NAL units of `s` are taken: from
/// the last start code on, or all of `s` where it holds fewer than two.
pub open spec fn scan_rest(s: Seq<u8>) -> Seq<u8>
    decreases s.len(),
    via scan_rest_decreases
{
    let q = next_start_code(s, 0);
    if q + 3 > s.len() {
        s
    } else {
        let e = q + 3;
        let q2 = next_start_code(s, e);
        if q2 + 3 > s.len() {
            s
        } else {
            scan_rest(s.subrange(code_begin(s, e, q2), s.len() as int))
        }
    }
}

#[via_fn]
proof fn scan_rest_decreases(s: Seq<u8>) {
    lemma_next_start_code(s, 0);
    let q = next_start_code(s, 0);
    if q + 3 <= s.len() {
        lemma_next_start_code(s, q + 3);
    }
}

/// The last NAL unit of a drained buffer: everything after its start code.
pub open spec fn final_unit(r: Seq<u8>) -> Seq<Seq<u8>> {
    let q = next_start_code(r, 0);
    if q + 3 > r.len() {
        seq![]
    } else {
        seq![r.subrange(q + 3, r.len() as int)]
    }
}

/// Every NAL unit of `s` once the input is known to be complete.
pub open spec fn all_units(s: Seq<u8>) -> Seq<Seq<u8>> {
    nal_units(s) + final_unit(scan_rest(s))
}

pub proof fn lemma_next_start_code(s: Seq<u8>, i: int)
    requires
        0 <= i,
    ensures
        i <= s.len() ==> i <= next_start_code(s, i) <= s.len(),
        i > s.len() ==> next_start_code(s, i) == s.len(),
        next_start_code(s, i) + 3 <= s.len() ==> start_code_at(s, next_start_code(s, i)),
        forall|j: int| i <= j < next_start_code(s, i) ==> !start_code_at(s, j),
    decreases s.len() - i,
{
    if i + 3 <= s.len() && !start_code_at(s, i) {
        lemma_next_start_code(s, i + 1);
    }
}

/// A start code found within `b` is found at the same place in `b + y`.
proof fn lemma_next_start_code_prefix(b: Seq<u8>, y: Seq<u8>, i: int)
    requires
        0 <= i,
        next_start_code(b, i) + 3 <= b.len(),
    ensures
        next_start_code(b + y, i) == next_start_code(b, i),
    decreases b.len() - i,
{
    if !start_code_at(b, i) {
        assert(!start_code_at(b + y, i));
        lemma_next_start_code_prefix(b, y, i + 1);
    }
}

/// Units found in `b` stay units of `b + y`, and what follows is what the
/// scanner kept of `b`, followed by `y`.
pub proof fn lemma_units_append(b: Seq<u8>, y: Seq<u8>)
    ensures
        nal_units(b + y) == nal_units(b) + nal_units(scan_rest(b) + y),
        scan_rest(b + y) == scan_rest(scan_rest(b) + y),
    decreases b.len(),
{
    let q = next_start_code(b, 0);
    lemma_next_start_code(b, 0);
    if q + 3 <= b.len() {
        let e = q + 3;
        let q2 = next_start_code(b, e);
        lemma_next_start_code(b, e);
        if q2 + 3 <= b.len() {
            lemma_next_start_code_prefix(b, y, 0);
            lemma_next_start_code_prefix(b, y, e);
            let bg = code_begin(b, e, q2);
            let s = b + y;
            assert(code_begin(s, e, q2) == bg);
            let rest = b.subrange(bg, b.len() as int);
            assert(s.subrange(e, bg) =~= b.subrange(e, bg));
            assert(s.subrange(bg, s.len() as int) =~= rest + y);
            lemma_units_append(rest, y);
            assert(nal_units(b) == seq![b.subrange(e, bg)] + nal_units(rest));
            assert(nal_units(s) == seq![b.subrange(e, bg)] + nal_units(rest + y));
            assert(nal_units(s) =~= nal_units(b) + nal_units(scan_rest(b) + y));
        }
    }
}

/// The leftmost `00 00 01` in `data` at or after `from`, or `data.len()`.
pub fn find_start_code(data: &[u8], from: usize) -> (r: usize)
    ensures
        r == next_start_code(data@, from as int),
{
    let len: usize = data.len();
    let mut i: usize = from;
    while i < len && len - i >= 3
        invariant
            from <= i,
            len == data@.len(),
            next_start_code(data@, from as int) == next_start_code(data@, i as int),
        decreases len - i,
    {
        if data[i] == 0 && data[i + 1] == 0 && data[i + 2] == 1 {
            return i;
        }
        i = i + 1;
    }
    len
}

/// `scan_rest` keeps a suffix of its input.
pub proof fn lemma_scan_rest_suffix(s: Seq<u8>)
    ensures
        scan_rest(s).len() <= s.len(),
        scan_rest(s) == s.subrange(s.len() - scan_rest(s).len(), s.len() as int),
    decreases s.len(),
{
    let q = next_start_code(s, 0);
    lemma_next_start_code(s, 0);
    if q + 3 <= s.len() {
        let e = q + 3;
        let q2 = next_start_code(s, e);
        lemma_next_start_code(s, e);
        if q2 + 3 <= s.len() {
            let b = code_begin(s, e, q2);
            let rest = s.subrange(b, s.len() as int);
            assert(scan_rest(s) == scan_rest(rest));
            lemma_scan_rest_suffix(rest);
            let r = scan_rest(rest);
            assert(r == rest.subrange(rest.len() - r.len(), rest.len() as int));
            assert(rest.subrange(rest.len() - r.len(), rest.len() as int) =~= s.subrange(
                s.len() - r.len(),
                s.len() as int,
            ));
        }
    } else {
        assert(s.subrange(0, s.len() as int) =~= s);
    }
}

// ---------------------------------------------------------------------------
// The scanner's buffer as a function of its input
// ---------------------------------------------------------------------------

/// The buffer after appending `data` to `buf`: where the two together would
/// pass the bound, the partial unit in `buf` is dropped first, and of an
/// input longer than the bound only its last bytes are kept.
pub open spec fn pushed(buf: Seq<u8>, data: Seq<u8>) -> Seq<u8> {
    if data.len() > MAX_NALU_SIZE {
        data.subrange(data.len() - MAX_NALU_SIZE, data.len() as int)
    } else if buf.len() + data.len() > MAX_NALU_SIZE {
        data
    } else {
        buf + data
    }
}

/// The chunks written one after another.
pub open spec fn joined(chunks: Seq<Seq<u8>>) -> Seq<u8>
    decreases chunks.len(),
{
    if chunks.len() == 0 {
        seq![]
    } else {
        joined(chunks.drop_last()) + chunks.last()
    }
}

/// The buffer of a scanner that was given `chunks`, draining after each.
pub open spec fn fed_buffer(chunks: Seq<Seq<u8>>) -> Seq<u8>
    decreases chunks.len(),
{
    if chunks.len() == 0 {
        seq![]
    } else {
        scan_rest(pushed(fed_buffer(chunks.drop_last()), chunks.last()))
    }
}

/// The NAL units that such a scanner has handed out.
pub open spec fn fed_units(chunks: Seq<Seq<u8>>) -> Seq<Seq<u8>>
    decreases chunks.len(),
{
    if chunks.len() == 0 {
        seq![]
    } else {
        fed_units(chunks.drop_last()) + nal_units(
            pushed(fed_buffer(chunks.drop_last()), chunks.last()),
        )
    }
}

/// Streaming equivalence: feeding the chunks one by one, draining after
/// each and flushing at the end, yields the same NAL units, and leaves the
/// same buffer, as feeding their concatenation at once. It holds while the
/// whole input fits the buffer bound, which is never hit then.
pub proof fn lemma_streaming_equivalence(chunks: Seq<Seq<u8>>)
    requires
        joined(chunks).len() <= MAX_NALU_SIZE,
    ensures
        fed_units(chunks) == nal_units(joined(chunks)),
        fed_buffer(chunks) == scan_rest(joined(chunks)),
        fed_units(chunks) + final_unit(fed_buffer(chunks)) == all_units(joined(chunks)),
    decreases chunks.len(),
{
    if chunks.len() == 0 {
        assert(nal_units(seq![]) =~= seq![]) by {
            lemma_next_start_code(seq![], 0);
        }
        assert(scan_rest(seq![]) =~= seq![]) by {
            lemma_next_start_code(seq![], 0);
        }
    } else {
        let prev = chunks.drop_last();
        let c = chunks.last();
        let j = joined(prev);
        lemma_streaming_equivalence(prev);
        lemma_scan_rest_suffix(j);
        assert(pushed(fed_buffer(prev), c) == scan_rest(j) + c);
        lemma_units_append(j, c);
        assert(fed_units(chunks) =~= nal_units(joined(chunks)));
    }
}

// ---------------------------------------------------------------------------
// Emulation prevention
// ---------------------------------------------------------------------------

/// `s` with every `00 00 03` collapsed to `00 00`, scanning left to right.
pub open spec fn strip_epb(s: Seq<u8>) -> Seq<u8>
    decreases s.len(),
{
    if s.len() >= 3 && s[0] == 0 && s[1] == 0 && s[2] == 3 {
        seq![0u8, 0u8] + strip_epb(s.subrange(3, s.len() as int))
    } else if s.len() == 0 {
        seq![]
    } else {
        seq![s[0]] + strip_epb(s.drop_first())
    }
}

/// The emulation-prevention pattern `00 00 03` starts at `i`.
pub open spec fn epb_at(s: Seq<u8>, i: int) -> bool {
    0 <= i && i + 3 <= s.len() && s[i] == 0 && s[i + 1] == 0 && s[i + 2] == 3
}

/// `s` holds the emulation-prevention pattern `00 00 03`.
pub open spec fn has_epb_pattern(s: Seq<u8>) -> bool {
    exists|i: int| #[trigger] epb_at(s, i)
}

/// Removing emulation prevention from a payload that holds no `00 00 03`
/// changes nothing, so doing it twice is doing it once.
pub proof fn lemma_strip_idempotent(s: Seq<u8>)
    requires
        !has_epb_pattern(s),
    ensures
        strip_epb(s) == s,
        strip_epb(strip_epb(s)) == strip_epb(s),
    decreases s.len(),
{
    if s.len() > 0 {
        let t = s.drop_first();
        assert(!has_epb_pattern(t)) by {
            if has_epb_pattern(t) {
                let i = choose|i: int| #[trigger] epb_at(t, i);
                assert(epb_at(s, i + 1));
            }
        }
        if s.len() >= 3 && s[0] == 0 && s[1] == 0 && s[2] == 3 {
            assert(epb_at(s, 0));
        }
        lemma_strip_idempotent(t);
        assert(seq![s[0]] + t =~= s);
    }
}

/// Removes emulation-prevention bytes: each `00 00 03` becomes `00 00`.
pub fn remove_emulation_prevention_bytes(data: &[u8]) -> (r: Vec<u8>)
    ensures
        r@ == strip_epb(data@),
{
    let len: usize = data.len();
    let mut result: Vec<u8> = Vec::new();
    let mut i: usize = 0;
    assert(data@.subrange(0, len as int) =~= data@);
    while i < len
        invariant
            i <= len == data@.len(),
            result@ + strip_epb(data@.subrange(i as int, len as int)) == strip_epb(data@),
        decreases len - i,
    {
        let ghost rest = data@.subrange(i as int, len as int);
        if len - i >= 3 && data[i] == 0 && data[i + 1] == 0 && data[i + 2] == 3 {
            assert(rest.subrange(3, rest.len() as int) =~= data@.subrange(i + 3, len as int));
            result.push(0);
            result.push(0);
            i = i + 3;
            assert(result@ + strip_epb(data@.subrange(i as int, len as int)) =~= strip_epb(
                data@,
            ));
        } else {
            assert(rest.drop_first() =~= data@.subrange(i + 1, len as int));
            result.push(data[i]);
            i = i + 1;
            assert(result@ + strip_epb(data@.subrange(i as int, len as int)) =~= strip_epb(
                data@,
            ));
        }
    }
    assert(data@.subrange(len as int, len as int) =~= seq![]);
    result
}

// ---------------------------------------------------------------------------
// SEI messages
// ---------------------------------------------------------------------------

/// The number of consecutive `0xFF` bytes from `i` on.
pub open spec fn ff_run(s: Seq<u8>, i: int) -> int
    decreases s.len() - i,
{
    if 0 <= i < s.len() && s[i] == 0xFF {
        1 + ff_run(s, i + 1)
    } else {
        0
    }
}

/// `x`, saturated to the range of `u32`.
pub open spec fn sat_u32(x: int) -> u32 {
    if x > u32::MAX {
        u32::MAX
    } else {
        x as u32
    }
}

/// The SEI messages of an SEI unit's body from position `i` on, as (payload
/// type, payload). Type and size are each a run of `0xFF` bytes, 255 apiece,
/// plus the byte that ends the run, and are read on the bytes as they arrive;
/// each payload is then cut out and freed of emulation prevention. A
/// zero-size message contributes nothing; parsing stops where fewer than two
/// bytes are left, or where a run or a payload is cut short.
pub open spec fn sei_messages_from(s: Seq<u8>, i: int) -> Seq<(u32, Seq<u8>)>
    decreases s.len() - i,
    via sei_messages_from_decreases
{
    if i < 0 || i + 1 >= s.len() {
        seq![]
    } else {
        let j = i + ff_run(s, i);
        if j >= s.len() {
            seq![]
        } else {
            let t = sat_u32(255 * ff_run(s, i) + s[j]);
            let j2 = j + 1 + ff_run(s, j + 1);
            if j2 >= s.len() {
                seq![]
            } else {
                let size = sat_u32(255 * ff_run(s, j + 1) + s[j2]);
                let start = j2 + 1;
                if start + size > s.len() {
                    seq![]
                } else if size == 0 {
                    sei_messages_from(s, start)
                } else {
                    seq![(t, strip_epb(s.subrange(start, start + size)))] + sei_messages_from(
                        s,
                        start + size,
                    )
                }
            }
        }
    }
}

#[via_fn]
proof fn sei_messages_from_decreases(s: Seq<u8>, i: int) {
    if 0 <= i && i + 1 < s.len() {
        lemma_ff_run(s, i);
        let j = i + ff_run(s, i);
        if j < s.len() {
            lemma_ff_run(s, j + 1);
        }
    }
}

pub open spec fn sei_messages(s: Seq<u8>) -> Seq<(u32, Seq<u8>)> {
    sei_messages_from(s, 0)
}

proof fn lemma_ff_run(s: Seq<u8>, i: int)
    requires
        0 <= i,
    ensures
        0 <= ff_run(s, i),
        i <= s.len() ==> i + ff_run(s, i) <= s.len(),
        i + ff_run(s, i) < s.len() ==> s[i + ff_run(s, i)] != 0xFF,
    decreases s.len() - i,
{
    if 0 <= i < s.len() && s[i] == 0xFF {
        lemma_ff_run(s, i + 1);
    }
}

/// Reads a `0xFF`-escaped value starting at `i`: the value and the position
/// after the byte that ends it, or `None` where the run reaches the end.
fn read_escaped(data: &[u8], i: usize) -> (r: Option<(u32, usize)>)
    requires
        i <= data.len(),
    ensures
        i + ff_run(data@, i as int) < data.len() <==> r.is_some(),
        r matches Some((v, next)) ==> {
            &&& next == i + ff_run(data@, i as int) + 1
            &&& v == sat_u32(255 * ff_run(data@, i as int) + data@[i + ff_run(data@, i as int)])
        },
{
    let len: usize = data.len();
    let mut acc: u32 = 0;
    let mut j: usize = i;
    proof {
        lemma_ff_run(data@, i as int);
    }
    while j < len && data[j] == 0xFF
        invariant
            i <= j <= len == data.len(),
            ff_run(data@, i as int) == (j - i) + ff_run(data@, j as int),
            acc == sat_u32(255 * (j - i)),
        decreases len - j,
    {
        acc = acc.saturating_add(255);
        j = j + 1;
    }
    proof {
        lemma_ff_run(data@, j as int);
    }
    if j < len {
        Some((acc.saturating_add(data[j] as u32), j + 1))
    } else {
        None
    }
}

/// One SEI message: its payload type and its payload bytes.
#[derive(Debug, Clone)]
pub struct SeiMessage {
    pub payload_type: u32,
    pub data: Vec<u8>,
}

impl View for SeiMessage {
    type V = (u32, Seq<u8>);

    open spec fn view(&self) -> (u32, Seq<u8>) {
        (self.payload_type, self.data@)
    }
}

impl SeiMessage {
    pub fn is_user_data_registered(&self) -> (r: bool)
        ensures
            r == (self.payload_type == SEI_USER_DATA_REGISTERED),
    {
        self.payload_type == SEI_USER_DATA_REGISTERED
    }
}

/// Parses the SEI messages of an SEI unit's body (after the NAL header).
pub fn parse_sei(data: &[u8]) -> (r: Vec<SeiMessage>)
    ensures
        r@.map_values(|m: SeiMessage| m@) == sei_messages(data@),
{
    let len: usize = data.len();
    let mut messages: Vec<SeiMessage> = Vec::new();
    let mut i: usize = 0;
    while i < len && len - i >= 2
        invariant
            i <= len == data.len(),
            sei_messages(data@) == messages@.map_values(|m: SeiMessage| m@) + sei_messages_from(
                data@,
                i as int,
            ),
        decreases len - i,
    {
        let ghost before = messages@.map_values(|m: SeiMessage| m@);
        proof {
            lemma_ff_run(data@, i as int);
        }
        let (payload_type, j) = match read_escaped(data, i) {
            Some(v) => v,
            None => {
                assert(before + seq![] =~= before);
                return messages;
            },
        };
        proof {
            lemma_ff_run(data@, j as int);
        }
        let (size, start) = match read_escaped(data, j) {
            Some(v) => v,
            None => {
                assert(before + seq![] =~= before);
                return messages;
            },
        };
        if size as usize > len - start {
            assert(before + seq![] =~= before);
            return messages;
        }
        let end: usize = start + size as usize;
        if size == 0 {
            i = end;
            continue;
        }
        let payload = remove_emulation_prevention_bytes(slice_subrange(data, start, end));
        let msg = SeiMessage { payload_type, data: payload };
        messages.push(msg);
        assert(messages@.map_values(|m: SeiMessage| m@) =~= before.push(msg@));
        assert(sei_messages_from(data@, i as int) == seq![msg@] + sei_messages_from(
            data@,
            end as int,
        ));
        assert(before.push(msg@) + sei_messages_from(data@, end as int) =~= before + (seq![msg@]
            + sei_messages_from(data@, end as int)));
        i = end;
    }
    assert(sei_messages_from(data@, i as int) =~= seq![]);
    assert(messages@.map_values(|m: SeiMessage| m@) + seq![] =~= messages@.map_values(
        |m: SeiMessage| m@,
    ));
    messages
}

// ---------------------------------------------------------------------------
// From NAL units to SEI messages
// ---------------------------------------------------------------------------

/// The NAL unit is an SEI unit of the given stream type: type 6 in the low
/// five bits for H.264; type 39 in bits 1..=6 of the two-byte header for H.265.
pub open spec fn is_sei_nal(nal: Seq<u8>, stream_type: Option<u8>) -> bool {
    if stream_type == Some(STREAM_TYPE_H264) {
        nal.len() >= 1 && nal[0] & 0x1F == H264_SEI_PACKET
    } else if stream_type == Some(STREAM_TYPE_H265) {
        nal.len() >= 2 && (nal[0] >> 1u8) & 0x3F == H265_SEI_PACKET
    } else {
        false
    }
}

pub open spec fn nal_header_len(stream_type: Option<u8>) -> int {
    if stream_type == Some(STREAM_TYPE_H265) {
        2
    } else {
        1
    }
}

/// The SEI messages of one NAL unit: none unless it is an SEI unit, else
/// those of its body.
pub open spec fn nal_sei_messages(nal: Seq<u8>, stream_type: Option<u8>) -> Seq<(u32, Seq<u8>)> {
    if is_sei_nal(nal, stream_type) {
        sei_messages(nal.subrange(nal_header_len(stream_type), nal.len() as int))
    } else {
        seq![]
    }
}

/// The SEI messages of a sequence of NAL units, in order.
pub open spec fn units_sei_messages(units: Seq<Seq<u8>>, stream_type: Option<u8>) -> Seq<
    (u32, Seq<u8>),
>
    decreases units.len(),
{
    if units.len() == 0 {
        seq![]
    } else {
        units_sei_messages(units.drop_last(), stream_type) + nal_sei_messages(
            units.last(),
            stream_type,
        )
    }
}

/// The SEI messages of one NAL unit.
pub fn nal_sei(nalu: &[u8], stream_type: Option<u8>) -> (r: Vec<SeiMessage>)
    ensures
        r@.map_values(|m: SeiMessage| m@) == nal_sei_messages(nalu@, stream_type),
{
    let (is_h264, is_h265) = match stream_type {
        Some(t) => (t == STREAM_TYPE_H264, t == STREAM_TYPE_H265),
        None => (false, false),
    };
    let is_sei = if is_h264 {
        nalu.len() >= 1 && nalu[0] & 0x1F == H264_SEI_PACKET
    } else if is_h265 {
        nalu.len() >= 2 && (nalu[0] >> 1u8) & 0x3F == H265_SEI_PACKET
    } else {
        false
    };
    if !is_sei {
        let r: Vec<SeiMessage> = Vec::new();
        assert(r@.map_values(|m: SeiMessage| m@) =~= seq![]);
        return r;
    }
    let header: usize = if is_h265 {
        2
    } else {
        1
    };
    let body = slice_subrange(nalu, header, nalu.len());
    parse_sei(body)
}

/// The SEI messages of each unit, concatenated in order.
pub fn units_sei(units: &Vec<Vec<u8>>, stream_type: Option<u8>) -> (r: Vec<SeiMessage>)
    ensures
        r@.map_values(|m: SeiMessage| m@) == units_sei_messages(
            units@.map_values(|u: Vec<u8>| u@),
            stream_type,
        ),
{
    let ghost us = units@.map_values(|u: Vec<u8>| u@);
    let mut out: Vec<SeiMessage> = Vec::new();
    let mut k: usize = 0;
    while k < units.len()
        invariant
            k <= units.len(),
            us == units@.map_values(|u: Vec<u8>| u@),
            out@.map_values(|m: SeiMessage| m@) == units_sei_messages(
                us.subrange(0, k as int),
                stream_type,
            ),
        decreases units.len() - k,
    {
        let ghost before = out@.map_values(|m: SeiMessage| m@);
        let mut part = nal_sei(units[k].as_slice(), stream_type);
        let ghost got = part@.map_values(|m: SeiMessage| m@);
        out.append(&mut part);
        assert(us.subrange(0, k + 1).drop_last() =~= us.subrange(0, k as int));
        assert(out@.map_values(|m: SeiMessage| m@) =~= before + got);
        k = k + 1;
    }
    assert(us.subrange(0, units@.len() as int) =~= us);
    out
}

// ---------------------------------------------------------------------------
// The scanner
// ---------------------------------------------------------------------------

/// A streaming NAL unit scanner: bytes are pushed in chunks of any size, and
/// complete NAL units are drained as soon as the next start code arrives.
pub struct MpegBitstream {
    buffer: Vec<u8>,
    stream_type: Option<u8>,
}

impl MpegBitstream {
    /// The bytes held back: the unit that is not yet known to be complete.
    pub closed spec fn buffered(&self) -> Seq<u8> {
        self.buffer@
    }

    /// The stream type that decides which NAL units are SEI units.
    pub closed spec fn stream(&self) -> Option<u8> {
        self.stream_type
    }

    pub fn new() -> (r: Self)
        ensures
            r.buffered() == Seq::<u8>::empty(),
            r.stream() == None::<u8>,
    {
        MpegBitstream { buffer: Vec::new(), stream_type: None }
    }

    pub fn set_stream_type(&mut self, stream_type: u8)
        ensures
            final(self).stream() == Some(stream_type),
            final(self).buffered() == old(self).buffered(),
    {
        self.stream_type = Some(stream_type);
    }

    pub fn buffered_len(&self) -> (r: usize)
        ensures
            r == self.buffered().len(),
    {
        self.buffer.len()
    }

    /// Appends `data` to the buffer, which never passes `MAX_NALU_SIZE`.
    pub fn push(&mut self, data: &[u8])
        ensures
            final(self).buffered() == pushed(old(self).buffered(), data@),
            final(self).buffered().len() <= MAX_NALU_SIZE,
            final(self).stream() == old(self).stream(),
    {
        if data.len() > MAX_NALU_SIZE {
            self.buffer = slice_to_vec(
                slice_subrange(data, data.len() - MAX_NALU_SIZE, data.len()),
            );
        } else {
            if self.buffer.len() > MAX_NALU_SIZE - data.len() {
                self.buffer.clear();
            }
            self.buffer.extend_from_slice(data);
        }
    }

    /// Takes out every complete NAL unit, in order.
    pub fn drain(&mut self) -> (r: Vec<Vec<u8>>)
        ensures
            r@.map_values(|u: Vec<u8>| u@) == nal_units(old(self).buffered()),
            final(self).buffered() == scan_rest(old(self).buffered()),
            final(self).buffered().len() <= old(self).buffered().len(),
            final(self).stream() == old(self).stream(),
    {
        let ghost s0 = self.buffer@;
        proof {
            lemma_scan_rest_suffix(s0);
        }
        let len: usize = self.buffer.len();
        let mut units: Vec<Vec<u8>> = Vec::new();
        let mut p: usize = 0;
        assert(s0.subrange(0, len as int) =~= s0);
        assert(units@.map_values(|u: Vec<u8>| u@) + nal_units(s0) =~= nal_units(s0));
        loop
            invariant
                p <= len == self.buffer.len(),
                self.buffer@ == s0,
                nal_units(s0) == units@.map_values(|u: Vec<u8>| u@) + nal_units(
                    s0.subrange(p as int, len as int),
                ),
                scan_rest(s0) == scan_rest(s0.subrange(p as int, len as int)),
            ensures
                p <= len == self.buffer.len(),
                self.buffer@ == s0,
                nal_units(s0) == units@.map_values(|u: Vec<u8>| u@),
                scan_rest(s0) == s0.subrange(p as int, len as int),
            decreases len - p,
        {
            let ghost before = units@.map_values(|u: Vec<u8>| u@);
            let s = slice_subrange(self.buffer.as_slice(), p, len);
            let ghost cur = s@;
            proof {
                lemma_next_start_code(cur, 0);
            }
            let q = find_start_code(s, 0);
            if s.len() - q < 3 {
                assert(before + seq![] =~= before);
                break ;
            }
            let e: usize = q + 3;
            proof {
                lemma_next_start_code(cur, e as int);
            }
            let q2 = find_start_code(s, e);
            if s.len() - q2 < 3 {
                assert(before + seq![] =~= before);
                break ;
            }
            let b: usize = if q2 > e && s[q2 - 1] == 0 {
                q2 - 1
            } else {
                q2
            };
            assert(b == code_begin(cur, e as int, q2 as int));
            let unit = slice_to_vec(slice_subrange(s, e, b));
            units.push(unit);
            assert(cur.subrange(b as int, cur.len() as int) =~= s0.subrange(p + b, len as int));
            assert(nal_units(cur) == seq![cur.subrange(e as int, b as int)] + nal_units(
                cur.subrange(b as int, cur.len() as int),
            ));
            assert(units@.map_values(|u: Vec<u8>| u@) =~= before.push(
                cur.subrange(e as int, b as int),
            ));
            assert(before.push(cur.subrange(e as int, b as int)) + nal_units(
                s0.subrange(p + b, len as int),
            ) =~= before + nal_units(cur));
            p = p + b;
        }
        self.buffer = slice_to_vec(slice_subrange(self.buffer.as_slice(), p, len));
        units
    }

    /// Takes out every NAL unit that is left, the last one running to the end
    /// of the buffer, and empties the buffer.
    pub fn flush_units(&mut self) -> (r: Vec<Vec<u8>>)
        ensures
            r@.map_values(|u: Vec<u8>| u@) == all_units(old(self).buffered()),
            final(self).buffered() == Seq::<u8>::empty(),
            final(self).stream() == old(self).stream(),
    {
        let mut units = self.drain();
        let ghost before = units@.map_values(|u: Vec<u8>| u@);
        let ghost rest = self.buffer@;
        let len: usize = self.buffer.len();
        proof {
            lemma_next_start_code(rest, 0);
        }
        let q = find_start_code(self.buffer.as_slice(), 0);
        if len - q >= 3 {
            let tail = slice_to_vec(slice_subrange(self.buffer.as_slice(), q + 3, len));
            units.push(tail);
            assert(units@.map_values(|u: Vec<u8>| u@) =~= before + final_unit(rest));
        } else {
            assert(units@.map_values(|u: Vec<u8>| u@) =~= before + final_unit(rest));
        }
        self.buffer = Vec::new();
        units
    }

    /// Pushes `data` and returns the SEI messages of the NAL units that it
    /// completes.
    pub fn parse(&mut self, data: &[u8]) -> (r: Vec<SeiMessage>)
        ensures
            r@.map_values(|m: SeiMessage| m@) == units_sei_messages(
                nal_units(pushed(old(self).buffered(), data@)),
                old(self).stream(),
            ),
            final(self).buffered() == scan_rest(pushed(old(self).buffered(), data@)),
            final(self).buffered().len() <= MAX_NALU_SIZE,
            final(self).stream() == old(self).stream(),
    {
        self.push(data);
        let units = self.drain();
        units_sei(&units, self.stream_type)
    }

    /// The SEI messages of every NAL unit that is left; empties the buffer.
    pub fn flush(&mut self) -> (r: Vec<SeiMessage>)
        ensures
            r@.map_values(|m: SeiMessage| m@) == units_sei_messages(
                all_units(old(self).buffered()),
                old(self).stream(),
            ),
            final(self).buffered() == Seq::<u8>::empty(),
            final(self).stream() == old(self).stream(),
    {
        let units = self.flush_units();
        units_sei(&units, self.stream_type)
    }

    /// The SEI messages of one NAL unit under this scanner's stream type.
    pub fn process_nalu(&self, nalu: &[u8]) -> (r: Vec<SeiMessage>)
        ensures
            r@.map_values(|m: SeiMessage| m@) == nal_sei_messages(nalu@, self.stream()),
    {
        nal_sei(nalu, self.stream_type)
    }
}

} // verus!
