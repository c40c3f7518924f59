//! The caption extraction pipeline: transport stream packets to video
//! payloads, payloads to NAL units, SEI units to registered user data, and
//! user data to one caption string per SEI message.
use vstd::prelude::*;
use crate::cea608::{lemma_decode_ignores_parity, triplets_caption, triplets_text, Cea608Decoder};
use crate::cea708::{
    cc_block_ok,
    envelope_ok,
    triplet_at,
    triplet_count,
    valid_triplets,
    valid_triplets_upto,
    Cea708Parser,
};
use crate::mpeg_bitstream::{
    all_units,
    fed_buffer,
    fed_units,
    final_unit,
    joined,
    lemma_streaming_equivalence,
    lemma_next_start_code,
    nal_units,
    next_start_code,
    scan_rest,
    units_sei_messages,
    MpegBitstream,
    SeiMessage,
    MAX_NALU_SIZE,
    SEI_USER_DATA_REGISTERED,
};
use crate::mpeg_ts::{demux_segment, segment_payloads, segment_stream_type, PesPacket};
use crate::text::{trim_end, trim_start};

verus! {

/// The caption that one registered-user-data payload carries: the text of
/// its valid field-1/field-2 pairs in order, trimmed, where non-empty.
pub open spec fn payload_caption(d: Seq<u8>) -> Seq<Seq<char>> {
    triplets_caption(valid_triplets(d))
}

/// The captions of a sequence of SEI messages: registered user data only.
pub open spec fn messages_captions(ms: Seq<(u32, Seq<u8>)>) -> Seq<Seq<char>>
    decreases ms.len(),
{
    if ms.len() == 0 {
        seq![]
    } else {
        let m = ms.last();
        if m.0 == SEI_USER_DATA_REGISTERED {
            messages_captions(ms.drop_last()) + payload_caption(m.1)
        } else {
            messages_captions(ms.drop_last())
        }
    }
}

/// How many messages are registered user data with a valid envelope.
pub open spec fn validating_messages(ms: Seq<(u32, Seq<u8>)>) -> int
    decreases ms.len(),
{
    if ms.len() == 0 {
        0
    } else {
        let m = ms.last();
        validating_messages(ms.drop_last()) + if m.0 == SEI_USER_DATA_REGISTERED && envelope_ok(
            m.1,
        ) {
            1int
        } else {
            0int
        }
    }
}

/// The NAL units of a sequence of payloads, fed to one scanner and flushed.
pub open spec fn payload_units(payloads: Seq<Seq<u8>>) -> Seq<Seq<u8>> {
    fed_units(payloads) + final_unit(fed_buffer(payloads))
}

/// The SEI messages of a sequence of payloads.
pub open spec fn payload_messages(payloads: Seq<Seq<u8>>, stream_type: Option<u8>) -> Seq<
    (u32, Seq<u8>),
> {
    units_sei_messages(payload_units(payloads), stream_type)
}

/// The captions of a sequence of video payloads.
pub open spec fn payloads_captions(payloads: Seq<Seq<u8>>, stream_type: Option<u8>) -> Seq<
    Seq<char>,
> {
    messages_captions(payload_messages(payloads, stream_type))
}

/// The SEI messages of a whole segment.
pub open spec fn segment_messages(d: Seq<u8>) -> Seq<(u32, Seq<u8>)> {
    payload_messages(segment_payloads(d), segment_stream_type(d))
}

/// The captions of a whole segment.
pub open spec fn segment_captions(d: Seq<u8>) -> Seq<Seq<char>> {
    payloads_captions(segment_payloads(d), segment_stream_type(d))
}

pub proof fn lemma_units_sei_messages_append(a: Seq<Seq<u8>>, b: Seq<Seq<u8>>, st: Option<u8>)
    ensures
        units_sei_messages(a + b, st) == units_sei_messages(a, st) + units_sei_messages(b, st),
    decreases b.len(),
{
    if b.len() == 0 {
        assert(a + b =~= a);
        assert(units_sei_messages(a, st) + seq![] =~= units_sei_messages(a, st));
    } else {
        assert((a + b).drop_last() =~= a + b.drop_last());
        lemma_units_sei_messages_append(a, b.drop_last(), st);
        assert(units_sei_messages(a + b, st) =~= units_sei_messages(a, st) + units_sei_messages(
            b,
            st,
        ));
    }
}

pub proof fn lemma_messages_captions_append(a: Seq<(u32, Seq<u8>)>, b: Seq<(u32, Seq<u8>)>)
    ensures
        messages_captions(a + b) == messages_captions(a) + messages_captions(b),
    decreases b.len(),
{
    if b.len() == 0 {
        assert(a + b =~= a);
        assert(messages_captions(a) + seq![] =~= messages_captions(a));
    } else {
        assert((a + b).drop_last() =~= a + b.drop_last());
        lemma_messages_captions_append(a, b.drop_last());
        assert(messages_captions(a + b) =~= messages_captions(a) + messages_captions(b));
    }
}

/// A drained buffer holds no complete NAL unit, and draining it again
/// keeps it whole.
pub proof fn lemma_scan_rest_drained(s: Seq<u8>)
    ensures
        nal_units(scan_rest(s)) == Seq::<Seq<u8>>::empty(),
        scan_rest(scan_rest(s)) == scan_rest(s),
    decreases s.len(),
{
    lemma_next_start_code(s, 0);
    let q = next_start_code(s, 0);
    if q + 3 <= s.len() {
        lemma_next_start_code(s, q + 3);
        let q2 = next_start_code(s, q + 3);
        if q2 + 3 <= s.len() {
            let b = if q2 > q + 3 && s[q2 - 1] == 0 {
                q2 - 1
            } else {
                q2
            };
            lemma_scan_rest_drained(s.subrange(b, s.len() as int));
        }
    }
}

proof fn lemma_fed_buffer_drained(ps: Seq<Seq<u8>>)
    ensures
        all_units(fed_buffer(ps)) == final_unit(fed_buffer(ps)),
{
    let buf = fed_buffer(ps);
    if ps.len() == 0 {
        lemma_scan_rest_drained(Seq::<u8>::empty());
        lemma_next_start_code(Seq::<u8>::empty(), 0);
        assert(scan_rest(Seq::<u8>::empty()) == Seq::<u8>::empty());
    } else {
        lemma_scan_rest_drained(
            crate::mpeg_bitstream::pushed(fed_buffer(ps.drop_last()), ps.last()),
        );
    }
    assert(all_units(buf) =~= final_unit(buf));
}

proof fn lemma_payload_caption_bounded(d: Seq<u8>)
    ensures
        payload_caption(d).len() <= (if envelope_ok(d) {
            1int
        } else {
            0int
        }),
{
    if !envelope_ok(d) {
        assert(triplet_count(d) == 0);
        assert(valid_triplets(d) == valid_triplets_upto(d, 0));
        assert(triplets_text(valid_triplets(d)) =~= Seq::<char>::empty());
        assert(trim_start(Seq::<char>::empty()) == Seq::<char>::empty());
        assert(trim_end(Seq::<char>::empty()) == Seq::<char>::empty());
    }
}

/// Each SEI message gives at most one caption, and only when it is
/// registered user data whose envelope validates.
pub proof fn lemma_captions_bounded(ms: Seq<(u32, Seq<u8>)>)
    ensures
        messages_captions(ms).len() <= validating_messages(ms),
    decreases ms.len(),
{
    if ms.len() > 0 {
        lemma_captions_bounded(ms.drop_last());
        lemma_payload_caption_bounded(ms.last().1);
    }
}

/// A segment yields no more captions than it holds registered-user-data
/// SEI messages with a valid envelope.
pub proof fn lemma_segment_captions_bounded(d: Seq<u8>)
    ensures
        segment_captions(d).len() <= validating_messages(segment_messages(d)),
{
    lemma_captions_bounded(segment_messages(d));
}

/// Two triplets that differ at most in the parity bits of their data bytes.
pub open spec fn parity_equivalent(a: (bool, u8, u8, u8), b: (bool, u8, u8, u8)) -> bool {
    &&& a.0 == b.0
    &&& a.1 == b.1
    &&& a.2 & 0x7F == b.2 & 0x7F
    &&& a.3 & 0x7F == b.3 & 0x7F
}

/// Two user-data payloads that differ at most in the parity bits of the
/// `cc_data` bytes, the second and third byte of each triplet.
pub open spec fn differ_in_cc_parity(d1: Seq<u8>, d2: Seq<u8>) -> bool {
    &&& d1.len() == d2.len()
    &&& forall|i: int|
        0 <= i < d1.len() ==> if 10 <= i && (i - 10) % 3 != 0 {
            #[trigger] d1[i] & 0x7F == d2[i] & 0x7F
        } else {
            d1[i] == d2[i]
        }
}

proof fn lemma_triplets_text_parity(t1: Seq<(bool, u8, u8, u8)>, t2: Seq<(bool, u8, u8, u8)>)
    requires
        t1.len() == t2.len(),
        forall|k: int| 0 <= k < t1.len() ==> parity_equivalent(#[trigger] t1[k], t2[k]),
    ensures
        triplets_text(t1) == triplets_text(t2),
    decreases t1.len(),
{
    if t1.len() > 0 {
        let a = t1.last();
        let b = t2.last();
        assert(parity_equivalent(t1[t1.len() - 1], t2[t2.len() - 1]));
        lemma_decode_ignores_parity(a.2, a.3, b.2, b.3);
        assert forall|k: int| 0 <= k < t1.drop_last().len() implies parity_equivalent(
            #[trigger] t1.drop_last()[k],
            t2.drop_last()[k],
        ) by {
            assert(parity_equivalent(t1[k], t2[k]));
        }
        lemma_triplets_text_parity(t1.drop_last(), t2.drop_last());
    }
}

proof fn lemma_valid_triplets_parity(d1: Seq<u8>, d2: Seq<u8>, n: int)
    requires
        differ_in_cc_parity(d1, d2),
        0 <= n,
        n > 0 ==> 10 + 3 * n <= d1.len(),
    ensures
        valid_triplets_upto(d1, n).len() == valid_triplets_upto(d2, n).len(),
        forall|k: int|
            0 <= k < valid_triplets_upto(d1, n).len() ==> parity_equivalent(
                #[trigger] valid_triplets_upto(d1, n)[k],
                valid_triplets_upto(d2, n)[k],
            ),
    decreases n,
{
    if n > 0 {
        lemma_valid_triplets_parity(d1, d2, n - 1);
        let i = 10 + 3 * (n - 1);
        assert((i - 10) % 3 == 0);
        assert((i + 1 - 10) % 3 != 0);
        assert((i + 2 - 10) % 3 != 0);
        assert(d1[i] == d2[i]);
        assert(d1[i + 1] & 0x7F == d2[i + 1] & 0x7F);
        assert(d1[i + 2] & 0x7F == d2[i + 2] & 0x7F);
        assert(parity_equivalent(triplet_at(d1, n - 1), triplet_at(d2, n - 1)));
    }
}

/// A payload's caption does not depend on the parity bits of its
/// `cc_data` bytes.
pub proof fn lemma_caption_ignores_parity(d1: Seq<u8>, d2: Seq<u8>)
    requires
        differ_in_cc_parity(d1, d2),
    ensures
        payload_caption(d1) == payload_caption(d2),
{
    let n = triplet_count(d1);
    if d1.len() >= 10 {
        assert forall|i: int| 0 <= i < 10 implies d1[i] == d2[i] by {
            assert(d1[i] == d2[i]);
        }
    }
    assert(cc_block_ok(d1) == cc_block_ok(d2));
    assert(n == triplet_count(d2));
    if n > 0 {
        assert(10 + 3 * n <= d1.len());
    }
    lemma_valid_triplets_parity(d1, d2, n);
    lemma_triplets_text_parity(valid_triplets(d1), valid_triplets(d2));
}

/// Feeding the payloads one by one to a scanner gives the same SEI messages
/// and captions as feeding their concatenation as one payload, while the
/// whole input fits the buffer bound.
pub proof fn lemma_payload_split_invariant(payloads: Seq<Seq<u8>>, stream_type: Option<u8>)
    requires
        joined(payloads).len() <= MAX_NALU_SIZE,
    ensures
        payload_messages(payloads, stream_type) == payload_messages(
            seq![joined(payloads)],
            stream_type,
        ),
        payloads_captions(payloads, stream_type) == payloads_captions(
            seq![joined(payloads)],
            stream_type,
        ),
{
    let whole = seq![joined(payloads)];
    assert(whole.drop_last() =~= Seq::<Seq<u8>>::empty());
    assert(joined(Seq::<Seq<u8>>::empty()) == Seq::<u8>::empty());
    assert(joined(whole) == joined(whole.drop_last()) + whole.last());
    assert(joined(whole) =~= joined(payloads));
    lemma_streaming_equivalence(payloads);
    lemma_streaming_equivalence(whole);
    assert(payload_units(payloads) == payload_units(whole));
}

/// The caption of one registered-user-data payload, if it carries text.
pub fn caption_from_payload(data: &[u8]) -> (r: Option<String>)
    ensures
        payload_caption(data@).len() == 0 <==> r.is_none(),
        r matches Some(s) ==> payload_caption(data@) == seq![s@],
{
    let parser = Cea708Parser::new();
    let triplets = parser.parse_user_data(data);
    let decoder = Cea608Decoder::new();
    decoder.caption_text(triplets.as_slice())
}

/// Appends the captions of `messages` to `out`.
pub fn push_message_captions(messages: &Vec<SeiMessage>, out: &mut Vec<String>)
    ensures
        final(out)@.map_values(|s: String| s@) == old(out)@.map_values(|s: String| s@)
            + messages_captions(messages@.map_values(|m: SeiMessage| m@)),
{
    let ghost ms = messages@.map_values(|m: SeiMessage| m@);
    let ghost start = out@.map_values(|s: String| s@);
    let mut k: usize = 0;
    while k < messages.len()
        invariant
            k <= messages.len(),
            ms == messages@.map_values(|m: SeiMessage| m@),
            out@.map_values(|s: String| s@) == start + messages_captions(
                ms.subrange(0, k as int),
            ),
        decreases messages.len() - k,
    {
        let ghost before = out@.map_values(|s: String| s@);
        let m = &messages[k];
        assert(ms.subrange(0, k + 1).drop_last() =~= ms.subrange(0, k as int));
        assert(ms.subrange(0, k + 1).last() == m@);
        if m.is_user_data_registered() {
            if let Some(caption) = caption_from_payload(m.data.as_slice()) {
                out.push(caption);
                assert(out@.map_values(|s: String| s@) =~= before + payload_caption(m.data@));
            } else {
                assert(before + payload_caption(m.data@) =~= before);
            }
        }
        assert(out@.map_values(|s: String| s@) =~= start + messages_captions(
            ms.subrange(0, k + 1),
        ));
        k = k + 1;
    }
    assert(ms.subrange(0, messages@.len() as int) =~= ms);
}

/// The captions of a sequence of video payloads, fed in order to one NAL
/// scanner that is flushed at the end.
pub fn captions_from_payloads(packets: &[PesPacket], stream_type: Option<u8>) -> (r: Vec<
    String,
>)
    ensures
        r@.map_values(|s: String| s@) == payloads_captions(
            packets@.map_values(|p: PesPacket| p.data@),
            stream_type,
        ),
{
    let ghost ps = packets@.map_values(|p: PesPacket| p.data@);
    let mut scanner = MpegBitstream::new();
    if let Some(t) = stream_type {
        scanner.set_stream_type(t);
    }
    let mut captions: Vec<String> = Vec::new();
    let mut k: usize = 0;
    assert(ps.subrange(0, 0) =~= Seq::<Seq<u8>>::empty());
    assert(captions@.map_values(|s: String| s@) =~= Seq::<Seq<char>>::empty());
    while k < packets.len()
        invariant
            k <= packets.len(),
            ps == packets@.map_values(|p: PesPacket| p.data@),
            scanner.stream() == stream_type,
            scanner.buffered() == fed_buffer(ps.subrange(0, k as int)),
            captions@.map_values(|s: String| s@) == messages_captions(
                units_sei_messages(fed_units(ps.subrange(0, k as int)), stream_type),
            ),
        decreases packets.len() - k,
    {
        let ghost prefix = ps.subrange(0, k as int);
        let ghost next = ps.subrange(0, k + 1);
        assert(next.drop_last() =~= prefix);
        assert(next.last() == packets[k as int].data@);
        let messages = scanner.parse(packets[k].data.as_slice());
        proof {
            let fresh = nal_units(
                crate::mpeg_bitstream::pushed(fed_buffer(prefix), packets[k as int].data@),
            );
            lemma_units_sei_messages_append(fed_units(prefix), fresh, stream_type);
            lemma_messages_captions_append(
                units_sei_messages(fed_units(prefix), stream_type),
                units_sei_messages(fresh, stream_type),
            );
        }
        push_message_captions(&messages, &mut captions);
        k = k + 1;
    }
    assert(ps.subrange(0, packets@.len() as int) =~= ps);
    let ghost buf = fed_buffer(ps);
    let rest = scanner.flush();
    proof {
        lemma_fed_buffer_drained(ps);
        lemma_units_sei_messages_append(fed_units(ps), final_unit(buf), stream_type);
        lemma_messages_captions_append(
            units_sei_messages(fed_units(ps), stream_type),
            units_sei_messages(final_unit(buf), stream_type),
        );
    }
    push_message_captions(&rest, &mut captions);
    captions
}

/// The captions of one transport stream segment, in the order their SEI
/// messages arrive.
pub fn extract_captions(data: &[u8]) -> (r: Vec<String>)
    ensures
        r@.map_values(|s: String| s@) == segment_captions(data@),
{
    let (packets, stream_type) = demux_segment(data);
    captions_from_payloads(packets.as_slice(), stream_type)
}

} // verus!
