//! The ATSC A/53 `GA94` envelope carried in a registered-user-data SEI
//! message, and the `cc_data` triplets inside it.
use vstd::prelude::*;

verus! {

/// ITU-T T.35 country code of the United States.
pub const T35_COUNTRY_CODE_US: u8 = 0xB5;

/// `user_data_type_code` of caption data.
pub const USER_DATA_TYPE_CODE: u8 = 0x03;

/// One `cc_data` entry: `[marker5|valid|type2][data1][data2]`.
#[derive(Debug, Clone, Copy)]
pub struct CaptionData {
    pub cc_valid: bool,
    pub cc_type: u8,
    pub cc_data: [u8; 2],
}

impl View for CaptionData {
    type V = (bool, u8, u8, u8);

    open spec fn view(&self) -> (bool, u8, u8, u8) {
        (self.cc_valid, self.cc_type, self.cc_data[0], self.cc_data[1])
    }
}

/// The envelope checks: country code, `GA94` at bytes 3..7, type code 3.
pub open spec fn envelope_ok(d: Seq<u8>) -> bool {
    &&& d.len() >= 8
    &&& d[0] == T35_COUNTRY_CODE_US
    &&& d[3] == 0x47
    &&& d[4] == 0x41
    &&& d[5] == 0x39
    &&& d[6] == 0x34
    &&& d[7] == USER_DATA_TYPE_CODE
}

/// The envelope is valid, the flags byte and `em_data` are present, and
/// `process_cc_data_flag` is set.
pub open spec fn cc_block_ok(d: Seq<u8>) -> bool {
    &&& envelope_ok(d)
    &&& d.len() >= 10
    &&& d[8] & 0x40 != 0
}

/// How many triplets are read: `cc_count`, cut to the whole triplets present.
pub open spec fn triplet_count(d: Seq<u8>) -> int {
    if !cc_block_ok(d) {
        0
    } else {
        let declared = (d[8] & 0x1F) as int;
        let present = (d.len() - 10) / 3;
        if declared <= present {
            declared
        } else {
            present
        }
    }
}

/// Triplet `k` of the block, as (valid, type, data1, data2).
pub open spec fn triplet_at(d: Seq<u8>, k: int) -> (bool, u8, u8, u8) {
    let b = d[10 + 3 * k];
    (b & 0x04 != 0, b & 0x03, d[11 + 3 * k], d[12 + 3 * k])
}

/// The valid triplets among the first `n`, in order.
pub open spec fn valid_triplets_upto(d: Seq<u8>, n: int) -> Seq<(bool, u8, u8, u8)>
    decreases n,
{
    if n <= 0 {
        seq![]
    } else {
        let prev = valid_triplets_upto(d, n - 1);
        if triplet_at(d, n - 1).0 {
            prev.push(triplet_at(d, n - 1))
        } else {
            prev
        }
    }
}

/// The valid caption triplets that a user-data payload carries.
pub open spec fn valid_triplets(d: Seq<u8>) -> Seq<(bool, u8, u8, u8)> {
    valid_triplets_upto(d, triplet_count(d))
}

pub fn envelope_valid(data: &[u8]) -> (r: bool)
    ensures
        r == envelope_ok(data@),
{
    data.len() >= 8 && data[0] == T35_COUNTRY_CODE_US && data[3] == 0x47 && data[4] == 0x41
        && data[5] == 0x39 && data[6] == 0x34 && data[7] == USER_DATA_TYPE_CODE
}

pub struct Cea708Parser;

impl Cea708Parser {
    pub fn new() -> (r: Self) {
        Cea708Parser
    }

    /// The valid `cc_data` triplets of a user-data payload; none where the
    /// envelope does not validate or `process_cc_data_flag` is clear.
    pub fn parse_user_data(&self, data: &[u8]) -> (r: Vec<CaptionData>)
        ensures
            r@.map_values(|c: CaptionData| c@) == valid_triplets(data@),
            !envelope_ok(data@) ==> r@.len() == 0,
    {
        let mut captions: Vec<CaptionData> = Vec::new();
        if !envelope_valid(data) || data.len() < 10 || data[8] & 0x40 == 0 {
            assert(captions@.map_values(|c: CaptionData| c@) =~= valid_triplets(data@));
            return captions;
        }
        let declared = data[8] & 0x1F;
        let present = (data.len() - 10) / 3;
        let count: usize = if (declared as usize) <= present {
            declared as usize
        } else {
            present
        };
        assert(count == triplet_count(data@));
        let mut k: usize = 0;
        while k < count
            invariant
                k <= count == triplet_count(data@),
                cc_block_ok(data@),
                10 + 3 * count <= data.len(),
                captions@.map_values(|c: CaptionData| c@) == valid_triplets_upto(data@, k as int),
            decreases count - k,
        {
            let i = 10 + 3 * k;
            let b = data[i];
            let entry = CaptionData {
                cc_valid: b & 0x04 != 0,
                cc_type: b & 0x03,
                cc_data: [data[i + 1], data[i + 2]],
            };
            assert(entry@ == triplet_at(data@, k as int));
            if entry.cc_valid {
                captions.push(entry);
            }
            assert(captions@.map_values(|c: CaptionData| c@) =~= valid_triplets_upto(
                data@,
                k + 1,
            ));
            k = k + 1;
        }
        captions
    }
}

} // verus!
