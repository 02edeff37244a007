//! Which bytes hold a property list whose dates can be read.
use crate::binary_dates::{binary_dates_are_fit, binary_dates_fit};
use crate::xml_dates::{xml_dates_are_fit, xml_dates_fit};
use vstd::prelude::*;

verus! {

/// The bytes are a binary property list: they start with `bplist00`.
pub open spec fn is_binary(data: Seq<u8>) -> bool {
    data.len() >= 8 && data.take(8) == seq![0x62u8, 0x70, 0x6c, 0x69, 0x73, 0x74, 0x30, 0x30]
}

/// Every date in a property list can be read and written again.
pub open spec fn dates_fit(data: Seq<u8>) -> bool {
    if is_binary(data) {
        binary_dates_fit(data)
    } else {
        xml_dates_fit(data, true)
    }
}

fn is_binary_list(data: &[u8]) -> (r: bool)
    ensures
        r == is_binary(data@),
{
    if data.len() < 8 {
        return false;
    }
    let r: bool = data[0] == 0x62 && data[1] == 0x70 && data[2] == 0x6c && data[3] == 0x69 && data[4]
        == 0x73 && data[5] == 0x74 && data[6] == 0x30 && data[7] == 0x30;
    proof {
        let magic = seq![0x62u8, 0x70, 0x6c, 0x69, 0x73, 0x74, 0x30, 0x30];
        let head = data@.take(8);
        if r {
            assert(head =~= magic);
        } else if head == magic {
            assert(head[0] == 0x62 && head[1] == 0x70 && head[2] == 0x6c && head[3] == 0x69);
            assert(head[4] == 0x73 && head[5] == 0x74 && head[6] == 0x30 && head[7] == 0x30);
        }
    }
    r
}

/// Whether every date in a property list can be read and written again.
pub fn dates_are_fit(data: &[u8]) -> (r: bool)
    ensures
        r == dates_fit(data@),
{
    if is_binary_list(data) {
        binary_dates_are_fit(data)
    } else {
        xml_dates_are_fit(data, true)
    }
}

} // verus!
