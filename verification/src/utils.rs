//! Helpers for the indicator window.
use crate::text::{encode_utf16, utf16};
use crate::wav::{le16, le32};
use vstd::prelude::*;

verus! {

/// The title of the indicator window.
pub const WINDOW_TITLE: &'static str = "Voca Indicator";

/// A string for the system: UTF-16 with a zero at the end.
pub fn wide_string(s: &str) -> (r: Vec<u16>)
    ensures
        r@ == utf16(s@).push(0),
{
    let mut r: Vec<u16> = encode_utf16(s);
    r.push(0);
    r
}

/// An identifier of a virtual desktop.
#[derive(Debug, PartialEq, Eq, Clone, Copy)]
pub struct Guid {
    pub data1: u32,
    pub data2: u16,
    pub data3: u16,
    pub data4: [u8; 8],
}

impl Guid {
    /// The identifier as it is stored: the numbers with their low bytes first.
    pub open spec fn bytes(self) -> Seq<u8> {
        le32(self.data1 as int) + le16(self.data2 as int) + le16(self.data3 as int) + self.data4@
    }
}

fn read_u16(low: u8, high: u8) -> (r: u16)
    ensures
        le16(r as int) == seq![low, high],
{
    let r: u16 = high as u16 * 256 + low as u16;
    assert(le16(r as int) =~= seq![low, high]);
    r
}

fn read_u32(a: u8, b: u8, c: u8, d: u8) -> (r: u32)
    ensures
        le32(r as int) == seq![a, b, c, d],
{
    let low: u16 = read_u16(a, b);
    let high: u16 = read_u16(c, d);
    let r: u32 = high as u32 * 0x10000 + low as u32;
    assert(r as int / 0x10000 == high);
    assert(le16(r as int) =~= le16(low as int)) by {
        assert(r as int == high * 0x10000 + low);
        assert((high * 0x10000 + low) / 256 == high * 256 + low as int / 256);
    }
    assert(le32(r as int) =~= seq![a, b, c, d]);
    r
}

/// Reads the identifier of a virtual desktop from its stored form of 16 bytes.
pub fn desktop_guid(bytes: &Vec<u8>) -> (r: Option<Guid>)
    ensures
        match r {
            Some(g) => g.bytes() == bytes@,
            None => bytes@.len() != 16,
        },
{
    if bytes.len() != 16 {
        return None;
    }
    let data1: u32 = read_u32(bytes[0], bytes[1], bytes[2], bytes[3]);
    let data2: u16 = read_u16(bytes[4], bytes[5]);
    let data3: u16 = read_u16(bytes[6], bytes[7]);
    let data4: [u8; 8] = [
        bytes[8],
        bytes[9],
        bytes[10],
        bytes[11],
        bytes[12],
        bytes[13],
        bytes[14],
        bytes[15],
    ];
    let g = Guid { data1, data2, data3, data4 };
    assert(g.bytes() =~= bytes@);
    Some(g)
}

/// The stored form has 16 bytes: the three numbers with their low bytes first, then the rest as it
/// is.
pub proof fn stored_form_has_low_bytes_first(g: Guid)
    ensures
        g.bytes().len() == 16,
        g.data1 == g.bytes()[0] + g.bytes()[1] * 0x100 + g.bytes()[2] * 0x10000 + g.bytes()[3]
            * 0x1000000,
        g.data2 == g.bytes()[4] + g.bytes()[5] * 0x100,
        g.data3 == g.bytes()[6] + g.bytes()[7] * 0x100,
        forall|i: int| 0 <= i < 8 ==> #[trigger] g.bytes()[8 + i] == g.data4@[i],
{
    let s = g.bytes();
    assert(s[0] == le16(g.data1 as int)[0]);
    assert(s[1] == le16(g.data1 as int)[1]);
    assert(s[2] == le16(g.data1 as int / 0x10000)[0]);
    assert(s[3] == le16(g.data1 as int / 0x10000)[1]);
    assert(s[4] == le16(g.data2 as int)[0]);
    assert(s[5] == le16(g.data2 as int)[1]);
    assert(s[6] == le16(g.data3 as int)[0]);
    assert(s[7] == le16(g.data3 as int)[1]);
}

/// Two identifiers with the same stored form are the same.
pub proof fn stored_form_is_unique(a: Guid, b: Guid)
    requires
        a.bytes() == b.bytes(),
    ensures
        a.data1 == b.data1,
        a.data2 == b.data2,
        a.data3 == b.data3,
        a.data4@ == b.data4@,
{
    let s = a.bytes();
    assert(s.subrange(8, 16) =~= a.data4@);
    assert(s.subrange(8, 16) =~= b.data4@);
    assert(s[0] == le16(a.data1 as int)[0] && s[0] == le16(b.data1 as int)[0]);
    assert(s[1] == le16(a.data1 as int)[1] && s[1] == le16(b.data1 as int)[1]);
    assert(s[2] == le16(a.data1 as int / 0x10000)[0] && s[2] == le16(b.data1 as int / 0x10000)[0]);
    assert(s[3] == le16(a.data1 as int / 0x10000)[1] && s[3] == le16(b.data1 as int / 0x10000)[1]);
    assert(s[4] == le16(a.data2 as int)[0] && s[4] == le16(b.data2 as int)[0]);
    assert(s[5] == le16(a.data2 as int)[1] && s[5] == le16(b.data2 as int)[1]);
    assert(s[6] == le16(a.data3 as int)[0] && s[6] == le16(b.data3 as int)[0]);
    assert(s[7] == le16(a.data3 as int)[1] && s[7] == le16(b.data3 as int)[1]);
}

} // verus!
