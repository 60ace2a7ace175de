use vstd::prelude::*;

use crate::json::get_str_field;
use crate::json::json_fields_of;
use crate::json::parse_json;
use crate::numparse::dec_string_of;
use crate::numparse::hex_string_of;
use crate::numparse::i32_dec_of;
use crate::numparse::i32_string_of;
use crate::numparse::lemma_i32_dec_round_trip;
use crate::numparse::lemma_u32_dec_round_trip;
use crate::numparse::lemma_u32_hex_round_trip;
use crate::numparse::parse_i32_dec;
use crate::numparse::parse_u32_dec;
use crate::numparse::parse_u32_hex;
use crate::numparse::u32_dec_of;
use crate::numparse::u32_hex_of;
use crate::unpacker::string_ok;
use crate::unpacker::string_payload;
use crate::unpacker::string_size;
use crate::unpacker::MaybeEnd;
use crate::unpacker::Unpacker;

verus! {

/// Number of bytes in the format identifier that opens every stream.
pub const MAGIC_LEN: usize = 16;

/// The fixed 16-byte format identifier, the byte form of
/// "699db17b-8efb-34ff-b1d8-da6f60c15dd1".
pub const UUID: [u8; MAGIC_LEN] = [
    0x69, 0x9d, 0xb1, 0x7b, 0x8e, 0xfb, 0x34, 0xff, 0xb1, 0xd8, 0xda, 0x6f, 0x60, 0xc1, 0x5d,
    0xd1,
];

/// The format identifier as a byte sequence.
pub open spec fn magic_seq() -> Seq<u8> {
    seq![
        0x69u8, 0x9du8, 0xb1u8, 0x7bu8, 0x8eu8, 0xfbu8, 0x34u8, 0xffu8, 0xb1u8, 0xd8u8, 0xdau8,
        0x6fu8, 0x60u8, 0xc1u8, 0x5du8, 0xd1u8,
    ]
}

/// The format identifier as a vector of bytes.
pub fn magic_bytes() -> (r: Vec<u8>)
    ensures
        r@ == magic_seq(),
{
    let mut v: Vec<u8> = Vec::new();
    v.push(0x69);
    v.push(0x9d);
    v.push(0xb1);
    v.push(0x7b);
    v.push(0x8e);
    v.push(0xfb);
    v.push(0x34);
    v.push(0xff);
    v.push(0xb1);
    v.push(0xd8);
    v.push(0xda);
    v.push(0x6f);
    v.push(0x60);
    v.push(0xc1);
    v.push(0x5d);
    v.push(0xd1);
    proof {
        assert(v@ =~= magic_seq());
    }
    v
}

/// Parsed stream header.
#[derive(Debug, Clone, PartialEq, Eq)]
pub struct Header {
    pub version: i32,
    pub map_name: String,
    pub map_size: u32,
    pub map_crc: u32,
}

/// Error raised when the 16 identifier bytes do not match.
#[derive(Clone, Copy, PartialEq, Eq, Structural, Debug)]
pub struct WrongMagic;

/// Errors of header parsing.
#[derive(Clone, Copy, PartialEq, Eq, Structural, Debug)]
pub enum HeaderError {
    WrongMagic,
    MalformedJson,
    MalformedHeader,
    MalformedVersion,
    MalformedMapSize,
    MalformedMapCrc,
}

impl From<WrongMagic> for HeaderError {
    fn from(_e: WrongMagic) -> (r: HeaderError) {
        HeaderError::WrongMagic
    }
}

impl vstd::std_specs::convert::FromSpecImpl<WrongMagic> for HeaderError {
    open spec fn obeys_from_spec() -> bool {
        true
    }

    open spec fn from_spec(_e: WrongMagic) -> HeaderError {
        HeaderError::WrongMagic
    }
}

impl From<HeaderError> for MaybeEnd<HeaderError> {
    fn from(e: HeaderError) -> (r: MaybeEnd<HeaderError>) {
        MaybeEnd::Fail(e)
    }
}

impl vstd::std_specs::convert::FromSpecImpl<HeaderError> for MaybeEnd<HeaderError> {
    open spec fn obeys_from_spec() -> bool {
        true
    }

    open spec fn from_spec(e: HeaderError) -> MaybeEnd<HeaderError> {
        MaybeEnd::Fail(e)
    }
}

impl From<WrongMagic> for MaybeEnd<WrongMagic> {
    fn from(e: WrongMagic) -> (r: MaybeEnd<WrongMagic>) {
        MaybeEnd::Fail(e)
    }
}

impl vstd::std_specs::convert::FromSpecImpl<WrongMagic> for MaybeEnd<WrongMagic> {
    open spec fn obeys_from_spec() -> bool {
        true
    }

    open spec fn from_spec(e: WrongMagic) -> MaybeEnd<WrongMagic> {
        MaybeEnd::Fail(e)
    }
}

/// Compares two byte vectors of equal length.
fn bytes_eq(a: &Vec<u8>, b: &Vec<u8>) -> (r: bool)
    requires
        a@.len() == b@.len(),
    ensures
        r <==> a@ == b@,
{
    let n: usize = a.len();
    let mut i: usize = 0;
    while i < n
        invariant
            i <= n,
            n == a@.len(),
            a@.len() == b@.len(),
            forall|j: int| 0 <= j < i ==> a@[j] == b@[j],
        decreases n - i,
    {
        if a[i] != b[i] {
            return false;
        }
        i = i + 1;
    }
    proof {
        assert(a@ =~= b@);
    }
    true
}

/// Consumes exactly 16 bytes and checks them against the format identifier.
pub fn read_magic(p: &mut Unpacker) -> (r: Result<(), MaybeEnd<WrongMagic>>)
    requires
        old(p).wf(),
    ensures
        final(p).wf(),
        final(p).bytes() == old(p).bytes(),
        old(p).remaining().len() < MAGIC_LEN ==> {
            &&& (r matches Err(MaybeEnd::UnexpectedEnd))
            &&& final(p).pos() == old(p).pos()
        },
        old(p).remaining().len() >= MAGIC_LEN ==> {
            &&& final(p).pos() == old(p).pos() + MAGIC_LEN
            &&& (r is Ok <==> old(p).remaining().take(MAGIC_LEN as int) == magic_seq())
            &&& (old(p).remaining().take(MAGIC_LEN as int) != magic_seq() ==> (r matches Err(
                MaybeEnd::Fail(WrongMagic))))
        },
{
    let magic: Vec<u8> = match p.read_raw(MAGIC_LEN) {
        Ok(v) => v,
        Err(_) => {
            return Err(MaybeEnd::UnexpectedEnd);
        },
    };
    let expected: Vec<u8> = magic_bytes();
    if bytes_eq(&magic, &expected) {
        Ok(())
    } else {
        Err(MaybeEnd::Fail(WrongMagic))
    }
}

/// A 16-byte prefix that differs from the identifier at any single index is
/// not the identifier, so `read_magic` rejects it with `WrongMagic`.
pub proof fn lemma_magic_altered_byte(s: Seq<u8>, i: int)
    requires
        0 <= i < 16,
        s.len() == 16,
        s[i] != magic_seq()[i],
    ensures
        s != magic_seq(),
{
}

/// Whether the field map of a parsed header document holds a string value
/// under `key`.
pub open spec fn map_has_str(m: Map<Seq<char>, Option<Seq<char>>>, key: Seq<char>) -> bool {
    m.contains_key(key) && m[key] is Some
}

/// Whether a parsed header document holds all four required string fields.
pub open spec fn header_fields_ok(m: Map<Seq<char>, Option<Seq<char>>>) -> bool {
    &&& map_has_str(m, "version"@)
    &&& map_has_str(m, "map_name"@)
    &&& map_has_str(m, "map_size"@)
    &&& map_has_str(m, "map_crc"@)
}

/// What `read_header` returns once the length-prefixed payload `s` is in
/// hand: the first failure of structural parse, field lookup and numeric
/// parses in header order, else the parsed header.
pub open spec fn header_of(s: Seq<u8>, r: Result<Header, MaybeEnd<HeaderError>>) -> bool {
    match json_fields_of(s) {
        None => (r matches Err(MaybeEnd::Fail(HeaderError::MalformedJson))),
        Some(m) => {
            if !header_fields_ok(m) {
                (r matches Err(MaybeEnd::Fail(HeaderError::MalformedHeader)))
            } else {
                let vs = m["version"@].unwrap();
                let ns = m["map_name"@].unwrap();
                let ss = m["map_size"@].unwrap();
                let cs = m["map_crc"@].unwrap();
                if i32_dec_of(vs) is None {
                    (r matches Err(MaybeEnd::Fail(HeaderError::MalformedVersion)))
                } else if u32_dec_of(ss) is None {
                    (r matches Err(MaybeEnd::Fail(HeaderError::MalformedMapSize)))
                } else if u32_hex_of(cs) is None {
                    (r matches Err(MaybeEnd::Fail(HeaderError::MalformedMapCrc)))
                } else {
                    (r matches Ok(h)
                        && h.version as int == i32_dec_of(vs).unwrap()
                        && h.map_name@ == ns
                        && h.map_size as int == u32_dec_of(ss).unwrap()
                        && h.map_crc as int == u32_hex_of(cs).unwrap())
                }
            }
        },
    }
}

/// The parsed header fields round-trip: re-encoding each numeric field in
/// its canonical text form and re-parsing it yields the same value, and the
/// map name is carried verbatim.
pub proof fn lemma_header_round_trip(h: Header)
    ensures
        i32_dec_of(i32_string_of(h.version as int)) == Some(h.version as int),
        u32_dec_of(dec_string_of(h.map_size as int)) == Some(h.map_size as int),
        u32_hex_of(hex_string_of(h.map_crc as int)) == Some(h.map_crc as int),
{
    lemma_i32_dec_round_trip(h.version);
    lemma_u32_dec_round_trip(h.map_size);
    lemma_u32_hex_round_trip(h.map_crc);
}

/// Consumes one length-prefixed JSON payload and parses the four header
/// fields, in header order, stopping at the first malformed one.
pub fn read_header(p: &mut Unpacker) -> (r: Result<Header, MaybeEnd<HeaderError>>)
    requires
        old(p).wf(),
    ensures
        final(p).wf(),
        final(p).bytes() == old(p).bytes(),
        !string_ok(old(p).remaining()) ==> {
            &&& (r matches Err(MaybeEnd::UnexpectedEnd))
            &&& final(p).pos() == old(p).pos()
        },
        string_ok(old(p).remaining()) ==> {
            &&& final(p).pos() == old(p).pos() + string_size(old(p).remaining())
            &&& header_of(string_payload(old(p).remaining()), r)
        },
{
    let data: Vec<u8> = match p.read_string() {
        Ok(v) => v,
        Err(_) => {
            return Err(MaybeEnd::UnexpectedEnd);
        },
    };
    let val = match parse_json(&data) {
        Ok(v) => v,
        Err(_) => {
            return Err(MaybeEnd::Fail(HeaderError::MalformedJson));
        },
    };
    let version_s: String = match get_str_field(&val, "version") {
        Some(s) => s,
        None => {
            return Err(MaybeEnd::Fail(HeaderError::MalformedHeader));
        },
    };
    let map_name: String = match get_str_field(&val, "map_name") {
        Some(s) => s,
        None => {
            return Err(MaybeEnd::Fail(HeaderError::MalformedHeader));
        },
    };
    let map_size_s: String = match get_str_field(&val, "map_size") {
        Some(s) => s,
        None => {
            return Err(MaybeEnd::Fail(HeaderError::MalformedHeader));
        },
    };
    let map_crc_s: String = match get_str_field(&val, "map_crc") {
        Some(s) => s,
        None => {
            return Err(MaybeEnd::Fail(HeaderError::MalformedHeader));
        },
    };
    let version: i32 = match parse_i32_dec(version_s.as_str()) {
        Some(v) => v,
        None => {
            return Err(MaybeEnd::Fail(HeaderError::MalformedVersion));
        },
    };
    let map_size: u32 = match parse_u32_dec(map_size_s.as_str()) {
        Some(v) => v,
        None => {
            return Err(MaybeEnd::Fail(HeaderError::MalformedMapSize));
        },
    };
    let map_crc: u32 = match parse_u32_hex(map_crc_s.as_str()) {
        Some(v) => v,
        None => {
            return Err(MaybeEnd::Fail(HeaderError::MalformedMapCrc));
        },
    };
    Ok(Header { version, map_name, map_size, map_crc })
}

} // verus!
