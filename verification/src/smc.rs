//! System Management Controller: key codes, request frames and value decoding.
use vstd::prelude::*;
use vstd::string::StringSliceAdditionalSpecFns;
use vstd::utf8::{decode_utf8, valid_utf8};

use crate::text::{chars_of, eq_lit, trim, trim_ws, utf8_lossy, utf8_lossy_string, utf8_str};

verus! {

broadcast use vstd::array::group_array_axioms;

/// The big-endian 32-bit code of four key bytes.
pub open spec fn code_of(b0: u8, b1: u8, b2: u8, b3: u8) -> nat {
    (b0 as nat) * 0x100_0000 + (b1 as nat) * 0x1_0000 + (b2 as nat) * 0x100 + (b3 as nat)
}

/// The four bytes of a code, most significant first.
pub open spec fn bytes_of_code(v: u32) -> [u8; 4] {
    [(v / 0x100_0000) as u8, ((v / 0x1_0000) % 0x100) as u8, ((v / 0x100) % 0x100) as u8, (v % 0x100) as u8]
}

/// Packs the first four bytes of a key name into its big-endian code
/// (`"PPBR"` becomes `0x50504252`).
pub fn str_to_u32(s: &str) -> (r: u32)
    requires
        s.spec_bytes().len() >= 4,
    ensures
        r == code_of(s.spec_bytes()[0], s.spec_bytes()[1], s.spec_bytes()[2], s.spec_bytes()[3]),
{
    let bytes = s.as_bytes();
    pack_code(bytes[0], bytes[1], bytes[2], bytes[3])
}

fn pack_code(b0: u8, b1: u8, b2: u8, b3: u8) -> (r: u32)
    ensures
        r == code_of(b0, b1, b2, b3),
{
    let r = ((b0 as u32) << 24) | ((b1 as u32) << 16) | ((b2 as u32) << 8) | (b3 as u32);
    assert(r == code_of(b0, b1, b2, b3)) by (bit_vector)
        requires
            r == ((b0 as u32) << 24) | ((b1 as u32) << 16) | ((b2 as u32) << 8) | (b3 as u32),
    ;
    r
}

/// Unpacks a code into its four bytes, most significant first.
pub fn u32_to_bytes(val: u32) -> (r: [u8; 4])
    ensures
        r == bytes_of_code(val),
{
    let r = [(val >> 24) as u8, (val >> 16) as u8, (val >> 8) as u8, val as u8];
    assert((val >> 24) as u8 == (val / 0x100_0000) as u8) by (bit_vector);
    assert((val >> 16) as u8 == ((val / 0x1_0000) % 0x100) as u8) by (bit_vector);
    assert((val >> 8) as u8 == ((val / 0x100) % 0x100) as u8) by (bit_vector);
    assert(val as u8 == (val % 0x100) as u8) by (bit_vector);
    assert(r@ == bytes_of_code(val)@);
    r
}

/// Packing four bytes and unpacking the code gives the same bytes back.
pub proof fn lemma_code_bytes_roundtrip(b0: u8, b1: u8, b2: u8, b3: u8)
    ensures
        code_of(b0, b1, b2, b3) <= u32::MAX,
        bytes_of_code(code_of(b0, b1, b2, b3) as u32) == [b0, b1, b2, b3],
{
    let v = code_of(b0, b1, b2, b3) as u32;
    assert(code_of(b0, b1, b2, b3) < 0x1_0000_0000) by (nonlinear_arith);
    assert((v / 0x100_0000) as u8 == b0 && ((v / 0x1_0000) % 0x100) as u8 == b1
        && ((v / 0x100) % 0x100) as u8 == b2 && (v % 0x100) as u8 == b3) by (nonlinear_arith)
        requires
            v == (b0 as u32) * 0x100_0000 + (b1 as u32) * 0x1_0000 + (b2 as u32) * 0x100 + (b3 as u32),
    ;
    assert(bytes_of_code(v)@ =~= [b0, b1, b2, b3]@);
}

/// Unpacking a code and packing its bytes gives the same code back.
pub proof fn lemma_bytes_code_roundtrip(v: u32)
    ensures
        ({
            let b = bytes_of_code(v);
            code_of(b[0], b[1], b[2], b[3]) == v
        }),
{
    let b = bytes_of_code(v);
    assert(code_of(b[0], b[1], b[2], b[3]) == v) by (nonlinear_arith)
        requires
            b[0] == (v / 0x100_0000) as u8,
            b[1] == ((v / 0x1_0000) % 0x100) as u8,
            b[2] == ((v / 0x100) % 0x100) as u8,
            b[3] == (v % 0x100) as u8,
    ;
}

pub const KERNEL_INDEX_SMC: i32 = 2;
pub const CMD_READ_BYTES: u8 = 5;
pub const CMD_WRITE_BYTES: u8 = 6;
pub const CMD_READ_KEYBYINDEX: u8 = 8;
pub const CMD_READ_KEYINFO: u8 = 9;
/// `KERN_INVALID_ARGUMENT`, returned when a write does not match the key's size.
pub const KERN_INVALID_ARGUMENT: i32 = 4;

/// The version block of an SMC request frame.
#[derive(Debug, Copy, Clone)]
pub struct DataVers {
    pub major: u8,
    pub minor: u8,
    pub build: u8,
    pub reserved: [u8; 1],
    pub release: u16,
}

/// `n` zero bytes.
pub open spec fn zeros(n: nat) -> Seq<u8> {
    Seq::new(n, |i: int| 0u8)
}

/// A version block of zeros.
pub open spec fn zero_vers(v: DataVers) -> bool {
    v.major == 0 && v.minor == 0 && v.build == 0 && v.reserved@ == zeros(1) && v.release == 0
}

impl Default for DataVers {
    fn default() -> (r: Self)
        ensures
            zero_vers(r),
    {
        let reserved = [0u8; 1];
        assert(reserved@ =~= zeros(1));
        DataVers { major: 0, minor: 0, build: 0, reserved, release: 0 }
    }
}

/// The power-limit block of an SMC request frame.
#[derive(Debug, Copy, Clone, PartialEq, Eq, Structural)]
pub struct PLimitData {
    pub version: u16,
    pub length: u16,
    pub cpu_plimit: u32,
    pub gpu_plimit: u32,
    pub mem_plimit: u32,
}

impl Default for PLimitData {
    fn default() -> (r: Self)
        ensures
            r == (PLimitData { version: 0, length: 0, cpu_plimit: 0, gpu_plimit: 0, mem_plimit: 0 }),
    {
        PLimitData { version: 0, length: 0, cpu_plimit: 0, gpu_plimit: 0, mem_plimit: 0 }
    }
}

/// What the SMC says about a key: its value's size, its type code, its
/// attributes.
#[derive(Debug, Copy, Clone, PartialEq, Eq, Structural)]
pub struct KeyInfo {
    pub data_size: u32,
    pub data_type: u32,
    pub data_attributes: u8,
}

impl Default for KeyInfo {
    fn default() -> (r: Self)
        ensures
            r == (KeyInfo { data_size: 0, data_type: 0, data_attributes: 0 }),
    {
        KeyInfo { data_size: 0, data_type: 0, data_attributes: 0 }
    }
}

/// The frame exchanged with the SMC user client, both as request and reply.
#[derive(Debug, Copy, Clone)]
pub struct SMCKeyData {
    pub key: u32,
    pub vers: DataVers,
    pub plimit_data: PLimitData,
    pub key_info: KeyInfo,
    pub result: u8,
    pub status: u8,
    pub data8: u8,
    pub data32: u32,
    pub bytes: [u8; 32],
}

/// `r` is a frame with every field zero except the key, the command and the
/// command's arguments.
pub open spec fn is_frame(r: SMCKeyData, key: u32, data8: u8, data32: u32, key_info: KeyInfo, bytes: Seq<u8>) -> bool {
    &&& r.key == key
    &&& zero_vers(r.vers)
    &&& r.plimit_data == (PLimitData { version: 0, length: 0, cpu_plimit: 0, gpu_plimit: 0, mem_plimit: 0 })
    &&& r.key_info == key_info
    &&& r.result == 0
    &&& r.status == 0
    &&& r.data8 == data8
    &&& r.data32 == data32
    &&& r.bytes@ == bytes
}

pub open spec fn no_info() -> KeyInfo {
    KeyInfo { data_size: 0, data_type: 0, data_attributes: 0 }
}

impl Default for SMCKeyData {
    fn default() -> (r: Self)
        ensures
            is_frame(r, 0, 0, 0, no_info(), zeros(32)),
    {
        let bytes = [0u8; 32];
        assert(bytes@ =~= zeros(32));
        SMCKeyData {
            key: 0,
            vers: DataVers::default(),
            plimit_data: PLimitData::default(),
            key_info: KeyInfo::default(),
            result: 0,
            status: 0,
            data8: 0,
            data32: 0,
            bytes,
        }
    }
}

impl SMCKeyData {
    /// The request for a key's size and type.
    pub fn key_info_request(key: u32) -> (r: SMCKeyData)
        ensures
            is_frame(r, key, CMD_READ_KEYINFO, 0, no_info(), zeros(32)),
    {
        let mut r = SMCKeyData::default();
        r.key = key;
        r.data8 = CMD_READ_KEYINFO;
        r
    }

    /// The request for a key's value bytes.
    pub fn read_request(key: u32, key_info: KeyInfo) -> (r: SMCKeyData)
        ensures
            is_frame(r, key, CMD_READ_BYTES, 0, key_info, zeros(32)),
    {
        let mut r = SMCKeyData::default();
        r.key = key;
        r.data8 = CMD_READ_BYTES;
        r.key_info = key_info;
        r
    }

    /// The request that writes a key's value bytes.
    pub fn write_request(key: u32, key_info: KeyInfo, bytes: [u8; 32]) -> (r: SMCKeyData)
        ensures
            is_frame(r, key, CMD_WRITE_BYTES, 0, key_info, bytes@),
    {
        let mut r = SMCKeyData::default();
        r.key = key;
        r.data8 = CMD_WRITE_BYTES;
        r.key_info = key_info;
        r.bytes = bytes;
        r
    }

    /// The request for the name of the key at an index.
    pub fn index_request(index: u32) -> (r: SMCKeyData)
        ensures
            is_frame(r, 0, CMD_READ_KEYBYINDEX, index, no_info(), zeros(32)),
    {
        let mut r = SMCKeyData::default();
        r.data8 = CMD_READ_KEYBYINDEX;
        r.data32 = index;
        r
    }
}

/// The value types the SMC names in a key's type code.
#[derive(Debug, Copy, Clone, PartialEq, Eq, Structural)]
pub enum SMCType {
    CH8,
    FDS,
    FLAG,
    FLT,
    FP2E,
    FP4C,
    FP5B,
    FP88,
    FPE2,
    SI16,
    SI32,
    SI8,
    SP4B,
    SP78,
    UI16,
    UI32,
    UI8,
    IOFT,
    HEX,
}

/// The type a (trimmed) type code names.
pub open spec fn smc_type_named(s: Seq<char>) -> Option<SMCType> {
    if s == "ch8*"@ { Some(SMCType::CH8) }
    else if s == "{fds"@ { Some(SMCType::FDS) }
    else if s == "flag"@ { Some(SMCType::FLAG) }
    else if s == "flt"@ { Some(SMCType::FLT) }
    else if s == "fp2e"@ { Some(SMCType::FP2E) }
    else if s == "fp4c"@ { Some(SMCType::FP4C) }
    else if s == "fp5b"@ { Some(SMCType::FP5B) }
    else if s == "fp88"@ { Some(SMCType::FP88) }
    else if s == "fpe2"@ { Some(SMCType::FPE2) }
    else if s == "si16"@ { Some(SMCType::SI16) }
    else if s == "si32"@ { Some(SMCType::SI32) }
    else if s == "si8"@ { Some(SMCType::SI8) }
    else if s == "sp4b"@ { Some(SMCType::SP4B) }
    else if s == "sp78"@ { Some(SMCType::SP78) }
    else if s == "ui16"@ { Some(SMCType::UI16) }
    else if s == "ui32"@ { Some(SMCType::UI32) }
    else if s == "ui8"@ { Some(SMCType::UI8) }
    else if s == "ioft"@ { Some(SMCType::IOFT) }
    else if s == "_hex"@ { Some(SMCType::HEX) }
    else { None }
}

impl SMCType {
    /// The type a type code names, if it is one of the known codes.
    pub fn parse(s: &[char]) -> (r: Option<SMCType>)
        ensures
            r == smc_type_named(s@),
    {
        if eq_lit(s, "ch8*") { Some(SMCType::CH8) }
        else if eq_lit(s, "{fds") { Some(SMCType::FDS) }
        else if eq_lit(s, "flag") { Some(SMCType::FLAG) }
        else if eq_lit(s, "flt") { Some(SMCType::FLT) }
        else if eq_lit(s, "fp2e") { Some(SMCType::FP2E) }
        else if eq_lit(s, "fp4c") { Some(SMCType::FP4C) }
        else if eq_lit(s, "fp5b") { Some(SMCType::FP5B) }
        else if eq_lit(s, "fp88") { Some(SMCType::FP88) }
        else if eq_lit(s, "fpe2") { Some(SMCType::FPE2) }
        else if eq_lit(s, "si16") { Some(SMCType::SI16) }
        else if eq_lit(s, "si32") { Some(SMCType::SI32) }
        else if eq_lit(s, "si8") { Some(SMCType::SI8) }
        else if eq_lit(s, "sp4b") { Some(SMCType::SP4B) }
        else if eq_lit(s, "sp78") { Some(SMCType::SP78) }
        else if eq_lit(s, "ui16") { Some(SMCType::UI16) }
        else if eq_lit(s, "ui32") { Some(SMCType::UI32) }
        else if eq_lit(s, "ui8") { Some(SMCType::UI8) }
        else if eq_lit(s, "ioft") { Some(SMCType::IOFT) }
        else if eq_lit(s, "_hex") { Some(SMCType::HEX) }
        else { None }
    }
}

impl std::str::FromStr for SMCType {
    type Err = ();

    fn from_str(s: &str) -> (r: Result<Self, ()>)
        ensures
            r == match smc_type_named(s@) {
                Some(t) => Ok::<SMCType, ()>(t),
                None => Err::<SMCType, ()>(()),
            },
    {
        let c = chars_of(s);
        match SMCType::parse(&c) {
            Some(t) => Ok(t),
            None => Err(()),
        }
    }
}

/// The scale of a fixed-point type code: the divisor and whether the raw
/// value is signed. Codes outside the table give divisor 0, unsigned.
pub open spec fn fixed_point_scale(fp: Seq<char>) -> (u32, bool) {
    if fp == "fp1f"@ { (32768, false) }
    else if fp == "fp2e"@ { (16384, false) }
    else if fp == "fp3d"@ { (8192, false) }
    else if fp == "fp4c"@ { (4096, false) }
    else if fp == "fp5b"@ { (2048, false) }
    else if fp == "fp6a"@ { (1024, false) }
    else if fp == "fp79"@ { (512, false) }
    else if fp == "fp88"@ { (256, false) }
    else if fp == "fpa6"@ { (64, false) }
    else if fp == "fpc4"@ { (16, false) }
    else if fp == "fpe2"@ { (4, false) }
    else if fp == "sp1e"@ { (16384, true) }
    else if fp == "sp2d"@ { (8192, true) }
    else if fp == "sp3c"@ { (4096, true) }
    else if fp == "sp4b"@ { (2048, true) }
    else if fp == "sp5a"@ { (1024, true) }
    else if fp == "sp69"@ { (512, true) }
    else if fp == "sp78"@ { (256, true) }
    else if fp == "sp87"@ { (128, true) }
    else if fp == "sp96"@ { (64, true) }
    else if fp == "spa5"@ { (32, true) }
    else if fp == "spb4"@ { (16, true) }
    else if fp == "spf0"@ { (1, true) }
    else { (0, false) }
}

pub fn fixed_point_params(fp: &[char]) -> (r: (u32, bool))
    ensures
        r == fixed_point_scale(fp@),
{
    if eq_lit(fp, "fp1f") { (32768, false) }
    else if eq_lit(fp, "fp2e") { (16384, false) }
    else if eq_lit(fp, "fp3d") { (8192, false) }
    else if eq_lit(fp, "fp4c") { (4096, false) }
    else if eq_lit(fp, "fp5b") { (2048, false) }
    else if eq_lit(fp, "fp6a") { (1024, false) }
    else if eq_lit(fp, "fp79") { (512, false) }
    else if eq_lit(fp, "fp88") { (256, false) }
    else if eq_lit(fp, "fpa6") { (64, false) }
    else if eq_lit(fp, "fpc4") { (16, false) }
    else if eq_lit(fp, "fpe2") { (4, false) }
    else if eq_lit(fp, "sp1e") { (16384, true) }
    else if eq_lit(fp, "sp2d") { (8192, true) }
    else if eq_lit(fp, "sp3c") { (4096, true) }
    else if eq_lit(fp, "sp4b") { (2048, true) }
    else if eq_lit(fp, "sp5a") { (1024, true) }
    else if eq_lit(fp, "sp69") { (512, true) }
    else if eq_lit(fp, "sp78") { (256, true) }
    else if eq_lit(fp, "sp87") { (128, true) }
    else if eq_lit(fp, "sp96") { (64, true) }
    else if eq_lit(fp, "spa5") { (32, true) }
    else if eq_lit(fp, "spb4") { (16, true) }
    else if eq_lit(fp, "spf0") { (1, true) }
    else { (0, false) }
}

/// Two bytes read little-endian.
pub open spec fn le16(b0: u8, b1: u8) -> nat {
    b0 as nat + b1 as nat * 0x100
}

/// Four bytes read little-endian.
pub open spec fn le32(b0: u8, b1: u8, b2: u8, b3: u8) -> nat {
    b0 as nat + b1 as nat * 0x100 + b2 as nat * 0x1_0000 + b3 as nat * 0x100_0000
}

/// A raw SMC value, ready to be turned into a number: an IEEE single given by
/// its bits, an unsigned integer, or a fixed-point integer with its divisor.
#[derive(Debug, Copy, Clone, PartialEq, Eq, Structural)]
pub enum SmcReading {
    Float(u32),
    Unsigned(u32),
    Fixed { raw: u16, divisor: u32, signed: bool },
}

/// A value read from a key: its name, size, type code and bytes.
#[derive(Debug, Copy, Clone)]
pub struct SMCVal {
    pub key: [u8; 4],
    pub data_size: u32,
    pub data_type: [u8; 4],
    pub bytes: [u8; 32],
}

impl Default for SMCVal {
    fn default() -> (r: Self)
        ensures
            r.key@ == zeros(4) && r.data_size == 0 && r.data_type@ == zeros(4) && r.bytes@ == zeros(32),
    {
        let key = [0u8; 4];
        let data_type = [0u8; 4];
        let bytes = [0u8; 32];
        assert(key@ =~= zeros(4));
        assert(data_type@ =~= zeros(4));
        assert(bytes@ =~= zeros(32));
        SMCVal { key, data_size: 0, data_type, bytes }
    }
}

/// The type code as text: the four bytes decoded as UTF-8 (nothing if they
/// are not valid UTF-8) and trimmed.
pub open spec fn type_code_text(t: [u8; 4]) -> Seq<char> {
    if valid_utf8(t@) {
        trim_ws(decode_utf8(t@))
    } else {
        Seq::empty()
    }
}

/// How a value's bytes read: `flt` as the bits of a little-endian single,
/// `ui8`/`ui16`/`ui32` as little-endian unsigned integers, `ioft` as a
/// little-endian 16-bit fixed-point number scaled by its own type code's
/// entry (`ioft` has none, so the divisor is 0); any other type, none.
pub open spec fn reading_of(v: SMCVal) -> Option<SmcReading> {
    let b = v.bytes;
    match smc_type_named(type_code_text(v.data_type)) {
        Some(SMCType::FLT) => Some(SmcReading::Float(le32(b[0], b[1], b[2], b[3]) as u32)),
        Some(SMCType::UI8) => Some(SmcReading::Unsigned(b[0] as u32)),
        Some(SMCType::UI16) => Some(SmcReading::Unsigned(le16(b[0], b[1]) as u32)),
        Some(SMCType::UI32) => Some(SmcReading::Unsigned(le32(b[0], b[1], b[2], b[3]) as u32)),
        Some(SMCType::IOFT) => {
            let (divisor, signed) = fixed_point_scale(type_code_text(v.data_type));
            Some(SmcReading::Fixed { raw: le16(b[0], b[1]) as u16, divisor, signed })
        },
        _ => None,
    }
}

fn read_le16(b0: u8, b1: u8) -> (r: u16)
    ensures
        r == le16(b0, b1),
{
    let r = (b0 as u16) | ((b1 as u16) << 8);
    assert(r == le16(b0, b1)) by (bit_vector)
        requires
            r == (b0 as u16) | ((b1 as u16) << 8),
    ;
    r
}

fn read_le32(b0: u8, b1: u8, b2: u8, b3: u8) -> (r: u32)
    ensures
        r == le32(b0, b1, b2, b3),
{
    let r = (b0 as u32) | ((b1 as u32) << 8) | ((b2 as u32) << 16) | ((b3 as u32) << 24);
    assert(r == le32(b0, b1, b2, b3)) by (bit_vector)
        requires
            r == (b0 as u32) | ((b1 as u32) << 8) | ((b2 as u32) << 16) | ((b3 as u32) << 24),
    ;
    r
}

impl SMCVal {
    /// The type code as text.
    pub fn data_type_str(&self) -> (r: Vec<char>)
        ensures
            r@ == type_code_text(self.data_type),
    {
        match utf8_str(&self.data_type) {
            Some(s) => {
                let c = chars_of(s);
                trim(&c)
            },
            None => Vec::new(),
        }
    }

    /// The raw reading this value holds, by its type code.
    pub fn reading(&self) -> (r: Option<SmcReading>)
        ensures
            r == reading_of(*self),
    {
        let t = self.data_type_str();
        let b = self.bytes;
        match SMCType::parse(&t) {
            Some(SMCType::FLT) => Some(SmcReading::Float(read_le32(b[0], b[1], b[2], b[3]))),
            Some(SMCType::UI8) => Some(SmcReading::Unsigned(b[0] as u32)),
            Some(SMCType::UI16) => Some(SmcReading::Unsigned(read_le16(b[0], b[1]) as u32)),
            Some(SMCType::UI32) => Some(SmcReading::Unsigned(read_le32(b[0], b[1], b[2], b[3]))),
            Some(SMCType::IOFT) => {
                let (divisor, signed) = fixed_point_params(&t);
                Some(SmcReading::Fixed { raw: read_le16(b[0], b[1]), divisor, signed })
            },
            _ => None,
        }
    }

    /// The value a read request's reply carries for `key`: the key's name and
    /// size and type as the key info gives them, the bytes as the reply gives
    /// them.
    pub fn from_reply(key: &str, key_info: KeyInfo, reply: &SMCKeyData) -> (r: SMCVal)
        requires
            key.spec_bytes().len() == 4,
        ensures
            r.key@ == key.spec_bytes(),
            r.data_size == key_info.data_size,
            r.data_type == bytes_of_code(key_info.data_type),
            r.bytes == reply.bytes,
    {
        let kb = key.as_bytes();
        let k = [kb[0], kb[1], kb[2], kb[3]];
        assert(k@ =~= key.spec_bytes());
        SMCVal { key: k, data_size: key_info.data_size, data_type: u32_to_bytes(key_info.data_type), bytes: reply.bytes }
    }

    /// The request that writes this value, if its size is the key's size;
    /// `KERN_INVALID_ARGUMENT` otherwise.
    pub fn write_frame(&self, key_info: KeyInfo) -> (r: Result<SMCKeyData, i32>)
        ensures
            key_info.data_size != self.data_size ==> r == Err::<SMCKeyData, i32>(KERN_INVALID_ARGUMENT),
            key_info.data_size == self.data_size ==> (r matches Ok(f) && is_frame(
                f,
                code_of(self.key[0], self.key[1], self.key[2], self.key[3]) as u32,
                CMD_WRITE_BYTES,
                0,
                key_info,
                self.bytes@,
            )),
    {
        if key_info.data_size != self.data_size {
            return Err(KERN_INVALID_ARGUMENT);
        }
        let k = self.key;
        let code = pack_code(k[0], k[1], k[2], k[3]);
        Ok(SMCKeyData::write_request(code, key_info, self.bytes))
    }

    /// The code of this value's key name.
    pub fn key_code(&self) -> (r: u32)
        ensures
            r == code_of(self.key[0], self.key[1], self.key[2], self.key[3]),
    {
        let k = self.key;
        let code = pack_code(k[0], k[1], k[2], k[3]);
        code
    }
}

/// The name of the key a by-index reply carries: the code's four bytes,
/// most significant first, decoded as UTF-8 with invalid sequences replaced.
pub fn key_name_from_reply(reply: &SMCKeyData) -> (r: String)
    ensures
        r@ == utf8_lossy(bytes_of_code(reply.key)@),
        valid_utf8(bytes_of_code(reply.key)@) ==> r@ == decode_utf8(bytes_of_code(reply.key)@),
{
    let b = u32_to_bytes(reply.key);
    utf8_lossy_string(&b)
}

/// The key infos learned so far, by key code.
pub struct KeyInfoCache {
    entries: std::collections::HashMap<u32, KeyInfo>,
}

/// What to do for a key's info: use the cached one, or send this request.
pub enum KeyInfoStep {
    Cached(KeyInfo),
    Ask(SMCKeyData),
}

impl View for KeyInfoCache {
    type V = Map<u32, KeyInfo>;

    closed spec fn view(&self) -> Map<u32, KeyInfo> {
        self.entries@
    }
}

impl KeyInfoCache {
    pub fn new() -> (r: Self)
        ensures
            r@ == Map::<u32, KeyInfo>::empty(),
    {
        KeyInfoCache { entries: std::collections::HashMap::with_capacity(100) }
    }

    /// The cached info of a key, or the request that asks the SMC for it.
    pub fn plan(&self, key: u32) -> (r: KeyInfoStep)
        ensures
            self@.contains_key(key) ==> r == KeyInfoStep::Cached(self@[key]),
            !self@.contains_key(key) ==> (r matches KeyInfoStep::Ask(f) && is_frame(f, key, CMD_READ_KEYINFO, 0, no_info(), zeros(32))),
    {
        broadcast use vstd::std_specs::hash::group_hash_axioms;
        match self.entries.get(&key) {
            Some(info) => KeyInfoStep::Cached(*info),
            None => KeyInfoStep::Ask(SMCKeyData::key_info_request(key)),
        }
    }

    /// Caches the key info of a key-info reply.
    pub fn learn(&mut self, key: u32, reply: &SMCKeyData) -> (r: KeyInfo)
        ensures
            r == reply.key_info,
            final(self)@ == old(self)@.insert(key, reply.key_info),
    {
        broadcast use vstd::std_specs::hash::group_hash_axioms;
        self.entries.insert(key, reply.key_info);
        reply.key_info
    }
}

/// Once a key's info is learned, planning for that key uses it, and planning
/// for other keys is unchanged.
pub proof fn lemma_cache_read_after_learn(before: Map<u32, KeyInfo>, key: u32, info: KeyInfo, other: u32)
    ensures
        before.insert(key, info).contains_key(key) && before.insert(key, info)[key] == info,
        other != key ==> (before.insert(key, info).contains_key(other) == before.contains_key(other)
            && before.insert(key, info)[other] == before[other]),
{
}

/// The sensor keys read on every tick.
pub const SMC_SENSORS: [&'static str; 12] = ["PPBR", "PDTR", "PSTR", "PHPC", "PDBR", "B0FC", "SBAR", "CHCC", "B0TE", "B0TF", "TB0T", "B0CT"];

/// The power-data field a sensor key fills.
#[derive(Debug, Clone, Copy, PartialEq, Eq, Structural)]
pub enum SensorField {
    /// `PPBR`: battery charge or discharge rate.
    BatteryRate,
    /// `PDTR`: power delivered by the adapter.
    DeliveryRate,
    /// `PSTR`: total system power (delayed by a second).
    SystemTotal,
    /// `PHPC`: heatpipe power.
    Heatpipe,
    /// `PDBR`: display power.
    Brightness,
    /// `B0FC`: full charge capacity.
    FullChargeCapacity,
    /// `SBAR`: current capacity.
    CurrentCapacity,
    /// `CHCC`: charging status.
    ChargingStatus,
    /// `B0TE`: minutes to empty.
    TimeToEmpty,
    /// `B0TF`: minutes to full.
    TimeToFull,
    /// `TB0T`: battery temperature.
    Temperature,
    /// `B0CT`: cycle count.
    CycleCount,
}

pub open spec fn sensor_field_of(key: Seq<char>) -> Option<SensorField> {
    if key == "PPBR"@ {
        Some(SensorField::BatteryRate)
    } else if key == "PDTR"@ {
        Some(SensorField::DeliveryRate)
    } else if key == "PSTR"@ {
        Some(SensorField::SystemTotal)
    } else if key == "PHPC"@ {
        Some(SensorField::Heatpipe)
    } else if key == "PDBR"@ {
        Some(SensorField::Brightness)
    } else if key == "B0FC"@ {
        Some(SensorField::FullChargeCapacity)
    } else if key == "SBAR"@ {
        Some(SensorField::CurrentCapacity)
    } else if key == "CHCC"@ {
        Some(SensorField::ChargingStatus)
    } else if key == "B0TE"@ {
        Some(SensorField::TimeToEmpty)
    } else if key == "B0TF"@ {
        Some(SensorField::TimeToFull)
    } else if key == "TB0T"@ {
        Some(SensorField::Temperature)
    } else if key == "B0CT"@ {
        Some(SensorField::CycleCount)
    } else {
        None
    }
}

/// The SMC key documented for each power-data field.
pub open spec fn sensor_key(f: SensorField) -> Seq<char> {
    match f {
        SensorField::BatteryRate => "PPBR"@,
        SensorField::DeliveryRate => "PDTR"@,
        SensorField::SystemTotal => "PSTR"@,
        SensorField::Heatpipe => "PHPC"@,
        SensorField::Brightness => "PDBR"@,
        SensorField::FullChargeCapacity => "B0FC"@,
        SensorField::CurrentCapacity => "SBAR"@,
        SensorField::ChargingStatus => "CHCC"@,
        SensorField::TimeToEmpty => "B0TE"@,
        SensorField::TimeToFull => "B0TF"@,
        SensorField::Temperature => "TB0T"@,
        SensorField::CycleCount => "B0CT"@,
    }
}

/// A key fills a field exactly when it is that field's documented key: no two
/// fields share a key, and no other key fills any field.
pub proof fn lemma_sensor_keys(key: Seq<char>, f: SensorField)
    ensures
        sensor_field_of(key) == Some(f) <==> key == sensor_key(f),
        sensor_field_of(sensor_key(f)) == Some(f),
{
    reveal_strlit("PPBR");
    assert("PPBR"@[0] == 'P' && "PPBR"@[1] == 'P' && "PPBR"@[2] == 'B' && "PPBR"@[3] == 'R');
    reveal_strlit("PDTR");
    assert("PDTR"@[0] == 'P' && "PDTR"@[1] == 'D' && "PDTR"@[2] == 'T' && "PDTR"@[3] == 'R');
    reveal_strlit("PSTR");
    assert("PSTR"@[0] == 'P' && "PSTR"@[1] == 'S' && "PSTR"@[2] == 'T' && "PSTR"@[3] == 'R');
    reveal_strlit("PHPC");
    assert("PHPC"@[0] == 'P' && "PHPC"@[1] == 'H' && "PHPC"@[2] == 'P' && "PHPC"@[3] == 'C');
    reveal_strlit("PDBR");
    assert("PDBR"@[0] == 'P' && "PDBR"@[1] == 'D' && "PDBR"@[2] == 'B' && "PDBR"@[3] == 'R');
    reveal_strlit("B0FC");
    assert("B0FC"@[0] == 'B' && "B0FC"@[1] == '0' && "B0FC"@[2] == 'F' && "B0FC"@[3] == 'C');
    reveal_strlit("SBAR");
    assert("SBAR"@[0] == 'S' && "SBAR"@[1] == 'B' && "SBAR"@[2] == 'A' && "SBAR"@[3] == 'R');
    reveal_strlit("CHCC");
    assert("CHCC"@[0] == 'C' && "CHCC"@[1] == 'H' && "CHCC"@[2] == 'C' && "CHCC"@[3] == 'C');
    reveal_strlit("B0TE");
    assert("B0TE"@[0] == 'B' && "B0TE"@[1] == '0' && "B0TE"@[2] == 'T' && "B0TE"@[3] == 'E');
    reveal_strlit("B0TF");
    assert("B0TF"@[0] == 'B' && "B0TF"@[1] == '0' && "B0TF"@[2] == 'T' && "B0TF"@[3] == 'F');
    reveal_strlit("TB0T");
    assert("TB0T"@[0] == 'T' && "TB0T"@[1] == 'B' && "TB0T"@[2] == '0' && "TB0T"@[3] == 'T');
    reveal_strlit("B0CT");
    assert("B0CT"@[0] == 'B' && "B0CT"@[1] == '0' && "B0CT"@[2] == 'C' && "B0CT"@[3] == 'T');
}

/// The field a sensor key fills, if it is one of the sensor keys.
pub fn sensor_field(key: &str) -> (r: Option<SensorField>)
    ensures
        r == sensor_field_of(key@),
{
    let c = chars_of(key);
    if eq_lit(&c, "PPBR") {
        Some(SensorField::BatteryRate)
    } else if eq_lit(&c, "PDTR") {
        Some(SensorField::DeliveryRate)
    } else if eq_lit(&c, "PSTR") {
        Some(SensorField::SystemTotal)
    } else if eq_lit(&c, "PHPC") {
        Some(SensorField::Heatpipe)
    } else if eq_lit(&c, "PDBR") {
        Some(SensorField::Brightness)
    } else if eq_lit(&c, "B0FC") {
        Some(SensorField::FullChargeCapacity)
    } else if eq_lit(&c, "SBAR") {
        Some(SensorField::CurrentCapacity)
    } else if eq_lit(&c, "CHCC") {
        Some(SensorField::ChargingStatus)
    } else if eq_lit(&c, "B0TE") {
        Some(SensorField::TimeToEmpty)
    } else if eq_lit(&c, "B0TF") {
        Some(SensorField::TimeToFull)
    } else if eq_lit(&c, "TB0T") {
        Some(SensorField::Temperature)
    } else if eq_lit(&c, "B0CT") {
        Some(SensorField::CycleCount)
    } else {
        None
    }
}

} // verus!
