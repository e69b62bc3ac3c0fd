//! The `.mfl` container: a 64-byte file header followed by fixed-size frames,
//! each a 16-byte frame header and `num_channels * num_axes` samples.

use vstd::prelude::*;
use vstd::arithmetic::power2::{pow2, lemma2_to64, lemma2_to64_rest};

verus! {

/// Magic bytes that open every `.mfl` file ("MFL1").
pub const MFL_MAGIC: [u8; 4] = [0x4D, 0x46, 0x4C, 0x31];

/// Size of the file header in bytes.
pub const FILE_HEADER_SIZE: usize = 64;

/// Size of each frame header in bytes.
pub const FRAME_HEADER_SIZE: usize = 16;

/// Minimum number of bytes that one stored sample occupies.
pub const SAMPLE_BYTES: usize = 3;

/// Magnetic field axis measured by a sensor. Its byte code in the file
/// format (1, 2 or 3) is given by `to_u8`, not by a cast with `as`.
#[derive(Debug, Clone, Copy, PartialEq, Eq, Structural)]
pub enum AxisTag {
    Axial,
    Transverse,
    Radial,
}

/// The byte code of each axis in the file format.
pub open spec fn axis_code(t: AxisTag) -> u8 {
    match t {
        AxisTag::Axial => 1,
        AxisTag::Transverse => 2,
        AxisTag::Radial => 3,
    }
}

/// The axis that a byte code stands for, if any.
pub open spec fn axis_from_code(v: u8) -> Option<AxisTag> {
    if v == 1 {
        Some(AxisTag::Axial)
    } else if v == 2 {
        Some(AxisTag::Transverse)
    } else if v == 3 {
        Some(AxisTag::Radial)
    } else {
        None
    }
}

/// Decoding an axis code inverts encoding it, and only codes of axes decode.
pub proof fn law_axis_code_roundtrip(t: AxisTag, v: u8)
    ensures
        axis_from_code(axis_code(t)) == Some(t),
        axis_from_code(v) matches Some(u) ==> axis_code(u) == v,
        axis_from_code(v) is Some <==> 1 <= v <= 3,
{
}

/// The display name of each axis.
pub open spec fn axis_name(t: AxisTag) -> &'static str {
    match t {
        AxisTag::Axial => "Axial",
        AxisTag::Transverse => "Transverse",
        AxisTag::Radial => "Radial",
    }
}

impl AxisTag {
    /// Decodes an axis byte: 1, 2 and 3 are the only valid codes.
    pub fn from_u8(v: u8) -> (res: Option<AxisTag>)
        ensures
            res == axis_from_code(v),
    {
        match v {
            0x01 => Some(AxisTag::Axial),
            0x02 => Some(AxisTag::Transverse),
            0x03 => Some(AxisTag::Radial),
            _ => None,
        }
    }

    /// Human-readable name of the axis.
    pub fn name(&self) -> (s: &'static str)
        ensures
            s@ == axis_name(*self)@,
    {
        match self {
            AxisTag::Axial => "Axial",
            AxisTag::Transverse => "Transverse",
            AxisTag::Radial => "Radial",
        }
    }

    /// The byte code of this axis.
    pub fn to_u8(&self) -> (v: u8)
        ensures
            v == axis_code(*self),
    {
        match self {
            AxisTag::Axial => 1,
            AxisTag::Transverse => 2,
            AxisTag::Radial => 3,
        }
    }
}


/// Unsigned little-endian value of the first `n` bytes of `bytes`.
pub open spec fn le_value(bytes: Seq<u8>, n: nat) -> int
    decreases n,
{
    if n == 0 {
        0
    } else {
        le_value(bytes, (n - 1) as nat) + bytes[n - 1] as int * pow2((8 * (n - 1)) as nat) as int
    }
}

/// Number of bytes that `decode_signed_sample` reads for a `bits`-bit sample
/// out of a buffer of `len` bytes.
pub open spec fn sample_width(bits: u8, len: int) -> int {
    let want = (bits as int + 7) / 8;
    if want < len { want } else { len }
}

/// The signed value that a raw little-endian word `v` (below 2^32) stands for
/// as a `bits`-bit sample: when `bits < 32` and bit `bits - 1` of `v` is set,
/// the value is sign-extended from that bit; otherwise the word is read as a
/// 32-bit two's complement integer.
pub open spec fn sign_extend(v: int, bits: int) -> int {
    if bits < 32 && (v / pow2((bits - 1) as nat) as int) % 2 == 1 {
        v % pow2(bits as nat) as int - pow2(bits as nat) as int
    } else if v < 0x8000_0000 {
        v
    } else {
        v - 0x1_0000_0000
    }
}

/// The two's complement meaning of a `bits`-bit word `v`.
pub open spec fn twos_complement(v: int, bits: int) -> int {
    if v >= pow2((bits - 1) as nat) as int {
        v - pow2(bits as nat) as int
    } else {
        v
    }
}

/// The signed value of one stored sample, as `decode_signed_sample` computes it.
pub open spec fn spec_decode(raw: Seq<u8>, bits: u8) -> int {
    sign_extend(le_value(raw, sample_width(bits, raw.len() as int) as nat), bits as int)
}

/// Preconditions under which decoding a sample does not overflow: at least
/// one bit, and no more than four bytes read.
pub open spec fn decodable(raw: Seq<u8>, bits: u8) -> bool {
    1 <= bits && sample_width(bits, raw.len() as int) <= 4
}

proof fn lemma_le_value_bound(bytes: Seq<u8>, n: nat)
    requires
        n <= bytes.len(),
    ensures
        0 <= le_value(bytes, n) < pow2(8 * n),
    decreases n,
{
    lemma2_to64();
    if n > 0 {
        let k = (8 * (n - 1)) as nat;
        lemma_le_value_bound(bytes, (n - 1) as nat);
        vstd::arithmetic::power2::lemma_pow2_adds(k, 8);
        lemma2_to64();
        assert(k + 8 == 8 * n);
        let p = pow2(k) as int;
        let b = bytes[n - 1] as int;
        assert(0 <= b * p <= 255 * p) by (nonlinear_arith)
            requires
                0 <= b <= 255,
                p >= 0,
        ;
        assert(pow2(8 * n) == p * 256);
        assert(le_value(bytes, n) == le_value(bytes, (n - 1) as nat) + b * p);
    }
}

proof fn lemma_or_shift_is_add(x: u32, b: u8, i: u32)
    requires
        i < 4,
        (x as int) < pow2((8 * i) as nat),
    ensures
        x | ((b as u32) << ((i * 8) as u32)) == x as int + b as int * pow2((8 * i) as nat),
{
    lemma2_to64();
    let bb = b as u32;
    if i == 0 {
        assert(x < 1 ==> x | (bb << 0u32) == x + bb) by (bit_vector);
        assert(pow2(0) == 1);
        assert(((i * 8) as u32) == 0u32);
        assert(x | ((b as u32) << ((i * 8) as u32)) == x | (bb << 0u32));
    } else if i == 1 {
        assert(x | (bb << 8u32) == x + bb * 0x100) by (bit_vector)
            requires
                x < 0x100,
                bb < 0x100,
        ;
        assert(pow2(8) == 0x100);
        assert(((i * 8) as u32) == 8u32);
        assert(x | ((b as u32) << ((i * 8) as u32)) == x | (bb << 8u32));
    } else if i == 2 {
        assert(x | (bb << 16u32) == x + bb * 0x1_0000) by (bit_vector)
            requires
                x < 0x1_0000,
                bb < 0x100,
        ;
        assert(pow2(16) == 0x1_0000);
        assert(((i * 8) as u32) == 16u32);
        assert(x | ((b as u32) << ((i * 8) as u32)) == x | (bb << 16u32));
    } else {
        assert(x | (bb << 24u32) == x + bb * 0x100_0000) by (bit_vector)
            requires
                x < 0x100_0000,
                bb < 0x100,
        ;
        assert(pow2(24) == 0x100_0000);
        assert(((i * 8) as u32) == 24u32);
        assert(x | ((b as u32) << ((i * 8) as u32)) == x | (bb << 24u32));
    }
}

proof fn lemma_sign_extend_bits(val: u32, b: u32)
    requires
        1 <= b <= 31,
    ensures
        (val & (1u32 << (b - 1) as u32) != 0) == ((val as int / pow2((b - 1) as nat) as int) % 2
            == 1),
        ((val | (!0u32 << b)) as i32) as int == val as int % pow2(b as nat) as int - pow2(
            b as nat,
        ) as int,
{
    let c: u32 = (b - 1) as u32;
    vstd::bits::lemma_u32_shr_is_div(val, c);
    vstd::bits::lemma_u32_pow2_no_overflow(b as nat);
    vstd::bits::lemma_u32_shl_is_mul(1, b);
    assert((val & (1u32 << c) != 0) == ((val >> c) & 1 == 1)) by (bit_vector)
        requires
            c < 32,
    ;
    assert((val >> c) & 1 == (val >> c) % 2) by (bit_vector);
    let m: u32 = 1u32 << b;
    assert(m == pow2(b as nat));
    let lm: u32 = (m - 1) as u32;
    assert(lm == vstd::bits::low_bits_mask(b as nat));
    vstd::bits::lemma_u32_low_bits_mask_is_mod(val, b as nat);
    assert(val & lm == val % m);
    assert(b < 32 ==> (!0u32 << b) == !(((1u32 << b) - 1) as u32)) by (bit_vector);
    assert((val | !lm) as int == (val & lm) as int + (!lm) as int) by (bit_vector);
    assert((!lm) as int == 0xffff_ffff - lm as int) by (bit_vector);
    lemma2_to64();
    vstd::arithmetic::power2::lemma_pow2_strictly_increases(b as nat, 32);
    lemma_as_i32(val | (!0u32 << b));
}

proof fn lemma_as_i32(val: u32)
    ensures
        (val as i32) as int == if val < 0x8000_0000 {
            val as int
        } else {
            val as int - 0x1_0000_0000
        },
{
    assert((val as i32) as int == if val < 0x8000_0000 {
        val as int
    } else {
        val as int - 0x1_0000_0000
    }) by (bit_vector);
}

/// Decodes one sample stored as `ceil(bits / 8)` little-endian bytes (fewer
/// when `raw` is shorter), sign-extending from bit `bits - 1`.
pub fn decode_signed_sample(raw: &[u8], bits: u8) -> (res: i32)
    requires
        decodable(raw@, bits),
    ensures
        res as int == spec_decode(raw@, bits),
        bits <= 32 && le_value(raw@, sample_width(bits, raw@.len() as int) as nat) < pow2(bits as nat)
            ==> res as int == twos_complement(le_value(raw@, sample_width(bits, raw@.len() as int) as nat), bits as int),
{
    let want: usize = (bits as usize + 7) / 8;
    let nbytes: usize = if want < raw.len() { want } else { raw.len() };
    let mut val: u32 = 0;
    let mut i: usize = 0;
    while i < nbytes
        invariant
            nbytes <= 4,
            nbytes <= raw@.len(),
            nbytes == sample_width(bits, raw@.len() as int),
            i <= nbytes,
            val as int == le_value(raw@, i as nat),
        decreases nbytes - i,
    {
        proof {
            lemma_le_value_bound(raw@, i as nat);
            lemma_or_shift_is_add(val, raw@[i as int], i as u32);
        }
        val = val | ((raw[i] as u32) << (i * 8) as u32);
        i = i + 1;
    }
    let bit_count: u32 = bits as u32;
    let ghost v = val as int;
    proof {
        lemma_le_value_bound(raw@, nbytes as nat);
        lemma_as_i32(val);
        lemma2_to64();
        lemma2_to64_rest();
        if bits >= 1 {
            vstd::arithmetic::power2::lemma_pow2_pos((bits - 1) as nat);
        }
        vstd::arithmetic::power2::lemma_pow2_pos(bits as nat);
    }
    if bit_count < 32 && (val & (1u32 << (bit_count - 1))) != 0 {
        proof {
            lemma_sign_extend_bits(val, bit_count);
        }
        val = val | (!0u32 << bit_count);
        proof {
            assert(sign_extend(v, bits as int) == v % pow2(bits as nat) as int - pow2(bits as nat) as int);
            if v < pow2(bits as nat) {
                vstd::arithmetic::div_mod::lemma_small_mod(v as nat, pow2(bits as nat));
                assert(v >= pow2((bits - 1) as nat)) by {
                    if v < pow2((bits - 1) as nat) {
                        vstd::arithmetic::div_mod::lemma_basic_div(v, pow2((bits - 1) as nat) as int);
                    }
                }
                assert(v % pow2(bits as nat) as int == v);
                assert((val as i32) as int == v - pow2(bits as nat) as int);
                assert(twos_complement(v, bits as int) == v - pow2(bits as nat) as int);
            }
        }
        val as i32
    } else {
        proof {
            if bit_count < 32 {
                lemma_sign_extend_bits(val, bit_count);
            }
            assert(sign_extend(v, bits as int) == (val as i32) as int);
            if v < pow2(bits as nat) && bits <= 32 {
                if bits < 32 {
                    vstd::arithmetic::power2::lemma_pow2_adds((bits - 1) as nat, 1);
                    assert(v < pow2((bits - 1) as nat)) by {
                        if v >= pow2((bits - 1) as nat) {
                            let p = pow2((bits - 1) as nat) as int;
                            assert(pow2(bits as nat) == p * 2);
                            assert(v / p == 1) by (nonlinear_arith)
                                requires
                                    p > 0,
                                    p <= v < 2 * p,
                            ;
                        }
                    }
                    vstd::arithmetic::power2::lemma_pow2_strictly_increases((bits - 1) as nat, 31);
                    assert(v < 0x8000_0000);
                }
                if bits <= 32 {
                    assert(twos_complement(v, bits as int) == (val as i32) as int);
                }
            }
        }
        val as i32
    }
}


/// The `n` little-endian bytes of `v`, least significant first.
pub open spec fn le_bytes(v: nat, n: nat) -> Seq<u8>
    decreases n,
{
    if n == 0 {
        Seq::empty()
    } else {
        le_bytes(v, (n - 1) as nat).push(((v / pow2((8 * (n - 1)) as nat)) % 256) as u8)
    }
}

/// The bytes under which a `bits`-bit sample of value `x` is stored: the
/// `bits`-bit two's complement word of `x` in `ceil(bits / 8)` little-endian bytes.
pub open spec fn encode_sample(x: int, bits: u8) -> Seq<u8> {
    le_bytes((x % pow2(bits as nat) as int) as nat, ((bits as int + 7) / 8) as nat)
}

proof fn lemma_le_value_prefix(s: Seq<u8>, x: u8, k: nat)
    requires
        k <= s.len(),
    ensures
        le_value(s.push(x), k) == le_value(s, k),
    decreases k,
{
    if k > 0 {
        lemma_le_value_prefix(s, x, (k - 1) as nat);
    }
}

proof fn lemma_le_bytes_value(v: nat, n: nat)
    ensures
        le_bytes(v, n).len() == n,
        le_value(le_bytes(v, n), n) == v % pow2(8 * n),
    decreases n,
{
    lemma2_to64();
    vstd::arithmetic::power2::lemma_pow2_pos(8 * n);
    if n == 0 {
        assert(v % 1 == 0);
    } else {
        let k = (8 * (n - 1)) as nat;
        let p = pow2(k);
        let prev = le_bytes(v, (n - 1) as nat);
        let b = ((v / p) % 256) as u8;
        lemma_le_bytes_value(v, (n - 1) as nat);
        lemma_le_value_prefix(prev, b, (n - 1) as nat);
        vstd::arithmetic::power2::lemma_pow2_pos(k);
        vstd::arithmetic::power2::lemma_pow2_adds(k, 8);
        assert(k + 8 == 8 * n);
        vstd::arithmetic::div_mod::lemma_breakdown(v as int, p as int, 256);
        assert(pow2(8 * n) == p * 256);
        assert(le_bytes(v, n)[n - 1] == b);
        assert(le_value(le_bytes(v, n), n) == le_value(prev, (n - 1) as nat) + b as int * p as int);
        assert((v / p) % 256 == b) by {
            vstd::arithmetic::div_mod::lemma_mod_bound((v / p) as int, 256);
        }
        assert(b as int * p == p * ((v as int / p as int) % 256)) by (nonlinear_arith)
            requires
                b as int == (v as int / p as int) % 256,
        ;
    }
}

/// For a word below `2^bits`, decoding's sign extension is the word's two's
/// complement meaning.
proof fn lemma_sign_extend_is_twos(v: int, bits: int)
    requires
        1 <= bits <= 32,
        0 <= v < pow2(bits as nat),
    ensures
        sign_extend(v, bits) == twos_complement(v, bits),
{
    lemma2_to64();
    lemma2_to64_rest();
    let q = pow2((bits - 1) as nat) as int;
    vstd::arithmetic::power2::lemma_pow2_pos((bits - 1) as nat);
    vstd::arithmetic::power2::lemma_pow2_adds((bits - 1) as nat, 1);
    assert(pow2(bits as nat) == q * 2);
    if v >= q {
        assert(v / q == 1) by (nonlinear_arith)
            requires
                q > 0,
                q <= v < 2 * q,
        ;
        vstd::arithmetic::div_mod::lemma_small_mod(v as nat, pow2(bits as nat));
    } else {
        assert(v / q == 0) by (nonlinear_arith)
            requires
                q > 0,
                0 <= v < q,
        ;
        if bits < 32 {
            vstd::arithmetic::power2::lemma_pow2_strictly_increases((bits - 1) as nat, 31);
        }
    }
}

/// Decoding reads back what encoding wrote: every value that fits in a
/// `bits`-bit sample, stored in two's complement over `ceil(bits / 8)`
/// little-endian bytes, decodes to itself.
pub proof fn law_decode_inverts_encode(x: int, bits: u8)
    requires
        1 <= bits <= 32,
        -pow2((bits - 1) as nat) <= x < pow2((bits - 1) as nat),
    ensures
        encode_sample(x, bits).len() == (bits as int + 7) / 8,
        decodable(encode_sample(x, bits), bits),
        spec_decode(encode_sample(x, bits), bits) == x,
{
    let b = bits as int;
    let n = ((b + 7) / 8) as nat;
    let m = pow2(bits as nat) as int;
    let q = pow2((bits - 1) as nat) as int;
    vstd::arithmetic::power2::lemma_pow2_pos(bits as nat);
    vstd::arithmetic::power2::lemma_pow2_adds((bits - 1) as nat, 1);
    lemma2_to64();
    assert(m == q * 2);
    let u = x % m;
    vstd::arithmetic::div_mod::lemma_mod_bound(x, m);
    lemma_le_bytes_value(u as nat, n);
    assert(sample_width(bits, n as int) == n);
    if bits < 8 * n {
        vstd::arithmetic::power2::lemma_pow2_strictly_increases(bits as nat, 8 * n);
    }
    vstd::arithmetic::div_mod::lemma_small_mod(u as nat, pow2(8 * n));
    lemma_sign_extend_is_twos(u, b);
    if x >= 0 {
        vstd::arithmetic::div_mod::lemma_small_mod(x as nat, m as nat);
    } else {
        vstd::arithmetic::div_mod::lemma_fundamental_div_mod(x, m);
        assert(x / m == -1) by {
            vstd::arithmetic::div_mod::lemma_fundamental_div_mod_converse(x, m, -1, x + m);
        }
    }
}

/// Unsigned little-endian value of the `n` bytes of `bytes` that start at `off`.
pub open spec fn le_at(bytes: Seq<u8>, off: int, n: nat) -> int {
    le_value(bytes.subrange(off, off + n), n)
}

proof fn lemma_or_shift_is_add_u64(x: u64, b: u8, i: u64)
    requires
        i < 8,
        (x as int) < pow2((8 * i) as nat),
    ensures
        x | ((b as u64) << ((i * 8) as u64)) == x as int + b as int * pow2((8 * i) as nat),
{
    let sh: u64 = (i * 8) as u64;
    let bb: u64 = b as u64;
    vstd::bits::lemma_u64_pow2_no_overflow(sh as nat);
    lemma2_to64();
    lemma2_to64_rest();
    if sh < 56 {
        vstd::arithmetic::power2::lemma_pow2_strictly_increases(sh as nat, 56);
    }
    let p = pow2(sh as nat) as int;
    assert(bb * p <= 255 * pow2(56)) by (nonlinear_arith)
        requires
            0 <= bb <= 255,
            0 < p <= pow2(56),
    ;
    vstd::bits::lemma_u64_shl_is_mul(bb, sh);
    vstd::bits::lemma_u64_shl_is_mul(1, sh);
    assert(x | (bb << sh) == x + (bb << sh)) by (bit_vector)
        requires
            sh < 64,
            x < (1u64 << sh),
            bb < 256,
            sh <= 56,
    ;
}

/// Reads the unsigned little-endian integer of `n` bytes at `off`.
fn read_le(buf: &[u8], off: usize, n: usize) -> (v: u64)
    requires
        off + n <= buf@.len(),
        n <= 8,
    ensures
        v as int == le_at(buf@, off as int, n as nat),
        v < pow2(8 * n as nat),
{
    let ghost sub = buf@.subrange(off as int, off + n);
    let mut v: u64 = 0;
    let mut i: usize = 0;
    while i < n
        invariant
            off + n <= buf.len(),
            buf.len() == buf@.len(),
            n <= 8,
            i <= n,
            sub == buf@.subrange(off as int, off + n),
            v as int == le_value(sub, i as nat),
        decreases n - i,
    {
        proof {
            lemma_le_value_bound(sub, i as nat);
            lemma_or_shift_is_add_u64(v, buf@[off + i], i as u64);
            assert(sub[i as int] == buf@[off + i]);
        }
        v = v | ((buf[off + i] as u64) << ((i * 8) as u64));
        i = i + 1;
    }
    proof {
        lemma_le_value_bound(sub, n as nat);
    }
    v
}

/// The fields of a parsed file header, as laid out in its 64 bytes.
#[derive(Debug, Clone, Copy)]
pub struct FileHeader {
    pub magic: [u8; 4],
    pub version: u16,
    pub num_channels: u16,
    pub num_axes: u8,
    pub sample_resolution_bits: u8,
    pub frame_rate_hz: u32,
    /// IEEE-754 bit pattern of the outer diameter in millimetres.
    pub od_mm_bits: u32,
    /// IEEE-754 bit pattern of the wall thickness in millimetres.
    pub wall_thickness_mm_bits: u32,
    /// IEEE-754 bit pattern of the angular sensor spacing in degrees.
    pub sensor_spacing_deg_bits: u32,
    pub timestamp_epoch: u64,
}

/// The magic bytes as a sequence.
pub open spec fn magic_seq() -> Seq<u8> {
    seq![0x4Du8, 0x46u8, 0x4Cu8, 0x31u8]
}

/// `buf` is long enough for a file header and starts with the magic bytes.
pub open spec fn valid_file_header(buf: Seq<u8>) -> bool {
    buf.len() >= FILE_HEADER_SIZE && buf.subrange(0, 4) == magic_seq()
}

/// Every field of `h` is the little-endian value stored at its offset in `buf`.
pub open spec fn file_header_of(h: FileHeader, buf: Seq<u8>) -> bool {
    &&& h.magic@ == buf.subrange(0, 4)
    &&& h.version == le_at(buf, 4, 2)
    &&& h.num_channels == le_at(buf, 6, 2)
    &&& h.num_axes == buf[8]
    &&& h.sample_resolution_bits == buf[9]
    &&& h.frame_rate_hz == le_at(buf, 10, 4)
    &&& h.od_mm_bits == le_at(buf, 14, 4)
    &&& h.wall_thickness_mm_bits == le_at(buf, 18, 4)
    &&& h.sensor_spacing_deg_bits == le_at(buf, 22, 4)
    &&& h.timestamp_epoch == le_at(buf, 26, 8)
}

/// Bytes per stored sample for a given resolution: at least `SAMPLE_BYTES`.
pub open spec fn spec_sample_bytes(bits: u8) -> int {
    let need = (bits as int + 7) / 8;
    if need > SAMPLE_BYTES {
        need
    } else {
        SAMPLE_BYTES as int
    }
}

impl FileHeader {
    /// Bytes of sample data in every frame.
    pub open spec fn spec_frame_data_bytes(&self) -> int {
        self.num_channels as int * self.num_axes as int * spec_sample_bytes(
            self.sample_resolution_bits,
        )
    }

    /// Bytes of every frame, header included.
    pub open spec fn spec_frame_total_bytes(&self) -> int {
        FRAME_HEADER_SIZE as int + self.spec_frame_data_bytes()
    }

    /// Parses the file header at the start of `buf`. `None` when `buf` is
    /// shorter than `FILE_HEADER_SIZE` or does not start with `MFL_MAGIC`.
    pub fn parse(buf: &[u8]) -> (res: Option<FileHeader>)
        ensures
            res is Some <==> valid_file_header(buf@),
            res matches Some(h) ==> file_header_of(h, buf@),
    {
        if buf.len() < FILE_HEADER_SIZE {
            return None;
        }
        if buf[0] != MFL_MAGIC[0] || buf[1] != MFL_MAGIC[1] || buf[2] != MFL_MAGIC[2] || buf[3]
            != MFL_MAGIC[3] {
            proof {
                assert(buf@.subrange(0, 4) != magic_seq()) by {
                    let s = buf@.subrange(0, 4);
                    assert(s[0] == buf@[0] && s[1] == buf@[1] && s[2] == buf@[2] && s[3] == buf@[3]);
                }
            }
            return None;
        }
        let magic: [u8; 4] = [buf[0], buf[1], buf[2], buf[3]];
        proof {
            lemma2_to64();
        }
        proof {
            assert(buf@.subrange(0, 4) =~= magic_seq());
            assert(magic@ =~= buf@.subrange(0, 4));
        }
        let h = FileHeader {
            magic,
            version: read_le(buf, 4, 2) as u16,
            num_channels: read_le(buf, 6, 2) as u16,
            num_axes: buf[8],
            sample_resolution_bits: buf[9],
            frame_rate_hz: read_le(buf, 10, 4) as u32,
            od_mm_bits: read_le(buf, 14, 4) as u32,
            wall_thickness_mm_bits: read_le(buf, 18, 4) as u32,
            sensor_spacing_deg_bits: read_le(buf, 22, 4) as u32,
            timestamp_epoch: read_le(buf, 26, 8),
        };
        Some(h)
    }

    /// Bytes per stored sample: `ceil(bits / 8)`, but never fewer than `SAMPLE_BYTES`.
    pub fn sample_bytes(&self) -> (n: usize)
        ensures
            n == spec_sample_bytes(self.sample_resolution_bits),
            SAMPLE_BYTES <= n <= 32,
    {
        let need: usize = (self.sample_resolution_bits as usize + 7) / 8;
        if need > SAMPLE_BYTES {
            need
        } else {
            SAMPLE_BYTES
        }
    }

    /// Bytes of sample data in every frame: channels x axes x sample bytes.
    pub fn frame_data_bytes(&self) -> (n: usize)
        ensures
            n == self.spec_frame_data_bytes(),
            n <= 65535 * 255 * 32,
    {
        let sb = self.sample_bytes();
        let ch = self.num_channels as usize;
        let ax = self.num_axes as usize;
        proof {
            assert(ch * ax <= 65535 * 255) by (nonlinear_arith)
                requires
                    ch <= 65535,
                    ax <= 255,
            ;
            assert(ch * ax * sb <= 65535 * 255 * 32) by (nonlinear_arith)
                requires
                    ch * ax <= 65535 * 255,
                    sb <= 32,
            ;
        }
        ch * ax * sb
    }

    /// Bytes of every frame: the frame header and its sample data.
    pub fn frame_total_bytes(&self) -> (n: usize)
        ensures
            n == self.spec_frame_total_bytes(),
            FRAME_HEADER_SIZE <= n,
    {
        FRAME_HEADER_SIZE + self.frame_data_bytes()
    }
}


/// The fields of a frame header, as laid out in its 16 bytes.
#[derive(Debug, Clone, Copy)]
pub struct FrameHeader {
    pub frame_index: u32,
    pub timestamp_us: u32,
    /// IEEE-754 bit pattern of the odometer distance in millimetres.
    pub distance_mm_bits: u32,
    /// IEEE-754 bit pattern of the tool velocity in millimetres per second.
    pub velocity_mms_bits: u32,
    /// Status flags; the format does not store them, so they are always zero.
    pub flags: u16,
}

/// Every field of `h` is the little-endian value stored at its offset in `buf`.
pub open spec fn frame_header_of(h: FrameHeader, buf: Seq<u8>) -> bool {
    &&& h.frame_index == le_at(buf, 0, 4)
    &&& h.timestamp_us == le_at(buf, 4, 4)
    &&& h.distance_mm_bits == le_at(buf, 8, 4)
    &&& h.velocity_mms_bits == le_at(buf, 12, 4)
    &&& h.flags == 0
}

impl FrameHeader {
    /// Parses a frame header; `None` when `buf` is shorter than `FRAME_HEADER_SIZE`.
    pub fn parse(buf: &[u8]) -> (res: Option<FrameHeader>)
        ensures
            res is Some <==> buf@.len() >= FRAME_HEADER_SIZE,
            res matches Some(h) ==> frame_header_of(h, buf@),
    {
        if buf.len() < FRAME_HEADER_SIZE {
            return None;
        }
        proof {
            lemma2_to64();
        }
        Some(
            FrameHeader {
                frame_index: read_le(buf, 0, 4) as u32,
                timestamp_us: read_le(buf, 4, 4) as u32,
                distance_mm_bits: read_le(buf, 8, 4) as u32,
                velocity_mms_bits: read_le(buf, 12, 4) as u32,
                flags: 0,
            },
        )
    }
}

} // verus!
