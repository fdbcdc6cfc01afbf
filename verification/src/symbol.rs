use vstd::prelude::*;

verus! {

/// Represents a symbol in the Implode bit stream.
#[derive(Debug, PartialEq, Eq, Structural, Copy, Clone)]
pub enum Symbol {
    /// A literal byte or ASCII character.
    Literal(u8),
    /// A length/distance pair, according to LZ77.
    Pair { distance: u32, length: u32 },
    /// The end symbol. Represents the end of the Implode data.
    End,
}

/// A simple trait that allows an object to be converted to bit form.
pub trait ToBits {
    /// Serializes this structure to at most 32 bits.
    fn to_bits(&self) -> u32;

    /// Returns the amount of bits in this structure when serialized.
    fn size_bits(&self) -> u32;
}

/// Represents the output of bit decoding.
#[derive(Debug)]
pub struct BitDecodeOutput<T> {
    /// The decoded object.
    pub decoded: T,
    /// Amount of bits consumed from the bit stream.
    pub used_bits: u32,
}

/// Represents an error decoding bits.
#[derive(Debug, PartialEq, Eq, Structural, Copy, Clone)]
pub enum BitDecodeError {
    /// Error when the available bits are insufficent.
    /// Contains the amount of additional bits needed.
    NotEnoughBits(u32),
}

/// Initialization data for the Length decode table.
pub struct LenInit {
    pub len_bits: [u8; 16],
    pub len_code: [u8; 16],
}

/// Initialization data for the Distance decode table.
pub struct DistInit {
    pub dist_bits: [u8; 64],
    pub dist_code: [u8; 64],
}

/// Initialization data for the Shannon-Fano literal decode table.
pub struct ShannonInit {
    /// Amount of bits for each code.
    pub shan_bits: [u8; 256],
    /// The codes.
    /// Use the byte you want to encode as the index.
    pub shan_code: [u16; 256],
}

/// Contains decoding data, used in decode_bits.
pub struct CodeTable {
    pub extra_len_bits: [u8; 16],
    pub len_base: [u16; 16],
    pub len_add: [u16; 16],
    pub len_bits: [u8; 16],
    pub len_codes: [u8; 256],

    pub dist_bits: [u8; 64],
    pub dist_codes: [u8; 256],

    pub shan_lut: [u8; 256],
    pub shan_4_lut: [u8; 256],
    pub shan_6_lut: [u8; 128],
    pub shan_8_lut: [u8; 256],
}

/// Contains encoding data.
pub struct EncodeTable {
    pub lit_bits: [u8; 256],
    pub lit_code: [u16; 256],
    pub len_bits: [u8; 518],
    pub len_code: [u16; 518],
    pub dist_bits: [u8; 64],
    pub dist_code: [u8; 64],
    pub dict_bits: u32,
}

/// Length value of end literal
pub const END: u32 = 517;

/// Shape invariant every code table must satisfy: lookup results stay inside
/// the arrays they index, and no code is wider than the 8 bits that the
/// byte-indexed lookup tables can resolve.
pub open spec fn table_wf(t: CodeTable) -> bool {
    &&& forall|i: int| 0 <= i < 256 ==> t.len_codes[i] < 16
    &&& forall|i: int| 0 <= i < 256 ==> t.dist_codes[i] < 64
    &&& forall|i: int| 0 <= i < 16 ==> t.len_bits[i] <= 8
    &&& forall|i: int| 0 <= i < 16 ==> t.extra_len_bits[i] <= 8
    &&& forall|i: int| 0 <= i < 64 ==> t.dist_bits[i] <= 8
}

/// Bit 0 of the window selects the symbol class: 1 is a length/distance pair.
pub open spec fn spec_is_pair(bits: u64) -> bool {
    bits & 1u64 == 1u64
}

/// Bits 1..9 of the window, verbatim: the literal byte.
pub open spec fn spec_lit_byte(bits: u64) -> u8 {
    ((bits >> 1u64) & 0xffu64) as u8
}

/// Length-code index: bits 1..9 looked up in the length-code table.
pub open spec fn spec_len_code(t: CodeTable, bits: u64) -> int {
    t.len_codes[((bits >> 1u64) & 0xffu64) as int] as int
}

/// Width of the length code itself.
pub open spec fn spec_len_code_width(t: CodeTable, bits: u64) -> int {
    t.len_bits[spec_len_code(t, bits)] as int
}

/// Count of extra bits that follow the length code.
pub open spec fn spec_len_extra_width(t: CodeTable, bits: u64) -> int {
    t.extra_len_bits[spec_len_code(t, bits)] as int
}

/// Bits consumed by the length path: class bit + code bits + extra bits.
pub open spec fn spec_len_used(t: CodeTable, bits: u64) -> int {
    1 + spec_len_code_width(t, bits) + spec_len_extra_width(t, bits)
}

/// The extra-bits field, read immediately after the class and code bits.
pub open spec fn spec_len_extra_field(t: CodeTable, bits: u64) -> u64 {
    (bits >> ((1 + spec_len_code_width(t, bits)) as u64))
        & (((1u64 << (spec_len_extra_width(t, bits) as u64)) - 1) as u64)
}

/// The pre-offset length value: the table's addend (only when extra bits are
/// present) plus the code index plus the extra-bits field.
pub open spec fn spec_len_value(t: CodeTable, bits: u64) -> int {
    (if spec_len_extra_width(t, bits) > 0 {
        t.len_add[spec_len_code(t, bits)] as int
    } else {
        0
    }) + spec_len_code(t, bits) + spec_len_extra_field(t, bits) as int
}

/// Distance-code index: the 8 bits after the length path, looked up in the
/// distance-code table.
pub open spec fn spec_dist_code(t: CodeTable, bits: u64) -> int {
    t.dist_codes[((bits >> (spec_len_used(t, bits) as u64)) & 0xffu64) as int] as int
}

/// Width of the trailing literal distance field: 2 bits for the shortest
/// length, the configured dictionary width otherwise.
pub open spec fn spec_trail_width(t: CodeTable, bits: u64, dict_bits: u32) -> int {
    if spec_len_value(t, bits) == 0 {
        2
    } else {
        dict_bits as int
    }
}

/// Bits consumed before the trailing distance field.
pub open spec fn spec_used_before_trail(t: CodeTable, bits: u64) -> int {
    spec_len_used(t, bits) + t.dist_bits[spec_dist_code(t, bits)] as int
}

/// Total bits a pair symbol consumes.
pub open spec fn spec_pair_used(t: CodeTable, bits: u64, dict_bits: u32) -> int {
    spec_used_before_trail(t, bits) + spec_trail_width(t, bits, dict_bits)
}

/// The decoded 1-based distance: the distance code shifted over the trailing
/// literal field, plus one.
pub open spec fn spec_distance(t: CodeTable, bits: u64, dict_bits: u32) -> int {
    (((spec_dist_code(t, bits) as u64) << (spec_trail_width(t, bits, dict_bits) as u64))
        | ((bits >> (spec_used_before_trail(t, bits) as u64))
            & (((1u64 << (spec_trail_width(t, bits, dict_bits) as u64)) - 1) as u64))) + 1
}

/// Holds when decoding `bits` reaches the distance path with a
/// dictionary-sized trailing field, so the decoder actually shifts by
/// `dict_bits`.
pub open spec fn spec_needs_dict(t: CodeTable, bits: u64) -> bool {
    &&& spec_is_pair(bits)
    &&& spec_len_value(t, bits) != END
    &&& spec_len_value(t, bits) != 0
}

/// The full functional specification of one symbol decode, exactly as the
/// wire format defines it.
pub open spec fn spec_decode(t: CodeTable, bits: u64, nbits: u32, dict_bits: u32) -> Result<
    BitDecodeOutput<Symbol>,
    BitDecodeError,
> {
    if !spec_is_pair(bits) {
        if nbits < 9 {
            Err(BitDecodeError::NotEnoughBits((9 - nbits) as u32))
        } else {
            Ok(BitDecodeOutput { decoded: Symbol::Literal(spec_lit_byte(bits)), used_bits: 9u32 })
        }
    } else if spec_len_value(t, bits) == END {
        if nbits < spec_len_used(t, bits) {
            Err(BitDecodeError::NotEnoughBits((spec_len_used(t, bits) - nbits) as u32))
        } else {
            Ok(
                BitDecodeOutput {
                    decoded: Symbol::End,
                    used_bits: spec_len_used(t, bits) as u32,
                },
            )
        }
    } else {
        if nbits < spec_pair_used(t, bits, dict_bits) {
            Err(BitDecodeError::NotEnoughBits((spec_pair_used(t, bits, dict_bits) - nbits) as u32))
        } else {
            Ok(
                BitDecodeOutput {
                    decoded: Symbol::Pair {
                        distance: spec_distance(t, bits, dict_bits) as u32,
                        length: (spec_len_value(t, bits) + 2) as u32,
                    },
                    used_bits: spec_pair_used(t, bits, dict_bits) as u32,
                },
            )
        }
    }
}

/// Builds the default code table, containing the settings used by the
/// standard PKWARE DCL. Use this to read streams compressed by the DCL.
///
/// The Shannon-Fano literal tables are zeroed: ASCII literal mode is an
/// unsupported configuration and the decoder never reads them.
pub fn default_code_table() -> (t: CodeTable)
    ensures
        table_wf(t),
        t.extra_len_bits@ == seq![0u8, 0, 0, 0, 0, 0, 0, 0, 1, 2, 3, 4, 5, 6, 7, 8],
        t.len_base@ == seq![0u16, 1, 2, 3, 4, 5, 6, 7, 8, 10, 14, 22, 38, 70, 134, 262],
        t.len_add@ == seq![0u16, 0, 0, 0, 0, 0, 0, 0, 0, 1, 4, 11, 26, 57, 120, 247],
        t.len_bits@ == seq![3u8, 2, 3, 3, 4, 4, 4, 5, 5, 5, 5, 6, 6, 6, 7, 7],
        t.dist_bits@ == seq![
            2u8, 4, 4, 5, 5, 5, 5, 6, 6, 6, 6, 6, 6, 6, 6, 6, 6, 6, 6, 6, 6, 6, 7, 7, 7, 7, 7, 7,
            7, 7, 7, 7, 7, 7, 7, 7, 7, 7, 7, 7, 7, 7, 7, 7, 7, 7, 7, 7, 8, 8, 8, 8, 8, 8, 8, 8, 8,
            8, 8, 8, 8, 8, 8, 8,
        ],
        t.len_codes@ == seq![
            15u8, 2, 5, 1, 8, 0, 3, 1, 10, 2, 4, 1, 6, 0, 3, 1, 12, 2, 5, 1, 7, 0, 3, 1, 9, 2, 4,
            1, 6, 0, 3, 1, 13, 2, 5, 1, 8, 0, 3, 1, 10, 2, 4, 1, 6, 0, 3, 1, 11, 2, 5, 1, 7, 0, 3,
            1, 9, 2, 4, 1, 6, 0, 3, 1, 14, 2, 5, 1, 8, 0, 3, 1, 10, 2, 4, 1, 6, 0, 3, 1, 12, 2, 5,
            1, 7, 0, 3, 1, 9, 2, 4, 1, 6, 0, 3, 1, 13, 2, 5, 1, 8, 0, 3, 1, 10, 2, 4, 1, 6, 0, 3,
            1, 11, 2, 5, 1, 7, 0, 3, 1, 9, 2, 4, 1, 6, 0, 3, 1, 15, 2, 5, 1, 8, 0, 3, 1, 10, 2, 4,
            1, 6, 0, 3, 1, 12, 2, 5, 1, 7, 0, 3, 1, 9, 2, 4, 1, 6, 0, 3, 1, 13, 2, 5, 1, 8, 0, 3,
            1, 10, 2, 4, 1, 6, 0, 3, 1, 11, 2, 5, 1, 7, 0, 3, 1, 9, 2, 4, 1, 6, 0, 3, 1, 14, 2, 5,
            1, 8, 0, 3, 1, 10, 2, 4, 1, 6, 0, 3, 1, 12, 2, 5, 1, 7, 0, 3, 1, 9, 2, 4, 1, 6, 0, 3,
            1, 13, 2, 5, 1, 8, 0, 3, 1, 10, 2, 4, 1, 6, 0, 3, 1, 11, 2, 5, 1, 7, 0, 3, 1, 9, 2, 4,
            1, 6, 0, 3, 1,
        ],
        t.dist_codes@ == seq![
            63u8, 6, 23, 0, 39, 2, 14, 0, 47, 4, 18, 0, 31, 1, 10, 0, 55, 5, 20, 0, 35, 2, 12, 0,
            43, 3, 16, 0, 27, 1, 8, 0, 59, 6, 21, 0, 37, 2, 13, 0, 45, 4, 17, 0, 29, 1, 9, 0, 51,
            5, 19, 0, 33, 2, 11, 0, 41, 3, 15, 0, 25, 1, 7, 0, 61, 6, 22, 0, 38, 2, 14, 0, 46, 4,
            18, 0, 30, 1, 10, 0, 53, 5, 20, 0, 34, 2, 12, 0, 42, 3, 16, 0, 26, 1, 8, 0, 57, 6, 21,
            0, 36, 2, 13, 0, 44, 4, 17, 0, 28, 1, 9, 0, 49, 5, 19, 0, 32, 2, 11, 0, 40, 3, 15, 0,
            24, 1, 7, 0, 62, 6, 23, 0, 39, 2, 14, 0, 47, 4, 18, 0, 31, 1, 10, 0, 54, 5, 20, 0, 35,
            2, 12, 0, 43, 3, 16, 0, 27, 1, 8, 0, 58, 6, 21, 0, 37, 2, 13, 0, 45, 4, 17, 0, 29, 1,
            9, 0, 50, 5, 19, 0, 33, 2, 11, 0, 41, 3, 15, 0, 25, 1, 7, 0, 60, 6, 22, 0, 38, 2, 14,
            0, 46, 4, 18, 0, 30, 1, 10, 0, 52, 5, 20, 0, 34, 2, 12, 0, 42, 3, 16, 0, 26, 1, 8, 0,
            56, 6, 21, 0, 36, 2, 13, 0, 44, 4, 17, 0, 28, 1, 9, 0, 48, 5, 19, 0, 32, 2, 11, 0, 40,
            3, 15, 0, 24, 1, 7, 0,
        ],
{
    let t = CodeTable {
        extra_len_bits: [0, 0, 0, 0, 0, 0, 0, 0, 1, 2, 3, 4, 5, 6, 7, 8],
        len_base: [0, 1, 2, 3, 4, 5, 6, 7, 8, 10, 14, 22, 38, 70, 134, 262],
        len_add: [0, 0, 0, 0, 0, 0, 0, 0, 0, 1, 4, 11, 26, 57, 120, 247],
        len_bits: [3, 2, 3, 3, 4, 4, 4, 5, 5, 5, 5, 6, 6, 6, 7, 7],
        len_codes: [
            15, 2, 5, 1, 8, 0, 3, 1, 10, 2, 4, 1, 6, 0, 3, 1, 12, 2, 5, 1, 7, 0, 3, 1, 9, 2, 4, 1,
            6, 0, 3, 1, 13, 2, 5, 1, 8, 0, 3, 1, 10, 2, 4, 1, 6, 0, 3, 1, 11, 2, 5, 1, 7, 0, 3, 1,
            9, 2, 4, 1, 6, 0, 3, 1, 14, 2, 5, 1, 8, 0, 3, 1, 10, 2, 4, 1, 6, 0, 3, 1, 12, 2, 5, 1,
            7, 0, 3, 1, 9, 2, 4, 1, 6, 0, 3, 1, 13, 2, 5, 1, 8, 0, 3, 1, 10, 2, 4, 1, 6, 0, 3, 1,
            11, 2, 5, 1, 7, 0, 3, 1, 9, 2, 4, 1, 6, 0, 3, 1, 15, 2, 5, 1, 8, 0, 3, 1, 10, 2, 4, 1,
            6, 0, 3, 1, 12, 2, 5, 1, 7, 0, 3, 1, 9, 2, 4, 1, 6, 0, 3, 1, 13, 2, 5, 1, 8, 0, 3, 1,
            10, 2, 4, 1, 6, 0, 3, 1, 11, 2, 5, 1, 7, 0, 3, 1, 9, 2, 4, 1, 6, 0, 3, 1, 14, 2, 5, 1,
            8, 0, 3, 1, 10, 2, 4, 1, 6, 0, 3, 1, 12, 2, 5, 1, 7, 0, 3, 1, 9, 2, 4, 1, 6, 0, 3, 1,
            13, 2, 5, 1, 8, 0, 3, 1, 10, 2, 4, 1, 6, 0, 3, 1, 11, 2, 5, 1, 7, 0, 3, 1, 9, 2, 4, 1,
            6, 0, 3, 1,
        ],
        dist_bits: [
            2, 4, 4, 5, 5, 5, 5, 6, 6, 6, 6, 6, 6, 6, 6, 6, 6, 6, 6, 6, 6, 6, 7, 7, 7, 7, 7, 7, 7,
            7, 7, 7, 7, 7, 7, 7, 7, 7, 7, 7, 7, 7, 7, 7, 7, 7, 7, 7, 8, 8, 8, 8, 8, 8, 8, 8, 8, 8,
            8, 8, 8, 8, 8, 8,
        ],
        dist_codes: [
            63, 6, 23, 0, 39, 2, 14, 0, 47, 4, 18, 0, 31, 1, 10, 0, 55, 5, 20, 0, 35, 2, 12, 0, 43,
            3, 16, 0, 27, 1, 8, 0, 59, 6, 21, 0, 37, 2, 13, 0, 45, 4, 17, 0, 29, 1, 9, 0, 51, 5,
            19, 0, 33, 2, 11, 0, 41, 3, 15, 0, 25, 1, 7, 0, 61, 6, 22, 0, 38, 2, 14, 0, 46, 4, 18,
            0, 30, 1, 10, 0, 53, 5, 20, 0, 34, 2, 12, 0, 42, 3, 16, 0, 26, 1, 8, 0, 57, 6, 21, 0,
            36, 2, 13, 0, 44, 4, 17, 0, 28, 1, 9, 0, 49, 5, 19, 0, 32, 2, 11, 0, 40, 3, 15, 0, 24,
            1, 7, 0, 62, 6, 23, 0, 39, 2, 14, 0, 47, 4, 18, 0, 31, 1, 10, 0, 54, 5, 20, 0, 35, 2,
            12, 0, 43, 3, 16, 0, 27, 1, 8, 0, 58, 6, 21, 0, 37, 2, 13, 0, 45, 4, 17, 0, 29, 1, 9,
            0, 50, 5, 19, 0, 33, 2, 11, 0, 41, 3, 15, 0, 25, 1, 7, 0, 60, 6, 22, 0, 38, 2, 14, 0,
            46, 4, 18, 0, 30, 1, 10, 0, 52, 5, 20, 0, 34, 2, 12, 0, 42, 3, 16, 0, 26, 1, 8, 0, 56,
            6, 21, 0, 36, 2, 13, 0, 44, 4, 17, 0, 28, 1, 9, 0, 48, 5, 19, 0, 32, 2, 11, 0, 40, 3,
            15, 0, 24, 1, 7, 0,
        ],
        shan_lut: [0; 256],
        shan_4_lut: [0; 256],
        shan_6_lut: [0; 128],
        shan_8_lut: [0; 256],
    };
    t
}

/// Decodes the input bits into a symbol.
///
/// `bits` is a little-endian window of the stream whose low `nbits` bits are
/// valid; `dict_bits` is the width of the literal low-order distance field
/// (the dictionary size exponent minus 6). The result is one decoded symbol
/// together with the exact number of bits it consumed, or the count of
/// additional bits required — never a hard failure.
pub fn decode_bits(bits: u64, nbits: u32, table: &CodeTable, dict_bits: u32) -> (r: Result<
    BitDecodeOutput<Symbol>,
    BitDecodeError,
>)
    requires
        table_wf(*table),
        spec_needs_dict(*table, bits) ==> dict_bits <= 25,
    ensures
        r == spec_decode(*table, bits, nbits, dict_bits),
        r matches Ok(o) ==> 1 <= o.used_bits <= nbits && o.used_bits <= 50,
        r matches Ok(o) ==> (o.decoded matches Symbol::Pair { distance, length } ==> 1 <= distance
            && 2 <= length),
{
    let is_pair: u64 = bits & 1;
    let next_byte: u64 = (bits >> 1u64) & 0xff;
    assert((bits >> 1u64) & 0xffu64 < 256) by (bit_vector);

    if is_pair == 1 {
        let code: u32 = table.len_codes[next_byte as usize] as u32;
        assert(code < 16);
        let code_bits: u32 = table.len_bits[code as usize] as u32;
        let extra_bits: u32 = table.extra_len_bits[code as usize] as u32;
        assert(code_bits <= 8 && extra_bits <= 8);
        let used_len: u32 = 1 + code_bits + extra_bits;
        assert(1u64 << (extra_bits as u64) >= 1) by (bit_vector)
            requires
                extra_bits <= 8,
        ;
        let mask_extra: u64 = (1u64 << (extra_bits as u64)) - 1;
        let extra: u64 = (bits >> ((1 + code_bits) as u64)) & mask_extra;
        assert(mask_extra <= 255) by (bit_vector)
            requires
                extra_bits <= 8,
                mask_extra == (1u64 << (extra_bits as u64)) - 1,
        ;
        assert((bits >> ((1 + code_bits) as u64)) & mask_extra <= mask_extra) by (bit_vector);
        let base: u32 = if extra_bits > 0 {
            table.len_add[code as usize] as u32
        } else {
            0
        };
        let length: u32 = base + code + (extra as u32);

        if length == END {
            if nbits < used_len {
                return Err(BitDecodeError::NotEnoughBits(used_len - nbits));
            }
            return Ok(BitDecodeOutput { decoded: Symbol::End, used_bits: used_len });
        }

        // Now decode the distance. This is encoded like DEFLATE distances,
        // where there is a coded part and a literal part.
        let dist_lookup: u64 = (bits >> (used_len as u64)) & 0xff;
        assert((bits >> (used_len as u64)) & 0xffu64 < 256) by (bit_vector);
        let dist_code: u8 = table.dist_codes[dist_lookup as usize];

        let add_bits: u32 = if length == 0 {
            2
        } else {
            dict_bits
        };
        let used_dist: u32 = used_len + (table.dist_bits[dist_code as usize] as u32);
        assert(length == spec_len_value(*table, bits));
        assert(add_bits <= 25);
        assert(1u64 << (add_bits as u64) >= 1) by (bit_vector)
            requires
                add_bits <= 25,
        ;
        let mask_add: u64 = (1u64 << (add_bits as u64)) - 1;
        let raw: u64 = ((dist_code as u64) << (add_bits as u64)) | ((bits >> (used_dist as u64))
            & mask_add);
        assert(raw < 0x8000_0000u64) by (bit_vector)
            requires
                dist_code < 64,
                add_bits <= 25,
                mask_add == (1u64 << (add_bits as u64)) - 1,
                raw == ((dist_code as u64) << (add_bits as u64)) | ((bits >> (used_dist as u64))
                    & mask_add),
        ;
        let total: u32 = used_dist + add_bits;

        if nbits < total {
            return Err(BitDecodeError::NotEnoughBits(total - nbits));
        }
        return Ok(
            BitDecodeOutput {
                decoded: Symbol::Pair { distance: (raw as u32) + 1, length: length + 2 },
                used_bits: total,
            },
        );
    } else {
        if nbits < 9 {
            return Err(BitDecodeError::NotEnoughBits(9 - nbits));
        }
        return Ok(BitDecodeOutput { decoded: Symbol::Literal(next_byte as u8), used_bits: 9 });
    }
}

/// Literal decode exhaustiveness: every byte value, encoded as a class-0
/// symbol (the byte shifted over the class bit) with at least 9 available
/// bits, decodes to exactly that literal, consuming exactly 9 bits — for
/// every table and every dictionary width.
pub proof fn lemma_literal_exhaustive(t: CodeTable, b: u64, nbits: u32, dict_bits: u32)
    requires
        b < 256,
        nbits >= 9,
    ensures
        spec_decode(t, b << 1u64, nbits, dict_bits) == Ok::<BitDecodeOutput<Symbol>, BitDecodeError>(
            (BitDecodeOutput { decoded: Symbol::Literal(b as u8), used_bits: 9u32 }),
        ),
{
    assert((b << 1u64) & 1u64 != 1u64) by (bit_vector);
    assert(((b << 1u64) >> 1u64) & 0xffu64 == b) by (bit_vector)
        requires
            b < 256,
    ;
}

/// Insufficient-bits boundary: with fewer than 9 bits available, any class-0
/// pattern reports exactly how many more bits are needed and never yields a
/// symbol.
pub proof fn lemma_literal_insufficient(t: CodeTable, bits: u64, nbits: u32, dict_bits: u32)
    requires
        bits & 1u64 != 1u64,
        nbits < 9,
    ensures
        spec_decode(t, bits, nbits, dict_bits) == Err::<BitDecodeOutput<Symbol>, BitDecodeError>(
            BitDecodeError::NotEnoughBits((9 - nbits) as u32),
        ),
{
}

/// End marker: when the class bit is 1 and the length path resolves to the
/// reserved end value, the symbol is End, consuming exactly the bits of the
/// length path — no distance field is read, so the result is the same for
/// every dictionary width and for every sufficient bit count.
pub proof fn lemma_end_marker(t: CodeTable, bits: u64, nbits: u32, dict_bits: u32)
    requires
        spec_is_pair(bits),
        spec_len_value(t, bits) == END,
        nbits >= spec_len_used(t, bits),
    ensures
        spec_decode(t, bits, nbits, dict_bits) == Ok::<BitDecodeOutput<Symbol>, BitDecodeError>(
            (BitDecodeOutput { decoded: Symbol::End, used_bits: spec_len_used(t, bits) as u32 }),
        ),
{
}

/// Pair decoding: when the class bit is 1 and the length path does not
/// resolve to the end value, the decoded pair carries exactly the distance
/// and length given by the wire-format formulas, and the bits consumed are
/// the sum of the class bit, the length-code bits, the extra bits, the
/// distance-code bits and the trailing literal width.
pub proof fn lemma_pair_decode(t: CodeTable, bits: u64, nbits: u32, dict_bits: u32)
    requires
        spec_is_pair(bits),
        spec_len_value(t, bits) != END,
        nbits >= spec_pair_used(t, bits, dict_bits),
    ensures
        spec_decode(t, bits, nbits, dict_bits) == Ok::<BitDecodeOutput<Symbol>, BitDecodeError>(
            (BitDecodeOutput {
                decoded: Symbol::Pair {
                    distance: spec_distance(t, bits, dict_bits) as u32,
                    length: (spec_len_value(t, bits) + 2) as u32,
                },
                used_bits: spec_pair_used(t, bits, dict_bits) as u32,
            }),
        ),
        spec_pair_used(t, bits, dict_bits) == 1 + spec_len_code_width(t, bits)
            + spec_len_extra_width(t, bits) + t.dist_bits[spec_dist_code(t, bits)]
            + spec_trail_width(t, bits, dict_bits),
{
}

} // verus!
