//! Implicit attributes: values stored at a fixed word offset of an element's
//! implicit block and decoded by the attribute's storage type. Floating-point
//! values are kept as their IEEE-754 bits.
use vstd::prelude::*;
use vstd::slice::slice_subrange;
use crate::helper::{be_i32_at, be_u32_at, be_u64_at, read_be_i32, read_be_u32, read_be_u64, str_is};
use crate::db_tool::{db1_dehash, dehash_spec, UDA_HASH_BASE, NAME_HASH_BASE};
use crate::pdms_types::{DbAttributeType, RefU64};
use crate::parser::combinator::ParseFailure;
use crate::text::push_char;

verus! {

/// A floating-point number as its IEEE-754 bits: a single-precision value, or a
/// double-precision value that its users read as single precision (rounded).
#[derive(Debug, Clone, Copy, PartialEq, Eq, Structural)]
pub enum FloatBits {
    Single(u32),
    Double(u64),
}

/// The decoded value of an attribute.
#[derive(Debug, Clone)]
pub enum NamedAttrValue {
    IntegerType(i32),
    F32Type(FloatBits),
    BoolType(bool),
    StringType(String),
    RefU64Type(RefU64),
    WordType(String),
    Vec3Type([FloatBits; 3]),
    F32VecType(Vec<FloatBits>),
    IntArrayType(Vec<i32>),
    InvalidType,
}

/// The mathematical form of an attribute value.
pub enum AttrValueModel {
    IntegerType(i32),
    F32Type(FloatBits),
    BoolType(bool),
    StringType(Seq<char>),
    RefU64Type(u64),
    WordType(Seq<char>),
    Vec3Type(FloatBits, FloatBits, FloatBits),
    F32VecType(Seq<FloatBits>),
    IntArrayType(Seq<i32>),
    InvalidType,
}

impl View for NamedAttrValue {
    type V = AttrValueModel;

    open spec fn view(&self) -> AttrValueModel {
        match self {
            NamedAttrValue::IntegerType(v) => AttrValueModel::IntegerType(*v),
            NamedAttrValue::F32Type(v) => AttrValueModel::F32Type(*v),
            NamedAttrValue::BoolType(v) => AttrValueModel::BoolType(*v),
            NamedAttrValue::StringType(v) => AttrValueModel::StringType(v@),
            NamedAttrValue::RefU64Type(v) => AttrValueModel::RefU64Type(v.0),
            NamedAttrValue::WordType(v) => AttrValueModel::WordType(v@),
            NamedAttrValue::Vec3Type(v) => AttrValueModel::Vec3Type(v@[0], v@[1], v@[2]),
            NamedAttrValue::F32VecType(v) => AttrValueModel::F32VecType(v@),
            NamedAttrValue::IntArrayType(v) => AttrValueModel::IntArrayType(v@),
            NamedAttrValue::InvalidType => AttrValueModel::InvalidType,
        }
    }
}

/// Where an implicit attribute is stored and how.
#[derive(Debug, Clone)]
pub struct ImplicitAttrOffset {
    /// The attribute's name.
    pub name: String,
    /// The low 16 bits are the word offset in the implicit block; for a flag, the
    /// bits from 20 on are the bit position within the word.
    pub offset: u32,
    /// The storage type.
    pub attr_type: DbAttributeType,
}

/// The count word at the start of `s` makes a block of `4 + width * count` bytes
/// that can be computed in `usize` (a negative count cannot).
pub open spec fn count_fits(s: Seq<u8>, width: int) -> bool {
    s.len() >= 4 ==> (be_i32_at(s, 0) >= 0 && 4 + width * be_i32_at(s, 0) <= usize::MAX)
}

/// `i32::unsigned_abs`.
pub open spec fn unsigned_abs(v: i32) -> u32 {
    if v < 0 {
        (-(v as int)) as u32
    } else {
        v as u32
    }
}

/// An `i32` read at the start.
pub open spec fn integer_spec(s: Seq<u8>) -> Option<AttrValueModel> {
    if s.len() >= 4 {
        Some(AttrValueModel::IntegerType(be_i32_at(s, 0)))
    } else {
        None
    }
}

/// A single-precision number, or in double mode a double-precision one.
pub open spec fn double_spec(s: Seq<u8>, is_f32: bool) -> Option<AttrValueModel> {
    if is_f32 {
        if s.len() >= 4 {
            Some(AttrValueModel::F32Type(FloatBits::Single(be_u32_at(s, 0))))
        } else {
            None
        }
    } else {
        if s.len() >= 8 {
            Some(AttrValueModel::F32Type(FloatBits::Double(be_u64_at(s, 0))))
        } else {
            None
        }
    }
}

/// The bit position of a flag, from the high bits of its offset.
pub open spec fn flag_bit(offset: u32) -> u32 {
    offset >> 20u32
}

/// A flag: bit `flag_bit(offset)` of the first word.
pub open spec fn bool_spec(s: Seq<u8>, offset: u32) -> Option<AttrValueModel> {
    if s.len() >= 4 {
        Some(AttrValueModel::BoolType(((be_i32_at(s, 0) >> flag_bit(offset)) & 1i32) == 1i32))
    } else {
        None
    }
}

/// The characters of `n` words from byte `start` on: each word holds one character
/// code in its low byte.
pub open spec fn word_chars(s: Seq<u8>, start: int, n: nat) -> Seq<char> {
    Seq::new(n, |k: int| s[start + 4 * k + 3] as char)
}

/// A string: a count word, then one word per character.
pub open spec fn string_spec(s: Seq<u8>) -> Option<AttrValueModel> {
    if s.len() >= 4 && s.len() >= 4 + 4 * be_i32_at(s, 0) {
        Some(AttrValueModel::StringType(word_chars(s, 4, be_i32_at(s, 0) as nat)))
    } else {
        None
    }
}

/// A reference number: the big-endian 64-bit number at the start.
pub open spec fn refno_spec(s: Seq<u8>) -> Option<AttrValueModel> {
    if s.len() >= 8 {
        Some(AttrValueModel::RefU64Type(be_u64_at(s, 0)))
    } else {
        None
    }
}

/// Whether `db1_dehash` accepts the word of a WORD attribute.
pub open spec fn word_dehash_ok(s: Seq<u8>) -> bool {
    s.len() >= 4 ==> (unsigned_abs(be_i32_at(s, 0)) > UDA_HASH_BASE || unsigned_abs(
        be_i32_at(s, 0),
    ) >= NAME_HASH_BASE)
}

/// A word: the name of the hash at the start (read without its sign).
pub open spec fn word_spec(s: Seq<u8>) -> Option<AttrValueModel> {
    if s.len() >= 4 {
        Some(AttrValueModel::WordType(dehash_spec(unsigned_abs(be_i32_at(s, 0)))))
    } else {
        None
    }
}

/// `n` floating-point numbers from byte `start` on, of 4 bytes each in single mode
/// and 8 bytes in double mode.
pub open spec fn float_words(s: Seq<u8>, start: int, n: nat, is_f32: bool) -> Seq<FloatBits> {
    Seq::new(
        n,
        |k: int|
            if is_f32 {
                FloatBits::Single(be_u32_at(s, start + 4 * k))
            } else {
                FloatBits::Double(be_u64_at(s, start + 8 * k))
            },
    )
}

/// A position or direction: a length word, then three numbers.
pub open spec fn vec3_spec(s: Seq<u8>, is_f32: bool) -> Option<AttrValueModel> {
    if s.len() >= (if is_f32 { 16int } else { 28int }) {
        let w = float_words(s, 4, 3, is_f32);
        Some(AttrValueModel::Vec3Type(w[0], w[1], w[2]))
    } else {
        None
    }
}

/// The width in bytes of one number of an array.
pub open spec fn float_width(is_f32: bool) -> int {
    if is_f32 {
        4
    } else {
        8
    }
}

/// An array of numbers: a count word, then the numbers.
pub open spec fn double_array_spec(s: Seq<u8>, is_f32: bool) -> Option<AttrValueModel> {
    if s.len() >= 4 && s.len() >= 4 + float_width(is_f32) * be_i32_at(s, 0) {
        Some(AttrValueModel::F32VecType(float_words(s, 4, be_i32_at(s, 0) as nat, is_f32)))
    } else {
        None
    }
}

/// Whether an integer array attribute stores its length (`LEVEL`, `PTS`); the others
/// hold one element after the first word.
pub open spec fn counted_array(name: Seq<char>) -> bool {
    name == "LEVEL"@ || name == "PTS"@
}

/// The number of elements of an integer array attribute.
pub open spec fn int_array_count(s: Seq<u8>, name: Seq<char>) -> int {
    if counted_array(name) {
        be_i32_at(s, 0) as int
    } else {
        1
    }
}

/// `n` words from byte `start` on.
pub open spec fn int_words(s: Seq<u8>, start: int, n: nat) -> Seq<i32> {
    Seq::new(n, |k: int| be_i32_at(s, start + 4 * k))
}

/// An integer array: after the first word, `int_array_count` words.
pub open spec fn int_array_spec(s: Seq<u8>, name: Seq<char>) -> Option<AttrValueModel> {
    if s.len() >= 4 && s.len() >= 4 + 4 * int_array_count(s, name) {
        Some(AttrValueModel::IntArrayType(int_words(s, 4, int_array_count(s, name) as nat)))
    } else {
        None
    }
}

/// Whether the attribute type has a decoder.
pub open spec fn known_type(t: DbAttributeType) -> bool {
    match t {
        DbAttributeType::INTEGER | DbAttributeType::DOUBLE | DbAttributeType::BOOL
        | DbAttributeType::STRING | DbAttributeType::ELEMENT | DbAttributeType::WORD
        | DbAttributeType::Vec3Type | DbAttributeType::DOUBLEVEC | DbAttributeType::INTVEC => true,
        _ => false,
    }
}

/// The value that the decoder of type `t` reads from `data`.
pub open spec fn typed_value_spec(
    t: DbAttributeType,
    data: Seq<u8>,
    offset: u32,
    name: Seq<char>,
    is_f32: bool,
) -> Option<AttrValueModel> {
    match t {
        DbAttributeType::INTEGER => integer_spec(data),
        DbAttributeType::DOUBLE => double_spec(data, is_f32),
        DbAttributeType::BOOL => bool_spec(data, offset),
        DbAttributeType::STRING => string_spec(data),
        DbAttributeType::ELEMENT => refno_spec(data),
        DbAttributeType::WORD => word_spec(data),
        DbAttributeType::Vec3Type => vec3_spec(data, is_f32),
        DbAttributeType::DOUBLEVEC => double_array_spec(data, is_f32),
        DbAttributeType::INTVEC => int_array_spec(data, name),
        _ => Some(AttrValueModel::InvalidType),
    }
}

/// What the decoder of type `t` needs of `data` not to fail on arithmetic.
pub open spec fn typed_value_ok(
    t: DbAttributeType,
    data: Seq<u8>,
    offset: u32,
    name: Seq<char>,
    is_f32: bool,
) -> bool {
    match t {
        DbAttributeType::BOOL => data.len() >= 4 ==> flag_bit(offset) < 32,
        DbAttributeType::STRING => count_fits(data, 4),
        DbAttributeType::WORD => word_dehash_ok(data),
        DbAttributeType::DOUBLEVEC => count_fits(data, float_width(is_f32)),
        DbAttributeType::INTVEC => counted_array(name) ==> count_fits(data, 4),
        _ => true,
    }
}

/// The byte at which an implicit attribute starts: its word offset times 4, moved
/// back by `f32_neg_offset` words in single-precision mode (not below 0).
pub open spec fn implicit_start(offset: u32, is_f32: bool, f32_neg_offset: usize) -> int {
    let bytes = (offset & 0xFFFFu32) as int * 4;
    if is_f32 {
        if bytes >= f32_neg_offset * 4 {
            bytes - f32_neg_offset * 4
        } else {
            0
        }
    } else {
        bytes
    }
}

/// What `parse_implicit_attr_value` gives: nothing when the start is past the end or
/// the decoder fails; otherwise the data from the start and its value; for a type
/// without a decoder, the whole input and `InvalidType`.
pub open spec fn implicit_value_spec(
    input: Seq<u8>,
    offset: u32,
    t: DbAttributeType,
    name: Seq<char>,
    is_f32: bool,
    f32_neg_offset: usize,
) -> Option<(Seq<u8>, AttrValueModel)> {
    let st = implicit_start(offset, is_f32, f32_neg_offset);
    if st >= input.len() {
        None
    } else if !known_type(t) {
        Some((input, AttrValueModel::InvalidType))
    } else {
        let data = input.subrange(st, input.len() as int);
        match typed_value_spec(t, data, offset, name, is_f32) {
            Some(v) => Some((data, v)),
            None => None,
        }
    }
}

/// Decodes an `i32`.
pub fn parse_integer(input: &[u8]) -> (r: Result<(&[u8], NamedAttrValue), ParseFailure>)
    ensures
        match r {
            Ok((rest, v)) => rest@ == input@ && integer_spec(input@) == Some(v@),
            Err(e) => e == ParseFailure::Eof && integer_spec(input@) is None,
        },
{
    if input.len() < 4 {
        return Err(ParseFailure::Eof);
    }
    Ok((input, NamedAttrValue::IntegerType(read_be_i32(input, 0))))
}

/// Decodes a floating-point number (single or double precision).
pub fn parse_double(input: &[u8], is_f32: bool) -> (r: Result<(&[u8], NamedAttrValue), ParseFailure>)
    ensures
        match r {
            Ok((rest, v)) => rest@ == input@ && double_spec(input@, is_f32) == Some(v@),
            Err(e) => e == ParseFailure::Eof && double_spec(input@, is_f32) is None,
        },
{
    if is_f32 {
        if input.len() < 4 {
            return Err(ParseFailure::Eof);
        }
        Ok((input, NamedAttrValue::F32Type(FloatBits::Single(read_be_u32(input, 0)))))
    } else {
        if input.len() < 8 {
            return Err(ParseFailure::Eof);
        }
        Ok((input, NamedAttrValue::F32Type(FloatBits::Double(read_be_u64(input, 0)))))
    }
}

/// Decodes a flag: the bit that the high bits of `offset` select in the first word.
pub fn parse_bool(input: &[u8], offset: u32) -> (r: Result<(&[u8], NamedAttrValue), ParseFailure>)
    requires
        input@.len() >= 4 ==> flag_bit(offset) < 32,
    ensures
        match r {
            Ok((rest, v)) => rest@ == input@ && bool_spec(input@, offset) == Some(v@),
            Err(e) => e == ParseFailure::Eof && bool_spec(input@, offset) is None,
        },
{
    if input.len() < 4 {
        return Err(ParseFailure::Eof);
    }
    let bit_position = offset >> 20u32;
    let value = read_be_i32(input, 0);
    let bool_value = ((value >> bit_position) & 1i32) == 1i32;
    Ok((input, NamedAttrValue::BoolType(bool_value)))
}

/// Decodes a string: a count word, then one character per word (in its low byte).
pub fn parse_string(input: &[u8]) -> (r: Result<(&[u8], NamedAttrValue), ParseFailure>)
    requires
        count_fits(input@, 4),
    ensures
        match r {
            Ok((rest, v)) => rest@ == input@ && string_spec(input@) == Some(v@),
            Err(e) => e == ParseFailure::Eof && string_spec(input@) is None,
        },
{
    if input.len() < 4 {
        return Err(ParseFailure::Eof);
    }
    let len = read_be_i32(input, 0) as usize;
    let data_end = 4 + len * 4;
    if input.len() < data_end {
        return Err(ParseFailure::Eof);
    }
    let mut s = String::new();
    let mut k: usize = 0;
    while k < len
        invariant
            len == be_i32_at(input@, 0),
            4 + 4 * len <= input@.len(),
            4 + 4 * len <= usize::MAX,
            k <= len,
            s@ == word_chars(input@, 4, k as nat),
        decreases len - k,
    {
        let b = input[4 + 4 * k + 3];
        push_char(&mut s, b as char);
        k = k + 1;
        assert(s@ =~= word_chars(input@, 4, k as nat));
    }
    Ok((input, NamedAttrValue::StringType(s)))
}

/// Decodes a reference number.
pub fn parse_refno(input: &[u8]) -> (r: Result<(&[u8], NamedAttrValue), ParseFailure>)
    ensures
        match r {
            Ok((rest, v)) => rest@ == input@ && refno_spec(input@) == Some(v@),
            Err(e) => e == ParseFailure::Eof && refno_spec(input@) is None,
        },
{
    if input.len() < 8 {
        return Err(ParseFailure::Eof);
    }
    Ok((input, NamedAttrValue::RefU64Type(RefU64::from_bytes(input))))
}

/// Decodes a word: the name of the hash in the first word, read without its sign.
pub fn parse_word(input: &[u8]) -> (r: Result<(&[u8], NamedAttrValue), ParseFailure>)
    requires
        word_dehash_ok(input@),
    ensures
        match r {
            Ok((rest, v)) => rest@ == input@ && word_spec(input@) == Some(v@),
            Err(e) => e == ParseFailure::Eof && word_spec(input@) is None,
        },
{
    if input.len() < 4 {
        return Err(ParseFailure::Eof);
    }
    let value = read_be_i32(input, 0);
    let magnitude: u32 = if value < 0 {
        (-(value as i64)) as u32
    } else {
        value as u32
    };
    Ok((input, NamedAttrValue::WordType(db1_dehash(magnitude))))
}

fn read_float(input: &[u8], off: usize, is_f32: bool) -> (f: FloatBits)
    requires
        off + float_width(is_f32) <= input@.len(),
    ensures
        f == (if is_f32 {
            FloatBits::Single(be_u32_at(input@, off as int))
        } else {
            FloatBits::Double(be_u64_at(input@, off as int))
        }),
{
    if is_f32 {
        FloatBits::Single(read_be_u32(input, off))
    } else {
        FloatBits::Double(read_be_u64(input, off))
    }
}

/// Decodes a position or direction: a length word, then three numbers.
pub fn parse_vec3(input: &[u8], is_f32: bool) -> (r: Result<(&[u8], NamedAttrValue), ParseFailure>)
    ensures
        match r {
            Ok((rest, v)) => rest@ == input@ && vec3_spec(input@, is_f32) == Some(v@),
            Err(e) => e == ParseFailure::Eof && vec3_spec(input@, is_f32) is None,
        },
{
    let need: usize = if is_f32 { 16 } else { 28 };
    if input.len() < need {
        return Err(ParseFailure::Eof);
    }
    let w: usize = if is_f32 { 4 } else { 8 };
    let x = read_float(input, 4, is_f32);
    let y = read_float(input, 4 + w, is_f32);
    let z = read_float(input, 4 + 2 * w, is_f32);
    let ghost fw = float_words(input@, 4, 3, is_f32);
    assert(fw[0] == x && fw[1] == y && fw[2] == z);
    Ok((input, NamedAttrValue::Vec3Type([x, y, z])))
}

/// Decodes an array of numbers: a count word, then the numbers.
pub fn parse_double_array(input: &[u8], is_f32: bool) -> (r: Result<(&[u8], NamedAttrValue), ParseFailure>)
    requires
        count_fits(input@, float_width(is_f32)),
    ensures
        match r {
            Ok((rest, v)) => rest@ == input@ && double_array_spec(input@, is_f32) == Some(v@),
            Err(e) => e == ParseFailure::Eof && double_array_spec(input@, is_f32) is None,
        },
{
    if input.len() < 4 {
        return Err(ParseFailure::Eof);
    }
    let count = read_be_i32(input, 0) as usize;
    let w: usize = if is_f32 { 4 } else { 8 };
    let data_end = 4 + count * w;
    if input.len() < data_end {
        return Err(ParseFailure::Eof);
    }
    let mut values: Vec<FloatBits> = Vec::new();
    let mut k: usize = 0;
    while k < count
        invariant
            count == be_i32_at(input@, 0),
            w == float_width(is_f32),
            4 + w * count <= input@.len(),
            4 + w * count <= usize::MAX,
            k <= count,
            values@ == float_words(input@, 4, k as nat, is_f32),
        decreases count - k,
    {
        assert(4 + w * k + w <= 4 + w * count) by (nonlinear_arith)
            requires
                k < count,
                w >= 0,
        ;
        values.push(read_float(input, 4 + w * k, is_f32));
        k = k + 1;
        assert(values@ =~= float_words(input@, 4, k as nat, is_f32));
    }
    Ok((input, NamedAttrValue::F32VecType(values)))
}

/// Decodes an integer array: `LEVEL` and `PTS` store their length in the first word;
/// any other holds one element after it.
pub fn parse_int_array<'a>(input: &'a [u8], attr_name: &str) -> (r: Result<(&'a [u8], NamedAttrValue), ParseFailure>)
    requires
        counted_array(attr_name@) ==> count_fits(input@, 4),
    ensures
        match r {
            Ok((rest, v)) => rest@ == input@ && int_array_spec(input@, attr_name@) == Some(v@),
            Err(e) => e == ParseFailure::Eof && int_array_spec(input@, attr_name@) is None,
        },
{
    if input.len() < 4 {
        return Err(ParseFailure::Eof);
    }
    proof {
        reveal_strlit("LEVEL");
        reveal_strlit("PTS");
    }
    let counted = str_is(attr_name, "LEVEL") || str_is(attr_name, "PTS");
    let count: usize = if counted { read_be_i32(input, 0) as usize } else { 1 };
    assert(count == int_array_count(input@, attr_name@));
    let data_end = 4 + count * 4;
    if input.len() < data_end {
        return Err(ParseFailure::Eof);
    }
    let mut values: Vec<i32> = Vec::new();
    let mut k: usize = 0;
    while k < count
        invariant
            count == int_array_count(input@, attr_name@),
            4 + 4 * count <= input@.len(),
            4 + 4 * count <= usize::MAX,
            k <= count,
            values@ == int_words(input@, 4, k as nat),
        decreases count - k,
    {
        values.push(read_be_i32(input, 4 + 4 * k));
        k = k + 1;
        assert(values@ =~= int_words(input@, 4, k as nat));
    }
    Ok((input, NamedAttrValue::IntArrayType(values)))
}

/// Decodes the implicit attribute `attr_info` from an implicit block: finds its
/// start (see `implicit_start`) and decodes the data from there by its type; a type
/// without a decoder gives `InvalidType` and the whole input. Fails with `Eof` when
/// the start is past the end or the data is too short.
pub fn parse_implicit_attr_value<'a>(
    input: &'a [u8],
    attr_info: &ImplicitAttrOffset,
    is_f32: bool,
    f32_neg_offset: usize,
    _step: usize,
) -> (r: Result<(&'a [u8], NamedAttrValue), ParseFailure>)
    requires
        is_f32 ==> f32_neg_offset * 4 <= usize::MAX,
        implicit_start(attr_info.offset, is_f32, f32_neg_offset) < input@.len() ==> typed_value_ok(
            attr_info.attr_type,
            input@.subrange(
                implicit_start(attr_info.offset, is_f32, f32_neg_offset),
                input@.len() as int,
            ),
            attr_info.offset,
            attr_info.name@,
            is_f32,
        ),
    ensures
        match r {
            Ok((rest, v)) => implicit_value_spec(
                input@,
                attr_info.offset,
                attr_info.attr_type,
                attr_info.name@,
                is_f32,
                f32_neg_offset,
            ) == Some((rest@, v@)),
            Err(e) => e == ParseFailure::Eof && implicit_value_spec(
                input@,
                attr_info.offset,
                attr_info.attr_type,
                attr_info.name@,
                is_f32,
                f32_neg_offset,
            ) is None,
        },
{
    let off = attr_info.offset;
    assert(off & 0xFFFFu32 <= 0xFFFFu32) by (bit_vector);
    let offset_words = (off & 0xFFFFu32) as usize;
    let offset_bytes = offset_words * 4;
    let actual_offset = if is_f32 {
        let back = f32_neg_offset * 4;
        if offset_bytes >= back {
            offset_bytes - back
        } else {
            0
        }
    } else {
        offset_bytes
    };
    if actual_offset >= input.len() {
        return Err(ParseFailure::Eof);
    }
    let data = slice_subrange(input, actual_offset, input.len());
    match attr_info.attr_type {
        DbAttributeType::INTEGER => parse_integer(data),
        DbAttributeType::DOUBLE => parse_double(data, is_f32),
        DbAttributeType::BOOL => parse_bool(data, off),
        DbAttributeType::STRING => parse_string(data),
        DbAttributeType::ELEMENT => parse_refno(data),
        DbAttributeType::WORD => parse_word(data),
        DbAttributeType::Vec3Type => parse_vec3(data, is_f32),
        DbAttributeType::DOUBLEVEC => parse_double_array(data, is_f32),
        DbAttributeType::INTVEC => parse_int_array(data, attr_info.name.as_str()),
        _ => Ok((input, NamedAttrValue::InvalidType)),
    }
}

} // verus!
