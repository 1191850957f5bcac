//! Typed values read from raw memory, their comparisons, and the scan of a
//! memory buffer for values that match a target, lie in a range, or exist.
//!
//! Floating-point values are held by their IEEE-754 bit patterns. The
//! operations that need floating-point arithmetic (reading a float from text,
//! writing it as text, and the tolerance comparison of two floats) are done
//! by the caller, through a closure handed to the function that needs it.
use vstd::prelude::*;
use vstd::std_specs::cmp::PartialEqSpecImpl;
use crate::text::{
    ascii_lowercase, chars_of, contains, decimal, decimal_exec, equals_str, hex, hex_exec,
    is_ascii_text, lowercase, pad_left, pad_left_exec, push_all, push_str, signed_decimal,
    signed_decimal_exec, string_of, to_lowercase, trim, trimmed,
};
use crate::int_parse::{
    int_error_message, int_error_text, lemma_parse_signed_decimal, lemma_signed_decimal_trimmed,
    parse_int, parse_int_exec,
};

verus! {

/// The type of the values a scan looks for.
#[derive(Clone, Copy, Debug, PartialEq, Eq, Structural)]
pub enum ScanType {
    Int8,
    Int16,
    Int32,
    Int64,
    UInt8,
    UInt16,
    UInt32,
    UInt64,
    Float32,
    Float64,
}

/// The number of bytes of a value of type `t`.
pub open spec fn type_size(t: ScanType) -> nat {
    match t {
        ScanType::Int8 | ScanType::UInt8 => 1,
        ScanType::Int16 | ScanType::UInt16 => 2,
        ScanType::Int32 | ScanType::UInt32 | ScanType::Float32 => 4,
        ScanType::Int64 | ScanType::UInt64 | ScanType::Float64 => 8,
    }
}

/// The default scan step for type `t` (8-byte types are scanned on 4-byte steps).
pub open spec fn type_alignment(t: ScanType) -> nat {
    match t {
        ScanType::Int8 | ScanType::UInt8 => 1,
        ScanType::Int16 | ScanType::UInt16 => 2,
        _ => 4,
    }
}

/// The name under which type `t` is displayed.
pub open spec fn scan_type_label(t: ScanType) -> Seq<char> {
    match t {
        ScanType::Int8 => "int8"@,
        ScanType::UInt8 => "uint8"@,
        ScanType::Int16 => "int16"@,
        ScanType::UInt16 => "uint16"@,
        ScanType::Int32 => "int32"@,
        ScanType::UInt32 => "uint32"@,
        ScanType::Int64 => "int64"@,
        ScanType::UInt64 => "uint64"@,
        ScanType::Float32 => "float"@,
        ScanType::Float64 => "double"@,
    }
}

/// The type named by a lower-case name, among the accepted spellings.
pub open spec fn type_of_name(n: Seq<char>) -> Option<ScanType> {
    if n == "int8"@ || n == "i8"@ || n == "byte"@ {
        Some(ScanType::Int8)
    } else if n == "uint8"@ || n == "u8"@ {
        Some(ScanType::UInt8)
    } else if n == "int16"@ || n == "i16"@ || n == "short"@ {
        Some(ScanType::Int16)
    } else if n == "uint16"@ || n == "u16"@ {
        Some(ScanType::UInt16)
    } else if n == "int32"@ || n == "i32"@ || n == "int"@ || n == "number"@ {
        Some(ScanType::Int32)
    } else if n == "uint32"@ || n == "u32"@ {
        Some(ScanType::UInt32)
    } else if n == "int64"@ || n == "i64"@ || n == "long"@ {
        Some(ScanType::Int64)
    } else if n == "uint64"@ || n == "u64"@ {
        Some(ScanType::UInt64)
    } else if n == "float"@ || n == "f32"@ || n == "single"@ {
        Some(ScanType::Float32)
    } else if n == "double"@ || n == "f64"@ {
        Some(ScanType::Float64)
    } else {
        None
    }
}

/// The type guessed for a value written as text: `Float32` when it has a
/// `.`, else `Int32` or `Int64` by the range of the `i64` it reads as, else `Int32`.
pub open spec fn detected_type(v: Seq<char>) -> ScanType {
    if contains(v, seq!['.']) {
        ScanType::Float32
    } else {
        match parse_int(v, 10, true, i64::MIN as int, i64::MAX as int) {
            Ok(n) => if i32::MIN <= n <= i32::MAX {
                ScanType::Int32
            } else {
                ScanType::Int64
            },
            Err(_) => ScanType::Int32,
        }
    }
}

/// The name under which a type is displayed is ASCII, already lower case,
/// and names that type again: `from_str` reads back what `to_string` writes.
pub proof fn lemma_label_names_type(t: ScanType)
    ensures
        type_of_name(scan_type_label(t)) == Some(t),
        is_ascii_text(scan_type_label(t)),
        ascii_lowercase(scan_type_label(t)) == scan_type_label(t),
        type_of_name(ascii_lowercase(scan_type_label(t))) == Some(t),
{
    reveal_strlit("int8");
    reveal_strlit("i8");
    reveal_strlit("byte");
    reveal_strlit("uint8");
    reveal_strlit("u8");
    reveal_strlit("int16");
    reveal_strlit("i16");
    reveal_strlit("short");
    reveal_strlit("uint16");
    reveal_strlit("u16");
    reveal_strlit("int32");
    reveal_strlit("i32");
    reveal_strlit("int");
    reveal_strlit("number");
    reveal_strlit("uint32");
    reveal_strlit("u32");
    reveal_strlit("int64");
    reveal_strlit("i64");
    reveal_strlit("long");
    reveal_strlit("uint64");
    reveal_strlit("u64");
    reveal_strlit("float");
    reveal_strlit("f32");
    reveal_strlit("single");
    reveal_strlit("double");
    reveal_strlit("f64");
    assert("int8"@.len() == 4);
    assert("i8"@.len() == 2);
    assert("byte"@.len() == 4);
    assert("uint8"@.len() == 5);
    assert("u8"@.len() == 2);
    assert("int16"@.len() == 5);
    assert("i16"@.len() == 3);
    assert("short"@.len() == 5);
    assert("uint16"@.len() == 6);
    assert("u16"@.len() == 3);
    assert("int32"@.len() == 5);
    assert("i32"@.len() == 3);
    assert("int"@.len() == 3);
    assert("number"@.len() == 6);
    assert("uint32"@.len() == 6);
    assert("u32"@.len() == 3);
    assert("int64"@.len() == 5);
    assert("i64"@.len() == 3);
    assert("long"@.len() == 4);
    assert("uint64"@.len() == 6);
    assert("u64"@.len() == 3);
    assert("float"@.len() == 5);
    assert("f32"@.len() == 3);
    assert("single"@.len() == 6);
    assert("double"@.len() == 6);
    assert("f64"@.len() == 3);
    match t {
        ScanType::Int8 => {
            assert(type_of_name(scan_type_label(t)) == Some(t));
        },
        ScanType::UInt8 => {
            assert(type_of_name(scan_type_label(t)) == Some(t));
        },
        ScanType::Int16 => {
            assert("int16"@[0] != "uint8"@[0]);
            assert(type_of_name(scan_type_label(t)) == Some(t));
        },
        ScanType::UInt16 => {
            assert(type_of_name(scan_type_label(t)) == Some(t));
        },
        ScanType::Int32 => {
            assert("int32"@[0] != "uint8"@[0]);
            assert("int32"@[3] != "int16"@[3]);
            assert("int32"@[0] != "short"@[0]);
            assert(type_of_name(scan_type_label(t)) == Some(t));
        },
        ScanType::UInt32 => {
            assert("uint32"@[4] != "uint16"@[4]);
            assert("uint32"@[0] != "number"@[0]);
            assert(type_of_name(scan_type_label(t)) == Some(t));
        },
        ScanType::Int64 => {
            assert("int64"@[0] != "uint8"@[0]);
            assert("int64"@[3] != "int16"@[3]);
            assert("int64"@[0] != "short"@[0]);
            assert("int64"@[3] != "int32"@[3]);
            assert(type_of_name(scan_type_label(t)) == Some(t));
        },
        ScanType::UInt64 => {
            assert("uint64"@[4] != "uint16"@[4]);
            assert("uint64"@[0] != "number"@[0]);
            assert("uint64"@[4] != "uint32"@[4]);
            assert(type_of_name(scan_type_label(t)) == Some(t));
        },
        ScanType::Float32 => {
            assert("float"@[0] != "uint8"@[0]);
            assert("float"@[0] != "int16"@[0]);
            assert("float"@[0] != "short"@[0]);
            assert("float"@[0] != "int32"@[0]);
            assert("float"@[0] != "int64"@[0]);
            assert(type_of_name(scan_type_label(t)) == Some(t));
        },
        ScanType::Float64 => {
            assert("double"@[0] != "uint16"@[0]);
            assert("double"@[0] != "number"@[0]);
            assert("double"@[0] != "uint32"@[0]);
            assert("double"@[0] != "uint64"@[0]);
            assert("double"@[0] != "single"@[0]);
            assert(type_of_name(scan_type_label(t)) == Some(t));
        },
    }
}

impl ScanType {
    /// The number of bytes of a value of this type.
    pub fn size(&self) -> (res: usize)
        ensures
            res == type_size(*self),
    {
        match self {
            ScanType::Int8 | ScanType::UInt8 => 1,
            ScanType::Int16 | ScanType::UInt16 => 2,
            ScanType::Int32 | ScanType::UInt32 | ScanType::Float32 => 4,
            ScanType::Int64 | ScanType::UInt64 | ScanType::Float64 => 8,
        }
    }

    /// The default scan step for this type.
    pub fn alignment(&self) -> (res: usize)
        ensures
            res == type_alignment(*self),
    {
        match self {
            ScanType::Int8 | ScanType::UInt8 => 1,
            ScanType::Int16 | ScanType::UInt16 => 2,
            ScanType::Int32 | ScanType::UInt32 | ScanType::Float32 => 4,
            ScanType::Int64 | ScanType::UInt64 | ScanType::Float64 => 4,
        }
    }

    /// The type a lower-case name stands for.
    pub fn from_lowercase_name(n: &str) -> (res: Option<ScanType>)
        ensures
            res == type_of_name(n@),
    {
        let v = chars_of(n);
        let s = v.as_slice();
        if equals_str(s, "int8") || equals_str(s, "i8") || equals_str(s, "byte") {
            Some(ScanType::Int8)
        } else if equals_str(s, "uint8") || equals_str(s, "u8") {
            Some(ScanType::UInt8)
        } else if equals_str(s, "int16") || equals_str(s, "i16") || equals_str(s, "short") {
            Some(ScanType::Int16)
        } else if equals_str(s, "uint16") || equals_str(s, "u16") {
            Some(ScanType::UInt16)
        } else if equals_str(s, "int32") || equals_str(s, "i32") || equals_str(s, "int")
            || equals_str(s, "number") {
            Some(ScanType::Int32)
        } else if equals_str(s, "uint32") || equals_str(s, "u32") {
            Some(ScanType::UInt32)
        } else if equals_str(s, "int64") || equals_str(s, "i64") || equals_str(s, "long") {
            Some(ScanType::Int64)
        } else if equals_str(s, "uint64") || equals_str(s, "u64") {
            Some(ScanType::UInt64)
        } else if equals_str(s, "float") || equals_str(s, "f32") || equals_str(s, "single") {
            Some(ScanType::Float32)
        } else if equals_str(s, "double") || equals_str(s, "f64") {
            Some(ScanType::Float64)
        } else {
            None
        }
    }

    /// The type a name stands for, compared without regard to case.
    pub fn from_str(s: &str) -> (res: Option<ScanType>)
        ensures
            res == type_of_name(lowercase(s@)),
            is_ascii_text(s@) ==> res == type_of_name(ascii_lowercase(s@)),
    {
        let lower = to_lowercase(s);
        ScanType::from_lowercase_name(lower.as_str())
    }

    /// The type guessed for a value written as text.
    pub fn detect(value: &str) -> (res: ScanType)
        ensures
            res == detected_type(value@),
    {
        let v = chars_of(value);
        let dot: Vec<char> = vec!['.'];
        assert(dot@ =~= seq!['.']);
        if crate::text::contains_exec(v.as_slice(), dot.as_slice()) {
            ScanType::Float32
        } else {
            match parse_int_exec(
                v.as_slice(),
                10,
                true,
                -0x8000_0000_0000_0000i128,
                0x7fff_ffff_ffff_ffffi128,
            ) {
                Ok(n) => if -0x8000_0000i128 <= n && n <= 0x7fff_ffffi128 {
                    ScanType::Int32
                } else {
                    ScanType::Int64
                },
                Err(_) => ScanType::Int32,
            }
        }
    }

    /// The name under which this type is displayed.
    pub fn to_string(&self) -> (res: String)
        ensures
            res@ == scan_type_label(*self),
    {
        broadcast use vstd::string::group_string_axioms;

        match self {
            ScanType::Int8 => "int8".to_string(),
            ScanType::UInt8 => "uint8".to_string(),
            ScanType::Int16 => "int16".to_string(),
            ScanType::UInt16 => "uint16".to_string(),
            ScanType::Int32 => "int32".to_string(),
            ScanType::UInt32 => "uint32".to_string(),
            ScanType::Int64 => "int64".to_string(),
            ScanType::UInt64 => "uint64".to_string(),
            ScanType::Float32 => "float".to_string(),
            ScanType::Float64 => "double".to_string(),
        }
    }

    /// This type holds a floating-point value.
    pub fn is_float(&self) -> (res: bool)
        ensures
            res == (*self == ScanType::Float32 || *self == ScanType::Float64),
    {
        match self {
            ScanType::Float32 | ScanType::Float64 => true,
            _ => false,
        }
    }
}

// ---------------------------------------------------------------------------
// Values and their byte representation
// ---------------------------------------------------------------------------

/// A value of one of the scan types. `F32` and `F64` hold the IEEE-754 bit
/// pattern of the floating-point value.
#[derive(Clone, Copy, Debug)]
pub enum ParsedValue {
    I8(i8),
    U8(u8),
    I16(i16),
    U16(u16),
    I32(i32),
    U32(u32),
    I64(i64),
    U64(u64),
    F32(u32),
    F64(u64),
}

/// The order of the bytes of a multi-byte value in memory.
#[derive(Clone, Copy, Debug, PartialEq, Eq, Structural)]
pub enum ByteOrder {
    Little,
    Big,
}

/// The scan type of a value.
pub open spec fn kind_of(v: ParsedValue) -> ScanType {
    match v {
        ParsedValue::I8(_) => ScanType::Int8,
        ParsedValue::U8(_) => ScanType::UInt8,
        ParsedValue::I16(_) => ScanType::Int16,
        ParsedValue::U16(_) => ScanType::UInt16,
        ParsedValue::I32(_) => ScanType::Int32,
        ParsedValue::U32(_) => ScanType::UInt32,
        ParsedValue::I64(_) => ScanType::Int64,
        ParsedValue::U64(_) => ScanType::UInt64,
        ParsedValue::F32(_) => ScanType::Float32,
        ParsedValue::F64(_) => ScanType::Float64,
    }
}

/// 256 to the power `n`.
pub open spec fn pow256(n: nat) -> nat
    decreases n,
{
    if n == 0 {
        1
    } else {
        256 * pow256((n - 1) as nat)
    }
}

/// The unsigned number whose little-endian bytes are `b`.
pub open spec fn unsigned_le(b: Seq<u8>) -> nat
    decreases b.len(),
{
    if b.len() == 0 {
        0
    } else {
        b[0] as nat + 256 * unsigned_le(b.drop_first())
    }
}

/// The unsigned number whose big-endian bytes are `b`.
pub open spec fn unsigned_be(b: Seq<u8>) -> nat
    decreases b.len(),
{
    if b.len() == 0 {
        0
    } else {
        unsigned_be(b.drop_last()) * 256 + b.last() as nat
    }
}

/// The unsigned number whose bytes in order `o` are `b`.
pub open spec fn unsigned_in(b: Seq<u8>, o: ByteOrder) -> nat {
    match o {
        ByteOrder::Little => unsigned_le(b),
        ByteOrder::Big => unsigned_be(b),
    }
}

/// The two's complement reading of an unsigned number of `n` bytes.
pub open spec fn signed_of(raw: nat, n: nat) -> int {
    if raw < pow256(n) / 2 {
        raw as int
    } else {
        raw - pow256(n)
    }
}

/// The value of type `t` whose bits, read as an unsigned number, are `raw`.
pub open spec fn value_of_raw(raw: nat, t: ScanType) -> ParsedValue {
    match t {
        ScanType::Int8 => ParsedValue::I8(signed_of(raw, 1) as i8),
        ScanType::UInt8 => ParsedValue::U8(raw as u8),
        ScanType::Int16 => ParsedValue::I16(signed_of(raw, 2) as i16),
        ScanType::UInt16 => ParsedValue::U16(raw as u16),
        ScanType::Int32 => ParsedValue::I32(signed_of(raw, 4) as i32),
        ScanType::UInt32 => ParsedValue::U32(raw as u32),
        ScanType::Int64 => ParsedValue::I64(signed_of(raw, 8) as i64),
        ScanType::UInt64 => ParsedValue::U64(raw as u64),
        ScanType::Float32 => ParsedValue::F32(raw as u32),
        ScanType::Float64 => ParsedValue::F64(raw as u64),
    }
}

/// The bits of a value read as an unsigned number (two's complement for the
/// signed types, the bit pattern for the floating-point ones).
pub open spec fn raw_of(v: ParsedValue) -> nat {
    match v {
        ParsedValue::I8(x) => (if x < 0 { x + 0x100 } else { x as int }) as nat,
        ParsedValue::U8(x) => x as nat,
        ParsedValue::I16(x) => (if x < 0 { x + 0x1_0000 } else { x as int }) as nat,
        ParsedValue::U16(x) => x as nat,
        ParsedValue::I32(x) => (if x < 0 { x + 0x1_0000_0000 } else { x as int }) as nat,
        ParsedValue::U32(x) => x as nat,
        ParsedValue::I64(x) => (if x < 0 { x + 0x1_0000_0000_0000_0000 } else { x as int }) as nat,
        ParsedValue::U64(x) => x as nat,
        ParsedValue::F32(x) => x as nat,
        ParsedValue::F64(x) => x as nat,
    }
}

/// The value of type `t` stored in the first bytes of `bytes` in order `o`,
/// or nothing when `bytes` is too short.
pub open spec fn value_from_bytes(bytes: Seq<u8>, t: ScanType, o: ByteOrder) -> Option<
    ParsedValue,
> {
    if bytes.len() < type_size(t) {
        None
    } else {
        Some(value_of_raw(unsigned_in(bytes.take(type_size(t) as int), o), t))
    }
}

/// The `n` little-endian bytes of `v` (taken modulo `256^n`).
pub open spec fn le_bytes(v: nat, n: nat) -> Seq<u8>
    decreases n,
{
    if n == 0 {
        Seq::empty()
    } else {
        seq![(v % 256) as u8] + le_bytes(v / 256, (n - 1) as nat)
    }
}

/// The `n` bytes of `v` in order `o`.
pub open spec fn bytes_in(v: nat, n: nat, o: ByteOrder) -> Seq<u8> {
    match o {
        ByteOrder::Little => le_bytes(v, n),
        ByteOrder::Big => le_bytes(v, n).reverse(),
    }
}

/// The memory representation of `v` in order `o`.
pub open spec fn value_bytes(v: ParsedValue, o: ByteOrder) -> Seq<u8> {
    bytes_in(raw_of(v), type_size(kind_of(v)), o)
}

/// The powers of 256 used by the value sizes.
pub proof fn lemma_pow256_values()
    ensures
        pow256(0) == 1,
        pow256(1) == 0x100,
        pow256(2) == 0x1_0000,
        pow256(3) == 0x100_0000,
        pow256(4) == 0x1_0000_0000,
        pow256(5) == 0x100_0000_0000,
        pow256(6) == 0x1_0000_0000_0000,
        pow256(7) == 0x100_0000_0000_0000,
        pow256(8) == 0x1_0000_0000_0000_0000,
{
    reveal_with_fuel(pow256, 9);
}

/// Powers of 256 grow with the exponent.
pub proof fn lemma_pow256_mono(a: nat, b: nat)
    requires
        a <= b,
    ensures
        pow256(a) <= pow256(b),
    decreases b,
{
    if a < b {
        lemma_pow256_mono(a, (b - 1) as nat);
    }
}

/// A little-endian number of `n` bytes is below `256^n`.
pub proof fn lemma_unsigned_le_bound(b: Seq<u8>)
    ensures
        unsigned_le(b) < pow256(b.len()),
    decreases b.len(),
{
    if b.len() > 0 {
        lemma_unsigned_le_bound(b.drop_first());
    }
}

/// A big-endian number of `n` bytes is below `256^n`.
pub proof fn lemma_unsigned_be_bound(b: Seq<u8>)
    ensures
        unsigned_be(b) < pow256(b.len()),
    decreases b.len(),
{
    if b.len() > 0 {
        lemma_unsigned_be_bound(b.drop_last());
        assert(pow256(b.len()) == 256 * pow256((b.len() - 1) as nat));
    }
}

/// Reading reversed bytes big-endian is reading them little-endian.
pub proof fn lemma_be_of_reverse(b: Seq<u8>)
    ensures
        unsigned_be(b.reverse()) == unsigned_le(b),
    decreases b.len(),
{
    if b.len() > 0 {
        assert(b.reverse().drop_last() =~= b.drop_first().reverse());
        assert(b.reverse().last() == b[0]);
        lemma_be_of_reverse(b.drop_first());
    }
}

/// Writing `v` in `n` little-endian bytes and reading them back gives `v`.
pub proof fn lemma_le_round_trip(v: nat, n: nat)
    requires
        v < pow256(n),
    ensures
        le_bytes(v, n).len() == n,
        unsigned_le(le_bytes(v, n)) == v,
    decreases n,
{
    if n > 0 {
        let q = v / 256;
        let r = v % 256;
        assert(v == 256 * q + r && 0 <= r < 256) by (nonlinear_arith)
            requires
                q == v / 256,
                r == v % 256,
        ;
        assert(q < pow256((n - 1) as nat)) by (nonlinear_arith)
            requires
                v == 256 * q + r,
                0 <= r,
                v < 256 * pow256((n - 1) as nat),
        ;
        lemma_le_round_trip(q, (n - 1) as nat);
        let s = le_bytes(v, n);
        assert(s.drop_first() =~= le_bytes(q, (n - 1) as nat));
    }
}

/// The bits of a value fit in its size.
pub proof fn lemma_raw_bound(v: ParsedValue)
    ensures
        raw_of(v) < pow256(type_size(kind_of(v))),
{
    lemma_pow256_values();
}

/// Reading the bits of a value back gives the value.
pub proof fn lemma_value_of_raw(v: ParsedValue)
    ensures
        value_of_raw(raw_of(v), kind_of(v)) == v,
{
    lemma_pow256_values();
}

/// A value written to memory in either byte order, followed by any other
/// bytes, reads back as the same value in that order.
pub proof fn lemma_bytes_round_trip(v: ParsedValue, o: ByteOrder, rest: Seq<u8>)
    ensures
        value_bytes(v, o).len() == type_size(kind_of(v)),
        value_from_bytes(value_bytes(v, o) + rest, kind_of(v), o) == Some(v),
{
    let n = type_size(kind_of(v));
    let raw = raw_of(v);
    lemma_raw_bound(v);
    lemma_le_round_trip(raw, n);
    let s = value_bytes(v, o);
    assert((s + rest).take(n as int) =~= s);
    if o == ByteOrder::Big {
        lemma_be_of_reverse(le_bytes(raw, n));
        assert(le_bytes(raw, n).reverse().reverse() =~= le_bytes(raw, n));
    }
    lemma_value_of_raw(v);
}

// ---------------------------------------------------------------------------
// Byte order of this machine
// ---------------------------------------------------------------------------

/// The byte order of the hardware this code runs on, as vstd's
/// `endianness()` abstracts it.
pub open spec fn machine_byte_order() -> ByteOrder {
    match vstd::endian::endianness() {
        vstd::endian::Endian::Little => ByteOrder::Little,
        vstd::endian::Endian::Big => ByteOrder::Big,
    }
}

/// `u16::from_ne_bytes([1, 0])`: the bytes 1, 0 read in the hardware's
/// byte order, so 1 on a little-endian machine and 256 on a big-endian one.
#[verifier::external_body]
fn native_u16_of_one_zero() -> (r: u16)
    ensures
        r == (if machine_byte_order() == ByteOrder::Little {
            1u16
        } else {
            256u16
        }),
{
    u16::from_ne_bytes([1, 0])
}

/// The byte order of this machine.
pub fn native_byte_order() -> (res: ByteOrder)
    ensures
        res == machine_byte_order(),
{
    if native_u16_of_one_zero() == 1 {
        ByteOrder::Little
    } else {
        ByteOrder::Big
    }
}

/// What `to_bytes` writes, `from_bytes` reads back: a value written in this
/// machine's byte order has the size of its type and reads back as itself.
pub proof fn lemma_native_bytes_round_trip(v: ParsedValue)
    ensures
        value_bytes(v, machine_byte_order()).len() == type_size(kind_of(v)),
        value_from_bytes(value_bytes(v, machine_byte_order()), kind_of(v), machine_byte_order())
            == Some(v),
{
    lemma_bytes_round_trip(v, machine_byte_order(), Seq::empty());
    assert(value_bytes(v, machine_byte_order()) + Seq::<u8>::empty() =~= value_bytes(
        v,
        machine_byte_order(),
    ));
}

/// The unsigned number stored in the first `n` bytes of `bytes` in order `o`.
fn read_unsigned(bytes: &[u8], n: usize, o: ByteOrder) -> (r: u64)
    requires
        n <= 8,
        n <= bytes@.len(),
    ensures
        r == unsigned_in(bytes@.take(n as int), o),
        r < pow256(n as nat),
{
    let r = read_unsigned_at(bytes, 0, n, o);
    assert(bytes@.subrange(0, n as int) =~= bytes@.take(n as int));
    r
}

/// The unsigned number stored in the `n` bytes of `bytes` from `start`, in order `o`.
fn read_unsigned_at(bytes: &[u8], start: usize, n: usize, o: ByteOrder) -> (r: u64)
    requires
        n <= 8,
        start + n <= bytes@.len(),
    ensures
        r == unsigned_in(bytes@.subrange(start as int, start + n), o),
        r < pow256(n as nat),
{
    let ghost w = bytes@.subrange(start as int, start + n);
    proof {
        lemma_pow256_values();
        lemma_pow256_mono(n as nat, 8);
    }
    let mut acc: u64 = 0;
    match o {
        ByteOrder::Little => {
            let mut i: usize = n;
            assert(w.subrange(n as int, n as int) =~= Seq::<u8>::empty());
            while i > 0
                invariant
                    i <= n <= 8,
                    start + n <= bytes.len(),
                    w == bytes@.subrange(start as int, start + n),
                    pow256(n as nat) <= pow256(8),
                    pow256(8) == 0x1_0000_0000_0000_0000,
                    acc == unsigned_le(w.subrange(i as int, n as int)),
                    acc < pow256((n - i) as nat),
                decreases i,
            {
                i = i - 1;
                proof {
                    lemma_pow256_mono((n - i) as nat, n as nat);
                    assert(pow256((n - i) as nat) == 256 * pow256((n - i - 1) as nat));
                    assert(w.subrange(i as int, n as int).drop_first() =~= w.subrange(
                        i + 1,
                        n as int,
                    ));
                    assert(w.subrange(i as int, n as int)[0] == bytes@[start + i]);
                }
                acc = acc * 256 + bytes[start + i] as u64;
            }
            assert(w.subrange(0, n as int) =~= w);
        },
        ByteOrder::Big => {
            let mut i: usize = 0;
            assert(w.take(0) =~= Seq::<u8>::empty());
            while i < n
                invariant
                    i <= n <= 8,
                    start + n <= bytes.len(),
                    w == bytes@.subrange(start as int, start + n),
                    pow256(n as nat) <= pow256(8),
                    pow256(8) == 0x1_0000_0000_0000_0000,
                    acc == unsigned_be(w.take(i as int)),
                    acc < pow256(i as nat),
                decreases n - i,
            {
                proof {
                    lemma_pow256_mono((i + 1) as nat, n as nat);
                    assert(pow256((i + 1) as nat) == 256 * pow256(i as nat));
                    assert(w.take(i + 1).drop_last() =~= w.take(i as int));
                    assert(w.take(i + 1).last() == bytes@[start + i]);
                }
                acc = acc * 256 + bytes[start + i] as u64;
                i = i + 1;
            }
            assert(w.take(n as int) =~= w);
        },
    }
    acc
}

/// The `n` little-endian bytes of `v`.
fn le_bytes_exec(v: u64, n: usize) -> (res: Vec<u8>)
    ensures
        res@ == le_bytes(v as nat, n as nat),
{
    let mut res: Vec<u8> = Vec::new();
    let mut x: u64 = v;
    let mut k: usize = 0;
    while k < n
        invariant
            k <= n,
            res@ + le_bytes(x as nat, (n - k) as nat) == le_bytes(v as nat, n as nat),
        decreases n - k,
    {
        let ghost before = res@;
        res.push((x % 256) as u8);
        proof {
            assert(le_bytes(x as nat, (n - k) as nat) == seq![((x as nat) % 256) as u8] + le_bytes(
                (x as nat) / 256,
                (n - k - 1) as nat,
            ));
            assert(before + le_bytes(x as nat, (n - k) as nat) =~= res@ + le_bytes(
                (x / 256) as nat,
                (n - k - 1) as nat,
            ));
        }
        x = x / 256;
        k = k + 1;
    }
    assert(le_bytes(x as nat, 0) =~= Seq::<u8>::empty());
    assert(res@ + Seq::<u8>::empty() =~= res@);
    res
}

/// The bytes of `v` in reverse order.
fn reversed(v: &Vec<u8>) -> (res: Vec<u8>)
    ensures
        res@ == v@.reverse(),
{
    let mut res: Vec<u8> = Vec::new();
    let mut i: usize = v.len();
    while i > 0
        invariant
            i <= v.len(),
            res@ == v@.subrange(i as int, v@.len() as int).reverse(),
        decreases i,
    {
        i = i - 1;
        res.push(v[i]);
        assert(res@ =~= v@.subrange(i as int, v@.len() as int).reverse());
    }
    assert(v@.subrange(0, v@.len() as int) =~= v@);
    res
}

/// The value of type `t` whose bits are `raw`.
fn value_from_raw(raw: u64, t: ScanType) -> (v: ParsedValue)
    requires
        raw < pow256(type_size(t)),
    ensures
        v == value_of_raw(raw as nat, t),
{
    proof {
        lemma_pow256_values();
    }
    match t {
        ScanType::Int8 => if raw < 0x80 {
            ParsedValue::I8(raw as i8)
        } else {
            ParsedValue::I8((raw as i16 - 0x100) as i8)
        },
        ScanType::UInt8 => ParsedValue::U8(raw as u8),
        ScanType::Int16 => if raw < 0x8000 {
            ParsedValue::I16(raw as i16)
        } else {
            ParsedValue::I16((raw as i32 - 0x1_0000) as i16)
        },
        ScanType::UInt16 => ParsedValue::U16(raw as u16),
        ScanType::Int32 => if raw < 0x8000_0000 {
            ParsedValue::I32(raw as i32)
        } else {
            ParsedValue::I32((raw as i64 - 0x1_0000_0000) as i32)
        },
        ScanType::UInt32 => ParsedValue::U32(raw as u32),
        ScanType::Int64 => if raw < 0x8000_0000_0000_0000 {
            ParsedValue::I64(raw as i64)
        } else {
            ParsedValue::I64((raw as i128 - 0x1_0000_0000_0000_0000) as i64)
        },
        ScanType::UInt64 => ParsedValue::U64(raw),
        ScanType::Float32 => ParsedValue::F32(raw as u32),
        ScanType::Float64 => ParsedValue::F64(raw),
    }
}

impl ParsedValue {
    /// The scan type of this value.
    pub fn kind(&self) -> (res: ScanType)
        ensures
            res == kind_of(*self),
    {
        match self {
            ParsedValue::I8(_) => ScanType::Int8,
            ParsedValue::U8(_) => ScanType::UInt8,
            ParsedValue::I16(_) => ScanType::Int16,
            ParsedValue::U16(_) => ScanType::UInt16,
            ParsedValue::I32(_) => ScanType::Int32,
            ParsedValue::U32(_) => ScanType::UInt32,
            ParsedValue::I64(_) => ScanType::Int64,
            ParsedValue::U64(_) => ScanType::UInt64,
            ParsedValue::F32(_) => ScanType::Float32,
            ParsedValue::F64(_) => ScanType::Float64,
        }
    }

    /// The bits of this value as an unsigned number.
    pub fn raw_bits(&self) -> (res: u64)
        ensures
            res == raw_of(*self),
    {
        match self {
            ParsedValue::I8(x) => if *x < 0 {
                (*x as i16 + 0x100) as u64
            } else {
                *x as u64
            },
            ParsedValue::U8(x) => *x as u64,
            ParsedValue::I16(x) => if *x < 0 {
                (*x as i32 + 0x1_0000) as u64
            } else {
                *x as u64
            },
            ParsedValue::U16(x) => *x as u64,
            ParsedValue::I32(x) => if *x < 0 {
                (*x as i64 + 0x1_0000_0000) as u64
            } else {
                *x as u64
            },
            ParsedValue::U32(x) => *x as u64,
            ParsedValue::I64(x) => if *x < 0 {
                (*x as i128 + 0x1_0000_0000_0000_0000) as u64
            } else {
                *x as u64
            },
            ParsedValue::U64(x) => *x,
            ParsedValue::F32(x) => *x as u64,
            ParsedValue::F64(x) => *x,
        }
    }

    /// The value of type `scan_type` stored at the start of `bytes` in order `o`.
    pub fn from_bytes_in(bytes: &[u8], scan_type: ScanType, o: ByteOrder) -> (res: Option<
        ParsedValue,
    >)
        ensures
            res == value_from_bytes(bytes@, scan_type, o),
    {
        let n = scan_type.size();
        if bytes.len() < n {
            return None;
        }
        let raw = read_unsigned(bytes, n, o);
        Some(value_from_raw(raw, scan_type))
    }

    /// The value of type `scan_type` stored at the start of `bytes` in the
    /// byte order of this machine (`from_ne_bytes`), or nothing when `bytes`
    /// is too short.
    pub fn from_bytes(bytes: &[u8], scan_type: ScanType) -> (res: Option<ParsedValue>)
        ensures
            res == value_from_bytes(bytes@, scan_type, machine_byte_order()),
    {
        ParsedValue::from_bytes_in(bytes, scan_type, native_byte_order())
    }

    /// The memory representation of this value in order `o`.
    pub fn to_bytes_in(&self, o: ByteOrder) -> (res: Vec<u8>)
        ensures
            res@ == value_bytes(*self, o),
    {
        let raw = self.raw_bits();
        let n = self.kind().size();
        let le = le_bytes_exec(raw, n);
        match o {
            ByteOrder::Little => le,
            ByteOrder::Big => reversed(&le),
        }
    }

    /// The memory representation of this value in the byte order of this
    /// machine (`to_ne_bytes`).
    pub fn to_bytes(&self) -> (res: Vec<u8>)
        ensures
            res@ == value_bytes(*self, machine_byte_order()),
    {
        self.to_bytes_in(native_byte_order())
    }
}

// ---------------------------------------------------------------------------
// Comparisons
// ---------------------------------------------------------------------------

/// A key that orders `f32` values as IEEE-754 comparison does: the
/// magnitude bits, negated for a negative sign, so that `-0.0` and `0.0`
/// share the key 0; NaN has no key and compares false with everything.
pub open spec fn f32_key(bits: u32) -> Option<int> {
    let neg = bits >= 0x8000_0000;
    let mag: int = if neg {
        bits - 0x8000_0000
    } else {
        bits as int
    };
    if mag > 0x7f80_0000 {
        None
    } else if neg {
        Some(-mag)
    } else {
        Some(mag)
    }
}

/// The same key for `f64` values.
pub open spec fn f64_key(bits: u64) -> Option<int> {
    let neg = bits >= 0x8000_0000_0000_0000;
    let mag: int = if neg {
        bits - 0x8000_0000_0000_0000
    } else {
        bits as int
    };
    if mag > 0x7ff0_0000_0000_0000 {
        None
    } else if neg {
        Some(-mag)
    } else {
        Some(mag)
    }
}

/// The number that orders a value among values of its kind: the integer
/// itself, or the IEEE-754 order key of a float (none for NaN).
pub open spec fn order_key(v: ParsedValue) -> Option<int> {
    match v {
        ParsedValue::I8(x) => Some(x as int),
        ParsedValue::U8(x) => Some(x as int),
        ParsedValue::I16(x) => Some(x as int),
        ParsedValue::U16(x) => Some(x as int),
        ParsedValue::I32(x) => Some(x as int),
        ParsedValue::U32(x) => Some(x as int),
        ParsedValue::I64(x) => Some(x as int),
        ParsedValue::U64(x) => Some(x as int),
        ParsedValue::F32(b) => f32_key(b),
        ParsedValue::F64(b) => f64_key(b),
    }
}

/// `a > b`: both of one kind, and `a` orders after `b`.
pub open spec fn value_greater(a: ParsedValue, b: ParsedValue) -> bool {
    kind_of(a) == kind_of(b) && match (order_key(a), order_key(b)) {
        (Some(x), Some(y)) => x > y,
        _ => false,
    }
}

/// `a < b`: both of one kind, and `a` orders before `b`.
pub open spec fn value_less(a: ParsedValue, b: ParsedValue) -> bool {
    kind_of(a) == kind_of(b) && match (order_key(a), order_key(b)) {
        (Some(x), Some(y)) => x < y,
        _ => false,
    }
}

/// `low <= v <= high`: all three of one kind.
pub open spec fn value_in_range(v: ParsedValue, low: ParsedValue, high: ParsedValue) -> bool {
    kind_of(v) == kind_of(low) && kind_of(v) == kind_of(high) && match (
        order_key(v),
        order_key(low),
        order_key(high),
    ) {
        (Some(x), Some(l), Some(h)) => l <= x && x <= h,
        _ => false,
    }
}

/// Both values are floats of the same width: their exact match is the
/// tolerance comparison of floating-point arithmetic.
pub open spec fn is_float_pair(a: ParsedValue, b: ParsedValue) -> bool {
    (a is F32 && b is F32) || (a is F64 && b is F64)
}

/// The closure given for the float tolerance comparison can be called on
/// every float pair.
pub open spec fn float_close_callable<F: Fn(ParsedValue, ParsedValue) -> bool>(f: F) -> bool {
    forall|a: ParsedValue, b: ParsedValue| is_float_pair(a, b) ==> #[trigger] f.requires((a, b))
}

/// The closure given for the float tolerance comparison answers the same on
/// the same pair.
pub open spec fn float_close_deterministic<F: Fn(ParsedValue, ParsedValue) -> bool>(f: F) -> bool {
    forall|a: ParsedValue, b: ParsedValue, r1: bool, r2: bool|
        is_float_pair(a, b) && #[trigger] f.ensures((a, b), r1) && #[trigger] f.ensures((a, b), r2)
            ==> r1 == r2
}

/// Whether `v` matches `target` exactly: equal integers of one kind, or for
/// a float pair the answer of the tolerance comparison `f`.
pub open spec fn exact_match<F: Fn(ParsedValue, ParsedValue) -> bool>(
    v: ParsedValue,
    target: ParsedValue,
    f: F,
) -> bool {
    if is_float_pair(v, target) {
        f.ensures((v, target), true)
    } else {
        v == target
    }
}

/// `a` and `b` are reversed by swapping `>` and `<`.
pub proof fn lemma_greater_less_dual(a: ParsedValue, b: ParsedValue)
    ensures
        value_greater(a, b) == value_less(b, a),
        !(value_greater(a, b) && value_less(a, b)),
{
}

/// A value is in the range it spans alone exactly when it is not NaN.
pub proof fn lemma_in_own_range(v: ParsedValue)
    ensures
        value_in_range(v, v, v) == (order_key(v) is Some),
        !value_greater(v, v),
        !value_less(v, v),
{
}

/// Integer values compare as the numbers they hold, signed or unsigned as
/// their kind is: `>`, `<` and the inclusive range test of `ParsedValue`
/// agree with those of the machine integers.
pub proof fn lemma_integer_order()
    ensures
        forall|a: i8, b: i8|
            #[trigger] value_greater(ParsedValue::I8(a), ParsedValue::I8(b)) == (a > b),
        forall|a: i8, b: i8|
            #[trigger] value_less(ParsedValue::I8(a), ParsedValue::I8(b)) == (a < b),
        forall|x: i8, l: i8, h: i8|
            #[trigger] value_in_range(ParsedValue::I8(x), ParsedValue::I8(l), ParsedValue::I8(h))
                == (l <= x && x <= h),
        forall|a: u8, b: u8|
            #[trigger] value_greater(ParsedValue::U8(a), ParsedValue::U8(b)) == (a > b),
        forall|a: u8, b: u8|
            #[trigger] value_less(ParsedValue::U8(a), ParsedValue::U8(b)) == (a < b),
        forall|x: u8, l: u8, h: u8|
            #[trigger] value_in_range(ParsedValue::U8(x), ParsedValue::U8(l), ParsedValue::U8(h))
                == (l <= x && x <= h),
        forall|a: i16, b: i16|
            #[trigger] value_greater(ParsedValue::I16(a), ParsedValue::I16(b)) == (a > b),
        forall|a: i16, b: i16|
            #[trigger] value_less(ParsedValue::I16(a), ParsedValue::I16(b)) == (a < b),
        forall|x: i16, l: i16, h: i16|
            #[trigger] value_in_range(ParsedValue::I16(x), ParsedValue::I16(l), ParsedValue::I16(h))
                == (l <= x && x <= h),
        forall|a: u16, b: u16|
            #[trigger] value_greater(ParsedValue::U16(a), ParsedValue::U16(b)) == (a > b),
        forall|a: u16, b: u16|
            #[trigger] value_less(ParsedValue::U16(a), ParsedValue::U16(b)) == (a < b),
        forall|x: u16, l: u16, h: u16|
            #[trigger] value_in_range(ParsedValue::U16(x), ParsedValue::U16(l), ParsedValue::U16(h))
                == (l <= x && x <= h),
        forall|a: i32, b: i32|
            #[trigger] value_greater(ParsedValue::I32(a), ParsedValue::I32(b)) == (a > b),
        forall|a: i32, b: i32|
            #[trigger] value_less(ParsedValue::I32(a), ParsedValue::I32(b)) == (a < b),
        forall|x: i32, l: i32, h: i32|
            #[trigger] value_in_range(ParsedValue::I32(x), ParsedValue::I32(l), ParsedValue::I32(h))
                == (l <= x && x <= h),
        forall|a: u32, b: u32|
            #[trigger] value_greater(ParsedValue::U32(a), ParsedValue::U32(b)) == (a > b),
        forall|a: u32, b: u32|
            #[trigger] value_less(ParsedValue::U32(a), ParsedValue::U32(b)) == (a < b),
        forall|x: u32, l: u32, h: u32|
            #[trigger] value_in_range(ParsedValue::U32(x), ParsedValue::U32(l), ParsedValue::U32(h))
                == (l <= x && x <= h),
        forall|a: i64, b: i64|
            #[trigger] value_greater(ParsedValue::I64(a), ParsedValue::I64(b)) == (a > b),
        forall|a: i64, b: i64|
            #[trigger] value_less(ParsedValue::I64(a), ParsedValue::I64(b)) == (a < b),
        forall|x: i64, l: i64, h: i64|
            #[trigger] value_in_range(ParsedValue::I64(x), ParsedValue::I64(l), ParsedValue::I64(h))
                == (l <= x && x <= h),
        forall|a: u64, b: u64|
            #[trigger] value_greater(ParsedValue::U64(a), ParsedValue::U64(b)) == (a > b),
        forall|a: u64, b: u64|
            #[trigger] value_less(ParsedValue::U64(a), ParsedValue::U64(b)) == (a < b),
        forall|x: u64, l: u64, h: u64|
            #[trigger] value_in_range(ParsedValue::U64(x), ParsedValue::U64(l), ParsedValue::U64(h))
                == (l <= x && x <= h),
{
}

/// Floats compare as IEEE-754 numbers, read from their bit patterns: among
/// non-negative ones (sign bit clear, up to infinity) a larger pattern is a
/// larger number; among negative ones a larger pattern is a smaller number;
/// `0.0` and `-0.0` are equal, so each lies in the range of the other; and
/// a NaN (exponent all ones, fraction not zero) is neither greater, less,
/// nor in any range.
pub proof fn lemma_float_order()
    ensures
        forall|a: u32, b: u32|
            a <= 0x7f80_0000 && b <= 0x7f80_0000 ==> #[trigger] value_greater(
                ParsedValue::F32(a),
                ParsedValue::F32(b),
            ) == (a > b),
        forall|a: u32, b: u32|
            0x8000_0000 <= a <= 0xff80_0000 && 0x8000_0000 <= b <= 0xff80_0000 ==> #[trigger]
            value_greater(ParsedValue::F32(a), ParsedValue::F32(b)) == (a < b),
        forall|a: u64, b: u64|
            a <= 0x7ff0_0000_0000_0000 && b <= 0x7ff0_0000_0000_0000 ==> #[trigger] value_greater(
                ParsedValue::F64(a),
                ParsedValue::F64(b),
            ) == (a > b),
        forall|a: u64, b: u64|
            0x8000_0000_0000_0000 <= a <= 0xfff0_0000_0000_0000 && 0x8000_0000_0000_0000 <= b
                <= 0xfff0_0000_0000_0000 ==> #[trigger] value_greater(
                ParsedValue::F64(a),
                ParsedValue::F64(b),
            ) == (a < b),
        value_in_range(ParsedValue::F32(0), ParsedValue::F32(0x8000_0000), ParsedValue::F32(0x8000_0000)),
        value_in_range(ParsedValue::F32(0x8000_0000), ParsedValue::F32(0), ParsedValue::F32(0)),
        value_in_range(
            ParsedValue::F64(0),
            ParsedValue::F64(0x8000_0000_0000_0000),
            ParsedValue::F64(0x8000_0000_0000_0000),
        ),
        forall|n: u32, x: u32|
            (n % 0x8000_0000) > 0x7f80_0000 ==> !#[trigger] value_greater(ParsedValue::F32(n), ParsedValue::F32(x))
                && !value_greater(ParsedValue::F32(x), ParsedValue::F32(n)) && !value_less(
                ParsedValue::F32(n),
                ParsedValue::F32(x),
            ) && !value_in_range(ParsedValue::F32(n), ParsedValue::F32(x), ParsedValue::F32(x))
                && !value_in_range(ParsedValue::F32(x), ParsedValue::F32(n), ParsedValue::F32(x)),
        forall|n: u64, x: u64|
            (n % 0x8000_0000_0000_0000) > 0x7ff0_0000_0000_0000 ==> !#[trigger] value_greater(
                ParsedValue::F64(n),
                ParsedValue::F64(x),
            ) && !value_greater(ParsedValue::F64(x), ParsedValue::F64(n)) && !value_less(
                ParsedValue::F64(n),
                ParsedValue::F64(x),
            ) && !value_in_range(ParsedValue::F64(n), ParsedValue::F64(x), ParsedValue::F64(x))
                && !value_in_range(ParsedValue::F64(x), ParsedValue::F64(n), ParsedValue::F64(x)),
{
}

/// The order key as an exec value.
fn order_key_exec(v: &ParsedValue) -> (res: Option<i128>)
    ensures
        match res {
            Some(k) => order_key(*v) == Some(k as int),
            None => order_key(*v) is None,
        },
{
    match v {
        ParsedValue::I8(x) => Some(*x as i128),
        ParsedValue::U8(x) => Some(*x as i128),
        ParsedValue::I16(x) => Some(*x as i128),
        ParsedValue::U16(x) => Some(*x as i128),
        ParsedValue::I32(x) => Some(*x as i128),
        ParsedValue::U32(x) => Some(*x as i128),
        ParsedValue::I64(x) => Some(*x as i128),
        ParsedValue::U64(x) => Some(*x as i128),
        ParsedValue::F32(b) => {
            let neg = *b >= 0x8000_0000;
            let mag: i128 = if neg {
                (*b - 0x8000_0000) as i128
            } else {
                *b as i128
            };
            if mag > 0x7f80_0000 {
                None
            } else if neg {
                Some(-mag)
            } else {
                Some(mag)
            }
        },
        ParsedValue::F64(b) => {
            let neg = *b >= 0x8000_0000_0000_0000;
            let mag: i128 = if neg {
                (*b - 0x8000_0000_0000_0000) as i128
            } else {
                *b as i128
            };
            if mag > 0x7ff0_0000_0000_0000 {
                None
            } else if neg {
                Some(-mag)
            } else {
                Some(mag)
            }
        },
    }
}

/// Two values are equal as `==` on the numbers they hold has it: the same
/// kind and equal numbers; for floats IEEE-754 equality, so `0.0` equals
/// `-0.0` and NaN equals nothing.
pub open spec fn values_equal(a: ParsedValue, b: ParsedValue) -> bool {
    kind_of(a) == kind_of(b) && order_key(a) is Some && order_key(a) == order_key(b)
}

/// Away from float pairs, equal values are identical ones.
pub proof fn lemma_values_equal_non_float(a: ParsedValue, b: ParsedValue)
    requires
        !is_float_pair(a, b),
    ensures
        values_equal(a, b) == (a == b),
{
}

impl PartialEq for ParsedValue {
    fn eq(&self, other: &Self) -> (res: bool) {
        if self.kind() != other.kind() {
            return false;
        }
        match (order_key_exec(self), order_key_exec(other)) {
            (Some(x), Some(y)) => x == y,
            _ => false,
        }
    }
}

impl PartialEqSpecImpl for ParsedValue {
    open spec fn obeys_eq_spec() -> bool {
        true
    }

    open spec fn eq_spec(&self, other: &ParsedValue) -> bool {
        values_equal(*self, *other)
    }
}

impl PartialEq for ScanMatch {
    fn eq(&self, other: &Self) -> (res: bool) {
        self.address == other.address && self.value == other.value
    }
}

impl PartialEqSpecImpl for ScanMatch {
    open spec fn obeys_eq_spec() -> bool {
        true
    }

    open spec fn eq_spec(&self, other: &ScanMatch) -> bool {
        self.address == other.address && values_equal(self.value, other.value)
    }
}

impl ParsedValue {
    /// `self > other`, for two values of one kind (false otherwise, and
    /// false when either is NaN).
    pub fn is_greater_than(&self, other: &ParsedValue) -> (res: bool)
        ensures
            res == value_greater(*self, *other),
    {
        if self.kind() != other.kind() {
            return false;
        }
        match (order_key_exec(self), order_key_exec(other)) {
            (Some(x), Some(y)) => x > y,
            _ => false,
        }
    }

    /// `self < other`, for two values of one kind.
    pub fn is_less_than(&self, other: &ParsedValue) -> (res: bool)
        ensures
            res == value_less(*self, *other),
    {
        if self.kind() != other.kind() {
            return false;
        }
        match (order_key_exec(self), order_key_exec(other)) {
            (Some(x), Some(y)) => x < y,
            _ => false,
        }
    }

    /// `low <= self <= high`, for three values of one kind.
    pub fn is_in_range(&self, low: &ParsedValue, high: &ParsedValue) -> (res: bool)
        ensures
            res == value_in_range(*self, *low, *high),
    {
        if self.kind() != low.kind() || self.kind() != high.kind() {
            return false;
        }
        match (order_key_exec(self), order_key_exec(low), order_key_exec(high)) {
            (Some(x), Some(l), Some(h)) => l <= x && x <= h,
            _ => false,
        }
    }

    /// `self` equals `target`: for integers, same kind and same value; for
    /// two floats of one width, the answer of `float_close` (the caller's
    /// tolerance comparison, |a - b| below 0.001 for `f32` and 0.00001 for `f64`).
    pub fn matches_exact<F: Fn(ParsedValue, ParsedValue) -> bool>(
        &self,
        target: &ParsedValue,
        float_close: &F,
    ) -> (res: bool)
        requires
            float_close_callable(*float_close),
        ensures
            !is_float_pair(*self, *target) ==> res == (*self == *target),
            is_float_pair(*self, *target) ==> float_close.ensures((*self, *target), res),
    {
        if is_float_pair_exec(self, target) {
            float_close(*self, *target)
        } else {
            proof {
                lemma_values_equal_non_float(*self, *target);
            }
            *self == *target
        }
    }

    /// `self` does not match `other` exactly.
    pub fn is_changed<F: Fn(ParsedValue, ParsedValue) -> bool>(
        &self,
        other: &ParsedValue,
        float_close: &F,
    ) -> (res: bool)
        requires
            float_close_callable(*float_close),
        ensures
            !is_float_pair(*self, *other) ==> res == (*self != *other),
            is_float_pair(*self, *other) ==> float_close.ensures((*self, *other), !res),
    {
        !self.matches_exact(other, float_close)
    }

    /// `self` matches `other` exactly.
    pub fn is_unchanged<F: Fn(ParsedValue, ParsedValue) -> bool>(
        &self,
        other: &ParsedValue,
        float_close: &F,
    ) -> (res: bool)
        requires
            float_close_callable(*float_close),
        ensures
            !is_float_pair(*self, *other) ==> res == (*self == *other),
            is_float_pair(*self, *other) ==> float_close.ensures((*self, *other), res),
    {
        self.matches_exact(other, float_close)
    }
}

/// Both values are floats of the same width.
pub fn is_float_pair_exec(a: &ParsedValue, b: &ParsedValue) -> (res: bool)
    ensures
        res == is_float_pair(*a, *b),
{
    match (a, b) {
        (ParsedValue::F32(_), ParsedValue::F32(_)) => true,
        (ParsedValue::F64(_), ParsedValue::F64(_)) => true,
        _ => false,
    }
}

// ---------------------------------------------------------------------------
// Values as text
// ---------------------------------------------------------------------------

/// The integer held by an integer value (0 for a float).
pub open spec fn int_value(v: ParsedValue) -> int {
    match v {
        ParsedValue::I8(x) => x as int,
        ParsedValue::U8(x) => x as int,
        ParsedValue::I16(x) => x as int,
        ParsedValue::U16(x) => x as int,
        ParsedValue::I32(x) => x as int,
        ParsedValue::U32(x) => x as int,
        ParsedValue::I64(x) => x as int,
        ParsedValue::U64(x) => x as int,
        ParsedValue::F32(_) => 0,
        ParsedValue::F64(_) => 0,
    }
}

/// The type is a floating-point one.
pub open spec fn is_float_type(t: ScanType) -> bool {
    t == ScanType::Float32 || t == ScanType::Float64
}

/// The smallest value of an integer type.
pub open spec fn type_min(t: ScanType) -> int {
    match t {
        ScanType::Int8 => i8::MIN as int,
        ScanType::Int16 => i16::MIN as int,
        ScanType::Int32 => i32::MIN as int,
        ScanType::Int64 => i64::MIN as int,
        _ => 0,
    }
}

/// The largest value of an integer type.
pub open spec fn type_max(t: ScanType) -> int {
    match t {
        ScanType::Int8 => i8::MAX as int,
        ScanType::Int16 => i16::MAX as int,
        ScanType::Int32 => i32::MAX as int,
        ScanType::Int64 => i64::MAX as int,
        ScanType::UInt8 => u8::MAX as int,
        ScanType::UInt16 => u16::MAX as int,
        ScanType::UInt32 => u32::MAX as int,
        ScanType::UInt64 => u64::MAX as int,
        _ => 0,
    }
}

/// The type is a signed integer one.
pub open spec fn is_signed_type(t: ScanType) -> bool {
    t == ScanType::Int8 || t == ScanType::Int16 || t == ScanType::Int32 || t == ScanType::Int64
}

/// The value of integer type `t` that holds `n`.
pub open spec fn int_to_value(n: int, t: ScanType) -> ParsedValue {
    match t {
        ScanType::Int8 => ParsedValue::I8(n as i8),
        ScanType::UInt8 => ParsedValue::U8(n as u8),
        ScanType::Int16 => ParsedValue::I16(n as i16),
        ScanType::UInt16 => ParsedValue::U16(n as u16),
        ScanType::Int32 => ParsedValue::I32(n as i32),
        ScanType::UInt32 => ParsedValue::U32(n as u32),
        ScanType::Int64 => ParsedValue::I64(n as i64),
        ScanType::UInt64 => ParsedValue::U64(n as u64),
        ScanType::Float32 => ParsedValue::F32(0),
        ScanType::Float64 => ParsedValue::F64(0),
    }
}

/// The result of reading the (trimmed) text `t` as a value of integer type
/// `ty`: the value, or the message of the integer parse error.
pub open spec fn parse_int_value(t: Seq<char>, ty: ScanType) -> Result<ParsedValue, Seq<char>> {
    match parse_int(t, 10, is_signed_type(ty), type_min(ty), type_max(ty)) {
        Ok(n) => Ok(int_to_value(n, ty)),
        Err(k) => Err(int_error_text(k)),
    }
}

/// Every integer within the range of an integer type, written in decimal
/// (with a `-` when negative), is read as the value of that type holding
/// that integer.
pub proof fn lemma_parse_reads_decimal(n: int, ty: ScanType)
    requires
        !is_float_type(ty),
        type_min(ty) <= n <= type_max(ty),
    ensures
        parse_int_value(trimmed(signed_decimal(n)), ty) == Ok::<ParsedValue, Seq<char>>(
            int_to_value(n, ty),
        ),
        kind_of(int_to_value(n, ty)) == ty,
        int_value(int_to_value(n, ty)) == n,
{
    lemma_signed_decimal_trimmed(n);
    lemma_parse_signed_decimal(n, is_signed_type(ty), type_min(ty), type_max(ty));
}

/// Each integer type reads back every one of its values written in decimal:
/// for every `i64` `x`, the decimal text of `x` reads as `I64(x)`, and so on
/// for each integer type.
pub proof fn lemma_parse_reads_every_value()
    ensures
        forall|x: i8|
            #[trigger] parse_int_value(trimmed(signed_decimal(x as int)), ScanType::Int8)
                == Ok::<ParsedValue, Seq<char>>(ParsedValue::I8(x)),
        forall|x: u8|
            #[trigger] parse_int_value(trimmed(signed_decimal(x as int)), ScanType::UInt8)
                == Ok::<ParsedValue, Seq<char>>(ParsedValue::U8(x)),
        forall|x: i16|
            #[trigger] parse_int_value(trimmed(signed_decimal(x as int)), ScanType::Int16)
                == Ok::<ParsedValue, Seq<char>>(ParsedValue::I16(x)),
        forall|x: u16|
            #[trigger] parse_int_value(trimmed(signed_decimal(x as int)), ScanType::UInt16)
                == Ok::<ParsedValue, Seq<char>>(ParsedValue::U16(x)),
        forall|x: i32|
            #[trigger] parse_int_value(trimmed(signed_decimal(x as int)), ScanType::Int32)
                == Ok::<ParsedValue, Seq<char>>(ParsedValue::I32(x)),
        forall|x: u32|
            #[trigger] parse_int_value(trimmed(signed_decimal(x as int)), ScanType::UInt32)
                == Ok::<ParsedValue, Seq<char>>(ParsedValue::U32(x)),
        forall|x: i64|
            #[trigger] parse_int_value(trimmed(signed_decimal(x as int)), ScanType::Int64)
                == Ok::<ParsedValue, Seq<char>>(ParsedValue::I64(x)),
        forall|x: u64|
            #[trigger] parse_int_value(trimmed(signed_decimal(x as int)), ScanType::UInt64)
                == Ok::<ParsedValue, Seq<char>>(ParsedValue::U64(x)),
{
    assert forall|x: i8|
        #[trigger] parse_int_value(trimmed(signed_decimal(x as int)), ScanType::Int8)
            == Ok::<ParsedValue, Seq<char>>(ParsedValue::I8(x)) by {
        lemma_parse_reads_decimal(x as int, ScanType::Int8);
    }
    assert forall|x: u8|
        #[trigger] parse_int_value(trimmed(signed_decimal(x as int)), ScanType::UInt8)
            == Ok::<ParsedValue, Seq<char>>(ParsedValue::U8(x)) by {
        lemma_parse_reads_decimal(x as int, ScanType::UInt8);
    }
    assert forall|x: i16|
        #[trigger] parse_int_value(trimmed(signed_decimal(x as int)), ScanType::Int16)
            == Ok::<ParsedValue, Seq<char>>(ParsedValue::I16(x)) by {
        lemma_parse_reads_decimal(x as int, ScanType::Int16);
    }
    assert forall|x: u16|
        #[trigger] parse_int_value(trimmed(signed_decimal(x as int)), ScanType::UInt16)
            == Ok::<ParsedValue, Seq<char>>(ParsedValue::U16(x)) by {
        lemma_parse_reads_decimal(x as int, ScanType::UInt16);
    }
    assert forall|x: i32|
        #[trigger] parse_int_value(trimmed(signed_decimal(x as int)), ScanType::Int32)
            == Ok::<ParsedValue, Seq<char>>(ParsedValue::I32(x)) by {
        lemma_parse_reads_decimal(x as int, ScanType::Int32);
    }
    assert forall|x: u32|
        #[trigger] parse_int_value(trimmed(signed_decimal(x as int)), ScanType::UInt32)
            == Ok::<ParsedValue, Seq<char>>(ParsedValue::U32(x)) by {
        lemma_parse_reads_decimal(x as int, ScanType::UInt32);
    }
    assert forall|x: i64|
        #[trigger] parse_int_value(trimmed(signed_decimal(x as int)), ScanType::Int64)
            == Ok::<ParsedValue, Seq<char>>(ParsedValue::I64(x)) by {
        lemma_parse_reads_decimal(x as int, ScanType::Int64);
    }
    assert forall|x: u64|
        #[trigger] parse_int_value(trimmed(signed_decimal(x as int)), ScanType::UInt64)
            == Ok::<ParsedValue, Seq<char>>(ParsedValue::U64(x)) by {
        lemma_parse_reads_decimal(x as int, ScanType::UInt64);
    }
}

/// The text of an integer value is the decimal of the number it holds, with
/// a `-` only before a negative number, and it reads back, as the value's
/// own type, as that value.
pub proof fn lemma_integer_text<G: Fn(ParsedValue) -> String>(v: ParsedValue, g: G)
    requires
        !(v is F32 || v is F64),
    ensures
        value_text(v, g) == match v {
            ParsedValue::U8(x) => decimal(x as nat),
            ParsedValue::U16(x) => decimal(x as nat),
            ParsedValue::U32(x) => decimal(x as nat),
            ParsedValue::U64(x) => decimal(x as nat),
            ParsedValue::I8(x) => signed_decimal(x as int),
            ParsedValue::I16(x) => signed_decimal(x as int),
            ParsedValue::I32(x) => signed_decimal(x as int),
            ParsedValue::I64(x) => signed_decimal(x as int),
            _ => Seq::empty(),
        },
        parse_int_value(trimmed(value_text(v, g)), kind_of(v)) == Ok::<ParsedValue, Seq<char>>(v),
{
    lemma_parse_reads_decimal(int_value(v), kind_of(v));
}

/// A parse result with its message as characters.
pub open spec fn result_chars(r: Result<ParsedValue, String>) -> Result<ParsedValue, Seq<char>> {
    match r {
        Ok(v) => Ok(v),
        Err(e) => Err(e@),
    }
}

impl ParsedValue {
    /// Reads `s`, trimmed of whitespace, as a value of `scan_type`. Integers
    /// are read here in decimal, with the errors of `str::parse`; floats are
    /// read by `float_parse`, which gets the trimmed text.
    pub fn parse<P: Fn(String, ScanType) -> Result<ParsedValue, String>>(
        s: &str,
        scan_type: ScanType,
        float_parse: &P,
    ) -> (res: Result<ParsedValue, String>)
        requires
            is_float_type(scan_type) ==> forall|t: String| #[trigger]
                float_parse.requires((t, scan_type)),
        ensures
            !is_float_type(scan_type) ==> result_chars(res) == parse_int_value(
                trimmed(s@),
                scan_type,
            ),
            is_float_type(scan_type) ==> exists|t: String|
                t@ == trimmed(s@) && #[trigger] float_parse.ensures((t, scan_type), res),
    {
        let v = chars_of(s);
        let t = trim(v.as_slice());
        if scan_type.is_float() {
            let text = string_of(t.as_slice());
            let r = float_parse(text, scan_type);
            return r;
        }
        let (min, max, signed): (i128, i128, bool) = match scan_type {
            ScanType::Int8 => (-0x80, 0x7f, true),
            ScanType::Int16 => (-0x8000, 0x7fff, true),
            ScanType::Int32 => (-0x8000_0000, 0x7fff_ffff, true),
            ScanType::Int64 => (-0x8000_0000_0000_0000, 0x7fff_ffff_ffff_ffff, true),
            ScanType::UInt8 => (0, 0xff, false),
            ScanType::UInt16 => (0, 0xffff, false),
            ScanType::UInt32 => (0, 0xffff_ffff, false),
            _ => (0, 0xffff_ffff_ffff_ffff, false),
        };
        match parse_int_exec(t.as_slice(), 10, signed, min, max) {
            Ok(n) => Ok(
                match scan_type {
                    ScanType::Int8 => ParsedValue::I8(n as i8),
                    ScanType::UInt8 => ParsedValue::U8(n as u8),
                    ScanType::Int16 => ParsedValue::I16(n as i16),
                    ScanType::UInt16 => ParsedValue::U16(n as u16),
                    ScanType::Int32 => ParsedValue::I32(n as i32),
                    ScanType::UInt32 => ParsedValue::U32(n as u32),
                    ScanType::Int64 => ParsedValue::I64(n as i64),
                    _ => ParsedValue::U64(n as u64),
                },
            ),
            Err(k) => Err(int_error_message(k)),
        }
    }

    /// This value as text: an integer in decimal; a float as `float_text`
    /// writes it.
    pub fn to_string<G: Fn(ParsedValue) -> String>(&self, float_text: &G) -> (res: String)
        requires
            (self is F32 || self is F64) ==> float_text.requires((*self,)),
        ensures
            !(self is F32 || self is F64) ==> res@ == signed_decimal(int_value(*self)),
            (self is F32 || self is F64) ==> float_text.ensures((*self,), res),
    {
        let digits = match self {
            ParsedValue::I8(x) => signed_decimal_exec(*x as i64),
            ParsedValue::U8(x) => signed_decimal_exec(*x as i64),
            ParsedValue::I16(x) => signed_decimal_exec(*x as i64),
            ParsedValue::U16(x) => signed_decimal_exec(*x as i64),
            ParsedValue::I32(x) => signed_decimal_exec(*x as i64),
            ParsedValue::U32(x) => signed_decimal_exec(*x as i64),
            ParsedValue::I64(x) => signed_decimal_exec(*x),
            ParsedValue::U64(x) => crate::text::decimal_exec(*x),
            ParsedValue::F32(_) | ParsedValue::F64(_) => {
                return float_text(*self);
            },
        };
        string_of(digits.as_slice())
    }
}

// ---------------------------------------------------------------------------
// Scanning a buffer
// ---------------------------------------------------------------------------

/// A value found at an address.
#[derive(Clone, Copy, Debug)]
pub struct ScanMatch {
    pub address: u64,
    pub value: ParsedValue,
}

/// The most matches a scan keeps.
pub const MAX_MATCHES_SAVED: usize = 20000;

/// What a scan keeps of the values it reads.
#[derive(Clone, Copy, Debug)]
pub enum ScanCriterion {
    /// Values that match a target exactly.
    Exact(ParsedValue),
    /// Values between two bounds, both included.
    Range(ParsedValue, ParsedValue),
    /// Every value.
    Any,
}

/// `criterion` keeps `v` (`f` is the float tolerance comparison).
pub open spec fn criterion_keeps<F: Fn(ParsedValue, ParsedValue) -> bool>(
    criterion: ScanCriterion,
    v: ParsedValue,
    f: F,
) -> bool {
    match criterion {
        ScanCriterion::Exact(t) => exact_match(v, t, f),
        ScanCriterion::Range(l, h) => value_in_range(v, l, h),
        ScanCriterion::Any => true,
    }
}

/// The step between candidate offsets: the given one, or the type's
/// alignment when it is 0.
pub open spec fn effective_step(t: ScanType, step: usize) -> nat {
    if step == 0 {
        type_alignment(t)
    } else {
        step as nat
    }
}

/// `base + offset`, wrapping at 2^64.
pub open spec fn address_at(base: u64, offset: nat) -> u64 {
    if base + offset > u64::MAX {
        (base + offset - 0x1_0000_0000_0000_0000) as u64
    } else {
        (base + offset) as u64
    }
}

/// The matches `acc`, extended by the scan of `buf` (mapped at `base`) from
/// offset `off` on, every `step` bytes, for values of type `t` stored in
/// order `o` that `keep` accepts; the scan stops at the end of the buffer or
/// once `MAX_MATCHES_SAVED` matches are held.
pub open spec fn scan_from(
    base: u64,
    buf: Seq<u8>,
    t: ScanType,
    o: ByteOrder,
    step: nat,
    off: nat,
    acc: Seq<ScanMatch>,
    keep: spec_fn(ParsedValue) -> bool,
) -> Seq<ScanMatch>
    decreases buf.len() + step - off,
{
    if step == 0 || off + type_size(t) > buf.len() || acc.len() >= MAX_MATCHES_SAVED {
        acc
    } else {
        let v = value_from_bytes(buf.subrange(off as int, (off + type_size(t)) as int), t, o).unwrap();
        let acc2 = if keep(v) {
            acc.push(ScanMatch { address: address_at(base, off), value: v })
        } else {
            acc
        };
        scan_from(base, buf, t, o, step, off + step, acc2, keep)
    }
}

/// Whether `m` is what a scan of `buf` (mapped at `base`), from offset
/// `off` on every `step` bytes, finds at offset `p`: a whole value of type
/// `t` stored there in order `o`, at its address, that `keep` accepts.
pub open spec fn scan_hit(
    base: u64,
    buf: Seq<u8>,
    t: ScanType,
    o: ByteOrder,
    step: nat,
    off: nat,
    p: nat,
    m: ScanMatch,
    keep: spec_fn(ParsedValue) -> bool,
) -> bool {
    &&& off <= p
    &&& (p - off) % (step as int) == 0
    &&& p + type_size(t) <= buf.len()
    &&& m.address == address_at(base, p)
    &&& m.value == value_from_bytes(buf.subrange(p as int, (p + type_size(t)) as int), t, o).unwrap()
    &&& keep(m.value)
}

/// Whether `m` is found by a scan of `buf` (mapped at `base`) from offset
/// `off` on every `step` bytes, at some offset.
pub open spec fn found_by_scan(
    base: u64,
    buf: Seq<u8>,
    t: ScanType,
    o: ByteOrder,
    step: nat,
    off: nat,
    m: ScanMatch,
    keep: spec_fn(ParsedValue) -> bool,
) -> bool {
    exists|p: nat| #[trigger] scan_hit(base, buf, t, o, step, off, p, m, keep)
}

/// A scan keeps the matches it starts with, as a prefix; it holds no more
/// than `MAX_MATCHES_SAVED` matches unless it started with more; and each
/// match it adds is a value found at a step-aligned offset of the buffer,
/// which `keep` accepts.
pub proof fn lemma_scan_from_shape(
    base: u64,
    buf: Seq<u8>,
    t: ScanType,
    o: ByteOrder,
    step: nat,
    off: nat,
    acc: Seq<ScanMatch>,
    keep: spec_fn(ParsedValue) -> bool,
)
    ensures
        ({
            let r = scan_from(base, buf, t, o, step, off, acc, keep);
            &&& acc.len() <= r.len()
            &&& r.take(acc.len() as int) == acc
            &&& r.len() <= if acc.len() >= MAX_MATCHES_SAVED {
                acc.len()
            } else {
                MAX_MATCHES_SAVED as nat
            }
            &&& forall|j: int|
                acc.len() <= j < r.len() ==> found_by_scan(base, buf, t, o, step, off, #[trigger] r[j], keep)
        }),
    decreases buf.len() + step - off,
{
    let r = scan_from(base, buf, t, o, step, off, acc, keep);
    if step == 0 || off + type_size(t) > buf.len() || acc.len() >= MAX_MATCHES_SAVED {
        assert(r.take(acc.len() as int) =~= acc);
    } else {
        let v = value_from_bytes(buf.subrange(off as int, (off + type_size(t)) as int), t, o).unwrap();
        let hit = ScanMatch { address: address_at(base, off), value: v };
        let acc2 = if keep(v) {
            acc.push(hit)
        } else {
            acc
        };
        lemma_scan_from_shape(base, buf, t, o, step, off + step, acc2, keep);
        assert(r == scan_from(base, buf, t, o, step, off + step, acc2, keep));
        assert(r.take(acc2.len() as int) == acc2);
        assert(r.take(acc.len() as int) =~= acc2.take(acc.len() as int));
        assert forall|j: int| acc.len() <= j < r.len() implies found_by_scan(
            base,
            buf,
            t,
            o,
            step,
            off,
            #[trigger] r[j],
            keep,
        ) by {
            if j < acc2.len() {
                assert(r[j] == r.take(acc2.len() as int)[j]);
                assert(r[j] == hit);
                assert(0int % (step as int) == 0);
                assert(scan_hit(base, buf, t, o, step, off, off, r[j], keep));
            } else {
                assert(found_by_scan(base, buf, t, o, step, off + step, r[j], keep));
                let p = choose|p: nat| #[trigger]
                    scan_hit(base, buf, t, o, step, off + step, p, r[j], keep);
                vstd::arithmetic::div_mod::lemma_mod_add_multiples_vanish(
                    p - off - step,
                    step as int,
                );
                assert(p - off == step + (p - off - step));
                assert(scan_hit(base, buf, t, o, step, off, p, r[j], keep));
            }
        }
    }
}

/// The closure `f` used where no float comparison is needed.
fn no_float_close(a: ParsedValue, b: ParsedValue) -> (res: bool)
    ensures
        !res,
{
    false
}

/// Scans `buffer`, whose first byte is at `base_address`, for values of
/// `scan_type` stored in order `order`, at every `step` bytes (the type's
/// alignment when `step` is 0), appending those that `criterion` keeps to
/// `results` until it holds `MAX_MATCHES_SAVED` matches.
pub fn scan_buffer_with<F: Fn(ParsedValue, ParsedValue) -> bool>(
    base_address: u64,
    buffer: &[u8],
    scan_type: ScanType,
    criterion: ScanCriterion,
    step: usize,
    order: ByteOrder,
    results: &mut Vec<ScanMatch>,
    float_close: &F,
)
    requires
        float_close_callable(*float_close),
        float_close_deterministic(*float_close),
    ensures
        final(results)@ == scan_from(
            base_address,
            buffer@,
            scan_type,
            order,
            effective_step(scan_type, step),
            0,
            old(results)@,
            |v: ParsedValue| criterion_keeps(criterion, v, *float_close),
        ),
{
    let ghost keep = |v: ParsedValue| criterion_keeps(criterion, v, *float_close);
    let ghost eff = effective_step(scan_type, step);
    let size = scan_type.size();
    if buffer.len() < size {
        return;
    }
    let step = if step == 0 {
        scan_type.alignment()
    } else {
        step
    };
    let max_offset = buffer.len() - size;
    let mut offset: usize = 0;
    loop
        invariant_except_break
            keep == (|v: ParsedValue| criterion_keeps(criterion, v, *float_close)),
            eff == step as nat,
            step > 0,
            size == type_size(scan_type),
            max_offset + size == buffer@.len(),
            float_close_callable(*float_close),
            float_close_deterministic(*float_close),
            scan_from(base_address, buffer@, scan_type, order, eff, 0, old(results)@, keep)
                == scan_from(base_address, buffer@, scan_type, order, eff, offset as nat, results@, keep),
        ensures
            results@ == scan_from(base_address, buffer@, scan_type, order, eff, 0, old(results)@, keep),
        decreases max_offset + step - offset,
    {
        if offset > max_offset || results.len() >= MAX_MATCHES_SAVED {
            break;
        }
        let raw = read_unsigned_at(buffer, offset, size, order);
        let val = value_from_raw(raw, scan_type);
        proof {
            let w = buffer@.subrange(offset as int, offset + size);
            assert(w.take(size as int) =~= w);
            assert(val == value_from_bytes(w, scan_type, order).unwrap());
        }
        let kept = match criterion {
            ScanCriterion::Exact(t) => val.matches_exact(&t, float_close),
            ScanCriterion::Range(l, h) => val.is_in_range(&l, &h),
            ScanCriterion::Any => true,
        };
        assert(kept == keep(val));
        let ghost prev = results@;
        if kept {
            results.push(
                ScanMatch { address: base_address.wrapping_add(offset as u64), value: val },
            );
        }
        proof {
            assert(scan_from(base_address, buffer@, scan_type, order, eff, offset as nat, prev, keep)
                == scan_from(base_address, buffer@, scan_type, order, eff, (offset + step) as nat, results@, keep));
        }
        match offset.checked_add(step) {
            Some(next) => {
                offset = next;
            },
            None => {
                assert(scan_from(base_address, buffer@, scan_type, order, eff, (offset + step) as nat, results@, keep) == results@);
                break;
            },
        }
    }
}

/// Scans `buffer`, whose first byte is at `base_address`, for values of
/// `scan_type` (in this machine's byte order) that match `target` exactly,
/// at every `step` bytes (the type's alignment when 0), appending them to
/// `results` until it holds `MAX_MATCHES_SAVED` matches. Float values are
/// compared to the target by `float_close`.
pub fn scan_buffer_exact<F: Fn(ParsedValue, ParsedValue) -> bool>(
    base_address: u64,
    buffer: &[u8],
    scan_type: ScanType,
    target: &ParsedValue,
    step: usize,
    results: &mut Vec<ScanMatch>,
    float_close: &F,
)
    requires
        float_close_callable(*float_close),
        float_close_deterministic(*float_close),
    ensures
        ({
            let keep = |v: ParsedValue| exact_match(v, *target, *float_close);
            let eff = effective_step(scan_type, step);
            final(results)@ == scan_from(
                base_address,
                buffer@,
                scan_type,
                machine_byte_order(),
                eff,
                0,
                old(results)@,
                keep,
            )
        }),
{
    let c = ScanCriterion::Exact(*target);
    assert((|v: ParsedValue| criterion_keeps(c, v, *float_close)) =~= (|v: ParsedValue|
        exact_match(v, *target, *float_close)));
    scan_buffer_with(
        base_address,
        buffer,
        scan_type,
        c,
        step,
        native_byte_order(),
        results,
        float_close,
    );
}

/// Scans `buffer` for values of `scan_type` (in this machine's byte order)
/// between `low` and `high` (both included), as `scan_buffer_exact` does.
pub fn scan_buffer_range(
    base_address: u64,
    buffer: &[u8],
    scan_type: ScanType,
    low: &ParsedValue,
    high: &ParsedValue,
    step: usize,
    results: &mut Vec<ScanMatch>,
)
    ensures
        ({
            let keep = |v: ParsedValue| value_in_range(v, *low, *high);
            let eff = effective_step(scan_type, step);
            final(results)@ == scan_from(
                base_address,
                buffer@,
                scan_type,
                machine_byte_order(),
                eff,
                0,
                old(results)@,
                keep,
            )
        }),
{
    let c = ScanCriterion::Range(*low, *high);
    let f = no_float_close;
    assert((|v: ParsedValue| criterion_keeps(c, v, f)) =~= (|v: ParsedValue|
        value_in_range(v, *low, *high)));
    scan_buffer_with(base_address, buffer, scan_type, c, step, native_byte_order(), results, &f);
}

/// Scans `buffer` for every value of `scan_type` (in this machine's byte
/// order), as `scan_buffer_exact` does.
pub fn scan_buffer_any(
    base_address: u64,
    buffer: &[u8],
    scan_type: ScanType,
    step: usize,
    results: &mut Vec<ScanMatch>,
)
    ensures
        ({
            let keep = |v: ParsedValue| true;
            let eff = effective_step(scan_type, step);
            final(results)@ == scan_from(
                base_address,
                buffer@,
                scan_type,
                machine_byte_order(),
                eff,
                0,
                old(results)@,
                keep,
            )
        }),
{
    let c = ScanCriterion::Any;
    let f = no_float_close;
    assert((|v: ParsedValue| criterion_keeps(c, v, f)) =~= (|v: ParsedValue| true));
    scan_buffer_with(base_address, buffer, scan_type, c, step, native_byte_order(), results, &f);
}

// ---------------------------------------------------------------------------
// Scan report
// ---------------------------------------------------------------------------

/// The closure that writes floats as text can be called on every float.
pub open spec fn float_text_callable<G: Fn(ParsedValue) -> String>(g: G) -> bool {
    forall|v: ParsedValue| (v is F32 || v is F64) ==> #[trigger] g.requires((v,))
}

/// The closure that writes floats as text writes a float the same way each time.
pub open spec fn float_text_deterministic<G: Fn(ParsedValue) -> String>(g: G) -> bool {
    forall|v: ParsedValue, s1: String, s2: String|
        (v is F32 || v is F64) && #[trigger] g.ensures((v,), s1) && #[trigger] g.ensures((v,), s2)
            ==> s1@ == s2@
}

/// The text of a value: an integer in decimal, a float as `g` writes it.
pub open spec fn value_text<G: Fn(ParsedValue) -> String>(v: ParsedValue, g: G) -> Seq<char> {
    if v is F32 || v is F64 {
        (choose|s: String| g.ensures((v,), s))@
    } else {
        signed_decimal(int_value(v))
    }
}

/// The report line of the `i`-th match (counted from 0):
/// `[ n] 0xaddress, value, type`.
pub open spec fn match_line<G: Fn(ParsedValue) -> String>(
    i: nat,
    m: ScanMatch,
    t: ScanType,
    g: G,
) -> Seq<char> {
    "["@ + pad_left(decimal(i + 1), 2, ' ') + "] 0x"@ + pad_left(hex(m.address as nat), 8, '0')
        + ", "@ + value_text(m.value, g) + ", "@ + scan_type_label(t) + "\n"@
}

/// The report lines of the first `k` matches.
pub open spec fn match_lines<G: Fn(ParsedValue) -> String>(
    ms: Seq<ScanMatch>,
    k: nat,
    t: ScanType,
    g: G,
) -> Seq<char>
    decreases k,
{
    if k == 0 {
        Seq::empty()
    } else {
        match_lines(ms, (k - 1) as nat, t, g) + match_line((k - 1) as nat, ms[k - 1], t, g)
    }
}

/// The number of matches shown in a report: at most 10.
pub open spec fn preview_count(n: nat) -> nat {
    if n < 10 {
        n
    } else {
        10
    }
}

/// The report of a scan: the count of matches, the first ten of `ms`, and
/// how many more there are.
pub open spec fn scan_report<G: Fn(ParsedValue) -> String>(
    ms: Seq<ScanMatch>,
    total: nat,
    t: ScanType,
    g: G,
) -> Seq<char> {
    let p = preview_count(ms.len());
    decimal(total) + " matches found.\n"@ + match_lines(ms, p, t, g) + if total > p {
        "... and "@ + decimal((total - p) as nat) + " more matches\n"@
    } else {
        Seq::empty()
    }
}

/// The text of a value, for the report.
fn value_text_exec<G: Fn(ParsedValue) -> String>(v: ParsedValue, float_text: &G) -> (res: String)
    requires
        float_text_callable(*float_text),
        float_text_deterministic(*float_text),
    ensures
        res@ == value_text(v, *float_text),
{
    let r = v.to_string(float_text);
    proof {
        if v is F32 || v is F64 {
            let c = choose|s: String| float_text.ensures((v,), s);
            assert(float_text.ensures((v,), c));
            assert(c@ == r@);
        }
    }
    r
}

/// The report of a scan: `<total> matches found.`, then one line for each
/// of the first ten matches, then `... and <n> more matches` when
/// `total_count` exceeds the lines shown. Floats are written by `float_text`.
#[verifier::spinoff_prover]
#[verifier::rlimit(40)]
pub fn format_scan_output<G: Fn(ParsedValue) -> String>(
    matches: &[ScanMatch],
    total_count: usize,
    scan_type: ScanType,
    float_text: &G,
) -> (res: String)
    requires
        float_text_callable(*float_text),
        float_text_deterministic(*float_text),
    ensures
        res@ == scan_report(matches@, total_count as nat, scan_type, *float_text),
{
    let mut out = String::new();
    let total_digits = decimal_exec(total_count as u64);
    push_all(&mut out, total_digits.as_slice());
    push_str(&mut out, " matches found.\n");
    let preview = if matches.len() < 10 {
        matches.len()
    } else {
        10
    };
    let ghost head = out@;
    let mut i: usize = 0;
    while i < preview
        invariant
            i <= preview,
            preview == preview_count(matches@.len()),
            preview <= matches@.len(),
            float_text_callable(*float_text),
            float_text_deterministic(*float_text),
            out@ == head + match_lines(matches@, i as nat, scan_type, *float_text),
        decreases preview - i,
    {
        let m = matches[i];
        let ghost before = out@;
        push_str(&mut out, "[");
        let idx = decimal_exec((i + 1) as u64);
        let idx_padded = pad_left_exec(idx.as_slice(), 2, ' ');
        push_all(&mut out, idx_padded.as_slice());
        push_str(&mut out, "] 0x");
        let addr = hex_exec(m.address);
        let addr_padded = pad_left_exec(addr.as_slice(), 8, '0');
        push_all(&mut out, addr_padded.as_slice());
        push_str(&mut out, ", ");
        let vt = value_text_exec(m.value, float_text);
        push_str(&mut out, vt.as_str());
        push_str(&mut out, ", ");
        let tn = scan_type.to_string();
        push_str(&mut out, tn.as_str());
        push_str(&mut out, "\n");
        assert(out@ =~= before + match_line(i as nat, matches@[i as int], scan_type, *float_text));
        i = i + 1;
    }
    if total_count > preview {
        push_str(&mut out, "... and ");
        let rest = decimal_exec((total_count - preview) as u64);
        push_all(&mut out, rest.as_slice());
        push_str(&mut out, " more matches\n");
    }
    assert(out@ =~= scan_report(matches@, total_count as nat, scan_type, *float_text));
    out
}

} // verus!
