//! Values of the interpreter and the heap that holds scopes, tables and
//! functions.
use crate::ast::{Block, ParList};
use crate::interpreter::environment::LocalEnv;
use crate::interpreter::float::FloatOps;
use crate::interpreter::ops::{num_order, spec_float_desc, spec_int_desc, spec_order_desc};
use crate::text::{push_hex_digits, spec_hex_digits, push_nat_digits, chars_to_string, int_to_chars, int_to_string, push_chars, push_str, spec_int_text};
use vstd::prelude::*;

pub mod environment;
pub mod expression;
pub mod float;
pub mod ops;
pub mod statement;

verus! {

// ---------------------------------------------------------------------
// Numbers as eight big-endian bytes
// ---------------------------------------------------------------------

/// The unsigned 64-bit number whose big-endian bytes are `b`.
pub open spec fn spec_bytes_u64(b: Seq<u8>) -> u64 {
    ((b[0] as u64) << 56u64) | ((b[1] as u64) << 48u64) | ((b[2] as u64) << 40u64) | ((
    b[3] as u64) << 32u64) | ((b[4] as u64) << 24u64) | ((b[5] as u64) << 16u64) | ((
    b[6] as u64) << 8u64) | (b[7] as u64)
}

/// The integer whose big-endian two's complement bytes are `b`.
pub open spec fn spec_int_of_bytes(b: [u8; 8]) -> i64 {
    spec_bytes_u64(b@) as i64
}

/// The IEEE 754 bit pattern stored in `b`.
pub open spec fn spec_bits_of_bytes(b: [u8; 8]) -> u64 {
    spec_bytes_u64(b@)
}

/// `u64::from_be_bytes`.
pub fn bytes_to_u64(b: [u8; 8]) -> (r: u64)
    ensures
        r == spec_bytes_u64(b@),
{
    ((b[0] as u64) << 56u64) | ((b[1] as u64) << 48u64) | ((b[2] as u64) << 40u64) | ((
    b[3] as u64) << 32u64) | ((b[4] as u64) << 24u64) | ((b[5] as u64) << 16u64) | ((
    b[6] as u64) << 8u64) | (b[7] as u64)
}

/// `u64::to_be_bytes`.
pub fn u64_to_bytes(x: u64) -> (b: [u8; 8])
    ensures
        spec_bytes_u64(b@) == x,
{
    let b0 = (x >> 56u64) as u8;
    let b1 = ((x >> 48u64) & 0xff) as u8;
    let b2 = ((x >> 40u64) & 0xff) as u8;
    let b3 = ((x >> 32u64) & 0xff) as u8;
    let b4 = ((x >> 24u64) & 0xff) as u8;
    let b5 = ((x >> 16u64) & 0xff) as u8;
    let b6 = ((x >> 8u64) & 0xff) as u8;
    let b7 = (x & 0xff) as u8;
    let b = [b0, b1, b2, b3, b4, b5, b6, b7];
    assert(b@ =~= seq![b0, b1, b2, b3, b4, b5, b6, b7]);
    assert(((b0 as u64) << 56u64) | ((b1 as u64) << 48u64) | ((b2 as u64) << 40u64) | ((
    b3 as u64) << 32u64) | ((b4 as u64) << 24u64) | ((b5 as u64) << 16u64) | ((b6 as u64)
        << 8u64) | (b7 as u64) == x) by (bit_vector)
        requires
            b0 == (x >> 56u64) as u8,
            b1 == ((x >> 48u64) & 0xff) as u8,
            b2 == ((x >> 40u64) & 0xff) as u8,
            b3 == ((x >> 32u64) & 0xff) as u8,
            b4 == ((x >> 24u64) & 0xff) as u8,
            b5 == ((x >> 16u64) & 0xff) as u8,
            b6 == ((x >> 8u64) & 0xff) as u8,
            b7 == (x & 0xff) as u8,
    ;
    b
}

/// `i64::from_be_bytes`.
pub fn bytes_to_int(b: [u8; 8]) -> (r: i64)
    ensures
        r == spec_int_of_bytes(b),
{
    bytes_to_u64(b) as i64
}

/// `i64::to_be_bytes`.
pub fn int_to_bytes(i: i64) -> (b: [u8; 8])
    ensures
        spec_int_of_bytes(b) == i,
{
    let u = i as u64;
    assert((u as i64) == i) by (bit_vector)
        requires
            u == i as u64,
    ;
    u64_to_bytes(u)
}

// IEEE 754 classification of a bit pattern.
/// The sign bit is set.
pub open spec fn spec_sign_bit(bits: u64) -> bool {
    bits >= 0x8000_0000_0000_0000u64
}

/// The magnitude bits (all but the sign).
pub open spec fn spec_magnitude(bits: u64) -> u64 {
    (bits % 0x8000_0000_0000_0000u64) as u64
}

/// The pattern is a NaN: all exponent bits set and a nonzero fraction.
pub open spec fn spec_is_nan(bits: u64) -> bool {
    spec_magnitude(bits) > 0x7ff0_0000_0000_0000u64
}

/// The pattern is positive or negative zero.
pub open spec fn spec_float_is_zero(bits: u64) -> bool {
    spec_magnitude(bits) == 0
}

/// The pattern is greater than zero.
pub open spec fn spec_float_is_positive(bits: u64) -> bool {
    !spec_sign_bit(bits) && !spec_float_is_zero(bits) && !spec_is_nan(bits)
}

/// The pattern is less than zero.
pub open spec fn spec_float_is_negative(bits: u64) -> bool {
    spec_sign_bit(bits) && !spec_float_is_zero(bits) && !spec_is_nan(bits)
}

/// The bit pattern of `-a`: the sign bit flipped.
pub open spec fn spec_float_negate(bits: u64) -> u64 {
    if spec_sign_bit(bits) {
        (bits - 0x8000_0000_0000_0000u64) as u64
    } else {
        (bits + 0x8000_0000_0000_0000u64) as u64
    }
}

/// Negation flips the sign and keeps the magnitude: `-x` has the sign bit
/// exactly when `x` does not, the same magnitude bits, and negating twice
/// gives `x` back.
pub proof fn law_float_negate(bits: u64)
    ensures
        spec_sign_bit(spec_float_negate(bits)) == !spec_sign_bit(bits),
        spec_magnitude(spec_float_negate(bits)) == spec_magnitude(bits),
        spec_float_negate(spec_float_negate(bits)) == bits,
{
}

pub fn float_negate(bits: u64) -> (r: u64)
    ensures
        r == spec_float_negate(bits),
{
    if bits >= 0x8000_0000_0000_0000u64 {
        bits - 0x8000_0000_0000_0000u64
    } else {
        bits + 0x8000_0000_0000_0000u64
    }
}

fn float_magnitude(bits: u64) -> (r: u64)
    ensures
        r == spec_magnitude(bits),
{
    bits % 0x8000_0000_0000_0000u64
}

// ---------------------------------------------------------------------
// Values
// ---------------------------------------------------------------------

/// A handle to a table in the heap.
#[derive(Debug, PartialEq, Eq, Clone, Copy, Structural)]
pub struct LuaTable(pub usize);

/// A value of the interpreter.
#[derive(Debug, PartialEq)]
pub enum LuaVal {
    LuaTable(LuaTable),
    LuaNil,
    LuaBool(bool),
    /// A number as eight big-endian bytes, and whether it is a float.
    LuaNum([u8; 8], bool),
    LuaString(String),
    /// A function, by its index in the heap.
    Function(usize),
    Print,
    Read,
    Random,
}

/// A value as the program sees it.
#[derive(Debug, PartialEq)]
pub struct LuaValue(pub LuaVal);

/// A function value: its parameters, its body, and the local scopes it
/// captured where it was defined.
#[derive(Debug)]
pub struct LuaFunction<'a> {
    pub par_list: &'a ParList,
    pub block: &'a Block,
    pub captured_env: LocalEnv,
}

/// A key of a table: a number (integral floats are stored as integers) or a
/// string.
#[derive(Debug, PartialEq)]
pub enum TableKey {
    Number([u8; 8]),
    String(String),
}

/// The storage that scopes, tables and functions live in. Values refer to
/// tables and functions by index, so several variables can share one table
/// and closures can share the scopes they captured. The heap also holds the
/// lines printed so far and the lines that `read` will consume.
#[derive(Debug)]
pub struct Heap<'a> {
    /// Each scope maps names to values; the last entry for a name wins.
    pub scopes: Vec<Vec<(String, LuaValue)>>,
    /// Each table maps keys to values.
    pub tables: Vec<Vec<(TableKey, LuaValue)>>,
    pub functions: Vec<LuaFunction<'a>>,
    /// Lines written by `print`.
    pub output: Vec<String>,
    /// Lines for `read`, consumed from `input_pos` on.
    pub input: Vec<String>,
    pub input_pos: usize,
}

impl<'a> Heap<'a> {
    /// An empty heap whose `read` consumes the given lines.
    pub fn new(input: Vec<String>) -> (h: Heap<'a>)
        ensures
            h.scopes@.len() == 0,
            h.tables@.len() == 0,
            h.functions@.len() == 0,
            h.output@.len() == 0,
            h.input@ == input@,
            h.input_pos == 0,
    {
        Heap {
            scopes: Vec::new(),
            tables: Vec::new(),
            functions: Vec::new(),
            output: Vec::new(),
            input,
            input_pos: 0,
        }
    }

    /// The contents of every scope.
    pub open spec fn scopes_view(&self) -> Seq<Seq<(String, LuaValue)>> {
        Seq::new(self.scopes@.len(), |i: int| self.scopes@[i]@)
    }

    /// The contents of every table.
    pub open spec fn tables_view(&self) -> Seq<Seq<(TableKey, LuaValue)>> {
        Seq::new(self.tables@.len(), |i: int| self.tables@[i]@)
    }

    /// Everything but the tables is the same in both heaps.
    pub open spec fn same_but_tables(&self, other: &Heap<'a>) -> bool {
        &&& self.scopes@ == other.scopes@
        &&& self.functions@ == other.functions@
        &&& self.output@ == other.output@
        &&& self.input@ == other.input@
        &&& self.input_pos == other.input_pos
    }

    /// Everything but the scopes is the same in both heaps.
    pub open spec fn same_but_scopes(&self, other: &Heap<'a>) -> bool {
        &&& self.tables@ == other.tables@
        &&& self.functions@ == other.functions@
        &&& self.output@ == other.output@
        &&& self.input@ == other.input@
        &&& self.input_pos == other.input_pos
    }
}

/// The heap only grows: no scope, table or function goes away, the lines
/// already printed stay (more may follow), and the input is the same and is
/// read further on, never back.
pub open spec fn spec_heap_grows(h0: Heap, h1: Heap) -> bool {
    &&& h0.scopes_view().len() <= h1.scopes_view().len()
    &&& h0.tables_view().len() <= h1.tables_view().len()
    &&& h0.functions@.len() <= h1.functions@.len()
    &&& h0.output@.len() <= h1.output@.len()
    &&& forall|i: int| 0 <= i < h0.output@.len() ==> #[trigger] h1.output@[i] == h0.output@[i]
    &&& h1.input@ == h0.input@
    &&& h0.input_pos <= h1.input_pos
}

/// An error raised while executing a program.
#[derive(Debug, PartialEq)]
pub struct ASTExecError(pub String);

impl ASTExecError {
    pub fn new(msg: &str) -> (e: ASTExecError)
        ensures
            e.0@ == msg@,
    {
        ASTExecError(String::from_str(msg))
    }
}

/// An error value from a literal message.
pub fn exec_error(msg: &str) -> (e: ASTExecError)
    ensures
        e.0@ == msg@,
{
    ASTExecError(String::from_str(msg))
}

/// The value of an integer.
pub open spec fn spec_int_val(i: i64) -> LuaVal {
    LuaVal::LuaNum(spec_int_bytes(i), false)
}

/// The bytes of an integer.
pub open spec fn spec_int_bytes(i: i64) -> [u8; 8] {
    choose|b: [u8; 8]| spec_int_of_bytes(b) == i
}

/// Every integer has bytes: `spec_int_bytes` gives them.
pub broadcast proof fn lemma_int_bytes(i: i64)
    ensures
        #[trigger] spec_int_of_bytes(spec_int_bytes(i)) == i,
{
    let u = i as u64;
    let b0 = (u >> 56u64) as u8;
    let b1 = ((u >> 48u64) & 0xff) as u8;
    let b2 = ((u >> 40u64) & 0xff) as u8;
    let b3 = ((u >> 32u64) & 0xff) as u8;
    let b4 = ((u >> 24u64) & 0xff) as u8;
    let b5 = ((u >> 16u64) & 0xff) as u8;
    let b6 = ((u >> 8u64) & 0xff) as u8;
    let b7 = (u & 0xff) as u8;
    let b: [u8; 8] = [b0, b1, b2, b3, b4, b5, b6, b7];
    assert(b@ =~= seq![b0, b1, b2, b3, b4, b5, b6, b7]);
    assert(((b0 as u64) << 56u64) | ((b1 as u64) << 48u64) | ((b2 as u64) << 40u64) | ((
    b3 as u64) << 32u64) | ((b4 as u64) << 24u64) | ((b5 as u64) << 16u64) | ((b6 as u64)
        << 8u64) | (b7 as u64) == u) by (bit_vector)
        requires
            b0 == (u >> 56u64) as u8,
            b1 == ((u >> 48u64) & 0xff) as u8,
            b2 == ((u >> 40u64) & 0xff) as u8,
            b3 == ((u >> 32u64) & 0xff) as u8,
            b4 == ((u >> 24u64) & 0xff) as u8,
            b5 == ((u >> 16u64) & 0xff) as u8,
            b6 == ((u >> 8u64) & 0xff) as u8,
            b7 == (u & 0xff) as u8,
    ;
    assert((u as i64) == i) by (bit_vector)
        requires
            u == i as u64,
    ;
    assert(spec_int_of_bytes(b) == i);
}

/// Different bytes are different integers.
pub proof fn lemma_int_of_bytes_injective(x: [u8; 8], y: [u8; 8])
    requires
        spec_int_of_bytes(x) == spec_int_of_bytes(y),
    ensures
        x@ == y@,
{
    let (x0, x1, x2, x3, x4, x5, x6, x7) = (x@[0], x@[1], x@[2], x@[3], x@[4], x@[5], x@[6], x@[7]);
    let (y0, y1, y2, y3, y4, y5, y6, y7) = (y@[0], y@[1], y@[2], y@[3], y@[4], y@[5], y@[6], y@[7]);
    let u = spec_bytes_u64(x@);
    let v = spec_bytes_u64(y@);
    assert(u == v) by (bit_vector)
        requires
            (u as i64) == (v as i64),
    ;
    assert(x0 == y0 && x1 == y1 && x2 == y2 && x3 == y3 && x4 == y4 && x5 == y5 && x6 == y6 && x7
        == y7) by (bit_vector)
        requires
            ((x0 as u64) << 56u64) | ((x1 as u64) << 48u64) | ((x2 as u64) << 40u64) | ((x3 as u64)
                << 32u64) | ((x4 as u64) << 24u64) | ((x5 as u64) << 16u64) | ((x6 as u64) << 8u64)
                | (x7 as u64) == ((y0 as u64) << 56u64) | ((y1 as u64) << 48u64) | ((y2 as u64)
                << 40u64) | ((y3 as u64) << 32u64) | ((y4 as u64) << 24u64) | ((y5 as u64) << 16u64)
                | ((y6 as u64) << 8u64) | (y7 as u64),
    ;
    assert(x@ =~= y@);
}

/// The value is an integer with the given value.
pub open spec fn is_int_val(v: LuaVal, i: i64) -> bool {
    v matches LuaVal::LuaNum(b, false) && spec_int_of_bytes(b) == i
}

/// The value is a float with the given bit pattern.
pub open spec fn is_float_val(v: LuaVal, bits: u64) -> bool {
    v matches LuaVal::LuaNum(b, true) && spec_bits_of_bytes(b) == bits
}

/// Only `nil` and `false` are false.
pub open spec fn spec_is_false(v: LuaVal) -> bool {
    v is LuaNil || v == LuaVal::LuaBool(false)
}

/// Makes an integer value.
pub fn int_value(i: i64) -> (v: LuaValue)
    ensures
        is_int_val(v.0, i),
{
    LuaValue(LuaVal::LuaNum(int_to_bytes(i), false))
}

/// Makes a float value from its bit pattern.
pub fn float_value(bits: u64) -> (v: LuaValue)
    ensures
        is_float_val(v.0, bits),
{
    LuaValue(LuaVal::LuaNum(u64_to_bytes(bits), true))
}

/// Makes a boolean value.
pub fn bool_value(b: bool) -> (v: LuaValue)
    ensures
        v.0 == LuaVal::LuaBool(b),
{
    LuaValue(LuaVal::LuaBool(b))
}

/// Makes `nil`.
pub fn nil_value() -> (v: LuaValue)
    ensures
        v.0 == LuaVal::LuaNil,
{
    LuaValue(LuaVal::LuaNil)
}

impl LuaValue {
    pub fn new(val: LuaVal) -> (v: LuaValue)
        ensures
            v.0 == val,
    {
        LuaValue(val)
    }

    /// A copy of this value; tables and functions are shared, not copied.
    pub fn clone(&self) -> (v: LuaValue)
        ensures
            v == *self,
    {
        let val = match &self.0 {
            LuaVal::LuaTable(t) => LuaVal::LuaTable(*t),
            LuaVal::LuaNil => LuaVal::LuaNil,
            LuaVal::LuaBool(b) => LuaVal::LuaBool(*b),
            LuaVal::LuaNum(n, f) => LuaVal::LuaNum(*n, *f),
            LuaVal::LuaString(s) => LuaVal::LuaString(s.clone()),
            LuaVal::Function(i) => LuaVal::Function(*i),
            LuaVal::Print => LuaVal::Print,
            LuaVal::Read => LuaVal::Read,
            LuaVal::Random => LuaVal::Random,
        };
        LuaValue(val)
    }

    /// All values other than `nil` and `false` test true.
    pub fn is_false(&self) -> (r: bool)
        ensures
            r == spec_is_false(self.0),
    {
        match &self.0 {
            LuaVal::LuaNil => true,
            LuaVal::LuaBool(b) => !*b,
            _ => false,
        }
    }

    pub fn is_true(&self) -> (r: bool)
        ensures
            r == !spec_is_false(self.0),
    {
        !self.is_false()
    }

    pub fn is_zero(&self) -> (r: bool)
        ensures
            r == (match self.0 {
                LuaVal::LuaNum(b, false) => spec_int_of_bytes(b) == 0,
                LuaVal::LuaNum(b, true) => spec_float_is_zero(spec_bits_of_bytes(b)),
                _ => false,
            }),
    {
        match &self.0 {
            LuaVal::LuaNum(num, is_float) => {
                if *is_float {
                    float_magnitude(bytes_to_u64(*num)) == 0
                } else {
                    bytes_to_int(*num) == 0
                }
            },
            _ => false,
        }
    }

    pub fn is_positive(&self) -> (r: bool)
        ensures
            r == (match self.0 {
                LuaVal::LuaNum(b, false) => spec_int_of_bytes(b) > 0,
                LuaVal::LuaNum(b, true) => spec_float_is_positive(spec_bits_of_bytes(b)),
                _ => false,
            }),
    {
        match &self.0 {
            LuaVal::LuaNum(num, is_float) => {
                if *is_float {
                    let bits = bytes_to_u64(*num);
                    let m = float_magnitude(bits);
                    bits < 0x8000_0000_0000_0000u64 && m != 0 && m <= 0x7ff0_0000_0000_0000u64
                } else {
                    bytes_to_int(*num) > 0
                }
            },
            _ => false,
        }
    }

    pub fn is_negative(&self) -> (r: bool)
        ensures
            r == (match self.0 {
                LuaVal::LuaNum(b, false) => spec_int_of_bytes(b) < 0,
                LuaVal::LuaNum(b, true) => spec_float_is_negative(spec_bits_of_bytes(b)),
                _ => false,
            }),
    {
        match &self.0 {
            LuaVal::LuaNum(num, is_float) => {
                if *is_float {
                    let bits = bytes_to_u64(*num);
                    let m = float_magnitude(bits);
                    bits >= 0x8000_0000_0000_0000u64 && m != 0 && m <= 0x7ff0_0000_0000_0000u64
                } else {
                    bytes_to_int(*num) < 0
                }
            },
            _ => false,
        }
    }

    pub fn is_nil(&self) -> (r: bool)
        ensures
            r == (self.0 is LuaNil),
    {
        match &self.0 {
            LuaVal::LuaNil => true,
            _ => false,
        }
    }

    /// Whether this number is at least `num`, by value (for a float this is
    /// the same as its value rounded down being at least `num`; NaN is not);
    /// an error for values that are not numbers.
    pub fn is_greater_or_equal<F: FloatOps>(&self, num: i64, fl: &F) -> (r: Result<
        bool,
        ASTExecError,
    >)
        ensures
            match self.0 {
                LuaVal::LuaNum(b, false) => r == Ok::<bool, ASTExecError>(
                    spec_int_of_bytes(b) >= num,
                ),
                LuaVal::LuaNum(b, true) => r == Ok::<bool, ASTExecError>(
                    spec_order_desc(spec_float_desc(spec_bits_of_bytes(b)), spec_int_desc(num as int)) matches Some(c)
                        && c >= 0,
                ),
                _ => r matches Err(e) && e.0@
                    == "Cannot compare values (types cannot be compared)"@,
            },
    {
        match &self.0 {
            LuaVal::LuaNum(n, is_float) => {
                if *is_float {
                    let iv = int_value(num);
                    match num_order(&self.0, &iv.0) {
                        Some(c) => Ok(c >= 0),
                        None => Ok(false),
                    }
                } else {
                    Ok(bytes_to_int(*n) >= num)
                }
            },
            _ => Err(exec_error("Cannot compare values (types cannot be compared)")),
        }
    }

    /// Whether this number is at most `num`, by value (for a float this is
    /// the same as its value rounded up being at most `num`; NaN is not);
    /// an error for values that are not numbers.
    pub fn is_less_or_equal<F: FloatOps>(&self, num: i64, fl: &F) -> (r: Result<
        bool,
        ASTExecError,
    >)
        ensures
            match self.0 {
                LuaVal::LuaNum(b, false) => r == Ok::<bool, ASTExecError>(
                    spec_int_of_bytes(b) <= num,
                ),
                LuaVal::LuaNum(b, true) => r == Ok::<bool, ASTExecError>(
                    spec_order_desc(spec_float_desc(spec_bits_of_bytes(b)), spec_int_desc(num as int)) matches Some(c)
                        && c <= 0,
                ),
                _ => r matches Err(e) && e.0@
                    == "Cannot compare values (types cannot be compared)"@,
            },
    {
        match &self.0 {
            LuaVal::LuaNum(n, is_float) => {
                if *is_float {
                    let iv = int_value(num);
                    match num_order(&self.0, &iv.0) {
                        Some(c) => Ok(c <= 0),
                        None => Ok(false),
                    }
                } else {
                    Ok(bytes_to_int(*n) <= num)
                }
            },
            _ => Err(exec_error("Cannot compare values (types cannot be compared)")),
        }
    }

    /// Logical negation of a boolean; an error for other values.
    pub fn negate_bool(self) -> (r: Result<LuaValue, ASTExecError>)
        ensures
            match self.0 {
                LuaVal::LuaBool(b) => r == Ok::<LuaValue, ASTExecError>(
                    LuaValue(LuaVal::LuaBool(!b)),
                ),
                _ => r matches Err(e) && e.0@
                    == "Cannot negate value (only boolean can be negated)"@,
            },
    {
        match &self.0 {
            LuaVal::LuaBool(b) => Ok(LuaValue(LuaVal::LuaBool(!*b))),
            _ => Err(exec_error("Cannot negate value (only boolean can be negated)")),
        }
    }

    /// The integer value of a number; a float converts only when it has an
    /// exact integer value.
    pub fn into_int<F: FloatOps>(self, fl: &F) -> (r: Result<i64, ASTExecError>)
        ensures
            match self.0 {
                LuaVal::LuaNum(b, false) => r == Ok::<i64, ASTExecError>(spec_int_of_bytes(b)),
                LuaVal::LuaNum(b, true) => r is Err ==> r->Err_0.0@
                    == "Cannot convert float that does not have exact integer value to integer"@,
                _ => r matches Err(e) && e.0@
                    == "Cannot convert value to integer (types cannot be converted)"@,
            },
    {
        match &self.0 {
            LuaVal::LuaNum(n, is_float) => {
                if *is_float {
                    match fl.exact_int(bytes_to_u64(*n)) {
                        Some(i) => Ok(i),
                        None => Err(
                            exec_error(
                                "Cannot convert float that does not have exact integer value to integer",
                            ),
                        ),
                    }
                } else {
                    Ok(bytes_to_int(*n))
                }
            },
            _ => Err(exec_error("Cannot convert value to integer (types cannot be converted)")),
        }
    }

    /// The text of a number or a string; an error for other values.
    pub fn into_string<F: FloatOps>(self, fl: &F) -> (r: Result<String, ASTExecError>)
        ensures
            match self.0 {
                LuaVal::LuaNum(b, false) => r matches Ok(s) && s@ == spec_int_text(
                    spec_int_of_bytes(b) as int,
                ),
                LuaVal::LuaNum(b, true) => r is Ok,
                LuaVal::LuaString(s) => r == Ok::<String, ASTExecError>(s),
                _ => r matches Err(e) && e.0@
                    == "Cannot convert value to String (types cannot be converted)"@,
            },
    {
        match &self.0 {
            LuaVal::LuaNum(n, is_float) => {
                if *is_float {
                    Ok(fl.to_text(bytes_to_u64(*n)))
                } else {
                    Ok(int_to_string(bytes_to_int(*n)))
                }
            },
            LuaVal::LuaString(s) => Ok(s.clone()),
            _ => Err(exec_error("Cannot convert value to String (types cannot be converted)")),
        }
    }

    /// The first of several values, or `nil` when there are none.
    pub fn extract_first_return_val(return_vals: Vec<LuaValue>) -> (v: LuaValue)
        ensures
            v == (if return_vals@.len() == 0 {
                LuaValue(LuaVal::LuaNil)
            } else {
                return_vals@[0]
            }),
    {
        if return_vals.len() == 0 {
            LuaValue(LuaVal::LuaNil)
        } else {
            return_vals[0].clone()
        }
    }
}


// ---------------------------------------------------------------------
// Tables
// ---------------------------------------------------------------------

/// Entries of one table.
pub type TableEntries = Seq<(TableKey, LuaValue)>;

/// Two keys denote the same field.
pub open spec fn spec_key_eq(a: TableKey, b: TableKey) -> bool {
    match (a, b) {
        (TableKey::Number(x), TableKey::Number(y)) => x@ == y@,
        (TableKey::String(x), TableKey::String(y)) => x@ == y@,
        _ => false,
    }
}

/// The index of the last entry for `key`, or -1.
pub open spec fn spec_key_find_last(e: TableEntries, key: TableKey) -> int
    decreases e.len(),
{
    if e.len() == 0 {
        -1
    } else if spec_key_eq(e.last().0, key) {
        e.len() - 1
    } else {
        spec_key_find_last(e.drop_last(), key)
    }
}

/// The value stored under `key`.
pub open spec fn spec_table_get(e: TableEntries, key: TableKey) -> Option<LuaValue> {
    let i = spec_key_find_last(e, key);
    if i < 0 {
        None
    } else {
        Some(e[i].1)
    }
}

/// The table after storing `v` under `key`.
pub open spec fn spec_table_set(e: TableEntries, key: TableKey, v: LuaValue) -> TableEntries {
    let i = spec_key_find_last(e, key);
    if i < 0 {
        e.push((key, v))
    } else {
        e.update(i, (e[i].0, v))
    }
}

/// The key of an integer.
pub open spec fn spec_int_key(k: TableKey, i: i64) -> bool {
    k matches TableKey::Number(b) && spec_int_of_bytes(b) == i
}

proof fn lemma_key_find_last_is(e: TableEntries, key: TableKey, i: int)
    requires
        -1 <= i < e.len(),
        i >= 0 ==> spec_key_eq(e[i].0, key),
        forall|j: int| i < j < e.len() ==> !spec_key_eq(e[j].0, key),
    ensures
        spec_key_find_last(e, key) == i,
    decreases e.len(),
{
    if e.len() > 0 && e.len() - 1 != i {
        lemma_key_find_last_is(e.drop_last(), key, i);
    }
}

proof fn lemma_key_find_last_after(e: TableEntries, key: TableKey, j: int)
    requires
        spec_key_find_last(e, key) < j < e.len(),
    ensures
        !spec_key_eq(e[j].0, key),
    decreases e.len(),
{
    lemma_key_find_last_range(e, key);
    if e.len() > 0 && !spec_key_eq(e.last().0, key) {
        if j < e.len() - 1 {
            lemma_key_find_last_after(e.drop_last(), key, j);
            assert(e.drop_last()[j] == e[j]);
        } else {
            assert(e.last() == e[j]);
        }
    }
}

/// Keys of the same field are found at the same entry.
pub proof fn lemma_key_find_last_equiv(e: TableEntries, k1: TableKey, k2: TableKey)
    requires
        forall|k: TableKey| spec_key_eq(k, k1) == spec_key_eq(k, k2),
    ensures
        spec_key_find_last(e, k1) == spec_key_find_last(e, k2),
    decreases e.len(),
{
    if e.len() > 0 {
        assert(spec_key_eq(e.last().0, k1) == spec_key_eq(e.last().0, k2));
        lemma_key_find_last_equiv(e.drop_last(), k1, k2);
    }
}

proof fn lemma_key_find_last_range(e: TableEntries, key: TableKey)
    ensures
        -1 <= spec_key_find_last(e, key) < e.len(),
        spec_key_find_last(e, key) >= 0 ==> spec_key_eq(e[spec_key_find_last(e, key)].0, key),
    decreases e.len(),
{
    if e.len() > 0 && !spec_key_eq(e.last().0, key) {
        lemma_key_find_last_range(e.drop_last(), key);
    }
}

proof fn lemma_key_find_last_same_keys(e1: TableEntries, e2: TableEntries, key: TableKey)
    requires
        e1.len() == e2.len(),
        forall|j: int| 0 <= j < e1.len() ==> e1[j].0 == e2[j].0,
    ensures
        spec_key_find_last(e1, key) == spec_key_find_last(e2, key),
    decreases e1.len(),
{
    if e1.len() > 0 {
        lemma_key_find_last_same_keys(e1.drop_last(), e2.drop_last(), key);
    }
}

proof fn lemma_key_eq_same_field(a: TableKey, b: TableKey, c: TableKey)
    requires
        spec_key_eq(b, c),
    ensures
        spec_key_eq(a, b) == spec_key_eq(a, c),
{
    match (a, b, c) {
        (TableKey::Number(x), TableKey::Number(y), TableKey::Number(z)) => {},
        (TableKey::String(x), TableKey::String(y), TableKey::String(z)) => {},
        _ => {},
    }
}

/// A write to a table is seen by a read of the same key, and by no other.
pub proof fn law_table_read_after_write(e: TableEntries, key: TableKey, v: LuaValue, other: TableKey)
    requires
        spec_key_eq(key, key),
    ensures
        spec_table_get(spec_table_set(e, key, v), other) == if spec_key_eq(key, other) {
            Some(v)
        } else {
            spec_table_get(e, other)
        },
{
    let i = spec_key_find_last(e, key);
    lemma_key_find_last_range(e, key);
    lemma_key_find_last_range(e, other);
    let e2 = spec_table_set(e, key, v);
    if i < 0 {
        assert(e2.drop_last() =~= e);
    } else {
        lemma_key_find_last_same_keys(e, e2, other);
        lemma_key_find_last_same_keys(e, e2, key);
        if spec_key_eq(key, other) {
            // `key` and `other` denote the same field, so they have the same last entry.
            assert forall|j: int| i < j < e.len() implies !spec_key_eq(e[j].0, other) by {
                lemma_key_find_last_after(e, key, j);
                lemma_key_eq_same_field(e[j].0, key, other);
            }
            lemma_key_eq_same_field(e[i].0, key, other);
            lemma_key_find_last_is(e, other, i);
        } else {
            let j = spec_key_find_last(e, other);
            if j >= 0 {
                assert(j != i);
            }
        }
    }
}

/// Whether two byte arrays are equal.
pub fn bytes_eq(x: &[u8; 8], y: &[u8; 8]) -> (r: bool)
    ensures
        r == (x@ == y@),
{
    let mut i: usize = 0;
    while i < 8
        invariant
            i <= 8,
            x@.len() == 8,
            y@.len() == 8,
            forall|j: int| 0 <= j < i ==> x@[j] == y@[j],
        decreases 8 - i,
    {
        if x[i] != y[i] {
            assert(x@[i as int] != y@[i as int]);
            return false;
        }
        i = i + 1;
    }
    assert(x@ =~= y@);
    true
}

/// Whether two keys denote the same field.
pub fn key_eq(a: &TableKey, b: &TableKey) -> (r: bool)
    ensures
        r == spec_key_eq(*a, *b),
{
    match (a, b) {
        (TableKey::Number(x), TableKey::Number(y)) => bytes_eq(x, y),
        (TableKey::String(x), TableKey::String(y)) => {
            crate::interpreter::environment::str_eq(x.as_str(), y.as_str())
        },
        _ => false,
    }
}

impl TableKey {
    /// A copy of this key.
    pub fn clone(&self) -> (k: TableKey)
        ensures
            k == *self,
    {
        match self {
            TableKey::Number(b) => TableKey::Number(*b),
            TableKey::String(s) => TableKey::String(s.clone()),
        }
    }
}

impl LuaTable {
    /// A new empty table.
    pub fn new(heap: &mut Heap) -> (t: LuaTable)
        ensures
            t.0 == old(heap).tables@.len(),
            final(heap).tables_view() == old(heap).tables_view().push(Seq::empty()),
            final(heap).same_but_tables(&*old(heap)),
    {
        let t = LuaTable(heap.tables.len());
        heap.tables.push(Vec::new());
        assert(heap.tables_view() =~= old(heap).tables_view().push(Seq::empty()));
        t
    }

    /// The value stored under `key`, if any.
    pub fn get(&self, heap: &Heap, key: &TableKey) -> (r: Option<LuaValue>)
        ensures
            r == (if self.0 < heap.tables@.len() {
                spec_table_get(heap.tables_view()[self.0 as int], *key)
            } else {
                None
            }),
    {
        if self.0 >= heap.tables.len() {
            return None;
        }
        let entries = &heap.tables[self.0];
        let ghost e = entries@;
        assert(heap.tables_view()[self.0 as int] == e);
        let mut i = entries.len();
        while i > 0
            invariant
                i <= e.len(),
                e == entries@,
                self.0 < heap.tables@.len(),
                heap.tables_view()[self.0 as int] == e,
                forall|j: int| i <= j < e.len() ==> !spec_key_eq(e[j].0, *key),
            decreases i,
        {
            i = i - 1;
            if key_eq(&entries[i].0, key) {
                proof {
                    lemma_key_find_last_is(e, *key, i as int);
                }
                return Some(entries[i].1.clone());
            }
        }
        proof {
            lemma_key_find_last_is(e, *key, -1);
        }
        None
    }

    /// Stores `val` under `key`.
    pub fn set(&self, heap: &mut Heap, key: TableKey, val: LuaValue)
        ensures
            final(heap).tables_view() == (if self.0 < old(heap).tables@.len() {
                old(heap).tables_view().update(
                    self.0 as int,
                    spec_table_set(old(heap).tables_view()[self.0 as int], key, val),
                )
            } else {
                old(heap).tables_view()
            }),
            final(heap).same_but_tables(&*old(heap)),
    {
        if self.0 >= heap.tables.len() {
            return ;
        }
        let ghost tv = heap.tables_view();
        let ghost e = heap.tables@[self.0 as int]@;
        let mut i = heap.tables[self.0].len();
        while i > 0
            invariant
                i <= e.len(),
                self.0 < heap.tables@.len(),
                heap.tables_view() == tv,
                tv[self.0 as int] == e,
                heap.same_but_tables(&*old(heap)),
                tv == old(heap).tables_view(),
                forall|j: int| i <= j < e.len() ==> !spec_key_eq(e[j].0, key),
            decreases i,
        {
            i = i - 1;
            assert(heap.tables_view()[self.0 as int] == heap.tables@[self.0 as int]@);
            if key_eq(&heap.tables[self.0][i].0, &key) {
                proof {
                    lemma_key_find_last_is(e, key, i as int);
                }
                heap.tables[self.0][i].1 = val;
                assert(heap.tables_view() =~= tv.update(
                    self.0 as int,
                    spec_table_set(e, key, val),
                ));
                return ;
            }
        }
        proof {
            lemma_key_find_last_is(e, key, -1);
        }
        heap.tables[self.0].push((key, val));
        assert(heap.tables_view() =~= tv.update(self.0 as int, spec_table_set(e, key, val)));
    }

    /// Stores `val` under a string key.
    pub fn insert_ident(&self, heap: &mut Heap, name: String, val: LuaValue)
        ensures
            final(heap).tables_view() == (if self.0 < old(heap).tables@.len() {
                old(heap).tables_view().update(
                    self.0 as int,
                    spec_table_set(
                        old(heap).tables_view()[self.0 as int],
                        TableKey::String(name),
                        val,
                    ),
                )
            } else {
                old(heap).tables_view()
            }),
            final(heap).same_but_tables(&*old(heap)),
    {
        self.set(heap, TableKey::String(name), val);
    }

    /// Stores `val` under an integer key.
    pub fn insert_int(&self, heap: &mut Heap, i: i64, val: LuaValue)
        ensures
            exists|k: TableKey|
                spec_int_key(k, i) && final(heap).tables_view() == (if self.0 < old(
                    heap,
                ).tables@.len() {
                    old(heap).tables_view().update(
                        self.0 as int,
                        spec_table_set(old(heap).tables_view()[self.0 as int], k, val),
                    )
                } else {
                    old(heap).tables_view()
                }),
            final(heap).same_but_tables(&*old(heap)),
    {
        let k = TableKey::Number(int_to_bytes(i));
        let ghost kk = k;
        self.set(heap, k, val);
        assert(spec_int_key(kk, i));
    }

    /// The length of the sequence part: the `n` such that the keys `1..=n`
    /// all hold non-nil values and the key `n + 1` does not.
    pub fn calculate_border(&self, heap: &Heap) -> (n: i64)
        ensures
            n >= 0,
            self.0 < heap.tables@.len() ==> forall|k: int|
                1 <= k <= n ==> #[trigger] spec_int_key_set(heap.tables_view()[self.0 as int], k),
            self.0 < heap.tables@.len() && n < i64::MAX ==> spec_int_key_unset(
                heap.tables_view()[self.0 as int],
                n + 1,
            ),
            self.0 >= heap.tables@.len() ==> n == 0,
    {
        let mut n: i64 = 0;
        while n < i64::MAX
            invariant
                n >= 0,
                self.0 >= heap.tables@.len() ==> n == 0,
                self.0 < heap.tables@.len() ==> forall|k: int|
                    1 <= k <= n ==> #[trigger] spec_int_key_set(heap.tables_view()[self.0 as int], k),
            decreases i64::MAX - n,
        {
            let b = int_to_bytes(n + 1);
            let key = TableKey::Number(b);
            match self.get(heap, &key) {
                Some(v) => {
                    if v.is_nil() {
                        proof {
                            if self.0 < heap.tables@.len() {
                                let e = heap.tables_view()[self.0 as int];
                                assert(spec_int_of_bytes(b) == n + 1 && !(spec_table_get(e, TableKey::Number(b)) matches Some(w) && !(w.0 is LuaNil)));
                            }
                        }
                        return n;
                    }
                    proof {
                        if self.0 < heap.tables@.len() {
                            let e = heap.tables_view()[self.0 as int];
                            assert(spec_table_get(e, TableKey::Number(b)) == Some(v));
                            assert(spec_int_key_set(e, n + 1));
                        }
                    }
                },
                None => {
                    proof {
                        if self.0 < heap.tables@.len() {
                            let e = heap.tables_view()[self.0 as int];
                            assert(spec_int_of_bytes(b) == n + 1 && !(spec_table_get(e, TableKey::Number(b)) matches Some(w) && !(w.0 is LuaNil)));
                        }
                    }
                    return n;
                },
            }
            n = n + 1;
        }
        n
    }
}

// ---------------------------------------------------------------------
// Text of values
// ---------------------------------------------------------------------

/// The table holds a non-nil value under the integer key `k` (keys are
/// compared by their bytes, and an integer has one byte form).
pub open spec fn spec_int_key_set(e: TableEntries, k: int) -> bool {
    exists|b: [u8; 8]|
        spec_int_of_bytes(b) == k && (#[trigger] spec_table_get(e, TableKey::Number(b)) matches Some(
            v,
        ) && !(v.0 is LuaNil))
}

/// The table holds no value, or `nil`, under the integer key `k`.
pub open spec fn spec_int_key_unset(e: TableEntries, k: int) -> bool {
    exists|b: [u8; 8]|
        spec_int_of_bytes(b) == k && !(#[trigger] spec_table_get(e, TableKey::Number(b)) matches Some(
            v,
        ) && !(v.0 is LuaNil))
}

/// The number that stands in the text of a table for its address: tables
/// and functions live in arenas of the heap and have no machine address
/// here, so their text has the form of one (`0x` and hexadecimal digits)
/// and is made from the slot, aligned to 16 and apart from every function's.
pub open spec fn spec_table_address(slot: nat) -> nat {
    32 * slot + 16
}

/// The number that stands in the text of a function for its address (see
/// `spec_table_address`).
pub open spec fn spec_function_address(slot: nat) -> nat {
    32 * slot + 32
}

/// The text `print` shows for a value (`None` for a float, whose text the
/// host's float formatting decides). Tables and functions show as an
/// address, `0x` and hexadecimal digits (see `spec_table_address`).
pub open spec fn spec_value_text(v: LuaVal) -> Option<Seq<char>> {
    match v {
        LuaVal::LuaNil => Some("nil"@),
        LuaVal::LuaBool(b) => Some(if b { "true"@ } else { "false"@ }),
        LuaVal::LuaNum(x, false) => Some(spec_int_text(spec_int_of_bytes(x) as int)),
        LuaVal::LuaNum(_, true) => None,
        LuaVal::LuaString(s) => Some(s@),
        LuaVal::LuaTable(t) => Some("0x"@ + spec_hex_digits(spec_table_address(t.0 as nat))),
        LuaVal::Function(i) => Some("0x"@ + spec_hex_digits(spec_function_address(i as nat))),
        LuaVal::Print => Some("print"@),
        LuaVal::Read => Some("read"@),
        LuaVal::Random => Some("random"@),
    }
}

/// The eight bytes of a number, as in `[1, 2, 3, 4, 5, 6, 7, 8]`.
pub open spec fn spec_bytes_text(b: Seq<u8>) -> Seq<char>
    decreases b.len(),
{
    if b.len() == 0 {
        Seq::empty()
    } else if b.len() == 1 {
        spec_int_text(b[0] as int)
    } else {
        spec_bytes_text(b.drop_last()) + ", "@ + spec_int_text(b.last() as int)
    }
}

/// A description of a value for error messages, in the form of its Rust
/// debug text (strings are quoted but not escaped).
pub open spec fn spec_debug_text(v: LuaVal) -> Seq<char> {
    match v {
        LuaVal::LuaTable(t) => "LuaTable(LuaTable("@ + spec_int_text(t.0 as int) + "))"@,
        LuaVal::LuaNil => "LuaNil"@,
        LuaVal::LuaBool(b) => "LuaBool("@ + (if b { "true"@ } else { "false"@ }) + ")"@,
        LuaVal::LuaNum(x, f) => "LuaNum(["@ + spec_bytes_text(x@) + "], "@ + (if f {
            "true"@
        } else {
            "false"@
        }) + ")"@,
        LuaVal::LuaString(s) => "LuaString("@ + seq!['"'] + s@ + seq!['"'] + ")"@,
        LuaVal::Function(i) => "Function("@ + spec_int_text(i as int) + ")"@,
        LuaVal::Print => "Print"@,
        LuaVal::Read => "Read"@,
        LuaVal::Random => "Random"@,
    }
}

fn push_bool(out: &mut Vec<char>, b: bool)
    ensures
        final(out)@ == old(out)@ + (if b { "true"@ } else { "false"@ }),
{
    if b {
        push_str(out, "true");
    } else {
        push_str(out, "false");
    }
}

fn push_int(out: &mut Vec<char>, i: i64)
    ensures
        final(out)@ == old(out)@ + spec_int_text(i as int),
{
    let v = int_to_chars(i);
    push_chars(out, &v);
}

impl LuaValue {
    /// The text `print` and `..` show for this value.
    pub fn to_text<F: FloatOps>(&self, fl: &F) -> (s: String)
        ensures
            spec_value_text(self.0) matches Some(t) ==> s@ == t,
    {
        let mut out: Vec<char> = Vec::new();
        match &self.0 {
            LuaVal::LuaNil => push_str(&mut out, "nil"),
            LuaVal::LuaBool(b) => push_bool(&mut out, *b),
            LuaVal::LuaNum(x, f) => {
                if *f {
                    return fl.to_text(bytes_to_u64(*x));
                }
                push_int(&mut out, bytes_to_int(*x));
            },
            LuaVal::LuaString(s) => {
                return s.clone();
            },
            LuaVal::LuaTable(t) => {
                push_str(&mut out, "0x");
                push_hex_digits(32 * (t.0 as u128) + 16, &mut out);
            },
            LuaVal::Function(i) => {
                push_str(&mut out, "0x");
                push_hex_digits(32 * (*i as u128) + 32, &mut out);
            },
            LuaVal::Print => push_str(&mut out, "print"),
            LuaVal::Read => push_str(&mut out, "read"),
            LuaVal::Random => push_str(&mut out, "random"),
        }
        assert(spec_value_text(self.0) matches Some(t) ==> out@ =~= t);
        chars_to_string(out.as_slice())
    }

    /// A description of this value for error messages.
    pub fn debug_text(&self) -> (s: String)
        ensures
            s@ == spec_debug_text(self.0),
    {
        let mut out: Vec<char> = Vec::new();
        match &self.0 {
            LuaVal::LuaTable(t) => {
                push_str(&mut out, "LuaTable(LuaTable(");
                push_nat_digits(t.0 as u64, &mut out);
                push_str(&mut out, "))");
            },
            LuaVal::LuaNil => push_str(&mut out, "LuaNil"),
            LuaVal::LuaBool(b) => {
                push_str(&mut out, "LuaBool(");
                push_bool(&mut out, *b);
                push_str(&mut out, ")");
            },
            LuaVal::LuaNum(x, f) => {
                push_str(&mut out, "LuaNum([");
                let ghost start = out@;
                let mut i: usize = 0;
                assert(x@.take(0) =~= Seq::<u8>::empty());
                while i < 8
                    invariant
                        i <= 8,
                        x@.len() == 8,
                        out@ == start + spec_bytes_text(x@.take(i as int)),
                    decreases 8 - i,
                {
                    assert(x@.take(i + 1).drop_last() =~= x@.take(i as int));
                    if i > 0 {
                        push_str(&mut out, ", ");
                    }
                    push_int(&mut out, x[i] as i64);
                    i = i + 1;
                }
                assert(x@.take(8) =~= x@);
                push_str(&mut out, "], ");
                push_bool(&mut out, *f);
                push_str(&mut out, ")");
            },
            LuaVal::LuaString(s) => {
                push_str(&mut out, "LuaString(");
                out.push('"');
                push_str(&mut out, s.as_str());
                out.push('"');
                push_str(&mut out, ")");
            },
            LuaVal::Function(i) => {
                push_str(&mut out, "Function(");
                push_nat_digits(*i as u64, &mut out);
                push_str(&mut out, ")");
            },
            LuaVal::Print => push_str(&mut out, "Print"),
            LuaVal::Read => push_str(&mut out, "Read"),
            LuaVal::Random => push_str(&mut out, "Random"),
        }
        assert(out@ =~= spec_debug_text(self.0));
        chars_to_string(out.as_slice())
    }
}

// ---------------------------------------------------------------------
// Keys of tables from values
// ---------------------------------------------------------------------

/// The key a value stands for when it indexes a table: a number (a float
/// with an integral value becomes that integer) or a string; other values
/// are not keys.
pub fn table_key_of<F: FloatOps>(v: &LuaValue, fl: &F) -> (k: Option<TableKey>)
    ensures
        match v.0 {
            LuaVal::LuaNum(x, false) => k == Some(TableKey::Number(x)),
            LuaVal::LuaNum(_, true) => k matches Some(TableKey::Number(_)),
            LuaVal::LuaString(s) => k == Some(TableKey::String(s)),
            _ => k is None,
        },
{
    match &v.0 {
        LuaVal::LuaNum(x, f) => {
            if *f {
                match fl.integral_value(bytes_to_u64(*x)) {
                    Some(i) => Some(TableKey::Number(int_to_bytes(i))),
                    None => Some(TableKey::Number(*x)),
                }
            } else {
                Some(TableKey::Number(*x))
            }
        },
        LuaVal::LuaString(s) => Some(TableKey::String(s.clone())),
        _ => None,
    }
}

/// The message when a value cannot index a table.
pub open spec fn spec_bad_key_message(key_text: Seq<char>) -> Seq<char> {
    "Field key '"@ + key_text + "' does not evaluate to a string or numeral"@
}

/// The error for a value that cannot index a table.
pub fn bad_key_error(key_text: &String) -> (e: ASTExecError)
    ensures
        e.0@ == spec_bad_key_message(key_text@),
{
    let mut out: Vec<char> = Vec::new();
    push_str(&mut out, "Field key '");
    push_str(&mut out, key_text.as_str());
    push_str(&mut out, "' does not evaluate to a string or numeral");
    assert(out@ =~= spec_bad_key_message(key_text@));
    ASTExecError(chars_to_string(out.as_slice()))
}

impl LuaTable {
    /// Stores `val` under the key that `key` stands for; an error when it
    /// stands for none.
    pub fn insert<F: FloatOps>(&self, heap: &mut Heap, key: &LuaValue, val: LuaValue, fl: &F) -> (r:
        Result<(), ASTExecError>)
        ensures
            final(heap).same_but_tables(&*old(heap)),
            final(heap).tables_view().len() == old(heap).tables_view().len(),
            match key.0 {
                LuaVal::LuaNum(x, false) => r is Ok && final(heap).tables_view() == (if self.0
                    < old(heap).tables@.len() {
                    old(heap).tables_view().update(
                        self.0 as int,
                        spec_table_set(
                            old(heap).tables_view()[self.0 as int],
                            TableKey::Number(x),
                            val,
                        ),
                    )
                } else {
                    old(heap).tables_view()
                }),
                LuaVal::LuaNum(_, true) => r is Ok,
                LuaVal::LuaString(s) => r is Ok && final(heap).tables_view() == (if self.0
                    < old(heap).tables@.len() {
                    old(heap).tables_view().update(
                        self.0 as int,
                        spec_table_set(
                            old(heap).tables_view()[self.0 as int],
                            TableKey::String(s),
                            val,
                        ),
                    )
                } else {
                    old(heap).tables_view()
                }),
                _ => r is Err && final(heap).tables_view() == old(heap).tables_view(),
            },
    {
        match table_key_of(key, fl) {
            Some(k) => {
                self.set(heap, k, val);
                Ok(())
            },
            None => {
                let t = key.to_text(fl);
                Err(bad_key_error(&t))
            },
        }
    }
}
} // verus!
