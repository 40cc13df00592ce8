use vstd::prelude::*;
use vstd::arithmetic::power2::{pow2, lemma_pow2_adds, lemma_pow2_pos, lemma_pow2_strictly_increases, lemma2_to64, lemma2_to64_rest};
use vstd::bits::{lemma_u64_shl_is_mul, lemma_u64_shr_is_div};

use crate::error::Error;
use crate::error::ErrorType;
use crate::primitive_type::PrimitiveType;
use crate::symbol::Symbol;

verus! {

pub const NAN_PREFIX: u64 = 0x7ff8;
pub const NIL_OR_BOOLEAN_PREFIX: u64 = 0x7ff9;
pub const INTEGER_PREFIX: u64 = 0x7ffa;
pub const TEXT_PREFIX: u64 = 0x7ffb;
pub const SYMBOL_PREFIX: u64 = 0x7ffc;
pub const TUPLE_PREFIX: u64 = 0x7ffd;
pub const LIST_PREFIX: u64 = 0x7ffe;
pub const OBJECT_PREFIX: u64 = 0x7fff;

pub const UNDEFINED_SUFFIX: u64 = 0x0;
pub const NULL_SUFFIX: u64 = 0x1;
pub const NO_SUFFIX: u64 = 0x2;
pub const YES_SUFFIX: u64 = 0x3;

/// Low 48 bits: the payload of a tagged value.
pub const PAYLOAD_MASK: u64 = 0xffff_ffff_ffff;
/// Low 52 bits: the fraction of an IEEE-754 double.
pub const FRACTION_MASK: u64 = 0xf_ffff_ffff_ffff;

/// The bit pattern is one of the IEEE-754 NaNs.
pub open spec fn is_nan_bits(b: u64) -> bool {
    (b >> 52) & 0x7ff == 0x7ff && b & FRACTION_MASK != 0
}

/// The primitive type that a 64-bit pattern encodes.
pub open spec fn type_of_bits(b: u64) -> PrimitiveType {
    if !is_nan_bits(b) {
        PrimitiveType::Float
    } else if b >> 48 == NIL_OR_BOOLEAN_PREFIX {
        if b & 0xff == NULL_SUFFIX {
            PrimitiveType::Null
        } else if b & 0xff == NO_SUFFIX || b & 0xff == YES_SUFFIX {
            PrimitiveType::Boolean
        } else {
            PrimitiveType::Undefined
        }
    } else if b >> 48 == INTEGER_PREFIX {
        PrimitiveType::Integer
    } else if b >> 48 == TEXT_PREFIX {
        PrimitiveType::Text
    } else if b >> 48 == SYMBOL_PREFIX {
        PrimitiveType::Symbol
    } else if b >> 48 == LIST_PREFIX {
        PrimitiveType::List
    } else if b >> 48 == TUPLE_PREFIX {
        PrimitiveType::Tuple
    } else if b >> 48 == OBJECT_PREFIX {
        PrimitiveType::Object
    } else {
        PrimitiveType::Float
    }
}

/// A tagged pattern: the prefix in the high 16 bits, the payload below.
pub open spec fn tagged(prefix: u64, payload: u64) -> u64 {
    (prefix << 48) | payload
}

pub open spec fn is_slotted_type(t: PrimitiveType) -> bool {
    t == PrimitiveType::Text || t == PrimitiveType::List || t == PrimitiveType::Tuple
        || t == PrimitiveType::Object
}

/// The low 32 bits of an integer payload.
pub open spec fn integer_payload(b: u64) -> u64 {
    b & 0xffff_ffff
}

/// Bit 32 of an integer payload: the value was made from a negative signed integer.
pub open spec fn signed_flag(b: u64) -> bool {
    (b >> 32) & 1 == 1
}

/// The low 32 bits read as a two's complement integer.
pub open spec fn signed_payload(b: u64) -> int {
    if integer_payload(b) >= 0x8000_0000 {
        integer_payload(b) - 0x1_0000_0000
    } else {
        integer_payload(b) as int
    }
}

/// The pattern that `make_integer(x)` produces.
pub open spec fn integer_bits(x: i32) -> u64 {
    if x >= 0 {
        tagged(INTEGER_PREFIX, x as u64)
    } else {
        tagged(INTEGER_PREFIX, ((x + 0x1_0000_0000) as u64) | 0x1_0000_0000)
    }
}

/// The pattern that `make_cardinal(u)` produces.
pub open spec fn cardinal_bits(u: u32) -> u64 {
    tagged(INTEGER_PREFIX, u as u64)
}

/// The pattern that `make_symbol(s)` produces.
pub open spec fn symbol_bits(s: Symbol) -> u64 {
    tagged(SYMBOL_PREFIX, s.id as u64)
}

/// The pattern of a slot-bearing value.
pub open spec fn slot_bits(prefix: u64, region: u32, slot: u32) -> u64 {
    tagged(prefix, ((region as u64) << 16) | slot as u64)
}

/// The single pattern that stands for every NaN.
pub open spec fn canonical_nan() -> u64 {
    NAN_PREFIX << 48
}

/// What `make_float_bits` keeps of a double's bit pattern.
pub open spec fn float_bits(f: u64) -> u64 {
    if is_nan_bits(f) {
        canonical_nan()
    } else {
        f
    }
}

/// Strict integer extraction: the value, or the kind of failure.
pub open spec fn strict_integer(b: u64) -> Result<i32, ErrorType> {
    if type_of_bits(b) != PrimitiveType::Integer {
        Err(ErrorType::TypeNotMatch)
    } else if signed_flag(b) || signed_payload(b) >= 0 {
        Ok(signed_payload(b) as i32)
    } else {
        Err(ErrorType::IntegerOutOfRange)
    }
}

/// Strict cardinal extraction: the value, or the kind of failure.
pub open spec fn strict_cardinal(b: u64) -> Result<u32, ErrorType> {
    if type_of_bits(b) != PrimitiveType::Integer {
        Err(ErrorType::TypeNotMatch)
    } else if !signed_flag(b) {
        Ok(integer_payload(b) as u32)
    } else {
        Err(ErrorType::IntegerOutOfRange)
    }
}

/// The biased exponent of a double.
pub open spec fn float_exponent(b: u64) -> u64 {
    (b >> 52) & 0x7ff
}

/// The double is neither infinite nor NaN.
pub open spec fn float_is_finite(b: u64) -> bool {
    float_exponent(b) != 0x7ff
}

pub open spec fn float_is_negative(b: u64) -> bool {
    b >> 63 == 1
}

/// The significand as an integer, implicit bit included.
pub open spec fn float_significand(b: u64) -> nat {
    if float_exponent(b) == 0 {
        (b & FRACTION_MASK) as nat
    } else {
        (b & FRACTION_MASK) as nat + pow2(52)
    }
}

/// The magnitude of a finite double is `float_significand(b) / 2^float_scale(b)`.
pub open spec fn float_scale(b: u64) -> int {
    if float_exponent(b) == 0 {
        1074
    } else {
        1075 - float_exponent(b)
    }
}

/// The magnitude of a finite double, truncated toward zero.
pub open spec fn float_truncated(b: u64) -> nat {
    if float_scale(b) <= 0 {
        float_significand(b) * pow2((-float_scale(b)) as nat)
    } else {
        float_significand(b) / pow2(float_scale(b) as nat)
    }
}

/// The finite double has no fractional part.
pub open spec fn float_is_integral(b: u64) -> bool {
    float_scale(b) <= 0 || float_significand(b) % pow2(float_scale(b) as nat) == 0
}

/// The double is zero of either sign.
pub open spec fn float_is_zero(b: u64) -> bool {
    b & 0x7fff_ffff_ffff_ffff == 0
}

/// A double coerced to `i32`: truncated when it lies in [-2^31, 2^31), else `default`.
pub open spec fn float_to_i32(b: u64, default: i32) -> i32 {
    if !float_is_finite(b) {
        default
    } else if !float_is_negative(b) && float_truncated(b) < 0x8000_0000 {
        float_truncated(b) as i32
    } else if float_is_negative(b) && (float_truncated(b) < 0x8000_0000 || (float_truncated(b)
        == 0x8000_0000 && float_is_integral(b))) {
        (-float_truncated(b)) as i32
    } else {
        default
    }
}

/// A double coerced to `u32`: truncated when it lies in [0, 2^32), else `default`.
pub open spec fn float_to_u32(b: u64, default: u32) -> u32 {
    if !float_is_finite(b) {
        default
    } else if !float_is_negative(b) && float_truncated(b) < 0x1_0000_0000 {
        float_truncated(b) as u32
    } else if float_is_negative(b) && float_significand(b) == 0 {
        0
    } else {
        default
    }
}

/// The boolean coercion of a pattern.
pub open spec fn boolean_of(b: u64) -> bool {
    match type_of_bits(b) {
        PrimitiveType::Undefined | PrimitiveType::Null => false,
        PrimitiveType::Boolean => b & 0xff == YES_SUFFIX,
        PrimitiveType::Integer => b & PAYLOAD_MASK != 0,
        PrimitiveType::Float => !float_is_zero(b),
        _ => true,
    }
}

/// The `i32` coercion of a pattern.
pub open spec fn integer_of(b: u64, default: i32) -> i32 {
    match type_of_bits(b) {
        PrimitiveType::Boolean => if b & 0xff == YES_SUFFIX {
            1
        } else {
            0
        },
        PrimitiveType::Integer => if signed_flag(b) || signed_payload(b) >= 0 {
            signed_payload(b) as i32
        } else {
            default
        },
        PrimitiveType::Float => float_to_i32(b, default),
        _ => default,
    }
}

/// The `u32` coercion of a pattern.
pub open spec fn cardinal_of(b: u64, default: u32) -> u32 {
    match type_of_bits(b) {
        PrimitiveType::Boolean => if b & 0xff == YES_SUFFIX {
            1
        } else {
            0
        },
        PrimitiveType::Integer => if signed_flag(b) && signed_payload(b) < 0 {
            default
        } else {
            integer_payload(b) as u32
        },
        PrimitiveType::Float => float_to_u32(b, default),
        _ => default,
    }
}

/// A 64-bit NaN-boxed value.
///
/// Every double that is not a NaN stands for itself; one NaN pattern stands for
/// every NaN, and the other NaN patterns carry tagged values.
#[derive(Copy, Clone, PartialEq, Eq, Structural, Hash, Debug)]
pub struct Value {
    data: u64,
}

impl View for Value {
    type V = u64;

    closed spec fn view(&self) -> u64 {
        self.data
    }
}

/// Facts about a tagged pattern, read back field by field.
proof fn lemma_tagged(prefix: u64, payload: u64)
    requires
        0x7ff8 <= prefix <= 0x7fff,
        payload <= PAYLOAD_MASK,
    ensures
        tagged(prefix, payload) >> 48 == prefix,
        tagged(prefix, payload) & PAYLOAD_MASK == payload,
        tagged(prefix, payload) & 0xffff_ffff == payload & 0xffff_ffff,
        tagged(prefix, payload) & 0xffff == payload & 0xffff,
        tagged(prefix, payload) & 0xff == payload & 0xff,
        payload <= 0xff ==> tagged(prefix, payload) & 0xff == payload,
        (tagged(prefix, payload) >> 32) & 1 == (payload >> 32) & 1,
        (tagged(prefix, payload) >> 16) & 0xffff_ffff == (payload >> 16) & 0xffff_ffff,
        prefix != 0x7ff8 ==> is_nan_bits(tagged(prefix, payload)),
{
    assert(((prefix << 48) | payload) >> 48 == prefix) by (bit_vector)
        requires
            prefix <= 0xffff,
            payload <= 0xffff_ffff_ffff,
    ;
    assert(((prefix << 48) | payload) & 0xffff_ffff_ffff == payload) by (bit_vector)
        requires
            payload <= 0xffff_ffff_ffff,
    ;
    assert(((prefix << 48) | payload) & 0xffff_ffff == payload & 0xffff_ffff) by (bit_vector);
    assert(((prefix << 48) | payload) & 0xffff == payload & 0xffff) by (bit_vector);
    assert(((prefix << 48) | payload) & 0xff == payload & 0xff) by (bit_vector);
    assert(payload <= 0xff ==> ((prefix << 48) | payload) & 0xff == payload) by (bit_vector);
    assert((((prefix << 48) | payload) >> 32) & 1 == (payload >> 32) & 1) by (bit_vector);
    assert((((prefix << 48) | payload) >> 16) & 0xffff_ffff == (payload >> 16) & 0xffff_ffff)
        by (bit_vector)
        requires
            payload <= 0xffff_ffff_ffff,
    ;
    assert(prefix != 0x7ff8 ==> ((((prefix << 48) | payload) >> 52) & 0x7ff == 0x7ff
        && ((prefix << 48) | payload) & 0xf_ffff_ffff_ffff != 0)) by (bit_vector)
        requires
            0x7ff8 <= prefix <= 0x7fff,
    ;
}

/// `1 << s` is the power of two it names.
proof fn lemma_shl_one(s: u64)
    requires
        s < 64,
    ensures
        (1u64 << s) as nat == pow2(s as nat),
{
    lemma_pow2_pos(s as nat);
    lemma2_to64();
    lemma2_to64_rest();
    if s < 63 {
        lemma_pow2_strictly_increases(s as nat, 63);
    }
    lemma_u64_shl_is_mul(1, s);
}

/// Classification
impl Value {
    /// The pattern of this value.
    pub closed spec fn bits(self) -> u64 {
        self.data
    }

    /// The primitive type of this value.
    pub open spec fn spec_type(self) -> PrimitiveType {
        type_of_bits(self.bits())
    }

    /// The 64-bit pattern of this value.
    pub fn get_data(&self) -> (r: u64)
        ensures
            r == self.bits(),
    {
        self.data
    }

    /// Classifies the value by its pattern.
    pub fn get_primitive_type(&self) -> (r: PrimitiveType)
        ensures
            r == self.spec_type(),
    {
        let data = self.data;
        if !((data >> 52) & 0x7ff == 0x7ff && data & FRACTION_MASK != 0) {
            return PrimitiveType::Float;
        }
        let prefix = data >> 48;
        if prefix == NIL_OR_BOOLEAN_PREFIX {
            let suffix = data & 0xff;
            if suffix == NULL_SUFFIX {
                PrimitiveType::Null
            } else if suffix == NO_SUFFIX || suffix == YES_SUFFIX {
                PrimitiveType::Boolean
            } else {
                PrimitiveType::Undefined
            }
        } else if prefix == INTEGER_PREFIX {
            PrimitiveType::Integer
        } else if prefix == TEXT_PREFIX {
            PrimitiveType::Text
        } else if prefix == SYMBOL_PREFIX {
            PrimitiveType::Symbol
        } else if prefix == LIST_PREFIX {
            PrimitiveType::List
        } else if prefix == TUPLE_PREFIX {
            PrimitiveType::Tuple
        } else if prefix == OBJECT_PREFIX {
            PrimitiveType::Object
        } else {
            PrimitiveType::Float
        }
    }
}


/// The symbol that a pattern carries, or `default`.
pub open spec fn symbol_of(b: u64, default: Symbol) -> Symbol {
    if type_of_bits(b) == PrimitiveType::Symbol {
        Symbol { id: (b & 0xffff_ffff) as u32 }
    } else {
        default
    }
}

/// Magnitude facts of a double: `(truncated, integral, zero)`, or `None` when it
/// is not finite or its truncated magnitude is at least 2^32.
fn float_magnitude(data: u64) -> (r: Option<(u64, bool, bool)>)
    ensures
        r is None ==> !float_is_finite(data) || (float_truncated(data) >= 0x1_0000_0000
            && float_significand(data) != 0),
        r matches Some((m, i, z)) ==> float_is_finite(data) && m as nat == float_truncated(data)
            && i == float_is_integral(data) && z == (float_significand(data) == 0),
{
    let exp = (data >> 52) & 0x7ff;
    if exp == 0x7ff {
        return None;
    }
    proof {
        lemma2_to64();
        lemma2_to64_rest();
    }
    let frac = data & FRACTION_MASK;
    assert(data & FRACTION_MASK <= FRACTION_MASK) by (bit_vector);
    assert((data >> 52) & 0x7ff <= 0x7ff) by (bit_vector);
    let sig: u64 = if exp == 0 {
        frac
    } else {
        frac + 0x10_0000_0000_0000
    };
    assert(sig as nat == float_significand(data));
    if exp >= 1075 {
        proof {
            let k = (exp - 1075) as nat;
            lemma_pow2_pos(k);
            assert(sig * pow2(k) >= sig * 1) by (nonlinear_arith)
                requires
                    pow2(k) >= 1,
            ;
        }
        return None;
    }
    let scale: u64 = if exp == 0 {
        1074
    } else {
        1075 - exp
    };
    assert(scale as int == float_scale(data));
    if scale >= 64 {
        proof {
            lemma_pow2_strictly_increases(53, scale as nat);
            vstd::arithmetic::div_mod::lemma_basic_div(sig as int, pow2(scale as nat) as int);
            vstd::arithmetic::div_mod::lemma_small_mod(sig as nat, pow2(scale as nat));
        }
        return Some((0, sig == 0, sig == 0));
    }
    proof {
        lemma_shl_one(scale);
    }
    let p = 1u64 << scale;
    Some((sig / p, sig % p == 0, sig == 0))
}

/// Value makers
impl Value {
    /// The undefined value, in specifications.
    pub closed spec fn spec_undefined() -> Value {
        Value { data: (NIL_OR_BOOLEAN_PREFIX << 48) | UNDEFINED_SUFFIX }
    }

    /// The undefined value.
    pub fn make_undefined() -> (r: Value)
        ensures
            r == Value::spec_undefined(),
            r.bits() == tagged(NIL_OR_BOOLEAN_PREFIX, UNDEFINED_SUFFIX),
            r.spec_type() == PrimitiveType::Undefined,
    {
        proof {
            lemma_tagged(NIL_OR_BOOLEAN_PREFIX, UNDEFINED_SUFFIX);
        }
        Value { data: (NIL_OR_BOOLEAN_PREFIX << 48) | UNDEFINED_SUFFIX }
    }

    /// The null value, in specifications.
    pub closed spec fn spec_null() -> Value {
        Value { data: (NIL_OR_BOOLEAN_PREFIX << 48) | NULL_SUFFIX }
    }

    /// The null value.
    pub fn make_null() -> (r: Value)
        ensures
            r == Value::spec_null(),
            r.bits() == tagged(NIL_OR_BOOLEAN_PREFIX, NULL_SUFFIX),
            r.spec_type() == PrimitiveType::Null,
    {
        proof {
            lemma_tagged(NIL_OR_BOOLEAN_PREFIX, NULL_SUFFIX);
        }
        Value { data: (NIL_OR_BOOLEAN_PREFIX << 48) | NULL_SUFFIX }
    }

    /// The boolean value `value`.
    pub fn make_boolean(value: bool) -> (r: Value)
        ensures
            r.bits() == tagged(
                NIL_OR_BOOLEAN_PREFIX,
                if value {
                    YES_SUFFIX
                } else {
                    NO_SUFFIX
                },
            ),
            r.spec_type() == PrimitiveType::Boolean,
            boolean_of(r.bits()) == value,
    {
        proof {
            lemma_tagged(NIL_OR_BOOLEAN_PREFIX, YES_SUFFIX);
            lemma_tagged(NIL_OR_BOOLEAN_PREFIX, NO_SUFFIX);
        }
        if value {
            Value { data: (NIL_OR_BOOLEAN_PREFIX << 48) | YES_SUFFIX }
        } else {
            Value { data: (NIL_OR_BOOLEAN_PREFIX << 48) | NO_SUFFIX }
        }
    }

    /// The symbol value of `symbol`.
    pub fn make_symbol(symbol: Symbol) -> (r: Value)
        ensures
            r.bits() == symbol_bits(symbol),
            r.spec_type() == PrimitiveType::Symbol,
    {
        proof {
            lemma_tagged(SYMBOL_PREFIX, symbol.id as u64);
        }
        Value { data: (SYMBOL_PREFIX << 48) | (symbol.id as u64) }
    }

    /// The cardinal (unsigned 32-bit) value `value`.
    pub fn make_cardinal(value: u32) -> (r: Value)
        ensures
            r.bits() == cardinal_bits(value),
            r.spec_type() == PrimitiveType::Integer,
    {
        proof {
            lemma_tagged(INTEGER_PREFIX, value as u64);
        }
        Value { data: (INTEGER_PREFIX << 48) | (value as u64) }
    }

    /// The signed 32-bit integer value `value`; a negative one carries the signed marker.
    pub fn make_integer(value: i32) -> (r: Value)
        ensures
            r.bits() == integer_bits(value),
            r.spec_type() == PrimitiveType::Integer,
    {
        if value >= 0 {
            proof {
                lemma_tagged(INTEGER_PREFIX, value as u64);
            }
            Value { data: (INTEGER_PREFIX << 48) | (value as u64) }
        } else {
            let low = ((value as i64) + 0x1_0000_0000) as u64;
            let payload = low | 0x1_0000_0000;
            assert(low < 0x1_0000_0000 ==> low | 0x1_0000_0000 <= 0xffff_ffff_ffff) by (bit_vector);
            proof {
                lemma_tagged(INTEGER_PREFIX, payload);
            }
            Value { data: (INTEGER_PREFIX << 48) | payload }
        }
    }

    /// The float value whose IEEE-754 pattern is `bits`; every NaN becomes the single
    /// canonical NaN, so that no NaN reads as a tagged value.
    pub fn make_float_bits(bits: u64) -> (r: Value)
        ensures
            r.bits() == float_bits(bits),
            r.spec_type() == PrimitiveType::Float,
    {
        if (bits >> 52) & 0x7ff == 0x7ff && bits & FRACTION_MASK != 0 {
            assert(((0x7ff8u64 << 48) >> 52) & 0x7ff == 0x7ff && (0x7ff8u64 << 48) & 0xf_ffff_ffff_ffff
                != 0 && (0x7ff8u64 << 48) >> 48 == 0x7ff8) by (bit_vector);
            Value { data: NAN_PREFIX << 48 }
        } else {
            Value { data: bits }
        }
    }

    fn make_slotted(prefix: u64, region: u32, slot: u32) -> (r: Value)
        requires
            0x7ffb <= prefix <= 0x7fff,
            slot <= 0xffff,
        ensures
            r.bits() == slot_bits(prefix, region, slot),
            r.bits() >> 48 == prefix,
            (r.bits() >> 16) & 0xffff_ffff == region,
            r.bits() & 0xffff == slot,
            is_nan_bits(r.bits()),
    {
        let payload = ((region as u64) << 16) | (slot as u64);
        let r64 = region as u64;
        let s64 = slot as u64;
        assert(r64 <= 0xffff_ffff && s64 <= 0xffff ==> ((r64 << 16) | s64) <= 0xffff_ffff_ffff
            && (((r64 << 16) | s64) >> 16) & 0xffff_ffff == r64 && ((r64 << 16) | s64) & 0xffff
            == s64) by (bit_vector);
        proof {
            lemma_tagged(prefix, payload);
        }
        Value { data: (prefix << 48) | payload }
    }

    /// The list value living at `slot` of region `region`.
    pub fn make_list(region: u32, slot: u32) -> (r: Value)
        requires
            slot <= 0xffff,
        ensures
            r.bits() == slot_bits(LIST_PREFIX, region, slot),
            r.spec_type() == PrimitiveType::List,
            (r.bits() >> 16) & 0xffff_ffff == region,
            r.bits() & 0xffff == slot,
    {
        Value::make_slotted(LIST_PREFIX, region, slot)
    }

    /// The tuple value living at `slot` of region `region`.
    pub fn make_tuple(region: u32, slot: u32) -> (r: Value)
        requires
            slot <= 0xffff,
        ensures
            r.bits() == slot_bits(TUPLE_PREFIX, region, slot),
            r.spec_type() == PrimitiveType::Tuple,
            (r.bits() >> 16) & 0xffff_ffff == region,
            r.bits() & 0xffff == slot,
    {
        Value::make_slotted(TUPLE_PREFIX, region, slot)
    }

    /// The text value living at `slot` of region `region`.
    pub fn make_text(region: u32, slot: u32) -> (r: Value)
        requires
            slot <= 0xffff,
        ensures
            r.bits() == slot_bits(TEXT_PREFIX, region, slot),
            r.spec_type() == PrimitiveType::Text,
            (r.bits() >> 16) & 0xffff_ffff == region,
            r.bits() & 0xffff == slot,
    {
        Value::make_slotted(TEXT_PREFIX, region, slot)
    }

    /// The object value living at `slot` of region `region`.
    pub fn make_object(region: u32, slot: u32) -> (r: Value)
        requires
            slot <= 0xffff,
        ensures
            r.bits() == slot_bits(OBJECT_PREFIX, region, slot),
            r.spec_type() == PrimitiveType::Object,
            (r.bits() >> 16) & 0xffff_ffff == region,
            r.bits() & 0xffff == slot,
    {
        Value::make_slotted(OBJECT_PREFIX, region, slot)
    }
}


/// Type checks
impl Value {
    pub fn is_undefined(&self) -> (r: bool)
        ensures
            r == (self.spec_type() == PrimitiveType::Undefined),
    {
        self.get_primitive_type() == PrimitiveType::Undefined
    }

    pub fn is_null(&self) -> (r: bool)
        ensures
            r == (self.spec_type() == PrimitiveType::Null),
    {
        self.get_primitive_type() == PrimitiveType::Null
    }

    /// Undefined or null.
    pub fn is_nil(&self) -> (r: bool)
        ensures
            r == (self.spec_type() == PrimitiveType::Undefined || self.spec_type()
                == PrimitiveType::Null),
    {
        let t = self.get_primitive_type();
        t == PrimitiveType::Undefined || t == PrimitiveType::Null
    }

    pub fn is_boolean(&self) -> (r: bool)
        ensures
            r == (self.spec_type() == PrimitiveType::Boolean),
    {
        self.get_primitive_type() == PrimitiveType::Boolean
    }

    pub fn is_integer(&self) -> (r: bool)
        ensures
            r == (self.spec_type() == PrimitiveType::Integer),
    {
        self.get_primitive_type() == PrimitiveType::Integer
    }

    pub fn is_float(&self) -> (r: bool)
        ensures
            r == (self.spec_type() == PrimitiveType::Float),
    {
        self.get_primitive_type() == PrimitiveType::Float
    }

    /// An integer or a float.
    pub fn is_number(&self) -> (r: bool)
        ensures
            r == (self.spec_type() == PrimitiveType::Integer || self.spec_type()
                == PrimitiveType::Float),
    {
        let t = self.get_primitive_type();
        t == PrimitiveType::Integer || t == PrimitiveType::Float
    }

    pub fn is_symbol(&self) -> (r: bool)
        ensures
            r == (self.spec_type() == PrimitiveType::Symbol),
    {
        self.get_primitive_type() == PrimitiveType::Symbol
    }

    pub fn is_text(&self) -> (r: bool)
        ensures
            r == (self.spec_type() == PrimitiveType::Text),
    {
        self.get_primitive_type() == PrimitiveType::Text
    }

    /// Only the list tag is a list.
    pub fn is_list(&self) -> (r: bool)
        ensures
            r == (self.spec_type() == PrimitiveType::List),
    {
        self.get_primitive_type() == PrimitiveType::List
    }

    pub fn is_tuple(&self) -> (r: bool)
        ensures
            r == (self.spec_type() == PrimitiveType::Tuple),
    {
        self.get_primitive_type() == PrimitiveType::Tuple
    }

    pub fn is_object(&self) -> (r: bool)
        ensures
            r == (self.spec_type() == PrimitiveType::Object),
    {
        self.get_primitive_type() == PrimitiveType::Object
    }

    /// The value lives in a slot: text, list, tuple or object.
    pub fn is_slotted(&self) -> (r: bool)
        ensures
            r == is_slotted_type(self.spec_type()),
    {
        let t = self.get_primitive_type();
        t == PrimitiveType::Text || t == PrimitiveType::List || t == PrimitiveType::Tuple || t
            == PrimitiveType::Object
    }

    /// Not a number: a NaN float, or any value that is neither integer nor float.
    pub fn is_nan(&self) -> (r: bool)
        ensures
            r == match self.spec_type() {
                PrimitiveType::Integer => false,
                PrimitiveType::Float => is_nan_bits(self.bits()),
                _ => true,
            },
    {
        match self.get_primitive_type() {
            PrimitiveType::Integer => false,
            PrimitiveType::Float => (self.data >> 52) & 0x7ff == 0x7ff && self.data & FRACTION_MASK
                != 0,
            _ => true,
        }
    }

    /// A float of infinite magnitude.
    pub fn is_infinite(&self) -> (r: bool)
        ensures
            r == (self.spec_type() == PrimitiveType::Float && float_exponent(self.bits()) == 0x7ff
                && self.bits() & FRACTION_MASK == 0),
    {
        self.get_primitive_type() == PrimitiveType::Float && (self.data >> 52) & 0x7ff == 0x7ff
            && self.data & FRACTION_MASK == 0
    }

    /// An integer, or a float that is neither infinite nor NaN.
    pub fn is_finite(&self) -> (r: bool)
        ensures
            r == match self.spec_type() {
                PrimitiveType::Integer => true,
                PrimitiveType::Float => float_is_finite(self.bits()),
                _ => false,
            },
    {
        match self.get_primitive_type() {
            PrimitiveType::Integer => true,
            PrimitiveType::Float => (self.data >> 52) & 0x7ff != 0x7ff,
            _ => false,
        }
    }

    /// A negative signed integer, or a non-NaN float with the sign bit set.
    pub fn is_sign_negative(&self) -> (r: bool)
        ensures
            r == match self.spec_type() {
                PrimitiveType::Integer => signed_flag(self.bits()) && (self.bits() >> 31) & 1 == 1,
                PrimitiveType::Float => !is_nan_bits(self.bits()) && float_is_negative(self.bits()),
                _ => false,
            },
    {
        match self.get_primitive_type() {
            PrimitiveType::Integer => (self.data >> 32) & 1 == 1 && (self.data >> 31) & 1 == 1,
            PrimitiveType::Float => !((self.data >> 52) & 0x7ff == 0x7ff && self.data
                & FRACTION_MASK != 0) && self.data >> 63 == 1,
            _ => false,
        }
    }

    /// A non-negative integer, or a non-NaN float with the sign bit clear.
    pub fn is_sign_positive(&self) -> (r: bool)
        ensures
            r == match self.spec_type() {
                PrimitiveType::Integer => !signed_flag(self.bits()) || (self.bits() >> 31) & 1 == 0,
                PrimitiveType::Float => !is_nan_bits(self.bits()) && !float_is_negative(
                    self.bits(),
                ),
                _ => false,
            },
    {
        match self.get_primitive_type() {
            PrimitiveType::Integer => !((self.data >> 32) & 1 == 1) || (self.data >> 31) & 1 == 0,
            PrimitiveType::Float => !((self.data >> 52) & 0x7ff == 0x7ff && self.data
                & FRACTION_MASK != 0) && !(self.data >> 63 == 1),
            _ => false,
        }
    }

    /// An integer that reads as an unsigned cardinal.
    pub fn is_cardinal(&self) -> (r: bool)
        ensures
            r == (self.spec_type() == PrimitiveType::Integer && (!signed_flag(self.bits()) || (
            self.bits() >> 31) & 1 == 0)),
    {
        self.get_primitive_type() == PrimitiveType::Integer && (!((self.data >> 32) & 1 == 1) || (
        self.data >> 31) & 1 == 0)
    }
}

/// Reads the low 32 bits as a two's complement integer.
fn signed_low_word(data: u64) -> (r: i32)
    ensures
        r as int == signed_payload(data),
{
    let p = data & 0xffff_ffff;
    assert(data & 0xffff_ffff <= 0xffff_ffff) by (bit_vector);
    if p >= 0x8000_0000 {
        ((p as i64) - 0x1_0000_0000) as i32
    } else {
        p as i32
    }
}

/// Coercions
impl Value {
    /// The value as a boolean: nil, `false`, zero integers and zero floats are `false`.
    pub fn as_boolean(&self) -> (r: bool)
        ensures
            r == boolean_of(self.bits()),
    {
        match self.get_primitive_type() {
            PrimitiveType::Undefined => false,
            PrimitiveType::Null => false,
            PrimitiveType::Boolean => self.data & 0xff == YES_SUFFIX,
            PrimitiveType::Integer => self.data & PAYLOAD_MASK != 0,
            PrimitiveType::Float => self.data & 0x7fff_ffff_ffff_ffff != 0,
            _ => true,
        }
    }

    /// The value as a 32-bit signed integer, or `default` where it has none.
    pub fn extract_integer(&self, default: i32) -> (r: i32)
        ensures
            r == integer_of(self.bits(), default),
    {
        match self.get_primitive_type() {
            PrimitiveType::Boolean => if self.data & 0xff == YES_SUFFIX {
                1
            } else {
                0
            },
            PrimitiveType::Integer => {
                let value = signed_low_word(self.data);
                if (self.data >> 32) & 1 == 1 || value >= 0 {
                    value
                } else {
                    default
                }
            },
            PrimitiveType::Float => {
                match float_magnitude(self.data) {
                    None => default,
                    Some((m, integral, _)) => {
                        let negative = self.data >> 63 == 1;
                        if !negative && m < 0x8000_0000 {
                            m as i32
                        } else if negative && (m < 0x8000_0000 || (m == 0x8000_0000 && integral)) {
                            (-(m as i64)) as i32
                        } else {
                            default
                        }
                    },
                }
            },
            _ => default,
        }
    }

    /// The value as a 32-bit cardinal, or `default` where it has none.
    pub fn extract_cardinal(&self, default: u32) -> (r: u32)
        ensures
            r == cardinal_of(self.bits(), default),
    {
        match self.get_primitive_type() {
            PrimitiveType::Boolean => if self.data & 0xff == YES_SUFFIX {
                1
            } else {
                0
            },
            PrimitiveType::Integer => {
                let value = signed_low_word(self.data);
                let data = self.data;
                assert(data & 0xffff_ffff <= 0xffff_ffff) by (bit_vector);
                if (self.data >> 32) & 1 == 1 && value < 0 {
                    default
                } else {
                    (self.data & 0xffff_ffff) as u32
                }
            },
            PrimitiveType::Float => {
                match float_magnitude(self.data) {
                    None => default,
                    Some((m, _, zero)) => {
                        let negative = self.data >> 63 == 1;
                        if !negative && m < 0x1_0000_0000 {
                            m as u32
                        } else if negative && zero {
                            0
                        } else {
                            default
                        }
                    },
                }
            },
            _ => default,
        }
    }

    /// The value as a double, given and returned as IEEE-754 patterns: booleans as
    /// 0 or 1, integers exactly, floats as they are, anything else as `default`.
    pub fn extract_float_bits(&self, default: u64) -> (r: u64)
        ensures
            float_of(self.bits(), default, r),
    {
        match self.get_primitive_type() {
            PrimitiveType::Boolean => if self.data & 0xff == YES_SUFFIX {
                0x3ff0_0000_0000_0000
            } else {
                0
            },
            PrimitiveType::Integer => {
                let data = self.data;
                if (data >> 32) & 1 == 1 && (data >> 31) & 1 == 1 {
                    assert((data >> 31) & 1 == 1 ==> data & 0xffff_ffff >= 0x8000_0000) by (bit_vector);
                    assert(data & 0xffff_ffff <= 0xffff_ffff) by (bit_vector);
                    let value = signed_low_word(data);
                    assert(-0x8000_0000 <= value < 0);
                    integer_float_bits(true, (-(value as i64)) as u64)
                } else {
                    assert(data & 0xffff_ffff <= 0xffff_ffff) by (bit_vector);
                    integer_float_bits(false, data & 0xffff_ffff)
                }
            },
            PrimitiveType::Float => self.data,
            _ => default,
        }
    }

    /// Numeric equality: both values are numbers and equal as doubles, so that
    /// +0 and -0 are equal, an integer equals the float of the same value, and
    /// NaN equals nothing.
    pub fn number_eq(&self, other: &Value) -> (r: bool)
        ensures
            exists|fa: u64, fb: u64| #[trigger] numbers_equal(self.bits(), other.bits(), fa, fb, r),
    {
        let fa = self.extract_float_bits(0);
        let fb = other.extract_float_bits(0);
        let result = if self.is_number() && other.is_number() {
            let nan_a = (fa >> 52) & 0x7ff == 0x7ff && fa & FRACTION_MASK != 0;
            let nan_b = (fb >> 52) & 0x7ff == 0x7ff && fb & FRACTION_MASK != 0;
            !nan_a && !nan_b && (fa == fb || (fa & 0x7fff_ffff_ffff_ffff == 0 && fb
                & 0x7fff_ffff_ffff_ffff == 0))
        } else {
            false
        };
        assert(numbers_equal(self.bits(), other.bits(), fa, fb, result));
        result
    }

    /// The symbol the value carries, or `default` where it carries none.
    pub fn extract_symbol(&self, default: Symbol) -> (r: Symbol)
        ensures
            r == symbol_of(self.bits(), default),
    {
        if self.get_primitive_type() == PrimitiveType::Symbol {
            let data = self.data;
            assert(data & 0xffff_ffff <= 0xffff_ffff) by (bit_vector);
            Symbol::new((data & 0xffff_ffff) as u32)
        } else {
            default
        }
    }
}

/// Strict extraction
impl Value {
    /// The boolean of a boolean value; `TypeNotMatch` for any other type.
    pub fn get_boolean_data(&self) -> (r: Result<bool, Error>)
        ensures
            match r {
                Ok(x) => self.spec_type() == PrimitiveType::Boolean && x == (self.bits() & 0xff
                    == YES_SUFFIX),
                Err(e) => self.spec_type() != PrimitiveType::Boolean && e.error_type
                    == ErrorType::TypeNotMatch,
            },
    {
        if self.get_primitive_type() == PrimitiveType::Boolean {
            Ok(self.data & 0xff == YES_SUFFIX)
        } else {
            Err(Error::new(ErrorType::TypeNotMatch, "Not boolean value"))
        }
    }

    /// The signed integer of an integer value; a cardinal of 2^31 or more fails
    /// `IntegerOutOfRange`, any other type `TypeNotMatch`.
    pub fn get_integer_data(&self) -> (r: Result<i32, Error>)
        ensures
            match r {
                Ok(x) => strict_integer(self.bits()) == Ok::<i32, ErrorType>(x),
                Err(e) => strict_integer(self.bits()) == Err::<i32, ErrorType>(e.error_type),
            },
    {
        if self.get_primitive_type() == PrimitiveType::Integer {
            let value = signed_low_word(self.data);
            if (self.data >> 32) & 1 == 1 || value >= 0 {
                Ok(value)
            } else {
                Err(Error::new(ErrorType::IntegerOutOfRange, "Integer out of range"))
            }
        } else {
            Err(Error::new(ErrorType::TypeNotMatch, "Not integer value"))
        }
    }

    /// The cardinal of an integer value; a negative signed integer fails
    /// `IntegerOutOfRange`, any other type `TypeNotMatch`.
    pub fn get_cardinal_data(&self) -> (r: Result<u32, Error>)
        ensures
            match r {
                Ok(x) => strict_cardinal(self.bits()) == Ok::<u32, ErrorType>(x),
                Err(e) => strict_cardinal(self.bits()) == Err::<u32, ErrorType>(e.error_type),
            },
    {
        if self.get_primitive_type() == PrimitiveType::Integer {
            if !((self.data >> 32) & 1 == 1) {
                let data = self.data;
                assert(data & 0xffff_ffff <= 0xffff_ffff) by (bit_vector);
                Ok((data & 0xffff_ffff) as u32)
            } else {
                Err(Error::new(ErrorType::IntegerOutOfRange, "Cardinal out of range"))
            }
        } else {
            Err(Error::new(ErrorType::TypeNotMatch, "Not cardinal value"))
        }
    }

    /// The IEEE-754 pattern of a float value; `TypeNotMatch` for any other type.
    pub fn get_float_bits(&self) -> (r: Result<u64, Error>)
        ensures
            match r {
                Ok(x) => self.spec_type() == PrimitiveType::Float && x == self.bits(),
                Err(e) => self.spec_type() != PrimitiveType::Float && e.error_type
                    == ErrorType::TypeNotMatch,
            },
    {
        if self.get_primitive_type() == PrimitiveType::Float {
            Ok(self.data)
        } else {
            Err(Error::new(ErrorType::TypeNotMatch, "Not float value"))
        }
    }

    /// The region id of a slot-bearing value; `TypeNotMatch` for any other type.
    pub fn get_region_id(&self) -> (r: Result<u32, Error>)
        ensures
            match r {
                Ok(x) => is_slotted_type(self.spec_type()) && x == (self.bits() >> 16)
                    & 0xffff_ffff,
                Err(e) => !is_slotted_type(self.spec_type()) && e.error_type
                    == ErrorType::TypeNotMatch,
            },
    {
        if self.is_slotted() {
            let data = self.data;
            assert((data >> 16) & 0xffff_ffff <= 0xffff_ffff) by (bit_vector);
            Ok(((data >> 16) & 0xffff_ffff) as u32)
        } else {
            Err(Error::new(ErrorType::TypeNotMatch, "No slotted value"))
        }
    }

    /// The slot index of a slot-bearing value; `TypeNotMatch` for any other type.
    pub fn get_region_slot(&self) -> (r: Result<u32, Error>)
        ensures
            match r {
                Ok(x) => is_slotted_type(self.spec_type()) && x == self.bits() & 0xffff,
                Err(e) => !is_slotted_type(self.spec_type()) && e.error_type
                    == ErrorType::TypeNotMatch,
            },
    {
        if self.is_slotted() {
            let data = self.data;
            assert(data & 0xffff <= 0xffff) by (bit_vector);
            Ok((data & 0xffff) as u32)
        } else {
            Err(Error::new(ErrorType::TypeNotMatch, "No slotted value"))
        }
    }
}


/// `r` is the IEEE-754 pattern of the double whose value is the integer `n`.
pub open spec fn float_equals_integer(r: u64, n: int) -> bool {
    &&& float_is_finite(r)
    &&& float_is_integral(r)
    &&& float_truncated(r) == if n < 0 {
        -n
    } else {
        n
    }
    &&& float_is_negative(r) == (n < 0)
    &&& n == 0 ==> r == 0
}

/// IEEE-754 equality of two double patterns: no NaN equals anything, and the
/// two zeros are equal.
pub open spec fn float_eq(a: u64, b: u64) -> bool {
    !is_nan_bits(a) && !is_nan_bits(b) && (a == b || (float_is_zero(a) && float_is_zero(b)))
}

/// `r` is the numeric equality of patterns `a` and `b`, whose doubles are `fa`
/// and `fb`: both are numbers and their doubles are equal.
pub open spec fn numbers_equal(a: u64, b: u64, fa: u64, fb: u64, r: bool) -> bool {
    let number_a = type_of_bits(a) == PrimitiveType::Integer || type_of_bits(a) == PrimitiveType::Float;
    let number_b = type_of_bits(b) == PrimitiveType::Integer || type_of_bits(b) == PrimitiveType::Float;
    &&& float_of(a, 0, fa)
    &&& float_of(b, 0, fb)
    &&& r == (number_a && number_b && float_eq(fa, fb))
}

/// The integer an integer pattern stands for: signed when it carries the
/// signed marker and a set sign bit, a cardinal otherwise.
pub open spec fn integer_value(b: u64) -> int {
    if signed_flag(b) && (b >> 31) & 1 == 1 {
        signed_payload(b)
    } else {
        integer_payload(b) as int
    }
}

/// The float coercion of a pattern, as an IEEE-754 pattern: booleans as 0 or 1,
/// integers exactly, floats as they are, anything else as `default`.
pub open spec fn float_of(b: u64, default: u64, r: u64) -> bool {
    match type_of_bits(b) {
        PrimitiveType::Boolean => r == if b & 0xff == YES_SUFFIX {
            0x3ff0_0000_0000_0000u64
        } else {
            0u64
        },
        PrimitiveType::Integer => float_equals_integer(r, integer_value(b)),
        PrimitiveType::Float => r == b,
        _ => r == default,
    }
}

/// The double pattern of `±magnitude`, which is below 2^32.
fn integer_float_bits(negative: bool, magnitude: u64) -> (r: u64)
    requires
        magnitude < 0x1_0000_0000,
        negative ==> magnitude > 0,
    ensures
        float_equals_integer(r, if negative { -(magnitude as int) } else { magnitude as int }),
{
    proof {
        lemma2_to64();
        lemma2_to64_rest();
    }
    if magnitude == 0 {
        assert(float_exponent(0) == 0 && 0u64 & FRACTION_MASK == 0 && 0u64 >> 63 == 0) by (bit_vector);
        proof {
            lemma_pow2_pos(1074);
            vstd::arithmetic::div_mod::lemma_basic_div(0, pow2(1074) as int);
            vstd::arithmetic::div_mod::lemma_small_mod(0, pow2(1074));
        }
        return 0;
    }
    let mut e: u64 = 0;
    assert(magnitude >> 0 == magnitude) by (bit_vector);
    while e < 31 && (magnitude >> (e + 1)) != 0
        invariant
            e <= 31,
            magnitude >> e != 0,
            magnitude < 0x1_0000_0000,
        decreases 31 - e,
    {
        e = e + 1;
    }
    assert(magnitude < 0x1_0000_0000 ==> magnitude >> 32u64 == 0) by (bit_vector);
    assert(magnitude >> (e + 1) == 0);
    let shift: u64 = 52 - e;
    proof {
        lemma_u64_shr_is_div(magnitude, e);
        lemma_u64_shr_is_div(magnitude, (e + 1) as u64);
        lemma_pow2_pos(e as nat);
        lemma_pow2_pos((e + 1) as nat);
        lemma_pow2_pos(shift as nat);
        if magnitude < pow2(e as nat) {
            vstd::arithmetic::div_mod::lemma_basic_div(magnitude as int, pow2(e as nat) as int);
        }
        if magnitude >= pow2((e + 1) as nat) {
            vstd::arithmetic::div_mod::lemma_div_non_zero(magnitude as int, pow2((e + 1) as nat) as int);
        }
        lemma_pow2_adds(e as nat, shift as nat);
        lemma_pow2_adds((e + 1) as nat, shift as nat);
        let m = magnitude as int;
        let pe = pow2(e as nat) as int;
        let pe1 = pow2((e + 1) as nat) as int;
        let ps = pow2(shift as nat) as int;
        assert(pe * ps <= m * ps && m * ps < pe1 * ps) by (nonlinear_arith)
            requires
                pe <= m < pe1,
                ps > 0,
        ;
        lemma_u64_shl_is_mul(magnitude, shift);
    }
    let significand = magnitude << shift;
    assert(significand as int == magnitude as int * pow2(shift as nat));
    let fraction = significand - 0x10_0000_0000_0000;
    let exponent = e + 1023;
    let sign: u64 = if negative { 0x8000_0000_0000_0000 } else { 0 };
    let bits = (exponent << 52) | fraction | sign;
    assert(((exponent << 52) | fraction | sign) >> 52 & 0x7ff == exponent
        && ((exponent << 52) | fraction | sign) & 0xf_ffff_ffff_ffff == fraction
        && (((exponent << 52) | fraction | sign) >> 63 == 1) == (sign != 0)) by (bit_vector)
        requires
            exponent <= 0x7fe,
            fraction < 0x10_0000_0000_0000,
            sign == 0 || sign == 0x8000_0000_0000_0000,
    ;
    proof {
        assert(float_exponent(bits) == exponent);
        assert(float_significand(bits) == significand);
        assert(float_scale(bits) == shift);
        vstd::arithmetic::div_mod::lemma_div_by_multiple(magnitude as int, pow2(shift as nat) as int);
        vstd::arithmetic::div_mod::lemma_mod_multiples_basic(magnitude as int, pow2(shift as nat) as int);
    }
    bits
}

/// A pattern is classified as a float exactly when it is not a NaN or carries the
/// float prefix, for every pattern whose NaN prefix lies in the tagged range.
pub proof fn law_float_classification(b: u64)
    requires
        !is_nan_bits(b) || b >> 51 == 0xfff,
    ensures
        (type_of_bits(b) == PrimitiveType::Float) <==> (!is_nan_bits(b) || b >> 48 == NAN_PREFIX),
{
    assert(b >> 51 == 0xfff ==> 0x7ff8 <= b >> 48 && b >> 48 <= 0x7fff) by (bit_vector);
}

/// Every signed integer reads back through strict integer extraction.
pub proof fn law_integer_round_trip(x: i32)
    ensures
        strict_integer(integer_bits(x)) == Ok::<i32, ErrorType>(x),
        type_of_bits(integer_bits(x)) == PrimitiveType::Integer,
{
    if x >= 0 {
        lemma_tagged(INTEGER_PREFIX, x as u64);
        let v = x as u64;
        assert(v <= 0x7fff_ffff ==> (v >> 32) & 1 == 0 && v & 0xffff_ffff == v) by (bit_vector);
    } else {
        let low = (x + 0x1_0000_0000) as u64;
        assert(low < 0x1_0000_0000 ==> (low | 0x1_0000_0000) <= 0xffff_ffff_ffff && (low
            | 0x1_0000_0000) & 0xffff_ffff == low && ((low | 0x1_0000_0000) >> 32) & 1 == 1)
            by (bit_vector);
        lemma_tagged(INTEGER_PREFIX, low | 0x1_0000_0000);
    }
}

/// Every cardinal reads back through strict cardinal extraction, and one of 2^31
/// or more is out of range for strict integer extraction.
pub proof fn law_cardinal_round_trip(u: u32)
    ensures
        strict_cardinal(cardinal_bits(u)) == Ok::<u32, ErrorType>(u),
        type_of_bits(cardinal_bits(u)) == PrimitiveType::Integer,
        u >= 0x8000_0000 ==> strict_integer(cardinal_bits(u)) == Err::<i32, ErrorType>(
            ErrorType::IntegerOutOfRange,
        ),
{
    let v = u as u64;
    lemma_tagged(INTEGER_PREFIX, v);
    assert(v <= 0xffff_ffff ==> (v >> 32) & 1 == 0 && v & 0xffff_ffff == v) by (bit_vector);
}

/// Extracting the symbol of a symbol value gives the symbol it was made from; and
/// every symbol value whose payload fits a symbol id is the value made from the
/// symbol it carries.
pub proof fn law_symbol_round_trip(s: Symbol, default: Symbol, b: u64)
    ensures
        symbol_of(symbol_bits(s), default) == s,
        type_of_bits(b) == PrimitiveType::Symbol && b & PAYLOAD_MASK <= 0xffff_ffff
            ==> symbol_bits(symbol_of(b, default)) == b,
{
    let v = s.id as u64;
    lemma_tagged(SYMBOL_PREFIX, v);
    assert(v <= 0xffff_ffff ==> v & 0xffff_ffff == v) by (bit_vector);
    if type_of_bits(b) == PrimitiveType::Symbol && b & PAYLOAD_MASK <= 0xffff_ffff {
        assert(b & 0xffff_ffff <= 0xffff_ffff) by (bit_vector);
        assert(b >> 48 == SYMBOL_PREFIX);
        assert(b >> 48 == 0x7ffc && b & 0xffff_ffff_ffff <= 0xffff_ffff ==> (0x7ffcu64 << 48) | (b
            & 0xffff_ffff) == b) by (bit_vector);
    }
}

/// Slot-bearing values give back the region and slot they were made from.
pub proof fn law_slot_round_trip(prefix: u64, region: u32, slot: u32)
    requires
        prefix == TEXT_PREFIX || prefix == LIST_PREFIX || prefix == TUPLE_PREFIX || prefix
            == OBJECT_PREFIX,
        slot <= 0xffff,
    ensures
        is_slotted_type(type_of_bits(slot_bits(prefix, region, slot))),
        (slot_bits(prefix, region, slot) >> 16) & 0xffff_ffff == region,
        slot_bits(prefix, region, slot) & 0xffff == slot,
{
    let r64 = region as u64;
    let s64 = slot as u64;
    assert(r64 <= 0xffff_ffff && s64 <= 0xffff ==> ((r64 << 16) | s64) <= 0xffff_ffff_ffff
        && (((r64 << 16) | s64) >> 16) & 0xffff_ffff == r64 && ((r64 << 16) | s64) & 0xffff
        == s64) by (bit_vector);
    lemma_tagged(prefix, (r64 << 16) | s64);
}

/// Bit 31 of an integer pattern is set exactly when its low word, read unsigned,
/// is 2^31 or more.
pub proof fn lemma_sign_bit(b: u64)
    ensures
        ((b >> 31) & 1 == 1) == (integer_payload(b) >= 0x8000_0000),
        integer_payload(b) <= 0xffff_ffff,
        (b >> 31) & 1 == 0 || (b >> 31) & 1 == 1,
{
    assert(((b >> 31) & 1 == 1) == (b & 0xffff_ffff >= 0x8000_0000)) by (bit_vector);
    assert((b >> 31) & 1 == 0 || (b >> 31) & 1 == 1) by (bit_vector);
    assert(b & 0xffff_ffff <= 0xffff_ffff) by (bit_vector);
}

/// A value is its bit pattern: values with equal patterns are equal.
pub proof fn lemma_bits_determine_value(a: Value, b: Value)
    ensures
        a.bits() == b.bits() <==> a == b,
{
}

/// Symbol values are one-to-one with symbols, and a symbol value is the value made
/// from the symbol it carries, whenever its payload fits a symbol id.
pub proof fn law_symbol_values(a: Symbol, b: Symbol, v: Value, d: Symbol)
    ensures
        symbol_bits(a) == symbol_bits(b) <==> a == b,
        v.spec_type() == PrimitiveType::Symbol && v.bits() & PAYLOAD_MASK <= 0xffff_ffff
            ==> symbol_bits(symbol_of(v.bits(), d)) == v.bits(),
{
    law_symbol_round_trip(a, d, v.bits());
    law_symbol_round_trip(b, d, v.bits());
    if symbol_bits(a) == symbol_bits(b) {
        assert(symbol_of(symbol_bits(a), d) == a);
        assert(symbol_of(symbol_bits(b), d) == b);
    }
}

} // verus!
