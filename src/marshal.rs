//! Native representation of values: little-endian bytes as laid out in memory.
use vstd::prelude::*;
use crate::gc::GcPtr;

verus! {

/// The number that the little-endian bytes `s` denote.
pub open spec fn le_value(s: Seq<u8>) -> nat
    decreases s.len(),
{
    if s.len() == 0 {
        0
    } else {
        s[0] as nat + 256 * le_value(s.drop_first())
    }
}

/// The eight little-endian bytes of `v`.
pub open spec fn le_bytes(v: u64) -> Seq<u8> {
    Seq::new(8, |i: int| ((v as nat / pow256(i)) % 256) as u8)
}

pub open spec fn pow256(i: int) -> nat
    decreases i,
{
    if i <= 0 { 1 } else { 256 * pow256(i - 1) }
}

proof fn lemma_le_value_of_digits(v: nat, n: nat)
    requires
        v < pow256(n as int),
    ensures
        le_value(Seq::new(n, |i: int| ((v / pow256(i)) % 256) as u8)) == v,
    decreases n,
{
    let s = Seq::new(n, |i: int| ((v / pow256(i)) % 256) as u8);
    if n == 0 {
        assert(v == 0);
    } else {
        let w = v / 256;
        assert(pow256(n as int) == 256 * pow256(n - 1));
        assert(w < pow256(n - 1)) by (nonlinear_arith)
            requires v < 256 * pow256(n - 1), w == v / 256;
        lemma_le_value_of_digits(w, (n - 1) as nat);
        let t = Seq::new((n - 1) as nat, |i: int| ((w / pow256(i)) % 256) as u8);
        assert forall|i: int| 0 <= i < n - 1 implies s.drop_first()[i] == t[i] by {
            lemma_div_pow(v, i);
        }
        assert(s.drop_first() =~= t);
        assert(pow256(0) == 1);
        assert(s[0] == (v % 256) as u8);
        assert(v == v % 256 + 256 * w);
    }
}

proof fn lemma_div_pow(v: nat, i: int)
    requires
        i >= 0,
    ensures
        v / pow256(i + 1) == (v / 256) / pow256(i),
{
    assert(pow256(i + 1) == 256 * pow256(i));
    lemma_pow_pos(i);
    vstd::arithmetic::div_mod::lemma_div_denominator(v as int, 256, pow256(i) as int);
}

proof fn lemma_div_pow_outer(v: nat, i: int)
    requires
        i >= 0,
    ensures
        v / pow256(i + 1) == (v / pow256(i)) / 256,
{
    assert(pow256(i + 1) == pow256(i) * 256);
    lemma_pow_pos(i);
    vstd::arithmetic::div_mod::lemma_div_denominator(v as int, pow256(i) as int, 256);
}

proof fn lemma_pow_pos(i: int)
    ensures
        pow256(i) > 0,
    decreases i,
{
    if i > 0 {
        lemma_pow_pos(i - 1);
    }
}

/// Decoding the little-endian bytes of `v` gives back `v`.
pub proof fn lemma_le_round_trip(v: u64)
    ensures
        le_value(le_bytes(v)) == v,
{
    lemma_pow256_8();
    lemma_le_value_of_digits(v as nat, 8);
}

/// Encodes `v` as eight little-endian bytes.
pub fn encode_u64(v: u64) -> (r: Vec<u8>)
    ensures
        r@ == le_bytes(v),
        le_value(r@) == v,
{
    let mut r: Vec<u8> = Vec::new();
    let mut w: u64 = v;
    let mut i: usize = 0;
    assert(pow256(0) == 1);
    while i < 8
        invariant
            0 <= i <= 8,
            r@.len() == i,
            w == v as nat / pow256(i as int),
            forall|k: int| 0 <= k < i ==> r@[k] == le_bytes(v)[k],
        decreases 8 - i,
    {
        r.push((w % 256) as u8);
        proof {
            lemma_div_pow_outer(v as nat, i as int);
        }
        w = w / 256;
        i = i + 1;
    }
    assert(r@ =~= le_bytes(v));
    proof {
        lemma_le_round_trip(v);
    }
    r
}

/// Decodes the eight little-endian bytes of `bytes` that start at `offset`.
pub fn decode_u64(bytes: &[u8], offset: usize) -> (r: u64)
    requires
        offset + 8 <= bytes@.len(),
    ensures
        r == le_value(bytes@.subrange(offset as int, offset + 8)),
{
    let ghost s = bytes@.subrange(offset as int, offset + 8);
    let len = bytes.len();
    let mut acc: u64 = 0;
    let mut i: usize = 8;
    while i > 0
        invariant
            0 <= i <= 8,
            offset + 8 <= bytes@.len(),
            len == bytes@.len(),
            s == bytes@.subrange(offset as int, offset + 8),
            acc == le_value(s.subrange(i as int, 8)),
            acc < pow256(8 - i),
        decreases i,
    {
        i = i - 1;
        proof {
            let t = s.subrange(i as int, 8);
            assert(t.drop_first() =~= s.subrange(i + 1, 8));
            assert(pow256(8 - i) == 256 * pow256(8 - i - 1));
            lemma_pow256_8();
            lemma_pow_mono(8 - i, 8);
            assert(acc * 256 + 255 < pow256(8 - i)) by (nonlinear_arith)
                requires acc < pow256(8 - i - 1), pow256(8 - i) == 256 * pow256(8 - i - 1);
        }
        assert(offset + i < bytes@.len());
        let b = bytes[offset + i];
        acc = acc * 256 + b as u64;
    }
    assert(s.subrange(0, 8) =~= s);
    acc
}

proof fn lemma_pow256_8()
    ensures
        pow256(8) == 0x1_0000_0000_0000_0000,
{
    assert(pow256(0) == 1);
    assert(pow256(1) == 0x100);
    assert(pow256(2) == 0x1_0000);
    assert(pow256(3) == 0x100_0000);
    assert(pow256(4) == 0x1_0000_0000);
    assert(pow256(5) == 0x100_0000_0000);
    assert(pow256(6) == 0x1_0000_0000_0000);
    assert(pow256(7) == 0x100_0000_0000_0000);
}

proof fn lemma_pow_mono(a: int, b: int)
    requires
        0 <= a <= b,
    ensures
        pow256(a) <= pow256(b),
    decreases b - a,
{
    if a < b {
        lemma_pow_mono(a, b - 1);
        lemma_pow_pos(b - 1);
    }
}

/// The static type that a caller expects of a value.
#[derive(Clone, Copy, Debug, PartialEq, Eq, Structural)]
pub enum ValueKind {
    Empty,
    Bool,
    Int,
    Float,
    /// A reference to a struct on the collected heap.
    Struct,
}

/// A value that crosses the native-call boundary. A float is held as the bits of
/// its IEEE 754 binary64 representation.
#[derive(Clone, Copy, Debug, PartialEq, Eq, Structural)]
pub enum Value {
    Empty,
    Bool(bool),
    Int(i64),
    Float(u64),
    Struct(GcPtr),
}

pub open spec fn spec_kind(v: Value) -> ValueKind {
    match v {
        Value::Empty => ValueKind::Empty,
        Value::Bool(_) => ValueKind::Bool,
        Value::Int(_) => ValueKind::Int,
        Value::Float(_) => ValueKind::Float,
        Value::Struct(_) => ValueKind::Struct,
    }
}

/// The number of bytes of a value of kind `k` in native memory.
pub open spec fn native_size(k: ValueKind) -> nat {
    match k {
        ValueKind::Empty => 0,
        ValueKind::Bool => 1,
        _ => 8,
    }
}

/// The native representation of a fundamental value `v`: nothing for the empty
/// value, one byte 0 or 1 for a bool, eight little-endian bytes for an int (two's
/// complement) and for a float (its bits). A struct reference has none: the
/// collector stores handles in fields by a code of its own.
pub open spec fn native_bytes(v: Value) -> Seq<u8> {
    match v {
        Value::Empty => Seq::empty(),
        Value::Bool(b) => seq![if b { 1u8 } else { 0u8 }],
        Value::Int(i) => le_bytes(#[verifier::truncate] (i as u64)),
        Value::Float(f) => le_bytes(f),
        Value::Struct(_) => Seq::empty(),
    }
}

/// The fundamental value of kind `k` whose native representation is `bytes`.
pub open spec fn spec_from_native(k: ValueKind, bytes: Seq<u8>) -> Value {
    match k {
        ValueKind::Empty => Value::Empty,
        ValueKind::Bool => Value::Bool(bytes[0] != 0),
        ValueKind::Int => Value::Int(#[verifier::truncate] (le_value(bytes) as u64 as i64)),
        ValueKind::Float => Value::Float(le_value(bytes) as u64),
        ValueKind::Struct => Value::Empty,
    }
}

impl Value {
    /// Returns the kind of this value.
    pub fn kind(&self) -> (r: ValueKind)
        ensures
            r == spec_kind(*self),
    {
        match self {
            Value::Empty => ValueKind::Empty,
            Value::Bool(_) => ValueKind::Bool,
            Value::Int(_) => ValueKind::Int,
            Value::Float(_) => ValueKind::Float,
            Value::Struct(_) => ValueKind::Struct,
        }
    }
}

/// Returns the size of the native representation of a value of kind `k`.
pub fn native_size_of(k: ValueKind) -> (r: usize)
    ensures
        r == native_size(k),
{
    match k {
        ValueKind::Empty => 0,
        ValueKind::Bool => 1,
        _ => 8,
    }
}

/// Writes the fundamental value `v` in its native representation.
pub fn to_native(v: &Value) -> (r: Vec<u8>)
    requires
        !(*v is Struct),
    ensures
        r@ == native_bytes(*v),
        r@.len() == native_size(spec_kind(*v)),
{
    match v {
        Value::Empty => Vec::new(),
        Value::Bool(b) => {
            let mut r: Vec<u8> = Vec::new();
            r.push(if *b { 1u8 } else { 0u8 });
            assert(r@ =~= seq![if *b { 1u8 } else { 0u8 }]);
            r
        },
        Value::Int(i) => encode_u64(#[verifier::truncate] (*i as u64)),
        Value::Float(f) => encode_u64(*f),
        Value::Struct(_) => Vec::new(),
    }
}

/// Reads a fundamental value of kind `k` from the native representation at
/// `offset` in `bytes`.
pub fn from_native(k: ValueKind, bytes: &[u8], offset: usize) -> (r: Value)
    requires
        !(k is Struct),
        offset + native_size(k) <= bytes@.len(),
    ensures
        r == spec_from_native(k, bytes@.subrange(offset as int, offset + native_size(k))),
{
    match k {
        ValueKind::Empty => Value::Empty,
        ValueKind::Bool => Value::Bool(bytes[offset] != 0),
        ValueKind::Int => Value::Int(#[verifier::truncate] (decode_u64(bytes, offset) as i64)),
        ValueKind::Float => Value::Float(decode_u64(bytes, offset)),
        ValueKind::Struct => Value::Empty,
    }
}

/// Marshaling a fundamental value to its native representation and back yields
/// the same value.
pub proof fn lemma_marshal_round_trip(v: Value)
    requires
        !(v is Struct),
    ensures
        spec_from_native(spec_kind(v), native_bytes(v)) == v,
        native_bytes(v).len() == native_size(spec_kind(v)),
{
    match v {
        Value::Int(i) => {
            let u = #[verifier::truncate] (i as u64);
            lemma_le_round_trip(u);
            assert((#[verifier::truncate] ((#[verifier::truncate] (i as u64)) as i64)) == i) by (bit_vector);
        },
        Value::Float(f) => {
            lemma_le_round_trip(f);
        },
        _ => {},
    }
}

} // verus!
