//! GGUF header reader: the GGML universal file format used by llama.cpp.
//!
//! A GGUF file starts with the magic `"GGUF"`, a version (2 or 3), the
//! number of tensors and of metadata entries, the metadata key/value pairs,
//! one info record per tensor, and then the tensor data at the next
//! alignment boundary. Every integer is little-endian; a string is a `u64`
//! byte length followed by UTF-8 bytes.
//!
//! The reader works on the bytes of the file; `spec_parse_header` states
//! what it computes. Like a map, the parsed header keeps one metadata entry
//! per key, holding the value of the key's last occurrence.

use vstd::prelude::*;
use crate::text::{
    chars_eq_str, chars_of, decimal, owned, parse_usize, parse_usize_spec, push_chars, replace_all,
    replace_str, slice_to_vec, split_chars, split_on, starts_with, starts_with_at,
    string_from_chars, u64_decimal, all_digits, is_digit, no_dot, lemma_digits_kept,
    lemma_replace_keeps_final_dot, lemma_replace_split_at_dot, lemma_replace_without_dot,
    lemma_word_kept, lemma_word_replaced,
};

verus! {

/// The GGUF magic, `"GGUF"` read as a little-endian `u32`.
pub const GGUF_MAGIC: u32 = 0x46554747;

pub const GGUF_TYPE_UINT8: u32 = 0;
pub const GGUF_TYPE_INT8: u32 = 1;
pub const GGUF_TYPE_UINT16: u32 = 2;
pub const GGUF_TYPE_INT16: u32 = 3;
pub const GGUF_TYPE_UINT32: u32 = 4;
pub const GGUF_TYPE_INT32: u32 = 5;
pub const GGUF_TYPE_FLOAT32: u32 = 6;
pub const GGUF_TYPE_BOOL: u32 = 7;
pub const GGUF_TYPE_STRING: u32 = 8;
pub const GGUF_TYPE_ARRAY: u32 = 9;
pub const GGUF_TYPE_UINT64: u32 = 10;
pub const GGUF_TYPE_INT64: u32 = 11;
pub const GGUF_TYPE_FLOAT64: u32 = 12;

/// Alignment of the tensor data when the metadata does not set one.
pub const GGUF_DEFAULT_ALIGNMENT: u64 = 32;

/// A metadata value that is not an array. Floats are held as their
/// IEEE-754 bit patterns.
#[derive(Debug)]
pub enum GgufScalar {
    U8(u8),
    I8(i8),
    U16(u16),
    I16(i16),
    U32(u32),
    I32(i32),
    F32(u32),
    Bool(bool),
    String(String),
    U64(u64),
    I64(i64),
    F64(u64),
}

/// A metadata value: a scalar, or an array of scalars (GGUF arrays read
/// here do not nest).
#[derive(Debug)]
pub enum GgufValue {
    Scalar(GgufScalar),
    Array(Vec<GgufScalar>),
}

/// The mathematical content of a `GgufScalar`.
pub enum ScalarModel {
    U8(u8),
    I8(i8),
    U16(u16),
    I16(i16),
    U32(u32),
    I32(i32),
    F32(u32),
    Bool(bool),
    Str(Seq<char>),
    U64(u64),
    I64(i64),
    F64(u64),
}

/// The mathematical content of a `GgufValue`.
pub enum ValueModel {
    Scalar(ScalarModel),
    Array(Seq<ScalarModel>),
}

impl View for GgufScalar {
    type V = ScalarModel;

    open spec fn view(&self) -> ScalarModel {
        match self {
            GgufScalar::U8(x) => ScalarModel::U8(*x),
            GgufScalar::I8(x) => ScalarModel::I8(*x),
            GgufScalar::U16(x) => ScalarModel::U16(*x),
            GgufScalar::I16(x) => ScalarModel::I16(*x),
            GgufScalar::U32(x) => ScalarModel::U32(*x),
            GgufScalar::I32(x) => ScalarModel::I32(*x),
            GgufScalar::F32(x) => ScalarModel::F32(*x),
            GgufScalar::Bool(x) => ScalarModel::Bool(*x),
            GgufScalar::String(s) => ScalarModel::Str(s@),
            GgufScalar::U64(x) => ScalarModel::U64(*x),
            GgufScalar::I64(x) => ScalarModel::I64(*x),
            GgufScalar::F64(x) => ScalarModel::F64(*x),
        }
    }
}

/// The views of a sequence of scalars.
pub open spec fn scalar_views(v: Seq<GgufScalar>) -> Seq<ScalarModel> {
    v.map_values(|x: GgufScalar| x@)
}

impl View for GgufValue {
    type V = ValueModel;

    open spec fn view(&self) -> ValueModel {
        match self {
            GgufValue::Scalar(x) => ValueModel::Scalar(x@),
            GgufValue::Array(v) => ValueModel::Array(scalar_views(v@)),
        }
    }
}

/// Why a GGUF header could not be read.
#[derive(Debug)]
pub enum GgufError {
    /// The bytes end before the header does.
    UnexpectedEof,
    /// The bytes are not a GGUF header this reader accepts.
    Parse(String),
}

/// The mathematical content of a `GgufError`; an invalid UTF-8 string is
/// reported with the message that `String::from_utf8` gives.
pub enum ReadError {
    Eof,
    Parse(Seq<char>),
    BadUtf8,
}

/// Whether an error value reports the error `e`.
pub open spec fn reports(err: GgufError, e: ReadError) -> bool {
    match (err, e) {
        (GgufError::UnexpectedEof, ReadError::Eof) => true,
        (GgufError::Parse(m), ReadError::Parse(x)) => m@ == x,
        (GgufError::Parse(_), ReadError::BadUtf8) => true,
        _ => false,
    }
}

// ───────────────────────── little-endian integers ─────────────────────────

/// `256^n`.
pub open spec fn pow256(n: nat) -> nat
    decreases n,
{
    if n == 0 {
        1
    } else {
        256 * pow256((n - 1) as nat)
    }
}

/// The little-endian value of `b[p..p + n]`.
pub open spec fn le(b: Seq<u8>, p: int, n: nat) -> nat
    decreases n,
{
    if n == 0 {
        0
    } else {
        b[p] as nat + 256 * le(b, p + 1, (n - 1) as nat)
    }
}

pub proof fn lemma_le_bound(b: Seq<u8>, p: int, n: nat)
    ensures
        le(b, p, n) < pow256(n),
    decreases n,
{
    if n > 0 {
        lemma_le_bound(b, p + 1, (n - 1) as nat);
    }
}

pub proof fn lemma_pow256()
    ensures
        pow256(1) == 0x100,
        pow256(2) == 0x1_0000,
        pow256(4) == 0x1_0000_0000,
        pow256(8) == 0x1_0000_0000_0000_0000,
{
    reveal_with_fuel(pow256, 9);
}

/// The little-endian value of `b[p..p + n]` for `n <= 8`.
pub(crate) fn read_le(b: &[u8], p: usize, n: usize) -> (r: u64)
    requires
        n <= 8,
        p + n <= b@.len(),
    ensures
        r as nat == le(b@, p as int, n as nat),
{
    proof {
        lemma_pow256();
        lemma_le_bound(b@, p as int, n as nat);
    }
    let mut acc: u64 = 0;
    let mut i: usize = n;
    while i > 0
        invariant
            n <= 8,
            i <= n,
            p + n <= b.len(),
            acc as nat == le(b@, (p + i) as int, (n - i) as nat),
        decreases i,
    {
        proof {
            lemma_le_bound(b@, (p + i) as int, (n - i) as nat);
            lemma_pow256_mono((n - i) as nat, 7);
            lemma_pow256();
            reveal_with_fuel(pow256, 8);
        }
        let byte = b[p + (i - 1)];
        acc = acc * 256 + byte as u64;
        i = i - 1;
    }
    acc
}

proof fn lemma_pow256_mono(a: nat, b: nat)
    requires
        a <= b,
    ensures
        pow256(a) <= pow256(b),
    decreases b,
{
    if a < b {
        lemma_pow256_mono(a, (b - 1) as nat);
    }
}

// ───────────────────────── specification of the reader ─────────────────────────

/// Result of reading one item at a position: the item and the position after it.
pub type Read<T> = Result<(T, int), ReadError>;

/// A `u32` at `p`.
pub open spec fn spec_u32(b: Seq<u8>, p: int) -> Read<u32> {
    if 0 <= p && p + 4 <= b.len() {
        Ok((le(b, p, 4) as u32, p + 4))
    } else {
        Err(ReadError::Eof)
    }
}

/// A `u64` at `p`.
pub open spec fn spec_u64(b: Seq<u8>, p: int) -> Read<u64> {
    if 0 <= p && p + 8 <= b.len() {
        Ok((le(b, p, 8) as u64, p + 8))
    } else {
        Err(ReadError::Eof)
    }
}

/// A length-prefixed UTF-8 string at `p`.
pub open spec fn spec_string(b: Seq<u8>, p: int) -> Read<Seq<char>> {
    match spec_u64(b, p) {
        Err(e) => Err(e),
        Ok((len, q)) => {
            let n = len as usize as int;
            if q + n <= b.len() {
                let bytes = b.subrange(q, q + n);
                if vstd::utf8::valid_utf8(bytes) {
                    Ok((vstd::utf8::decode_utf8(bytes), q + n))
                } else {
                    Err(ReadError::BadUtf8)
                }
            } else {
                Err(ReadError::Eof)
            }
        },
    }
}

/// Number of bytes of a fixed-width scalar of type `t` (0 for strings and
/// types that are not scalars).
pub open spec fn fixed_width(t: u32) -> nat {
    if t == GGUF_TYPE_UINT8 || t == GGUF_TYPE_INT8 || t == GGUF_TYPE_BOOL {
        1
    } else if t == GGUF_TYPE_UINT16 || t == GGUF_TYPE_INT16 {
        2
    } else if t == GGUF_TYPE_UINT32 || t == GGUF_TYPE_INT32 || t == GGUF_TYPE_FLOAT32 {
        4
    } else if t == GGUF_TYPE_UINT64 || t == GGUF_TYPE_INT64 || t == GGUF_TYPE_FLOAT64 {
        8
    } else {
        0
    }
}

/// Whether `t` names a scalar type.
pub open spec fn is_scalar_type(t: u32) -> bool {
    t <= 12 && t != GGUF_TYPE_ARRAY
}

/// The scalar of type `t` whose little-endian bits are `x`.
pub open spec fn scalar_from_bits(t: u32, x: nat) -> ScalarModel {
    if t == GGUF_TYPE_UINT8 {
        ScalarModel::U8(x as u8)
    } else if t == GGUF_TYPE_INT8 {
        ScalarModel::I8(x as u8 as i8)
    } else if t == GGUF_TYPE_UINT16 {
        ScalarModel::U16(x as u16)
    } else if t == GGUF_TYPE_INT16 {
        ScalarModel::I16(x as u16 as i16)
    } else if t == GGUF_TYPE_UINT32 {
        ScalarModel::U32(x as u32)
    } else if t == GGUF_TYPE_INT32 {
        ScalarModel::I32(x as u32 as i32)
    } else if t == GGUF_TYPE_FLOAT32 {
        ScalarModel::F32(x as u32)
    } else if t == GGUF_TYPE_BOOL {
        ScalarModel::Bool(x != 0)
    } else if t == GGUF_TYPE_UINT64 {
        ScalarModel::U64(x as u64)
    } else if t == GGUF_TYPE_INT64 {
        ScalarModel::I64(x as u64 as i64)
    } else {
        ScalarModel::F64(x as u64)
    }
}

/// A scalar of type `t` at `p` (`t` must be a scalar type).
pub open spec fn spec_scalar(t: u32, b: Seq<u8>, p: int) -> Read<ScalarModel> {
    if t == GGUF_TYPE_STRING {
        match spec_string(b, p) {
            Err(e) => Err(e),
            Ok((s, q)) => Ok((ScalarModel::Str(s), q)),
        }
    } else {
        let w = fixed_width(t);
        if 0 <= p && p + w <= b.len() {
            Ok((scalar_from_bits(t, le(b, p, w)), p + w))
        } else {
            Err(ReadError::Eof)
        }
    }
}

/// `n` array elements of type `t` from `p`.
pub open spec fn spec_elements(t: u32, b: Seq<u8>, p: int, n: nat) -> Read<Seq<ScalarModel>>
    decreases n,
{
    if n == 0 {
        Ok((Seq::empty(), p))
    } else {
        match spec_scalar(t, b, p) {
            Err(e) => Err(e),
            Ok((x, q)) => match spec_elements(t, b, q, (n - 1) as nat) {
                Err(e) => Err(e),
                Ok((xs, r)) => Ok((seq![x] + xs, r)),
            },
        }
    }
}

/// A type-tagged metadata value at `p`.
pub open spec fn spec_value(b: Seq<u8>, p: int) -> Read<ValueModel> {
    match spec_u32(b, p) {
        Err(e) => Err(e),
        Ok((t, q)) => if t == GGUF_TYPE_ARRAY {
            match spec_u32(b, q) {
                Err(e) => Err(e),
                Ok((et, q1)) => match spec_u64(b, q1) {
                    Err(e) => Err(e),
                    Ok((len, q2)) => if len as usize == 0 {
                        Ok((ValueModel::Array(Seq::empty()), q2))
                    } else if !is_scalar_type(et) {
                        Err(
                            ReadError::Parse("unknown GGUF array element type: "@ + decimal(et as nat)),
                        )
                    } else {
                        match spec_elements(et, b, q2, len as usize as nat) {
                            Err(e) => Err(e),
                            Ok((xs, r)) => Ok((ValueModel::Array(xs), r)),
                        }
                    },
                },
            }
        } else if is_scalar_type(t) {
            match spec_scalar(t, b, q) {
                Err(e) => Err(e),
                Ok((x, r)) => Ok((ValueModel::Scalar(x), r)),
            }
        } else {
            Err(ReadError::Parse("unknown GGUF metadata type: "@ + decimal(t as nat)))
        },
    }
}

/// `n` metadata key/value pairs from `p`.
pub open spec fn spec_metadata(b: Seq<u8>, p: int, n: nat) -> Read<Seq<(Seq<char>, ValueModel)>>
    decreases n,
{
    if n == 0 {
        Ok((Seq::empty(), p))
    } else {
        match spec_string(b, p) {
            Err(e) => Err(e),
            Ok((k, q)) => match spec_value(b, q) {
                Err(e) => Err(e),
                Ok((v, r)) => match spec_metadata(b, r, (n - 1) as nat) {
                    Err(e) => Err(e),
                    Ok((kvs, s)) => Ok((seq![(k, v)] + kvs, s)),
                },
            },
        }
    }
}

/// `n` little-endian `u64`s from `p`.
pub open spec fn spec_dims(b: Seq<u8>, p: int, n: nat) -> Read<Seq<u64>>
    decreases n,
{
    if n == 0 {
        Ok((Seq::empty(), p))
    } else {
        match spec_u64(b, p) {
            Err(e) => Err(e),
            Ok((d, q)) => match spec_dims(b, q, (n - 1) as nat) {
                Err(e) => Err(e),
                Ok((ds, r)) => Ok((seq![d] + ds, r)),
            },
        }
    }
}

/// The mathematical content of a tensor info record.
pub struct TensorInfoModel {
    pub name: Seq<char>,
    pub n_dims: u32,
    pub dims: Seq<u64>,
    pub tensor_type: u32,
    pub offset: u64,
}

/// One tensor info record at `p`.
pub open spec fn spec_tensor_info(b: Seq<u8>, p: int) -> Read<TensorInfoModel> {
    match spec_string(b, p) {
        Err(e) => Err(e),
        Ok((name, q)) => match spec_u32(b, q) {
            Err(e) => Err(e),
            Ok((n_dims, q1)) => match spec_dims(b, q1, n_dims as nat) {
                Err(e) => Err(e),
                Ok((dims, q2)) => match spec_u32(b, q2) {
                    Err(e) => Err(e),
                    Ok((tt, q3)) => match spec_u64(b, q3) {
                        Err(e) => Err(e),
                        Ok((off, q4)) => Ok(
                            (
                                TensorInfoModel {
                                    name,
                                    n_dims,
                                    dims,
                                    tensor_type: tt,
                                    offset: off,
                                },
                                q4,
                            ),
                        ),
                    },
                },
            },
        },
    }
}

/// `n` tensor info records from `p`.
pub open spec fn spec_tensor_infos(b: Seq<u8>, p: int, n: nat) -> Read<Seq<TensorInfoModel>>
    decreases n,
{
    if n == 0 {
        Ok((Seq::empty(), p))
    } else {
        match spec_tensor_info(b, p) {
            Err(e) => Err(e),
            Ok((t, q)) => match spec_tensor_infos(b, q, (n - 1) as nat) {
                Err(e) => Err(e),
                Ok((ts, r)) => Ok((seq![t] + ts, r)),
            },
        }
    }
}

/// The value of the last metadata entry named `key` (later entries replace
/// earlier ones, as in a map).
pub open spec fn lookup(kvs: Seq<(Seq<char>, ValueModel)>, key: Seq<char>) -> Option<ValueModel>
    decreases kvs.len(),
{
    if kvs.len() == 0 {
        None
    } else if kvs.last().0 == key {
        Some(kvs.last().1)
    } else {
        lookup(kvs.drop_last(), key)
    }
}

/// The position of the entry named `key`, the last if several are.
pub open spec fn key_index(kvs: Seq<(Seq<char>, ValueModel)>, key: Seq<char>) -> Option<int>
    decreases kvs.len(),
{
    if kvs.len() == 0 {
        None
    } else if kvs.last().0 == key {
        Some(kvs.len() - 1)
    } else {
        key_index(kvs.drop_last(), key)
    }
}

/// `e` put into the map `m`: it replaces the entry of its key, else comes
/// last.
pub open spec fn map_put(m: Seq<(Seq<char>, ValueModel)>, e: (Seq<char>, ValueModel)) -> Seq<(Seq<char>, ValueModel)> {
    match key_index(m, e.0) {
        Some(j) => m.update(j, e),
        None => m.push(e),
    }
}

/// The entries as a map keeps them: one per key, where the key first
/// occurs, with the value of its last entry.
pub open spec fn dedup_kvs(kvs: Seq<(Seq<char>, ValueModel)>) -> Seq<(Seq<char>, ValueModel)>
    decreases kvs.len(),
{
    if kvs.len() == 0 {
        Seq::empty()
    } else {
        map_put(dedup_kvs(kvs.drop_last()), kvs.last())
    }
}

/// No key occurs twice.
pub open spec fn keys_unique(kvs: Seq<(Seq<char>, ValueModel)>) -> bool {
    forall|i: int, j: int| 0 <= i < j < kvs.len() ==> kvs[i].0 != kvs[j].0
}

proof fn lemma_key_index(kvs: Seq<(Seq<char>, ValueModel)>, key: Seq<char>)
    ensures
        match key_index(kvs, key) {
            Some(j) => 0 <= j < kvs.len() && kvs[j].0 == key && lookup(kvs, key) == Some(kvs[j].1),
            None => forall|j: int| 0 <= j < kvs.len() ==> (#[trigger] kvs[j]).0 != key,
        },
        key_index(kvs, key) is None ==> lookup(kvs, key) is None,
    decreases kvs.len(),
{
    if kvs.len() > 0 {
        lemma_key_index(kvs.drop_last(), key);
        if kvs.last().0 != key {
            assert forall|j: int| 0 <= j < kvs.len() - 1 implies (#[trigger] kvs[j]).0 == kvs.drop_last()[j].0 by {}
        }
    }
}

proof fn lemma_lookup_unique(m: Seq<(Seq<char>, ValueModel)>, key: Seq<char>)
    requires
        keys_unique(m),
    ensures
        forall|i: int| 0 <= i < m.len() && m[i].0 == key ==> lookup(m, key) == Some(#[trigger] m[i].1),
        (forall|i: int| 0 <= i < m.len() ==> (#[trigger] m[i]).0 != key) ==> lookup(m, key) is None,
    decreases m.len(),
{
    if m.len() > 0 {
        let d = m.drop_last();
        assert(keys_unique(d)) by {
            assert forall|a: int, b: int| 0 <= a < b < d.len() implies d[a].0 != d[b].0 by {
                assert(d[a] == m[a] && d[b] == m[b]);
            }
        }
        lemma_lookup_unique(d, key);
        assert forall|i: int| 0 <= i < m.len() && m[i].0 == key implies lookup(m, key) == Some(#[trigger] m[i].1) by {
            if i < m.len() - 1 {
                assert(m[i] == d[i]);
                assert(m.last().0 != key);
            }
        }
        if forall|i: int| 0 <= i < m.len() ==> (#[trigger] m[i]).0 != key {
            assert forall|i: int| 0 <= i < d.len() implies (#[trigger] d[i]).0 != key by {
                assert(d[i] == m[i]);
            }
        }
    }
}

/// Law: keeping one entry per key changes no lookup, and leaves no key
/// twice.
pub proof fn lemma_dedup_kvs(kvs: Seq<(Seq<char>, ValueModel)>)
    ensures
        forall|key: Seq<char>| #[trigger] lookup(dedup_kvs(kvs), key) == lookup(kvs, key),
        keys_unique(dedup_kvs(kvs)),
    decreases kvs.len(),
{
    if kvs.len() > 0 {
        let d = kvs.drop_last();
        let e = kvs.last();
        lemma_dedup_kvs(d);
        let m = dedup_kvs(d);
        lemma_key_index(m, e.0);
        let r = dedup_kvs(kvs);
        match key_index(m, e.0) {
            Some(j) => {
                assert(r == m.update(j, e));
                assert forall|a: int, b: int| 0 <= a < b < r.len() implies r[a].0 != r[b].0 by {
                    assert(r[a].0 == m[a].0 && r[b].0 == m[b].0);
                }
                assert forall|key: Seq<char>| #[trigger] lookup(r, key) == lookup(kvs, key) by {
                    assert(lookup(dedup_kvs(d), key) == lookup(d, key));
                    assert(kvs.drop_last() == d);
                    lemma_lookup_unique(r, key);
                    lemma_lookup_unique(m, key);
                    if key == e.0 {
                        assert(lookup(kvs, key) == Some(e.1));
                        assert(r[j].0 == key && r[j].1 == e.1);
                    } else {
                        assert(lookup(kvs, key) == lookup(d, key));
                        if exists|i: int| 0 <= i < m.len() && m[i].0 == key {
                            let i = choose|i: int| 0 <= i < m.len() && m[i].0 == key;
                            assert(i != j);
                            assert(r[i] == m[i]);
                            assert(lookup(m, key) == Some(m[i].1));
                            assert(r[i].0 == key && lookup(r, key) == Some(r[i].1));
                        } else {
                            assert(lookup(m, key) is None);
                            assert forall|i: int| 0 <= i < r.len() implies (#[trigger] r[i]).0 != key by {
                                if i != j {
                                    assert(r[i] == m[i]);
                                }
                            }
                        }
                    }
                }
            },
            None => {
                assert(r == m.push(e));
                assert forall|key: Seq<char>| #[trigger] lookup(r, key) == lookup(kvs, key) by {
                    assert(lookup(dedup_kvs(d), key) == lookup(d, key));
                    assert(kvs.drop_last() == d);
                    assert(r.drop_last() =~= m);
                    assert(r.last() == e);
                }
                assert forall|a: int, b: int| 0 <= a < b < r.len() implies r[a].0 != r[b].0 by {
                    if b == m.len() {
                        assert(r[a] == m[a]);
                    } else {
                        assert(r[a] == m[a] && r[b] == m[b]);
                    }
                }
            },
        }
    }
}

/// Keeping one entry per key leaves the alignment as it was.
proof fn lemma_dedup_alignment(kvs: Seq<(Seq<char>, ValueModel)>)
    ensures
        spec_alignment(dedup_kvs(kvs)) == spec_alignment(kvs),
{
    lemma_dedup_kvs(kvs);
    assert(lookup(dedup_kvs(kvs), "general.alignment"@) == lookup(kvs, "general.alignment"@));
}

/// `GgufValue::as_u64` on a model.
pub open spec fn model_as_u64(v: ValueModel) -> Option<u64> {
    match v {
        ValueModel::Scalar(ScalarModel::U32(x)) => Some(x as u64),
        ValueModel::Scalar(ScalarModel::I32(x)) => if x >= 0 {
            Some(x as u64)
        } else {
            None
        },
        ValueModel::Scalar(ScalarModel::U64(x)) => Some(x),
        ValueModel::Scalar(ScalarModel::I64(x)) => if x >= 0 {
            Some(x as u64)
        } else {
            None
        },
        _ => None,
    }
}

/// The tensor data alignment the metadata sets: a positive integer
/// `general.alignment`, else 32.
pub open spec fn spec_alignment(kvs: Seq<(Seq<char>, ValueModel)>) -> u64 {
    match lookup(kvs, "general.alignment"@) {
        Some(v) => match model_as_u64(v) {
            Some(a) => if a > 0 {
                a
            } else {
                GGUF_DEFAULT_ALIGNMENT
            },
            None => GGUF_DEFAULT_ALIGNMENT,
        },
        None => GGUF_DEFAULT_ALIGNMENT,
    }
}

/// `pos` rounded up to a multiple of `a`.
pub open spec fn align_up(pos: nat, a: nat) -> nat {
    if a == 0 {
        pos
    } else {
        ((pos + a - 1) / a as int * a) as nat
    }
}

/// The mathematical content of a GGUF header.
pub struct HeaderModel {
    pub metadata: Seq<(Seq<char>, ValueModel)>,
    pub tensor_infos: Seq<TensorInfoModel>,
    pub data_offset: nat,
}

/// Eight upper-case hexadecimal digits of `x`.
pub open spec fn hex8(x: nat) -> Seq<char> {
    hex_digits(x, 8)
}

/// The last `n` upper-case hexadecimal digits of `x`.
pub open spec fn hex_digits(x: nat, n: nat) -> Seq<char>
    decreases n,
{
    if n == 0 {
        Seq::empty()
    } else {
        hex_digits(x / 16, (n - 1) as nat).push(hex_char(x % 16))
    }
}

/// The upper-case hexadecimal digit for `d < 16`.
pub open spec fn hex_char(d: nat) -> char {
    if d < 10 {
        ((d + 48) as u32) as char
    } else {
        ((d + 55) as u32) as char
    }
}

/// The message for a file that does not start with the GGUF magic.
pub open spec fn bad_magic_message(magic: u32) -> Seq<char> {
    "not a GGUF file (magic: 0x"@ + hex8(magic as nat) + ", expected 0x46554747)"@
}

/// What reading a GGUF header from `b` gives: the header, or the first error
/// met while reading it in order.
pub open spec fn spec_parse_header(b: Seq<u8>) -> Result<HeaderModel, ReadError> {
    match spec_u32(b, 0) {
        Err(e) => Err(e),
        Ok((magic, p0)) => if magic != GGUF_MAGIC {
            Err(ReadError::Parse(bad_magic_message(magic)))
        } else {
            match spec_u32(b, p0) {
                Err(e) => Err(e),
                Ok((version, p1)) => if !(2 <= version <= 3) {
                    Err(ReadError::Parse("unsupported GGUF version: "@ + decimal(version as nat)))
                } else {
                    match spec_u64(b, p1) {
                        Err(e) => Err(e),
                        Ok((n_tensors, p2)) => match spec_u64(b, p2) {
                            Err(e) => Err(e),
                            Ok((n_metadata, p3)) => match spec_metadata(
                                b,
                                p3,
                                n_metadata as usize as nat,
                            ) {
                                Err(e) => Err(e),
                                Ok((kvs, p4)) => match spec_tensor_infos(
                                    b,
                                    p4,
                                    n_tensors as usize as nat,
                                ) {
                                    Err(e) => Err(e),
                                    Ok((infos, p5)) => Ok(
                                        HeaderModel {
                                            metadata: dedup_kvs(kvs),
                                            tensor_infos: infos,
                                            data_offset: align_up(
                                                p5 as nat,
                                                spec_alignment(kvs) as nat,
                                            ),
                                        },
                                    ),
                                },
                            },
                        },
                    }
                },
            }
        },
    }
}


// ───────────────────────── the reader ─────────────────────────

/// Decodes UTF-8 bytes into a `String` (`String::from_utf8`); on invalid
/// input, the error's message as `std` writes it (the message text is not
/// stated here).
#[verifier::external_body]
fn string_from_utf8(bytes: Vec<u8>) -> (r: Result<String, String>)
    ensures
        r is Ok <==> vstd::utf8::valid_utf8(bytes@),
        r matches Ok(s) ==> s@ == vstd::utf8::decode_utf8(bytes@),
{
    String::from_utf8(bytes).map_err(|e| e.to_string())
}

/// A message made of a fixed prefix and a decimal number.
fn message_with_number(prefix: &str, n: u64) -> (r: String)
    ensures
        r@ == prefix@ + decimal(n as nat),
{
    let mut m = String::from_str(prefix);
    let d = u64_decimal(n);
    push_chars(&mut m, d.as_slice());
    m
}

/// Reads `n <= 8` bytes at `*pos` as a little-endian integer.
fn read_fixed(b: &[u8], pos: &mut usize, n: usize) -> (r: Result<u64, GgufError>)
    requires
        n <= 8,
    ensures
        old(pos) + n <= b@.len() ==> r == Ok::<u64, GgufError>(le(b@, *old(pos) as int, n as nat) as u64)
            && *final(pos) == *old(pos) + n,
        old(pos) + n > b@.len() ==> r matches Err(GgufError::UnexpectedEof),
{
    if *pos > b.len() || b.len() - *pos < n {
        return Err(GgufError::UnexpectedEof);
    }
    let v = read_le(b, *pos, n);
    *pos = *pos + n;
    Ok(v)
}

/// Reads a `u8`.
pub fn read_u8(b: &[u8], pos: &mut usize) -> (r: Result<u8, GgufError>)
    ensures
        old(pos) + 1 <= b@.len() ==> r == Ok::<u8, GgufError>(b@[*old(pos) as int]) && *final(pos)
            == *old(pos) + 1,
        old(pos) + 1 > b@.len() ==> r matches Err(GgufError::UnexpectedEof),
{
    let v = read_fixed(b, pos, 1)?;
    proof {
        reveal_with_fuel(le, 2);
    }
    Ok(v as u8)
}

/// Reads an `i8` (the bits of a `u8`).
pub fn read_i8(b: &[u8], pos: &mut usize) -> (r: Result<i8, GgufError>)
    ensures
        old(pos) + 1 <= b@.len() ==> r == Ok::<i8, GgufError>(b@[*old(pos) as int] as i8)
            && *final(pos) == *old(pos) + 1,
        old(pos) + 1 > b@.len() ==> r matches Err(GgufError::UnexpectedEof),
{
    let v = read_u8(b, pos)?;
    Ok(v as i8)
}

/// Reads a little-endian `u16`.
pub fn read_u16(b: &[u8], pos: &mut usize) -> (r: Result<u16, GgufError>)
    ensures
        old(pos) + 2 <= b@.len() ==> r == Ok::<u16, GgufError>(le(b@, *old(pos) as int, 2) as u16)
            && *final(pos) == *old(pos) + 2,
        old(pos) + 2 > b@.len() ==> r matches Err(GgufError::UnexpectedEof),
{
    proof {
        lemma_le_bound(b@, *old(pos) as int, 2);
        lemma_pow256();
    }
    let v = read_fixed(b, pos, 2)?;
    Ok(v as u16)
}

/// Reads a little-endian `i16` (the bits of a `u16`).
pub fn read_i16(b: &[u8], pos: &mut usize) -> (r: Result<i16, GgufError>)
    ensures
        old(pos) + 2 <= b@.len() ==> r == Ok::<i16, GgufError>(
            le(b@, *old(pos) as int, 2) as u16 as i16,
        ) && *final(pos) == *old(pos) + 2,
        old(pos) + 2 > b@.len() ==> r matches Err(GgufError::UnexpectedEof),
{
    let v = read_u16(b, pos)?;
    Ok(v as i16)
}

/// Reads a little-endian `u32`.
pub fn read_u32(b: &[u8], pos: &mut usize) -> (r: Result<u32, GgufError>)
    ensures
        match spec_u32(b@, *old(pos) as int) {
            Ok((v, q)) => r == Ok::<u32, GgufError>(v) && *final(pos) == q,
            Err(e) => r matches Err(err) && reports(err, e),
        },
{
    proof {
        lemma_le_bound(b@, *old(pos) as int, 4);
        lemma_pow256();
    }
    let v = read_fixed(b, pos, 4)?;
    Ok(v as u32)
}

/// Reads a little-endian `i32` (the bits of a `u32`).
pub fn read_i32(b: &[u8], pos: &mut usize) -> (r: Result<i32, GgufError>)
    ensures
        match spec_u32(b@, *old(pos) as int) {
            Ok((v, q)) => r == Ok::<i32, GgufError>(v as i32) && *final(pos) == q,
            Err(e) => r matches Err(err) && reports(err, e),
        },
{
    let v = read_u32(b, pos)?;
    Ok(v as i32)
}

/// Reads a little-endian `u64`.
pub fn read_u64(b: &[u8], pos: &mut usize) -> (r: Result<u64, GgufError>)
    ensures
        match spec_u64(b@, *old(pos) as int) {
            Ok((v, q)) => r == Ok::<u64, GgufError>(v) && *final(pos) == q,
            Err(e) => r matches Err(err) && reports(err, e),
        },
{
    read_fixed(b, pos, 8)
}

/// Reads a little-endian `i64` (the bits of a `u64`).
pub fn read_i64(b: &[u8], pos: &mut usize) -> (r: Result<i64, GgufError>)
    ensures
        match spec_u64(b@, *old(pos) as int) {
            Ok((v, q)) => r == Ok::<i64, GgufError>(v as i64) && *final(pos) == q,
            Err(e) => r matches Err(err) && reports(err, e),
        },
{
    let v = read_u64(b, pos)?;
    Ok(v as i64)
}

/// Reads a length-prefixed UTF-8 string.
pub fn read_string(b: &[u8], pos: &mut usize) -> (r: Result<String, GgufError>)
    ensures
        match spec_string(b@, *old(pos) as int) {
            Ok((s, q)) => r matches Ok(x) && x@ == s && *final(pos) == q,
            Err(e) => r matches Err(err) && reports(err, e),
        },
{
    let len = read_u64(b, pos)? as usize;
    if *pos > b.len() || b.len() - *pos < len {
        return Err(GgufError::UnexpectedEof);
    }
    let mut buf: Vec<u8> = Vec::new();
    let start = *pos;
    let mut i: usize = 0;
    while i < len
        invariant
            start + len <= b.len(),
            i <= len,
            buf@ == b@.subrange(start as int, (start + i) as int),
        decreases len - i,
    {
        buf.push(b[start + i]);
        i = i + 1;
    }
    *pos = start + len;
    match string_from_utf8(buf) {
        Ok(s) => Ok(s),
        Err(m) => Err(GgufError::Parse(m)),
    }
}

/// Reads a scalar of type `t`, or reports an unknown element type.
pub fn read_array_element(b: &[u8], pos: &mut usize, t: u32) -> (r: Result<GgufScalar, GgufError>)
    ensures
        is_scalar_type(t) ==> match spec_scalar(t, b@, *old(pos) as int) {
            Ok((x, q)) => r matches Ok(v) && v@ == x && *final(pos) == q,
            Err(e) => r matches Err(err) && reports(err, e),
        },
        !is_scalar_type(t) ==> (r matches Err(GgufError::Parse(m)) && m@
            == "unknown GGUF array element type: "@ + decimal(t as nat)),
{
    proof {
        lemma_pow256();
        lemma_le_bound(b@, *old(pos) as int, fixed_width(t));
        reveal_with_fuel(le, 2);
    }
    if t == GGUF_TYPE_UINT8 {
        Ok(GgufScalar::U8(read_u8(b, pos)?))
    } else if t == GGUF_TYPE_INT8 {
        Ok(GgufScalar::I8(read_i8(b, pos)?))
    } else if t == GGUF_TYPE_UINT16 {
        Ok(GgufScalar::U16(read_u16(b, pos)?))
    } else if t == GGUF_TYPE_INT16 {
        Ok(GgufScalar::I16(read_i16(b, pos)?))
    } else if t == GGUF_TYPE_UINT32 {
        Ok(GgufScalar::U32(read_u32(b, pos)?))
    } else if t == GGUF_TYPE_INT32 {
        Ok(GgufScalar::I32(read_i32(b, pos)?))
    } else if t == GGUF_TYPE_FLOAT32 {
        Ok(GgufScalar::F32(read_u32(b, pos)?))
    } else if t == GGUF_TYPE_BOOL {
        Ok(GgufScalar::Bool(read_u8(b, pos)? != 0))
    } else if t == GGUF_TYPE_STRING {
        Ok(GgufScalar::String(read_string(b, pos)?))
    } else if t == GGUF_TYPE_UINT64 {
        Ok(GgufScalar::U64(read_u64(b, pos)?))
    } else if t == GGUF_TYPE_INT64 {
        Ok(GgufScalar::I64(read_i64(b, pos)?))
    } else if t == GGUF_TYPE_FLOAT64 {
        Ok(GgufScalar::F64(read_u64(b, pos)?))
    } else {
        Err(GgufError::Parse(message_with_number("unknown GGUF array element type: ", t as u64)))
    }
}

/// Reads a type-tagged metadata value.
pub fn read_value(b: &[u8], pos: &mut usize) -> (r: Result<GgufValue, GgufError>)
    ensures
        match spec_value(b@, *old(pos) as int) {
            Ok((v, q)) => r matches Ok(x) && x@ == v && *final(pos) == q,
            Err(e) => r matches Err(err) && reports(err, e),
        },
{
    let ghost p0 = *pos as int;
    let t = read_u32(b, pos)?;
    if t == GGUF_TYPE_ARRAY {
        let et = read_u32(b, pos)?;
        let len64 = read_u64(b, pos)?;
        let len = len64 as usize;
        let ghost q2 = *pos as int;
        let mut arr: Vec<GgufScalar> = Vec::new();
        let mut i: usize = 0;
        while i < len
            invariant
                p0 == *old(pos) as int,
                i <= len,
                i > 0 ==> is_scalar_type(et),
                len > 0 && !is_scalar_type(et) ==> spec_value(b@, p0) == Err::<
                    (ValueModel, int),
                    ReadError,
                >(ReadError::Parse("unknown GGUF array element type: "@ + decimal(et as nat))),
                len > 0 && is_scalar_type(et) ==> spec_value(b@, p0) == wrap_array(
                    spec_elements(et, b@, q2, len as nat),
                ),
                spec_elements(et, b@, q2, len as nat) == extend_elements(
                    scalar_views(arr@),
                    spec_elements(et, b@, *pos as int, (len - i) as nat),
                ),
            decreases len - i,
        {
            let ghost before = *pos as int;
            let x = match read_array_element(b, pos, et) {
                Ok(x) => x,
                Err(err) => {
                    proof {
                        if is_scalar_type(et) {
                            let n = (len - i) as nat;
                            assert(spec_elements(et, b@, before, n) is Err);
                        }
                    }
                    return Err(err);
                },
            };
            proof {
                let n = (len - i) as nat;
                assert(spec_elements(et, b@, before, n) == extend_elements(
                    seq![x@],
                    spec_elements(et, b@, *pos as int, (n - 1) as nat),
                ));
                assert(scalar_views(arr@.push(x)) == scalar_views(arr@) + seq![x@]);
                match spec_elements(et, b@, *pos as int, (n - 1) as nat) {
                    Ok((xs, r)) => {
                        assert(scalar_views(arr@) + (seq![x@] + xs) == (scalar_views(arr@)
                            + seq![x@]) + xs);
                    },
                    Err(e) => {},
                }
            }
            arr.push(x);
            i = i + 1;
        }
        proof {
            assert(scalar_views(arr@) + Seq::<ScalarModel>::empty() == scalar_views(arr@));
            if len == 0 {
                assert(scalar_views(arr@) == Seq::<ScalarModel>::empty());
            }
        }
        Ok(GgufValue::Array(arr))
    } else if t <= 12 {
        let x = read_array_element(b, pos, t)?;
        Ok(GgufValue::Scalar(x))
    } else {
        Err(GgufError::Parse(message_with_number("unknown GGUF metadata type: ", t as u64)))
    }
}

/// An array value from the elements read, or their error.
pub open spec fn wrap_array(r: Read<Seq<ScalarModel>>) -> Read<ValueModel> {
    match r {
        Err(e) => Err(e),
        Ok((xs, q)) => Ok((ValueModel::Array(xs), q)),
    }
}

/// `done` followed by the elements that `rest` reads, or `rest`'s error.
pub open spec fn extend_elements(done: Seq<ScalarModel>, rest: Read<Seq<ScalarModel>>) -> Read<
    Seq<ScalarModel>,
> {
    match rest {
        Err(e) => Err(e),
        Ok((xs, r)) => Ok((done + xs, r)),
    }
}

/// `done` followed by what `rest` reads, or `rest`'s error.
pub open spec fn extend<T>(done: Seq<T>, rest: Read<Seq<T>>) -> Read<Seq<T>> {
    match rest {
        Err(e) => Err(e),
        Ok((xs, r)) => Ok((done + xs, r)),
    }
}

proof fn lemma_extend_step<T>(done: Seq<T>, x: T, rest: Read<Seq<T>>)
    ensures
        extend(done, extend(seq![x], rest)) == extend(done.push(x), rest),
{
    match rest {
        Ok((xs, r)) => {
            assert(done + (seq![x] + xs) == done.push(x) + xs);
        },
        Err(e) => {},
    }
}

proof fn lemma_extend_empty<T>(done: Seq<T>, r: int)
    ensures
        extend(done, Ok((Seq::<T>::empty(), r))) == Ok::<(Seq<T>, int), ReadError>((done, r)),
{
    assert(done + Seq::<T>::empty() == done);
}

/// The description of one tensor in a GGUF header.
#[derive(Debug, Clone)]
pub struct GgufTensorInfo {
    pub name: String,
    pub n_dims: u32,
    pub dims: Vec<u64>,
    pub tensor_type: u32,
    pub offset: u64,
}

impl View for GgufTensorInfo {
    type V = TensorInfoModel;

    open spec fn view(&self) -> TensorInfoModel {
        TensorInfoModel {
            name: self.name@,
            n_dims: self.n_dims,
            dims: self.dims@,
            tensor_type: self.tensor_type,
            offset: self.offset,
        }
    }
}

/// The views of the metadata entries.
pub open spec fn metadata_views(v: Seq<(String, GgufValue)>) -> Seq<(Seq<char>, ValueModel)> {
    v.map_values(|kv: (String, GgufValue)| (kv.0@, kv.1@))
}

/// The views of the tensor infos.
pub open spec fn info_views(v: Seq<GgufTensorInfo>) -> Seq<TensorInfoModel> {
    v.map_values(|t: GgufTensorInfo| t@)
}

/// Reads `n` metadata key/value pairs.
fn read_metadata(b: &[u8], pos: &mut usize, n: u64) -> (r: Result<Vec<(String, GgufValue)>, GgufError>)
    ensures
        match spec_metadata(b@, *old(pos) as int, n as usize as nat) {
            Ok((kvs, q)) => r matches Ok(x) && metadata_views(x@) == kvs && *final(pos) == q,
            Err(e) => r matches Err(err) && reports(err, e),
        },
{
    let ghost p0 = *pos as int;
    let count = n as usize;
    let mut out: Vec<(String, GgufValue)> = Vec::new();
    let mut i: usize = 0;
    proof {
        lemma_extend_empty(metadata_views(out@), p0);
        assert(metadata_views(out@) == Seq::<(Seq<char>, ValueModel)>::empty());
        assert(extend(Seq::<(Seq<char>, ValueModel)>::empty(), spec_metadata(b@, p0, count as nat))
            == spec_metadata(b@, p0, count as nat)) by {
            match spec_metadata(b@, p0, count as nat) {
                Ok((kvs, q)) => {
                    assert(Seq::<(Seq<char>, ValueModel)>::empty() + kvs == kvs);
                },
                Err(e) => {},
            }
        }
    }
    while i < count
        invariant
            p0 == *old(pos) as int,
            count == n as usize,
            i <= count,
            spec_metadata(b@, p0, count as nat) == extend(
                metadata_views(out@),
                spec_metadata(b@, *pos as int, (count - i) as nat),
            ),
        decreases count - i,
    {
        let ghost before = *pos as int;
        let key = match read_string(b, pos) {
            Ok(k) => k,
            Err(err) => {
                assert(spec_metadata(b@, before, (count - i) as nat) is Err);
                return Err(err);
            },
        };
        let value = match read_value(b, pos) {
            Ok(v) => v,
            Err(err) => {
                assert(spec_metadata(b@, before, (count - i) as nat) is Err);
                return Err(err);
            },
        };
        proof {
            let m = (count - i) as nat;
            assert(spec_metadata(b@, before, m) == extend(
                seq![(key@, value@)],
                spec_metadata(b@, *pos as int, (m - 1) as nat),
            ));
            lemma_extend_step(
                metadata_views(out@),
                (key@, value@),
                spec_metadata(b@, *pos as int, (m - 1) as nat),
            );
            assert(metadata_views(out@.push((key, value))) == metadata_views(out@).push(
                (key@, value@),
            ));
        }
        out.push((key, value));
        i = i + 1;
    }
    proof {
        lemma_extend_empty(metadata_views(out@), *pos as int);
    }
    Ok(out)
}

/// Reads `n` little-endian `u64` dimensions.
fn read_dims(b: &[u8], pos: &mut usize, n: u32) -> (r: Result<Vec<u64>, GgufError>)
    ensures
        match spec_dims(b@, *old(pos) as int, n as nat) {
            Ok((ds, q)) => r matches Ok(x) && x@ == ds && *final(pos) == q,
            Err(e) => r matches Err(err) && reports(err, e),
        },
{
    let ghost p0 = *pos as int;
    let mut out: Vec<u64> = Vec::new();
    let mut i: u32 = 0;
    proof {
        match spec_dims(b@, p0, n as nat) {
            Ok((ds, q)) => {
                assert(Seq::<u64>::empty() + ds == ds);
            },
            Err(e) => {},
        }
    }
    while i < n
        invariant
            p0 == *old(pos) as int,
            i <= n,
            spec_dims(b@, p0, n as nat) == extend(out@, spec_dims(b@, *pos as int, (n - i) as nat)),
        decreases n - i,
    {
        let ghost before = *pos as int;
        let d = match read_u64(b, pos) {
            Ok(d) => d,
            Err(err) => {
                assert(spec_dims(b@, before, (n - i) as nat) is Err);
                return Err(err);
            },
        };
        proof {
            let m = (n - i) as nat;
            lemma_extend_step(out@, d, spec_dims(b@, *pos as int, (m - 1) as nat));
        }
        out.push(d);
        i = i + 1;
    }
    proof {
        lemma_extend_empty(out@, *pos as int);
    }
    Ok(out)
}

/// Reads one tensor info record.
fn read_tensor_info(b: &[u8], pos: &mut usize) -> (r: Result<GgufTensorInfo, GgufError>)
    ensures
        match spec_tensor_info(b@, *old(pos) as int) {
            Ok((t, q)) => r matches Ok(x) && x@ == t && *final(pos) == q,
            Err(e) => r matches Err(err) && reports(err, e),
        },
{
    let name = read_string(b, pos)?;
    let n_dims = read_u32(b, pos)?;
    let dims = read_dims(b, pos, n_dims)?;
    let tensor_type = read_u32(b, pos)?;
    let offset = read_u64(b, pos)?;
    Ok(GgufTensorInfo { name, n_dims, dims, tensor_type, offset })
}

/// Reads `n` tensor info records.
fn read_tensor_infos(b: &[u8], pos: &mut usize, n: u64) -> (r: Result<Vec<GgufTensorInfo>, GgufError>)
    ensures
        match spec_tensor_infos(b@, *old(pos) as int, n as usize as nat) {
            Ok((ts, q)) => r matches Ok(x) && info_views(x@) == ts && *final(pos) == q,
            Err(e) => r matches Err(err) && reports(err, e),
        },
{
    let ghost p0 = *pos as int;
    let count = n as usize;
    let mut out: Vec<GgufTensorInfo> = Vec::new();
    let mut i: usize = 0;
    proof {
        assert(info_views(out@) == Seq::<TensorInfoModel>::empty());
        match spec_tensor_infos(b@, p0, count as nat) {
            Ok((ts, q)) => {
                assert(Seq::<TensorInfoModel>::empty() + ts == ts);
            },
            Err(e) => {},
        }
    }
    while i < count
        invariant
            p0 == *old(pos) as int,
            count == n as usize,
            i <= count,
            spec_tensor_infos(b@, p0, count as nat) == extend(
                info_views(out@),
                spec_tensor_infos(b@, *pos as int, (count - i) as nat),
            ),
        decreases count - i,
    {
        let ghost before = *pos as int;
        let t = match read_tensor_info(b, pos) {
            Ok(t) => t,
            Err(err) => {
                assert(spec_tensor_infos(b@, before, (count - i) as nat) is Err);
                return Err(err);
            },
        };
        proof {
            let m = (count - i) as nat;
            lemma_extend_step(info_views(out@), t@, spec_tensor_infos(b@, *pos as int, (m - 1) as nat));
            assert(info_views(out@.push(t)) == info_views(out@).push(t@));
        }
        out.push(t);
        i = i + 1;
    }
    proof {
        lemma_extend_empty(info_views(out@), *pos as int);
    }
    Ok(out)
}

/// The upper-case hexadecimal digit for `d < 16`.
fn hex_digit(d: u32) -> (c: char)
    requires
        d < 16,
    ensures
        c == hex_char(d as nat),
{
    if d < 10 {
        ((d + 48) as u8) as char
    } else {
        ((d + 55) as u8) as char
    }
}

/// The last `n` upper-case hexadecimal digits of `x`.
fn hex_chars(x: u64, n: usize) -> (r: Vec<char>)
    requires
        n <= 16,
    ensures
        r@ == hex_digits(x as nat, n as nat),
    decreases n,
{
    if n == 0 {
        Vec::new()
    } else {
        let mut r = hex_chars(x / 16, n - 1);
        r.push(hex_digit((x % 16) as u32));
        r
    }
}

/// The metadata entries as a map keeps them: one entry per key, where the
/// key first occurs, holding the value of its last entry.
fn dedup_metadata(v: Vec<(String, GgufValue)>) -> (r: Vec<(String, GgufValue)>)
    ensures
        metadata_views(r@) == dedup_kvs(metadata_views(v@)),
{
    let ghost all = metadata_views(v@);
    let mut rest = v;
    let mut out: Vec<(String, GgufValue)> = Vec::new();
    let ghost mut k: int = 0;
    assert(all.take(0) == Seq::<(Seq<char>, ValueModel)>::empty());
    while rest.len() > 0
        invariant
            0 <= k <= all.len(),
            all.len() == k + rest@.len(),
            metadata_views(rest@) == all.skip(k),
            metadata_views(out@) == dedup_kvs(all.take(k)),
        decreases rest@.len(),
    {
        let ghost before = rest@;
        let e = rest.remove(0);
        proof {
            assert(metadata_views(rest@) == metadata_views(before).skip(1));
            assert(all.skip(k).skip(1) == all.skip(k + 1));
            assert(metadata_views(before)[0] == (e.0@, e.1@));
            assert(all[k] == (e.0@, e.1@));
            assert(all.take(k + 1).drop_last() == all.take(k));
            assert(all.take(k + 1).last() == all[k]);
        }
        let ghost m = metadata_views(out@);
        let mut j: usize = out.len();
        let mut found = false;
        assert(m.take(j as int) == m);
        while !found && j > 0
            invariant
                j <= out@.len(),
                m == metadata_views(out@),
                !found ==> key_index(m, e.0@) == key_index(m.take(j as int), e.0@),
                found ==> j > 0 && key_index(m, e.0@) == Some(j - 1),
            decreases j, if found { 0int } else { 1int },
        {
            let ghost t = m.take(j as int);
            assert(t.last() == m[j - 1]);
            assert(t.drop_last() == m.take(j - 1));
            if crate::lql::str_eq(out[j - 1].0.as_str(), e.0.as_str()) {
                found = true;
            } else {
                j = j - 1;
            }
        }
        proof {
            if !found {
                assert(m.take(0) == Seq::<(Seq<char>, ValueModel)>::empty());
            }
        }
        if found {
            let ghost jj = j - 1;
            assert(key_index(m, e.0@) == Some(jj as int));
            out.set(j - 1, e);
            assert(metadata_views(out@) == m.update(jj as int, (e.0@, e.1@)));
        } else {
            assert(key_index(m, e.0@) is None);
            out.push(e);
            assert(metadata_views(out@) == m.push((e.0@, e.1@)));
        }
        proof {
            k = k + 1;
        }
    }
    assert(all.take(k) == all);
    out
}

/// Reads a GGUF header (everything before the tensor data) from the bytes
/// of a file.
fn parse_header(b: &[u8]) -> (r: Result<GgufFile, GgufError>)
    requires
        b@.len() <= isize::MAX,
    ensures
        match spec_parse_header(b@) {
            Ok(h) => r matches Ok(f) && f.model() == h,
            Err(e) => r matches Err(err) && reports(err, e),
        },
{
    let mut pos: usize = 0;
    let magic = read_u32(b, &mut pos)?;
    if magic != GGUF_MAGIC {
        let mut m = String::from_str("not a GGUF file (magic: 0x");
        let hx = hex_chars(magic as u64, 8);
        push_chars(&mut m, hx.as_slice());
        m.append(", expected 0x46554747)");
        return Err(GgufError::Parse(m));
    }
    let version = read_u32(b, &mut pos)?;
    if !(2 <= version && version <= 3) {
        return Err(GgufError::Parse(message_with_number("unsupported GGUF version: ", version as u64)));
    }
    let n_tensors = read_u64(b, &mut pos)?;
    let n_metadata = read_u64(b, &mut pos)?;
    let ghost p3 = pos as int;
    let entries = read_metadata(b, &mut pos, n_metadata)?;
    proof {
        lemma_metadata_in_bounds(b@, p3, n_metadata as usize as nat);
        lemma_dedup_alignment(metadata_views(entries@));
    }
    let metadata = dedup_metadata(entries);
    let ghost p4 = pos as int;
    let tensor_infos = read_tensor_infos(b, &mut pos, n_tensors)?;
    proof {
        lemma_tensor_infos_in_bounds(b@, p4, n_tensors as usize as nat);
    }
    let mut file = GgufFile { metadata, tensor_infos, data_offset: 0 };
    let alignment = file.alignment();
    let p = pos as u64;
    let rounded = p / alignment + if p % alignment != 0 {
        1u64
    } else {
        0u64
    };
    proof {
        assert(pos <= b@.len());
        lemma_align_up(p as nat, alignment as nat);
    }
    file.data_offset = rounded * alignment;
    Ok(file)
}

proof fn lemma_align_up(p: nat, a: nat)
    requires
        a > 0,
        a <= u64::MAX,
        p <= isize::MAX,
    ensures
        (p / a + (if p % a != 0 { 1int } else { 0int })) * a == align_up(p, a),
        align_up(p, a) <= u64::MAX,
{
    let q = p / a;
    let r = p % a;
    assert(p == q * a + r) by (nonlinear_arith)
        requires
            a > 0,
            q == p / a,
            r == p % a,
    ;
    assert(0 <= r < a) by (nonlinear_arith)
        requires
            a > 0,
            r == p % a,
    ;
    if r != 0 {
        assert((p + a - 1) / a as int == q + 1) by (nonlinear_arith)
            requires
                a > 0,
                p == q * a + r,
                0 < r < a,
        ;
    } else {
        assert((p + a - 1) / a as int == q) by (nonlinear_arith)
            requires
                a > 0,
                p == q * a,
        ;
    }
    if a >= p {
        assert(q <= 1) by (nonlinear_arith)
            requires
                a > 0,
                a >= p,
                q == p / a,
        ;
        assert((q + (if r != 0 { 1int } else { 0int })) * a <= a) by (nonlinear_arith)
            requires
                q <= 1,
                p == q * a + r,
                0 <= r < a,
                a >= p,
        ;
    } else {
        assert((q + (if r != 0 { 1int } else { 0int })) * a <= p + a) by (nonlinear_arith)
            requires
                p == q * a + r,
                0 <= r < a,
        ;
    }
}

/// A parsed GGUF header: the metadata (one entry per key, in the order the
/// keys first occur in the file), the tensor infos, and the byte offset at
/// which tensor data starts.
pub struct GgufFile {
    pub metadata: Vec<(String, GgufValue)>,
    pub tensor_infos: Vec<GgufTensorInfo>,
    pub data_offset: u64,
}

impl GgufFile {
    /// The mathematical content of the header.
    pub open spec fn model(&self) -> HeaderModel {
        HeaderModel {
            metadata: metadata_views(self.metadata@),
            tensor_infos: info_views(self.tensor_infos@),
            data_offset: self.data_offset as nat,
        }
    }

    /// Reads a GGUF header from the bytes of a GGUF file: the magic, a
    /// version of 2 or 3, the counts, the metadata and the tensor infos.
    /// Tensor data starts at the first multiple of the alignment (the
    /// positive integer `general.alignment`, else 32) at or after the end
    /// of the header. A key that occurs more than once keeps one entry, with
    /// the value of its last occurrence. The first error met in reading
    /// order is reported.
    pub fn parse(bytes: &[u8]) -> (r: Result<GgufFile, GgufError>)
        requires
            bytes@.len() <= isize::MAX,
        ensures
            match spec_parse_header(bytes@) {
                Ok(h) => r matches Ok(f) && f.model() == h,
                Err(e) => r matches Err(err) && reports(err, e),
            },
    {
        parse_header(bytes)
    }

    /// The value of metadata key `key` (the last entry with that key, as a
    /// map keeps it).
    pub fn get(&self, key: &str) -> (r: Option<&GgufValue>)
        ensures
            match lookup(metadata_views(self.metadata@), key@) {
                Some(v) => r matches Some(x) && x@ == v,
                None => r is None,
            },
    {
        let ghost kvs = metadata_views(self.metadata@);
        let mut i: usize = self.metadata.len();
        assert(kvs.take(i as int) == kvs);
        while i > 0
            invariant
                i <= self.metadata@.len(),
                kvs == metadata_views(self.metadata@),
                lookup(kvs, key@) == lookup(kvs.take(i as int), key@),
            decreases i,
        {
            let ghost t = kvs.take(i as int);
            assert(t.last() == kvs[i - 1]);
            assert(t.drop_last() == kvs.take(i - 1));
            if crate::lql::str_eq(self.metadata[i - 1].0.as_str(), key) {
                return Some(&self.metadata[i - 1].1);
            }
            i = i - 1;
        }
        None
    }

    /// The alignment of the tensor data: the positive integer value of
    /// `general.alignment`, else 32.
    pub fn alignment(&self) -> (a: u64)
        ensures
            a == spec_alignment(metadata_views(self.metadata@)),
            a > 0,
    {
        match self.get("general.alignment") {
            Some(v) => match v.as_u64() {
                Some(a) => if a > 0 {
                    a
                } else {
                    GGUF_DEFAULT_ALIGNMENT
                },
                None => GGUF_DEFAULT_ALIGNMENT,
            },
            None => GGUF_DEFAULT_ALIGNMENT,
        }
    }
}

impl GgufValue {
    /// A `u32`: a `U32`, or the low 32 bits of an `I32` or `U64`.
    pub fn as_u32(&self) -> (r: Option<u32>)
        ensures
            r == match self@ {
                ValueModel::Scalar(ScalarModel::U32(x)) => Some(x),
                ValueModel::Scalar(ScalarModel::I32(x)) => Some(x as u32),
                ValueModel::Scalar(ScalarModel::U64(x)) => Some(x as u32),
                _ => None::<u32>,
            },
    {
        match self {
            GgufValue::Scalar(GgufScalar::U32(v)) => Some(*v),
            GgufValue::Scalar(GgufScalar::I32(v)) => Some(*v as u32),
            GgufValue::Scalar(GgufScalar::U64(v)) => Some(*v as u32),
            _ => None,
        }
    }

    /// A `u64`: a `U32` or `U64`, or a non-negative `I32` or `I64`.
    pub fn as_u64(&self) -> (r: Option<u64>)
        ensures
            r == model_as_u64(self@),
    {
        match self {
            GgufValue::Scalar(GgufScalar::U32(v)) => Some(*v as u64),
            GgufValue::Scalar(GgufScalar::I32(v)) => if *v >= 0 {
                Some(*v as u64)
            } else {
                None
            },
            GgufValue::Scalar(GgufScalar::U64(v)) => Some(*v),
            GgufValue::Scalar(GgufScalar::I64(v)) => if *v >= 0 {
                Some(*v as u64)
            } else {
                None
            },
            _ => None,
        }
    }

    /// The text of a `String` value.
    pub fn as_str(&self) -> (r: Option<&str>)
        ensures
            match self@ {
                ValueModel::Scalar(ScalarModel::Str(s)) => r matches Some(x) && x@ == s,
                _ => r is None,
            },
    {
        match self {
            GgufValue::Scalar(GgufScalar::String(s)) => Some(s.as_str()),
            _ => None,
        }
    }
}


// ───────────────────────── positions stay inside the bytes ─────────────────────────

proof fn lemma_string_in_bounds(b: Seq<u8>, p: int)
    ensures
        spec_string(b, p) matches Ok((_, q)) ==> p <= q <= b.len(),
{
}

proof fn lemma_scalar_in_bounds(t: u32, b: Seq<u8>, p: int)
    ensures
        spec_scalar(t, b, p) matches Ok((_, q)) ==> p <= q <= b.len(),
{
    lemma_string_in_bounds(b, p);
}

proof fn lemma_elements_in_bounds(t: u32, b: Seq<u8>, p: int, n: nat)
    ensures
        spec_elements(t, b, p, n) matches Ok((_, q)) ==> p <= q && (p <= b.len() ==> q <= b.len()),
    decreases n,
{
    if n > 0 {
        lemma_scalar_in_bounds(t, b, p);
        if let Ok((_, q)) = spec_scalar(t, b, p) {
            lemma_elements_in_bounds(t, b, q, (n - 1) as nat);
        }
    }
}

proof fn lemma_value_in_bounds(b: Seq<u8>, p: int)
    ensures
        spec_value(b, p) matches Ok((_, q)) ==> p <= q <= b.len(),
{
    if let Ok((t, q)) = spec_u32(b, p) {
        if t == GGUF_TYPE_ARRAY {
            if let Ok((et, q1)) = spec_u32(b, q) {
                if let Ok((len, q2)) = spec_u64(b, q1) {
                    lemma_elements_in_bounds(et, b, q2, len as usize as nat);
                }
            }
        } else {
            lemma_scalar_in_bounds(t, b, q);
        }
    }
}

proof fn lemma_metadata_in_bounds(b: Seq<u8>, p: int, n: nat)
    ensures
        spec_metadata(b, p, n) matches Ok((_, q)) ==> p <= q && (p <= b.len() ==> q <= b.len()),
    decreases n,
{
    if n > 0 {
        lemma_string_in_bounds(b, p);
        if let Ok((_, q)) = spec_string(b, p) {
            lemma_value_in_bounds(b, q);
            if let Ok((_, r)) = spec_value(b, q) {
                lemma_metadata_in_bounds(b, r, (n - 1) as nat);
            }
        }
    }
}

proof fn lemma_dims_in_bounds(b: Seq<u8>, p: int, n: nat)
    ensures
        spec_dims(b, p, n) matches Ok((_, q)) ==> p <= q && (p <= b.len() ==> q <= b.len()),
    decreases n,
{
    if n > 0 {
        if let Ok((_, q)) = spec_u64(b, p) {
            lemma_dims_in_bounds(b, q, (n - 1) as nat);
        }
    }
}

proof fn lemma_tensor_info_in_bounds(b: Seq<u8>, p: int)
    ensures
        spec_tensor_info(b, p) matches Ok((_, q)) ==> p <= q <= b.len(),
{
    lemma_string_in_bounds(b, p);
    if let Ok((_, q)) = spec_string(b, p) {
        if let Ok((n, q1)) = spec_u32(b, q) {
            lemma_dims_in_bounds(b, q1, n as nat);
        }
    }
}

proof fn lemma_tensor_infos_in_bounds(b: Seq<u8>, p: int, n: nat)
    ensures
        spec_tensor_infos(b, p, n) matches Ok((_, q)) ==> p <= q && (p <= b.len() ==> q <= b.len()),
    decreases n,
{
    if n > 0 {
        lemma_tensor_info_in_bounds(b, p);
        if let Ok((_, q)) = spec_tensor_info(b, p) {
            lemma_tensor_infos_in_bounds(b, q, (n - 1) as nat);
        }
    }
}

/// GGUF tensor names rewritten to the Hugging Face convention: each rule,
/// in order, replaces every occurrence of its pattern.
pub open spec fn normalized_key(name: Seq<char>) -> Seq<char> {
    let s = name;
    let s = replace_all(s, "blk."@, "layers."@);
    let s = replace_all(s, "attn_q_norm."@, "self_attn.q_norm."@);
    let s = replace_all(s, "attn_k_norm."@, "self_attn.k_norm."@);
    let s = replace_all(s, "attn_q."@, "self_attn.q_proj."@);
    let s = replace_all(s, "attn_k."@, "self_attn.k_proj."@);
    let s = replace_all(s, "attn_v."@, "self_attn.v_proj."@);
    let s = replace_all(s, "attn_output."@, "self_attn.o_proj."@);
    let s = replace_all(s, "attn_out."@, "self_attn.o_proj."@);
    let s = replace_all(s, "ffn_gate."@, "mlp.gate_proj."@);
    let s = replace_all(s, "ffn_up."@, "mlp.up_proj."@);
    let s = replace_all(s, "ffn_down."@, "mlp.down_proj."@);
    let s = replace_all(s, "post_attention_norm."@, "post_attention_layernorm."@);
    let s = replace_all(s, "attn_norm."@, "input_layernorm."@);
    let s = replace_all(s, "ffn_norm."@, "post_attention_layernorm."@);
    let s = replace_all(s, "token_embd."@, "embed_tokens."@);
    let s = replace_all(s, "output_norm."@, "norm."@);
    let s = replace_all(s, "output."@, "lm_head."@);
    s
}

/// The patterns and replacements of the renaming rules: each pattern is a
/// dot-free word that starts with no digit, followed by a dot, and each
/// replacement ends with a dot.
proof fn lemma_rule_literals()
    ensures
        "blk."@ == "blk"@.push('.') && no_dot("blk"@) && "blk"@.len() > 0 && !is_digit("blk"@[0]) && "layers."@.len() > 0 && "layers."@.last() == '.',
        "attn_q_norm."@ == "attn_q_norm"@.push('.') && no_dot("attn_q_norm"@) && "attn_q_norm"@.len() > 0 && !is_digit("attn_q_norm"@[0]) && "self_attn.q_norm."@.len() > 0 && "self_attn.q_norm."@.last() == '.',
        "attn_k_norm."@ == "attn_k_norm"@.push('.') && no_dot("attn_k_norm"@) && "attn_k_norm"@.len() > 0 && !is_digit("attn_k_norm"@[0]) && "self_attn.k_norm."@.len() > 0 && "self_attn.k_norm."@.last() == '.',
        "attn_q."@ == "attn_q"@.push('.') && no_dot("attn_q"@) && "attn_q"@.len() > 0 && !is_digit("attn_q"@[0]) && "self_attn.q_proj."@.len() > 0 && "self_attn.q_proj."@.last() == '.',
        "attn_k."@ == "attn_k"@.push('.') && no_dot("attn_k"@) && "attn_k"@.len() > 0 && !is_digit("attn_k"@[0]) && "self_attn.k_proj."@.len() > 0 && "self_attn.k_proj."@.last() == '.',
        "attn_v."@ == "attn_v"@.push('.') && no_dot("attn_v"@) && "attn_v"@.len() > 0 && !is_digit("attn_v"@[0]) && "self_attn.v_proj."@.len() > 0 && "self_attn.v_proj."@.last() == '.',
        "attn_output."@ == "attn_output"@.push('.') && no_dot("attn_output"@) && "attn_output"@.len() > 0 && !is_digit("attn_output"@[0]) && "self_attn.o_proj."@.len() > 0 && "self_attn.o_proj."@.last() == '.',
        "attn_out."@ == "attn_out"@.push('.') && no_dot("attn_out"@) && "attn_out"@.len() > 0 && !is_digit("attn_out"@[0]) && "self_attn.o_proj."@.len() > 0 && "self_attn.o_proj."@.last() == '.',
        "ffn_gate."@ == "ffn_gate"@.push('.') && no_dot("ffn_gate"@) && "ffn_gate"@.len() > 0 && !is_digit("ffn_gate"@[0]) && "mlp.gate_proj."@.len() > 0 && "mlp.gate_proj."@.last() == '.',
        "ffn_up."@ == "ffn_up"@.push('.') && no_dot("ffn_up"@) && "ffn_up"@.len() > 0 && !is_digit("ffn_up"@[0]) && "mlp.up_proj."@.len() > 0 && "mlp.up_proj."@.last() == '.',
        "ffn_down."@ == "ffn_down"@.push('.') && no_dot("ffn_down"@) && "ffn_down"@.len() > 0 && !is_digit("ffn_down"@[0]) && "mlp.down_proj."@.len() > 0 && "mlp.down_proj."@.last() == '.',
        "post_attention_norm."@ == "post_attention_norm"@.push('.') && no_dot("post_attention_norm"@) && "post_attention_norm"@.len() > 0 && !is_digit("post_attention_norm"@[0]) && "post_attention_layernorm."@.len() > 0 && "post_attention_layernorm."@.last() == '.',
        "attn_norm."@ == "attn_norm"@.push('.') && no_dot("attn_norm"@) && "attn_norm"@.len() > 0 && !is_digit("attn_norm"@[0]) && "input_layernorm."@.len() > 0 && "input_layernorm."@.last() == '.',
        "ffn_norm."@ == "ffn_norm"@.push('.') && no_dot("ffn_norm"@) && "ffn_norm"@.len() > 0 && !is_digit("ffn_norm"@[0]) && "post_attention_layernorm."@.len() > 0 && "post_attention_layernorm."@.last() == '.',
        "token_embd."@ == "token_embd"@.push('.') && no_dot("token_embd"@) && "token_embd"@.len() > 0 && !is_digit("token_embd"@[0]) && "embed_tokens."@.len() > 0 && "embed_tokens."@.last() == '.',
        "output_norm."@ == "output_norm"@.push('.') && no_dot("output_norm"@) && "output_norm"@.len() > 0 && !is_digit("output_norm"@[0]) && "norm."@.len() > 0 && "norm."@.last() == '.',
        "output."@ == "output"@.push('.') && no_dot("output"@) && "output"@.len() > 0 && !is_digit("output"@[0]) && "lm_head."@.len() > 0 && "lm_head."@.last() == '.',
{
    reveal_strlit("blk");
    reveal_strlit("blk.");
    reveal_strlit("layers.");
    assert("blk."@ =~= "blk"@.push('.'));
    reveal_strlit("attn_q_norm");
    reveal_strlit("attn_q_norm.");
    reveal_strlit("self_attn.q_norm.");
    assert("attn_q_norm."@ =~= "attn_q_norm"@.push('.'));
    reveal_strlit("attn_k_norm");
    reveal_strlit("attn_k_norm.");
    reveal_strlit("self_attn.k_norm.");
    assert("attn_k_norm."@ =~= "attn_k_norm"@.push('.'));
    reveal_strlit("attn_q");
    reveal_strlit("attn_q.");
    reveal_strlit("self_attn.q_proj.");
    assert("attn_q."@ =~= "attn_q"@.push('.'));
    reveal_strlit("attn_k");
    reveal_strlit("attn_k.");
    reveal_strlit("self_attn.k_proj.");
    assert("attn_k."@ =~= "attn_k"@.push('.'));
    reveal_strlit("attn_v");
    reveal_strlit("attn_v.");
    reveal_strlit("self_attn.v_proj.");
    assert("attn_v."@ =~= "attn_v"@.push('.'));
    reveal_strlit("attn_output");
    reveal_strlit("attn_output.");
    reveal_strlit("self_attn.o_proj.");
    assert("attn_output."@ =~= "attn_output"@.push('.'));
    reveal_strlit("attn_out");
    reveal_strlit("attn_out.");
    reveal_strlit("self_attn.o_proj.");
    assert("attn_out."@ =~= "attn_out"@.push('.'));
    reveal_strlit("ffn_gate");
    reveal_strlit("ffn_gate.");
    reveal_strlit("mlp.gate_proj.");
    assert("ffn_gate."@ =~= "ffn_gate"@.push('.'));
    reveal_strlit("ffn_up");
    reveal_strlit("ffn_up.");
    reveal_strlit("mlp.up_proj.");
    assert("ffn_up."@ =~= "ffn_up"@.push('.'));
    reveal_strlit("ffn_down");
    reveal_strlit("ffn_down.");
    reveal_strlit("mlp.down_proj.");
    assert("ffn_down."@ =~= "ffn_down"@.push('.'));
    reveal_strlit("post_attention_layernorm.");
    reveal_strlit("post_attention_norm");
    reveal_strlit("post_attention_norm.");
    assert("post_attention_norm."@ =~= "post_attention_norm"@.push('.'));
    reveal_strlit("attn_norm");
    reveal_strlit("attn_norm.");
    reveal_strlit("input_layernorm.");
    assert("attn_norm."@ =~= "attn_norm"@.push('.'));
    reveal_strlit("ffn_norm");
    reveal_strlit("ffn_norm.");
    reveal_strlit("post_attention_layernorm.");
    assert("ffn_norm."@ =~= "ffn_norm"@.push('.'));
    reveal_strlit("embed_tokens.");
    reveal_strlit("token_embd");
    reveal_strlit("token_embd.");
    assert("token_embd."@ =~= "token_embd"@.push('.'));
    reveal_strlit("norm.");
    reveal_strlit("output_norm");
    reveal_strlit("output_norm.");
    assert("output_norm."@ =~= "output_norm"@.push('.'));
    reveal_strlit("lm_head.");
    reveal_strlit("output");
    reveal_strlit("output.");
    assert("output."@ =~= "output"@.push('.'));
}

/// Law: a name is renamed part by part: whatever ends at a `.` is renamed
/// apart from what follows it, since no rule's pattern reaches across a
/// dot.
pub proof fn lemma_normalized_key_split(a: Seq<char>, b: Seq<char>)
    requires
        a.len() > 0,
        a.last() == '.',
    ensures
        normalized_key(a + b) == normalized_key(a) + normalized_key(b),
{
    lemma_rule_literals();
    let a0 = a;
    let b0 = b;
    let a1 = replace_all(a0, "blk."@, "layers."@);
    let b1 = replace_all(b0, "blk."@, "layers."@);
    assert(replace_all(a0 + b0, "blk."@, "layers."@) == a1 + b1 && a1.len() > 0 && a1.last() == '.') by {
        lemma_replace_split_at_dot(a0, b0, "blk"@, "layers."@);
        lemma_replace_keeps_final_dot(a0, "blk"@, "layers."@);
    }
    let a2 = replace_all(a1, "attn_q_norm."@, "self_attn.q_norm."@);
    let b2 = replace_all(b1, "attn_q_norm."@, "self_attn.q_norm."@);
    assert(replace_all(a1 + b1, "attn_q_norm."@, "self_attn.q_norm."@) == a2 + b2 && a2.len() > 0 && a2.last() == '.') by {
        lemma_replace_split_at_dot(a1, b1, "attn_q_norm"@, "self_attn.q_norm."@);
        lemma_replace_keeps_final_dot(a1, "attn_q_norm"@, "self_attn.q_norm."@);
    }
    let a3 = replace_all(a2, "attn_k_norm."@, "self_attn.k_norm."@);
    let b3 = replace_all(b2, "attn_k_norm."@, "self_attn.k_norm."@);
    assert(replace_all(a2 + b2, "attn_k_norm."@, "self_attn.k_norm."@) == a3 + b3 && a3.len() > 0 && a3.last() == '.') by {
        lemma_replace_split_at_dot(a2, b2, "attn_k_norm"@, "self_attn.k_norm."@);
        lemma_replace_keeps_final_dot(a2, "attn_k_norm"@, "self_attn.k_norm."@);
    }
    let a4 = replace_all(a3, "attn_q."@, "self_attn.q_proj."@);
    let b4 = replace_all(b3, "attn_q."@, "self_attn.q_proj."@);
    assert(replace_all(a3 + b3, "attn_q."@, "self_attn.q_proj."@) == a4 + b4 && a4.len() > 0 && a4.last() == '.') by {
        lemma_replace_split_at_dot(a3, b3, "attn_q"@, "self_attn.q_proj."@);
        lemma_replace_keeps_final_dot(a3, "attn_q"@, "self_attn.q_proj."@);
    }
    let a5 = replace_all(a4, "attn_k."@, "self_attn.k_proj."@);
    let b5 = replace_all(b4, "attn_k."@, "self_attn.k_proj."@);
    assert(replace_all(a4 + b4, "attn_k."@, "self_attn.k_proj."@) == a5 + b5 && a5.len() > 0 && a5.last() == '.') by {
        lemma_replace_split_at_dot(a4, b4, "attn_k"@, "self_attn.k_proj."@);
        lemma_replace_keeps_final_dot(a4, "attn_k"@, "self_attn.k_proj."@);
    }
    let a6 = replace_all(a5, "attn_v."@, "self_attn.v_proj."@);
    let b6 = replace_all(b5, "attn_v."@, "self_attn.v_proj."@);
    assert(replace_all(a5 + b5, "attn_v."@, "self_attn.v_proj."@) == a6 + b6 && a6.len() > 0 && a6.last() == '.') by {
        lemma_replace_split_at_dot(a5, b5, "attn_v"@, "self_attn.v_proj."@);
        lemma_replace_keeps_final_dot(a5, "attn_v"@, "self_attn.v_proj."@);
    }
    let a7 = replace_all(a6, "attn_output."@, "self_attn.o_proj."@);
    let b7 = replace_all(b6, "attn_output."@, "self_attn.o_proj."@);
    assert(replace_all(a6 + b6, "attn_output."@, "self_attn.o_proj."@) == a7 + b7 && a7.len() > 0 && a7.last() == '.') by {
        lemma_replace_split_at_dot(a6, b6, "attn_output"@, "self_attn.o_proj."@);
        lemma_replace_keeps_final_dot(a6, "attn_output"@, "self_attn.o_proj."@);
    }
    let a8 = replace_all(a7, "attn_out."@, "self_attn.o_proj."@);
    let b8 = replace_all(b7, "attn_out."@, "self_attn.o_proj."@);
    assert(replace_all(a7 + b7, "attn_out."@, "self_attn.o_proj."@) == a8 + b8 && a8.len() > 0 && a8.last() == '.') by {
        lemma_replace_split_at_dot(a7, b7, "attn_out"@, "self_attn.o_proj."@);
        lemma_replace_keeps_final_dot(a7, "attn_out"@, "self_attn.o_proj."@);
    }
    let a9 = replace_all(a8, "ffn_gate."@, "mlp.gate_proj."@);
    let b9 = replace_all(b8, "ffn_gate."@, "mlp.gate_proj."@);
    assert(replace_all(a8 + b8, "ffn_gate."@, "mlp.gate_proj."@) == a9 + b9 && a9.len() > 0 && a9.last() == '.') by {
        lemma_replace_split_at_dot(a8, b8, "ffn_gate"@, "mlp.gate_proj."@);
        lemma_replace_keeps_final_dot(a8, "ffn_gate"@, "mlp.gate_proj."@);
    }
    let a10 = replace_all(a9, "ffn_up."@, "mlp.up_proj."@);
    let b10 = replace_all(b9, "ffn_up."@, "mlp.up_proj."@);
    assert(replace_all(a9 + b9, "ffn_up."@, "mlp.up_proj."@) == a10 + b10 && a10.len() > 0 && a10.last() == '.') by {
        lemma_replace_split_at_dot(a9, b9, "ffn_up"@, "mlp.up_proj."@);
        lemma_replace_keeps_final_dot(a9, "ffn_up"@, "mlp.up_proj."@);
    }
    let a11 = replace_all(a10, "ffn_down."@, "mlp.down_proj."@);
    let b11 = replace_all(b10, "ffn_down."@, "mlp.down_proj."@);
    assert(replace_all(a10 + b10, "ffn_down."@, "mlp.down_proj."@) == a11 + b11 && a11.len() > 0 && a11.last() == '.') by {
        lemma_replace_split_at_dot(a10, b10, "ffn_down"@, "mlp.down_proj."@);
        lemma_replace_keeps_final_dot(a10, "ffn_down"@, "mlp.down_proj."@);
    }
    let a12 = replace_all(a11, "post_attention_norm."@, "post_attention_layernorm."@);
    let b12 = replace_all(b11, "post_attention_norm."@, "post_attention_layernorm."@);
    assert(replace_all(a11 + b11, "post_attention_norm."@, "post_attention_layernorm."@) == a12 + b12 && a12.len() > 0 && a12.last() == '.') by {
        lemma_replace_split_at_dot(a11, b11, "post_attention_norm"@, "post_attention_layernorm."@);
        lemma_replace_keeps_final_dot(a11, "post_attention_norm"@, "post_attention_layernorm."@);
    }
    let a13 = replace_all(a12, "attn_norm."@, "input_layernorm."@);
    let b13 = replace_all(b12, "attn_norm."@, "input_layernorm."@);
    assert(replace_all(a12 + b12, "attn_norm."@, "input_layernorm."@) == a13 + b13 && a13.len() > 0 && a13.last() == '.') by {
        lemma_replace_split_at_dot(a12, b12, "attn_norm"@, "input_layernorm."@);
        lemma_replace_keeps_final_dot(a12, "attn_norm"@, "input_layernorm."@);
    }
    let a14 = replace_all(a13, "ffn_norm."@, "post_attention_layernorm."@);
    let b14 = replace_all(b13, "ffn_norm."@, "post_attention_layernorm."@);
    assert(replace_all(a13 + b13, "ffn_norm."@, "post_attention_layernorm."@) == a14 + b14 && a14.len() > 0 && a14.last() == '.') by {
        lemma_replace_split_at_dot(a13, b13, "ffn_norm"@, "post_attention_layernorm."@);
        lemma_replace_keeps_final_dot(a13, "ffn_norm"@, "post_attention_layernorm."@);
    }
    let a15 = replace_all(a14, "token_embd."@, "embed_tokens."@);
    let b15 = replace_all(b14, "token_embd."@, "embed_tokens."@);
    assert(replace_all(a14 + b14, "token_embd."@, "embed_tokens."@) == a15 + b15 && a15.len() > 0 && a15.last() == '.') by {
        lemma_replace_split_at_dot(a14, b14, "token_embd"@, "embed_tokens."@);
        lemma_replace_keeps_final_dot(a14, "token_embd"@, "embed_tokens."@);
    }
    let a16 = replace_all(a15, "output_norm."@, "norm."@);
    let b16 = replace_all(b15, "output_norm."@, "norm."@);
    assert(replace_all(a15 + b15, "output_norm."@, "norm."@) == a16 + b16 && a16.len() > 0 && a16.last() == '.') by {
        lemma_replace_split_at_dot(a15, b15, "output_norm"@, "norm."@);
        lemma_replace_keeps_final_dot(a15, "output_norm"@, "norm."@);
    }
    let a17 = replace_all(a16, "output."@, "lm_head."@);
    let b17 = replace_all(b16, "output."@, "lm_head."@);
    assert(replace_all(a16 + b16, "output."@, "lm_head."@) == a17 + b17 && a17.len() > 0 && a17.last() == '.') by {
        lemma_replace_split_at_dot(a16, b16, "output"@, "lm_head."@);
        lemma_replace_keeps_final_dot(a16, "output"@, "lm_head."@);
    }
}

/// A layer number followed by its dot is left as it is.
proof fn lemma_normalized_digits(d: Seq<char>)
    requires
        d.len() > 0,
        all_digits(d),
    ensures
        normalized_key(d.push('.')) == d.push('.'),
{
    lemma_rule_literals();
    let w = d.push('.') + Seq::<char>::empty();
    assert(w =~= d.push('.'));
    let s0 = w;
    let s1 = replace_all(s0, "blk."@, "layers."@);
    assert(s1 == w) by { lemma_digits_kept(d, Seq::<char>::empty(), "blk"@, "layers."@); }
    let s2 = replace_all(s1, "attn_q_norm."@, "self_attn.q_norm."@);
    assert(s2 == w) by { lemma_digits_kept(d, Seq::<char>::empty(), "attn_q_norm"@, "self_attn.q_norm."@); }
    let s3 = replace_all(s2, "attn_k_norm."@, "self_attn.k_norm."@);
    assert(s3 == w) by { lemma_digits_kept(d, Seq::<char>::empty(), "attn_k_norm"@, "self_attn.k_norm."@); }
    let s4 = replace_all(s3, "attn_q."@, "self_attn.q_proj."@);
    assert(s4 == w) by { lemma_digits_kept(d, Seq::<char>::empty(), "attn_q"@, "self_attn.q_proj."@); }
    let s5 = replace_all(s4, "attn_k."@, "self_attn.k_proj."@);
    assert(s5 == w) by { lemma_digits_kept(d, Seq::<char>::empty(), "attn_k"@, "self_attn.k_proj."@); }
    let s6 = replace_all(s5, "attn_v."@, "self_attn.v_proj."@);
    assert(s6 == w) by { lemma_digits_kept(d, Seq::<char>::empty(), "attn_v"@, "self_attn.v_proj."@); }
    let s7 = replace_all(s6, "attn_output."@, "self_attn.o_proj."@);
    assert(s7 == w) by { lemma_digits_kept(d, Seq::<char>::empty(), "attn_output"@, "self_attn.o_proj."@); }
    let s8 = replace_all(s7, "attn_out."@, "self_attn.o_proj."@);
    assert(s8 == w) by { lemma_digits_kept(d, Seq::<char>::empty(), "attn_out"@, "self_attn.o_proj."@); }
    let s9 = replace_all(s8, "ffn_gate."@, "mlp.gate_proj."@);
    assert(s9 == w) by { lemma_digits_kept(d, Seq::<char>::empty(), "ffn_gate"@, "mlp.gate_proj."@); }
    let s10 = replace_all(s9, "ffn_up."@, "mlp.up_proj."@);
    assert(s10 == w) by { lemma_digits_kept(d, Seq::<char>::empty(), "ffn_up"@, "mlp.up_proj."@); }
    let s11 = replace_all(s10, "ffn_down."@, "mlp.down_proj."@);
    assert(s11 == w) by { lemma_digits_kept(d, Seq::<char>::empty(), "ffn_down"@, "mlp.down_proj."@); }
    let s12 = replace_all(s11, "post_attention_norm."@, "post_attention_layernorm."@);
    assert(s12 == w) by { lemma_digits_kept(d, Seq::<char>::empty(), "post_attention_norm"@, "post_attention_layernorm."@); }
    let s13 = replace_all(s12, "attn_norm."@, "input_layernorm."@);
    assert(s13 == w) by { lemma_digits_kept(d, Seq::<char>::empty(), "attn_norm"@, "input_layernorm."@); }
    let s14 = replace_all(s13, "ffn_norm."@, "post_attention_layernorm."@);
    assert(s14 == w) by { lemma_digits_kept(d, Seq::<char>::empty(), "ffn_norm"@, "post_attention_layernorm."@); }
    let s15 = replace_all(s14, "token_embd."@, "embed_tokens."@);
    assert(s15 == w) by { lemma_digits_kept(d, Seq::<char>::empty(), "token_embd"@, "embed_tokens."@); }
    let s16 = replace_all(s15, "output_norm."@, "norm."@);
    assert(s16 == w) by { lemma_digits_kept(d, Seq::<char>::empty(), "output_norm"@, "norm."@); }
    let s17 = replace_all(s16, "output."@, "lm_head."@);
    assert(s17 == w) by { lemma_digits_kept(d, Seq::<char>::empty(), "output"@, "lm_head."@); }
}

/// Text without a dot is left as it is.
proof fn lemma_normalized_plain(t: Seq<char>)
    requires
        no_dot(t),
    ensures
        normalized_key(t) == t,
{
    lemma_rule_literals();
    let s0 = t;
    let s1 = replace_all(s0, "blk."@, "layers."@);
    assert(s1 == t) by { lemma_replace_without_dot(t, "blk"@, "layers."@); }
    let s2 = replace_all(s1, "attn_q_norm."@, "self_attn.q_norm."@);
    assert(s2 == t) by { lemma_replace_without_dot(t, "attn_q_norm"@, "self_attn.q_norm."@); }
    let s3 = replace_all(s2, "attn_k_norm."@, "self_attn.k_norm."@);
    assert(s3 == t) by { lemma_replace_without_dot(t, "attn_k_norm"@, "self_attn.k_norm."@); }
    let s4 = replace_all(s3, "attn_q."@, "self_attn.q_proj."@);
    assert(s4 == t) by { lemma_replace_without_dot(t, "attn_q"@, "self_attn.q_proj."@); }
    let s5 = replace_all(s4, "attn_k."@, "self_attn.k_proj."@);
    assert(s5 == t) by { lemma_replace_without_dot(t, "attn_k"@, "self_attn.k_proj."@); }
    let s6 = replace_all(s5, "attn_v."@, "self_attn.v_proj."@);
    assert(s6 == t) by { lemma_replace_without_dot(t, "attn_v"@, "self_attn.v_proj."@); }
    let s7 = replace_all(s6, "attn_output."@, "self_attn.o_proj."@);
    assert(s7 == t) by { lemma_replace_without_dot(t, "attn_output"@, "self_attn.o_proj."@); }
    let s8 = replace_all(s7, "attn_out."@, "self_attn.o_proj."@);
    assert(s8 == t) by { lemma_replace_without_dot(t, "attn_out"@, "self_attn.o_proj."@); }
    let s9 = replace_all(s8, "ffn_gate."@, "mlp.gate_proj."@);
    assert(s9 == t) by { lemma_replace_without_dot(t, "ffn_gate"@, "mlp.gate_proj."@); }
    let s10 = replace_all(s9, "ffn_up."@, "mlp.up_proj."@);
    assert(s10 == t) by { lemma_replace_without_dot(t, "ffn_up"@, "mlp.up_proj."@); }
    let s11 = replace_all(s10, "ffn_down."@, "mlp.down_proj."@);
    assert(s11 == t) by { lemma_replace_without_dot(t, "ffn_down"@, "mlp.down_proj."@); }
    let s12 = replace_all(s11, "post_attention_norm."@, "post_attention_layernorm."@);
    assert(s12 == t) by { lemma_replace_without_dot(t, "post_attention_norm"@, "post_attention_layernorm."@); }
    let s13 = replace_all(s12, "attn_norm."@, "input_layernorm."@);
    assert(s13 == t) by { lemma_replace_without_dot(t, "attn_norm"@, "input_layernorm."@); }
    let s14 = replace_all(s13, "ffn_norm."@, "post_attention_layernorm."@);
    assert(s14 == t) by { lemma_replace_without_dot(t, "ffn_norm"@, "post_attention_layernorm."@); }
    let s15 = replace_all(s14, "token_embd."@, "embed_tokens."@);
    assert(s15 == t) by { lemma_replace_without_dot(t, "token_embd"@, "embed_tokens."@); }
    let s16 = replace_all(s15, "output_norm."@, "norm."@);
    assert(s16 == t) by { lemma_replace_without_dot(t, "output_norm"@, "norm."@); }
    let s17 = replace_all(s16, "output."@, "lm_head."@);
    assert(s17 == t) by { lemma_replace_without_dot(t, "output"@, "lm_head."@); }
}

/// `blk.` is renamed `layers.`.
proof fn lemma_normalized_word_blk()
    ensures
        normalized_key("blk."@) == "layers."@,
{
    lemma_rule_literals();
    reveal_strlit("attn_k");
    reveal_strlit("attn_k_norm");
    reveal_strlit("attn_norm");
    reveal_strlit("attn_out");
    reveal_strlit("attn_output");
    reveal_strlit("attn_q");
    reveal_strlit("attn_q_norm");
    reveal_strlit("attn_v");
    reveal_strlit("blk");
    reveal_strlit("blk.");
    reveal_strlit("ffn_down");
    reveal_strlit("ffn_gate");
    reveal_strlit("ffn_norm");
    reveal_strlit("ffn_up");
    reveal_strlit("layers");
    reveal_strlit("layers.");
    reveal_strlit("output");
    reveal_strlit("output_norm");
    reveal_strlit("post_attention_norm");
    reveal_strlit("token_embd");
    assert(no_dot("attn_k"@));
    assert(no_dot("attn_k_norm"@));
    assert(no_dot("attn_norm"@));
    assert(no_dot("attn_out"@));
    assert(no_dot("attn_output"@));
    assert(no_dot("attn_q"@));
    assert(no_dot("attn_q_norm"@));
    assert(no_dot("attn_v"@));
    assert(no_dot("blk"@));
    assert(no_dot("ffn_down"@));
    assert(no_dot("ffn_gate"@));
    assert(no_dot("ffn_norm"@));
    assert(no_dot("ffn_up"@));
    assert(no_dot("layers"@));
    assert(no_dot("output"@));
    assert(no_dot("output_norm"@));
    assert(no_dot("post_attention_norm"@));
    assert(no_dot("token_embd"@));
    let s0 = "blk."@;
    assert(s0 =~= "blk"@.push('.') + (Seq::<char>::empty()));
    let s1 = replace_all(s0, "blk."@, "layers."@);
    assert(s1 == "layers"@.push('.') + (Seq::<char>::empty())) by {
        lemma_word_replaced("blk"@, Seq::<char>::empty(), "layers."@);
        assert("layers."@ + (Seq::<char>::empty()) =~= "layers"@.push('.') + (Seq::<char>::empty()));
    }
    let s2 = replace_all(s1, "attn_q_norm."@, "self_attn.q_norm."@);
    assert(s2 == "layers"@.push('.') + (Seq::<char>::empty())) by {
        lemma_word_kept("layers"@, Seq::<char>::empty(), "attn_q_norm"@, "self_attn.q_norm."@, 0);
    }
    let s3 = replace_all(s2, "attn_k_norm."@, "self_attn.k_norm."@);
    assert(s3 == "layers"@.push('.') + (Seq::<char>::empty())) by {
        lemma_word_kept("layers"@, Seq::<char>::empty(), "attn_k_norm"@, "self_attn.k_norm."@, 0);
    }
    let s4 = replace_all(s3, "attn_q."@, "self_attn.q_proj."@);
    assert(s4 == "layers"@.push('.') + (Seq::<char>::empty())) by {
        lemma_word_kept("layers"@, Seq::<char>::empty(), "attn_q"@, "self_attn.q_proj."@, 0);
    }
    let s5 = replace_all(s4, "attn_k."@, "self_attn.k_proj."@);
    assert(s5 == "layers"@.push('.') + (Seq::<char>::empty())) by {
        lemma_word_kept("layers"@, Seq::<char>::empty(), "attn_k"@, "self_attn.k_proj."@, 0);
    }
    let s6 = replace_all(s5, "attn_v."@, "self_attn.v_proj."@);
    assert(s6 == "layers"@.push('.') + (Seq::<char>::empty())) by {
        lemma_word_kept("layers"@, Seq::<char>::empty(), "attn_v"@, "self_attn.v_proj."@, 0);
    }
    let s7 = replace_all(s6, "attn_output."@, "self_attn.o_proj."@);
    assert(s7 == "layers"@.push('.') + (Seq::<char>::empty())) by {
        lemma_word_kept("layers"@, Seq::<char>::empty(), "attn_output"@, "self_attn.o_proj."@, 0);
    }
    let s8 = replace_all(s7, "attn_out."@, "self_attn.o_proj."@);
    assert(s8 == "layers"@.push('.') + (Seq::<char>::empty())) by {
        lemma_word_kept("layers"@, Seq::<char>::empty(), "attn_out"@, "self_attn.o_proj."@, 0);
    }
    let s9 = replace_all(s8, "ffn_gate."@, "mlp.gate_proj."@);
    assert(s9 == "layers"@.push('.') + (Seq::<char>::empty())) by {
        lemma_word_kept("layers"@, Seq::<char>::empty(), "ffn_gate"@, "mlp.gate_proj."@, 0);
    }
    let s10 = replace_all(s9, "ffn_up."@, "mlp.up_proj."@);
    assert(s10 == "layers"@.push('.') + (Seq::<char>::empty())) by {
        lemma_word_kept("layers"@, Seq::<char>::empty(), "ffn_up"@, "mlp.up_proj."@, 0);
    }
    let s11 = replace_all(s10, "ffn_down."@, "mlp.down_proj."@);
    assert(s11 == "layers"@.push('.') + (Seq::<char>::empty())) by {
        lemma_word_kept("layers"@, Seq::<char>::empty(), "ffn_down"@, "mlp.down_proj."@, 0);
    }
    let s12 = replace_all(s11, "post_attention_norm."@, "post_attention_layernorm."@);
    assert(s12 == "layers"@.push('.') + (Seq::<char>::empty())) by {
        lemma_word_kept("layers"@, Seq::<char>::empty(), "post_attention_norm"@, "post_attention_layernorm."@, 0);
    }
    let s13 = replace_all(s12, "attn_norm."@, "input_layernorm."@);
    assert(s13 == "layers"@.push('.') + (Seq::<char>::empty())) by {
        lemma_word_kept("layers"@, Seq::<char>::empty(), "attn_norm"@, "input_layernorm."@, 0);
    }
    let s14 = replace_all(s13, "ffn_norm."@, "post_attention_layernorm."@);
    assert(s14 == "layers"@.push('.') + (Seq::<char>::empty())) by {
        lemma_word_kept("layers"@, Seq::<char>::empty(), "ffn_norm"@, "post_attention_layernorm."@, 0);
    }
    let s15 = replace_all(s14, "token_embd."@, "embed_tokens."@);
    assert(s15 == "layers"@.push('.') + (Seq::<char>::empty())) by {
        lemma_word_kept("layers"@, Seq::<char>::empty(), "token_embd"@, "embed_tokens."@, 0);
    }
    let s16 = replace_all(s15, "output_norm."@, "norm."@);
    assert(s16 == "layers"@.push('.') + (Seq::<char>::empty())) by {
        lemma_word_kept("layers"@, Seq::<char>::empty(), "output_norm"@, "norm."@, 0);
    }
    let s17 = replace_all(s16, "output."@, "lm_head."@);
    assert(s17 == "layers"@.push('.') + (Seq::<char>::empty())) by {
        lemma_word_kept("layers"@, Seq::<char>::empty(), "output"@, "lm_head."@, 0);
    }
    assert("layers"@.push('.') + (Seq::<char>::empty()) =~= "layers."@);
}

/// `attn_q.` is renamed `self_attn.q_proj.`.
proof fn lemma_normalized_word_attn_q()
    ensures
        normalized_key("attn_q."@) == "self_attn.q_proj."@,
{
    lemma_rule_literals();
    reveal_strlit("attn_k");
    reveal_strlit("attn_k_norm");
    reveal_strlit("attn_norm");
    reveal_strlit("attn_out");
    reveal_strlit("attn_output");
    reveal_strlit("attn_q");
    reveal_strlit("attn_q.");
    reveal_strlit("attn_q_norm");
    reveal_strlit("attn_v");
    reveal_strlit("blk");
    reveal_strlit("ffn_down");
    reveal_strlit("ffn_gate");
    reveal_strlit("ffn_norm");
    reveal_strlit("ffn_up");
    reveal_strlit("output");
    reveal_strlit("output_norm");
    reveal_strlit("post_attention_norm");
    reveal_strlit("q_proj");
    reveal_strlit("self_attn");
    reveal_strlit("self_attn.q_proj.");
    reveal_strlit("token_embd");
    assert(no_dot("attn_k"@));
    assert(no_dot("attn_k_norm"@));
    assert(no_dot("attn_norm"@));
    assert(no_dot("attn_out"@));
    assert(no_dot("attn_output"@));
    assert(no_dot("attn_q"@));
    assert(no_dot("attn_q_norm"@));
    assert(no_dot("attn_v"@));
    assert(no_dot("blk"@));
    assert(no_dot("ffn_down"@));
    assert(no_dot("ffn_gate"@));
    assert(no_dot("ffn_norm"@));
    assert(no_dot("ffn_up"@));
    assert(no_dot("output"@));
    assert(no_dot("output_norm"@));
    assert(no_dot("post_attention_norm"@));
    assert(no_dot("q_proj"@));
    assert(no_dot("self_attn"@));
    assert(no_dot("token_embd"@));
    let s0 = "attn_q."@;
    assert(s0 =~= "attn_q"@.push('.') + (Seq::<char>::empty()));
    let s1 = replace_all(s0, "blk."@, "layers."@);
    assert(s1 == "attn_q"@.push('.') + (Seq::<char>::empty())) by {
        lemma_word_kept("attn_q"@, Seq::<char>::empty(), "blk"@, "layers."@, 0);
    }
    let s2 = replace_all(s1, "attn_q_norm."@, "self_attn.q_norm."@);
    assert(s2 == "attn_q"@.push('.') + (Seq::<char>::empty())) by {
        lemma_word_kept("attn_q"@, Seq::<char>::empty(), "attn_q_norm"@, "self_attn.q_norm."@, 0);
    }
    let s3 = replace_all(s2, "attn_k_norm."@, "self_attn.k_norm."@);
    assert(s3 == "attn_q"@.push('.') + (Seq::<char>::empty())) by {
        lemma_word_kept("attn_q"@, Seq::<char>::empty(), "attn_k_norm"@, "self_attn.k_norm."@, 0);
    }
    let s4 = replace_all(s3, "attn_q."@, "self_attn.q_proj."@);
    assert(s4 == "self_attn"@.push('.') + ("q_proj"@.push('.') + (Seq::<char>::empty()))) by {
        lemma_word_replaced("attn_q"@, Seq::<char>::empty(), "self_attn.q_proj."@);
        assert("self_attn.q_proj."@ + (Seq::<char>::empty()) =~= "self_attn"@.push('.') + ("q_proj"@.push('.') + (Seq::<char>::empty())));
    }
    let s5 = replace_all(s4, "attn_k."@, "self_attn.k_proj."@);
    assert(s5 == "self_attn"@.push('.') + ("q_proj"@.push('.') + (Seq::<char>::empty()))) by {
        lemma_word_kept("self_attn"@, "q_proj"@.push('.') + (Seq::<char>::empty()), "attn_k"@, "self_attn.k_proj."@, 0);
        lemma_word_kept("q_proj"@, Seq::<char>::empty(), "attn_k"@, "self_attn.k_proj."@, 0);
    }
    let s6 = replace_all(s5, "attn_v."@, "self_attn.v_proj."@);
    assert(s6 == "self_attn"@.push('.') + ("q_proj"@.push('.') + (Seq::<char>::empty()))) by {
        lemma_word_kept("self_attn"@, "q_proj"@.push('.') + (Seq::<char>::empty()), "attn_v"@, "self_attn.v_proj."@, 0);
        lemma_word_kept("q_proj"@, Seq::<char>::empty(), "attn_v"@, "self_attn.v_proj."@, 0);
    }
    let s7 = replace_all(s6, "attn_output."@, "self_attn.o_proj."@);
    assert(s7 == "self_attn"@.push('.') + ("q_proj"@.push('.') + (Seq::<char>::empty()))) by {
        lemma_word_kept("self_attn"@, "q_proj"@.push('.') + (Seq::<char>::empty()), "attn_output"@, "self_attn.o_proj."@, 0);
        lemma_word_kept("q_proj"@, Seq::<char>::empty(), "attn_output"@, "self_attn.o_proj."@, 0);
    }
    let s8 = replace_all(s7, "attn_out."@, "self_attn.o_proj."@);
    assert(s8 == "self_attn"@.push('.') + ("q_proj"@.push('.') + (Seq::<char>::empty()))) by {
        lemma_word_kept("self_attn"@, "q_proj"@.push('.') + (Seq::<char>::empty()), "attn_out"@, "self_attn.o_proj."@, 0);
        lemma_word_kept("q_proj"@, Seq::<char>::empty(), "attn_out"@, "self_attn.o_proj."@, 0);
    }
    let s9 = replace_all(s8, "ffn_gate."@, "mlp.gate_proj."@);
    assert(s9 == "self_attn"@.push('.') + ("q_proj"@.push('.') + (Seq::<char>::empty()))) by {
        lemma_word_kept("self_attn"@, "q_proj"@.push('.') + (Seq::<char>::empty()), "ffn_gate"@, "mlp.gate_proj."@, 0);
        lemma_word_kept("q_proj"@, Seq::<char>::empty(), "ffn_gate"@, "mlp.gate_proj."@, 0);
    }
    let s10 = replace_all(s9, "ffn_up."@, "mlp.up_proj."@);
    assert(s10 == "self_attn"@.push('.') + ("q_proj"@.push('.') + (Seq::<char>::empty()))) by {
        lemma_word_kept("self_attn"@, "q_proj"@.push('.') + (Seq::<char>::empty()), "ffn_up"@, "mlp.up_proj."@, 1);
        lemma_word_kept("q_proj"@, Seq::<char>::empty(), "ffn_up"@, "mlp.up_proj."@, 0);
    }
    let s11 = replace_all(s10, "ffn_down."@, "mlp.down_proj."@);
    assert(s11 == "self_attn"@.push('.') + ("q_proj"@.push('.') + (Seq::<char>::empty()))) by {
        lemma_word_kept("self_attn"@, "q_proj"@.push('.') + (Seq::<char>::empty()), "ffn_down"@, "mlp.down_proj."@, 0);
        lemma_word_kept("q_proj"@, Seq::<char>::empty(), "ffn_down"@, "mlp.down_proj."@, 0);
    }
    let s12 = replace_all(s11, "post_attention_norm."@, "post_attention_layernorm."@);
    assert(s12 == "self_attn"@.push('.') + ("q_proj"@.push('.') + (Seq::<char>::empty()))) by {
        lemma_word_kept("self_attn"@, "q_proj"@.push('.') + (Seq::<char>::empty()), "post_attention_norm"@, "post_attention_layernorm."@, 0);
        lemma_word_kept("q_proj"@, Seq::<char>::empty(), "post_attention_norm"@, "post_attention_layernorm."@, 0);
    }
    let s13 = replace_all(s12, "attn_norm."@, "input_layernorm."@);
    assert(s13 == "self_attn"@.push('.') + ("q_proj"@.push('.') + (Seq::<char>::empty()))) by {
        lemma_word_kept("self_attn"@, "q_proj"@.push('.') + (Seq::<char>::empty()), "attn_norm"@, "input_layernorm."@, 0);
        lemma_word_kept("q_proj"@, Seq::<char>::empty(), "attn_norm"@, "input_layernorm."@, 0);
    }
    let s14 = replace_all(s13, "ffn_norm."@, "post_attention_layernorm."@);
    assert(s14 == "self_attn"@.push('.') + ("q_proj"@.push('.') + (Seq::<char>::empty()))) by {
        lemma_word_kept("self_attn"@, "q_proj"@.push('.') + (Seq::<char>::empty()), "ffn_norm"@, "post_attention_layernorm."@, 0);
        lemma_word_kept("q_proj"@, Seq::<char>::empty(), "ffn_norm"@, "post_attention_layernorm."@, 0);
    }
    let s15 = replace_all(s14, "token_embd."@, "embed_tokens."@);
    assert(s15 == "self_attn"@.push('.') + ("q_proj"@.push('.') + (Seq::<char>::empty()))) by {
        lemma_word_kept("self_attn"@, "q_proj"@.push('.') + (Seq::<char>::empty()), "token_embd"@, "embed_tokens."@, 0);
        lemma_word_kept("q_proj"@, Seq::<char>::empty(), "token_embd"@, "embed_tokens."@, 0);
    }
    let s16 = replace_all(s15, "output_norm."@, "norm."@);
    assert(s16 == "self_attn"@.push('.') + ("q_proj"@.push('.') + (Seq::<char>::empty()))) by {
        lemma_word_kept("self_attn"@, "q_proj"@.push('.') + (Seq::<char>::empty()), "output_norm"@, "norm."@, 0);
        lemma_word_kept("q_proj"@, Seq::<char>::empty(), "output_norm"@, "norm."@, 0);
    }
    let s17 = replace_all(s16, "output."@, "lm_head."@);
    assert(s17 == "self_attn"@.push('.') + ("q_proj"@.push('.') + (Seq::<char>::empty()))) by {
        lemma_word_kept("self_attn"@, "q_proj"@.push('.') + (Seq::<char>::empty()), "output"@, "lm_head."@, 0);
        lemma_word_kept("q_proj"@, Seq::<char>::empty(), "output"@, "lm_head."@, 0);
    }
    assert("self_attn"@.push('.') + ("q_proj"@.push('.') + (Seq::<char>::empty())) =~= "self_attn.q_proj."@);
}

/// `attn_k.` is renamed `self_attn.k_proj.`.
proof fn lemma_normalized_word_attn_k()
    ensures
        normalized_key("attn_k."@) == "self_attn.k_proj."@,
{
    lemma_rule_literals();
    reveal_strlit("attn_k");
    reveal_strlit("attn_k.");
    reveal_strlit("attn_k_norm");
    reveal_strlit("attn_norm");
    reveal_strlit("attn_out");
    reveal_strlit("attn_output");
    reveal_strlit("attn_q");
    reveal_strlit("attn_q_norm");
    reveal_strlit("attn_v");
    reveal_strlit("blk");
    reveal_strlit("ffn_down");
    reveal_strlit("ffn_gate");
    reveal_strlit("ffn_norm");
    reveal_strlit("ffn_up");
    reveal_strlit("k_proj");
    reveal_strlit("output");
    reveal_strlit("output_norm");
    reveal_strlit("post_attention_norm");
    reveal_strlit("self_attn");
    reveal_strlit("self_attn.k_proj.");
    reveal_strlit("token_embd");
    assert(no_dot("attn_k"@));
    assert(no_dot("attn_k_norm"@));
    assert(no_dot("attn_norm"@));
    assert(no_dot("attn_out"@));
    assert(no_dot("attn_output"@));
    assert(no_dot("attn_q"@));
    assert(no_dot("attn_q_norm"@));
    assert(no_dot("attn_v"@));
    assert(no_dot("blk"@));
    assert(no_dot("ffn_down"@));
    assert(no_dot("ffn_gate"@));
    assert(no_dot("ffn_norm"@));
    assert(no_dot("ffn_up"@));
    assert(no_dot("k_proj"@));
    assert(no_dot("output"@));
    assert(no_dot("output_norm"@));
    assert(no_dot("post_attention_norm"@));
    assert(no_dot("self_attn"@));
    assert(no_dot("token_embd"@));
    let s0 = "attn_k."@;
    assert(s0 =~= "attn_k"@.push('.') + (Seq::<char>::empty()));
    let s1 = replace_all(s0, "blk."@, "layers."@);
    assert(s1 == "attn_k"@.push('.') + (Seq::<char>::empty())) by {
        lemma_word_kept("attn_k"@, Seq::<char>::empty(), "blk"@, "layers."@, 0);
    }
    let s2 = replace_all(s1, "attn_q_norm."@, "self_attn.q_norm."@);
    assert(s2 == "attn_k"@.push('.') + (Seq::<char>::empty())) by {
        lemma_word_kept("attn_k"@, Seq::<char>::empty(), "attn_q_norm"@, "self_attn.q_norm."@, 0);
    }
    let s3 = replace_all(s2, "attn_k_norm."@, "self_attn.k_norm."@);
    assert(s3 == "attn_k"@.push('.') + (Seq::<char>::empty())) by {
        lemma_word_kept("attn_k"@, Seq::<char>::empty(), "attn_k_norm"@, "self_attn.k_norm."@, 0);
    }
    let s4 = replace_all(s3, "attn_q."@, "self_attn.q_proj."@);
    assert(s4 == "attn_k"@.push('.') + (Seq::<char>::empty())) by {
        lemma_word_kept("attn_k"@, Seq::<char>::empty(), "attn_q"@, "self_attn.q_proj."@, 5);
    }
    let s5 = replace_all(s4, "attn_k."@, "self_attn.k_proj."@);
    assert(s5 == "self_attn"@.push('.') + ("k_proj"@.push('.') + (Seq::<char>::empty()))) by {
        lemma_word_replaced("attn_k"@, Seq::<char>::empty(), "self_attn.k_proj."@);
        assert("self_attn.k_proj."@ + (Seq::<char>::empty()) =~= "self_attn"@.push('.') + ("k_proj"@.push('.') + (Seq::<char>::empty())));
    }
    let s6 = replace_all(s5, "attn_v."@, "self_attn.v_proj."@);
    assert(s6 == "self_attn"@.push('.') + ("k_proj"@.push('.') + (Seq::<char>::empty()))) by {
        lemma_word_kept("self_attn"@, "k_proj"@.push('.') + (Seq::<char>::empty()), "attn_v"@, "self_attn.v_proj."@, 0);
        lemma_word_kept("k_proj"@, Seq::<char>::empty(), "attn_v"@, "self_attn.v_proj."@, 0);
    }
    let s7 = replace_all(s6, "attn_output."@, "self_attn.o_proj."@);
    assert(s7 == "self_attn"@.push('.') + ("k_proj"@.push('.') + (Seq::<char>::empty()))) by {
        lemma_word_kept("self_attn"@, "k_proj"@.push('.') + (Seq::<char>::empty()), "attn_output"@, "self_attn.o_proj."@, 0);
        lemma_word_kept("k_proj"@, Seq::<char>::empty(), "attn_output"@, "self_attn.o_proj."@, 0);
    }
    let s8 = replace_all(s7, "attn_out."@, "self_attn.o_proj."@);
    assert(s8 == "self_attn"@.push('.') + ("k_proj"@.push('.') + (Seq::<char>::empty()))) by {
        lemma_word_kept("self_attn"@, "k_proj"@.push('.') + (Seq::<char>::empty()), "attn_out"@, "self_attn.o_proj."@, 0);
        lemma_word_kept("k_proj"@, Seq::<char>::empty(), "attn_out"@, "self_attn.o_proj."@, 0);
    }
    let s9 = replace_all(s8, "ffn_gate."@, "mlp.gate_proj."@);
    assert(s9 == "self_attn"@.push('.') + ("k_proj"@.push('.') + (Seq::<char>::empty()))) by {
        lemma_word_kept("self_attn"@, "k_proj"@.push('.') + (Seq::<char>::empty()), "ffn_gate"@, "mlp.gate_proj."@, 0);
        lemma_word_kept("k_proj"@, Seq::<char>::empty(), "ffn_gate"@, "mlp.gate_proj."@, 0);
    }
    let s10 = replace_all(s9, "ffn_up."@, "mlp.up_proj."@);
    assert(s10 == "self_attn"@.push('.') + ("k_proj"@.push('.') + (Seq::<char>::empty()))) by {
        lemma_word_kept("self_attn"@, "k_proj"@.push('.') + (Seq::<char>::empty()), "ffn_up"@, "mlp.up_proj."@, 1);
        lemma_word_kept("k_proj"@, Seq::<char>::empty(), "ffn_up"@, "mlp.up_proj."@, 0);
    }
    let s11 = replace_all(s10, "ffn_down."@, "mlp.down_proj."@);
    assert(s11 == "self_attn"@.push('.') + ("k_proj"@.push('.') + (Seq::<char>::empty()))) by {
        lemma_word_kept("self_attn"@, "k_proj"@.push('.') + (Seq::<char>::empty()), "ffn_down"@, "mlp.down_proj."@, 0);
        lemma_word_kept("k_proj"@, Seq::<char>::empty(), "ffn_down"@, "mlp.down_proj."@, 0);
    }
    let s12 = replace_all(s11, "post_attention_norm."@, "post_attention_layernorm."@);
    assert(s12 == "self_attn"@.push('.') + ("k_proj"@.push('.') + (Seq::<char>::empty()))) by {
        lemma_word_kept("self_attn"@, "k_proj"@.push('.') + (Seq::<char>::empty()), "post_attention_norm"@, "post_attention_layernorm."@, 0);
        lemma_word_kept("k_proj"@, Seq::<char>::empty(), "post_attention_norm"@, "post_attention_layernorm."@, 0);
    }
    let s13 = replace_all(s12, "attn_norm."@, "input_layernorm."@);
    assert(s13 == "self_attn"@.push('.') + ("k_proj"@.push('.') + (Seq::<char>::empty()))) by {
        lemma_word_kept("self_attn"@, "k_proj"@.push('.') + (Seq::<char>::empty()), "attn_norm"@, "input_layernorm."@, 0);
        lemma_word_kept("k_proj"@, Seq::<char>::empty(), "attn_norm"@, "input_layernorm."@, 0);
    }
    let s14 = replace_all(s13, "ffn_norm."@, "post_attention_layernorm."@);
    assert(s14 == "self_attn"@.push('.') + ("k_proj"@.push('.') + (Seq::<char>::empty()))) by {
        lemma_word_kept("self_attn"@, "k_proj"@.push('.') + (Seq::<char>::empty()), "ffn_norm"@, "post_attention_layernorm."@, 0);
        lemma_word_kept("k_proj"@, Seq::<char>::empty(), "ffn_norm"@, "post_attention_layernorm."@, 0);
    }
    let s15 = replace_all(s14, "token_embd."@, "embed_tokens."@);
    assert(s15 == "self_attn"@.push('.') + ("k_proj"@.push('.') + (Seq::<char>::empty()))) by {
        lemma_word_kept("self_attn"@, "k_proj"@.push('.') + (Seq::<char>::empty()), "token_embd"@, "embed_tokens."@, 0);
        lemma_word_kept("k_proj"@, Seq::<char>::empty(), "token_embd"@, "embed_tokens."@, 0);
    }
    let s16 = replace_all(s15, "output_norm."@, "norm."@);
    assert(s16 == "self_attn"@.push('.') + ("k_proj"@.push('.') + (Seq::<char>::empty()))) by {
        lemma_word_kept("self_attn"@, "k_proj"@.push('.') + (Seq::<char>::empty()), "output_norm"@, "norm."@, 0);
        lemma_word_kept("k_proj"@, Seq::<char>::empty(), "output_norm"@, "norm."@, 0);
    }
    let s17 = replace_all(s16, "output."@, "lm_head."@);
    assert(s17 == "self_attn"@.push('.') + ("k_proj"@.push('.') + (Seq::<char>::empty()))) by {
        lemma_word_kept("self_attn"@, "k_proj"@.push('.') + (Seq::<char>::empty()), "output"@, "lm_head."@, 0);
        lemma_word_kept("k_proj"@, Seq::<char>::empty(), "output"@, "lm_head."@, 0);
    }
    assert("self_attn"@.push('.') + ("k_proj"@.push('.') + (Seq::<char>::empty())) =~= "self_attn.k_proj."@);
}

/// `attn_v.` is renamed `self_attn.v_proj.`.
proof fn lemma_normalized_word_attn_v()
    ensures
        normalized_key("attn_v."@) == "self_attn.v_proj."@,
{
    lemma_rule_literals();
    reveal_strlit("attn_k");
    reveal_strlit("attn_k_norm");
    reveal_strlit("attn_norm");
    reveal_strlit("attn_out");
    reveal_strlit("attn_output");
    reveal_strlit("attn_q");
    reveal_strlit("attn_q_norm");
    reveal_strlit("attn_v");
    reveal_strlit("attn_v.");
    reveal_strlit("blk");
    reveal_strlit("ffn_down");
    reveal_strlit("ffn_gate");
    reveal_strlit("ffn_norm");
    reveal_strlit("ffn_up");
    reveal_strlit("output");
    reveal_strlit("output_norm");
    reveal_strlit("post_attention_norm");
    reveal_strlit("self_attn");
    reveal_strlit("self_attn.v_proj.");
    reveal_strlit("token_embd");
    reveal_strlit("v_proj");
    assert(no_dot("attn_k"@));
    assert(no_dot("attn_k_norm"@));
    assert(no_dot("attn_norm"@));
    assert(no_dot("attn_out"@));
    assert(no_dot("attn_output"@));
    assert(no_dot("attn_q"@));
    assert(no_dot("attn_q_norm"@));
    assert(no_dot("attn_v"@));
    assert(no_dot("blk"@));
    assert(no_dot("ffn_down"@));
    assert(no_dot("ffn_gate"@));
    assert(no_dot("ffn_norm"@));
    assert(no_dot("ffn_up"@));
    assert(no_dot("output"@));
    assert(no_dot("output_norm"@));
    assert(no_dot("post_attention_norm"@));
    assert(no_dot("self_attn"@));
    assert(no_dot("token_embd"@));
    assert(no_dot("v_proj"@));
    let s0 = "attn_v."@;
    assert(s0 =~= "attn_v"@.push('.') + (Seq::<char>::empty()));
    let s1 = replace_all(s0, "blk."@, "layers."@);
    assert(s1 == "attn_v"@.push('.') + (Seq::<char>::empty())) by {
        lemma_word_kept("attn_v"@, Seq::<char>::empty(), "blk"@, "layers."@, 0);
    }
    let s2 = replace_all(s1, "attn_q_norm."@, "self_attn.q_norm."@);
    assert(s2 == "attn_v"@.push('.') + (Seq::<char>::empty())) by {
        lemma_word_kept("attn_v"@, Seq::<char>::empty(), "attn_q_norm"@, "self_attn.q_norm."@, 0);
    }
    let s3 = replace_all(s2, "attn_k_norm."@, "self_attn.k_norm."@);
    assert(s3 == "attn_v"@.push('.') + (Seq::<char>::empty())) by {
        lemma_word_kept("attn_v"@, Seq::<char>::empty(), "attn_k_norm"@, "self_attn.k_norm."@, 0);
    }
    let s4 = replace_all(s3, "attn_q."@, "self_attn.q_proj."@);
    assert(s4 == "attn_v"@.push('.') + (Seq::<char>::empty())) by {
        lemma_word_kept("attn_v"@, Seq::<char>::empty(), "attn_q"@, "self_attn.q_proj."@, 5);
    }
    let s5 = replace_all(s4, "attn_k."@, "self_attn.k_proj."@);
    assert(s5 == "attn_v"@.push('.') + (Seq::<char>::empty())) by {
        lemma_word_kept("attn_v"@, Seq::<char>::empty(), "attn_k"@, "self_attn.k_proj."@, 5);
    }
    let s6 = replace_all(s5, "attn_v."@, "self_attn.v_proj."@);
    assert(s6 == "self_attn"@.push('.') + ("v_proj"@.push('.') + (Seq::<char>::empty()))) by {
        lemma_word_replaced("attn_v"@, Seq::<char>::empty(), "self_attn.v_proj."@);
        assert("self_attn.v_proj."@ + (Seq::<char>::empty()) =~= "self_attn"@.push('.') + ("v_proj"@.push('.') + (Seq::<char>::empty())));
    }
    let s7 = replace_all(s6, "attn_output."@, "self_attn.o_proj."@);
    assert(s7 == "self_attn"@.push('.') + ("v_proj"@.push('.') + (Seq::<char>::empty()))) by {
        lemma_word_kept("self_attn"@, "v_proj"@.push('.') + (Seq::<char>::empty()), "attn_output"@, "self_attn.o_proj."@, 0);
        lemma_word_kept("v_proj"@, Seq::<char>::empty(), "attn_output"@, "self_attn.o_proj."@, 0);
    }
    let s8 = replace_all(s7, "attn_out."@, "self_attn.o_proj."@);
    assert(s8 == "self_attn"@.push('.') + ("v_proj"@.push('.') + (Seq::<char>::empty()))) by {
        lemma_word_kept("self_attn"@, "v_proj"@.push('.') + (Seq::<char>::empty()), "attn_out"@, "self_attn.o_proj."@, 0);
        lemma_word_kept("v_proj"@, Seq::<char>::empty(), "attn_out"@, "self_attn.o_proj."@, 0);
    }
    let s9 = replace_all(s8, "ffn_gate."@, "mlp.gate_proj."@);
    assert(s9 == "self_attn"@.push('.') + ("v_proj"@.push('.') + (Seq::<char>::empty()))) by {
        lemma_word_kept("self_attn"@, "v_proj"@.push('.') + (Seq::<char>::empty()), "ffn_gate"@, "mlp.gate_proj."@, 0);
        lemma_word_kept("v_proj"@, Seq::<char>::empty(), "ffn_gate"@, "mlp.gate_proj."@, 0);
    }
    let s10 = replace_all(s9, "ffn_up."@, "mlp.up_proj."@);
    assert(s10 == "self_attn"@.push('.') + ("v_proj"@.push('.') + (Seq::<char>::empty()))) by {
        lemma_word_kept("self_attn"@, "v_proj"@.push('.') + (Seq::<char>::empty()), "ffn_up"@, "mlp.up_proj."@, 1);
        lemma_word_kept("v_proj"@, Seq::<char>::empty(), "ffn_up"@, "mlp.up_proj."@, 0);
    }
    let s11 = replace_all(s10, "ffn_down."@, "mlp.down_proj."@);
    assert(s11 == "self_attn"@.push('.') + ("v_proj"@.push('.') + (Seq::<char>::empty()))) by {
        lemma_word_kept("self_attn"@, "v_proj"@.push('.') + (Seq::<char>::empty()), "ffn_down"@, "mlp.down_proj."@, 0);
        lemma_word_kept("v_proj"@, Seq::<char>::empty(), "ffn_down"@, "mlp.down_proj."@, 0);
    }
    let s12 = replace_all(s11, "post_attention_norm."@, "post_attention_layernorm."@);
    assert(s12 == "self_attn"@.push('.') + ("v_proj"@.push('.') + (Seq::<char>::empty()))) by {
        lemma_word_kept("self_attn"@, "v_proj"@.push('.') + (Seq::<char>::empty()), "post_attention_norm"@, "post_attention_layernorm."@, 0);
        lemma_word_kept("v_proj"@, Seq::<char>::empty(), "post_attention_norm"@, "post_attention_layernorm."@, 0);
    }
    let s13 = replace_all(s12, "attn_norm."@, "input_layernorm."@);
    assert(s13 == "self_attn"@.push('.') + ("v_proj"@.push('.') + (Seq::<char>::empty()))) by {
        lemma_word_kept("self_attn"@, "v_proj"@.push('.') + (Seq::<char>::empty()), "attn_norm"@, "input_layernorm."@, 0);
        lemma_word_kept("v_proj"@, Seq::<char>::empty(), "attn_norm"@, "input_layernorm."@, 0);
    }
    let s14 = replace_all(s13, "ffn_norm."@, "post_attention_layernorm."@);
    assert(s14 == "self_attn"@.push('.') + ("v_proj"@.push('.') + (Seq::<char>::empty()))) by {
        lemma_word_kept("self_attn"@, "v_proj"@.push('.') + (Seq::<char>::empty()), "ffn_norm"@, "post_attention_layernorm."@, 0);
        lemma_word_kept("v_proj"@, Seq::<char>::empty(), "ffn_norm"@, "post_attention_layernorm."@, 0);
    }
    let s15 = replace_all(s14, "token_embd."@, "embed_tokens."@);
    assert(s15 == "self_attn"@.push('.') + ("v_proj"@.push('.') + (Seq::<char>::empty()))) by {
        lemma_word_kept("self_attn"@, "v_proj"@.push('.') + (Seq::<char>::empty()), "token_embd"@, "embed_tokens."@, 0);
        lemma_word_kept("v_proj"@, Seq::<char>::empty(), "token_embd"@, "embed_tokens."@, 0);
    }
    let s16 = replace_all(s15, "output_norm."@, "norm."@);
    assert(s16 == "self_attn"@.push('.') + ("v_proj"@.push('.') + (Seq::<char>::empty()))) by {
        lemma_word_kept("self_attn"@, "v_proj"@.push('.') + (Seq::<char>::empty()), "output_norm"@, "norm."@, 0);
        lemma_word_kept("v_proj"@, Seq::<char>::empty(), "output_norm"@, "norm."@, 0);
    }
    let s17 = replace_all(s16, "output."@, "lm_head."@);
    assert(s17 == "self_attn"@.push('.') + ("v_proj"@.push('.') + (Seq::<char>::empty()))) by {
        lemma_word_kept("self_attn"@, "v_proj"@.push('.') + (Seq::<char>::empty()), "output"@, "lm_head."@, 0);
        lemma_word_kept("v_proj"@, Seq::<char>::empty(), "output"@, "lm_head."@, 0);
    }
    assert("self_attn"@.push('.') + ("v_proj"@.push('.') + (Seq::<char>::empty())) =~= "self_attn.v_proj."@);
}

/// `attn_output.` is renamed `self_attn.o_proj.`.
proof fn lemma_normalized_word_attn_output()
    ensures
        normalized_key("attn_output."@) == "self_attn.o_proj."@,
{
    lemma_rule_literals();
    reveal_strlit("attn_k");
    reveal_strlit("attn_k_norm");
    reveal_strlit("attn_norm");
    reveal_strlit("attn_out");
    reveal_strlit("attn_output");
    reveal_strlit("attn_output.");
    reveal_strlit("attn_q");
    reveal_strlit("attn_q_norm");
    reveal_strlit("attn_v");
    reveal_strlit("blk");
    reveal_strlit("ffn_down");
    reveal_strlit("ffn_gate");
    reveal_strlit("ffn_norm");
    reveal_strlit("ffn_up");
    reveal_strlit("o_proj");
    reveal_strlit("output");
    reveal_strlit("output_norm");
    reveal_strlit("post_attention_norm");
    reveal_strlit("self_attn");
    reveal_strlit("self_attn.o_proj.");
    reveal_strlit("token_embd");
    assert(no_dot("attn_k"@));
    assert(no_dot("attn_k_norm"@));
    assert(no_dot("attn_norm"@));
    assert(no_dot("attn_out"@));
    assert(no_dot("attn_output"@));
    assert(no_dot("attn_q"@));
    assert(no_dot("attn_q_norm"@));
    assert(no_dot("attn_v"@));
    assert(no_dot("blk"@));
    assert(no_dot("ffn_down"@));
    assert(no_dot("ffn_gate"@));
    assert(no_dot("ffn_norm"@));
    assert(no_dot("ffn_up"@));
    assert(no_dot("o_proj"@));
    assert(no_dot("output"@));
    assert(no_dot("output_norm"@));
    assert(no_dot("post_attention_norm"@));
    assert(no_dot("self_attn"@));
    assert(no_dot("token_embd"@));
    let s0 = "attn_output."@;
    assert(s0 =~= "attn_output"@.push('.') + (Seq::<char>::empty()));
    let s1 = replace_all(s0, "blk."@, "layers."@);
    assert(s1 == "attn_output"@.push('.') + (Seq::<char>::empty())) by {
        lemma_word_kept("attn_output"@, Seq::<char>::empty(), "blk"@, "layers."@, 0);
    }
    let s2 = replace_all(s1, "attn_q_norm."@, "self_attn.q_norm."@);
    assert(s2 == "attn_output"@.push('.') + (Seq::<char>::empty())) by {
        lemma_word_kept("attn_output"@, Seq::<char>::empty(), "attn_q_norm"@, "self_attn.q_norm."@, 5);
    }
    let s3 = replace_all(s2, "attn_k_norm."@, "self_attn.k_norm."@);
    assert(s3 == "attn_output"@.push('.') + (Seq::<char>::empty())) by {
        lemma_word_kept("attn_output"@, Seq::<char>::empty(), "attn_k_norm"@, "self_attn.k_norm."@, 5);
    }
    let s4 = replace_all(s3, "attn_q."@, "self_attn.q_proj."@);
    assert(s4 == "attn_output"@.push('.') + (Seq::<char>::empty())) by {
        lemma_word_kept("attn_output"@, Seq::<char>::empty(), "attn_q"@, "self_attn.q_proj."@, 0);
    }
    let s5 = replace_all(s4, "attn_k."@, "self_attn.k_proj."@);
    assert(s5 == "attn_output"@.push('.') + (Seq::<char>::empty())) by {
        lemma_word_kept("attn_output"@, Seq::<char>::empty(), "attn_k"@, "self_attn.k_proj."@, 0);
    }
    let s6 = replace_all(s5, "attn_v."@, "self_attn.v_proj."@);
    assert(s6 == "attn_output"@.push('.') + (Seq::<char>::empty())) by {
        lemma_word_kept("attn_output"@, Seq::<char>::empty(), "attn_v"@, "self_attn.v_proj."@, 0);
    }
    let s7 = replace_all(s6, "attn_output."@, "self_attn.o_proj."@);
    assert(s7 == "self_attn"@.push('.') + ("o_proj"@.push('.') + (Seq::<char>::empty()))) by {
        lemma_word_replaced("attn_output"@, Seq::<char>::empty(), "self_attn.o_proj."@);
        assert("self_attn.o_proj."@ + (Seq::<char>::empty()) =~= "self_attn"@.push('.') + ("o_proj"@.push('.') + (Seq::<char>::empty())));
    }
    let s8 = replace_all(s7, "attn_out."@, "self_attn.o_proj."@);
    assert(s8 == "self_attn"@.push('.') + ("o_proj"@.push('.') + (Seq::<char>::empty()))) by {
        lemma_word_kept("self_attn"@, "o_proj"@.push('.') + (Seq::<char>::empty()), "attn_out"@, "self_attn.o_proj."@, 0);
        lemma_word_kept("o_proj"@, Seq::<char>::empty(), "attn_out"@, "self_attn.o_proj."@, 0);
    }
    let s9 = replace_all(s8, "ffn_gate."@, "mlp.gate_proj."@);
    assert(s9 == "self_attn"@.push('.') + ("o_proj"@.push('.') + (Seq::<char>::empty()))) by {
        lemma_word_kept("self_attn"@, "o_proj"@.push('.') + (Seq::<char>::empty()), "ffn_gate"@, "mlp.gate_proj."@, 0);
        lemma_word_kept("o_proj"@, Seq::<char>::empty(), "ffn_gate"@, "mlp.gate_proj."@, 0);
    }
    let s10 = replace_all(s9, "ffn_up."@, "mlp.up_proj."@);
    assert(s10 == "self_attn"@.push('.') + ("o_proj"@.push('.') + (Seq::<char>::empty()))) by {
        lemma_word_kept("self_attn"@, "o_proj"@.push('.') + (Seq::<char>::empty()), "ffn_up"@, "mlp.up_proj."@, 1);
        lemma_word_kept("o_proj"@, Seq::<char>::empty(), "ffn_up"@, "mlp.up_proj."@, 0);
    }
    let s11 = replace_all(s10, "ffn_down."@, "mlp.down_proj."@);
    assert(s11 == "self_attn"@.push('.') + ("o_proj"@.push('.') + (Seq::<char>::empty()))) by {
        lemma_word_kept("self_attn"@, "o_proj"@.push('.') + (Seq::<char>::empty()), "ffn_down"@, "mlp.down_proj."@, 0);
        lemma_word_kept("o_proj"@, Seq::<char>::empty(), "ffn_down"@, "mlp.down_proj."@, 0);
    }
    let s12 = replace_all(s11, "post_attention_norm."@, "post_attention_layernorm."@);
    assert(s12 == "self_attn"@.push('.') + ("o_proj"@.push('.') + (Seq::<char>::empty()))) by {
        lemma_word_kept("self_attn"@, "o_proj"@.push('.') + (Seq::<char>::empty()), "post_attention_norm"@, "post_attention_layernorm."@, 0);
        lemma_word_kept("o_proj"@, Seq::<char>::empty(), "post_attention_norm"@, "post_attention_layernorm."@, 0);
    }
    let s13 = replace_all(s12, "attn_norm."@, "input_layernorm."@);
    assert(s13 == "self_attn"@.push('.') + ("o_proj"@.push('.') + (Seq::<char>::empty()))) by {
        lemma_word_kept("self_attn"@, "o_proj"@.push('.') + (Seq::<char>::empty()), "attn_norm"@, "input_layernorm."@, 0);
        lemma_word_kept("o_proj"@, Seq::<char>::empty(), "attn_norm"@, "input_layernorm."@, 0);
    }
    let s14 = replace_all(s13, "ffn_norm."@, "post_attention_layernorm."@);
    assert(s14 == "self_attn"@.push('.') + ("o_proj"@.push('.') + (Seq::<char>::empty()))) by {
        lemma_word_kept("self_attn"@, "o_proj"@.push('.') + (Seq::<char>::empty()), "ffn_norm"@, "post_attention_layernorm."@, 0);
        lemma_word_kept("o_proj"@, Seq::<char>::empty(), "ffn_norm"@, "post_attention_layernorm."@, 0);
    }
    let s15 = replace_all(s14, "token_embd."@, "embed_tokens."@);
    assert(s15 == "self_attn"@.push('.') + ("o_proj"@.push('.') + (Seq::<char>::empty()))) by {
        lemma_word_kept("self_attn"@, "o_proj"@.push('.') + (Seq::<char>::empty()), "token_embd"@, "embed_tokens."@, 0);
        lemma_word_kept("o_proj"@, Seq::<char>::empty(), "token_embd"@, "embed_tokens."@, 0);
    }
    let s16 = replace_all(s15, "output_norm."@, "norm."@);
    assert(s16 == "self_attn"@.push('.') + ("o_proj"@.push('.') + (Seq::<char>::empty()))) by {
        lemma_word_kept("self_attn"@, "o_proj"@.push('.') + (Seq::<char>::empty()), "output_norm"@, "norm."@, 0);
        lemma_word_kept("o_proj"@, Seq::<char>::empty(), "output_norm"@, "norm."@, 0);
    }
    let s17 = replace_all(s16, "output."@, "lm_head."@);
    assert(s17 == "self_attn"@.push('.') + ("o_proj"@.push('.') + (Seq::<char>::empty()))) by {
        lemma_word_kept("self_attn"@, "o_proj"@.push('.') + (Seq::<char>::empty()), "output"@, "lm_head."@, 0);
        lemma_word_kept("o_proj"@, Seq::<char>::empty(), "output"@, "lm_head."@, 1);
    }
    assert("self_attn"@.push('.') + ("o_proj"@.push('.') + (Seq::<char>::empty())) =~= "self_attn.o_proj."@);
}

/// `attn_out.` is renamed `self_attn.o_proj.`.
proof fn lemma_normalized_word_attn_out()
    ensures
        normalized_key("attn_out."@) == "self_attn.o_proj."@,
{
    lemma_rule_literals();
    reveal_strlit("attn_k");
    reveal_strlit("attn_k_norm");
    reveal_strlit("attn_norm");
    reveal_strlit("attn_out");
    reveal_strlit("attn_out.");
    reveal_strlit("attn_output");
    reveal_strlit("attn_q");
    reveal_strlit("attn_q_norm");
    reveal_strlit("attn_v");
    reveal_strlit("blk");
    reveal_strlit("ffn_down");
    reveal_strlit("ffn_gate");
    reveal_strlit("ffn_norm");
    reveal_strlit("ffn_up");
    reveal_strlit("o_proj");
    reveal_strlit("output");
    reveal_strlit("output_norm");
    reveal_strlit("post_attention_norm");
    reveal_strlit("self_attn");
    reveal_strlit("self_attn.o_proj.");
    reveal_strlit("token_embd");
    assert(no_dot("attn_k"@));
    assert(no_dot("attn_k_norm"@));
    assert(no_dot("attn_norm"@));
    assert(no_dot("attn_out"@));
    assert(no_dot("attn_output"@));
    assert(no_dot("attn_q"@));
    assert(no_dot("attn_q_norm"@));
    assert(no_dot("attn_v"@));
    assert(no_dot("blk"@));
    assert(no_dot("ffn_down"@));
    assert(no_dot("ffn_gate"@));
    assert(no_dot("ffn_norm"@));
    assert(no_dot("ffn_up"@));
    assert(no_dot("o_proj"@));
    assert(no_dot("output"@));
    assert(no_dot("output_norm"@));
    assert(no_dot("post_attention_norm"@));
    assert(no_dot("self_attn"@));
    assert(no_dot("token_embd"@));
    let s0 = "attn_out."@;
    assert(s0 =~= "attn_out"@.push('.') + (Seq::<char>::empty()));
    let s1 = replace_all(s0, "blk."@, "layers."@);
    assert(s1 == "attn_out"@.push('.') + (Seq::<char>::empty())) by {
        lemma_word_kept("attn_out"@, Seq::<char>::empty(), "blk"@, "layers."@, 0);
    }
    let s2 = replace_all(s1, "attn_q_norm."@, "self_attn.q_norm."@);
    assert(s2 == "attn_out"@.push('.') + (Seq::<char>::empty())) by {
        lemma_word_kept("attn_out"@, Seq::<char>::empty(), "attn_q_norm"@, "self_attn.q_norm."@, 0);
    }
    let s3 = replace_all(s2, "attn_k_norm."@, "self_attn.k_norm."@);
    assert(s3 == "attn_out"@.push('.') + (Seq::<char>::empty())) by {
        lemma_word_kept("attn_out"@, Seq::<char>::empty(), "attn_k_norm"@, "self_attn.k_norm."@, 0);
    }
    let s4 = replace_all(s3, "attn_q."@, "self_attn.q_proj."@);
    assert(s4 == "attn_out"@.push('.') + (Seq::<char>::empty())) by {
        lemma_word_kept("attn_out"@, Seq::<char>::empty(), "attn_q"@, "self_attn.q_proj."@, 0);
    }
    let s5 = replace_all(s4, "attn_k."@, "self_attn.k_proj."@);
    assert(s5 == "attn_out"@.push('.') + (Seq::<char>::empty())) by {
        lemma_word_kept("attn_out"@, Seq::<char>::empty(), "attn_k"@, "self_attn.k_proj."@, 0);
    }
    let s6 = replace_all(s5, "attn_v."@, "self_attn.v_proj."@);
    assert(s6 == "attn_out"@.push('.') + (Seq::<char>::empty())) by {
        lemma_word_kept("attn_out"@, Seq::<char>::empty(), "attn_v"@, "self_attn.v_proj."@, 0);
    }
    let s7 = replace_all(s6, "attn_output."@, "self_attn.o_proj."@);
    assert(s7 == "attn_out"@.push('.') + (Seq::<char>::empty())) by {
        lemma_word_kept("attn_out"@, Seq::<char>::empty(), "attn_output"@, "self_attn.o_proj."@, 0);
    }
    let s8 = replace_all(s7, "attn_out."@, "self_attn.o_proj."@);
    assert(s8 == "self_attn"@.push('.') + ("o_proj"@.push('.') + (Seq::<char>::empty()))) by {
        lemma_word_replaced("attn_out"@, Seq::<char>::empty(), "self_attn.o_proj."@);
        assert("self_attn.o_proj."@ + (Seq::<char>::empty()) =~= "self_attn"@.push('.') + ("o_proj"@.push('.') + (Seq::<char>::empty())));
    }
    let s9 = replace_all(s8, "ffn_gate."@, "mlp.gate_proj."@);
    assert(s9 == "self_attn"@.push('.') + ("o_proj"@.push('.') + (Seq::<char>::empty()))) by {
        lemma_word_kept("self_attn"@, "o_proj"@.push('.') + (Seq::<char>::empty()), "ffn_gate"@, "mlp.gate_proj."@, 0);
        lemma_word_kept("o_proj"@, Seq::<char>::empty(), "ffn_gate"@, "mlp.gate_proj."@, 0);
    }
    let s10 = replace_all(s9, "ffn_up."@, "mlp.up_proj."@);
    assert(s10 == "self_attn"@.push('.') + ("o_proj"@.push('.') + (Seq::<char>::empty()))) by {
        lemma_word_kept("self_attn"@, "o_proj"@.push('.') + (Seq::<char>::empty()), "ffn_up"@, "mlp.up_proj."@, 1);
        lemma_word_kept("o_proj"@, Seq::<char>::empty(), "ffn_up"@, "mlp.up_proj."@, 0);
    }
    let s11 = replace_all(s10, "ffn_down."@, "mlp.down_proj."@);
    assert(s11 == "self_attn"@.push('.') + ("o_proj"@.push('.') + (Seq::<char>::empty()))) by {
        lemma_word_kept("self_attn"@, "o_proj"@.push('.') + (Seq::<char>::empty()), "ffn_down"@, "mlp.down_proj."@, 0);
        lemma_word_kept("o_proj"@, Seq::<char>::empty(), "ffn_down"@, "mlp.down_proj."@, 0);
    }
    let s12 = replace_all(s11, "post_attention_norm."@, "post_attention_layernorm."@);
    assert(s12 == "self_attn"@.push('.') + ("o_proj"@.push('.') + (Seq::<char>::empty()))) by {
        lemma_word_kept("self_attn"@, "o_proj"@.push('.') + (Seq::<char>::empty()), "post_attention_norm"@, "post_attention_layernorm."@, 0);
        lemma_word_kept("o_proj"@, Seq::<char>::empty(), "post_attention_norm"@, "post_attention_layernorm."@, 0);
    }
    let s13 = replace_all(s12, "attn_norm."@, "input_layernorm."@);
    assert(s13 == "self_attn"@.push('.') + ("o_proj"@.push('.') + (Seq::<char>::empty()))) by {
        lemma_word_kept("self_attn"@, "o_proj"@.push('.') + (Seq::<char>::empty()), "attn_norm"@, "input_layernorm."@, 0);
        lemma_word_kept("o_proj"@, Seq::<char>::empty(), "attn_norm"@, "input_layernorm."@, 0);
    }
    let s14 = replace_all(s13, "ffn_norm."@, "post_attention_layernorm."@);
    assert(s14 == "self_attn"@.push('.') + ("o_proj"@.push('.') + (Seq::<char>::empty()))) by {
        lemma_word_kept("self_attn"@, "o_proj"@.push('.') + (Seq::<char>::empty()), "ffn_norm"@, "post_attention_layernorm."@, 0);
        lemma_word_kept("o_proj"@, Seq::<char>::empty(), "ffn_norm"@, "post_attention_layernorm."@, 0);
    }
    let s15 = replace_all(s14, "token_embd."@, "embed_tokens."@);
    assert(s15 == "self_attn"@.push('.') + ("o_proj"@.push('.') + (Seq::<char>::empty()))) by {
        lemma_word_kept("self_attn"@, "o_proj"@.push('.') + (Seq::<char>::empty()), "token_embd"@, "embed_tokens."@, 0);
        lemma_word_kept("o_proj"@, Seq::<char>::empty(), "token_embd"@, "embed_tokens."@, 0);
    }
    let s16 = replace_all(s15, "output_norm."@, "norm."@);
    assert(s16 == "self_attn"@.push('.') + ("o_proj"@.push('.') + (Seq::<char>::empty()))) by {
        lemma_word_kept("self_attn"@, "o_proj"@.push('.') + (Seq::<char>::empty()), "output_norm"@, "norm."@, 0);
        lemma_word_kept("o_proj"@, Seq::<char>::empty(), "output_norm"@, "norm."@, 0);
    }
    let s17 = replace_all(s16, "output."@, "lm_head."@);
    assert(s17 == "self_attn"@.push('.') + ("o_proj"@.push('.') + (Seq::<char>::empty()))) by {
        lemma_word_kept("self_attn"@, "o_proj"@.push('.') + (Seq::<char>::empty()), "output"@, "lm_head."@, 0);
        lemma_word_kept("o_proj"@, Seq::<char>::empty(), "output"@, "lm_head."@, 1);
    }
    assert("self_attn"@.push('.') + ("o_proj"@.push('.') + (Seq::<char>::empty())) =~= "self_attn.o_proj."@);
}

/// `attn_q_norm.` is renamed `self_attn.q_norm.`.
proof fn lemma_normalized_word_attn_q_norm()
    ensures
        normalized_key("attn_q_norm."@) == "self_attn.q_norm."@,
{
    lemma_rule_literals();
    reveal_strlit("attn_k");
    reveal_strlit("attn_k_norm");
    reveal_strlit("attn_norm");
    reveal_strlit("attn_out");
    reveal_strlit("attn_output");
    reveal_strlit("attn_q");
    reveal_strlit("attn_q_norm");
    reveal_strlit("attn_q_norm.");
    reveal_strlit("attn_v");
    reveal_strlit("blk");
    reveal_strlit("ffn_down");
    reveal_strlit("ffn_gate");
    reveal_strlit("ffn_norm");
    reveal_strlit("ffn_up");
    reveal_strlit("output");
    reveal_strlit("output_norm");
    reveal_strlit("post_attention_norm");
    reveal_strlit("q_norm");
    reveal_strlit("self_attn");
    reveal_strlit("self_attn.q_norm.");
    reveal_strlit("token_embd");
    assert(no_dot("attn_k"@));
    assert(no_dot("attn_k_norm"@));
    assert(no_dot("attn_norm"@));
    assert(no_dot("attn_out"@));
    assert(no_dot("attn_output"@));
    assert(no_dot("attn_q"@));
    assert(no_dot("attn_q_norm"@));
    assert(no_dot("attn_v"@));
    assert(no_dot("blk"@));
    assert(no_dot("ffn_down"@));
    assert(no_dot("ffn_gate"@));
    assert(no_dot("ffn_norm"@));
    assert(no_dot("ffn_up"@));
    assert(no_dot("output"@));
    assert(no_dot("output_norm"@));
    assert(no_dot("post_attention_norm"@));
    assert(no_dot("q_norm"@));
    assert(no_dot("self_attn"@));
    assert(no_dot("token_embd"@));
    let s0 = "attn_q_norm."@;
    assert(s0 =~= "attn_q_norm"@.push('.') + (Seq::<char>::empty()));
    let s1 = replace_all(s0, "blk."@, "layers."@);
    assert(s1 == "attn_q_norm"@.push('.') + (Seq::<char>::empty())) by {
        lemma_word_kept("attn_q_norm"@, Seq::<char>::empty(), "blk"@, "layers."@, 0);
    }
    let s2 = replace_all(s1, "attn_q_norm."@, "self_attn.q_norm."@);
    assert(s2 == "self_attn"@.push('.') + ("q_norm"@.push('.') + (Seq::<char>::empty()))) by {
        lemma_word_replaced("attn_q_norm"@, Seq::<char>::empty(), "self_attn.q_norm."@);
        assert("self_attn.q_norm."@ + (Seq::<char>::empty()) =~= "self_attn"@.push('.') + ("q_norm"@.push('.') + (Seq::<char>::empty())));
    }
    let s3 = replace_all(s2, "attn_k_norm."@, "self_attn.k_norm."@);
    assert(s3 == "self_attn"@.push('.') + ("q_norm"@.push('.') + (Seq::<char>::empty()))) by {
        lemma_word_kept("self_attn"@, "q_norm"@.push('.') + (Seq::<char>::empty()), "attn_k_norm"@, "self_attn.k_norm."@, 0);
        lemma_word_kept("q_norm"@, Seq::<char>::empty(), "attn_k_norm"@, "self_attn.k_norm."@, 0);
    }
    let s4 = replace_all(s3, "attn_q."@, "self_attn.q_proj."@);
    assert(s4 == "self_attn"@.push('.') + ("q_norm"@.push('.') + (Seq::<char>::empty()))) by {
        lemma_word_kept("self_attn"@, "q_norm"@.push('.') + (Seq::<char>::empty()), "attn_q"@, "self_attn.q_proj."@, 0);
        lemma_word_kept("q_norm"@, Seq::<char>::empty(), "attn_q"@, "self_attn.q_proj."@, 0);
    }
    let s5 = replace_all(s4, "attn_k."@, "self_attn.k_proj."@);
    assert(s5 == "self_attn"@.push('.') + ("q_norm"@.push('.') + (Seq::<char>::empty()))) by {
        lemma_word_kept("self_attn"@, "q_norm"@.push('.') + (Seq::<char>::empty()), "attn_k"@, "self_attn.k_proj."@, 0);
        lemma_word_kept("q_norm"@, Seq::<char>::empty(), "attn_k"@, "self_attn.k_proj."@, 0);
    }
    let s6 = replace_all(s5, "attn_v."@, "self_attn.v_proj."@);
    assert(s6 == "self_attn"@.push('.') + ("q_norm"@.push('.') + (Seq::<char>::empty()))) by {
        lemma_word_kept("self_attn"@, "q_norm"@.push('.') + (Seq::<char>::empty()), "attn_v"@, "self_attn.v_proj."@, 0);
        lemma_word_kept("q_norm"@, Seq::<char>::empty(), "attn_v"@, "self_attn.v_proj."@, 0);
    }
    let s7 = replace_all(s6, "attn_output."@, "self_attn.o_proj."@);
    assert(s7 == "self_attn"@.push('.') + ("q_norm"@.push('.') + (Seq::<char>::empty()))) by {
        lemma_word_kept("self_attn"@, "q_norm"@.push('.') + (Seq::<char>::empty()), "attn_output"@, "self_attn.o_proj."@, 0);
        lemma_word_kept("q_norm"@, Seq::<char>::empty(), "attn_output"@, "self_attn.o_proj."@, 0);
    }
    let s8 = replace_all(s7, "attn_out."@, "self_attn.o_proj."@);
    assert(s8 == "self_attn"@.push('.') + ("q_norm"@.push('.') + (Seq::<char>::empty()))) by {
        lemma_word_kept("self_attn"@, "q_norm"@.push('.') + (Seq::<char>::empty()), "attn_out"@, "self_attn.o_proj."@, 0);
        lemma_word_kept("q_norm"@, Seq::<char>::empty(), "attn_out"@, "self_attn.o_proj."@, 0);
    }
    let s9 = replace_all(s8, "ffn_gate."@, "mlp.gate_proj."@);
    assert(s9 == "self_attn"@.push('.') + ("q_norm"@.push('.') + (Seq::<char>::empty()))) by {
        lemma_word_kept("self_attn"@, "q_norm"@.push('.') + (Seq::<char>::empty()), "ffn_gate"@, "mlp.gate_proj."@, 0);
        lemma_word_kept("q_norm"@, Seq::<char>::empty(), "ffn_gate"@, "mlp.gate_proj."@, 0);
    }
    let s10 = replace_all(s9, "ffn_up."@, "mlp.up_proj."@);
    assert(s10 == "self_attn"@.push('.') + ("q_norm"@.push('.') + (Seq::<char>::empty()))) by {
        lemma_word_kept("self_attn"@, "q_norm"@.push('.') + (Seq::<char>::empty()), "ffn_up"@, "mlp.up_proj."@, 1);
        lemma_word_kept("q_norm"@, Seq::<char>::empty(), "ffn_up"@, "mlp.up_proj."@, 0);
    }
    let s11 = replace_all(s10, "ffn_down."@, "mlp.down_proj."@);
    assert(s11 == "self_attn"@.push('.') + ("q_norm"@.push('.') + (Seq::<char>::empty()))) by {
        lemma_word_kept("self_attn"@, "q_norm"@.push('.') + (Seq::<char>::empty()), "ffn_down"@, "mlp.down_proj."@, 0);
        lemma_word_kept("q_norm"@, Seq::<char>::empty(), "ffn_down"@, "mlp.down_proj."@, 0);
    }
    let s12 = replace_all(s11, "post_attention_norm."@, "post_attention_layernorm."@);
    assert(s12 == "self_attn"@.push('.') + ("q_norm"@.push('.') + (Seq::<char>::empty()))) by {
        lemma_word_kept("self_attn"@, "q_norm"@.push('.') + (Seq::<char>::empty()), "post_attention_norm"@, "post_attention_layernorm."@, 0);
        lemma_word_kept("q_norm"@, Seq::<char>::empty(), "post_attention_norm"@, "post_attention_layernorm."@, 0);
    }
    let s13 = replace_all(s12, "attn_norm."@, "input_layernorm."@);
    assert(s13 == "self_attn"@.push('.') + ("q_norm"@.push('.') + (Seq::<char>::empty()))) by {
        lemma_word_kept("self_attn"@, "q_norm"@.push('.') + (Seq::<char>::empty()), "attn_norm"@, "input_layernorm."@, 0);
        lemma_word_kept("q_norm"@, Seq::<char>::empty(), "attn_norm"@, "input_layernorm."@, 0);
    }
    let s14 = replace_all(s13, "ffn_norm."@, "post_attention_layernorm."@);
    assert(s14 == "self_attn"@.push('.') + ("q_norm"@.push('.') + (Seq::<char>::empty()))) by {
        lemma_word_kept("self_attn"@, "q_norm"@.push('.') + (Seq::<char>::empty()), "ffn_norm"@, "post_attention_layernorm."@, 0);
        lemma_word_kept("q_norm"@, Seq::<char>::empty(), "ffn_norm"@, "post_attention_layernorm."@, 0);
    }
    let s15 = replace_all(s14, "token_embd."@, "embed_tokens."@);
    assert(s15 == "self_attn"@.push('.') + ("q_norm"@.push('.') + (Seq::<char>::empty()))) by {
        lemma_word_kept("self_attn"@, "q_norm"@.push('.') + (Seq::<char>::empty()), "token_embd"@, "embed_tokens."@, 0);
        lemma_word_kept("q_norm"@, Seq::<char>::empty(), "token_embd"@, "embed_tokens."@, 0);
    }
    let s16 = replace_all(s15, "output_norm."@, "norm."@);
    assert(s16 == "self_attn"@.push('.') + ("q_norm"@.push('.') + (Seq::<char>::empty()))) by {
        lemma_word_kept("self_attn"@, "q_norm"@.push('.') + (Seq::<char>::empty()), "output_norm"@, "norm."@, 0);
        lemma_word_kept("q_norm"@, Seq::<char>::empty(), "output_norm"@, "norm."@, 0);
    }
    let s17 = replace_all(s16, "output."@, "lm_head."@);
    assert(s17 == "self_attn"@.push('.') + ("q_norm"@.push('.') + (Seq::<char>::empty()))) by {
        lemma_word_kept("self_attn"@, "q_norm"@.push('.') + (Seq::<char>::empty()), "output"@, "lm_head."@, 0);
        lemma_word_kept("q_norm"@, Seq::<char>::empty(), "output"@, "lm_head."@, 0);
    }
    assert("self_attn"@.push('.') + ("q_norm"@.push('.') + (Seq::<char>::empty())) =~= "self_attn.q_norm."@);
}

/// `attn_k_norm.` is renamed `self_attn.k_norm.`.
proof fn lemma_normalized_word_attn_k_norm()
    ensures
        normalized_key("attn_k_norm."@) == "self_attn.k_norm."@,
{
    lemma_rule_literals();
    reveal_strlit("attn_k");
    reveal_strlit("attn_k_norm");
    reveal_strlit("attn_k_norm.");
    reveal_strlit("attn_norm");
    reveal_strlit("attn_out");
    reveal_strlit("attn_output");
    reveal_strlit("attn_q");
    reveal_strlit("attn_q_norm");
    reveal_strlit("attn_v");
    reveal_strlit("blk");
    reveal_strlit("ffn_down");
    reveal_strlit("ffn_gate");
    reveal_strlit("ffn_norm");
    reveal_strlit("ffn_up");
    reveal_strlit("k_norm");
    reveal_strlit("output");
    reveal_strlit("output_norm");
    reveal_strlit("post_attention_norm");
    reveal_strlit("self_attn");
    reveal_strlit("self_attn.k_norm.");
    reveal_strlit("token_embd");
    assert(no_dot("attn_k"@));
    assert(no_dot("attn_k_norm"@));
    assert(no_dot("attn_norm"@));
    assert(no_dot("attn_out"@));
    assert(no_dot("attn_output"@));
    assert(no_dot("attn_q"@));
    assert(no_dot("attn_q_norm"@));
    assert(no_dot("attn_v"@));
    assert(no_dot("blk"@));
    assert(no_dot("ffn_down"@));
    assert(no_dot("ffn_gate"@));
    assert(no_dot("ffn_norm"@));
    assert(no_dot("ffn_up"@));
    assert(no_dot("k_norm"@));
    assert(no_dot("output"@));
    assert(no_dot("output_norm"@));
    assert(no_dot("post_attention_norm"@));
    assert(no_dot("self_attn"@));
    assert(no_dot("token_embd"@));
    let s0 = "attn_k_norm."@;
    assert(s0 =~= "attn_k_norm"@.push('.') + (Seq::<char>::empty()));
    let s1 = replace_all(s0, "blk."@, "layers."@);
    assert(s1 == "attn_k_norm"@.push('.') + (Seq::<char>::empty())) by {
        lemma_word_kept("attn_k_norm"@, Seq::<char>::empty(), "blk"@, "layers."@, 0);
    }
    let s2 = replace_all(s1, "attn_q_norm."@, "self_attn.q_norm."@);
    assert(s2 == "attn_k_norm"@.push('.') + (Seq::<char>::empty())) by {
        lemma_word_kept("attn_k_norm"@, Seq::<char>::empty(), "attn_q_norm"@, "self_attn.q_norm."@, 5);
    }
    let s3 = replace_all(s2, "attn_k_norm."@, "self_attn.k_norm."@);
    assert(s3 == "self_attn"@.push('.') + ("k_norm"@.push('.') + (Seq::<char>::empty()))) by {
        lemma_word_replaced("attn_k_norm"@, Seq::<char>::empty(), "self_attn.k_norm."@);
        assert("self_attn.k_norm."@ + (Seq::<char>::empty()) =~= "self_attn"@.push('.') + ("k_norm"@.push('.') + (Seq::<char>::empty())));
    }
    let s4 = replace_all(s3, "attn_q."@, "self_attn.q_proj."@);
    assert(s4 == "self_attn"@.push('.') + ("k_norm"@.push('.') + (Seq::<char>::empty()))) by {
        lemma_word_kept("self_attn"@, "k_norm"@.push('.') + (Seq::<char>::empty()), "attn_q"@, "self_attn.q_proj."@, 0);
        lemma_word_kept("k_norm"@, Seq::<char>::empty(), "attn_q"@, "self_attn.q_proj."@, 0);
    }
    let s5 = replace_all(s4, "attn_k."@, "self_attn.k_proj."@);
    assert(s5 == "self_attn"@.push('.') + ("k_norm"@.push('.') + (Seq::<char>::empty()))) by {
        lemma_word_kept("self_attn"@, "k_norm"@.push('.') + (Seq::<char>::empty()), "attn_k"@, "self_attn.k_proj."@, 0);
        lemma_word_kept("k_norm"@, Seq::<char>::empty(), "attn_k"@, "self_attn.k_proj."@, 0);
    }
    let s6 = replace_all(s5, "attn_v."@, "self_attn.v_proj."@);
    assert(s6 == "self_attn"@.push('.') + ("k_norm"@.push('.') + (Seq::<char>::empty()))) by {
        lemma_word_kept("self_attn"@, "k_norm"@.push('.') + (Seq::<char>::empty()), "attn_v"@, "self_attn.v_proj."@, 0);
        lemma_word_kept("k_norm"@, Seq::<char>::empty(), "attn_v"@, "self_attn.v_proj."@, 0);
    }
    let s7 = replace_all(s6, "attn_output."@, "self_attn.o_proj."@);
    assert(s7 == "self_attn"@.push('.') + ("k_norm"@.push('.') + (Seq::<char>::empty()))) by {
        lemma_word_kept("self_attn"@, "k_norm"@.push('.') + (Seq::<char>::empty()), "attn_output"@, "self_attn.o_proj."@, 0);
        lemma_word_kept("k_norm"@, Seq::<char>::empty(), "attn_output"@, "self_attn.o_proj."@, 0);
    }
    let s8 = replace_all(s7, "attn_out."@, "self_attn.o_proj."@);
    assert(s8 == "self_attn"@.push('.') + ("k_norm"@.push('.') + (Seq::<char>::empty()))) by {
        lemma_word_kept("self_attn"@, "k_norm"@.push('.') + (Seq::<char>::empty()), "attn_out"@, "self_attn.o_proj."@, 0);
        lemma_word_kept("k_norm"@, Seq::<char>::empty(), "attn_out"@, "self_attn.o_proj."@, 0);
    }
    let s9 = replace_all(s8, "ffn_gate."@, "mlp.gate_proj."@);
    assert(s9 == "self_attn"@.push('.') + ("k_norm"@.push('.') + (Seq::<char>::empty()))) by {
        lemma_word_kept("self_attn"@, "k_norm"@.push('.') + (Seq::<char>::empty()), "ffn_gate"@, "mlp.gate_proj."@, 0);
        lemma_word_kept("k_norm"@, Seq::<char>::empty(), "ffn_gate"@, "mlp.gate_proj."@, 0);
    }
    let s10 = replace_all(s9, "ffn_up."@, "mlp.up_proj."@);
    assert(s10 == "self_attn"@.push('.') + ("k_norm"@.push('.') + (Seq::<char>::empty()))) by {
        lemma_word_kept("self_attn"@, "k_norm"@.push('.') + (Seq::<char>::empty()), "ffn_up"@, "mlp.up_proj."@, 1);
        lemma_word_kept("k_norm"@, Seq::<char>::empty(), "ffn_up"@, "mlp.up_proj."@, 0);
    }
    let s11 = replace_all(s10, "ffn_down."@, "mlp.down_proj."@);
    assert(s11 == "self_attn"@.push('.') + ("k_norm"@.push('.') + (Seq::<char>::empty()))) by {
        lemma_word_kept("self_attn"@, "k_norm"@.push('.') + (Seq::<char>::empty()), "ffn_down"@, "mlp.down_proj."@, 0);
        lemma_word_kept("k_norm"@, Seq::<char>::empty(), "ffn_down"@, "mlp.down_proj."@, 0);
    }
    let s12 = replace_all(s11, "post_attention_norm."@, "post_attention_layernorm."@);
    assert(s12 == "self_attn"@.push('.') + ("k_norm"@.push('.') + (Seq::<char>::empty()))) by {
        lemma_word_kept("self_attn"@, "k_norm"@.push('.') + (Seq::<char>::empty()), "post_attention_norm"@, "post_attention_layernorm."@, 0);
        lemma_word_kept("k_norm"@, Seq::<char>::empty(), "post_attention_norm"@, "post_attention_layernorm."@, 0);
    }
    let s13 = replace_all(s12, "attn_norm."@, "input_layernorm."@);
    assert(s13 == "self_attn"@.push('.') + ("k_norm"@.push('.') + (Seq::<char>::empty()))) by {
        lemma_word_kept("self_attn"@, "k_norm"@.push('.') + (Seq::<char>::empty()), "attn_norm"@, "input_layernorm."@, 0);
        lemma_word_kept("k_norm"@, Seq::<char>::empty(), "attn_norm"@, "input_layernorm."@, 0);
    }
    let s14 = replace_all(s13, "ffn_norm."@, "post_attention_layernorm."@);
    assert(s14 == "self_attn"@.push('.') + ("k_norm"@.push('.') + (Seq::<char>::empty()))) by {
        lemma_word_kept("self_attn"@, "k_norm"@.push('.') + (Seq::<char>::empty()), "ffn_norm"@, "post_attention_layernorm."@, 0);
        lemma_word_kept("k_norm"@, Seq::<char>::empty(), "ffn_norm"@, "post_attention_layernorm."@, 0);
    }
    let s15 = replace_all(s14, "token_embd."@, "embed_tokens."@);
    assert(s15 == "self_attn"@.push('.') + ("k_norm"@.push('.') + (Seq::<char>::empty()))) by {
        lemma_word_kept("self_attn"@, "k_norm"@.push('.') + (Seq::<char>::empty()), "token_embd"@, "embed_tokens."@, 0);
        lemma_word_kept("k_norm"@, Seq::<char>::empty(), "token_embd"@, "embed_tokens."@, 0);
    }
    let s16 = replace_all(s15, "output_norm."@, "norm."@);
    assert(s16 == "self_attn"@.push('.') + ("k_norm"@.push('.') + (Seq::<char>::empty()))) by {
        lemma_word_kept("self_attn"@, "k_norm"@.push('.') + (Seq::<char>::empty()), "output_norm"@, "norm."@, 0);
        lemma_word_kept("k_norm"@, Seq::<char>::empty(), "output_norm"@, "norm."@, 0);
    }
    let s17 = replace_all(s16, "output."@, "lm_head."@);
    assert(s17 == "self_attn"@.push('.') + ("k_norm"@.push('.') + (Seq::<char>::empty()))) by {
        lemma_word_kept("self_attn"@, "k_norm"@.push('.') + (Seq::<char>::empty()), "output"@, "lm_head."@, 0);
        lemma_word_kept("k_norm"@, Seq::<char>::empty(), "output"@, "lm_head."@, 0);
    }
    assert("self_attn"@.push('.') + ("k_norm"@.push('.') + (Seq::<char>::empty())) =~= "self_attn.k_norm."@);
}

/// `attn_norm.` is renamed `input_layernorm.`.
proof fn lemma_normalized_word_attn_norm()
    ensures
        normalized_key("attn_norm."@) == "input_layernorm."@,
{
    lemma_rule_literals();
    reveal_strlit("attn_k");
    reveal_strlit("attn_k_norm");
    reveal_strlit("attn_norm");
    reveal_strlit("attn_norm.");
    reveal_strlit("attn_out");
    reveal_strlit("attn_output");
    reveal_strlit("attn_q");
    reveal_strlit("attn_q_norm");
    reveal_strlit("attn_v");
    reveal_strlit("blk");
    reveal_strlit("ffn_down");
    reveal_strlit("ffn_gate");
    reveal_strlit("ffn_norm");
    reveal_strlit("ffn_up");
    reveal_strlit("input_layernorm");
    reveal_strlit("input_layernorm.");
    reveal_strlit("output");
    reveal_strlit("output_norm");
    reveal_strlit("post_attention_norm");
    reveal_strlit("token_embd");
    assert(no_dot("attn_k"@));
    assert(no_dot("attn_k_norm"@));
    assert(no_dot("attn_norm"@));
    assert(no_dot("attn_out"@));
    assert(no_dot("attn_output"@));
    assert(no_dot("attn_q"@));
    assert(no_dot("attn_q_norm"@));
    assert(no_dot("attn_v"@));
    assert(no_dot("blk"@));
    assert(no_dot("ffn_down"@));
    assert(no_dot("ffn_gate"@));
    assert(no_dot("ffn_norm"@));
    assert(no_dot("ffn_up"@));
    assert(no_dot("input_layernorm"@));
    assert(no_dot("output"@));
    assert(no_dot("output_norm"@));
    assert(no_dot("post_attention_norm"@));
    assert(no_dot("token_embd"@));
    let s0 = "attn_norm."@;
    assert(s0 =~= "attn_norm"@.push('.') + (Seq::<char>::empty()));
    let s1 = replace_all(s0, "blk."@, "layers."@);
    assert(s1 == "attn_norm"@.push('.') + (Seq::<char>::empty())) by {
        lemma_word_kept("attn_norm"@, Seq::<char>::empty(), "blk"@, "layers."@, 0);
    }
    let s2 = replace_all(s1, "attn_q_norm."@, "self_attn.q_norm."@);
    assert(s2 == "attn_norm"@.push('.') + (Seq::<char>::empty())) by {
        lemma_word_kept("attn_norm"@, Seq::<char>::empty(), "attn_q_norm"@, "self_attn.q_norm."@, 0);
    }
    let s3 = replace_all(s2, "attn_k_norm."@, "self_attn.k_norm."@);
    assert(s3 == "attn_norm"@.push('.') + (Seq::<char>::empty())) by {
        lemma_word_kept("attn_norm"@, Seq::<char>::empty(), "attn_k_norm"@, "self_attn.k_norm."@, 0);
    }
    let s4 = replace_all(s3, "attn_q."@, "self_attn.q_proj."@);
    assert(s4 == "attn_norm"@.push('.') + (Seq::<char>::empty())) by {
        lemma_word_kept("attn_norm"@, Seq::<char>::empty(), "attn_q"@, "self_attn.q_proj."@, 0);
    }
    let s5 = replace_all(s4, "attn_k."@, "self_attn.k_proj."@);
    assert(s5 == "attn_norm"@.push('.') + (Seq::<char>::empty())) by {
        lemma_word_kept("attn_norm"@, Seq::<char>::empty(), "attn_k"@, "self_attn.k_proj."@, 0);
    }
    let s6 = replace_all(s5, "attn_v."@, "self_attn.v_proj."@);
    assert(s6 == "attn_norm"@.push('.') + (Seq::<char>::empty())) by {
        lemma_word_kept("attn_norm"@, Seq::<char>::empty(), "attn_v"@, "self_attn.v_proj."@, 0);
    }
    let s7 = replace_all(s6, "attn_output."@, "self_attn.o_proj."@);
    assert(s7 == "attn_norm"@.push('.') + (Seq::<char>::empty())) by {
        lemma_word_kept("attn_norm"@, Seq::<char>::empty(), "attn_output"@, "self_attn.o_proj."@, 0);
    }
    let s8 = replace_all(s7, "attn_out."@, "self_attn.o_proj."@);
    assert(s8 == "attn_norm"@.push('.') + (Seq::<char>::empty())) by {
        lemma_word_kept("attn_norm"@, Seq::<char>::empty(), "attn_out"@, "self_attn.o_proj."@, 0);
    }
    let s9 = replace_all(s8, "ffn_gate."@, "mlp.gate_proj."@);
    assert(s9 == "attn_norm"@.push('.') + (Seq::<char>::empty())) by {
        lemma_word_kept("attn_norm"@, Seq::<char>::empty(), "ffn_gate"@, "mlp.gate_proj."@, 0);
    }
    let s10 = replace_all(s9, "ffn_up."@, "mlp.up_proj."@);
    assert(s10 == "attn_norm"@.push('.') + (Seq::<char>::empty())) by {
        lemma_word_kept("attn_norm"@, Seq::<char>::empty(), "ffn_up"@, "mlp.up_proj."@, 0);
    }
    let s11 = replace_all(s10, "ffn_down."@, "mlp.down_proj."@);
    assert(s11 == "attn_norm"@.push('.') + (Seq::<char>::empty())) by {
        lemma_word_kept("attn_norm"@, Seq::<char>::empty(), "ffn_down"@, "mlp.down_proj."@, 0);
    }
    let s12 = replace_all(s11, "post_attention_norm."@, "post_attention_layernorm."@);
    assert(s12 == "attn_norm"@.push('.') + (Seq::<char>::empty())) by {
        lemma_word_kept("attn_norm"@, Seq::<char>::empty(), "post_attention_norm"@, "post_attention_layernorm."@, 0);
    }
    let s13 = replace_all(s12, "attn_norm."@, "input_layernorm."@);
    assert(s13 == "input_layernorm"@.push('.') + (Seq::<char>::empty())) by {
        lemma_word_replaced("attn_norm"@, Seq::<char>::empty(), "input_layernorm."@);
        assert("input_layernorm."@ + (Seq::<char>::empty()) =~= "input_layernorm"@.push('.') + (Seq::<char>::empty()));
    }
    let s14 = replace_all(s13, "ffn_norm."@, "post_attention_layernorm."@);
    assert(s14 == "input_layernorm"@.push('.') + (Seq::<char>::empty())) by {
        lemma_word_kept("input_layernorm"@, Seq::<char>::empty(), "ffn_norm"@, "post_attention_layernorm."@, 0);
    }
    let s15 = replace_all(s14, "token_embd."@, "embed_tokens."@);
    assert(s15 == "input_layernorm"@.push('.') + (Seq::<char>::empty())) by {
        lemma_word_kept("input_layernorm"@, Seq::<char>::empty(), "token_embd"@, "embed_tokens."@, 0);
    }
    let s16 = replace_all(s15, "output_norm."@, "norm."@);
    assert(s16 == "input_layernorm"@.push('.') + (Seq::<char>::empty())) by {
        lemma_word_kept("input_layernorm"@, Seq::<char>::empty(), "output_norm"@, "norm."@, 0);
    }
    let s17 = replace_all(s16, "output."@, "lm_head."@);
    assert(s17 == "input_layernorm"@.push('.') + (Seq::<char>::empty())) by {
        lemma_word_kept("input_layernorm"@, Seq::<char>::empty(), "output"@, "lm_head."@, 0);
    }
    assert("input_layernorm"@.push('.') + (Seq::<char>::empty()) =~= "input_layernorm."@);
}

/// `post_attention_norm.` is renamed `post_attention_layernorm.`.
proof fn lemma_normalized_word_post_attention_norm()
    ensures
        normalized_key("post_attention_norm."@) == "post_attention_layernorm."@,
{
    lemma_rule_literals();
    reveal_strlit("attn_k");
    reveal_strlit("attn_k_norm");
    reveal_strlit("attn_norm");
    reveal_strlit("attn_out");
    reveal_strlit("attn_output");
    reveal_strlit("attn_q");
    reveal_strlit("attn_q_norm");
    reveal_strlit("attn_v");
    reveal_strlit("blk");
    reveal_strlit("ffn_down");
    reveal_strlit("ffn_gate");
    reveal_strlit("ffn_norm");
    reveal_strlit("ffn_up");
    reveal_strlit("output");
    reveal_strlit("output_norm");
    reveal_strlit("post_attention_layernorm");
    reveal_strlit("post_attention_layernorm.");
    reveal_strlit("post_attention_norm");
    reveal_strlit("post_attention_norm.");
    reveal_strlit("token_embd");
    assert(no_dot("attn_k"@));
    assert(no_dot("attn_k_norm"@));
    assert(no_dot("attn_norm"@));
    assert(no_dot("attn_out"@));
    assert(no_dot("attn_output"@));
    assert(no_dot("attn_q"@));
    assert(no_dot("attn_q_norm"@));
    assert(no_dot("attn_v"@));
    assert(no_dot("blk"@));
    assert(no_dot("ffn_down"@));
    assert(no_dot("ffn_gate"@));
    assert(no_dot("ffn_norm"@));
    assert(no_dot("ffn_up"@));
    assert(no_dot("output"@));
    assert(no_dot("output_norm"@));
    assert(no_dot("post_attention_layernorm"@));
    assert(no_dot("post_attention_norm"@));
    assert(no_dot("token_embd"@));
    let s0 = "post_attention_norm."@;
    assert(s0 =~= "post_attention_norm"@.push('.') + (Seq::<char>::empty()));
    let s1 = replace_all(s0, "blk."@, "layers."@);
    assert(s1 == "post_attention_norm"@.push('.') + (Seq::<char>::empty())) by {
        lemma_word_kept("post_attention_norm"@, Seq::<char>::empty(), "blk"@, "layers."@, 0);
    }
    let s2 = replace_all(s1, "attn_q_norm."@, "self_attn.q_norm."@);
    assert(s2 == "post_attention_norm"@.push('.') + (Seq::<char>::empty())) by {
        lemma_word_kept("post_attention_norm"@, Seq::<char>::empty(), "attn_q_norm"@, "self_attn.q_norm."@, 0);
    }
    let s3 = replace_all(s2, "attn_k_norm."@, "self_attn.k_norm."@);
    assert(s3 == "post_attention_norm"@.push('.') + (Seq::<char>::empty())) by {
        lemma_word_kept("post_attention_norm"@, Seq::<char>::empty(), "attn_k_norm"@, "self_attn.k_norm."@, 0);
    }
    let s4 = replace_all(s3, "attn_q."@, "self_attn.q_proj."@);
    assert(s4 == "post_attention_norm"@.push('.') + (Seq::<char>::empty())) by {
        lemma_word_kept("post_attention_norm"@, Seq::<char>::empty(), "attn_q"@, "self_attn.q_proj."@, 0);
    }
    let s5 = replace_all(s4, "attn_k."@, "self_attn.k_proj."@);
    assert(s5 == "post_attention_norm"@.push('.') + (Seq::<char>::empty())) by {
        lemma_word_kept("post_attention_norm"@, Seq::<char>::empty(), "attn_k"@, "self_attn.k_proj."@, 0);
    }
    let s6 = replace_all(s5, "attn_v."@, "self_attn.v_proj."@);
    assert(s6 == "post_attention_norm"@.push('.') + (Seq::<char>::empty())) by {
        lemma_word_kept("post_attention_norm"@, Seq::<char>::empty(), "attn_v"@, "self_attn.v_proj."@, 0);
    }
    let s7 = replace_all(s6, "attn_output."@, "self_attn.o_proj."@);
    assert(s7 == "post_attention_norm"@.push('.') + (Seq::<char>::empty())) by {
        lemma_word_kept("post_attention_norm"@, Seq::<char>::empty(), "attn_output"@, "self_attn.o_proj."@, 0);
    }
    let s8 = replace_all(s7, "attn_out."@, "self_attn.o_proj."@);
    assert(s8 == "post_attention_norm"@.push('.') + (Seq::<char>::empty())) by {
        lemma_word_kept("post_attention_norm"@, Seq::<char>::empty(), "attn_out"@, "self_attn.o_proj."@, 0);
    }
    let s9 = replace_all(s8, "ffn_gate."@, "mlp.gate_proj."@);
    assert(s9 == "post_attention_norm"@.push('.') + (Seq::<char>::empty())) by {
        lemma_word_kept("post_attention_norm"@, Seq::<char>::empty(), "ffn_gate"@, "mlp.gate_proj."@, 0);
    }
    let s10 = replace_all(s9, "ffn_up."@, "mlp.up_proj."@);
    assert(s10 == "post_attention_norm"@.push('.') + (Seq::<char>::empty())) by {
        lemma_word_kept("post_attention_norm"@, Seq::<char>::empty(), "ffn_up"@, "mlp.up_proj."@, 0);
    }
    let s11 = replace_all(s10, "ffn_down."@, "mlp.down_proj."@);
    assert(s11 == "post_attention_norm"@.push('.') + (Seq::<char>::empty())) by {
        lemma_word_kept("post_attention_norm"@, Seq::<char>::empty(), "ffn_down"@, "mlp.down_proj."@, 0);
    }
    let s12 = replace_all(s11, "post_attention_norm."@, "post_attention_layernorm."@);
    assert(s12 == "post_attention_layernorm"@.push('.') + (Seq::<char>::empty())) by {
        lemma_word_replaced("post_attention_norm"@, Seq::<char>::empty(), "post_attention_layernorm."@);
        assert("post_attention_layernorm."@ + (Seq::<char>::empty()) =~= "post_attention_layernorm"@.push('.') + (Seq::<char>::empty()));
    }
    let s13 = replace_all(s12, "attn_norm."@, "input_layernorm."@);
    assert(s13 == "post_attention_layernorm"@.push('.') + (Seq::<char>::empty())) by {
        lemma_word_kept("post_attention_layernorm"@, Seq::<char>::empty(), "attn_norm"@, "input_layernorm."@, 0);
    }
    let s14 = replace_all(s13, "ffn_norm."@, "post_attention_layernorm."@);
    assert(s14 == "post_attention_layernorm"@.push('.') + (Seq::<char>::empty())) by {
        lemma_word_kept("post_attention_layernorm"@, Seq::<char>::empty(), "ffn_norm"@, "post_attention_layernorm."@, 0);
    }
    let s15 = replace_all(s14, "token_embd."@, "embed_tokens."@);
    assert(s15 == "post_attention_layernorm"@.push('.') + (Seq::<char>::empty())) by {
        lemma_word_kept("post_attention_layernorm"@, Seq::<char>::empty(), "token_embd"@, "embed_tokens."@, 0);
    }
    let s16 = replace_all(s15, "output_norm."@, "norm."@);
    assert(s16 == "post_attention_layernorm"@.push('.') + (Seq::<char>::empty())) by {
        lemma_word_kept("post_attention_layernorm"@, Seq::<char>::empty(), "output_norm"@, "norm."@, 0);
    }
    let s17 = replace_all(s16, "output."@, "lm_head."@);
    assert(s17 == "post_attention_layernorm"@.push('.') + (Seq::<char>::empty())) by {
        lemma_word_kept("post_attention_layernorm"@, Seq::<char>::empty(), "output"@, "lm_head."@, 0);
    }
    assert("post_attention_layernorm"@.push('.') + (Seq::<char>::empty()) =~= "post_attention_layernorm."@);
}

/// `ffn_gate.` is renamed `mlp.gate_proj.`.
proof fn lemma_normalized_word_ffn_gate()
    ensures
        normalized_key("ffn_gate."@) == "mlp.gate_proj."@,
{
    lemma_rule_literals();
    reveal_strlit("attn_k");
    reveal_strlit("attn_k_norm");
    reveal_strlit("attn_norm");
    reveal_strlit("attn_out");
    reveal_strlit("attn_output");
    reveal_strlit("attn_q");
    reveal_strlit("attn_q_norm");
    reveal_strlit("attn_v");
    reveal_strlit("blk");
    reveal_strlit("ffn_down");
    reveal_strlit("ffn_gate");
    reveal_strlit("ffn_gate.");
    reveal_strlit("ffn_norm");
    reveal_strlit("ffn_up");
    reveal_strlit("gate_proj");
    reveal_strlit("mlp");
    reveal_strlit("mlp.gate_proj.");
    reveal_strlit("output");
    reveal_strlit("output_norm");
    reveal_strlit("post_attention_norm");
    reveal_strlit("token_embd");
    assert(no_dot("attn_k"@));
    assert(no_dot("attn_k_norm"@));
    assert(no_dot("attn_norm"@));
    assert(no_dot("attn_out"@));
    assert(no_dot("attn_output"@));
    assert(no_dot("attn_q"@));
    assert(no_dot("attn_q_norm"@));
    assert(no_dot("attn_v"@));
    assert(no_dot("blk"@));
    assert(no_dot("ffn_down"@));
    assert(no_dot("ffn_gate"@));
    assert(no_dot("ffn_norm"@));
    assert(no_dot("ffn_up"@));
    assert(no_dot("gate_proj"@));
    assert(no_dot("mlp"@));
    assert(no_dot("output"@));
    assert(no_dot("output_norm"@));
    assert(no_dot("post_attention_norm"@));
    assert(no_dot("token_embd"@));
    let s0 = "ffn_gate."@;
    assert(s0 =~= "ffn_gate"@.push('.') + (Seq::<char>::empty()));
    let s1 = replace_all(s0, "blk."@, "layers."@);
    assert(s1 == "ffn_gate"@.push('.') + (Seq::<char>::empty())) by {
        lemma_word_kept("ffn_gate"@, Seq::<char>::empty(), "blk"@, "layers."@, 0);
    }
    let s2 = replace_all(s1, "attn_q_norm."@, "self_attn.q_norm."@);
    assert(s2 == "ffn_gate"@.push('.') + (Seq::<char>::empty())) by {
        lemma_word_kept("ffn_gate"@, Seq::<char>::empty(), "attn_q_norm"@, "self_attn.q_norm."@, 0);
    }
    let s3 = replace_all(s2, "attn_k_norm."@, "self_attn.k_norm."@);
    assert(s3 == "ffn_gate"@.push('.') + (Seq::<char>::empty())) by {
        lemma_word_kept("ffn_gate"@, Seq::<char>::empty(), "attn_k_norm"@, "self_attn.k_norm."@, 0);
    }
    let s4 = replace_all(s3, "attn_q."@, "self_attn.q_proj."@);
    assert(s4 == "ffn_gate"@.push('.') + (Seq::<char>::empty())) by {
        lemma_word_kept("ffn_gate"@, Seq::<char>::empty(), "attn_q"@, "self_attn.q_proj."@, 0);
    }
    let s5 = replace_all(s4, "attn_k."@, "self_attn.k_proj."@);
    assert(s5 == "ffn_gate"@.push('.') + (Seq::<char>::empty())) by {
        lemma_word_kept("ffn_gate"@, Seq::<char>::empty(), "attn_k"@, "self_attn.k_proj."@, 0);
    }
    let s6 = replace_all(s5, "attn_v."@, "self_attn.v_proj."@);
    assert(s6 == "ffn_gate"@.push('.') + (Seq::<char>::empty())) by {
        lemma_word_kept("ffn_gate"@, Seq::<char>::empty(), "attn_v"@, "self_attn.v_proj."@, 0);
    }
    let s7 = replace_all(s6, "attn_output."@, "self_attn.o_proj."@);
    assert(s7 == "ffn_gate"@.push('.') + (Seq::<char>::empty())) by {
        lemma_word_kept("ffn_gate"@, Seq::<char>::empty(), "attn_output"@, "self_attn.o_proj."@, 0);
    }
    let s8 = replace_all(s7, "attn_out."@, "self_attn.o_proj."@);
    assert(s8 == "ffn_gate"@.push('.') + (Seq::<char>::empty())) by {
        lemma_word_kept("ffn_gate"@, Seq::<char>::empty(), "attn_out"@, "self_attn.o_proj."@, 0);
    }
    let s9 = replace_all(s8, "ffn_gate."@, "mlp.gate_proj."@);
    assert(s9 == "mlp"@.push('.') + ("gate_proj"@.push('.') + (Seq::<char>::empty()))) by {
        lemma_word_replaced("ffn_gate"@, Seq::<char>::empty(), "mlp.gate_proj."@);
        assert("mlp.gate_proj."@ + (Seq::<char>::empty()) =~= "mlp"@.push('.') + ("gate_proj"@.push('.') + (Seq::<char>::empty())));
    }
    let s10 = replace_all(s9, "ffn_up."@, "mlp.up_proj."@);
    assert(s10 == "mlp"@.push('.') + ("gate_proj"@.push('.') + (Seq::<char>::empty()))) by {
        lemma_word_kept("mlp"@, "gate_proj"@.push('.') + (Seq::<char>::empty()), "ffn_up"@, "mlp.up_proj."@, 0);
        lemma_word_kept("gate_proj"@, Seq::<char>::empty(), "ffn_up"@, "mlp.up_proj."@, 0);
    }
    let s11 = replace_all(s10, "ffn_down."@, "mlp.down_proj."@);
    assert(s11 == "mlp"@.push('.') + ("gate_proj"@.push('.') + (Seq::<char>::empty()))) by {
        lemma_word_kept("mlp"@, "gate_proj"@.push('.') + (Seq::<char>::empty()), "ffn_down"@, "mlp.down_proj."@, 0);
        lemma_word_kept("gate_proj"@, Seq::<char>::empty(), "ffn_down"@, "mlp.down_proj."@, 0);
    }
    let s12 = replace_all(s11, "post_attention_norm."@, "post_attention_layernorm."@);
    assert(s12 == "mlp"@.push('.') + ("gate_proj"@.push('.') + (Seq::<char>::empty()))) by {
        lemma_word_kept("mlp"@, "gate_proj"@.push('.') + (Seq::<char>::empty()), "post_attention_norm"@, "post_attention_layernorm."@, 0);
        lemma_word_kept("gate_proj"@, Seq::<char>::empty(), "post_attention_norm"@, "post_attention_layernorm."@, 0);
    }
    let s13 = replace_all(s12, "attn_norm."@, "input_layernorm."@);
    assert(s13 == "mlp"@.push('.') + ("gate_proj"@.push('.') + (Seq::<char>::empty()))) by {
        lemma_word_kept("mlp"@, "gate_proj"@.push('.') + (Seq::<char>::empty()), "attn_norm"@, "input_layernorm."@, 0);
        lemma_word_kept("gate_proj"@, Seq::<char>::empty(), "attn_norm"@, "input_layernorm."@, 0);
    }
    let s14 = replace_all(s13, "ffn_norm."@, "post_attention_layernorm."@);
    assert(s14 == "mlp"@.push('.') + ("gate_proj"@.push('.') + (Seq::<char>::empty()))) by {
        lemma_word_kept("mlp"@, "gate_proj"@.push('.') + (Seq::<char>::empty()), "ffn_norm"@, "post_attention_layernorm."@, 0);
        lemma_word_kept("gate_proj"@, Seq::<char>::empty(), "ffn_norm"@, "post_attention_layernorm."@, 0);
    }
    let s15 = replace_all(s14, "token_embd."@, "embed_tokens."@);
    assert(s15 == "mlp"@.push('.') + ("gate_proj"@.push('.') + (Seq::<char>::empty()))) by {
        lemma_word_kept("mlp"@, "gate_proj"@.push('.') + (Seq::<char>::empty()), "token_embd"@, "embed_tokens."@, 0);
        lemma_word_kept("gate_proj"@, Seq::<char>::empty(), "token_embd"@, "embed_tokens."@, 0);
    }
    let s16 = replace_all(s15, "output_norm."@, "norm."@);
    assert(s16 == "mlp"@.push('.') + ("gate_proj"@.push('.') + (Seq::<char>::empty()))) by {
        lemma_word_kept("mlp"@, "gate_proj"@.push('.') + (Seq::<char>::empty()), "output_norm"@, "norm."@, 0);
        lemma_word_kept("gate_proj"@, Seq::<char>::empty(), "output_norm"@, "norm."@, 0);
    }
    let s17 = replace_all(s16, "output."@, "lm_head."@);
    assert(s17 == "mlp"@.push('.') + ("gate_proj"@.push('.') + (Seq::<char>::empty()))) by {
        lemma_word_kept("mlp"@, "gate_proj"@.push('.') + (Seq::<char>::empty()), "output"@, "lm_head."@, 0);
        lemma_word_kept("gate_proj"@, Seq::<char>::empty(), "output"@, "lm_head."@, 0);
    }
    assert("mlp"@.push('.') + ("gate_proj"@.push('.') + (Seq::<char>::empty())) =~= "mlp.gate_proj."@);
}

/// `ffn_up.` is renamed `mlp.up_proj.`.
proof fn lemma_normalized_word_ffn_up()
    ensures
        normalized_key("ffn_up."@) == "mlp.up_proj."@,
{
    lemma_rule_literals();
    reveal_strlit("attn_k");
    reveal_strlit("attn_k_norm");
    reveal_strlit("attn_norm");
    reveal_strlit("attn_out");
    reveal_strlit("attn_output");
    reveal_strlit("attn_q");
    reveal_strlit("attn_q_norm");
    reveal_strlit("attn_v");
    reveal_strlit("blk");
    reveal_strlit("ffn_down");
    reveal_strlit("ffn_gate");
    reveal_strlit("ffn_norm");
    reveal_strlit("ffn_up");
    reveal_strlit("ffn_up.");
    reveal_strlit("mlp");
    reveal_strlit("mlp.up_proj.");
    reveal_strlit("output");
    reveal_strlit("output_norm");
    reveal_strlit("post_attention_norm");
    reveal_strlit("token_embd");
    reveal_strlit("up_proj");
    assert(no_dot("attn_k"@));
    assert(no_dot("attn_k_norm"@));
    assert(no_dot("attn_norm"@));
    assert(no_dot("attn_out"@));
    assert(no_dot("attn_output"@));
    assert(no_dot("attn_q"@));
    assert(no_dot("attn_q_norm"@));
    assert(no_dot("attn_v"@));
    assert(no_dot("blk"@));
    assert(no_dot("ffn_down"@));
    assert(no_dot("ffn_gate"@));
    assert(no_dot("ffn_norm"@));
    assert(no_dot("ffn_up"@));
    assert(no_dot("mlp"@));
    assert(no_dot("output"@));
    assert(no_dot("output_norm"@));
    assert(no_dot("post_attention_norm"@));
    assert(no_dot("token_embd"@));
    assert(no_dot("up_proj"@));
    let s0 = "ffn_up."@;
    assert(s0 =~= "ffn_up"@.push('.') + (Seq::<char>::empty()));
    let s1 = replace_all(s0, "blk."@, "layers."@);
    assert(s1 == "ffn_up"@.push('.') + (Seq::<char>::empty())) by {
        lemma_word_kept("ffn_up"@, Seq::<char>::empty(), "blk"@, "layers."@, 0);
    }
    let s2 = replace_all(s1, "attn_q_norm."@, "self_attn.q_norm."@);
    assert(s2 == "ffn_up"@.push('.') + (Seq::<char>::empty())) by {
        lemma_word_kept("ffn_up"@, Seq::<char>::empty(), "attn_q_norm"@, "self_attn.q_norm."@, 0);
    }
    let s3 = replace_all(s2, "attn_k_norm."@, "self_attn.k_norm."@);
    assert(s3 == "ffn_up"@.push('.') + (Seq::<char>::empty())) by {
        lemma_word_kept("ffn_up"@, Seq::<char>::empty(), "attn_k_norm"@, "self_attn.k_norm."@, 0);
    }
    let s4 = replace_all(s3, "attn_q."@, "self_attn.q_proj."@);
    assert(s4 == "ffn_up"@.push('.') + (Seq::<char>::empty())) by {
        lemma_word_kept("ffn_up"@, Seq::<char>::empty(), "attn_q"@, "self_attn.q_proj."@, 0);
    }
    let s5 = replace_all(s4, "attn_k."@, "self_attn.k_proj."@);
    assert(s5 == "ffn_up"@.push('.') + (Seq::<char>::empty())) by {
        lemma_word_kept("ffn_up"@, Seq::<char>::empty(), "attn_k"@, "self_attn.k_proj."@, 0);
    }
    let s6 = replace_all(s5, "attn_v."@, "self_attn.v_proj."@);
    assert(s6 == "ffn_up"@.push('.') + (Seq::<char>::empty())) by {
        lemma_word_kept("ffn_up"@, Seq::<char>::empty(), "attn_v"@, "self_attn.v_proj."@, 0);
    }
    let s7 = replace_all(s6, "attn_output."@, "self_attn.o_proj."@);
    assert(s7 == "ffn_up"@.push('.') + (Seq::<char>::empty())) by {
        lemma_word_kept("ffn_up"@, Seq::<char>::empty(), "attn_output"@, "self_attn.o_proj."@, 0);
    }
    let s8 = replace_all(s7, "attn_out."@, "self_attn.o_proj."@);
    assert(s8 == "ffn_up"@.push('.') + (Seq::<char>::empty())) by {
        lemma_word_kept("ffn_up"@, Seq::<char>::empty(), "attn_out"@, "self_attn.o_proj."@, 0);
    }
    let s9 = replace_all(s8, "ffn_gate."@, "mlp.gate_proj."@);
    assert(s9 == "ffn_up"@.push('.') + (Seq::<char>::empty())) by {
        lemma_word_kept("ffn_up"@, Seq::<char>::empty(), "ffn_gate"@, "mlp.gate_proj."@, 0);
    }
    let s10 = replace_all(s9, "ffn_up."@, "mlp.up_proj."@);
    assert(s10 == "mlp"@.push('.') + ("up_proj"@.push('.') + (Seq::<char>::empty()))) by {
        lemma_word_replaced("ffn_up"@, Seq::<char>::empty(), "mlp.up_proj."@);
        assert("mlp.up_proj."@ + (Seq::<char>::empty()) =~= "mlp"@.push('.') + ("up_proj"@.push('.') + (Seq::<char>::empty())));
    }
    let s11 = replace_all(s10, "ffn_down."@, "mlp.down_proj."@);
    assert(s11 == "mlp"@.push('.') + ("up_proj"@.push('.') + (Seq::<char>::empty()))) by {
        lemma_word_kept("mlp"@, "up_proj"@.push('.') + (Seq::<char>::empty()), "ffn_down"@, "mlp.down_proj."@, 0);
        lemma_word_kept("up_proj"@, Seq::<char>::empty(), "ffn_down"@, "mlp.down_proj."@, 0);
    }
    let s12 = replace_all(s11, "post_attention_norm."@, "post_attention_layernorm."@);
    assert(s12 == "mlp"@.push('.') + ("up_proj"@.push('.') + (Seq::<char>::empty()))) by {
        lemma_word_kept("mlp"@, "up_proj"@.push('.') + (Seq::<char>::empty()), "post_attention_norm"@, "post_attention_layernorm."@, 0);
        lemma_word_kept("up_proj"@, Seq::<char>::empty(), "post_attention_norm"@, "post_attention_layernorm."@, 0);
    }
    let s13 = replace_all(s12, "attn_norm."@, "input_layernorm."@);
    assert(s13 == "mlp"@.push('.') + ("up_proj"@.push('.') + (Seq::<char>::empty()))) by {
        lemma_word_kept("mlp"@, "up_proj"@.push('.') + (Seq::<char>::empty()), "attn_norm"@, "input_layernorm."@, 0);
        lemma_word_kept("up_proj"@, Seq::<char>::empty(), "attn_norm"@, "input_layernorm."@, 0);
    }
    let s14 = replace_all(s13, "ffn_norm."@, "post_attention_layernorm."@);
    assert(s14 == "mlp"@.push('.') + ("up_proj"@.push('.') + (Seq::<char>::empty()))) by {
        lemma_word_kept("mlp"@, "up_proj"@.push('.') + (Seq::<char>::empty()), "ffn_norm"@, "post_attention_layernorm."@, 0);
        lemma_word_kept("up_proj"@, Seq::<char>::empty(), "ffn_norm"@, "post_attention_layernorm."@, 0);
    }
    let s15 = replace_all(s14, "token_embd."@, "embed_tokens."@);
    assert(s15 == "mlp"@.push('.') + ("up_proj"@.push('.') + (Seq::<char>::empty()))) by {
        lemma_word_kept("mlp"@, "up_proj"@.push('.') + (Seq::<char>::empty()), "token_embd"@, "embed_tokens."@, 0);
        lemma_word_kept("up_proj"@, Seq::<char>::empty(), "token_embd"@, "embed_tokens."@, 0);
    }
    let s16 = replace_all(s15, "output_norm."@, "norm."@);
    assert(s16 == "mlp"@.push('.') + ("up_proj"@.push('.') + (Seq::<char>::empty()))) by {
        lemma_word_kept("mlp"@, "up_proj"@.push('.') + (Seq::<char>::empty()), "output_norm"@, "norm."@, 0);
        lemma_word_kept("up_proj"@, Seq::<char>::empty(), "output_norm"@, "norm."@, 0);
    }
    let s17 = replace_all(s16, "output."@, "lm_head."@);
    assert(s17 == "mlp"@.push('.') + ("up_proj"@.push('.') + (Seq::<char>::empty()))) by {
        lemma_word_kept("mlp"@, "up_proj"@.push('.') + (Seq::<char>::empty()), "output"@, "lm_head."@, 0);
        lemma_word_kept("up_proj"@, Seq::<char>::empty(), "output"@, "lm_head."@, 0);
    }
    assert("mlp"@.push('.') + ("up_proj"@.push('.') + (Seq::<char>::empty())) =~= "mlp.up_proj."@);
}

/// `ffn_down.` is renamed `mlp.down_proj.`.
proof fn lemma_normalized_word_ffn_down()
    ensures
        normalized_key("ffn_down."@) == "mlp.down_proj."@,
{
    lemma_rule_literals();
    reveal_strlit("attn_k");
    reveal_strlit("attn_k_norm");
    reveal_strlit("attn_norm");
    reveal_strlit("attn_out");
    reveal_strlit("attn_output");
    reveal_strlit("attn_q");
    reveal_strlit("attn_q_norm");
    reveal_strlit("attn_v");
    reveal_strlit("blk");
    reveal_strlit("down_proj");
    reveal_strlit("ffn_down");
    reveal_strlit("ffn_down.");
    reveal_strlit("ffn_gate");
    reveal_strlit("ffn_norm");
    reveal_strlit("ffn_up");
    reveal_strlit("mlp");
    reveal_strlit("mlp.down_proj.");
    reveal_strlit("output");
    reveal_strlit("output_norm");
    reveal_strlit("post_attention_norm");
    reveal_strlit("token_embd");
    assert(no_dot("attn_k"@));
    assert(no_dot("attn_k_norm"@));
    assert(no_dot("attn_norm"@));
    assert(no_dot("attn_out"@));
    assert(no_dot("attn_output"@));
    assert(no_dot("attn_q"@));
    assert(no_dot("attn_q_norm"@));
    assert(no_dot("attn_v"@));
    assert(no_dot("blk"@));
    assert(no_dot("down_proj"@));
    assert(no_dot("ffn_down"@));
    assert(no_dot("ffn_gate"@));
    assert(no_dot("ffn_norm"@));
    assert(no_dot("ffn_up"@));
    assert(no_dot("mlp"@));
    assert(no_dot("output"@));
    assert(no_dot("output_norm"@));
    assert(no_dot("post_attention_norm"@));
    assert(no_dot("token_embd"@));
    let s0 = "ffn_down."@;
    assert(s0 =~= "ffn_down"@.push('.') + (Seq::<char>::empty()));
    let s1 = replace_all(s0, "blk."@, "layers."@);
    assert(s1 == "ffn_down"@.push('.') + (Seq::<char>::empty())) by {
        lemma_word_kept("ffn_down"@, Seq::<char>::empty(), "blk"@, "layers."@, 0);
    }
    let s2 = replace_all(s1, "attn_q_norm."@, "self_attn.q_norm."@);
    assert(s2 == "ffn_down"@.push('.') + (Seq::<char>::empty())) by {
        lemma_word_kept("ffn_down"@, Seq::<char>::empty(), "attn_q_norm"@, "self_attn.q_norm."@, 0);
    }
    let s3 = replace_all(s2, "attn_k_norm."@, "self_attn.k_norm."@);
    assert(s3 == "ffn_down"@.push('.') + (Seq::<char>::empty())) by {
        lemma_word_kept("ffn_down"@, Seq::<char>::empty(), "attn_k_norm"@, "self_attn.k_norm."@, 0);
    }
    let s4 = replace_all(s3, "attn_q."@, "self_attn.q_proj."@);
    assert(s4 == "ffn_down"@.push('.') + (Seq::<char>::empty())) by {
        lemma_word_kept("ffn_down"@, Seq::<char>::empty(), "attn_q"@, "self_attn.q_proj."@, 0);
    }
    let s5 = replace_all(s4, "attn_k."@, "self_attn.k_proj."@);
    assert(s5 == "ffn_down"@.push('.') + (Seq::<char>::empty())) by {
        lemma_word_kept("ffn_down"@, Seq::<char>::empty(), "attn_k"@, "self_attn.k_proj."@, 0);
    }
    let s6 = replace_all(s5, "attn_v."@, "self_attn.v_proj."@);
    assert(s6 == "ffn_down"@.push('.') + (Seq::<char>::empty())) by {
        lemma_word_kept("ffn_down"@, Seq::<char>::empty(), "attn_v"@, "self_attn.v_proj."@, 0);
    }
    let s7 = replace_all(s6, "attn_output."@, "self_attn.o_proj."@);
    assert(s7 == "ffn_down"@.push('.') + (Seq::<char>::empty())) by {
        lemma_word_kept("ffn_down"@, Seq::<char>::empty(), "attn_output"@, "self_attn.o_proj."@, 0);
    }
    let s8 = replace_all(s7, "attn_out."@, "self_attn.o_proj."@);
    assert(s8 == "ffn_down"@.push('.') + (Seq::<char>::empty())) by {
        lemma_word_kept("ffn_down"@, Seq::<char>::empty(), "attn_out"@, "self_attn.o_proj."@, 0);
    }
    let s9 = replace_all(s8, "ffn_gate."@, "mlp.gate_proj."@);
    assert(s9 == "ffn_down"@.push('.') + (Seq::<char>::empty())) by {
        lemma_word_kept("ffn_down"@, Seq::<char>::empty(), "ffn_gate"@, "mlp.gate_proj."@, 4);
    }
    let s10 = replace_all(s9, "ffn_up."@, "mlp.up_proj."@);
    assert(s10 == "ffn_down"@.push('.') + (Seq::<char>::empty())) by {
        lemma_word_kept("ffn_down"@, Seq::<char>::empty(), "ffn_up"@, "mlp.up_proj."@, 0);
    }
    let s11 = replace_all(s10, "ffn_down."@, "mlp.down_proj."@);
    assert(s11 == "mlp"@.push('.') + ("down_proj"@.push('.') + (Seq::<char>::empty()))) by {
        lemma_word_replaced("ffn_down"@, Seq::<char>::empty(), "mlp.down_proj."@);
        assert("mlp.down_proj."@ + (Seq::<char>::empty()) =~= "mlp"@.push('.') + ("down_proj"@.push('.') + (Seq::<char>::empty())));
    }
    let s12 = replace_all(s11, "post_attention_norm."@, "post_attention_layernorm."@);
    assert(s12 == "mlp"@.push('.') + ("down_proj"@.push('.') + (Seq::<char>::empty()))) by {
        lemma_word_kept("mlp"@, "down_proj"@.push('.') + (Seq::<char>::empty()), "post_attention_norm"@, "post_attention_layernorm."@, 0);
        lemma_word_kept("down_proj"@, Seq::<char>::empty(), "post_attention_norm"@, "post_attention_layernorm."@, 0);
    }
    let s13 = replace_all(s12, "attn_norm."@, "input_layernorm."@);
    assert(s13 == "mlp"@.push('.') + ("down_proj"@.push('.') + (Seq::<char>::empty()))) by {
        lemma_word_kept("mlp"@, "down_proj"@.push('.') + (Seq::<char>::empty()), "attn_norm"@, "input_layernorm."@, 0);
        lemma_word_kept("down_proj"@, Seq::<char>::empty(), "attn_norm"@, "input_layernorm."@, 0);
    }
    let s14 = replace_all(s13, "ffn_norm."@, "post_attention_layernorm."@);
    assert(s14 == "mlp"@.push('.') + ("down_proj"@.push('.') + (Seq::<char>::empty()))) by {
        lemma_word_kept("mlp"@, "down_proj"@.push('.') + (Seq::<char>::empty()), "ffn_norm"@, "post_attention_layernorm."@, 0);
        lemma_word_kept("down_proj"@, Seq::<char>::empty(), "ffn_norm"@, "post_attention_layernorm."@, 0);
    }
    let s15 = replace_all(s14, "token_embd."@, "embed_tokens."@);
    assert(s15 == "mlp"@.push('.') + ("down_proj"@.push('.') + (Seq::<char>::empty()))) by {
        lemma_word_kept("mlp"@, "down_proj"@.push('.') + (Seq::<char>::empty()), "token_embd"@, "embed_tokens."@, 0);
        lemma_word_kept("down_proj"@, Seq::<char>::empty(), "token_embd"@, "embed_tokens."@, 0);
    }
    let s16 = replace_all(s15, "output_norm."@, "norm."@);
    assert(s16 == "mlp"@.push('.') + ("down_proj"@.push('.') + (Seq::<char>::empty()))) by {
        lemma_word_kept("mlp"@, "down_proj"@.push('.') + (Seq::<char>::empty()), "output_norm"@, "norm."@, 0);
        lemma_word_kept("down_proj"@, Seq::<char>::empty(), "output_norm"@, "norm."@, 0);
    }
    let s17 = replace_all(s16, "output."@, "lm_head."@);
    assert(s17 == "mlp"@.push('.') + ("down_proj"@.push('.') + (Seq::<char>::empty()))) by {
        lemma_word_kept("mlp"@, "down_proj"@.push('.') + (Seq::<char>::empty()), "output"@, "lm_head."@, 0);
        lemma_word_kept("down_proj"@, Seq::<char>::empty(), "output"@, "lm_head."@, 0);
    }
    assert("mlp"@.push('.') + ("down_proj"@.push('.') + (Seq::<char>::empty())) =~= "mlp.down_proj."@);
}

/// `ffn_norm.` is renamed `post_attention_layernorm.`.
proof fn lemma_normalized_word_ffn_norm()
    ensures
        normalized_key("ffn_norm."@) == "post_attention_layernorm."@,
{
    lemma_rule_literals();
    reveal_strlit("attn_k");
    reveal_strlit("attn_k_norm");
    reveal_strlit("attn_norm");
    reveal_strlit("attn_out");
    reveal_strlit("attn_output");
    reveal_strlit("attn_q");
    reveal_strlit("attn_q_norm");
    reveal_strlit("attn_v");
    reveal_strlit("blk");
    reveal_strlit("ffn_down");
    reveal_strlit("ffn_gate");
    reveal_strlit("ffn_norm");
    reveal_strlit("ffn_norm.");
    reveal_strlit("ffn_up");
    reveal_strlit("output");
    reveal_strlit("output_norm");
    reveal_strlit("post_attention_layernorm");
    reveal_strlit("post_attention_layernorm.");
    reveal_strlit("post_attention_norm");
    reveal_strlit("token_embd");
    assert(no_dot("attn_k"@));
    assert(no_dot("attn_k_norm"@));
    assert(no_dot("attn_norm"@));
    assert(no_dot("attn_out"@));
    assert(no_dot("attn_output"@));
    assert(no_dot("attn_q"@));
    assert(no_dot("attn_q_norm"@));
    assert(no_dot("attn_v"@));
    assert(no_dot("blk"@));
    assert(no_dot("ffn_down"@));
    assert(no_dot("ffn_gate"@));
    assert(no_dot("ffn_norm"@));
    assert(no_dot("ffn_up"@));
    assert(no_dot("output"@));
    assert(no_dot("output_norm"@));
    assert(no_dot("post_attention_layernorm"@));
    assert(no_dot("post_attention_norm"@));
    assert(no_dot("token_embd"@));
    let s0 = "ffn_norm."@;
    assert(s0 =~= "ffn_norm"@.push('.') + (Seq::<char>::empty()));
    let s1 = replace_all(s0, "blk."@, "layers."@);
    assert(s1 == "ffn_norm"@.push('.') + (Seq::<char>::empty())) by {
        lemma_word_kept("ffn_norm"@, Seq::<char>::empty(), "blk"@, "layers."@, 0);
    }
    let s2 = replace_all(s1, "attn_q_norm."@, "self_attn.q_norm."@);
    assert(s2 == "ffn_norm"@.push('.') + (Seq::<char>::empty())) by {
        lemma_word_kept("ffn_norm"@, Seq::<char>::empty(), "attn_q_norm"@, "self_attn.q_norm."@, 0);
    }
    let s3 = replace_all(s2, "attn_k_norm."@, "self_attn.k_norm."@);
    assert(s3 == "ffn_norm"@.push('.') + (Seq::<char>::empty())) by {
        lemma_word_kept("ffn_norm"@, Seq::<char>::empty(), "attn_k_norm"@, "self_attn.k_norm."@, 0);
    }
    let s4 = replace_all(s3, "attn_q."@, "self_attn.q_proj."@);
    assert(s4 == "ffn_norm"@.push('.') + (Seq::<char>::empty())) by {
        lemma_word_kept("ffn_norm"@, Seq::<char>::empty(), "attn_q"@, "self_attn.q_proj."@, 0);
    }
    let s5 = replace_all(s4, "attn_k."@, "self_attn.k_proj."@);
    assert(s5 == "ffn_norm"@.push('.') + (Seq::<char>::empty())) by {
        lemma_word_kept("ffn_norm"@, Seq::<char>::empty(), "attn_k"@, "self_attn.k_proj."@, 0);
    }
    let s6 = replace_all(s5, "attn_v."@, "self_attn.v_proj."@);
    assert(s6 == "ffn_norm"@.push('.') + (Seq::<char>::empty())) by {
        lemma_word_kept("ffn_norm"@, Seq::<char>::empty(), "attn_v"@, "self_attn.v_proj."@, 0);
    }
    let s7 = replace_all(s6, "attn_output."@, "self_attn.o_proj."@);
    assert(s7 == "ffn_norm"@.push('.') + (Seq::<char>::empty())) by {
        lemma_word_kept("ffn_norm"@, Seq::<char>::empty(), "attn_output"@, "self_attn.o_proj."@, 0);
    }
    let s8 = replace_all(s7, "attn_out."@, "self_attn.o_proj."@);
    assert(s8 == "ffn_norm"@.push('.') + (Seq::<char>::empty())) by {
        lemma_word_kept("ffn_norm"@, Seq::<char>::empty(), "attn_out"@, "self_attn.o_proj."@, 0);
    }
    let s9 = replace_all(s8, "ffn_gate."@, "mlp.gate_proj."@);
    assert(s9 == "ffn_norm"@.push('.') + (Seq::<char>::empty())) by {
        lemma_word_kept("ffn_norm"@, Seq::<char>::empty(), "ffn_gate"@, "mlp.gate_proj."@, 4);
    }
    let s10 = replace_all(s9, "ffn_up."@, "mlp.up_proj."@);
    assert(s10 == "ffn_norm"@.push('.') + (Seq::<char>::empty())) by {
        lemma_word_kept("ffn_norm"@, Seq::<char>::empty(), "ffn_up"@, "mlp.up_proj."@, 0);
    }
    let s11 = replace_all(s10, "ffn_down."@, "mlp.down_proj."@);
    assert(s11 == "ffn_norm"@.push('.') + (Seq::<char>::empty())) by {
        lemma_word_kept("ffn_norm"@, Seq::<char>::empty(), "ffn_down"@, "mlp.down_proj."@, 4);
    }
    let s12 = replace_all(s11, "post_attention_norm."@, "post_attention_layernorm."@);
    assert(s12 == "ffn_norm"@.push('.') + (Seq::<char>::empty())) by {
        lemma_word_kept("ffn_norm"@, Seq::<char>::empty(), "post_attention_norm"@, "post_attention_layernorm."@, 0);
    }
    let s13 = replace_all(s12, "attn_norm."@, "input_layernorm."@);
    assert(s13 == "ffn_norm"@.push('.') + (Seq::<char>::empty())) by {
        lemma_word_kept("ffn_norm"@, Seq::<char>::empty(), "attn_norm"@, "input_layernorm."@, 0);
    }
    let s14 = replace_all(s13, "ffn_norm."@, "post_attention_layernorm."@);
    assert(s14 == "post_attention_layernorm"@.push('.') + (Seq::<char>::empty())) by {
        lemma_word_replaced("ffn_norm"@, Seq::<char>::empty(), "post_attention_layernorm."@);
        assert("post_attention_layernorm."@ + (Seq::<char>::empty()) =~= "post_attention_layernorm"@.push('.') + (Seq::<char>::empty()));
    }
    let s15 = replace_all(s14, "token_embd."@, "embed_tokens."@);
    assert(s15 == "post_attention_layernorm"@.push('.') + (Seq::<char>::empty())) by {
        lemma_word_kept("post_attention_layernorm"@, Seq::<char>::empty(), "token_embd"@, "embed_tokens."@, 0);
    }
    let s16 = replace_all(s15, "output_norm."@, "norm."@);
    assert(s16 == "post_attention_layernorm"@.push('.') + (Seq::<char>::empty())) by {
        lemma_word_kept("post_attention_layernorm"@, Seq::<char>::empty(), "output_norm"@, "norm."@, 0);
    }
    let s17 = replace_all(s16, "output."@, "lm_head."@);
    assert(s17 == "post_attention_layernorm"@.push('.') + (Seq::<char>::empty())) by {
        lemma_word_kept("post_attention_layernorm"@, Seq::<char>::empty(), "output"@, "lm_head."@, 0);
    }
    assert("post_attention_layernorm"@.push('.') + (Seq::<char>::empty()) =~= "post_attention_layernorm."@);
}

/// `token_embd.` is renamed `embed_tokens.`.
proof fn lemma_normalized_word_token_embd()
    ensures
        normalized_key("token_embd."@) == "embed_tokens."@,
{
    lemma_rule_literals();
    reveal_strlit("attn_k");
    reveal_strlit("attn_k_norm");
    reveal_strlit("attn_norm");
    reveal_strlit("attn_out");
    reveal_strlit("attn_output");
    reveal_strlit("attn_q");
    reveal_strlit("attn_q_norm");
    reveal_strlit("attn_v");
    reveal_strlit("blk");
    reveal_strlit("embed_tokens");
    reveal_strlit("embed_tokens.");
    reveal_strlit("ffn_down");
    reveal_strlit("ffn_gate");
    reveal_strlit("ffn_norm");
    reveal_strlit("ffn_up");
    reveal_strlit("output");
    reveal_strlit("output_norm");
    reveal_strlit("post_attention_norm");
    reveal_strlit("token_embd");
    reveal_strlit("token_embd.");
    assert(no_dot("attn_k"@));
    assert(no_dot("attn_k_norm"@));
    assert(no_dot("attn_norm"@));
    assert(no_dot("attn_out"@));
    assert(no_dot("attn_output"@));
    assert(no_dot("attn_q"@));
    assert(no_dot("attn_q_norm"@));
    assert(no_dot("attn_v"@));
    assert(no_dot("blk"@));
    assert(no_dot("embed_tokens"@));
    assert(no_dot("ffn_down"@));
    assert(no_dot("ffn_gate"@));
    assert(no_dot("ffn_norm"@));
    assert(no_dot("ffn_up"@));
    assert(no_dot("output"@));
    assert(no_dot("output_norm"@));
    assert(no_dot("post_attention_norm"@));
    assert(no_dot("token_embd"@));
    let s0 = "token_embd."@;
    assert(s0 =~= "token_embd"@.push('.') + (Seq::<char>::empty()));
    let s1 = replace_all(s0, "blk."@, "layers."@);
    assert(s1 == "token_embd"@.push('.') + (Seq::<char>::empty())) by {
        lemma_word_kept("token_embd"@, Seq::<char>::empty(), "blk"@, "layers."@, 0);
    }
    let s2 = replace_all(s1, "attn_q_norm."@, "self_attn.q_norm."@);
    assert(s2 == "token_embd"@.push('.') + (Seq::<char>::empty())) by {
        lemma_word_kept("token_embd"@, Seq::<char>::empty(), "attn_q_norm"@, "self_attn.q_norm."@, 0);
    }
    let s3 = replace_all(s2, "attn_k_norm."@, "self_attn.k_norm."@);
    assert(s3 == "token_embd"@.push('.') + (Seq::<char>::empty())) by {
        lemma_word_kept("token_embd"@, Seq::<char>::empty(), "attn_k_norm"@, "self_attn.k_norm."@, 0);
    }
    let s4 = replace_all(s3, "attn_q."@, "self_attn.q_proj."@);
    assert(s4 == "token_embd"@.push('.') + (Seq::<char>::empty())) by {
        lemma_word_kept("token_embd"@, Seq::<char>::empty(), "attn_q"@, "self_attn.q_proj."@, 0);
    }
    let s5 = replace_all(s4, "attn_k."@, "self_attn.k_proj."@);
    assert(s5 == "token_embd"@.push('.') + (Seq::<char>::empty())) by {
        lemma_word_kept("token_embd"@, Seq::<char>::empty(), "attn_k"@, "self_attn.k_proj."@, 0);
    }
    let s6 = replace_all(s5, "attn_v."@, "self_attn.v_proj."@);
    assert(s6 == "token_embd"@.push('.') + (Seq::<char>::empty())) by {
        lemma_word_kept("token_embd"@, Seq::<char>::empty(), "attn_v"@, "self_attn.v_proj."@, 0);
    }
    let s7 = replace_all(s6, "attn_output."@, "self_attn.o_proj."@);
    assert(s7 == "token_embd"@.push('.') + (Seq::<char>::empty())) by {
        lemma_word_kept("token_embd"@, Seq::<char>::empty(), "attn_output"@, "self_attn.o_proj."@, 0);
    }
    let s8 = replace_all(s7, "attn_out."@, "self_attn.o_proj."@);
    assert(s8 == "token_embd"@.push('.') + (Seq::<char>::empty())) by {
        lemma_word_kept("token_embd"@, Seq::<char>::empty(), "attn_out"@, "self_attn.o_proj."@, 0);
    }
    let s9 = replace_all(s8, "ffn_gate."@, "mlp.gate_proj."@);
    assert(s9 == "token_embd"@.push('.') + (Seq::<char>::empty())) by {
        lemma_word_kept("token_embd"@, Seq::<char>::empty(), "ffn_gate"@, "mlp.gate_proj."@, 0);
    }
    let s10 = replace_all(s9, "ffn_up."@, "mlp.up_proj."@);
    assert(s10 == "token_embd"@.push('.') + (Seq::<char>::empty())) by {
        lemma_word_kept("token_embd"@, Seq::<char>::empty(), "ffn_up"@, "mlp.up_proj."@, 0);
    }
    let s11 = replace_all(s10, "ffn_down."@, "mlp.down_proj."@);
    assert(s11 == "token_embd"@.push('.') + (Seq::<char>::empty())) by {
        lemma_word_kept("token_embd"@, Seq::<char>::empty(), "ffn_down"@, "mlp.down_proj."@, 0);
    }
    let s12 = replace_all(s11, "post_attention_norm."@, "post_attention_layernorm."@);
    assert(s12 == "token_embd"@.push('.') + (Seq::<char>::empty())) by {
        lemma_word_kept("token_embd"@, Seq::<char>::empty(), "post_attention_norm"@, "post_attention_layernorm."@, 0);
    }
    let s13 = replace_all(s12, "attn_norm."@, "input_layernorm."@);
    assert(s13 == "token_embd"@.push('.') + (Seq::<char>::empty())) by {
        lemma_word_kept("token_embd"@, Seq::<char>::empty(), "attn_norm"@, "input_layernorm."@, 0);
    }
    let s14 = replace_all(s13, "ffn_norm."@, "post_attention_layernorm."@);
    assert(s14 == "token_embd"@.push('.') + (Seq::<char>::empty())) by {
        lemma_word_kept("token_embd"@, Seq::<char>::empty(), "ffn_norm"@, "post_attention_layernorm."@, 0);
    }
    let s15 = replace_all(s14, "token_embd."@, "embed_tokens."@);
    assert(s15 == "embed_tokens"@.push('.') + (Seq::<char>::empty())) by {
        lemma_word_replaced("token_embd"@, Seq::<char>::empty(), "embed_tokens."@);
        assert("embed_tokens."@ + (Seq::<char>::empty()) =~= "embed_tokens"@.push('.') + (Seq::<char>::empty()));
    }
    let s16 = replace_all(s15, "output_norm."@, "norm."@);
    assert(s16 == "embed_tokens"@.push('.') + (Seq::<char>::empty())) by {
        lemma_word_kept("embed_tokens"@, Seq::<char>::empty(), "output_norm"@, "norm."@, 0);
    }
    let s17 = replace_all(s16, "output."@, "lm_head."@);
    assert(s17 == "embed_tokens"@.push('.') + (Seq::<char>::empty())) by {
        lemma_word_kept("embed_tokens"@, Seq::<char>::empty(), "output"@, "lm_head."@, 0);
    }
    assert("embed_tokens"@.push('.') + (Seq::<char>::empty()) =~= "embed_tokens."@);
}

/// `output_norm.` is renamed `norm.`.
proof fn lemma_normalized_word_output_norm()
    ensures
        normalized_key("output_norm."@) == "norm."@,
{
    lemma_rule_literals();
    reveal_strlit("attn_k");
    reveal_strlit("attn_k_norm");
    reveal_strlit("attn_norm");
    reveal_strlit("attn_out");
    reveal_strlit("attn_output");
    reveal_strlit("attn_q");
    reveal_strlit("attn_q_norm");
    reveal_strlit("attn_v");
    reveal_strlit("blk");
    reveal_strlit("ffn_down");
    reveal_strlit("ffn_gate");
    reveal_strlit("ffn_norm");
    reveal_strlit("ffn_up");
    reveal_strlit("norm");
    reveal_strlit("norm.");
    reveal_strlit("output");
    reveal_strlit("output_norm");
    reveal_strlit("output_norm.");
    reveal_strlit("post_attention_norm");
    reveal_strlit("token_embd");
    assert(no_dot("attn_k"@));
    assert(no_dot("attn_k_norm"@));
    assert(no_dot("attn_norm"@));
    assert(no_dot("attn_out"@));
    assert(no_dot("attn_output"@));
    assert(no_dot("attn_q"@));
    assert(no_dot("attn_q_norm"@));
    assert(no_dot("attn_v"@));
    assert(no_dot("blk"@));
    assert(no_dot("ffn_down"@));
    assert(no_dot("ffn_gate"@));
    assert(no_dot("ffn_norm"@));
    assert(no_dot("ffn_up"@));
    assert(no_dot("norm"@));
    assert(no_dot("output"@));
    assert(no_dot("output_norm"@));
    assert(no_dot("post_attention_norm"@));
    assert(no_dot("token_embd"@));
    let s0 = "output_norm."@;
    assert(s0 =~= "output_norm"@.push('.') + (Seq::<char>::empty()));
    let s1 = replace_all(s0, "blk."@, "layers."@);
    assert(s1 == "output_norm"@.push('.') + (Seq::<char>::empty())) by {
        lemma_word_kept("output_norm"@, Seq::<char>::empty(), "blk"@, "layers."@, 0);
    }
    let s2 = replace_all(s1, "attn_q_norm."@, "self_attn.q_norm."@);
    assert(s2 == "output_norm"@.push('.') + (Seq::<char>::empty())) by {
        lemma_word_kept("output_norm"@, Seq::<char>::empty(), "attn_q_norm"@, "self_attn.q_norm."@, 0);
    }
    let s3 = replace_all(s2, "attn_k_norm."@, "self_attn.k_norm."@);
    assert(s3 == "output_norm"@.push('.') + (Seq::<char>::empty())) by {
        lemma_word_kept("output_norm"@, Seq::<char>::empty(), "attn_k_norm"@, "self_attn.k_norm."@, 0);
    }
    let s4 = replace_all(s3, "attn_q."@, "self_attn.q_proj."@);
    assert(s4 == "output_norm"@.push('.') + (Seq::<char>::empty())) by {
        lemma_word_kept("output_norm"@, Seq::<char>::empty(), "attn_q"@, "self_attn.q_proj."@, 0);
    }
    let s5 = replace_all(s4, "attn_k."@, "self_attn.k_proj."@);
    assert(s5 == "output_norm"@.push('.') + (Seq::<char>::empty())) by {
        lemma_word_kept("output_norm"@, Seq::<char>::empty(), "attn_k"@, "self_attn.k_proj."@, 0);
    }
    let s6 = replace_all(s5, "attn_v."@, "self_attn.v_proj."@);
    assert(s6 == "output_norm"@.push('.') + (Seq::<char>::empty())) by {
        lemma_word_kept("output_norm"@, Seq::<char>::empty(), "attn_v"@, "self_attn.v_proj."@, 0);
    }
    let s7 = replace_all(s6, "attn_output."@, "self_attn.o_proj."@);
    assert(s7 == "output_norm"@.push('.') + (Seq::<char>::empty())) by {
        lemma_word_kept("output_norm"@, Seq::<char>::empty(), "attn_output"@, "self_attn.o_proj."@, 0);
    }
    let s8 = replace_all(s7, "attn_out."@, "self_attn.o_proj."@);
    assert(s8 == "output_norm"@.push('.') + (Seq::<char>::empty())) by {
        lemma_word_kept("output_norm"@, Seq::<char>::empty(), "attn_out"@, "self_attn.o_proj."@, 0);
    }
    let s9 = replace_all(s8, "ffn_gate."@, "mlp.gate_proj."@);
    assert(s9 == "output_norm"@.push('.') + (Seq::<char>::empty())) by {
        lemma_word_kept("output_norm"@, Seq::<char>::empty(), "ffn_gate"@, "mlp.gate_proj."@, 0);
    }
    let s10 = replace_all(s9, "ffn_up."@, "mlp.up_proj."@);
    assert(s10 == "output_norm"@.push('.') + (Seq::<char>::empty())) by {
        lemma_word_kept("output_norm"@, Seq::<char>::empty(), "ffn_up"@, "mlp.up_proj."@, 0);
    }
    let s11 = replace_all(s10, "ffn_down."@, "mlp.down_proj."@);
    assert(s11 == "output_norm"@.push('.') + (Seq::<char>::empty())) by {
        lemma_word_kept("output_norm"@, Seq::<char>::empty(), "ffn_down"@, "mlp.down_proj."@, 0);
    }
    let s12 = replace_all(s11, "post_attention_norm."@, "post_attention_layernorm."@);
    assert(s12 == "output_norm"@.push('.') + (Seq::<char>::empty())) by {
        lemma_word_kept("output_norm"@, Seq::<char>::empty(), "post_attention_norm"@, "post_attention_layernorm."@, 0);
    }
    let s13 = replace_all(s12, "attn_norm."@, "input_layernorm."@);
    assert(s13 == "output_norm"@.push('.') + (Seq::<char>::empty())) by {
        lemma_word_kept("output_norm"@, Seq::<char>::empty(), "attn_norm"@, "input_layernorm."@, 0);
    }
    let s14 = replace_all(s13, "ffn_norm."@, "post_attention_layernorm."@);
    assert(s14 == "output_norm"@.push('.') + (Seq::<char>::empty())) by {
        lemma_word_kept("output_norm"@, Seq::<char>::empty(), "ffn_norm"@, "post_attention_layernorm."@, 0);
    }
    let s15 = replace_all(s14, "token_embd."@, "embed_tokens."@);
    assert(s15 == "output_norm"@.push('.') + (Seq::<char>::empty())) by {
        lemma_word_kept("output_norm"@, Seq::<char>::empty(), "token_embd"@, "embed_tokens."@, 0);
    }
    let s16 = replace_all(s15, "output_norm."@, "norm."@);
    assert(s16 == "norm"@.push('.') + (Seq::<char>::empty())) by {
        lemma_word_replaced("output_norm"@, Seq::<char>::empty(), "norm."@);
        assert("norm."@ + (Seq::<char>::empty()) =~= "norm"@.push('.') + (Seq::<char>::empty()));
    }
    let s17 = replace_all(s16, "output."@, "lm_head."@);
    assert(s17 == "norm"@.push('.') + (Seq::<char>::empty())) by {
        lemma_word_kept("norm"@, Seq::<char>::empty(), "output"@, "lm_head."@, 0);
    }
    assert("norm"@.push('.') + (Seq::<char>::empty()) =~= "norm."@);
}

/// `output.` is renamed `lm_head.`.
proof fn lemma_normalized_word_output()
    ensures
        normalized_key("output."@) == "lm_head."@,
{
    lemma_rule_literals();
    reveal_strlit("attn_k");
    reveal_strlit("attn_k_norm");
    reveal_strlit("attn_norm");
    reveal_strlit("attn_out");
    reveal_strlit("attn_output");
    reveal_strlit("attn_q");
    reveal_strlit("attn_q_norm");
    reveal_strlit("attn_v");
    reveal_strlit("blk");
    reveal_strlit("ffn_down");
    reveal_strlit("ffn_gate");
    reveal_strlit("ffn_norm");
    reveal_strlit("ffn_up");
    reveal_strlit("lm_head");
    reveal_strlit("lm_head.");
    reveal_strlit("output");
    reveal_strlit("output.");
    reveal_strlit("output_norm");
    reveal_strlit("post_attention_norm");
    reveal_strlit("token_embd");
    assert(no_dot("attn_k"@));
    assert(no_dot("attn_k_norm"@));
    assert(no_dot("attn_norm"@));
    assert(no_dot("attn_out"@));
    assert(no_dot("attn_output"@));
    assert(no_dot("attn_q"@));
    assert(no_dot("attn_q_norm"@));
    assert(no_dot("attn_v"@));
    assert(no_dot("blk"@));
    assert(no_dot("ffn_down"@));
    assert(no_dot("ffn_gate"@));
    assert(no_dot("ffn_norm"@));
    assert(no_dot("ffn_up"@));
    assert(no_dot("lm_head"@));
    assert(no_dot("output"@));
    assert(no_dot("output_norm"@));
    assert(no_dot("post_attention_norm"@));
    assert(no_dot("token_embd"@));
    let s0 = "output."@;
    assert(s0 =~= "output"@.push('.') + (Seq::<char>::empty()));
    let s1 = replace_all(s0, "blk."@, "layers."@);
    assert(s1 == "output"@.push('.') + (Seq::<char>::empty())) by {
        lemma_word_kept("output"@, Seq::<char>::empty(), "blk"@, "layers."@, 0);
    }
    let s2 = replace_all(s1, "attn_q_norm."@, "self_attn.q_norm."@);
    assert(s2 == "output"@.push('.') + (Seq::<char>::empty())) by {
        lemma_word_kept("output"@, Seq::<char>::empty(), "attn_q_norm"@, "self_attn.q_norm."@, 0);
    }
    let s3 = replace_all(s2, "attn_k_norm."@, "self_attn.k_norm."@);
    assert(s3 == "output"@.push('.') + (Seq::<char>::empty())) by {
        lemma_word_kept("output"@, Seq::<char>::empty(), "attn_k_norm"@, "self_attn.k_norm."@, 0);
    }
    let s4 = replace_all(s3, "attn_q."@, "self_attn.q_proj."@);
    assert(s4 == "output"@.push('.') + (Seq::<char>::empty())) by {
        lemma_word_kept("output"@, Seq::<char>::empty(), "attn_q"@, "self_attn.q_proj."@, 0);
    }
    let s5 = replace_all(s4, "attn_k."@, "self_attn.k_proj."@);
    assert(s5 == "output"@.push('.') + (Seq::<char>::empty())) by {
        lemma_word_kept("output"@, Seq::<char>::empty(), "attn_k"@, "self_attn.k_proj."@, 0);
    }
    let s6 = replace_all(s5, "attn_v."@, "self_attn.v_proj."@);
    assert(s6 == "output"@.push('.') + (Seq::<char>::empty())) by {
        lemma_word_kept("output"@, Seq::<char>::empty(), "attn_v"@, "self_attn.v_proj."@, 0);
    }
    let s7 = replace_all(s6, "attn_output."@, "self_attn.o_proj."@);
    assert(s7 == "output"@.push('.') + (Seq::<char>::empty())) by {
        lemma_word_kept("output"@, Seq::<char>::empty(), "attn_output"@, "self_attn.o_proj."@, 0);
    }
    let s8 = replace_all(s7, "attn_out."@, "self_attn.o_proj."@);
    assert(s8 == "output"@.push('.') + (Seq::<char>::empty())) by {
        lemma_word_kept("output"@, Seq::<char>::empty(), "attn_out"@, "self_attn.o_proj."@, 0);
    }
    let s9 = replace_all(s8, "ffn_gate."@, "mlp.gate_proj."@);
    assert(s9 == "output"@.push('.') + (Seq::<char>::empty())) by {
        lemma_word_kept("output"@, Seq::<char>::empty(), "ffn_gate"@, "mlp.gate_proj."@, 0);
    }
    let s10 = replace_all(s9, "ffn_up."@, "mlp.up_proj."@);
    assert(s10 == "output"@.push('.') + (Seq::<char>::empty())) by {
        lemma_word_kept("output"@, Seq::<char>::empty(), "ffn_up"@, "mlp.up_proj."@, 0);
    }
    let s11 = replace_all(s10, "ffn_down."@, "mlp.down_proj."@);
    assert(s11 == "output"@.push('.') + (Seq::<char>::empty())) by {
        lemma_word_kept("output"@, Seq::<char>::empty(), "ffn_down"@, "mlp.down_proj."@, 0);
    }
    let s12 = replace_all(s11, "post_attention_norm."@, "post_attention_layernorm."@);
    assert(s12 == "output"@.push('.') + (Seq::<char>::empty())) by {
        lemma_word_kept("output"@, Seq::<char>::empty(), "post_attention_norm"@, "post_attention_layernorm."@, 0);
    }
    let s13 = replace_all(s12, "attn_norm."@, "input_layernorm."@);
    assert(s13 == "output"@.push('.') + (Seq::<char>::empty())) by {
        lemma_word_kept("output"@, Seq::<char>::empty(), "attn_norm"@, "input_layernorm."@, 0);
    }
    let s14 = replace_all(s13, "ffn_norm."@, "post_attention_layernorm."@);
    assert(s14 == "output"@.push('.') + (Seq::<char>::empty())) by {
        lemma_word_kept("output"@, Seq::<char>::empty(), "ffn_norm"@, "post_attention_layernorm."@, 0);
    }
    let s15 = replace_all(s14, "token_embd."@, "embed_tokens."@);
    assert(s15 == "output"@.push('.') + (Seq::<char>::empty())) by {
        lemma_word_kept("output"@, Seq::<char>::empty(), "token_embd"@, "embed_tokens."@, 0);
    }
    let s16 = replace_all(s15, "output_norm."@, "norm."@);
    assert(s16 == "output"@.push('.') + (Seq::<char>::empty())) by {
        lemma_word_kept("output"@, Seq::<char>::empty(), "output_norm"@, "norm."@, 0);
    }
    let s17 = replace_all(s16, "output."@, "lm_head."@);
    assert(s17 == "lm_head"@.push('.') + (Seq::<char>::empty())) by {
        lemma_word_replaced("output"@, Seq::<char>::empty(), "lm_head."@);
        assert("lm_head."@ + (Seq::<char>::empty()) =~= "lm_head"@.push('.') + (Seq::<char>::empty()));
    }
    assert("lm_head"@.push('.') + (Seq::<char>::empty()) =~= "lm_head."@);
}

/// The tensor `w` (a dot-terminated part renamed `h`) of layer `d`, with
/// a dot-free suffix.
proof fn lemma_layer_key(d: Seq<char>, suffix: Seq<char>, w: Seq<char>, h: Seq<char>)
    requires
        d.len() > 0,
        all_digits(d),
        no_dot(suffix),
        w.len() > 0,
        w.last() == '.',
        normalized_key(w) == h,
    ensures
        normalized_key("blk."@ + d + "."@ + w + suffix) == "layers."@ + d + "."@ + h + suffix,
{
    lemma_normalized_digits(d);
    lemma_normalized_plain(suffix);
    lemma_normalized_word_blk();
    reveal_strlit("blk.");
    reveal_strlit("layers.");
    reveal_strlit(".");
    let dd = d.push('.');
    assert("blk."@ + d + "."@ + w + suffix =~= "blk."@ + (dd + (w + suffix)));
    lemma_normalized_key_split(w, suffix);
    lemma_normalized_key_split(dd, w + suffix);
    lemma_normalized_key_split("blk."@, dd + (w + suffix));
    assert("layers."@ + (dd + (h + suffix)) =~= "layers."@ + d + "."@ + h + suffix);
}

/// `blk.N.attn_q.` followed by a dot-free suffix is renamed `layers.N.self_attn.q_proj.`.
proof fn lemma_layer_key_attn_q(d: Seq<char>, suffix: Seq<char>)
    requires
        d.len() > 0,
        all_digits(d),
        no_dot(suffix),
    ensures
        normalized_key("blk."@ + d + ".attn_q."@ + suffix) == "layers."@ + d + ".self_attn.q_proj."@ + suffix,
{
    reveal_strlit(".");
    reveal_strlit(".attn_q.");
    reveal_strlit(".self_attn.q_proj.");
    reveal_strlit("attn_q.");
    reveal_strlit("self_attn.q_proj.");
    lemma_normalized_word_attn_q();
    lemma_layer_key(d, suffix, "attn_q."@, "self_attn.q_proj."@);
    assert(".attn_q."@ =~= "."@ + "attn_q."@);
    assert(".self_attn.q_proj."@ =~= "."@ + "self_attn.q_proj."@);
    assert(("blk."@ + d) + ("."@ + "attn_q."@) =~= (("blk."@ + d) + "."@) + "attn_q."@);
    assert(("layers."@ + d) + ("."@ + "self_attn.q_proj."@) =~= (("layers."@ + d) + "."@) + "self_attn.q_proj."@);
}

/// `blk.N.attn_k.` followed by a dot-free suffix is renamed `layers.N.self_attn.k_proj.`.
proof fn lemma_layer_key_attn_k(d: Seq<char>, suffix: Seq<char>)
    requires
        d.len() > 0,
        all_digits(d),
        no_dot(suffix),
    ensures
        normalized_key("blk."@ + d + ".attn_k."@ + suffix) == "layers."@ + d + ".self_attn.k_proj."@ + suffix,
{
    reveal_strlit(".");
    reveal_strlit(".attn_k.");
    reveal_strlit(".self_attn.k_proj.");
    reveal_strlit("attn_k.");
    reveal_strlit("self_attn.k_proj.");
    lemma_normalized_word_attn_k();
    lemma_layer_key(d, suffix, "attn_k."@, "self_attn.k_proj."@);
    assert(".attn_k."@ =~= "."@ + "attn_k."@);
    assert(".self_attn.k_proj."@ =~= "."@ + "self_attn.k_proj."@);
    assert(("blk."@ + d) + ("."@ + "attn_k."@) =~= (("blk."@ + d) + "."@) + "attn_k."@);
    assert(("layers."@ + d) + ("."@ + "self_attn.k_proj."@) =~= (("layers."@ + d) + "."@) + "self_attn.k_proj."@);
}

/// `blk.N.attn_v.` followed by a dot-free suffix is renamed `layers.N.self_attn.v_proj.`.
proof fn lemma_layer_key_attn_v(d: Seq<char>, suffix: Seq<char>)
    requires
        d.len() > 0,
        all_digits(d),
        no_dot(suffix),
    ensures
        normalized_key("blk."@ + d + ".attn_v."@ + suffix) == "layers."@ + d + ".self_attn.v_proj."@ + suffix,
{
    reveal_strlit(".");
    reveal_strlit(".attn_v.");
    reveal_strlit(".self_attn.v_proj.");
    reveal_strlit("attn_v.");
    reveal_strlit("self_attn.v_proj.");
    lemma_normalized_word_attn_v();
    lemma_layer_key(d, suffix, "attn_v."@, "self_attn.v_proj."@);
    assert(".attn_v."@ =~= "."@ + "attn_v."@);
    assert(".self_attn.v_proj."@ =~= "."@ + "self_attn.v_proj."@);
    assert(("blk."@ + d) + ("."@ + "attn_v."@) =~= (("blk."@ + d) + "."@) + "attn_v."@);
    assert(("layers."@ + d) + ("."@ + "self_attn.v_proj."@) =~= (("layers."@ + d) + "."@) + "self_attn.v_proj."@);
}

/// `blk.N.attn_output.` followed by a dot-free suffix is renamed `layers.N.self_attn.o_proj.`.
proof fn lemma_layer_key_attn_output(d: Seq<char>, suffix: Seq<char>)
    requires
        d.len() > 0,
        all_digits(d),
        no_dot(suffix),
    ensures
        normalized_key("blk."@ + d + ".attn_output."@ + suffix) == "layers."@ + d + ".self_attn.o_proj."@ + suffix,
{
    reveal_strlit(".");
    reveal_strlit(".attn_output.");
    reveal_strlit(".self_attn.o_proj.");
    reveal_strlit("attn_output.");
    reveal_strlit("self_attn.o_proj.");
    lemma_normalized_word_attn_output();
    lemma_layer_key(d, suffix, "attn_output."@, "self_attn.o_proj."@);
    assert(".attn_output."@ =~= "."@ + "attn_output."@);
    assert(".self_attn.o_proj."@ =~= "."@ + "self_attn.o_proj."@);
    assert(("blk."@ + d) + ("."@ + "attn_output."@) =~= (("blk."@ + d) + "."@) + "attn_output."@);
    assert(("layers."@ + d) + ("."@ + "self_attn.o_proj."@) =~= (("layers."@ + d) + "."@) + "self_attn.o_proj."@);
}

/// `blk.N.attn_out.` followed by a dot-free suffix is renamed `layers.N.self_attn.o_proj.`.
proof fn lemma_layer_key_attn_out(d: Seq<char>, suffix: Seq<char>)
    requires
        d.len() > 0,
        all_digits(d),
        no_dot(suffix),
    ensures
        normalized_key("blk."@ + d + ".attn_out."@ + suffix) == "layers."@ + d + ".self_attn.o_proj."@ + suffix,
{
    reveal_strlit(".");
    reveal_strlit(".attn_out.");
    reveal_strlit(".self_attn.o_proj.");
    reveal_strlit("attn_out.");
    reveal_strlit("self_attn.o_proj.");
    lemma_normalized_word_attn_out();
    lemma_layer_key(d, suffix, "attn_out."@, "self_attn.o_proj."@);
    assert(".attn_out."@ =~= "."@ + "attn_out."@);
    assert(".self_attn.o_proj."@ =~= "."@ + "self_attn.o_proj."@);
    assert(("blk."@ + d) + ("."@ + "attn_out."@) =~= (("blk."@ + d) + "."@) + "attn_out."@);
    assert(("layers."@ + d) + ("."@ + "self_attn.o_proj."@) =~= (("layers."@ + d) + "."@) + "self_attn.o_proj."@);
}

/// `blk.N.attn_q_norm.` followed by a dot-free suffix is renamed `layers.N.self_attn.q_norm.`.
proof fn lemma_layer_key_attn_q_norm(d: Seq<char>, suffix: Seq<char>)
    requires
        d.len() > 0,
        all_digits(d),
        no_dot(suffix),
    ensures
        normalized_key("blk."@ + d + ".attn_q_norm."@ + suffix) == "layers."@ + d + ".self_attn.q_norm."@ + suffix,
{
    reveal_strlit(".");
    reveal_strlit(".attn_q_norm.");
    reveal_strlit(".self_attn.q_norm.");
    reveal_strlit("attn_q_norm.");
    reveal_strlit("self_attn.q_norm.");
    lemma_normalized_word_attn_q_norm();
    lemma_layer_key(d, suffix, "attn_q_norm."@, "self_attn.q_norm."@);
    assert(".attn_q_norm."@ =~= "."@ + "attn_q_norm."@);
    assert(".self_attn.q_norm."@ =~= "."@ + "self_attn.q_norm."@);
    assert(("blk."@ + d) + ("."@ + "attn_q_norm."@) =~= (("blk."@ + d) + "."@) + "attn_q_norm."@);
    assert(("layers."@ + d) + ("."@ + "self_attn.q_norm."@) =~= (("layers."@ + d) + "."@) + "self_attn.q_norm."@);
}

/// `blk.N.attn_k_norm.` followed by a dot-free suffix is renamed `layers.N.self_attn.k_norm.`.
proof fn lemma_layer_key_attn_k_norm(d: Seq<char>, suffix: Seq<char>)
    requires
        d.len() > 0,
        all_digits(d),
        no_dot(suffix),
    ensures
        normalized_key("blk."@ + d + ".attn_k_norm."@ + suffix) == "layers."@ + d + ".self_attn.k_norm."@ + suffix,
{
    reveal_strlit(".");
    reveal_strlit(".attn_k_norm.");
    reveal_strlit(".self_attn.k_norm.");
    reveal_strlit("attn_k_norm.");
    reveal_strlit("self_attn.k_norm.");
    lemma_normalized_word_attn_k_norm();
    lemma_layer_key(d, suffix, "attn_k_norm."@, "self_attn.k_norm."@);
    assert(".attn_k_norm."@ =~= "."@ + "attn_k_norm."@);
    assert(".self_attn.k_norm."@ =~= "."@ + "self_attn.k_norm."@);
    assert(("blk."@ + d) + ("."@ + "attn_k_norm."@) =~= (("blk."@ + d) + "."@) + "attn_k_norm."@);
    assert(("layers."@ + d) + ("."@ + "self_attn.k_norm."@) =~= (("layers."@ + d) + "."@) + "self_attn.k_norm."@);
}

/// `blk.N.attn_norm.` followed by a dot-free suffix is renamed `layers.N.input_layernorm.`.
proof fn lemma_layer_key_attn_norm(d: Seq<char>, suffix: Seq<char>)
    requires
        d.len() > 0,
        all_digits(d),
        no_dot(suffix),
    ensures
        normalized_key("blk."@ + d + ".attn_norm."@ + suffix) == "layers."@ + d + ".input_layernorm."@ + suffix,
{
    reveal_strlit(".");
    reveal_strlit(".attn_norm.");
    reveal_strlit(".input_layernorm.");
    reveal_strlit("attn_norm.");
    reveal_strlit("input_layernorm.");
    lemma_normalized_word_attn_norm();
    lemma_layer_key(d, suffix, "attn_norm."@, "input_layernorm."@);
    assert(".attn_norm."@ =~= "."@ + "attn_norm."@);
    assert(".input_layernorm."@ =~= "."@ + "input_layernorm."@);
    assert(("blk."@ + d) + ("."@ + "attn_norm."@) =~= (("blk."@ + d) + "."@) + "attn_norm."@);
    assert(("layers."@ + d) + ("."@ + "input_layernorm."@) =~= (("layers."@ + d) + "."@) + "input_layernorm."@);
}

/// `blk.N.post_attention_norm.` followed by a dot-free suffix is renamed `layers.N.post_attention_layernorm.`.
proof fn lemma_layer_key_post_attention_norm(d: Seq<char>, suffix: Seq<char>)
    requires
        d.len() > 0,
        all_digits(d),
        no_dot(suffix),
    ensures
        normalized_key("blk."@ + d + ".post_attention_norm."@ + suffix) == "layers."@ + d + ".post_attention_layernorm."@ + suffix,
{
    reveal_strlit(".");
    reveal_strlit(".post_attention_layernorm.");
    reveal_strlit(".post_attention_norm.");
    reveal_strlit("post_attention_layernorm.");
    reveal_strlit("post_attention_norm.");
    lemma_normalized_word_post_attention_norm();
    lemma_layer_key(d, suffix, "post_attention_norm."@, "post_attention_layernorm."@);
    assert(".post_attention_norm."@ =~= "."@ + "post_attention_norm."@);
    assert(".post_attention_layernorm."@ =~= "."@ + "post_attention_layernorm."@);
    assert(("blk."@ + d) + ("."@ + "post_attention_norm."@) =~= (("blk."@ + d) + "."@) + "post_attention_norm."@);
    assert(("layers."@ + d) + ("."@ + "post_attention_layernorm."@) =~= (("layers."@ + d) + "."@) + "post_attention_layernorm."@);
}

/// `blk.N.ffn_gate.` followed by a dot-free suffix is renamed `layers.N.mlp.gate_proj.`.
proof fn lemma_layer_key_ffn_gate(d: Seq<char>, suffix: Seq<char>)
    requires
        d.len() > 0,
        all_digits(d),
        no_dot(suffix),
    ensures
        normalized_key("blk."@ + d + ".ffn_gate."@ + suffix) == "layers."@ + d + ".mlp.gate_proj."@ + suffix,
{
    reveal_strlit(".");
    reveal_strlit(".ffn_gate.");
    reveal_strlit(".mlp.gate_proj.");
    reveal_strlit("ffn_gate.");
    reveal_strlit("mlp.gate_proj.");
    lemma_normalized_word_ffn_gate();
    lemma_layer_key(d, suffix, "ffn_gate."@, "mlp.gate_proj."@);
    assert(".ffn_gate."@ =~= "."@ + "ffn_gate."@);
    assert(".mlp.gate_proj."@ =~= "."@ + "mlp.gate_proj."@);
    assert(("blk."@ + d) + ("."@ + "ffn_gate."@) =~= (("blk."@ + d) + "."@) + "ffn_gate."@);
    assert(("layers."@ + d) + ("."@ + "mlp.gate_proj."@) =~= (("layers."@ + d) + "."@) + "mlp.gate_proj."@);
}

/// `blk.N.ffn_up.` followed by a dot-free suffix is renamed `layers.N.mlp.up_proj.`.
proof fn lemma_layer_key_ffn_up(d: Seq<char>, suffix: Seq<char>)
    requires
        d.len() > 0,
        all_digits(d),
        no_dot(suffix),
    ensures
        normalized_key("blk."@ + d + ".ffn_up."@ + suffix) == "layers."@ + d + ".mlp.up_proj."@ + suffix,
{
    reveal_strlit(".");
    reveal_strlit(".ffn_up.");
    reveal_strlit(".mlp.up_proj.");
    reveal_strlit("ffn_up.");
    reveal_strlit("mlp.up_proj.");
    lemma_normalized_word_ffn_up();
    lemma_layer_key(d, suffix, "ffn_up."@, "mlp.up_proj."@);
    assert(".ffn_up."@ =~= "."@ + "ffn_up."@);
    assert(".mlp.up_proj."@ =~= "."@ + "mlp.up_proj."@);
    assert(("blk."@ + d) + ("."@ + "ffn_up."@) =~= (("blk."@ + d) + "."@) + "ffn_up."@);
    assert(("layers."@ + d) + ("."@ + "mlp.up_proj."@) =~= (("layers."@ + d) + "."@) + "mlp.up_proj."@);
}

/// `blk.N.ffn_down.` followed by a dot-free suffix is renamed `layers.N.mlp.down_proj.`.
proof fn lemma_layer_key_ffn_down(d: Seq<char>, suffix: Seq<char>)
    requires
        d.len() > 0,
        all_digits(d),
        no_dot(suffix),
    ensures
        normalized_key("blk."@ + d + ".ffn_down."@ + suffix) == "layers."@ + d + ".mlp.down_proj."@ + suffix,
{
    reveal_strlit(".");
    reveal_strlit(".ffn_down.");
    reveal_strlit(".mlp.down_proj.");
    reveal_strlit("ffn_down.");
    reveal_strlit("mlp.down_proj.");
    lemma_normalized_word_ffn_down();
    lemma_layer_key(d, suffix, "ffn_down."@, "mlp.down_proj."@);
    assert(".ffn_down."@ =~= "."@ + "ffn_down."@);
    assert(".mlp.down_proj."@ =~= "."@ + "mlp.down_proj."@);
    assert(("blk."@ + d) + ("."@ + "ffn_down."@) =~= (("blk."@ + d) + "."@) + "ffn_down."@);
    assert(("layers."@ + d) + ("."@ + "mlp.down_proj."@) =~= (("layers."@ + d) + "."@) + "mlp.down_proj."@);
}

/// `blk.N.ffn_norm.` followed by a dot-free suffix is renamed `layers.N.post_attention_layernorm.`.
proof fn lemma_layer_key_ffn_norm(d: Seq<char>, suffix: Seq<char>)
    requires
        d.len() > 0,
        all_digits(d),
        no_dot(suffix),
    ensures
        normalized_key("blk."@ + d + ".ffn_norm."@ + suffix) == "layers."@ + d + ".post_attention_layernorm."@ + suffix,
{
    reveal_strlit(".");
    reveal_strlit(".ffn_norm.");
    reveal_strlit(".post_attention_layernorm.");
    reveal_strlit("ffn_norm.");
    reveal_strlit("post_attention_layernorm.");
    lemma_normalized_word_ffn_norm();
    lemma_layer_key(d, suffix, "ffn_norm."@, "post_attention_layernorm."@);
    assert(".ffn_norm."@ =~= "."@ + "ffn_norm."@);
    assert(".post_attention_layernorm."@ =~= "."@ + "post_attention_layernorm."@);
    assert(("blk."@ + d) + ("."@ + "ffn_norm."@) =~= (("blk."@ + d) + "."@) + "ffn_norm."@);
    assert(("layers."@ + d) + ("."@ + "post_attention_layernorm."@) =~= (("layers."@ + d) + "."@) + "post_attention_layernorm."@);
}

/// Law: the tensors of layer N are renamed to the Hugging Face names of
/// that layer, for every layer number N and whatever dot-free suffix
/// (`weight`, `bias`) follows: each component gets its own name, so no two
/// components of a layer but `attn_output`/`attn_out` share a key.
pub proof fn lemma_layer_tensor_keys(d: Seq<char>, suffix: Seq<char>)
    requires
        d.len() > 0,
        all_digits(d),
        no_dot(suffix),
    ensures
        normalized_key("blk."@ + d + ".attn_q."@ + suffix) == "layers."@ + d + ".self_attn.q_proj."@ + suffix,
        normalized_key("blk."@ + d + ".attn_k."@ + suffix) == "layers."@ + d + ".self_attn.k_proj."@ + suffix,
        normalized_key("blk."@ + d + ".attn_v."@ + suffix) == "layers."@ + d + ".self_attn.v_proj."@ + suffix,
        normalized_key("blk."@ + d + ".attn_output."@ + suffix) == "layers."@ + d + ".self_attn.o_proj."@ + suffix,
        normalized_key("blk."@ + d + ".attn_out."@ + suffix) == "layers."@ + d + ".self_attn.o_proj."@ + suffix,
        normalized_key("blk."@ + d + ".attn_q_norm."@ + suffix) == "layers."@ + d + ".self_attn.q_norm."@ + suffix,
        normalized_key("blk."@ + d + ".attn_k_norm."@ + suffix) == "layers."@ + d + ".self_attn.k_norm."@ + suffix,
        normalized_key("blk."@ + d + ".attn_norm."@ + suffix) == "layers."@ + d + ".input_layernorm."@ + suffix,
        normalized_key("blk."@ + d + ".post_attention_norm."@ + suffix) == "layers."@ + d + ".post_attention_layernorm."@ + suffix,
        normalized_key("blk."@ + d + ".ffn_gate."@ + suffix) == "layers."@ + d + ".mlp.gate_proj."@ + suffix,
        normalized_key("blk."@ + d + ".ffn_up."@ + suffix) == "layers."@ + d + ".mlp.up_proj."@ + suffix,
        normalized_key("blk."@ + d + ".ffn_down."@ + suffix) == "layers."@ + d + ".mlp.down_proj."@ + suffix,
        normalized_key("blk."@ + d + ".ffn_norm."@ + suffix) == "layers."@ + d + ".post_attention_layernorm."@ + suffix,
{
    lemma_layer_key_attn_q(d, suffix);
    lemma_layer_key_attn_k(d, suffix);
    lemma_layer_key_attn_v(d, suffix);
    lemma_layer_key_attn_output(d, suffix);
    lemma_layer_key_attn_out(d, suffix);
    lemma_layer_key_attn_q_norm(d, suffix);
    lemma_layer_key_attn_k_norm(d, suffix);
    lemma_layer_key_attn_norm(d, suffix);
    lemma_layer_key_post_attention_norm(d, suffix);
    lemma_layer_key_ffn_gate(d, suffix);
    lemma_layer_key_ffn_up(d, suffix);
    lemma_layer_key_ffn_down(d, suffix);
    lemma_layer_key_ffn_norm(d, suffix);
}

/// Law: the embedding, the final norm and the output head are renamed
/// whatever dot-free suffix follows them.
pub proof fn lemma_top_tensor_keys(suffix: Seq<char>)
    requires
        no_dot(suffix),
    ensures
        normalized_key("token_embd."@ + suffix) == "embed_tokens."@ + suffix,
        normalized_key("output_norm."@ + suffix) == "norm."@ + suffix,
        normalized_key("output."@ + suffix) == "lm_head."@ + suffix,
{
    lemma_normalized_plain(suffix);
    lemma_normalized_word_token_embd();
    reveal_strlit("token_embd.");
    lemma_normalized_key_split("token_embd."@, suffix);
    lemma_normalized_word_output_norm();
    reveal_strlit("output_norm.");
    lemma_normalized_key_split("output_norm."@, suffix);
    lemma_normalized_word_output();
    reveal_strlit("output.");
    lemma_normalized_key_split("output."@, suffix);
}

/// Rewrites a GGUF tensor name (`blk.N.attn_q.weight`) to the Hugging Face
/// convention (`layers.N.self_attn.q_proj.weight`) by a fixed sequence of
/// substring replacements.
pub fn normalize_gguf_key(name: &str) -> (r: String)
    ensures
        r@ == normalized_key(name@),
{
    let s0 = chars_of(name);
    proof {
        reveal_strlit("blk.");
    }
    let s1 = replace_str(s0.as_slice(), "blk.", "layers.");
    proof {
        reveal_strlit("attn_q_norm.");
    }
    let s2 = replace_str(s1.as_slice(), "attn_q_norm.", "self_attn.q_norm.");
    proof {
        reveal_strlit("attn_k_norm.");
    }
    let s3 = replace_str(s2.as_slice(), "attn_k_norm.", "self_attn.k_norm.");
    proof {
        reveal_strlit("attn_q.");
    }
    let s4 = replace_str(s3.as_slice(), "attn_q.", "self_attn.q_proj.");
    proof {
        reveal_strlit("attn_k.");
    }
    let s5 = replace_str(s4.as_slice(), "attn_k.", "self_attn.k_proj.");
    proof {
        reveal_strlit("attn_v.");
    }
    let s6 = replace_str(s5.as_slice(), "attn_v.", "self_attn.v_proj.");
    proof {
        reveal_strlit("attn_output.");
    }
    let s7 = replace_str(s6.as_slice(), "attn_output.", "self_attn.o_proj.");
    proof {
        reveal_strlit("attn_out.");
    }
    let s8 = replace_str(s7.as_slice(), "attn_out.", "self_attn.o_proj.");
    proof {
        reveal_strlit("ffn_gate.");
    }
    let s9 = replace_str(s8.as_slice(), "ffn_gate.", "mlp.gate_proj.");
    proof {
        reveal_strlit("ffn_up.");
    }
    let s10 = replace_str(s9.as_slice(), "ffn_up.", "mlp.up_proj.");
    proof {
        reveal_strlit("ffn_down.");
    }
    let s11 = replace_str(s10.as_slice(), "ffn_down.", "mlp.down_proj.");
    proof {
        reveal_strlit("post_attention_norm.");
    }
    let s12 = replace_str(s11.as_slice(), "post_attention_norm.", "post_attention_layernorm.");
    proof {
        reveal_strlit("attn_norm.");
    }
    let s13 = replace_str(s12.as_slice(), "attn_norm.", "input_layernorm.");
    proof {
        reveal_strlit("ffn_norm.");
    }
    let s14 = replace_str(s13.as_slice(), "ffn_norm.", "post_attention_layernorm.");
    proof {
        reveal_strlit("token_embd.");
    }
    let s15 = replace_str(s14.as_slice(), "token_embd.", "embed_tokens.");
    proof {
        reveal_strlit("output_norm.");
    }
    let s16 = replace_str(s15.as_slice(), "output_norm.", "norm.");
    proof {
        reveal_strlit("output.");
    }
    let s17 = replace_str(s16.as_slice(), "output.", "lm_head.");
    string_from_chars(s17.as_slice())
}

/// Whether a tensor-name component names part of attention.
pub open spec fn is_attention_component_spec(c: Seq<char>) -> bool {
    starts_with(c, "attn_"@) || c == "attn"@ || c == "post_attention_norm"@
}

/// Whether a tensor-name component names part of attention: it starts
/// with `attn_`, or is `attn` or `post_attention_norm`.
pub fn is_attention_component(component: &[char]) -> (r: bool)
    ensures
        r == is_attention_component_spec(component@),
{
    let p = chars_of("attn_");
    assert(component@.skip(0) == component@);
    starts_with_at(component, 0, p.as_slice()) || chars_eq_str(component, "attn") || chars_eq_str(
        component,
        "post_attention_norm",
    )
}

/// The role an attention component plays.
pub open spec fn attention_role_spec(c: Seq<char>) -> Seq<char> {
    if c == "attn_qkv"@ {
        "qkv_fused"@
    } else if c == "attn_q"@ {
        "q"@
    } else if c == "attn_k"@ {
        "k"@
    } else if c == "attn_v"@ {
        "v"@
    } else if c == "attn_output"@ || c == "attn_out"@ {
        "o"@
    } else if c == "attn_gate"@ {
        "gate"@
    } else if c == "attn_q_norm"@ {
        "q_norm"@
    } else if c == "attn_k_norm"@ {
        "k_norm"@
    } else if c == "attn_norm"@ {
        "input_norm"@
    } else if c == "post_attention_norm"@ {
        "post_attention_norm"@
    } else {
        c
    }
}

/// Law: the projection and gate components play the role named by what
/// follows `attn_` in their name: `attn_q` is `q`, `attn_k` is `k`,
/// `attn_v` is `v`, and so for `attn_gate`, `attn_q_norm` and
/// `attn_k_norm`.
pub proof fn lemma_attention_role_suffix(c: Seq<char>)
    requires
        c == "attn_q"@ || c == "attn_k"@ || c == "attn_v"@ || c == "attn_gate"@ || c
            == "attn_q_norm"@ || c == "attn_k_norm"@,
    ensures
        attention_role_spec(c) == c.skip(5),
{
    reveal_strlit("attn_qkv");
    reveal_strlit("attn_q");
    reveal_strlit("attn_k");
    reveal_strlit("attn_v");
    reveal_strlit("attn_gate");
    reveal_strlit("attn_q_norm");
    reveal_strlit("attn_k_norm");
    reveal_strlit("attn_output");
    reveal_strlit("attn_out");
    reveal_strlit("q");
    reveal_strlit("k");
    reveal_strlit("v");
    reveal_strlit("gate");
    reveal_strlit("q_norm");
    reveal_strlit("k_norm");
    if c == "attn_q"@ {
        assert(c.skip(5) =~= "q"@);
    } else if c == "attn_k"@ {
        assert(c.skip(5) =~= "k"@);
    } else if c == "attn_v"@ {
        assert(c.skip(5) =~= "v"@);
    } else if c == "attn_gate"@ {
        assert(c.skip(5) =~= "gate"@);
    } else if c == "attn_q_norm"@ {
        assert(c[5] != "attn_output"@[5]);
        assert(c.skip(5) =~= "q_norm"@);
    } else {
        assert(c[5] != "attn_output"@[5]);
        assert(c[6] != "attn_q_norm"@[6] || c[5] != "attn_q_norm"@[5]);
        assert(c.skip(5) =~= "k_norm"@);
    }
}

/// Law: distinct attention components play distinct roles; only
/// `attn_output` and `attn_out` share one (`o`).
pub proof fn lemma_attention_roles_distinct(c1: Seq<char>, c2: Seq<char>)
    requires
        is_attention_component_spec(c1),
        is_attention_component_spec(c2),
        attention_role_spec(c1) == attention_role_spec(c2),
    ensures
        c1 == c2 || ((c1 == "attn_output"@ || c1 == "attn_out"@) && (c2 == "attn_output"@ || c2
            == "attn_out"@)),
{
    reveal_strlit("attn_");
    reveal_strlit("attn");
    reveal_strlit("qkv_fused");
    reveal_strlit("q");
    reveal_strlit("k");
    reveal_strlit("v");
    reveal_strlit("o");
    reveal_strlit("gate");
    reveal_strlit("q_norm");
    reveal_strlit("k_norm");
    reveal_strlit("input_norm");
    reveal_strlit("post_attention_norm");
    reveal_strlit("attn_qkv");
    reveal_strlit("attn_q");
    reveal_strlit("attn_k");
    reveal_strlit("attn_v");
    reveal_strlit("attn_output");
    reveal_strlit("attn_out");
    reveal_strlit("attn_gate");
    reveal_strlit("attn_q_norm");
    reveal_strlit("attn_k_norm");
    reveal_strlit("attn_norm");
    let r = attention_role_spec(c1);
    // A component that names no known part keeps its own name, which starts
    // with `a`; no known role does.
    assert forall|c: Seq<char>| is_attention_component_spec(c) implies (attention_role_spec(c).len()
        > 0 && (attention_role_spec(c)[0] == 'a' <==> attention_role_spec(c) == c && c
        != "post_attention_norm"@)) by {
        if starts_with(c, "attn_"@) {
            assert(c[0] == "attn_"@[0]);
        }
    }
    let known1 = r[0] != 'a';
    if r[0] == 'a' {
        assert(c1 == r && c2 == r);
    } else {
        // Two known roles: equal roles come from the same component, or from
        // the two names of the output projection.
        assert(r.len() == attention_role_spec(c2).len());
        if r.len() == 1 {
            assert(r[0] == attention_role_spec(c2)[0]);
        } else {
            assert(r[0] == attention_role_spec(c2)[0]);
            assert(r.len() == attention_role_spec(c2).len());
        }
    }
}

/// The role an attention component plays (`q`, `k`, `v`, `o`, ...); an
/// unknown component is its own role.
pub fn attention_role(component: &[char]) -> (r: Vec<char>)
    ensures
        r@ == attention_role_spec(component@),
{
    if chars_eq_str(component, "attn_qkv") {
        chars_of("qkv_fused")
    } else if chars_eq_str(component, "attn_q") {
        chars_of("q")
    } else if chars_eq_str(component, "attn_k") {
        chars_of("k")
    } else if chars_eq_str(component, "attn_v") {
        chars_of("v")
    } else if chars_eq_str(component, "attn_output") || chars_eq_str(component, "attn_out") {
        chars_of("o")
    } else if chars_eq_str(component, "attn_gate") {
        chars_of("gate")
    } else if chars_eq_str(component, "attn_q_norm") {
        chars_of("q_norm")
    } else if chars_eq_str(component, "attn_k_norm") {
        chars_of("k_norm")
    } else if chars_eq_str(component, "attn_norm") {
        chars_of("input_norm")
    } else if chars_eq_str(component, "post_attention_norm") {
        chars_of("post_attention_norm")
    } else {
        slice_to_vec(component, 0, component.len())
    }
}

/// Where an attention tensor sits: its scope (`decoder`, `mtp` or
/// `vision`), its layer if the layer field is a number, its component and
/// the last name part.
pub open spec fn classify_spec(name: Seq<char>) -> Option<(Seq<char>, Option<usize>, Seq<char>, Seq<char>)> {
    let parts = split_on(name, '.');
    let head = if parts.len() >= 2 && parts[0] == "blk"@ {
        Some(("decoder"@, parse_usize_spec(parts[1]), 2int))
    } else if parts.len() >= 3 && parts[0] == "mtp"@ && parts[1] == "layers"@ {
        Some(("mtp"@, parse_usize_spec(parts[2]), 3int))
    } else if parts.len() >= 3 && parts[0] == "v"@ && parts[1] == "blk"@ {
        Some(("vision"@, parse_usize_spec(parts[2]), 3int))
    } else {
        None
    };
    match head {
        None => None,
        Some((scope, layer, idx)) => if idx < parts.len() && is_attention_component_spec(parts[idx]) {
            Some((scope, layer, parts[idx], parts.last()))
        } else {
            None
        },
    }
}

/// Classifies a GGUF tensor name as an attention tensor: `blk.L.C...`
/// (decoder), `mtp.layers.L.C...` (multi-token prediction) or
/// `v.blk.L.C...` (vision), where component `C` is an attention component.
/// Gives the scope, the layer (when `L` parses), the component and the
/// last dotted part of the name.
pub fn classify_attention_tensor(name: &str) -> (r: Option<(&'static str, Option<usize>, String, String)>)
    ensures
        match classify_spec(name@) {
            None => r is None,
            Some((scope, layer, comp, param)) => r matches Some(x) && x.0@ == scope && x.1 == layer
                && x.2@ == comp && x.3@ == param,
        },
{
    let cs = chars_of(name);
    let parts = split_chars(cs.as_slice(), '.');
    proof {
        assert(parts@.len() >= 1) by {
            crate::text::lemma_split_nonempty(name@, '.');
        }
    }
    let n = parts.len();
    let (scope, layer, idx): (&'static str, Option<usize>, usize) = if n >= 2 && chars_eq_str(
        parts[0].as_slice(),
        "blk",
    ) {
        ("decoder", parse_usize(parts[1].as_slice()), 2)
    } else if n >= 3 && chars_eq_str(parts[0].as_slice(), "mtp") && chars_eq_str(
        parts[1].as_slice(),
        "layers",
    ) {
        ("mtp", parse_usize(parts[2].as_slice()), 3)
    } else if n >= 3 && chars_eq_str(parts[0].as_slice(), "v") && chars_eq_str(
        parts[1].as_slice(),
        "blk",
    ) {
        ("vision", parse_usize(parts[2].as_slice()), 3)
    } else {
        return None;
    };
    if idx >= n {
        return None;
    }
    if !is_attention_component(parts[idx].as_slice()) {
        return None;
    }
    let component = string_from_chars(parts[idx].as_slice());
    let param = string_from_chars(parts[n - 1].as_slice());
    Some((scope, layer, component, param))
}

/// Which attention tensors an inventory lists.
#[derive(Debug, Clone, Copy, PartialEq, Eq, Structural)]
pub enum AttentionInventoryScope {
    /// Decoder layers only.
    Decoder,
    /// Decoder and multi-token-prediction layers.
    DecoderMtp,
    /// Decoder, multi-token-prediction and vision layers.
    All,
}

impl AttentionInventoryScope {
    /// Whether a tensor of the given scope belongs to this inventory scope.
    pub open spec fn includes_spec(self, tensor_scope: Seq<char>) -> bool {
        match self {
            AttentionInventoryScope::Decoder => tensor_scope == "decoder"@,
            AttentionInventoryScope::DecoderMtp => tensor_scope == "decoder"@ || tensor_scope == "mtp"@,
            AttentionInventoryScope::All => tensor_scope == "decoder"@ || tensor_scope == "mtp"@
                || tensor_scope == "vision"@,
        }
    }

    /// Whether a tensor of the given scope belongs to this inventory scope.
    pub fn includes(self, tensor_scope: &str) -> (r: bool)
        ensures
            r == self.includes_spec(tensor_scope@),
    {
        let t = chars_of(tensor_scope);
        match self {
            AttentionInventoryScope::Decoder => chars_eq_str(t.as_slice(), "decoder"),
            AttentionInventoryScope::DecoderMtp => chars_eq_str(t.as_slice(), "decoder")
                || chars_eq_str(t.as_slice(), "mtp"),
            AttentionInventoryScope::All => chars_eq_str(t.as_slice(), "decoder") || chars_eq_str(
                t.as_slice(),
                "mtp",
            ) || chars_eq_str(t.as_slice(), "vision"),
        }
    }

    /// The kebab-case name of the scope.
    pub fn as_str(self) -> (r: &'static str)
        ensures
            r@ == match self {
                AttentionInventoryScope::Decoder => "decoder"@,
                AttentionInventoryScope::DecoderMtp => "decoder-mtp"@,
                AttentionInventoryScope::All => "all"@,
            },
    {
        match self {
            AttentionInventoryScope::Decoder => "decoder",
            AttentionInventoryScope::DecoderMtp => "decoder-mtp",
            AttentionInventoryScope::All => "all",
        }
    }
}

/// One row of an attention tensor inventory.
#[derive(Debug, Clone)]
pub struct GgufTensorSummary {
    pub name: String,
    pub normalized_name: String,
    pub scope: String,
    pub component: String,
    pub role: String,
    pub param: String,
    pub layer: Option<usize>,
    pub dims: Vec<u64>,
    pub ggml_type_id: u32,
    pub ggml_type: String,
    pub relative_offset: u64,
    pub absolute_offset: u64,
    pub byte_size: u64,
    pub included_in_runtime_vindex: bool,
}

// ───────────────────────── the model config ─────────────────────────

/// A float as its IEEE-754 bits, of either width.
#[derive(Debug, Clone, Copy, PartialEq, Eq, Structural)]
pub enum FloatBits {
    F32(u32),
    F64(u64),
}

/// The `config.json` fields that architecture detection reads, drawn from
/// GGUF metadata. `rope_theta` is the float `rope.freq_base` gives, if it
/// gives one (`0.0` otherwise).
#[derive(Debug)]
pub struct ModelConfigJson {
    pub model_type: String,
    pub hidden_size: u32,
    pub num_hidden_layers: u32,
    pub intermediate_size: u32,
    pub num_attention_heads: u32,
    pub num_key_value_heads: u32,
    pub head_dim: u32,
    pub rope_theta: Option<FloatBits>,
    pub vocab_size: u32,
}

/// `as_u32` of a scalar: a `U32`, or the low 32 bits of an `I32` or `U64`.
pub open spec fn scalar_as_u32(s: ScalarModel) -> Option<u32> {
    match s {
        ScalarModel::U32(x) => Some(x),
        ScalarModel::I32(x) => Some(x as u32),
        ScalarModel::U64(x) => Some(x as u32),
        _ => None,
    }
}

/// The largest `u32` among the elements (zero when there is none).
pub open spec fn max_u32(es: Seq<ScalarModel>) -> u32
    decreases es.len(),
{
    if es.len() == 0 {
        0
    } else {
        let m = max_u32(es.drop_last());
        match scalar_as_u32(es.last()) {
            Some(v) => if v > m {
                v
            } else {
                m
            },
            None => m,
        }
    }
}

/// The string value of `key`, empty when it is missing or not a string.
pub open spec fn meta_text(kvs: Seq<(Seq<char>, ValueModel)>, key: Seq<char>) -> Seq<char> {
    match lookup(kvs, key) {
        Some(ValueModel::Scalar(ScalarModel::Str(s))) => s,
        _ => Seq::empty(),
    }
}

/// The `u32` the architecture's key `{arch}.{suffix}` gives: a scalar's,
/// or the largest of an array's (as models with per-layer sizes give);
/// zero otherwise.
pub open spec fn arch_u32(kvs: Seq<(Seq<char>, ValueModel)>, arch: Seq<char>, suffix: Seq<char>) -> u32 {
    match lookup(kvs, arch + "."@ + suffix) {
        Some(ValueModel::Scalar(sc)) => match scalar_as_u32(sc) {
            Some(v) => v,
            None => 0,
        },
        Some(ValueModel::Array(es)) => max_u32(es),
        None => 0,
    }
}

/// The float the architecture's key `{arch}.{suffix}` gives.
pub open spec fn arch_float(kvs: Seq<(Seq<char>, ValueModel)>, arch: Seq<char>, suffix: Seq<char>) -> Option<
    FloatBits,
> {
    match lookup(kvs, arch + "."@ + suffix) {
        Some(ValueModel::Scalar(ScalarModel::F32(b))) => Some(FloatBits::F32(b)),
        Some(ValueModel::Scalar(ScalarModel::F64(b))) => Some(FloatBits::F64(b)),
        _ => None,
    }
}

/// The Hugging Face model type of a GGUF architecture name.
pub open spec fn hf_model_type(arch: Seq<char>) -> Seq<char> {
    if arch == "qwen"@ || arch == "qwen2"@ {
        "qwen2"@
    } else if arch == "phi"@ || arch == "phi2"@ || arch == "phi3"@ {
        "phi"@
    } else if arch == "deepseek"@ || arch == "deepseek2"@ {
        "deepseek_v2"@
    } else {
        arch
    }
}

fn scalar_as_u32_exec(s: &GgufScalar) -> (r: Option<u32>)
    ensures
        r == scalar_as_u32(s@),
{
    match s {
        GgufScalar::U32(v) => Some(*v),
        GgufScalar::I32(v) => Some(*v as u32),
        GgufScalar::U64(v) => Some(*v as u32),
        _ => None,
    }
}

impl GgufFile {
    fn arch_key(arch: &str, suffix: &str) -> (r: String)
        ensures
            r@ == arch@ + "."@ + suffix@,
    {
        let mut k = owned(arch);
        k.append(".");
        k.append(suffix);
        k
    }

    fn arch_u32_exec(&self, arch: &str, suffix: &str) -> (r: u32)
        ensures
            r == arch_u32(metadata_views(self.metadata@), arch@, suffix@),
    {
        let key = GgufFile::arch_key(arch, suffix);
        match self.get(key.as_str()) {
            Some(GgufValue::Scalar(sc)) => match scalar_as_u32_exec(sc) {
                Some(v) => v,
                None => 0,
            },
            Some(GgufValue::Array(es)) => {
                let ghost ms = scalar_views(es@);
                let mut m: u32 = 0;
                let mut i: usize = 0;
                while i < es.len()
                    invariant
                        i <= es@.len(),
                        ms == scalar_views(es@),
                        m == max_u32(ms.take(i as int)),
                    decreases es.len() - i,
                {
                    assert(ms.take(i + 1).drop_last() == ms.take(i as int));
                    assert(ms.take(i + 1).last() == es@[i as int]@);
                    match scalar_as_u32_exec(&es[i]) {
                        Some(v) => {
                            if v > m {
                                m = v;
                            }
                        },
                        None => {},
                    }
                    i = i + 1;
                }
                assert(ms.take(es.len() as int) == ms);
                m
            },
            None => 0,
        }
    }

    /// The `config.json` fields that architecture detection reads, from the
    /// metadata: the architecture (`general.architecture`) as a Hugging Face
    /// model type, and its sizes under `{arch}.`; the head size is 256 for
    /// `gemma4` with heads, else `attention.key_length`.
    pub fn to_config_json(&self) -> (r: ModelConfigJson)
        ensures
            ({
                let kvs = metadata_views(self.metadata@);
                let arch = meta_text(kvs, "general.architecture"@);
                &&& r.model_type@ == hf_model_type(arch)
                &&& r.hidden_size == arch_u32(kvs, arch, "embedding_length"@)
                &&& r.num_hidden_layers == arch_u32(kvs, arch, "block_count"@)
                &&& r.intermediate_size == arch_u32(kvs, arch, "feed_forward_length"@)
                &&& r.num_attention_heads == arch_u32(kvs, arch, "attention.head_count"@)
                &&& r.num_key_value_heads == arch_u32(kvs, arch, "attention.head_count_kv"@)
                &&& r.head_dim == if arch == "gemma4"@ && arch_u32(kvs, arch, "attention.head_count"@)
                    > 0 {
                    256
                } else {
                    arch_u32(kvs, arch, "attention.key_length"@)
                }
                &&& r.rope_theta == arch_float(kvs, arch, "rope.freq_base"@)
                &&& r.vocab_size == arch_u32(kvs, arch, "vocab_size"@)
            }),
    {
        let arch: String = match self.get("general.architecture") {
            Some(GgufValue::Scalar(GgufScalar::String(s))) => s.clone(),
            _ => String::new(),
        };
        let a = arch.as_str();
        let model_type = if crate::lql::str_eq(a, "qwen") || crate::lql::str_eq(a, "qwen2") {
            owned("qwen2")
        } else if crate::lql::str_eq(a, "phi") || crate::lql::str_eq(a, "phi2") || crate::lql::str_eq(
            a,
            "phi3",
        ) {
            owned("phi")
        } else if crate::lql::str_eq(a, "deepseek") || crate::lql::str_eq(a, "deepseek2") {
            owned("deepseek_v2")
        } else {
            owned(a)
        };
        let hidden_size = self.arch_u32_exec(a, "embedding_length");
        let num_heads = self.arch_u32_exec(a, "attention.head_count");
        let head_dim = if crate::lql::str_eq(a, "gemma4") && num_heads > 0 {
            256
        } else {
            self.arch_u32_exec(a, "attention.key_length")
        };
        let rope_key = GgufFile::arch_key(a, "rope.freq_base");
        let rope_theta = match self.get(rope_key.as_str()) {
            Some(GgufValue::Scalar(GgufScalar::F32(b))) => Some(FloatBits::F32(*b)),
            Some(GgufValue::Scalar(GgufScalar::F64(b))) => Some(FloatBits::F64(*b)),
            _ => None,
        };
        ModelConfigJson {
            model_type,
            hidden_size,
            num_hidden_layers: self.arch_u32_exec(a, "block_count"),
            intermediate_size: self.arch_u32_exec(a, "feed_forward_length"),
            num_attention_heads: num_heads,
            num_key_value_heads: self.arch_u32_exec(a, "attention.head_count_kv"),
            head_dim,
            rope_theta,
            vocab_size: self.arch_u32_exec(a, "vocab_size"),
        }
    }
}

} // verus!
