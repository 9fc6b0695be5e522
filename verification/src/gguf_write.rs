//! GGUF writer: quantization formats, the encoding of strings and metadata
//! values, and the header that precedes quantized tensor data.
//!
//! The header written here is read back by `crate::gguf` into the same
//! metadata and tensor table (`lemma_header_roundtrip`), for every metadata
//! value but a non-empty array: the writer tags each array element with its
//! type, which the reader does not expect.

use vstd::prelude::*;
use crate::gguf::{
    align_up, le, lemma_pow256, pow256, spec_metadata, spec_scalar, spec_string, spec_tensor_infos,
    spec_u32, spec_u64, spec_value, ScalarModel, ValueModel, GGUF_MAGIC, GGUF_TYPE_ARRAY,
    GGUF_TYPE_BOOL, GGUF_TYPE_FLOAT32, GGUF_TYPE_FLOAT64, GGUF_TYPE_INT16, GGUF_TYPE_INT32,
    GGUF_TYPE_INT64, GGUF_TYPE_INT8, GGUF_TYPE_STRING, GGUF_TYPE_UINT16, GGUF_TYPE_UINT32,
    GGUF_TYPE_UINT64, GGUF_TYPE_UINT8,
};
use crate::text::{chars_eq, chars_of, char_ascii_upper, ascii_upper, push_chars};

verus! {

/// The GGUF version this writer produces.
pub const GGUF_VERSION: u32 = 3;

/// GGML tensor type of 4-bit blocks.
pub const GGML_TYPE_Q4_0: u32 = 2;

/// GGML tensor type of 8-bit blocks.
pub const GGML_TYPE_Q8_0: u32 = 8;

/// GGUF quantization format.
#[derive(Debug, Clone, Copy, PartialEq, Eq, Structural)]
pub enum GgufQuantFormat {
    /// 4-bit quantization with K-means (written as Q4_0 blocks).
    Q4Km,
    /// 4-bit quantization.
    Q4_0,
    /// 8-bit quantization.
    Q8_0,
}

/// The name of a format.
pub open spec fn format_name(f: GgufQuantFormat) -> Seq<char> {
    match f {
        GgufQuantFormat::Q4Km => "Q4_K_M"@,
        GgufQuantFormat::Q4_0 => "Q4_0"@,
        GgufQuantFormat::Q8_0 => "Q8_0"@,
    }
}

/// `s` with ASCII letters upper-cased.
pub open spec fn upper(s: Seq<char>) -> Seq<char> {
    s.map_values(|c: char| ascii_upper(c))
}

/// The format named by `s`, case-insensitively.
pub open spec fn parse_format_spec(s: Seq<char>) -> Option<GgufQuantFormat> {
    if upper(s) == "Q4_K_M"@ {
        Some(GgufQuantFormat::Q4Km)
    } else if upper(s) == "Q4_0"@ {
        Some(GgufQuantFormat::Q4_0)
    } else if upper(s) == "Q8_0"@ {
        Some(GgufQuantFormat::Q8_0)
    } else {
        None
    }
}

/// The message for a name that is no format.
pub open spec fn unsupported_format_message(s: Seq<char>) -> Seq<char> {
    "Unsupported GGUF quant format '"@ + s + "'. Expected Q4_K_M, Q4_0, or Q8_0"@
}

impl GgufQuantFormat {
    /// The name of the format (`Q4_K_M`, `Q4_0` or `Q8_0`).
    pub fn name(self) -> (s: &'static str)
        ensures
            s@ == format_name(self),
    {
        match self {
            GgufQuantFormat::Q4Km => "Q4_K_M",
            GgufQuantFormat::Q4_0 => "Q4_0",
            GgufQuantFormat::Q8_0 => "Q8_0",
        }
    }

    /// Parses a format name, ignoring ASCII case. Characters outside ASCII
    /// upper-case to characters outside ASCII, so they never match a name.
    pub fn parse_name(s: &str) -> (r: Result<GgufQuantFormat, String>)
        ensures
            match parse_format_spec(s@) {
                Some(f) => r == Ok::<GgufQuantFormat, String>(f),
                None => r matches Err(m) && m@ == unsupported_format_message(s@),
            },
    {
        let cs = chars_of(s);
        let mut up: Vec<char> = Vec::new();
        let mut i: usize = 0;
        while i < cs.len()
            invariant
                i <= cs.len(),
                cs@ == s@,
                up@ == upper(cs@.take(i as int)),
            decreases cs.len() - i,
        {
            up.push(char_ascii_upper(cs[i]));
            assert(cs@.take(i + 1) == cs@.take(i as int).push(cs@[i as int]));
            i = i + 1;
        }
        assert(cs@.take(cs.len() as int) == cs@);
        let a = chars_of("Q4_K_M");
        let b = chars_of("Q4_0");
        let c = chars_of("Q8_0");
        if chars_eq(up.as_slice(), a.as_slice()) {
            Ok(GgufQuantFormat::Q4Km)
        } else if chars_eq(up.as_slice(), b.as_slice()) {
            Ok(GgufQuantFormat::Q4_0)
        } else if chars_eq(up.as_slice(), c.as_slice()) {
            Ok(GgufQuantFormat::Q8_0)
        } else {
            let mut m = String::from_str("Unsupported GGUF quant format '");
            push_chars(&mut m, cs.as_slice());
            m.append("'. Expected Q4_K_M, Q4_0, or Q8_0");
            Err(m)
        }
    }
}

impl std::str::FromStr for GgufQuantFormat {
    type Err = String;

    fn from_str(s: &str) -> (r: Result<Self, Self::Err>)
        ensures
            match parse_format_spec(s@) {
                Some(f) => r == Ok::<GgufQuantFormat, String>(f),
                None => r matches Err(m) && m@ == unsupported_format_message(s@),
            },
    {
        GgufQuantFormat::parse_name(s)
    }
}

/// GGUF quantization settings.
#[derive(Debug, Clone)]
pub struct GgufQuantConfig {
    pub format: GgufQuantFormat,
    pub block_size: usize,
}

impl Default for GgufQuantConfig {
    fn default() -> (c: Self)
        ensures
            c.format == GgufQuantFormat::Q4Km,
            c.block_size == 64,
    {
        GgufQuantConfig { format: GgufQuantFormat::Q4Km, block_size: 64 }
    }
}

/// The GGML tensor type a format writes (`Q4_K_M` is written as Q4_0
/// blocks).
pub fn format_to_ggml_type(format: GgufQuantFormat) -> (t: u32)
    ensures
        t == match format {
            GgufQuantFormat::Q4Km => GGML_TYPE_Q4_0,
            GgufQuantFormat::Q4_0 => GGML_TYPE_Q4_0,
            GgufQuantFormat::Q8_0 => GGML_TYPE_Q8_0,
        },
{
    match format {
        GgufQuantFormat::Q4Km => GGML_TYPE_Q4_0,
        GgufQuantFormat::Q4_0 => GGML_TYPE_Q4_0,
        GgufQuantFormat::Q8_0 => GGML_TYPE_Q8_0,
    }
}

/// Number of zero bytes that bring `current_pos` up to a multiple of
/// `alignment`.
pub fn padding_len(current_pos: u64, alignment: u64) -> (n: u64)
    requires
        alignment > 0,
    ensures
        current_pos + n == align_up(current_pos as nat, alignment as nat),
        n < alignment,
{
    let r = current_pos % alignment;
    proof {
        let q = current_pos / alignment;
        assert(current_pos == q * alignment + r) by (nonlinear_arith)
            requires
                alignment > 0,
                q == current_pos / alignment,
                r == current_pos % alignment,
        ;
        if r != 0 {
            assert((current_pos + alignment - 1) / alignment as int == q + 1) by (nonlinear_arith)
                requires
                    alignment > 0,
                    current_pos == q * alignment + r,
                    0 < r < alignment,
            ;
            assert((q + 1) * alignment == current_pos + (alignment - r)) by (nonlinear_arith)
                requires
                    current_pos == q * alignment + r,
            ;
        } else {
            assert((current_pos + alignment - 1) / alignment as int == q) by (nonlinear_arith)
                requires
                    alignment > 0,
                    current_pos == q * alignment,
            ;
        }
    }
    if r == 0 {
        0
    } else {
        alignment - r
    }
}

// ───────────────────────── byte encodings ─────────────────────────

/// The `n` little-endian bytes of `x`.
pub open spec fn le_bytes(x: nat, n: nat) -> Seq<u8>
    decreases n,
{
    if n == 0 {
        Seq::empty()
    } else {
        seq![(x % 256) as u8] + le_bytes(x / 256, (n - 1) as nat)
    }
}

/// A length-prefixed UTF-8 string.
pub open spec fn enc_string(s: Seq<char>) -> Seq<u8> {
    le_bytes(vstd::utf8::encode_utf8(s).len(), 8) + vstd::utf8::encode_utf8(s)
}

/// The type tag of a scalar.
pub open spec fn scalar_type_id(x: ScalarModel) -> u32 {
    match x {
        ScalarModel::U8(_) => GGUF_TYPE_UINT8,
        ScalarModel::I8(_) => GGUF_TYPE_INT8,
        ScalarModel::U16(_) => GGUF_TYPE_UINT16,
        ScalarModel::I16(_) => GGUF_TYPE_INT16,
        ScalarModel::U32(_) => GGUF_TYPE_UINT32,
        ScalarModel::I32(_) => GGUF_TYPE_INT32,
        ScalarModel::F32(_) => GGUF_TYPE_FLOAT32,
        ScalarModel::Bool(_) => GGUF_TYPE_BOOL,
        ScalarModel::Str(_) => GGUF_TYPE_STRING,
        ScalarModel::U64(_) => GGUF_TYPE_UINT64,
        ScalarModel::I64(_) => GGUF_TYPE_INT64,
        ScalarModel::F64(_) => GGUF_TYPE_FLOAT64,
    }
}

/// The bytes of a scalar, without its type tag.
pub open spec fn enc_payload(x: ScalarModel) -> Seq<u8> {
    match x {
        ScalarModel::U8(v) => le_bytes(v as nat, 1),
        ScalarModel::I8(v) => le_bytes(v as u8 as nat, 1),
        ScalarModel::U16(v) => le_bytes(v as nat, 2),
        ScalarModel::I16(v) => le_bytes(v as u16 as nat, 2),
        ScalarModel::U32(v) => le_bytes(v as nat, 4),
        ScalarModel::I32(v) => le_bytes(v as u32 as nat, 4),
        ScalarModel::F32(v) => le_bytes(v as nat, 4),
        ScalarModel::Bool(v) => le_bytes(if v {
            1nat
        } else {
            0nat
        }, 1),
        ScalarModel::Str(s) => enc_string(s),
        ScalarModel::U64(v) => le_bytes(v as nat, 8),
        ScalarModel::I64(v) => le_bytes(v as u64 as nat, 8),
        ScalarModel::F64(v) => le_bytes(v as nat, 8),
    }
}

/// A scalar with its type tag.
pub open spec fn enc_tagged(x: ScalarModel) -> Seq<u8> {
    le_bytes(scalar_type_id(x) as nat, 4) + enc_payload(x)
}

/// Tagged scalars one after the other.
pub open spec fn enc_tagged_all(xs: Seq<ScalarModel>) -> Seq<u8>
    decreases xs.len(),
{
    if xs.len() == 0 {
        Seq::empty()
    } else {
        enc_tagged_all(xs.drop_last()) + enc_tagged(xs.last())
    }
}

/// A metadata value as the writer encodes it. An array records the type of
/// its first element (`UINT32` when empty), its length, and then each
/// element with its own type tag.
pub open spec fn enc_value(v: ValueModel) -> Seq<u8> {
    match v {
        ValueModel::Scalar(x) => enc_tagged(x),
        ValueModel::Array(xs) => le_bytes(GGUF_TYPE_ARRAY as nat, 4) + le_bytes(
            if xs.len() > 0 {
                scalar_type_id(xs[0]) as nat
            } else {
                GGUF_TYPE_UINT32 as nat
            },
            4,
        ) + le_bytes(xs.len(), 8) + enc_tagged_all(xs),
    }
}

/// One metadata pair: key, then tagged value.
pub open spec fn enc_pair(kv: (Seq<char>, ValueModel)) -> Seq<u8> {
    enc_string(kv.0) + enc_value(kv.1)
}

/// Metadata pairs one after the other.
pub open spec fn enc_metadata(kvs: Seq<(Seq<char>, ValueModel)>) -> Seq<u8>
    decreases kvs.len(),
{
    if kvs.len() == 0 {
        Seq::empty()
    } else {
        enc_pair(kvs[0]) + enc_metadata(kvs.drop_first())
    }
}

/// A one-dimensional tensor to be written: its name, its element count and
/// the number of bytes of its quantized data.
pub struct TensorEntry {
    pub name: String,
    pub n_elements: u64,
    pub data_len: u64,
}

/// The mathematical content of a `TensorEntry`.
pub struct TensorEntryModel {
    pub name: Seq<char>,
    pub n_elements: u64,
    pub data_len: u64,
}

impl View for TensorEntry {
    type V = TensorEntryModel;

    open spec fn view(&self) -> TensorEntryModel {
        TensorEntryModel { name: self.name@, n_elements: self.n_elements, data_len: self.data_len }
    }
}

/// The views of the entries.
pub open spec fn entry_views(v: Seq<TensorEntry>) -> Seq<TensorEntryModel> {
    v.map_values(|t: TensorEntry| t@)
}

/// The sum of the data lengths of the entries.
pub open spec fn total_data(ts: Seq<TensorEntryModel>) -> nat
    decreases ts.len(),
{
    if ts.len() == 0 {
        0
    } else {
        ts[0].data_len as nat + total_data(ts.drop_first())
    }
}

/// The info record of one tensor at data offset `offset`.
pub open spec fn enc_tensor_info(t: TensorEntryModel, tensor_type: u32, offset: nat) -> Seq<u8> {
    enc_string(t.name) + le_bytes(1, 4) + le_bytes(t.n_elements as nat, 8) + le_bytes(
        tensor_type as nat,
        4,
    ) + le_bytes(offset, 8)
}

/// Info records of the tensors from data offset `offset` on, each at the
/// sum of the data before it.
pub open spec fn enc_tensor_infos(ts: Seq<TensorEntryModel>, tensor_type: u32, offset: nat) -> Seq<
    u8,
>
    decreases ts.len(),
{
    if ts.len() == 0 {
        Seq::empty()
    } else {
        enc_tensor_info(ts[0], tensor_type, offset) + enc_tensor_infos(
            ts.drop_first(),
            tensor_type,
            offset + ts[0].data_len as nat,
        )
    }
}

/// The header before padding: magic, version, counts, metadata and tensor
/// infos.
pub open spec fn enc_header_body(
    kvs: Seq<(Seq<char>, ValueModel)>,
    ts: Seq<TensorEntryModel>,
    tensor_type: u32,
) -> Seq<u8> {
    le_bytes(GGUF_MAGIC as nat, 4) + le_bytes(GGUF_VERSION as nat, 4) + le_bytes(ts.len(), 8)
        + le_bytes(kvs.len(), 8) + enc_metadata(kvs) + enc_tensor_infos(ts, tensor_type, 0)
}

/// The whole header: the body, then zeros up to a multiple of 32.
pub open spec fn enc_header(
    kvs: Seq<(Seq<char>, ValueModel)>,
    ts: Seq<TensorEntryModel>,
    tensor_type: u32,
) -> Seq<u8> {
    let body = enc_header_body(kvs, ts, tensor_type);
    body + Seq::new((align_up(body.len(), 32) - body.len()) as nat, |i: int| 0u8)
}


// ───────────────────────── the writer's own values ─────────────────────────

/// A metadata value to be written. Floating-point values are held as their
/// IEEE-754 bits; arrays may nest.
#[derive(Debug)]
pub enum GgufMetadataValue {
    U8(u8),
    I8(i8),
    U16(u16),
    I16(i16),
    U32(u32),
    I32(i32),
    F32(u32),
    Bool(bool),
    String(String),
    U64(u64),
    I64(i64),
    F64(u64),
    Array(Vec<GgufMetadataValue>),
}

/// The scalar a value holds, if it is no array.
pub open spec fn meta_scalar(v: GgufMetadataValue) -> Option<ScalarModel> {
    match v {
        GgufMetadataValue::U8(x) => Some(ScalarModel::U8(x)),
        GgufMetadataValue::I8(x) => Some(ScalarModel::I8(x)),
        GgufMetadataValue::U16(x) => Some(ScalarModel::U16(x)),
        GgufMetadataValue::I16(x) => Some(ScalarModel::I16(x)),
        GgufMetadataValue::U32(x) => Some(ScalarModel::U32(x)),
        GgufMetadataValue::I32(x) => Some(ScalarModel::I32(x)),
        GgufMetadataValue::F32(x) => Some(ScalarModel::F32(x)),
        GgufMetadataValue::Bool(x) => Some(ScalarModel::Bool(x)),
        GgufMetadataValue::String(x) => Some(ScalarModel::Str(x@)),
        GgufMetadataValue::U64(x) => Some(ScalarModel::U64(x)),
        GgufMetadataValue::I64(x) => Some(ScalarModel::I64(x)),
        GgufMetadataValue::F64(x) => Some(ScalarModel::F64(x)),
        GgufMetadataValue::Array(_) => None,
    }
}

/// The GGUF type tag of a value.
pub open spec fn meta_type_id(v: GgufMetadataValue) -> u32 {
    match meta_scalar(v) {
        Some(x) => scalar_type_id(x),
        None => GGUF_TYPE_ARRAY,
    }
}

/// A value as the writer encodes it: its tag, then its payload. An array
/// records the tag of its first element (`UINT32` when empty), its length,
/// and then each element, tag included.
pub open spec fn enc_meta(v: GgufMetadataValue) -> Seq<u8>
    decreases v,
{
    match v {
        GgufMetadataValue::Array(arr) => le_bytes(GGUF_TYPE_ARRAY as nat, 4) + le_bytes(
            if arr@.len() > 0 {
                meta_type_id(arr@[0]) as nat
            } else {
                GGUF_TYPE_UINT32 as nat
            },
            4,
        ) + le_bytes(arr@.len(), 8) + enc_meta_list(arr@),
        _ => match meta_scalar(v) {
            Some(x) => enc_tagged(x),
            None => Seq::empty(),
        },
    }
}

/// Values one after the other.
pub open spec fn enc_meta_list(s: Seq<GgufMetadataValue>) -> Seq<u8>
    decreases s,
{
    if s.len() == 0 {
        Seq::empty()
    } else {
        enc_meta_list(s.drop_last()) + enc_meta(s.last())
    }
}


/// Appends the `n` little-endian bytes of `x`.
fn push_le(out: &mut Vec<u8>, x: u64, n: usize)
    ensures
        final(out)@ == old(out)@ + le_bytes(x as nat, n as nat),
{
    let ghost start = out@;
    let mut y: u64 = x;
    let mut i: usize = 0;
    while i < n
        invariant
            i <= n,
            start + le_bytes(x as nat, n as nat) == out@ + le_bytes(y as nat, (n - i) as nat),
        decreases n - i,
    {
        let ghost before = out@;
        let ghost k: nat = (n - i - 1) as nat;
        assert(le_bytes(y as nat, (n - i) as nat) == seq![(y as nat % 256) as u8] + le_bytes(
            y as nat / 256,
            k,
        ));
        out.push((y % 256) as u8);
        assert(before + (seq![(y as nat % 256) as u8] + le_bytes(y as nat / 256, k)) == out@
            + le_bytes(y as nat / 256, k));
        y = y / 256;
        i = i + 1;
    }
    assert(out@ + le_bytes(y as nat, 0) == out@);
}

/// Appends a GGUF string: its UTF-8 length as eight little-endian bytes,
/// then its UTF-8 bytes.
pub fn write_string(out: &mut Vec<u8>, s: &str)
    ensures
        final(out)@ == old(out)@ + enc_string(s@),
{
    let bytes = s.as_bytes();
    let ghost start = out@;
    push_le(out, bytes.len() as u64, 8);
    let ghost mid = out@;
    let mut i: usize = 0;
    while i < bytes.len()
        invariant
            i <= bytes.len(),
            bytes@ == vstd::utf8::encode_utf8(s@),
            mid == start + le_bytes(bytes@.len(), 8),
            out@ == mid + bytes@.take(i as int),
        decreases bytes.len() - i,
    {
        out.push(bytes[i]);
        assert(bytes@.take(i + 1) == bytes@.take(i as int).push(bytes@[i as int]));
        i = i + 1;
    }
    assert(bytes@.take(bytes.len() as int) == bytes@);
}

/// The GGUF type tag of a value.
pub fn value_type_id(value: &GgufMetadataValue) -> (t: u32)
    ensures
        t == meta_type_id(*value),
{
    match value {
        GgufMetadataValue::U8(_) => GGUF_TYPE_UINT8,
        GgufMetadataValue::I8(_) => GGUF_TYPE_INT8,
        GgufMetadataValue::U16(_) => GGUF_TYPE_UINT16,
        GgufMetadataValue::I16(_) => GGUF_TYPE_INT16,
        GgufMetadataValue::U32(_) => GGUF_TYPE_UINT32,
        GgufMetadataValue::I32(_) => GGUF_TYPE_INT32,
        GgufMetadataValue::F32(_) => GGUF_TYPE_FLOAT32,
        GgufMetadataValue::Bool(_) => GGUF_TYPE_BOOL,
        GgufMetadataValue::String(_) => GGUF_TYPE_STRING,
        GgufMetadataValue::U64(_) => GGUF_TYPE_UINT64,
        GgufMetadataValue::I64(_) => GGUF_TYPE_INT64,
        GgufMetadataValue::F64(_) => GGUF_TYPE_FLOAT64,
        GgufMetadataValue::Array(_) => GGUF_TYPE_ARRAY,
    }
}

/// Appends a value, tag first (`enc_meta`).
pub fn write_value(out: &mut Vec<u8>, value: &GgufMetadataValue)
    ensures
        final(out)@ == old(out)@ + enc_meta(*value),
    decreases value,
{
    match value {
        GgufMetadataValue::U8(v) => {
            push_le(out, GGUF_TYPE_UINT8 as u64, 4);
            push_le(out, *v as u64, 1);
        },
        GgufMetadataValue::I8(v) => {
            push_le(out, GGUF_TYPE_INT8 as u64, 4);
            push_le(out, (#[verifier::truncate] (*v as u8)) as u64, 1);
        },
        GgufMetadataValue::U16(v) => {
            push_le(out, GGUF_TYPE_UINT16 as u64, 4);
            push_le(out, *v as u64, 2);
        },
        GgufMetadataValue::I16(v) => {
            push_le(out, GGUF_TYPE_INT16 as u64, 4);
            push_le(out, (#[verifier::truncate] (*v as u16)) as u64, 2);
        },
        GgufMetadataValue::U32(v) => {
            push_le(out, GGUF_TYPE_UINT32 as u64, 4);
            push_le(out, *v as u64, 4);
        },
        GgufMetadataValue::I32(v) => {
            push_le(out, GGUF_TYPE_INT32 as u64, 4);
            push_le(out, (#[verifier::truncate] (*v as u32)) as u64, 4);
        },
        GgufMetadataValue::F32(v) => {
            push_le(out, GGUF_TYPE_FLOAT32 as u64, 4);
            push_le(out, *v as u64, 4);
        },
        GgufMetadataValue::Bool(v) => {
            push_le(out, GGUF_TYPE_BOOL as u64, 4);
            push_le(out, if *v { 1 } else { 0 }, 1);
        },
        GgufMetadataValue::String(v) => {
            push_le(out, GGUF_TYPE_STRING as u64, 4);
            write_string(out, v.as_str());
        },
        GgufMetadataValue::U64(v) => {
            push_le(out, GGUF_TYPE_UINT64 as u64, 4);
            push_le(out, *v, 8);
        },
        GgufMetadataValue::I64(v) => {
            push_le(out, GGUF_TYPE_INT64 as u64, 4);
            push_le(out, #[verifier::truncate] (*v as u64), 8);
        },
        GgufMetadataValue::F64(v) => {
            push_le(out, GGUF_TYPE_FLOAT64 as u64, 4);
            push_le(out, *v, 8);
        },
        GgufMetadataValue::Array(arr) => {
            let ghost start = out@;
            push_le(out, GGUF_TYPE_ARRAY as u64, 4);
            if arr.len() > 0 {
                let t = value_type_id(&arr[0]);
                push_le(out, t as u64, 4);
            } else {
                push_le(out, GGUF_TYPE_UINT32 as u64, 4);
            }
            push_le(out, arr.len() as u64, 8);
            let ghost head = out@;
            let mut i: usize = 0;
            while i < arr.len()
                invariant
                    i <= arr.len(),
                    *value == GgufMetadataValue::Array(*arr),
                    out@ == head + enc_meta_list(arr@.take(i as int)),
                decreases arr.len() - i,
            {
                assert(decreases_to!(*value => (*value)->Array_0));
                assert(decreases_to!((*value)->Array_0 => arr@));
                assert(decreases_to!(arr@ => arr@[i as int]));
                write_value(out, &arr[i]);
                let ghost t = arr@.take(i + 1);
                assert(t.drop_last() == arr@.take(i as int));
                i = i + 1;
            }
            assert(arr@.take(arr.len() as int) == arr@);
        },
    }
}


// ───────────────────────── the header ─────────────────────────

/// Metadata pairs with their keys by their characters.
pub open spec fn meta_pair_views(v: Seq<(String, GgufMetadataValue)>) -> Seq<
    (Seq<char>, GgufMetadataValue),
> {
    v.map_values(|p: (String, GgufMetadataValue)| (p.0@, p.1))
}

/// Metadata pairs as the writer encodes them: key, then value.
pub open spec fn enc_written_pairs(kvs: Seq<(Seq<char>, GgufMetadataValue)>) -> Seq<u8>
    decreases kvs.len(),
{
    if kvs.len() == 0 {
        Seq::empty()
    } else {
        enc_string(kvs[0].0) + enc_meta(kvs[0].1) + enc_written_pairs(kvs.drop_first())
    }
}

/// The written header before padding: magic, version, tensor count,
/// metadata count, metadata, tensor infos.
pub open spec fn enc_written_body(
    kvs: Seq<(Seq<char>, GgufMetadataValue)>,
    ts: Seq<TensorEntryModel>,
    tensor_type: u32,
) -> Seq<u8> {
    le_bytes(GGUF_MAGIC as nat, 4) + le_bytes(GGUF_VERSION as nat, 4) + le_bytes(ts.len(), 8)
        + le_bytes(kvs.len(), 8) + enc_written_pairs(kvs) + enc_tensor_infos(ts, tensor_type, 0)
}

/// The written header: the body, then zeros up to a multiple of 32.
pub open spec fn enc_written_header(
    kvs: Seq<(Seq<char>, GgufMetadataValue)>,
    ts: Seq<TensorEntryModel>,
    tensor_type: u32,
) -> Seq<u8> {
    let body = enc_written_body(kvs, ts, tensor_type);
    body + Seq::new((align_up(body.len(), 32) - body.len()) as nat, |i: int| 0u8)
}

proof fn lemma_total_data_append(s: Seq<TensorEntryModel>, t: Seq<TensorEntryModel>)
    ensures
        total_data(s + t) == total_data(s) + total_data(t),
    decreases s.len(),
{
    if s.len() == 0 {
        assert(s + t == t);
    } else {
        assert((s + t).drop_first() == s.drop_first() + t);
        lemma_total_data_append(s.drop_first(), t);
    }
}

proof fn lemma_infos_push(s: Seq<TensorEntryModel>, t: TensorEntryModel, tensor_type: u32, off: nat)
    ensures
        enc_tensor_infos(s.push(t), tensor_type, off) == enc_tensor_infos(s, tensor_type, off)
            + enc_tensor_info(t, tensor_type, off + total_data(s)),
    decreases s.len(),
{
    if s.len() == 0 {
        assert(s.push(t).drop_first() == Seq::<TensorEntryModel>::empty());
        assert(s.push(t)[0] == t);
        reveal_with_fuel(enc_tensor_infos, 2);
        assert(enc_tensor_infos(s.push(t), tensor_type, off) =~= enc_tensor_infos(s, tensor_type, off)
            + enc_tensor_info(t, tensor_type, off + total_data(s)));
    } else {
        let off2 = off + s[0].data_len as nat;
        assert(s.push(t).drop_first() == s.drop_first().push(t));
        assert(s.push(t)[0] == s[0]);
        lemma_infos_push(s.drop_first(), t, tensor_type, off2);
        let a = enc_tensor_info(s[0], tensor_type, off);
        let b = enc_tensor_infos(s.drop_first(), tensor_type, off2);
        let c = enc_tensor_info(t, tensor_type, off2 + total_data(s.drop_first()));
        assert(a + (b + c) == (a + b) + c);
    }
}

proof fn lemma_pairs_push(s: Seq<(Seq<char>, GgufMetadataValue)>, kv: (Seq<char>, GgufMetadataValue))
    ensures
        enc_written_pairs(s.push(kv)) == enc_written_pairs(s) + (enc_string(kv.0) + enc_meta(
            kv.1,
        )),
    decreases s.len(),
{
    if s.len() == 0 {
        assert(s.push(kv).drop_first() == Seq::<(Seq<char>, GgufMetadataValue)>::empty());
        assert(s.push(kv)[0] == kv);
        reveal_with_fuel(enc_written_pairs, 2);
        assert(enc_written_pairs(s.push(kv)) =~= enc_written_pairs(s) + (enc_string(kv.0)
            + enc_meta(kv.1)));
    } else {
        assert(s.push(kv).drop_first() == s.drop_first().push(kv));
        assert(s.push(kv)[0] == s[0]);
        lemma_pairs_push(s.drop_first(), kv);
        let a = enc_string(s[0].0) + enc_meta(s[0].1);
        let b = enc_written_pairs(s.drop_first());
        let c = enc_string(kv.0) + enc_meta(kv.1);
        assert(a + (b + c) == (a + b) + c);
    }
}

/// Encodes a GGUF header for the given metadata and one-dimensional
/// tensors of type `tensor_type`, each tensor's data following the data
/// of the ones before it, padded with zeros to a multiple of 32 bytes.
pub fn encode_header(
    metadata: &Vec<(String, GgufMetadataValue)>,
    tensors: &Vec<TensorEntry>,
    tensor_type: u32,
) -> (out: Vec<u8>)
    requires
        total_data(entry_views(tensors@)) <= u64::MAX,
        enc_written_body(meta_pair_views(metadata@), entry_views(tensors@), tensor_type).len()
            + 32 <= usize::MAX,
    ensures
        out@ == enc_written_header(meta_pair_views(metadata@), entry_views(tensors@), tensor_type),
{
    let ghost kvs = meta_pair_views(metadata@);
    let ghost ts = entry_views(tensors@);
    let mut out: Vec<u8> = Vec::new();
    push_le(&mut out, GGUF_MAGIC as u64, 4);
    push_le(&mut out, GGUF_VERSION as u64, 4);
    push_le(&mut out, tensors.len() as u64, 8);
    push_le(&mut out, metadata.len() as u64, 8);
    let ghost head = out@;
    let mut i: usize = 0;
    while i < metadata.len()
        invariant
            i <= metadata.len(),
            kvs == meta_pair_views(metadata@),
            out@ == head + enc_written_pairs(kvs.take(i as int)),
        decreases metadata.len() - i,
    {
        let ghost before = out@;
        write_string(&mut out, metadata[i].0.as_str());
        write_value(&mut out, &metadata[i].1);
        proof {
            assert(kvs.take(i + 1) == kvs.take(i as int).push(kvs[i as int]));
            lemma_pairs_push(kvs.take(i as int), kvs[i as int]);
        }
        i = i + 1;
    }
    proof {
        assert(kvs.take(metadata.len() as int) == kvs);
    }
    let ghost mid = out@;
    let mut data_offset: u64 = 0;
    let mut j: usize = 0;
    while j < tensors.len()
        invariant
            j <= tensors.len(),
            ts == entry_views(tensors@),
            total_data(ts) <= u64::MAX,
            data_offset == total_data(ts.take(j as int)),
            out@ == mid + enc_tensor_infos(ts.take(j as int), tensor_type, 0),
        decreases tensors.len() - j,
    {
        let t = &tensors[j];
        proof {
            assert(ts.take(j + 1) == ts.take(j as int).push(ts[j as int]));
            lemma_infos_push(ts.take(j as int), ts[j as int], tensor_type, 0);
            assert(ts == ts.take(j + 1) + ts.skip(j + 1));
            lemma_total_data_append(ts.take(j + 1), ts.skip(j + 1));
            assert(ts.take(j as int).push(ts[j as int]) == ts.take(j as int) + seq![ts[j as int]]);
            lemma_total_data_append(ts.take(j as int), seq![ts[j as int]]);
            assert(seq![ts[j as int]].drop_first() == Seq::<TensorEntryModel>::empty());
            assert(ts[j as int] == tensors@[j as int]@);
            assert(total_data(seq![ts[j as int]]) == ts[j as int].data_len) by {
                reveal_with_fuel(total_data, 2);
            }
        }
        write_string(&mut out, t.name.as_str());
        push_le(&mut out, 1, 4);
        push_le(&mut out, t.n_elements, 8);
        push_le(&mut out, tensor_type as u64, 4);
        push_le(&mut out, data_offset, 8);
        data_offset = data_offset + t.data_len;
        j = j + 1;
    }
    proof {
        assert(ts.take(tensors.len() as int) == ts);
    }
    let ghost body = out@;
    assert(body == enc_written_body(kvs, ts, tensor_type));
    let pad = padding_len(out.len() as u64, 32);
    let mut k: u64 = 0;
    while k < pad
        invariant
            k <= pad,
            out@ == body + Seq::new(k as nat, |x: int| 0u8),
        decreases pad - k,
    {
        out.push(0u8);
        assert(body + Seq::new((k + 1) as nat, |x: int| 0u8) == body + Seq::new(
            k as nat,
            |x: int| 0u8,
        ).push(0u8));
        k = k + 1;
    }
    out
}


/// The metadata the writer puts in every file: the architecture (`llama`)
/// and the quantization version (2), generally and for the architecture.
pub fn writer_metadata() -> (r: Vec<(String, GgufMetadataValue)>)
    ensures
        r@.len() == 3,
        r@[0].0@ == "general.architecture"@,
        meta_scalar(r@[0].1) == Some(ScalarModel::Str("llama"@)),
        r@[1].0@ == "general.quantization_version"@,
        r@[1].1 == GgufMetadataValue::U32(2),
        r@[2].0@ == "llama.quantization_version"@,
        r@[2].1 == GgufMetadataValue::U32(2),
{
    let mut r: Vec<(String, GgufMetadataValue)> = Vec::new();
    r.push(
        (
            String::from_str("general.architecture"),
            GgufMetadataValue::String(String::from_str("llama")),
        ),
    );
    r.push((String::from_str("general.quantization_version"), GgufMetadataValue::U32(2)));
    r.push((String::from_str("llama.quantization_version"), GgufMetadataValue::U32(2)));
    r
}

// ───────────────────────── the reader reads back what the writer writes ─────────────────────────

pub proof fn lemma_le_bytes_len(x: nat, n: nat)
    ensures
        le_bytes(x, n).len() == n,
    decreases n,
{
    if n > 0 {
        lemma_le_bytes_len(x / 256, (n - 1) as nat);
    }
}

/// Little-endian bytes read back as the number they encode.
pub proof fn lemma_le_roundtrip(b: Seq<u8>, p: int, x: nat, n: nat)
    requires
        x < pow256(n),
        0 <= p,
        p + n <= b.len(),
        b.subrange(p, p + n) == le_bytes(x, n),
    ensures
        le(b, p, n) == x,
    decreases n,
{
    lemma_le_bytes_len(x, n);
    if n > 0 {
        let t = le_bytes(x / 256, (n - 1) as nat);
        lemma_le_bytes_len(x / 256, (n - 1) as nat);
        assert(b[p] == b.subrange(p, p + n)[0]);
        assert(b.subrange(p + 1, p + n) == b.subrange(p, p + n).subrange(1, n as int));
        assert(le_bytes(x, n).subrange(1, n as int) == t);
        assert(x / 256 < pow256((n - 1) as nat));
        lemma_le_roundtrip(b, p + 1, x / 256, (n - 1) as nat);
    } else {
        assert(x == 0);
    }
}

/// The bytes at `p` in `b` are `e`.
pub open spec fn holds_at(b: Seq<u8>, p: int, e: Seq<u8>) -> bool {
    0 <= p && p + e.len() <= b.len() && b.subrange(p, p + e.len()) == e
}

proof fn lemma_holds_split(b: Seq<u8>, p: int, e1: Seq<u8>, e2: Seq<u8>)
    requires
        holds_at(b, p, e1 + e2),
    ensures
        holds_at(b, p, e1),
        holds_at(b, p + e1.len(), e2),
{
    let whole = b.subrange(p, p + e1.len() + e2.len());
    assert(whole == e1 + e2);
    assert(b.subrange(p, p + e1.len()) =~= whole.subrange(0, e1.len() as int));
    assert((e1 + e2).subrange(0, e1.len() as int) =~= e1);
    assert(b.subrange(p + e1.len(), p + e1.len() + e2.len()) =~= whole.subrange(
        e1.len() as int,
        (e1.len() + e2.len()) as int,
    ));
    assert((e1 + e2).subrange(e1.len() as int, (e1.len() + e2.len()) as int) =~= e2);
}

proof fn lemma_read_u32_at(b: Seq<u8>, p: int, x: u32)
    requires
        holds_at(b, p, le_bytes(x as nat, 4)),
    ensures
        spec_u32(b, p) == Ok::<(u32, int), crate::gguf::ReadError>((x, p + 4)),
{
    lemma_pow256();
    lemma_le_bytes_len(x as nat, 4);
    lemma_le_roundtrip(b, p, x as nat, 4);
}

proof fn lemma_read_u64_at(b: Seq<u8>, p: int, x: nat)
    requires
        x <= u64::MAX,
        holds_at(b, p, le_bytes(x, 8)),
    ensures
        spec_u64(b, p) == Ok::<(u64, int), crate::gguf::ReadError>((x as u64, p + 8)),
{
    lemma_pow256();
    lemma_le_bytes_len(x, 8);
    lemma_le_roundtrip(b, p, x, 8);
}

/// A written string is read back.
pub proof fn lemma_string_roundtrip(b: Seq<u8>, p: int, s: Seq<char>)
    requires
        holds_at(b, p, enc_string(s)),
        b.len() <= usize::MAX,
    ensures
        spec_string(b, p) == Ok::<(Seq<char>, int), crate::gguf::ReadError>(
            (s, p + enc_string(s).len()),
        ),
{
    let u = vstd::utf8::encode_utf8(s);
    lemma_le_bytes_len(u.len(), 8);
    lemma_holds_split(b, p, le_bytes(u.len(), 8), u);
    lemma_read_u64_at(b, p, u.len());
    assert((u.len() as u64) as usize as int == u.len());
    assert(b.subrange(p + 8, p + 8 + u.len()) == u);
    vstd::utf8::encode_utf8_valid_utf8(s);
    vstd::utf8::encode_utf8_decode_utf8(s);
}

/// Whether a value is written in a form the reader reads back: anything but
/// a non-empty array.
pub open spec fn round_trips(v: ValueModel) -> bool {
    match v {
        ValueModel::Scalar(_) => true,
        ValueModel::Array(xs) => xs.len() == 0,
    }
}

proof fn lemma_casts(x: ScalarModel)
    ensures
        x matches ScalarModel::I8(v) ==> (v as u8) as i8 == v,
        x matches ScalarModel::I16(v) ==> (v as u16) as i16 == v,
        x matches ScalarModel::I32(v) ==> (v as u32) as i32 == v,
        x matches ScalarModel::I64(v) ==> (v as u64) as i64 == v,
{
    match x {
        ScalarModel::I8(v) => {
            assert((v as u8) as i8 == v) by (bit_vector);
        },
        ScalarModel::I16(v) => {
            assert((v as u16) as i16 == v) by (bit_vector);
        },
        ScalarModel::I32(v) => {
            assert((v as u32) as i32 == v) by (bit_vector);
        },
        ScalarModel::I64(v) => {
            assert((v as u64) as i64 == v) by (bit_vector);
        },
        _ => {},
    }
}

/// A written scalar payload is read back under its type tag.
pub proof fn lemma_payload_roundtrip(b: Seq<u8>, p: int, x: ScalarModel)
    requires
        holds_at(b, p, enc_payload(x)),
        b.len() <= usize::MAX,
    ensures
        spec_scalar(scalar_type_id(x), b, p) == Ok::<(ScalarModel, int), crate::gguf::ReadError>(
            (x, p + enc_payload(x).len()),
        ),
{
    lemma_pow256();
    lemma_casts(x);
    reveal_with_fuel(pow256, 9);
    match x {
        ScalarModel::Str(s) => {
            lemma_string_roundtrip(b, p, s);
        },
        ScalarModel::U8(v) => {
            lemma_le_bytes_len(v as nat, 1);
            lemma_le_roundtrip(b, p, v as nat, 1);
        },
        ScalarModel::I8(v) => {
            lemma_le_bytes_len(v as u8 as nat, 1);
            lemma_le_roundtrip(b, p, v as u8 as nat, 1);
        },
        ScalarModel::U16(v) => {
            lemma_le_bytes_len(v as nat, 2);
            lemma_le_roundtrip(b, p, v as nat, 2);
        },
        ScalarModel::I16(v) => {
            lemma_le_bytes_len(v as u16 as nat, 2);
            lemma_le_roundtrip(b, p, v as u16 as nat, 2);
        },
        ScalarModel::U32(v) => {
            lemma_le_bytes_len(v as nat, 4);
            lemma_le_roundtrip(b, p, v as nat, 4);
        },
        ScalarModel::I32(v) => {
            lemma_le_bytes_len(v as u32 as nat, 4);
            lemma_le_roundtrip(b, p, v as u32 as nat, 4);
        },
        ScalarModel::F32(v) => {
            lemma_le_bytes_len(v as nat, 4);
            lemma_le_roundtrip(b, p, v as nat, 4);
        },
        ScalarModel::Bool(v) => {
            let n: nat = if v {
                1
            } else {
                0
            };
            lemma_le_bytes_len(n, 1);
            lemma_le_roundtrip(b, p, n, 1);
        },
        ScalarModel::U64(v) => {
            lemma_le_bytes_len(v as nat, 8);
            lemma_le_roundtrip(b, p, v as nat, 8);
        },
        ScalarModel::I64(v) => {
            lemma_le_bytes_len(v as u64 as nat, 8);
            lemma_le_roundtrip(b, p, v as u64 as nat, 8);
        },
        ScalarModel::F64(v) => {
            lemma_le_bytes_len(v as nat, 8);
            lemma_le_roundtrip(b, p, v as nat, 8);
        },
    }
}

/// A written value that is not a non-empty array is read back.
pub proof fn lemma_value_roundtrip(b: Seq<u8>, p: int, v: ValueModel)
    requires
        round_trips(v),
        holds_at(b, p, enc_value(v)),
        b.len() <= usize::MAX,
    ensures
        spec_value(b, p) == Ok::<(ValueModel, int), crate::gguf::ReadError>(
            (v, p + enc_value(v).len()),
        ),
{
    match v {
        ValueModel::Scalar(x) => {
            let t = scalar_type_id(x);
            lemma_le_bytes_len(t as nat, 4);
            lemma_holds_split(b, p, le_bytes(t as nat, 4), enc_payload(x));
            lemma_read_u32_at(b, p, t);
            lemma_payload_roundtrip(b, p + 4, x);
        },
        ValueModel::Array(xs) => {
            let a = le_bytes(GGUF_TYPE_ARRAY as nat, 4);
            let e = le_bytes(GGUF_TYPE_UINT32 as nat, 4);
            let l = le_bytes(0, 8);
            assert(xs.len() == 0);
            assert(enc_tagged_all(xs) == Seq::<u8>::empty());
            assert(enc_value(v) == a + e + l + Seq::<u8>::empty());
            assert(a + e + l + Seq::<u8>::empty() == a + (e + l));
            lemma_le_bytes_len(GGUF_TYPE_ARRAY as nat, 4);
            lemma_le_bytes_len(GGUF_TYPE_UINT32 as nat, 4);
            lemma_le_bytes_len(0, 8);
            lemma_holds_split(b, p, a, e + l);
            lemma_holds_split(b, p + 4, e, l);
            lemma_read_u32_at(b, p, GGUF_TYPE_ARRAY);
            lemma_read_u32_at(b, p + 4, GGUF_TYPE_UINT32);
            lemma_read_u64_at(b, p + 8, 0);
            assert(xs == Seq::<ScalarModel>::empty());
        },
    }
}

/// Every value of the metadata round-trips.
pub open spec fn all_round_trip(kvs: Seq<(Seq<char>, ValueModel)>) -> bool {
    forall|i: int| 0 <= i < kvs.len() ==> round_trips(#[trigger] kvs[i].1)
}

/// Written metadata is read back.
pub proof fn lemma_metadata_roundtrip(b: Seq<u8>, p: int, kvs: Seq<(Seq<char>, ValueModel)>)
    requires
        all_round_trip(kvs),
        holds_at(b, p, enc_metadata(kvs)),
        b.len() <= usize::MAX,
    ensures
        spec_metadata(b, p, kvs.len()) == Ok::<
            (Seq<(Seq<char>, ValueModel)>, int),
            crate::gguf::ReadError,
        >((kvs, p + enc_metadata(kvs).len())),
    decreases kvs.len(),
{
    if kvs.len() > 0 {
        let kv = kvs[0];
        let rest = kvs.drop_first();
        assert(round_trips(kvs[0].1));
        assert forall|i: int| 0 <= i < rest.len() implies round_trips(#[trigger] rest[i].1) by {
            assert(rest[i] == kvs[i + 1]);
        }
        assert(enc_metadata(kvs) == enc_string(kv.0) + enc_value(kv.1) + enc_metadata(rest));
        assert(enc_string(kv.0) + enc_value(kv.1) + enc_metadata(rest) == enc_string(kv.0) + (
        enc_value(kv.1) + enc_metadata(rest)));
        lemma_holds_split(b, p, enc_string(kv.0), enc_value(kv.1) + enc_metadata(rest));
        let q = p + enc_string(kv.0).len();
        lemma_holds_split(b, q, enc_value(kv.1), enc_metadata(rest));
        lemma_string_roundtrip(b, p, kv.0);
        lemma_value_roundtrip(b, q, kv.1);
        lemma_metadata_roundtrip(b, q + enc_value(kv.1).len(), rest);
        assert(seq![(kv.0, kv.1)] + rest == kvs);
    } else {
        assert(kvs == Seq::<(Seq<char>, ValueModel)>::empty());
    }
}

/// The tensor info records the reader gives for written entries.
pub open spec fn expected_infos(ts: Seq<TensorEntryModel>, tensor_type: u32, offset: nat) -> Seq<
    crate::gguf::TensorInfoModel,
>
    decreases ts.len(),
{
    if ts.len() == 0 {
        Seq::empty()
    } else {
        seq![
            crate::gguf::TensorInfoModel {
                name: ts[0].name,
                n_dims: 1,
                dims: seq![ts[0].n_elements],
                tensor_type,
                offset: offset as u64,
            },
        ] + expected_infos(ts.drop_first(), tensor_type, offset + ts[0].data_len as nat)
    }
}

/// Written tensor info records are read back.
pub proof fn lemma_tensor_infos_roundtrip(
    b: Seq<u8>,
    p: int,
    ts: Seq<TensorEntryModel>,
    tensor_type: u32,
    offset: nat,
)
    requires
        offset + total_data(ts) <= u64::MAX,
        holds_at(b, p, enc_tensor_infos(ts, tensor_type, offset)),
        b.len() <= usize::MAX,
    ensures
        spec_tensor_infos(b, p, ts.len()) == Ok::<
            (Seq<crate::gguf::TensorInfoModel>, int),
            crate::gguf::ReadError,
        >((expected_infos(ts, tensor_type, offset), p + enc_tensor_infos(ts, tensor_type, offset).len())),
    decreases ts.len(),
{
    if ts.len() > 0 {
        let t = ts[0];
        let rest = ts.drop_first();
        let e_name = enc_string(t.name);
        let e1 = le_bytes(1, 4);
        let e2 = le_bytes(t.n_elements as nat, 8);
        let e3 = le_bytes(tensor_type as nat, 4);
        let e4 = le_bytes(offset, 8);
        let tail = enc_tensor_infos(rest, tensor_type, offset + t.data_len as nat);
        assert(enc_tensor_info(t, tensor_type, offset) + tail == e_name + (e1 + (e2 + (e3 + (e4
            + tail)))));
        lemma_le_bytes_len(1, 4);
        lemma_le_bytes_len(t.n_elements as nat, 8);
        lemma_le_bytes_len(tensor_type as nat, 4);
        lemma_le_bytes_len(offset, 8);
        lemma_holds_split(b, p, e_name, e1 + (e2 + (e3 + (e4 + tail))));
        let q = p + e_name.len();
        lemma_holds_split(b, q, e1, e2 + (e3 + (e4 + tail)));
        lemma_holds_split(b, q + 4, e2, e3 + (e4 + tail));
        lemma_holds_split(b, q + 12, e3, e4 + tail);
        lemma_holds_split(b, q + 16, e4, tail);
        lemma_string_roundtrip(b, p, t.name);
        lemma_read_u32_at(b, q, 1);
        lemma_read_u64_at(b, q + 4, t.n_elements as nat);
        assert(spec_u64(b, q + 4) == Ok::<(u64, int), crate::gguf::ReadError>((t.n_elements, q + 12)));
        reveal_with_fuel(crate::gguf::spec_dims, 2);
        lemma_read_u32_at(b, q + 12, tensor_type);
        lemma_read_u64_at(b, q + 16, offset);
        lemma_tensor_infos_roundtrip(b, q + 24, rest, tensor_type, offset + t.data_len as nat);
        assert(seq![t.n_elements] + Seq::<u64>::empty() == seq![t.n_elements]);
    }
}

proof fn lemma_align_up_ge(p: nat, a: nat)
    requires
        a > 0,
    ensures
        p <= align_up(p, a) < p + a,
{
    let q = (p + a - 1) / a as int;
    assert(q * a <= p + a - 1 < q * a + a) by (nonlinear_arith)
        requires
            a > 0,
            q == (p + a - 1) / a as int,
    ;
}

/// Where each part of the header stands in the written bytes.
proof fn lemma_header_layout(
    kvs: Seq<(Seq<char>, ValueModel)>,
    ts: Seq<TensorEntryModel>,
    tensor_type: u32,
)
    ensures
        ({
            let b = enc_header(kvs, ts, tensor_type);
            let em = enc_metadata(kvs);
            let et = enc_tensor_infos(ts, tensor_type, 0);
            &&& holds_at(b, 0, le_bytes(GGUF_MAGIC as nat, 4))
            &&& holds_at(b, 4, le_bytes(GGUF_VERSION as nat, 4))
            &&& holds_at(b, 8, le_bytes(ts.len(), 8))
            &&& holds_at(b, 16, le_bytes(kvs.len(), 8))
            &&& holds_at(b, 24, em)
            &&& holds_at(b, 24 + em.len() as int, et)
            &&& b.len() == align_up((24 + em.len() + et.len()) as nat, 32)
        }),
{
    let b = enc_header(kvs, ts, tensor_type);
    let body = enc_header_body(kvs, ts, tensor_type);
    let pad = Seq::new((align_up(body.len(), 32) - body.len()) as nat, |i: int| 0u8);
    let m = le_bytes(GGUF_MAGIC as nat, 4);
    let v = le_bytes(GGUF_VERSION as nat, 4);
    let nt = le_bytes(ts.len(), 8);
    let nk = le_bytes(kvs.len(), 8);
    let em = enc_metadata(kvs);
    let et = enc_tensor_infos(ts, tensor_type, 0);
    lemma_le_bytes_len(GGUF_MAGIC as nat, 4);
    lemma_le_bytes_len(GGUF_VERSION as nat, 4);
    lemma_le_bytes_len(ts.len(), 8);
    lemma_le_bytes_len(kvs.len(), 8);
    assert(body == m + v + nt + nk + em + et);
    assert(body.len() == 24 + em.len() + et.len());
    lemma_align_up_ge(body.len(), 32);
    assert(b == m + (v + (nt + (nk + (em + (et + pad)))))) by {
        assert(b =~= m + (v + (nt + (nk + (em + (et + pad))))));
    }
    assert(holds_at(b, 0, b)) by {
        assert(b.subrange(0, b.len() as int) =~= b);
    }
    lemma_holds_split(b, 0, m, v + (nt + (nk + (em + (et + pad)))));
    lemma_holds_split(b, 4, v, nt + (nk + (em + (et + pad))));
    lemma_holds_split(b, 8, nt, nk + (em + (et + pad)));
    lemma_holds_split(b, 16, nk, em + (et + pad));
    lemma_holds_split(b, 24, em, et + pad);
    lemma_holds_split(b, 24 + em.len() as int, et, pad);
}

/// A header laid out as the writer lays it out parses to its parts.
proof fn lemma_parse_laid_out(
    b: Seq<u8>,
    kvs: Seq<(Seq<char>, ValueModel)>,
    ts: Seq<TensorEntryModel>,
    tensor_type: u32,
    em: Seq<u8>,
    et: Seq<u8>,
)
    requires
        em == enc_metadata(kvs),
        et == enc_tensor_infos(ts, tensor_type, 0),
        all_round_trip(kvs),
        crate::gguf::spec_alignment(kvs) == 32,
        total_data(ts) <= u64::MAX,
        kvs.len() <= usize::MAX,
        ts.len() <= usize::MAX,
        b.len() <= usize::MAX,
        holds_at(b, 0, le_bytes(GGUF_MAGIC as nat, 4)),
        holds_at(b, 4, le_bytes(GGUF_VERSION as nat, 4)),
        holds_at(b, 8, le_bytes(ts.len(), 8)),
        holds_at(b, 16, le_bytes(kvs.len(), 8)),
        holds_at(b, 24, em),
        holds_at(b, 24 + em.len() as int, et),
        b.len() == align_up((24 + em.len() + et.len()) as nat, 32),
    ensures
        crate::gguf::spec_parse_header(b) == Ok::<crate::gguf::HeaderModel, crate::gguf::ReadError>(
            crate::gguf::HeaderModel {
                metadata: crate::gguf::dedup_kvs(kvs),
                tensor_infos: expected_infos(ts, tensor_type, 0),
                data_offset: b.len(),
            },
        ),
{
    lemma_read_u32_at(b, 0, GGUF_MAGIC);
    lemma_read_u32_at(b, 4, GGUF_VERSION);
    lemma_read_u64_at(b, 8, ts.len());
    lemma_read_u64_at(b, 16, kvs.len());
    assert((kvs.len() as u64) as usize as nat == kvs.len());
    assert((ts.len() as u64) as usize as nat == ts.len());
    lemma_metadata_roundtrip(b, 24, kvs);
    lemma_tensor_infos_roundtrip(b, 24 + em.len() as int, ts, tensor_type, 0);
}

/// The encoded header of metadata that round-trips parses back to it.
proof fn lemma_header_roundtrip(
    kvs: Seq<(Seq<char>, ValueModel)>,
    ts: Seq<TensorEntryModel>,
    tensor_type: u32,
)
    requires
        all_round_trip(kvs),
        crate::gguf::spec_alignment(kvs) == 32,
        total_data(ts) <= u64::MAX,
        kvs.len() <= usize::MAX,
        ts.len() <= usize::MAX,
        enc_header(kvs, ts, tensor_type).len() <= usize::MAX,
    ensures
        crate::gguf::spec_parse_header(enc_header(kvs, ts, tensor_type)) == Ok::<
            crate::gguf::HeaderModel,
            crate::gguf::ReadError,
        >(
            crate::gguf::HeaderModel {
                metadata: crate::gguf::dedup_kvs(kvs),
                tensor_infos: expected_infos(ts, tensor_type, 0),
                data_offset: enc_header(kvs, ts, tensor_type).len(),
            },
        ),
{
    let b = enc_header(kvs, ts, tensor_type);
    lemma_header_layout(kvs, ts, tensor_type);
    lemma_parse_laid_out(
        b,
        kvs,
        ts,
        tensor_type,
        enc_metadata(kvs),
        enc_tensor_infos(ts, tensor_type, 0),
    );
}

/// Whether the reader reads a written value back as it was: a scalar, or an
/// empty array.
pub open spec fn meta_round_trips(v: GgufMetadataValue) -> bool {
    match v {
        GgufMetadataValue::Array(arr) => arr@.len() == 0,
        _ => true,
    }
}

/// What the reader gives for a written value that round-trips.
pub open spec fn meta_to_value(v: GgufMetadataValue) -> ValueModel {
    match meta_scalar(v) {
        Some(x) => ValueModel::Scalar(x),
        None => ValueModel::Array(Seq::empty()),
    }
}

/// Written metadata as the reader gives it back.
pub open spec fn pair_values(kvs: Seq<(Seq<char>, GgufMetadataValue)>) -> Seq<
    (Seq<char>, ValueModel),
> {
    kvs.map_values(|p: (Seq<char>, GgufMetadataValue)| (p.0, meta_to_value(p.1)))
}

proof fn lemma_meta_enc(v: GgufMetadataValue)
    requires
        meta_round_trips(v),
    ensures
        enc_meta(v) == enc_value(meta_to_value(v)),
        round_trips(meta_to_value(v)),
{
    match v {
        GgufMetadataValue::Array(arr) => {
            assert(arr@ == Seq::<GgufMetadataValue>::empty());
            assert(enc_meta_list(arr@) == Seq::<u8>::empty());
            assert(enc_tagged_all(Seq::<ScalarModel>::empty()) == Seq::<u8>::empty());
        },
        _ => {},
    }
}

proof fn lemma_written_pairs(kvs: Seq<(Seq<char>, GgufMetadataValue)>)
    requires
        forall|i: int| 0 <= i < kvs.len() ==> meta_round_trips(#[trigger] kvs[i].1),
    ensures
        enc_written_pairs(kvs) == enc_metadata(pair_values(kvs)),
        all_round_trip(pair_values(kvs)),
    decreases kvs.len(),
{
    let pv = pair_values(kvs);
    if kvs.len() > 0 {
        let rest = kvs.drop_first();
        assert forall|i: int| 0 <= i < rest.len() implies meta_round_trips(#[trigger] rest[i].1) by {
            assert(rest[i] == kvs[i + 1]);
        }
        lemma_written_pairs(rest);
        assert(pv.drop_first() == pair_values(rest));
        assert(meta_round_trips(kvs[0].1));
        lemma_meta_enc(kvs[0].1);
        assert(pv[0] == (kvs[0].0, meta_to_value(kvs[0].1)));
        assert(enc_pair(pv[0]) == enc_string(kvs[0].0) + enc_meta(kvs[0].1));
        assert forall|i: int| 0 <= i < pv.len() implies round_trips(#[trigger] pv[i].1) by {
            if i > 0 {
                assert(pv[i] == pair_values(rest)[i - 1]);
            }
        }
    } else {
        assert(pv == Seq::<(Seq<char>, ValueModel)>::empty());
    }
}

/// Law: the reader reads back the header `encode_header` writes. For
/// metadata whose values are scalars or empty arrays, and that leaves the
/// alignment at its default of 32, parsing the written header gives the
/// same metadata (one entry per key, as a map keeps it), one
/// single-dimension info record per tensor at the running data offset, and
/// tensor data starting right after the header's padding.
pub proof fn lemma_written_header_roundtrip(
    kvs: Seq<(Seq<char>, GgufMetadataValue)>,
    ts: Seq<TensorEntryModel>,
    tensor_type: u32,
)
    requires
        forall|i: int| 0 <= i < kvs.len() ==> meta_round_trips(#[trigger] kvs[i].1),
        crate::gguf::spec_alignment(pair_values(kvs)) == 32,
        total_data(ts) <= u64::MAX,
        kvs.len() <= usize::MAX,
        ts.len() <= usize::MAX,
        enc_written_header(kvs, ts, tensor_type).len() <= usize::MAX,
    ensures
        crate::gguf::spec_parse_header(enc_written_header(kvs, ts, tensor_type)) == Ok::<
            crate::gguf::HeaderModel,
            crate::gguf::ReadError,
        >(
            crate::gguf::HeaderModel {
                metadata: crate::gguf::dedup_kvs(pair_values(kvs)),
                tensor_infos: expected_infos(ts, tensor_type, 0),
                data_offset: enc_written_header(kvs, ts, tensor_type).len(),
            },
        ),
{
    lemma_written_pairs(kvs);
    let pv = pair_values(kvs);
    assert(enc_written_body(kvs, ts, tensor_type) == enc_header_body(pv, ts, tensor_type));
    assert(enc_written_header(kvs, ts, tensor_type) == enc_header(pv, ts, tensor_type));
    lemma_header_roundtrip(pv, ts, tensor_type);
}

} // verus!
