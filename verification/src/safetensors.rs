//! The safetensors container: eight little-endian bytes giving the length
//! of a JSON header, the header, then the tensor data.
//!
//! The header's JSON is decoded by the caller (a `serde` derive); this
//! module frames the file, holds the decoded table of tensors, and cuts each
//! tensor's bytes out of the file.

use vstd::prelude::*;
use crate::gguf::{le, read_le};
use crate::lql::str_eq;
use crate::text::{chars_of, push_chars};

verus! {

/// Tensor element type.
#[derive(Debug, Clone, Copy, PartialEq, Eq, Structural)]
pub enum Dtype {
    F32,
    F16,
    BF16,
    U8,
    I32,
    I64,
    F64,
}

/// The element type named `s`.
pub open spec fn dtype_named(s: Seq<char>) -> Option<Dtype> {
    if s == "F32"@ {
        Some(Dtype::F32)
    } else if s == "F16"@ {
        Some(Dtype::F16)
    } else if s == "BF16"@ {
        Some(Dtype::BF16)
    } else if s == "U8"@ {
        Some(Dtype::U8)
    } else if s == "I32"@ {
        Some(Dtype::I32)
    } else if s == "I64"@ {
        Some(Dtype::I64)
    } else if s == "F64"@ {
        Some(Dtype::F64)
    } else {
        None
    }
}

/// Bytes per element.
pub open spec fn dtype_size(d: Dtype) -> nat {
    match d {
        Dtype::F32 | Dtype::I32 => 4,
        Dtype::F16 | Dtype::BF16 => 2,
        Dtype::U8 => 1,
        Dtype::I64 | Dtype::F64 => 8,
    }
}

impl Dtype {
    /// The element type of a header's `dtype` string.
    pub fn from_str(s: &str) -> (r: Option<Dtype>)
        ensures
            r == dtype_named(s@),
    {
        if str_eq(s, "F32") {
            Some(Dtype::F32)
        } else if str_eq(s, "F16") {
            Some(Dtype::F16)
        } else if str_eq(s, "BF16") {
            Some(Dtype::BF16)
        } else if str_eq(s, "U8") {
            Some(Dtype::U8)
        } else if str_eq(s, "I32") {
            Some(Dtype::I32)
        } else if str_eq(s, "I64") {
            Some(Dtype::I64)
        } else if str_eq(s, "F64") {
            Some(Dtype::F64)
        } else {
            None
        }
    }

    /// Bytes per element.
    pub fn size_bytes(&self) -> (n: usize)
        ensures
            n == dtype_size(*self),
    {
        match self {
            Dtype::F32 | Dtype::I32 => 4,
            Dtype::F16 | Dtype::BF16 => 2,
            Dtype::U8 => 1,
            Dtype::I64 | Dtype::F64 => 8,
        }
    }
}

/// One entry of the header: element type name, shape, and the data's byte
/// range relative to the end of the header.
#[derive(Debug, Clone)]
pub struct TensorInfo {
    pub dtype: String,
    pub shape: Vec<usize>,
    pub data_offsets: Vec<usize>,
}

/// The mathematical content of a `TensorInfo`.
pub struct TensorInfoView {
    pub dtype: Seq<char>,
    pub shape: Seq<usize>,
    pub data_offsets: Seq<usize>,
}

impl View for TensorInfo {
    type V = TensorInfoView;

    open spec fn view(&self) -> TensorInfoView {
        TensorInfoView { dtype: self.dtype@, shape: self.shape@, data_offsets: self.data_offsets@ }
    }
}

/// Header entries with names by their characters.
pub open spec fn entry_views(v: Seq<(String, TensorInfo)>) -> Seq<(Seq<char>, TensorInfoView)> {
    v.map_values(|e: (String, TensorInfo)| (e.0@, e.1@))
}

/// No name occurs twice.
pub open spec fn names_unique(es: Seq<(Seq<char>, TensorInfoView)>) -> bool {
    forall|i: int, j: int| 0 <= i < j < es.len() ==> es[i].0 != es[j].0
}

/// The entry named `name`, the first if several are.
pub open spec fn find_entry(es: Seq<(Seq<char>, TensorInfoView)>, name: Seq<char>) -> Option<
    TensorInfoView,
>
    decreases es.len(),
{
    if es.len() == 0 {
        None
    } else if es[0].0 == name {
        Some(es[0].1)
    } else {
        find_entry(es.drop_first(), name)
    }
}

/// The header length the first eight bytes give.
pub open spec fn header_len_spec(b: Seq<u8>) -> nat {
    le(b, 0, 8) as usize as nat
}

/// The message for a file shorter than eight bytes.
pub open spec fn too_small_message() -> Seq<char> {
    "File too small for header length"@
}

/// The message for a header that runs past the end of the file.
pub open spec fn truncated_message() -> Seq<char> {
    "File truncated: header extends beyond file"@
}

/// The message for a header that is not the expected JSON.
pub open spec fn json_error_message(e: Seq<char>) -> Seq<char> {
    "Failed to parse header JSON: "@ + e
}

/// The byte range of the header in `b`, if the file holds one.
pub open spec fn header_range_spec(b: Seq<u8>) -> Option<(nat, nat)> {
    if b.len() < 8 || b.len() < 8 + header_len_spec(b) {
        None
    } else {
        Some((8, 8 + header_len_spec(b)))
    }
}

/// The element type, shape and bytes of the tensor named `name`, or `None`
/// when the name is missing, its type unknown, its range given by fewer
/// than two offsets, or the range not starting and ending inside the file.
pub open spec fn tensor_spec(
    b: Seq<u8>,
    es: Seq<(Seq<char>, TensorInfoView)>,
    name: Seq<char>,
) -> Option<TensorViewModel> {
    match find_entry(es, name) {
        None => None,
        Some(e) => match dtype_named(e.dtype) {
            None => None,
            Some(d) => if e.data_offsets.len() < 2 {
                None
            } else {
                let start = 8 + header_len_spec(b) + e.data_offsets[0];
                let end = 8 + header_len_spec(b) + e.data_offsets[1];
                if start >= b.len() || end > b.len() {
                    None
                } else {
                    Some(
                        TensorViewModel {
                            dtype: d,
                            shape: e.shape,
                            data: b.subrange(start as int, end as int),
                        },
                    )
                }
            },
        },
    }
}

/// Cutting the tensor of entry `e` out of `b` neither overflows nor runs
/// backwards: the offsets added to the header's end fit in `usize`, and a
/// range that lies inside the file does not end before it starts.
pub open spec fn entry_cuttable(b: Seq<u8>, e: TensorInfoView) -> bool {
    (dtype_named(e.dtype) is Some && e.data_offsets.len() >= 2) ==> {
        let base = 8 + header_len_spec(b);
        &&& base + e.data_offsets[0] <= usize::MAX
        &&& base + e.data_offsets[1] <= usize::MAX
        &&& (base + e.data_offsets[0] < b.len() && base + e.data_offsets[1] <= b.len())
            ==> e.data_offsets[0] <= e.data_offsets[1]
    }
}

/// The mathematical content of a `TensorView`.
pub struct TensorViewModel {
    pub dtype: Dtype,
    pub shape: Seq<usize>,
    pub data: Seq<u8>,
}

/// The product of the dimensions.
pub open spec fn product(s: Seq<usize>) -> nat
    decreases s.len(),
{
    if s.len() == 0 {
        1
    } else {
        product(s.drop_last()) * (s.last() as nat)
    }
}

/// Every running product of the dimensions fits in `usize`: multiplying
/// them out in order does not overflow.
pub open spec fn products_fit(s: Seq<usize>) -> bool {
    forall|k: int| 0 <= k <= s.len() ==> #[trigger] product(s.take(k)) <= usize::MAX
}

/// A tensor: its element type, its shape and its bytes in the file.
#[derive(Debug, Clone)]
pub struct TensorView<'a> {
    dtype: Dtype,
    shape: Vec<usize>,
    data: &'a [u8],
}

impl<'a> View for TensorView<'a> {
    type V = TensorViewModel;

    closed spec fn view(&self) -> TensorViewModel {
        TensorViewModel { dtype: self.dtype, shape: self.shape@, data: self.data@ }
    }
}

impl<'a> TensorView<'a> {
    /// The element type.
    pub fn dtype(&self) -> (d: Dtype)
        ensures
            d == self@.dtype,
    {
        self.dtype
    }

    /// The dimensions.
    pub fn shape(&self) -> (s: &[usize])
        ensures
            s@ == self@.shape,
    {
        self.shape.as_slice()
    }

    /// The tensor's bytes.
    pub fn data(&self) -> (d: &[u8])
        ensures
            d@ == self@.data,
    {
        self.data
    }

    /// The number of elements: the product of the dimensions (1 for a
    /// scalar).
    pub fn num_elements(&self) -> (n: usize)
        requires
            products_fit(self@.shape),
        ensures
            n == product(self@.shape),
    {
        let mut acc: usize = 1;
        let mut i: usize = 0;
        while i < self.shape.len()
            invariant
                i <= self.shape@.len(),
                self.shape@ == self@.shape,
                products_fit(self.shape@),
                acc == product(self.shape@.take(i as int)),
            decreases self.shape.len() - i,
        {
            let ghost t = self.shape@.take(i + 1);
            assert(t.drop_last() == self.shape@.take(i as int));
            assert(product(t) <= usize::MAX);
            acc = acc * self.shape[i];
            i = i + 1;
        }
        assert(self.shape@.take(self.shape.len() as int) == self.shape@);
        acc
    }

    /// The number of bytes the shape and element type call for.
    pub fn byte_len(&self) -> (n: usize)
        requires
            products_fit(self@.shape),
            product(self@.shape) * dtype_size(self@.dtype) <= usize::MAX,
        ensures
            n == product(self@.shape) * dtype_size(self@.dtype),
    {
        let size = self.dtype.size_bytes();
        let n = self.num_elements();
        n * size
    }
}

/// A safetensors file: its bytes and the decoded table of its tensors.
pub struct SafeTensorsFile<'a> {
    bytes: &'a [u8],
    header: Vec<(String, TensorInfo)>,
}

impl<'a> SafeTensorsFile<'a> {
    #[verifier::type_invariant]
    closed spec fn well_formed(self) -> bool {
        &&& header_range_spec(self.bytes@) is Some
        &&& names_unique(entry_views(self.header@))
    }

    /// The file's bytes.
    pub closed spec fn bytes_view(self) -> Seq<u8> {
        self.bytes@
    }

    /// The header's table of tensors.
    pub closed spec fn entries(self) -> Seq<(Seq<char>, TensorInfoView)> {
        entry_views(self.header@)
    }

    /// Frames `bytes` and takes the header's decoding `parsed` (its table,
    /// or the decoder's message), as decoded from the header's bytes
    /// (`header_range`): a file shorter than eight bytes, or whose header
    /// runs past its end, is refused whatever `parsed` holds.
    pub fn deserialize(
        bytes: &'a [u8],
        parsed: Result<Vec<(String, TensorInfo)>, String>,
    ) -> (r: Result<SafeTensorsFile<'a>, String>)
        requires
            bytes@.len() >= 8 ==> 8 + header_len_spec(bytes@) <= usize::MAX,
            parsed matches Ok(es) ==> names_unique(entry_views(es@)),
        ensures
            bytes@.len() < 8 ==> (r matches Err(m) && m@ == too_small_message()),
            bytes@.len() >= 8 && bytes@.len() < 8 + header_len_spec(bytes@) ==> (r matches Err(m)
                && m@ == truncated_message()),
            header_range_spec(bytes@) is Some ==> match parsed {
                Err(e) => (r matches Err(m) && m@ == json_error_message(e@)),
                Ok(es) => (r matches Ok(f) && f.bytes_view() == bytes@ && f.entries()
                    == entry_views(es@)),
            },
    {
        if bytes.len() < 8 {
            return Err(crate::text::owned("File too small for header length"));
        }
        let hl = header_len(bytes);
        if bytes.len() < 8 + hl {
            return Err(crate::text::owned("File truncated: header extends beyond file"));
        }
        match parsed {
            Err(e) => {
                let mut m = crate::text::owned("Failed to parse header JSON: ");
                let ec = chars_of(e.as_str());
                push_chars(&mut m, ec.as_slice());
                Err(m)
            },
            Ok(header) => Ok(SafeTensorsFile { bytes, header }),
        }
    }

    /// The names of all tensors, in table order.
    pub fn names(&self) -> (r: Vec<&str>)
        ensures
            r@.len() == self.entries().len(),
            forall|i: int| 0 <= i < r@.len() ==> (#[trigger] r@[i])@ == self.entries()[i].0,
    {
        let mut r: Vec<&str> = Vec::new();
        let mut i: usize = 0;
        while i < self.header.len()
            invariant
                i <= self.header@.len(),
                r@.len() == i,
                forall|j: int| 0 <= j < i ==> (#[trigger] r@[j])@ == self.header@[j].0@,
            decreases self.header.len() - i,
        {
            r.push(self.header[i].0.as_str());
            i = i + 1;
        }
        r
    }

    /// Whether the entry named `name`, if there is one, can be cut out of
    /// the file (`named_entry_cuttable`): the test a caller makes before
    /// `tensor`.
    pub fn tensor_cuttable(&self, name: &str) -> (r: bool)
        ensures
            r == named_entry_cuttable(self.bytes_view(), self.entries(), name@),
    {
        proof {
            use_type_invariant(self);
        }
        let ghost es = entry_views(self.header@);
        let mut i: usize = 0;
        while i < self.header.len()
            invariant
                i <= self.header@.len(),
                es == entry_views(self.header@),
                forall|j: int| 0 <= j < i ==> (#[trigger] es[j]).0 != name@,
            decreases self.header.len() - i,
        {
            if str_eq(self.header[i].0.as_str(), name) {
                proof {
                    lemma_find_skip(es, name@, i as int);
                    let sk = es.skip(i as int);
                    assert(sk[0] == es[i as int]);
                    assert(find_entry(es, name@) == Some(es[i as int].1));
                    use_type_invariant(self);
                }
                let info = &self.header[i].1;
                match Dtype::from_str(info.dtype.as_str()) {
                    Some(_) => {},
                    None => {
                        return true;
                    },
                }
                if info.data_offsets.len() < 2 {
                    return true;
                }
                let base: u128 = 8 + header_len(self.bytes) as u128;
                let s: u128 = base + info.data_offsets[0] as u128;
                let e: u128 = base + info.data_offsets[1] as u128;
                let max: u128 = usize::MAX as u128;
                if s > max || e > max {
                    return false;
                }
                let len: u128 = self.bytes.len() as u128;
                return !(s < len && e <= len) || info.data_offsets[0] <= info.data_offsets[1];
            }
            i = i + 1;
        }
        proof {
            lemma_find_skip(es, name@, i as int);
            assert(es.skip(i as int).len() == 0);
        }
        true
    }

    /// The tensor named `name` (`tensor_spec`), for an entry whose data
    /// can be cut out (`named_entry_cuttable`).
    pub fn tensor(&self, name: &str) -> (r: Option<TensorView<'a>>)
        requires
            named_entry_cuttable(self.bytes_view(), self.entries(), name@),
        ensures
            match tensor_spec(self.bytes_view(), self.entries(), name@) {
                None => r is None,
                Some(t) => r matches Some(v) && v@ == t,
            },
    {
        proof {
            use_type_invariant(self);
        }
        let ghost es = entry_views(self.header@);
        let mut i: usize = 0;
        while i < self.header.len()
            invariant
                i <= self.header@.len(),
                es == entry_views(self.header@),
                forall|j: int| 0 <= j < i ==> (#[trigger] es[j]).0 != name@,
                named_entry_cuttable(self.bytes_view(), es, name@),
            decreases self.header.len() - i,
        {
            if str_eq(self.header[i].0.as_str(), name) {
                proof {
                    lemma_find_skip(es, name@, i as int);
                    let sk = es.skip(i as int);
                    assert(sk[0] == es[i as int]);
                    assert(find_entry(es, name@) == Some(es[i as int].1));
                    assert(entry_cuttable(self.bytes_view(), self.entries()[i as int].1));
                }
                return self.cut(i);
            }
            i = i + 1;
        }
        proof {
            lemma_find_skip(es, name@, i as int);
            assert(es.skip(i as int).len() == 0);
        }
        None
    }

    /// The tensor of entry `i`.
    fn cut(&self, i: usize) -> (r: Option<TensorView<'a>>)
        requires
            i < self.entries().len(),
            entry_cuttable(self.bytes_view(), self.entries()[i as int].1),
        ensures
            match dtype_named(self.entries()[i as int].1.dtype) {
                None => r is None,
                Some(d) => {
                    let e = self.entries()[i as int].1;
                    if e.data_offsets.len() < 2 {
                        r is None
                    } else {
                        let b = self.bytes_view();
                        let start = 8 + header_len_spec(b) + e.data_offsets[0];
                        let end = 8 + header_len_spec(b) + e.data_offsets[1];
                        if start >= b.len() || end > b.len() {
                            r is None
                        } else {
                            r matches Some(v) && v@ == TensorViewModel {
                                dtype: d,
                                shape: e.shape,
                                data: b.subrange(start as int, end as int),
                            }
                        }
                    }
                },
            },
    {
        proof {
            use_type_invariant(self);
        }
        let info = &self.header[i].1;
        let dtype = match Dtype::from_str(info.dtype.as_str()) {
            Some(d) => d,
            None => {
                return None;
            },
        };
        if info.data_offsets.len() < 2 {
            return None;
        }
        let start = info.data_offsets[0];
        let end = info.data_offsets[1];
        let data_start = 8 + header_len(self.bytes);
        let abs_start = data_start + start;
        let abs_end = data_start + end;
        if abs_start >= self.bytes.len() || abs_end > self.bytes.len() {
            return None;
        }
        let data = vstd::slice::slice_subrange(self.bytes, abs_start, abs_end);
        let shape = vstd::slice::slice_to_vec(info.shape.as_slice());
        Some(TensorView { dtype, shape, data })
    }

    /// Every tensor whose entry `tensor` accepts, by name, in table order.
    pub fn tensors(&self) -> (r: Vec<(&str, TensorView<'a>)>)
        requires
            forall|i: int|
                0 <= i < self.entries().len() ==> entry_cuttable(
                    self.bytes_view(),
                    #[trigger] self.entries()[i].1,
                ),
        ensures
            r@.len() <= self.entries().len(),
            forall|k: int|
                0 <= k < r@.len() ==> tensor_spec(self.bytes_view(), self.entries(), r@[k].0@)
                    == Some((#[trigger] r@[k]).1@),
            r@.map_values(|p: (&str, TensorView<'a>)| p.0@) == kept_names(
                self.bytes_view(),
                self.entries(),
                self.entries().len() as int,
            ),
            forall|k1: int, k2: int| 0 <= k1 < k2 < r@.len() ==> (#[trigger] r@[k1]).0@ != (#[trigger] r@[k2]).0@,
            forall|i: int|
                0 <= i < self.entries().len() && tensor_spec(
                    self.bytes_view(),
                    self.entries(),
                    #[trigger] self.entries()[i].0,
                ) is Some ==> exists|k: int| 0 <= k < r@.len() && r@[k].0@ == self.entries()[i].0,
    {
        proof {
            use_type_invariant(self);
            lemma_kept_names(self.bytes_view(), self.entries(), self.entries().len() as int);
        }
        let names = self.names();
        let ghost es = self.entries();
        let mut r: Vec<(&str, TensorView<'a>)> = Vec::new();
        let mut i: usize = 0;
        while i < names.len()
            invariant
                i <= names@.len(),
                names@.len() == es.len(),
                es == self.entries(),
                forall|j: int| 0 <= j < names@.len() ==> (#[trigger] names@[j])@ == es[j].0,
                forall|j: int|
                    0 <= j < es.len() ==> entry_cuttable(self.bytes_view(), #[trigger] es[j].1),
                r@.len() <= i,
                forall|k: int|
                    0 <= k < r@.len() ==> tensor_spec(self.bytes_view(), es, r@[k].0@) == Some(
                        (#[trigger] r@[k]).1@,
                    ),
                r@.map_values(|p: (&str, TensorView<'a>)| p.0@) == kept_names(
                    self.bytes_view(),
                    es,
                    i as int,
                ),
            decreases names.len() - i,
        {
            let name = names[i];
            proof {
                lemma_find_entry_in(es, name@);
            }
            let t = self.tensor(name);
            let ghost before = r@;
            match t {
                Some(v) => {
                    r.push((name, v));
                    assert(r@.map_values(|p: (&str, TensorView<'a>)| p.0@) == before.map_values(
                        |p: (&str, TensorView<'a>)| p.0@,
                    ).push(name@));
                },
                None => {},
            }
            i = i + 1;
        }
        proof {
            let kv = r@.map_values(|p: (&str, TensorView<'a>)| p.0@);
            assert forall|k1: int, k2: int| 0 <= k1 < k2 < r@.len() implies (#[trigger] r@[k1]).0@ != (#[trigger] r@[k2]).0@ by {
                assert(kv[k1] == r@[k1].0@ && kv[k2] == r@[k2].0@);
            }
            assert forall|i: int|
                0 <= i < es.len() && tensor_spec(self.bytes_view(), es, #[trigger] es[i].0) is Some implies exists|k: int|
                    0 <= k < r@.len() && r@[k].0@ == es[i].0 by {
                let k = choose|k: int| 0 <= k < kv.len() && kv[k] == es[i].0;
                assert(kv[k] == r@[k].0@);
            }
        }
        r
    }
}

/// Law: the names `tensors` yields come once each, in table order, and
/// every name of the table whose tensor `tensor_spec` gives is among them.
pub proof fn lemma_kept_names(b: Seq<u8>, es: Seq<(Seq<char>, TensorInfoView)>, n: int)
    requires
        names_unique(es),
        0 <= n <= es.len(),
    ensures
        forall|k1: int, k2: int|
            0 <= k1 < k2 < kept_names(b, es, n).len() ==> #[trigger] kept_names(b, es, n)[k1]
                != #[trigger] kept_names(b, es, n)[k2],
        forall|k: int|
            0 <= k < kept_names(b, es, n).len() ==> exists|i: int|
                0 <= i < n && es[i].0 == #[trigger] kept_names(b, es, n)[k],
        forall|i: int|
            0 <= i < n && tensor_spec(b, es, #[trigger] es[i].0) is Some ==> exists|k: int|
                0 <= k < kept_names(b, es, n).len() && kept_names(b, es, n)[k] == es[i].0,
    decreases n,
{
    if n > 0 {
        lemma_kept_names(b, es, n - 1);
        let prev = kept_names(b, es, n - 1);
        let cur = kept_names(b, es, n);
        if tensor_spec(b, es, es[n - 1].0) is Some {
            assert(cur == prev.push(es[n - 1].0));
            assert forall|k: int| 0 <= k < prev.len() implies prev[k] != es[n - 1].0 by {
                let i = choose|i: int| 0 <= i < n - 1 && es[i].0 == prev[k];
            }
            assert forall|k1: int, k2: int| 0 <= k1 < k2 < cur.len() implies #[trigger] cur[k1] != #[trigger] cur[k2] by {
                if k2 == prev.len() {
                    assert(cur[k1] == prev[k1]);
                } else {
                    assert(cur[k1] == prev[k1] && cur[k2] == prev[k2]);
                }
            }
            assert forall|k: int| 0 <= k < cur.len() implies exists|i: int|
                0 <= i < n && es[i].0 == #[trigger] cur[k] by {
                if k < prev.len() {
                    assert(cur[k] == prev[k]);
                    let i = choose|i: int| 0 <= i < n - 1 && es[i].0 == prev[k];
                    assert(es[i].0 == cur[k]);
                } else {
                    assert(es[n - 1].0 == cur[k]);
                }
            }
            assert forall|i: int| 0 <= i < n && tensor_spec(b, es, #[trigger] es[i].0) is Some implies exists|k: int|
                0 <= k < cur.len() && cur[k] == es[i].0 by {
                if i < n - 1 {
                    let k = choose|k: int| 0 <= k < prev.len() && prev[k] == es[i].0;
                    assert(cur[k] == prev[k]);
                } else {
                    assert(cur[prev.len() as int] == es[i].0);
                }
            }
        } else {
            assert forall|i: int| 0 <= i < n && tensor_spec(b, es, #[trigger] es[i].0) is Some implies exists|k: int|
                0 <= k < cur.len() && cur[k] == es[i].0 by {
                if i < n - 1 {
                } else {
                    assert(false);
                }
            }
            assert forall|k: int| 0 <= k < cur.len() implies exists|i: int|
                0 <= i < n && es[i].0 == #[trigger] cur[k] by {
                let i = choose|i: int| 0 <= i < n - 1 && es[i].0 == prev[k];
                assert(es[i].0 == cur[k]);
            }
        }
    }
}

/// The entry named `name`, if there is one, can be cut out of the file.
pub open spec fn named_entry_cuttable(
    b: Seq<u8>,
    es: Seq<(Seq<char>, TensorInfoView)>,
    name: Seq<char>,
) -> bool {
    match find_entry(es, name) {
        Some(e) => entry_cuttable(b, e),
        None => true,
    }
}

proof fn lemma_find_entry_in(es: Seq<(Seq<char>, TensorInfoView)>, name: Seq<char>)
    ensures
        find_entry(es, name) matches Some(e) ==> exists|j: int| 0 <= j < es.len() && es[j].1 == e,
    decreases es.len(),
{
    if es.len() > 0 && es[0].0 != name {
        lemma_find_entry_in(es.drop_first(), name);
        if let Some(e) = find_entry(es, name) {
            let j = choose|j: int| 0 <= j < es.drop_first().len() && es.drop_first()[j].1 == e;
            assert(es[j + 1] == es.drop_first()[j]);
        }
    } else if es.len() > 0 {
        assert(es[0].1 == es[0].1);
    }
}

/// The names among the first `n` entries whose tensor `tensor_spec` gives.
pub open spec fn kept_names(
    b: Seq<u8>,
    es: Seq<(Seq<char>, TensorInfoView)>,
    n: int,
) -> Seq<Seq<char>>
    decreases n,
{
    if n <= 0 {
        Seq::empty()
    } else if tensor_spec(b, es, es[n - 1].0) is Some {
        kept_names(b, es, n - 1).push(es[n - 1].0)
    } else {
        kept_names(b, es, n - 1)
    }
}

proof fn lemma_find_skip(es: Seq<(Seq<char>, TensorInfoView)>, name: Seq<char>, k: int)
    requires
        0 <= k <= es.len(),
        forall|j: int| 0 <= j < k ==> (#[trigger] es[j]).0 != name,
    ensures
        find_entry(es, name) == find_entry(es.skip(k), name),
    decreases k,
{
    if k > 0 {
        let rest = es.drop_first();
        assert(es[0].0 != name);
        assert forall|j: int| 0 <= j < k - 1 implies (#[trigger] rest[j]).0 != name by {
            assert(rest[j] == es[j + 1]);
        }
        lemma_find_skip(rest, name, k - 1);
        assert(rest.skip(k - 1) == es.skip(k));
    } else {
        assert(es.skip(0) == es);
    }
}

/// The header's byte range `(start, end)` in `bytes`, or the framing error.
pub fn header_range(bytes: &[u8]) -> (r: Result<(usize, usize), String>)
    requires
        bytes@.len() >= 8 ==> 8 + header_len_spec(bytes@) <= usize::MAX,
    ensures
        bytes@.len() < 8 ==> (r matches Err(m) && m@ == too_small_message()),
        bytes@.len() >= 8 && bytes@.len() < 8 + header_len_spec(bytes@) ==> (r matches Err(m)
            && m@ == truncated_message()),
        header_range_spec(bytes@) matches Some(p) ==> (r matches Ok(q) && q.0 == p.0 && q.1
            == p.1),
{
    if bytes.len() < 8 {
        return Err(crate::text::owned("File too small for header length"));
    }
    let hl = header_len(bytes);
    if bytes.len() < 8 + hl {
        return Err(crate::text::owned("File truncated: header extends beyond file"));
    }
    Ok((8, 8 + hl))
}

/// The header length the first eight bytes give (`u64::from_le_bytes`,
/// taken as `usize`).
fn header_len(bytes: &[u8]) -> (n: usize)
    requires
        bytes@.len() >= 8,
    ensures
        n == header_len_spec(bytes@),
{
    let x = read_le(bytes, 0, 8);
    #[verifier::truncate]
    (x as usize)
}

} // verus!
