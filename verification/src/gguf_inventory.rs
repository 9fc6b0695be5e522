//! The attention tensor inventory of a GGUF file: which tensors it lists
//! for a scope, in what order, and what it says of each.

use vstd::prelude::*;
use crate::gguf::{
    attention_role, attention_role_spec, classify_attention_tensor, classify_spec, normalize_gguf_key,
    normalized_key, AttentionInventoryScope, GgufFile, GgufTensorSummary, TensorInfoModel,
};
use crate::policy::{lex_le, str_lt};
use crate::lql::str_eq;
use crate::text::{chars_of, owned, string_from_chars};

verus! {

/// What an inventory sorts a tensor by: its scope, layer, component and
/// name.
pub type InventoryKey = (Seq<char>, Option<usize>, Seq<char>, Seq<char>);

/// The tensor is an attention tensor of the inventory's scope.
pub open spec fn picked(info: TensorInfoModel, scope: AttentionInventoryScope) -> bool {
    match classify_spec(info.name) {
        Some(c) => scope.includes_spec(c.0),
        None => false,
    }
}

/// The key of a picked tensor.
pub open spec fn inventory_key(info: TensorInfoModel) -> InventoryKey {
    let c = classify_spec(info.name).unwrap();
    (c.0, c.1, c.2, info.name)
}

/// `a` sorts strictly before `b`: lexicographically on scope, layer (no
/// layer first), component and name, strings by code point.
pub open spec fn key_lt(a: InventoryKey, b: InventoryKey) -> bool {
    if a.0 != b.0 {
        !lex_le(b.0, a.0)
    } else if a.1 != b.1 {
        match (a.1, b.1) {
            (None, Some(_)) => true,
            (Some(x), Some(y)) => x < y,
            _ => false,
        }
    } else if a.2 != b.2 {
        !lex_le(b.2, a.2)
    } else {
        !lex_le(b.3, a.3)
    }
}

/// The indices of the picked tensors among the first `n`, in order.
pub open spec fn picked_indices(infos: Seq<TensorInfoModel>, scope: AttentionInventoryScope, n: int) -> Seq<int>
    decreases n,
{
    if n <= 0 {
        Seq::empty()
    } else if picked(infos[n - 1], scope) {
        picked_indices(infos, scope, n - 1).push(n - 1)
    } else {
        picked_indices(infos, scope, n - 1)
    }
}

/// `x` placed into `s` after every index whose key does not sort after
/// its own.
pub open spec fn insert_index(infos: Seq<TensorInfoModel>, s: Seq<int>, x: int) -> Seq<int>
    decreases s.len(),
{
    if s.len() == 0 {
        seq![x]
    } else if !key_lt(inventory_key(infos[x]), inventory_key(infos[s.last()])) {
        s.push(x)
    } else {
        insert_index(infos, s.drop_last(), x).push(s.last())
    }
}

/// The indices sorted by key, indices of equal key in their order (a
/// stable sort).
pub open spec fn sort_indices(infos: Seq<TensorInfoModel>, s: Seq<int>) -> Seq<int>
    decreases s.len(),
{
    if s.len() == 0 {
        Seq::empty()
    } else {
        insert_index(infos, sort_indices(infos, s.drop_last()), s.last())
    }
}

/// The first of the indices whose tensor's data size is not known.
pub open spec fn first_unsized(p: Seq<int>, sizes: Seq<Option<u64>>) -> Option<int>
    decreases p.len(),
{
    if p.len() == 0 {
        None
    } else {
        match first_unsized(p.drop_last(), sizes) {
            Some(k) => Some(k),
            None => if sizes[p.last()] is None {
                Some(p.last())
            } else {
                None
            },
        }
    }
}

/// The components the runtime vindex keeps of a decoder layer.
pub open spec fn runtime_component(c: Seq<char>) -> bool {
    c == "attn_q"@ || c == "attn_k"@ || c == "attn_v"@ || c == "attn_output"@ || c == "attn_q_norm"@
        || c == "attn_k_norm"@
}

/// `row` is the inventory row of the tensor `info`, with the file's data
/// at `data_offset`, the tensor's data `size` bytes long, and its GGML type
/// named `ggml_name`.
pub open spec fn row_of(
    row: GgufTensorSummary,
    info: TensorInfoModel,
    data_offset: u64,
    size: u64,
    ggml_name: Seq<char>,
) -> bool {
    let c = classify_spec(info.name).unwrap();
    &&& row.name@ == info.name
    &&& row.normalized_name@ == normalized_key(info.name)
    &&& row.scope@ == c.0
    &&& row.component@ == c.2
    &&& row.role@ == attention_role_spec(c.2)
    &&& row.param@ == c.3
    &&& row.layer == c.1
    &&& row.dims@ == info.dims
    &&& row.ggml_type_id == info.tensor_type
    &&& row.ggml_type@ == ggml_name
    &&& row.relative_offset == info.offset
    &&& row.absolute_offset == data_offset + info.offset
    &&& row.byte_size == size
    &&& row.included_in_runtime_vindex == (c.0 == "decoder"@ && runtime_component(c.2))
}

/// A picked tensor: where it stands, and its scope, layer, component and
/// last name part.
struct Picked {
    index: usize,
    scope: &'static str,
    layer: Option<usize>,
    component: String,
    param: String,
}

/// `p` describes the tensor it points at.
spec fn picked_ok(infos: Seq<TensorInfoModel>, p: Picked) -> bool {
    &&& p.index < infos.len()
    &&& classify_spec(infos[p.index as int].name) matches Some(c) && p.scope@ == c.0 && p.layer == c.1
        && p.component@ == c.2 && p.param@ == c.3
}

spec fn picked_index(p: Picked) -> int {
    p.index as int
}

/// Whether the tensor at `a` sorts strictly before the one at `b`.
fn picked_lt(infos: &Vec<crate::gguf::GgufTensorInfo>, a: &Picked, b: &Picked) -> (r: bool)
    requires
        picked_ok(infos@.map_values(|t: crate::gguf::GgufTensorInfo| t@), *a),
        picked_ok(infos@.map_values(|t: crate::gguf::GgufTensorInfo| t@), *b),
    ensures
        r == key_lt(
            inventory_key(infos@[a.index as int]@),
            inventory_key(infos@[b.index as int]@),
        ),
{
    let ghost vs = infos@.map_values(|t: crate::gguf::GgufTensorInfo| t@);
    assert(vs[a.index as int] == infos@[a.index as int]@);
    assert(vs[b.index as int] == infos@[b.index as int]@);
    if !str_eq(a.scope, b.scope) {
        str_lt(a.scope, b.scope)
    } else {
        let same_layer = match (a.layer, b.layer) {
            (Some(x), Some(y)) => x == y,
            (None, None) => true,
            _ => false,
        };
        if !same_layer {
            match (a.layer, b.layer) {
                (None, Some(_)) => true,
                (Some(x), Some(y)) => x < y,
                _ => false,
            }
        } else if !str_eq(a.component.as_str(), b.component.as_str()) {
            str_lt(a.component.as_str(), b.component.as_str())
        } else {
            str_lt(infos[a.index].name.as_str(), infos[b.index].name.as_str())
        }
    }
}

proof fn lemma_insert_index_at(infos: Seq<TensorInfoModel>, s: Seq<int>, x: int, p: int)
    requires
        0 <= p <= s.len(),
        forall|i: int| p <= i < s.len() ==> key_lt(inventory_key(infos[x]), inventory_key(infos[#[trigger] s[i]])),
        p == 0 || !key_lt(inventory_key(infos[x]), inventory_key(infos[s[p - 1]])),
    ensures
        insert_index(infos, s, x) == s.take(p).push(x) + s.skip(p),
    decreases s.len(),
{
    if s.len() == 0 {
        assert(s.take(p).push(x) + s.skip(p) =~= seq![x]);
    } else if p == s.len() {
        assert(s.take(p).push(x) + s.skip(p) =~= s.push(x));
    } else {
        let d = s.drop_last();
        assert(key_lt(inventory_key(infos[x]), inventory_key(infos[s.last()])));
        assert forall|i: int| p <= i < d.len() implies key_lt(inventory_key(infos[x]), inventory_key(infos[#[trigger] d[i]])) by {
            assert(d[i] == s[i]);
        }
        if p > 0 {
            assert(d[p - 1] == s[p - 1]);
        }
        lemma_insert_index_at(infos, d, x, p);
        assert((d.take(p).push(x) + d.skip(p)).push(s.last()) =~= s.take(p).push(x) + s.skip(p));
    }
}

proof fn lemma_first_unsized_stays(
    infos: Seq<TensorInfoModel>,
    scope: AttentionInventoryScope,
    sizes: Seq<Option<u64>>,
    n0: int,
    n: int,
)
    requires
        0 <= n0 <= n,
        first_unsized(picked_indices(infos, scope, n0), sizes) is Some,
    ensures
        first_unsized(picked_indices(infos, scope, n), sizes) == first_unsized(
            picked_indices(infos, scope, n0),
            sizes,
        ),
    decreases n - n0,
{
    if n > n0 {
        lemma_first_unsized_stays(infos, scope, sizes, n0, n - 1);
        let pm = picked_indices(infos, scope, n - 1);
        if picked(infos[n - 1], scope) {
            assert(pm.push(n - 1).drop_last() =~= pm);
        }
    }
}

impl GgufFile {
    /// The attention tensors of `scope`, sorted by scope, layer, component
    /// and name (a stable sort), each with its names, place, size and type.
    /// The byte size and GGML type name of each tensor come from the GGML
    /// tables: `sizes[i]` is the data size of tensor `i` (`None` for a type
    /// the tables cannot size) and `ggml_names[i]` its type's name. The
    /// first picked tensor without a size is the error, by its index.
    pub fn attention_inventory(
        &self,
        scope: AttentionInventoryScope,
        sizes: &Vec<Option<u64>>,
        ggml_names: &Vec<String>,
    ) -> (r: Result<Vec<GgufTensorSummary>, usize>)
        requires
            sizes@.len() == self.tensor_infos@.len(),
            ggml_names@.len() == self.tensor_infos@.len(),
            forall|i: int|
                0 <= i < self.tensor_infos@.len() && picked(#[trigger] self.tensor_infos@[i]@, scope)
                    ==> self.data_offset + self.tensor_infos@[i].offset <= u64::MAX,
        ensures
            ({
                let infos = self.tensor_infos@.map_values(|t: crate::gguf::GgufTensorInfo| t@);
                let p = picked_indices(infos, scope, infos.len() as int);
                match first_unsized(p, sizes@) {
                    Some(k) => r == Err::<Vec<GgufTensorSummary>, usize>(k as usize),
                    None => r matches Ok(rows) && {
                        let s = sort_indices(infos, p);
                        &&& rows@.len() == s.len()
                        &&& forall|k: int|
                            0 <= k < s.len() ==> row_of(
                                #[trigger] rows@[k],
                                infos[s[k]],
                                self.data_offset,
                                sizes@[s[k]].unwrap(),
                                ggml_names@[s[k]]@,
                            )
                    },
                }
            }),
    {
        let ghost infos = self.tensor_infos@.map_values(|t: crate::gguf::GgufTensorInfo| t@);
        let mut picks: Vec<Picked> = Vec::new();
        let mut i: usize = 0;
        while i < self.tensor_infos.len()
            invariant
                i <= infos.len(),
                infos == self.tensor_infos@.map_values(|t: crate::gguf::GgufTensorInfo| t@),
                sizes@.len() == infos.len(),
                picks@.map_values(|q: Picked| picked_index(q)) == sort_indices(infos, picked_indices(infos, scope, i as int)),
                forall|k: int| 0 <= k < picks@.len() ==> picked_ok(infos, #[trigger] picks@[k]),
                forall|k: int| 0 <= k < picks@.len() ==> sizes@[(#[trigger] picks@[k]).index as int] is Some
                    && picked(infos[picks@[k].index as int], scope),
                first_unsized(picked_indices(infos, scope, i as int), sizes@) is None,
            decreases self.tensor_infos.len() - i,
        {
            assert(infos[i as int] == self.tensor_infos@[i as int]@);
            let c = classify_attention_tensor(self.tensor_infos[i].name.as_str());
            match c {
                Some((sc, layer, component, param)) => {
                    if scope.includes(sc) {
                        if sizes[i].is_none() {
                            proof {
                                let pi = picked_indices(infos, scope, i as int);
                                assert(picked_indices(infos, scope, i + 1) == pi.push(i as int));
                                assert(pi.push(i as int).drop_last() =~= pi);
                                lemma_first_unsized_stays(infos, scope, sizes@, i + 1, infos.len() as int);
                            }
                            return Err(i);
                        }
                        let x = Picked { index: i, scope: sc, layer, component, param };
                        let ghost before = picks@.map_values(|q: Picked| picked_index(q));
                        let mut pos: usize = picks.len();
                        while pos > 0 && picked_lt(&self.tensor_infos, &x, &picks[pos - 1])
                            invariant
                                pos <= picks@.len(),
                                infos == self.tensor_infos@.map_values(|t: crate::gguf::GgufTensorInfo| t@),
                                picked_ok(infos, x),
                                forall|k: int| 0 <= k < picks@.len() ==> picked_ok(infos, #[trigger] picks@[k]),
                                forall|k: int| pos <= k < picks@.len() ==> key_lt(
                                    inventory_key(infos[x.index as int]),
                                    inventory_key(infos[#[trigger] picks@[k].index as int]),
                                ),
                            decreases pos,
                        {
                            pos = pos - 1;
                        }
                        proof {
                            assert forall|k: int| pos <= k < before.len() implies key_lt(
                                inventory_key(infos[i as int]),
                                inventory_key(infos[#[trigger] before[k]]),
                            ) by {
                                assert(before[k] == picks@[k].index as int);
                            }
                            if pos > 0 {
                                assert(before[pos - 1] == picks@[pos - 1].index as int);
                            }
                            lemma_insert_index_at(infos, before, i as int, pos as int);
                            let pi = picked_indices(infos, scope, i as int);
                            assert(picked_indices(infos, scope, i + 1) == pi.push(i as int));
                            assert(pi.push(i as int).drop_last() =~= pi);
                        }
                        let ghost old_picks = picks@;
                        picks.insert(pos, x);
                        proof {
                            assert(picks@.map_values(|q: Picked| picked_index(q)) =~= before.take(pos as int).push(i as int)
                                + before.skip(pos as int));
                            assert forall|k: int| 0 <= k < picks@.len() implies picked_ok(infos, #[trigger] picks@[k])
                                && sizes@[picks@[k].index as int] is Some && picked(infos[picks@[k].index as int], scope) by {
                                if k < pos {
                                    assert(picks@[k] == old_picks[k]);
                                } else if k > pos {
                                    assert(picks@[k] == old_picks[k - 1]);
                                }
                            }
                        }
                    } else {
                        assert(picked_indices(infos, scope, i + 1) == picked_indices(infos, scope, i as int));
                    }
                },
                None => {
                    assert(picked_indices(infos, scope, i + 1) == picked_indices(infos, scope, i as int));
                },
            }
            i = i + 1;
        }
        let ghost p = picked_indices(infos, scope, infos.len() as int);
        proof {
            assert(infos.len() == i);
        }
        let mut rows: Vec<GgufTensorSummary> = Vec::new();
        let mut k: usize = 0;
        while k < picks.len()
            invariant
                k <= picks@.len(),
                infos == self.tensor_infos@.map_values(|t: crate::gguf::GgufTensorInfo| t@),
                picks@.map_values(|q: Picked| picked_index(q)) == sort_indices(infos, p),
                forall|j: int| 0 <= j < picks@.len() ==> picked_ok(infos, #[trigger] picks@[j]),
                forall|j: int| 0 <= j < picks@.len() ==> sizes@[(#[trigger] picks@[j]).index as int] is Some
                    && picked(infos[picks@[j].index as int], scope),
                forall|j: int|
                    0 <= j < self.tensor_infos@.len() && picked(#[trigger] self.tensor_infos@[j]@, scope)
                        ==> self.data_offset + self.tensor_infos@[j].offset <= u64::MAX,
                sizes@.len() == infos.len(),
                ggml_names@.len() == infos.len(),
                rows@.len() == k,
                forall|j: int| 0 <= j < k ==> row_of(
                    #[trigger] rows@[j],
                    infos[picks@[j].index as int],
                    self.data_offset,
                    sizes@[picks@[j].index as int].unwrap(),
                    ggml_names@[picks@[j].index as int]@,
                ),
            decreases picks.len() - k,
        {
            let q = &picks[k];
            let idx = q.index;
            assert(infos[idx as int] == self.tensor_infos@[idx as int]@);
            let info = &self.tensor_infos[idx];
            let size: u64 = match sizes[idx] {
                Some(v) => v,
                None => 0,
            };
            let role_chars = chars_of(q.component.as_str());
            let role = string_from_chars(attention_role(role_chars.as_slice()).as_slice());
            let decoder = str_eq(q.scope, "decoder");
            let c = q.component.as_str();
            let runtime = str_eq(c, "attn_q") || str_eq(c, "attn_k") || str_eq(c, "attn_v") || str_eq(
                c,
                "attn_output",
            ) || str_eq(c, "attn_q_norm") || str_eq(c, "attn_k_norm");
            let row = GgufTensorSummary {
                name: info.name.clone(),
                normalized_name: normalize_gguf_key(info.name.as_str()),
                scope: owned(q.scope),
                component: q.component.clone(),
                role,
                param: q.param.clone(),
                layer: q.layer,
                dims: vstd::slice::slice_to_vec(info.dims.as_slice()),
                ggml_type_id: info.tensor_type,
                ggml_type: ggml_names[idx].clone(),
                relative_offset: info.offset,
                absolute_offset: self.data_offset + info.offset,
                byte_size: size,
                included_in_runtime_vindex: decoder && runtime,
            };
            rows.push(row);
            k = k + 1;
        }
        Ok(rows)
    }
}

} // verus!
