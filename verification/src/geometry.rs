use vstd::prelude::*;
use vstd::arithmetic::div_mod::{
    lemma_fundamental_div_mod,
    lemma_fundamental_div_mod_converse,
    lemma_mod_bound,
};
use vstd::arithmetic::mul::lemma_mul_is_commutative;
use crate::mask::{causal_mask, causal_mask_spec, mask_entry};

verus! {

/// Why the dimensions of an attention input cannot be read.
#[derive(Debug, Clone, Copy, PartialEq, Eq, Structural)]
pub enum ShapeError {
    /// The input has `rank` dimensions and dimension `dim` was asked for.
    DimOutOfRange { dim: usize, rank: usize },
}

/// The sizes that drive one multi-head self-attention pass over an input of
/// shape `[batch, seq_len, d_model]`, split into `n_head` heads.
#[derive(Debug, Clone, Copy, PartialEq, Eq, Structural)]
pub struct AttentionPlan {
    pub batch: usize,
    pub seq_len: usize,
    pub d_model: usize,
    pub n_head: usize,
}

/// The product of a shape's dimensions: how many elements a tensor of that
/// shape holds.
pub open spec fn elem_count(dims: Seq<usize>) -> int
    decreases dims.len(),
{
    if dims.len() == 0 {
        1
    } else {
        elem_count(dims.drop_last()) * dims.last()
    }
}

/// `small` broadcasts against `large` when both have the same rank and each
/// dimension of `small` equals the one of `large` or is 1.
pub open spec fn broadcasts_to(small: Seq<usize>, large: Seq<usize>) -> bool {
    &&& small.len() == large.len()
    &&& forall|a: int| 0 <= a < small.len() ==> #[trigger] small[a] == large[a] || small[a] == 1
}

/// The slice `(start, len)` of the fused query/key/value projection that holds
/// part `part` (0 = queries, 1 = keys, 2 = values).
pub open spec fn qkv_slice(d_model: int, part: int) -> (int, int) {
    (part * d_model, d_model)
}

/// Which head feature `f` of the model dimension belongs to, and its offset
/// inside that head, for heads of width `d_head`.
pub open spec fn head_position(d_head: int, f: int) -> (int, int) {
    (f / d_head, f % d_head)
}

/// The model-dimension feature at offset `e` of head `h`.
pub open spec fn model_feature(d_head: int, h: int, e: int) -> int {
    h * d_head + e
}

impl AttentionPlan {
    /// The width of each head.
    pub open spec fn spec_head_dim(self) -> int {
        self.d_model as int / self.n_head as int
    }

    /// Reads `batch` (dimension 0) and `seq_len` (dimension 1) of an input of
    /// shape `x_dims`; fails on dimension 0 when the input has no dimension,
    /// on dimension 1 when it has only one.
    pub fn new(x_dims: &[usize], d_model: usize, n_head: usize) -> (res: Result<AttentionPlan, ShapeError>)
        ensures
            x_dims@.len() == 0 ==> res == Err::<AttentionPlan, ShapeError>(
                ShapeError::DimOutOfRange { dim: 0, rank: 0 },
            ),
            x_dims@.len() == 1 ==> res == Err::<AttentionPlan, ShapeError>(
                ShapeError::DimOutOfRange { dim: 1, rank: 1 },
            ),
            x_dims@.len() >= 2 ==> res == Ok::<AttentionPlan, ShapeError>(
                AttentionPlan { batch: x_dims@[0], seq_len: x_dims@[1], d_model, n_head },
            ),
    {
        if x_dims.len() == 0 {
            return Err(ShapeError::DimOutOfRange { dim: 0, rank: 0 });
        }
        if x_dims.len() == 1 {
            return Err(ShapeError::DimOutOfRange { dim: 1, rank: 1 });
        }
        Ok(AttentionPlan { batch: x_dims[0], seq_len: x_dims[1], d_model, n_head })
    }

    /// The width of each head, `d_model / n_head`.
    pub fn head_dim(&self) -> (d_head: usize)
        requires
            self.n_head > 0,
        ensures
            d_head == self.spec_head_dim(),
    {
        self.d_model / self.n_head
    }

    /// `(start, len)` of the queries in the last dimension of the fused
    /// projection.
    pub fn q_range(&self) -> (r: (usize, usize))
        ensures
            r.0 == qkv_slice(self.d_model as int, 0).0,
            r.1 == qkv_slice(self.d_model as int, 0).1,
    {
        (0, self.d_model)
    }

    /// `(start, len)` of the keys in the last dimension of the fused
    /// projection.
    pub fn k_range(&self) -> (r: (usize, usize))
        ensures
            r.0 == qkv_slice(self.d_model as int, 1).0,
            r.1 == qkv_slice(self.d_model as int, 1).1,
    {
        (self.d_model, self.d_model)
    }

    /// `(start, len)` of the values in the last dimension of the fused
    /// projection.
    pub fn v_range(&self) -> (r: (usize, usize))
        requires
            2 * self.d_model <= usize::MAX,
        ensures
            r.0 == qkv_slice(self.d_model as int, 2).0,
            r.1 == qkv_slice(self.d_model as int, 2).1,
    {
        (2 * self.d_model, self.d_model)
    }

    /// The shape `[batch, seq_len, n_head, d_head]` that each of the queries,
    /// keys and values is reshaped to.
    pub fn split_dims(&self) -> (dims: [usize; 4])
        requires
            self.n_head > 0,
        ensures
            dims@ == seq![self.batch, self.seq_len, self.n_head, self.spec_head_dim() as usize],
    {
        [self.batch, self.seq_len, self.n_head, self.head_dim()]
    }

    /// The head-major shape `[batch, n_head, seq_len, d_head]`: the split
    /// shape with dimensions 1 and 2 swapped.
    pub fn head_major_dims(&self) -> (dims: [usize; 4])
        requires
            self.n_head > 0,
        ensures
            dims@ == seq![self.batch, self.n_head, self.seq_len, self.spec_head_dim() as usize],
    {
        [self.batch, self.n_head, self.seq_len, self.head_dim()]
    }

    /// The shape `[batch, n_head, seq_len, seq_len]` of the attention scores.
    pub fn scores_dims(&self) -> (dims: [usize; 4])
        ensures
            dims@ == seq![self.batch, self.n_head, self.seq_len, self.seq_len],
    {
        [self.batch, self.n_head, self.seq_len, self.seq_len]
    }

    /// The shape `[1, 1, seq_len, seq_len]` of the causal mask, shared by
    /// every batch element and every head.
    pub fn mask_dims(&self) -> (dims: [usize; 4])
        ensures
            dims@ == seq![1usize, 1usize, self.seq_len, self.seq_len],
    {
        [1, 1, self.seq_len, self.seq_len]
    }

    /// The shape `[batch, seq_len, d_model]` that the heads are merged back to.
    pub fn merged_dims(&self) -> (dims: [usize; 3])
        ensures
            dims@ == seq![self.batch, self.seq_len, self.d_model],
    {
        [self.batch, self.seq_len, self.d_model]
    }

    /// The causal mask over the plan's `seq_len` positions, flattened row by
    /// row: `visible` where a position may attend, `hidden` elsewhere.
    pub fn mask<T: Copy>(&self, visible: T, hidden: T) -> (mask: Vec<T>)
        requires
            self.seq_len * self.seq_len <= usize::MAX,
        ensures
            mask@ == causal_mask_spec(self.seq_len as nat, visible, hidden),
            forall|i: int, j: int|
                0 <= i < self.seq_len && 0 <= j < self.seq_len ==> #[trigger] mask@[i
                    * self.seq_len + j] == mask_entry(i, j, visible, hidden),
    {
        causal_mask(self.seq_len, visible, hidden)
    }
}

/// Law: the query, key and value slices of the fused projection lie side by
/// side and tile `[0, 3 * d_model)`: each feature `f` there lies in exactly
/// one of them, part `f / d_model`.
pub proof fn lemma_qkv_slices_tile(d_model: nat)
    ensures
        qkv_slice(d_model as int, 0).0 == 0,
        qkv_slice(d_model as int, 0).0 + qkv_slice(d_model as int, 0).1 == qkv_slice(d_model as int, 1).0,
        qkv_slice(d_model as int, 1).0 + qkv_slice(d_model as int, 1).1 == qkv_slice(d_model as int, 2).0,
        qkv_slice(d_model as int, 2).0 + qkv_slice(d_model as int, 2).1 == 3 * d_model,
        forall|f: int, part: int|
            #![trigger qkv_slice(d_model as int, part), f / (d_model as int)]
            0 <= f < 3 * d_model && 0 <= part < 3 ==> (qkv_slice(d_model as int, part).0 <= f
                < qkv_slice(d_model as int, part).0 + qkv_slice(d_model as int, part).1
                <==> part == f / (d_model as int)),
{
    let d = d_model as int;
    assert forall|f: int, part: int|
        #![trigger qkv_slice(d, part), f / d]
        0 <= f < 3 * d_model && 0 <= part < 3 implies (qkv_slice(d, part).0 <= f
            < qkv_slice(d, part).0 + qkv_slice(d, part).1 <==> part == f / d) by {
        assert(d > 0);
        if part * d <= f < part * d + d {
            lemma_fundamental_div_mod_converse(f, d, part, f - part * d);
        }
        if part == f / d {
            lemma_fundamental_div_mod(f, d);
            lemma_mod_bound(f, d);
            lemma_mul_is_commutative(d, f / d);
        }
    }
}

/// The element count of shapes of rank 3 and 4, multiplied out.
proof fn lemma_elem_count_small(a: usize, b: usize, c: usize, d: usize)
    ensures
        elem_count(seq![a, b, c]) == a * b * c,
        elem_count(seq![a, b, c, d]) == a * b * c * d,
{
    let s1 = seq![a];
    let s2 = seq![a, b];
    let s3 = seq![a, b, c];
    let s4 = seq![a, b, c, d];
    assert(s1.drop_last() =~= Seq::<usize>::empty());
    assert(s2.drop_last() =~= s1);
    assert(s3.drop_last() =~= s2);
    assert(s4.drop_last() =~= s3);
    assert(elem_count(Seq::<usize>::empty()) == 1);
    assert(elem_count(s1) == a);
    assert(elem_count(s2) == a * b);
    assert(elem_count(s3) == a * b * c);
    assert(elem_count(s4) == a * b * c * d);
}

/// Law: splitting the model dimension into `n_head` heads of width
/// `d_model / n_head` keeps the element count (so the reshape is possible)
/// exactly when `n_head` divides `d_model`, for any non-empty input.
pub proof fn lemma_split_keeps_count(plan: AttentionPlan)
    requires
        plan.n_head > 0,
        plan.batch * plan.seq_len > 0,
    ensures
        elem_count(seq![plan.batch, plan.seq_len, plan.n_head, plan.spec_head_dim() as usize])
            == elem_count(seq![plan.batch, plan.seq_len, plan.d_model]) <==> plan.d_model
            % plan.n_head == 0,
{
    let b = plan.batch as int;
    let s = plan.seq_len as int;
    let h = plan.n_head as int;
    let d = plan.d_model as int;
    let dh = d / h;
    lemma_fundamental_div_mod(d, h);
    assert(dh >= 0) by {
        vstd::arithmetic::div_mod::lemma_div_pos_is_pos(d, h);
    }
    let split = seq![plan.batch, plan.seq_len, plan.n_head, dh as usize];
    let merged = seq![plan.batch, plan.seq_len, plan.d_model];
    lemma_elem_count_small(plan.batch, plan.seq_len, plan.n_head, dh as usize);
    lemma_elem_count_small(plan.batch, plan.seq_len, plan.d_model, 0);
    assert(elem_count(split) == b * s * h * dh);
    assert(elem_count(merged) == b * s * d);
    assert(b * s * h * dh == (b * s) * (h * dh)) by (nonlinear_arith);
    assert(b * s * d == (b * s) * d) by (nonlinear_arith);
    if d % h == 0 {
        assert(h * dh == d);
    } else {
        assert(h * dh != d);
        if (b * s) * (h * dh) == (b * s) * d {
            assert(h * dh == d) by (nonlinear_arith)
                requires (b * s) * (h * dh) == (b * s) * d, b * s > 0;
        }
    }
}

/// Law: the head-major shape is the split shape with dimensions 1 and 2
/// swapped, so both hold the same number of elements; the scores shape is
/// square in its last two dimensions; and the causal mask broadcasts against
/// the scores.
pub proof fn lemma_attention_shapes_agree(plan: AttentionPlan)
    requires
        plan.n_head > 0,
    ensures
        ({
            let split = seq![plan.batch, plan.seq_len, plan.n_head, plan.spec_head_dim() as usize];
            let major = seq![plan.batch, plan.n_head, plan.seq_len, plan.spec_head_dim() as usize];
            &&& major == split.update(1, split[2]).update(2, split[1])
            &&& elem_count(major) == elem_count(split)
        }),
        broadcasts_to(
            seq![1usize, 1usize, plan.seq_len, plan.seq_len],
            seq![plan.batch, plan.n_head, plan.seq_len, plan.seq_len],
        ),
{
    let dh = plan.spec_head_dim() as usize;
    let split = seq![plan.batch, plan.seq_len, plan.n_head, dh];
    let major = seq![plan.batch, plan.n_head, plan.seq_len, dh];
    assert(major =~= split.update(1, split[2]).update(2, split[1]));
    lemma_elem_count_small(plan.batch, plan.seq_len, plan.n_head, dh);
    lemma_elem_count_small(plan.batch, plan.n_head, plan.seq_len, dh);
    let b = plan.batch as int;
    let s = plan.seq_len as int;
    let h = plan.n_head as int;
    assert(b * s * h * dh == b * h * s * dh) by (nonlinear_arith);
    let m = seq![1usize, 1usize, plan.seq_len, plan.seq_len];
    let sc = seq![plan.batch, plan.n_head, plan.seq_len, plan.seq_len];
    assert forall|a: int| 0 <= a < m.len() implies #[trigger] m[a] == sc[a] || m[a] == 1 by {
        assert(a == 0 || a == 1 || a == 2 || a == 3);
    }
}

/// Law: when `n_head` divides `d_model`, moving a model feature into its head
/// and back gives the feature again, and every (head, offset) pair names a
/// distinct feature: merging the heads undoes the split.
pub proof fn lemma_head_split_roundtrip(plan: AttentionPlan)
    requires
        plan.n_head > 0,
        plan.d_model % plan.n_head == 0,
    ensures
        forall|f: int|
            0 <= f < plan.d_model ==> {
                let (h, e) = #[trigger] head_position(plan.spec_head_dim(), f);
                &&& 0 <= h < plan.n_head
                &&& 0 <= e < plan.spec_head_dim()
                &&& model_feature(plan.spec_head_dim(), h, e) == f
            },
        forall|h: int, e: int|
            0 <= h < plan.n_head && 0 <= e < plan.spec_head_dim() ==> {
                let f = #[trigger] model_feature(plan.spec_head_dim(), h, e);
                &&& 0 <= f < plan.d_model
                &&& head_position(plan.spec_head_dim(), f) == (h, e)
            },
{
    let d = plan.d_model as int;
    let nh = plan.n_head as int;
    let dh = plan.spec_head_dim();
    lemma_fundamental_div_mod(d, nh);
    assert(nh * dh == d);
    if d == 0 {
        assert(dh == 0);
    }
    assert forall|f: int| 0 <= f < plan.d_model implies {
        let (h, e) = #[trigger] head_position(dh, f);
        &&& 0 <= h < plan.n_head
        &&& 0 <= e < dh
        &&& model_feature(dh, h, e) == f
    } by {
        assert(dh > 0) by (nonlinear_arith)
            requires nh * dh == d, 0 <= f < d, nh > 0;
        lemma_fundamental_div_mod(f, dh);
        lemma_mod_bound(f, dh);
        lemma_mul_is_commutative(dh, f / dh);
        vstd::arithmetic::div_mod::lemma_div_pos_is_pos(f, dh);
        if f / dh >= nh {
            assert(f >= nh * dh) by (nonlinear_arith)
                requires f / dh >= nh, f == (f / dh) * dh + f % dh, f % dh >= 0, dh > 0;
        }
    }
    assert forall|h: int, e: int| 0 <= h < plan.n_head && 0 <= e < dh implies {
        let f = #[trigger] model_feature(dh, h, e);
        &&& 0 <= f < plan.d_model
        &&& head_position(dh, f) == (h, e)
    } by {
        lemma_fundamental_div_mod_converse(h * dh + e, dh, h, e);
        assert(h * dh + e < nh * dh) by (nonlinear_arith)
            requires 0 <= h < nh, 0 <= e < dh;
        assert(0 <= h * dh) by (nonlinear_arith)
            requires 0 <= h, 0 <= dh;
    }
}

/// Law: for an input of shape `[batch, seq_len, d_model]`, the shape that the
/// heads are merged back to is the input's own shape, so the output
/// projection keeps `[batch, seq_len, d_model]` across the residual sum.
pub proof fn lemma_merged_shape_is_input_shape(x_dims: Seq<usize>, d_model: usize, n_head: usize)
    requires
        x_dims.len() == 3,
        x_dims[2] == d_model,
    ensures
        ({
            let plan = AttentionPlan { batch: x_dims[0], seq_len: x_dims[1], d_model, n_head };
            seq![plan.batch, plan.seq_len, plan.d_model] == x_dims
        }),
{
    assert(seq![x_dims[0], x_dims[1], d_model] =~= x_dims);
}

} // verus!
