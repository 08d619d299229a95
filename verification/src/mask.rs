use vstd::prelude::*;
use vstd::arithmetic::div_mod::lemma_fundamental_div_mod_converse;

verus! {

/// The value at row `i`, column `j` of a causal mask: position `i` may attend
/// to position `j` exactly when `j <= i`.
pub open spec fn mask_entry<T>(i: int, j: int, visible: T, hidden: T) -> T {
    if j <= i { visible } else { hidden }
}

/// The full `seq_len x seq_len` causal mask, flattened row by row.
pub open spec fn causal_mask_spec<T>(seq_len: nat, visible: T, hidden: T) -> Seq<T> {
    Seq::new(seq_len * seq_len, |k: int| mask_entry(k / seq_len as int, k % seq_len as int, visible, hidden))
}

/// Builds the causal attention mask of a sequence of `seq_len` positions,
/// row-major: entry `i * seq_len + j` is `visible` when `j <= i` and `hidden`
/// when `j > i` (a position never attends to a later one).
pub fn causal_mask<T: Copy>(seq_len: usize, visible: T, hidden: T) -> (mask: Vec<T>)
    requires
        seq_len * seq_len <= usize::MAX,
    ensures
        mask@ == causal_mask_spec(seq_len as nat, visible, hidden),
        forall|i: int, j: int|
            0 <= i < seq_len && 0 <= j < seq_len ==> #[trigger] mask@[i * seq_len + j]
                == mask_entry(i, j, visible, hidden),
{
    let mut mask: Vec<T> = Vec::new();
    let mut i: usize = 0;
    while i < seq_len
        invariant
            i <= seq_len,
            seq_len * seq_len <= usize::MAX,
            mask@.len() == i * seq_len,
            forall|r: int, c: int|
                0 <= r < i && 0 <= c < seq_len ==> #[trigger] mask@[r * seq_len + c]
                    == mask_entry(r, c, visible, hidden),
        decreases seq_len - i,
    {
        let mut j: usize = 0;
        while j < seq_len
            invariant
                i < seq_len,
                j <= seq_len,
                seq_len * seq_len <= usize::MAX,
                mask@.len() == i * seq_len + j,
                forall|r: int, c: int|
                    0 <= r < i && 0 <= c < seq_len ==> #[trigger] mask@[r * seq_len + c]
                        == mask_entry(r, c, visible, hidden),
                forall|c: int| 0 <= c < j ==> #[trigger] mask@[i * seq_len + c]
                    == mask_entry(i as int, c, visible, hidden),
            decreases seq_len - j,
        {
            proof {
                assert((i + 1) * seq_len == i * seq_len + seq_len) by (nonlinear_arith);
                assert(i * seq_len + j < seq_len * seq_len) by (nonlinear_arith)
                    requires i < seq_len, j < seq_len;
            }
            let ghost before = mask@;
            if j <= i {
                mask.push(visible);
            } else {
                mask.push(hidden);
            }
            proof {
                assert forall|r: int, c: int|
                    0 <= r < i && 0 <= c < seq_len implies #[trigger] mask@[r * seq_len + c]
                        == mask_entry(r, c, visible, hidden) by {
                    assert(r * seq_len + c < i * seq_len) by (nonlinear_arith)
                        requires r < i, c < seq_len, 0 <= c;
                    assert(mask@[r * seq_len + c] == before[r * seq_len + c]);
                }
            }
            j = j + 1;
        }
        proof {
            assert((i + 1) * seq_len == i * seq_len + seq_len) by (nonlinear_arith);
        }
        i = i + 1;
    }
    proof {
        let n = seq_len as int;
        assert forall|k: int| 0 <= k < n * n implies #[trigger] mask@[k]
            == causal_mask_spec(seq_len as nat, visible, hidden)[k] by {
            lemma_row_col(k, n);
            assert(0 <= k / n < seq_len && 0 <= k % n < seq_len);
            assert(mask@[(k / n) * n + k % n] == mask_entry(k / n, k % n, visible, hidden));
        }
        assert(mask@ =~= causal_mask_spec(seq_len as nat, visible, hidden));
    }
    mask
}

/// Law: row `i` of the causal mask over `n` positions is made of `i + 1`
/// visible entries (positions `0..=i`, the diagonal included) followed by
/// `n - i - 1` hidden ones (every later position).
pub proof fn lemma_causal_mask_row<T>(n: nat, visible: T, hidden: T, i: int)
    requires
        0 <= i < n,
    ensures
        causal_mask_spec(n, visible, hidden).subrange(i * n, i * n + n) == Seq::new(
            (i + 1) as nat,
            |_j: int| visible,
        ) + Seq::new((n - i - 1) as nat, |_j: int| hidden),
{
    let full = causal_mask_spec(n, visible, hidden);
    let row = full.subrange(i * n, i * n + n);
    let expected = Seq::new((i + 1) as nat, |_j: int| visible) + Seq::new(
        (n - i - 1) as nat,
        |_j: int| hidden,
    );
    assert(i * n + n <= n * n) by (nonlinear_arith)
        requires 0 <= i < n;
    assert(0 <= i * n) by (nonlinear_arith)
        requires 0 <= i, 0 <= n;
    assert forall|j: int| 0 <= j < n implies #[trigger] row[j] == expected[j] by {
        lemma_fundamental_div_mod_converse(i * n + j, n as int, i, j);
    }
    assert(row =~= expected);
}

/// Law: every position attends to itself, so no row of the mask is entirely
/// hidden; and no position attends to a later one.
pub proof fn lemma_causal_mask_diagonal_and_future<T>(n: nat, visible: T, hidden: T)
    ensures
        forall|i: int| 0 <= i < n ==> #[trigger] causal_mask_spec(n, visible, hidden)[i * n + i] == visible,
        forall|i: int, j: int| 0 <= i < j < n ==> #[trigger] causal_mask_spec(n, visible, hidden)[i * n + j] == hidden,
{
    assert forall|i: int| 0 <= i < n implies #[trigger] causal_mask_spec(n, visible, hidden)[i * n + i] == visible by {
        assert(i * n + i < n * n) by (nonlinear_arith)
            requires 0 <= i < n;
        assert(0 <= i * n) by (nonlinear_arith)
            requires 0 <= i, 0 <= n;
        lemma_fundamental_div_mod_converse(i * n + i, n as int, i, i);
    }
    assert forall|i: int, j: int| 0 <= i < j < n implies #[trigger] causal_mask_spec(n, visible, hidden)[i * n + j] == hidden by {
        assert(i * n + j < n * n) by (nonlinear_arith)
            requires 0 <= i < n, 0 <= j < n;
        assert(0 <= i * n) by (nonlinear_arith)
            requires 0 <= i, 0 <= n;
        lemma_fundamental_div_mod_converse(i * n + j, n as int, i, j);
    }
}

/// Splits a flat row-major index `k < n * n` into its row `k / n` and
/// column `k % n`.
proof fn lemma_row_col(k: int, n: int)
    requires
        0 <= n,
        0 <= k < n * n,
    ensures
        0 <= k / n < n,
        0 <= k % n < n,
        k == (k / n) * n + k % n,
{
    assert(n > 0) by (nonlinear_arith)
        requires 0 <= n, 0 <= k < n * n;
    vstd::arithmetic::div_mod::lemma_fundamental_div_mod(k, n);
    vstd::arithmetic::mul::lemma_mul_is_commutative(n, k / n);
    vstd::arithmetic::div_mod::lemma_div_pos_is_pos(k, n);
    if k / n >= n {
        assert(k >= n * n) by (nonlinear_arith)
            requires k / n >= n, k == (k / n) * n + k % n, k % n >= 0, n > 0;
    }
}

} // verus!
