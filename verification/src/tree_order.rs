//! Where the digests of a tree and of its paths stand.

use crate::hash::HashFunction;
use crate::merkle::{layers, layers_shape, next_layer, path, sibling};
use crate::mle::{exp2, exp2_is_pow2, log2, pow2_is_exp2};
use crate::qa_code::is_pow2;
use vstd::prelude::*;

verus! {

/// Layer `k` of a tree over `2^n` leaves has `2^(n - k)` digests.
pub proof fn layer_sizes<H: HashFunction>(leaves: Seq<H::Output>, k: int)
    requires
        is_pow2(leaves.len() as int),
        0 <= k <= log2(leaves.len() as int),
    ensures
        layers::<H>(leaves)[k].len() == exp2((log2(leaves.len() as int) - k) as nat),
    decreases k,
{
    let n = log2(leaves.len() as int);
    layers_shape::<H>(leaves);
    pow2_is_exp2(leaves.len() as int);
    if k > 0 {
        layer_sizes::<H>(leaves, k - 1);
        let (a, b) = (layers::<H>(leaves)[k - 1], layers::<H>(leaves)[k - 1 + 1]);
        assert(b == next_layer::<H>(a));
        assert(exp2((n - (k - 1)) as nat) == 2 * exp2((n - k) as nat));
    }
}

/// Every inner digest is that of the bytes of its left child followed by those of its
/// right child.
pub proof fn nodes_hash_their_children<H: HashFunction>(leaves: Seq<H::Output>, k: int, i: int)
    requires
        is_pow2(leaves.len() as int),
        0 <= k < log2(leaves.len() as int),
        0 <= i < exp2((log2(leaves.len() as int) - k - 1) as nat),
    ensures
        ({
            let (below, above) = (layers::<H>(leaves)[k], layers::<H>(leaves)[k + 1]);
            &&& above.len() == exp2((log2(leaves.len() as int) - k - 1) as nat)
            &&& below.len() == 2 * above.len()
            &&& above[i] == H::hashed(
                H::digest_bytes(below[2 * i]) + H::digest_bytes(below[2 * i + 1]),
            )
        }),
{
    layers_shape::<H>(leaves);
    layer_sizes::<H>(leaves, k);
    layer_sizes::<H>(leaves, k + 1);
    let n = log2(leaves.len() as int);
    assert(exp2((n - k) as nat) == 2 * exp2((n - k - 1) as nat));
    assert(layers::<H>(leaves)[k + 1] == next_layer::<H>(layers::<H>(leaves)[k]));
}

/// Step `k` of the path of a leaf is the digest beside its ancestor in layer `k`.
pub proof fn path_has_the_siblings<H: HashFunction>(leaves: Seq<H::Output>, index: int, k: int)
    requires
        is_pow2(leaves.len() as int),
        0 <= index < leaves.len(),
        0 <= k < log2(leaves.len() as int),
    ensures
        ({
            let n = index / (exp2(k as nat) as int);
            let beside = if n % 2 == 0 {
                n + 1
            } else {
                n - 1
            };
            &&& path::<H>(leaves, index).len() == log2(leaves.len() as int)
            &&& 0 <= beside < layers::<H>(leaves)[k].len()
            &&& path::<H>(leaves, index)[k] == layers::<H>(leaves)[k][beside]
        }),
    decreases leaves.len(),
{
    let len = leaves.len() as int;
    pow2_is_exp2(len);
    layers_shape::<H>(leaves);
    let up = next_layer::<H>(leaves);
    assert(len == 2 * exp2((log2(len) - 1) as nat));
    exp2_is_pow2((log2(len) - 1) as nat);
    assert(up.len() == exp2((log2(len) - 1) as nat));
    assert(exp2(0) == 1);
    let rest = path::<H>(up, index / 2);
    let all = path::<H>(leaves, index);
    assert(all == seq![leaves[sibling(index)]] + rest);
    assert(layers::<H>(leaves) == seq![leaves] + layers::<H>(up));
    assert(index / 1 == index);
    if log2(len) > 1 {
        let j = if k > 0 { k - 1 } else { 0 };
        path_has_the_siblings::<H>(up, index / 2, j);
        layers_shape::<H>(up);
        if k > 0 {
            assert(exp2(k as nat) == 2 * exp2(j as nat));
            exp2_is_pow2(j as nat);
            vstd::arithmetic::div_mod::lemma_div_denominator(index, 2, exp2(j as nat) as int);
            assert(all[k] == rest[j]);
            assert(layers::<H>(leaves)[k] == layers::<H>(up)[j]);
            assert(index / 2 / (exp2(j as nat) as int) == index / (exp2(k as nat) as int));
        }
    } else {
        assert(up.len() == 1) by {
            assert(exp2((log2(len) - 1) as nat) == 1);
        }
        assert(rest.len() == 0);
    }
}

} // verus!
