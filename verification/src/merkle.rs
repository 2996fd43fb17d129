//! Merkle trees over the columns of a matrix of field elements.

use crate::field::{le_bytes, PrimeField, Residue};
use crate::hash::{HashFunction, Output};
use crate::linear::{column, mat, rect, vals};
use crate::mle::{is_power_of_two, log2};
use crate::qa_code::is_pow2;
use vstd::prelude::*;

verus! {

/// The canonical encodings of a column, one after the other.
pub open spec fn column_bytes<F: Residue>(col: Seq<int>) -> Seq<u8>
    decreases col.len(),
{
    if col.len() == 0 {
        Seq::empty()
    } else {
        column_bytes::<F>(col.drop_last()) + le_bytes(col.last(), F::repr_len())
    }
}

/// The leaf digest of a column.
pub open spec fn leaf<F: Residue, H: HashFunction>(col: Seq<int>) -> H::Output {
    H::hashed(column_bytes::<F>(col))
}

/// The digest of an inner node.
pub open spec fn node<H: HashFunction>(left: H::Output, right: H::Output) -> H::Output {
    H::hashed(H::digest_bytes(left) + H::digest_bytes(right))
}

/// The layer above a layer of nodes.
pub open spec fn next_layer<H: HashFunction>(layer: Seq<H::Output>) -> Seq<H::Output> {
    Seq::new((layer.len() / 2) as nat, |i: int| node::<H>(layer[2 * i], layer[2 * i + 1]))
}

/// All layers above and including the leaves, the root layer last.
pub open spec fn layers<H: HashFunction>(leaves: Seq<H::Output>) -> Seq<Seq<H::Output>>
    decreases leaves.len(),
{
    if leaves.len() <= 1 {
        seq![leaves]
    } else {
        seq![leaves] + layers::<H>(next_layer::<H>(leaves))
    }
}

/// The root over a layer of leaves.
pub open spec fn root<H: HashFunction>(leaves: Seq<H::Output>) -> H::Output
    decreases leaves.len(),
{
    if leaves.len() <= 1 {
        leaves[0]
    } else {
        root::<H>(next_layer::<H>(leaves))
    }
}

/// The position of the other child of a node's parent.
pub open spec fn sibling(index: int) -> int {
    if index % 2 == 0 {
        index + 1
    } else {
        index - 1
    }
}

/// The siblings on the way from a leaf to the root.
pub open spec fn path<H: HashFunction>(leaves: Seq<H::Output>, index: int) -> Seq<H::Output>
    decreases leaves.len(),
{
    if leaves.len() <= 1 {
        Seq::empty()
    } else {
        seq![leaves[sibling(index)]] + path::<H>(next_layer::<H>(leaves), index / 2)
    }
}

/// The digest reached from a node by hashing with a list of siblings.
pub open spec fn climb<H: HashFunction>(cur: H::Output, siblings: Seq<H::Output>, index: int) -> H::Output
    decreases siblings.len(),
{
    if siblings.len() == 0 {
        cur
    } else {
        let parent = if index % 2 == 0 {
            node::<H>(cur, siblings[0])
        } else {
            node::<H>(siblings[0], cur)
        };
        climb::<H>(parent, siblings.drop_first(), index / 2)
    }
}

/// The leaf digests of the columns of a matrix with `n` columns.
pub open spec fn column_leaves<F: Residue, H: HashFunction>(rows: Seq<Seq<int>>, n: nat) -> Seq<H::Output> {
    Seq::new(n, |j: int| leaf::<F, H>(column(rows, j)))
}

/// Climbing from a leaf along its own path reaches the root.
pub proof fn climb_own_path<H: HashFunction>(leaves: Seq<H::Output>, index: int)
    requires
        is_pow2(leaves.len() as int),
        0 <= index < leaves.len(),
    ensures
        climb::<H>(leaves[index], path::<H>(leaves, index), index) == root::<H>(leaves),
        path::<H>(leaves, index).len() == log2(leaves.len() as int),
    decreases leaves.len(),
{
    if leaves.len() > 1 {
        let up = next_layer::<H>(leaves);
        climb_own_path::<H>(up, index / 2);
        let p = path::<H>(leaves, index);
        assert(p.drop_first() =~= path::<H>(up, index / 2));
        assert(up[index / 2] == node::<H>(leaves[2 * (index / 2)], leaves[2 * (index / 2) + 1]));
    }
}

/// The layers of a tree: the first is the leaves, each is the layer above its
/// predecessor, the last is the root alone.
pub proof fn layers_shape<H: HashFunction>(leaves: Seq<H::Output>)
    requires
        is_pow2(leaves.len() as int),
    ensures
        layers::<H>(leaves).len() == log2(leaves.len() as int) + 1,
        layers::<H>(leaves)[0] == leaves,
        layers::<H>(leaves).last() == seq![root::<H>(leaves)],
        forall|k: int|
            0 <= k < log2(leaves.len() as int) ==> #[trigger] layers::<H>(leaves)[k + 1]
                == next_layer::<H>(layers::<H>(leaves)[k]),
    decreases leaves.len(),
{
    if leaves.len() > 1 {
        let up = next_layer::<H>(leaves);
        layers_shape::<H>(up);
        let l = layers::<H>(leaves);
        let u = layers::<H>(up);
        assert(l.drop_first() =~= u);
        assert(l.last() == u.last());
        assert forall|k: int| 0 <= k < log2(leaves.len() as int) implies #[trigger] l[k + 1]
            == next_layer::<H>(l[k]) by {
            if k > 0 {
                assert(l[k + 1] == u[k]);
                assert(l[k] == u[k - 1]);
                assert(u[(k - 1) + 1] == next_layer::<H>(u[k - 1]));
            } else {
                assert(l[1] == u[0]);
            }
        }
    } else {
        assert(leaves =~= seq![root::<H>(leaves)]);
    }
}

/// The digest of a list of field elements.
pub fn hash_field_slice<H: HashFunction, F: PrimeField>(values: &[F]) -> (r: H::Output)
    ensures
        r == leaf::<F, H>(vals(values@)),
{
    let ghost v = vals(values@);
    let mut data: Vec<u8> = Vec::new();
    let mut i: usize = 0;
    assert(v.take(0) =~= Seq::empty());
    while i < values.len()
        invariant
            i <= values@.len(),
            v == vals(values@),
            data@ == column_bytes::<F>(v.take(i as int)),
        decreases values@.len() - i,
    {
        let mut repr = values[i].to_repr();
        proof {
            assert(v.take(i as int + 1).drop_last() =~= v.take(i as int));
        }
        data.append(&mut repr);
        i = i + 1;
    }
    assert(v.take(i as int) =~= v);
    H::digest(&data)
}

/// The digest of an inner node.
pub fn hash_hash_pair<H: HashFunction>(left: &H::Output, right: &H::Output) -> (r: H::Output)
    ensures
        r == node::<H>(*left, *right),
        r == H::hashed(H::digest_bytes(*left) + H::digest_bytes(*right)),
{
    let mut data = H::output_bytes(left);
    let mut tail = H::output_bytes(right);
    data.append(&mut tail);
    H::digest(&data)
}

fn layer_above<H: HashFunction>(layer: &[H::Output]) -> (r: Vec<H::Output>)
    ensures
        r@ == next_layer::<H>(layer@),
{
    let size: usize = layer.len();
    let half: usize = size / 2;
    let mut out: Vec<H::Output> = Vec::new();
    let mut i: usize = 0;
    while i < half
        invariant
            i <= half,
            half == size / 2,
            size == layer@.len(),
            out@ == next_layer::<H>(layer@).take(i as int),
        decreases half - i,
    {
        let parent = hash_hash_pair::<H>(&layer[2 * i], &layer[2 * i + 1]);
        proof {
            let n = next_layer::<H>(layer@);
            assert(n.take(i as int + 1) =~= n.take(i as int).push(n[i as int]));
        }
        out.push(parent);
        i = i + 1;
    }
    assert(next_layer::<H>(layer@).take(i as int) =~= next_layer::<H>(layer@));
    out
}

/// The layers as sequences.
pub open spec fn tree_view<T>(tree: Seq<Vec<T>>) -> Seq<Seq<T>> {
    Seq::new(tree.len(), |i: int| tree[i]@)
}

/// Builds all layers of a tree from its leaves.
pub fn merkelize_from_leaves<H: HashFunction>(leaves: Vec<H::Output>) -> (tree: Vec<Vec<H::Output>>)
    requires
        is_pow2(leaves@.len() as int),
    ensures
        tree_view(tree@) == layers::<H>(leaves@),
{
    let ghost all = layers::<H>(leaves@);
    let mut tree: Vec<Vec<H::Output>> = Vec::new();
    let mut cur: Vec<H::Output> = leaves;
    while cur.len() > 1
        invariant
            is_pow2(cur@.len() as int),
            tree_view(tree@) + layers::<H>(cur@) == all,
        decreases cur@.len(),
    {
        let next = layer_above::<H>(&cur);
        proof {
            let t = tree_view(tree@);
            let rest = layers::<H>(next@);
            assert(tree_view(tree@.push(cur)) =~= t.push(cur@));
            assert(t.push(cur@) + rest =~= t + (seq![cur@] + rest));
        }
        tree.push(cur);
        cur = next;
    }
    proof {
        let t = tree_view(tree@);
        assert(tree_view(tree@.push(cur)) =~= t.push(cur@));
        assert(t.push(cur@) =~= t + seq![cur@]);
    }
    tree.push(cur);
    tree
}

/// Whether a tree has all layers that its leaves lead to, and no others.
pub fn tree_is_consistent<H: HashFunction>(tree: &[Vec<H::Output>]) -> (r: bool)
    ensures
        r == (tree@.len() > 0 && is_pow2(tree@[0]@.len() as int) && tree_view(tree@) == layers::<H>(
            tree@[0]@,
        )),
{
    if tree.len() == 0 || !is_power_of_two(tree[0].len()) {
        return false;
    }
    let built = merkelize_from_leaves::<H>(copied_digests(&tree[0]));
    same_trees::<H>(&built, tree)
}

/// Whether two trees are the same.
pub fn same_trees<H: HashFunction>(a: &[Vec<H::Output>], b: &[Vec<H::Output>]) -> (r: bool)
    ensures
        r == (tree_view(a@) == tree_view(b@)),
{
    proof {
        assert(tree_view(a@).len() == a@.len());
        assert(tree_view(b@).len() == b@.len());
    }
    if a.len() != b.len() {
        return false;
    }
    let mut i: usize = 0;
    while i < a.len()
        invariant
            i <= a@.len(),
            a@.len() == b@.len(),
            forall|k: int| 0 <= k < i ==> (#[trigger] a@[k])@ == b@[k]@,
        decreases a@.len() - i,
    {
        if !same_digests::<H>(&a[i], &b[i]) {
            proof {
                assert(tree_view(a@)[i as int] == a@[i as int]@);
                assert(tree_view(b@)[i as int] == b@[i as int]@);
            }
            return false;
        }
        i = i + 1;
    }
    assert(tree_view(a@) =~= tree_view(b@));
    true
}

/// Whether two lists of digests are the same.
fn same_digests<H: HashFunction>(a: &[H::Output], b: &[H::Output]) -> (r: bool)
    ensures
        r == (a@ == b@),
{
    if a.len() != b.len() {
        return false;
    }
    let mut i: usize = 0;
    while i < a.len()
        invariant
            i <= a@.len(),
            a@.len() == b@.len(),
            forall|k: int| 0 <= k < i ==> a@[k] == b@[k],
        decreases a@.len() - i,
    {
        if !H::same(&a[i], &b[i]) {
            return false;
        }
        i = i + 1;
    }
    assert(a@ =~= b@);
    true
}

/// A copy of a list of digests.
fn copied_digests<O: Copy>(digests: &[O]) -> (r: Vec<O>)
    ensures
        r@ == digests@,
{
    let mut out: Vec<O> = Vec::new();
    let mut i: usize = 0;
    while i < digests.len()
        invariant
            i <= digests@.len(),
            out@ == digests@.take(i as int),
        decreases digests@.len() - i,
    {
        out.push(digests[i]);
        assert(digests@.take(i as int + 1) =~= digests@.take(i as int).push(digests@[i as int]));
        i = i + 1;
    }
    assert(digests@.take(i as int) =~= digests@);
    out
}

/// The column of a matrix.
pub fn read_column_of<F: PrimeField>(rows: &[Vec<F>], j: usize) -> (r: Vec<F>)
    requires
        forall|i: int| 0 <= i < rows@.len() ==> j < (#[trigger] rows@[i])@.len(),
    ensures
        r@.len() == rows@.len(),
        forall|i: int| 0 <= i < rows@.len() ==> #[trigger] r@[i] == rows@[i]@[j as int],
        vals(r@) == column(mat(rows@), j as int),
{
    let mut out: Vec<F> = Vec::new();
    let mut i: usize = 0;
    while i < rows.len()
        invariant
            i <= rows@.len(),
            out@.len() == i,
            forall|k: int| 0 <= k < rows@.len() ==> j < (#[trigger] rows@[k])@.len(),
            forall|k: int| 0 <= k < i ==> #[trigger] out@[k] == rows@[k]@[j as int],
        decreases rows@.len() - i,
    {
        out.push(rows[i][j]);
        i = i + 1;
    }
    assert(vals(out@) =~= column(mat(rows@), j as int));
    out
}

/// The siblings of a leaf in a tree of layers, from the leaf upwards; `None`
/// if the tree is empty or the leaf does not exist.
pub fn merkle_path<H: HashFunction>(tree: &[Vec<H::Output>], index: usize) -> (r: Option<Vec<H::Output>>)
    requires
        tree@.len() > 0 ==> {
            &&& is_pow2(tree@[0]@.len() as int)
            &&& tree_view(tree@) == layers::<H>(tree@[0]@)
        },
    ensures
        r is Some <==> tree@.len() > 0 && index < tree@[0]@.len(),
        r matches Some(p) ==> p@ == path::<H>(tree@[0]@, index as int),
{
    if tree.len() == 0 || index >= tree[0].len() {
        return None;
    }
    let ghost leaves = tree@[0]@;
    let ghost all = layers::<H>(leaves);
    let mut siblings: Vec<H::Output> = Vec::new();
    let mut idx: usize = index;
    let mut level: usize = 0;
    proof {
        layers_shape::<H>(leaves);
    }
    while level < tree.len() - 1
        invariant
            level <= tree@.len() - 1,
            tree@.len() == all.len(),
            tree_view(tree@) == all,
            all.len() == log2(leaves.len() as int) + 1,
            forall|k: int|
                0 <= k < log2(leaves.len() as int) ==> #[trigger] all[k + 1] == next_layer::<H>(
                    all[k],
                ),
            is_pow2(all[level as int].len() as int),
            log2(all[level as int].len() as int) == all.len() - 1 - level,
            idx < all[level as int].len(),
            siblings@ + path::<H>(all[level as int], idx as int) == path::<H>(
                leaves,
                index as int,
            ),
        decreases tree@.len() - level,
    {
        let ghost layer = all[level as int];
        assert(layer == tree@[level as int]@);
        assert(layer.len() > 1);
        let sibling_idx: usize = if idx % 2 == 0 {
            idx + 1
        } else {
            idx - 1
        };
        proof {
            assert(all[level + 1] == next_layer::<H>(layer));
            let rest = path::<H>(next_layer::<H>(layer), idx as int / 2);
            assert(siblings@.push(layer[sibling(idx as int)]) + rest =~= siblings@ + (
            seq![layer[sibling(idx as int)]] + rest));
        }
        siblings.push(tree[level][sibling_idx]);
        idx = idx / 2;
        level = level + 1;
    }
    proof {
        let top = all[level as int];
        assert(log2(top.len() as int) == 0);
        assert(top.len() <= 1);
        assert(siblings@ + path::<H>(top, idx as int) =~= siblings@);
    }
    Some(siblings)
}

/// The root reached from a leaf and a list of siblings.
pub fn authenticate_merkle_path<H: HashFunction>(leaf: &H::Output, path: &[H::Output], index: usize) -> (r:
    H::Output)
    ensures
        r == climb::<H>(*leaf, path@, index as int),
{
    let mut idx: usize = index;
    let mut cur = *leaf;
    let mut i: usize = 0;
    assert(path@.skip(0) =~= path@);
    while i < path.len()
        invariant
            i <= path@.len(),
            climb::<H>(cur, path@.skip(i as int), idx as int) == climb::<H>(
                *leaf,
                path@,
                index as int,
            ),
        decreases path@.len() - i,
    {
        assert(path@.skip(i as int).drop_first() =~= path@.skip(i as int + 1));
        cur = if idx % 2 == 0 {
            hash_hash_pair::<H>(&cur, &path[i])
        } else {
            hash_hash_pair::<H>(&path[i], &cur)
        };
        idx = idx / 2;
        i = i + 1;
    }
    cur
}

/// Whether a leaf and a list of siblings lead to a root.
pub fn verify_merkle_path<H: HashFunction>(
    root: &H::Output,
    leaf: &H::Output,
    path: &[H::Output],
    index: usize,
) -> (r: bool)
    ensures
        r == (climb::<H>(*leaf, path@, index as int) == *root),
{
    let reached = authenticate_merkle_path::<H>(leaf, path, index);
    H::same(&reached, root)
}

/// Whether a column and a list of siblings lead to a root.
pub fn verify_merkle_path_with_leaf<H: HashFunction, F: PrimeField>(
    root: &H::Output,
    opened_column: &[F],
    path: &[H::Output],
    index: usize,
) -> (r: bool)
    ensures
        r == (climb::<H>(leaf::<F, H>(vals(opened_column@)), path@, index as int) == *root),
{
    let digest = hash_field_slice::<H, F>(opened_column);
    verify_merkle_path::<H>(root, &digest, path, index)
}

/// All layers one after the other, the root last.
pub open spec fn flat_layers<H: HashFunction>(leaves: Seq<H::Output>) -> Seq<H::Output>
    decreases leaves.len(),
{
    if leaves.len() <= 1 {
        leaves
    } else {
        leaves + flat_layers::<H>(next_layer::<H>(leaves))
    }
}

/// The siblings of a leaf read off layers laid out one after the other, the
/// first of which has `width` nodes.
pub open spec fn flat_path<T>(hashes: Seq<T>, index: int, width: int) -> Seq<T>
    decreases width,
{
    if width <= 1 {
        Seq::empty()
    } else {
        seq![hashes[sibling(index)]] + flat_path(hashes.skip(width), index / 2, width / 2)
    }
}

/// A path has one sibling for every halving of the width.
pub proof fn flat_path_len<T>(hashes: Seq<T>, index: int, width: int)
    ensures
        flat_path(hashes, index, width).len() == log2(width),
    decreases width,
{
    if width > 1 {
        flat_path_len(hashes.skip(width), index / 2, width / 2);
    }
}

/// The flat layout ends in the root and holds every path.
pub proof fn flat_layers_shape<H: HashFunction>(leaves: Seq<H::Output>)
    requires
        is_pow2(leaves.len() as int),
    ensures
        flat_layers::<H>(leaves).len() == 2 * leaves.len() - 1,
        flat_layers::<H>(leaves).last() == root::<H>(leaves),
    decreases leaves.len(),
{
    if leaves.len() > 1 {
        flat_layers_shape::<H>(next_layer::<H>(leaves));
    }
}

/// Reading a path off the flat layout gives the path of the leaf.
pub proof fn flat_path_is_path<H: HashFunction>(leaves: Seq<H::Output>, index: int)
    requires
        is_pow2(leaves.len() as int),
        0 <= index < leaves.len(),
    ensures
        flat_path(flat_layers::<H>(leaves).drop_last(), index, leaves.len() as int) == path::<H>(
            leaves,
            index,
        ),
    decreases leaves.len(),
{
    if leaves.len() > 1 {
        let n = leaves.len() as int;
        let up = next_layer::<H>(leaves);
        flat_path_is_path::<H>(up, index / 2);
        flat_layers_shape::<H>(leaves);
        flat_layers_shape::<H>(up);
        let flat = flat_layers::<H>(leaves).drop_last();
        assert(flat.skip(n) =~= flat_layers::<H>(up).drop_last());
        assert(flat[sibling(index)] == leaves[sibling(index)]);
    }
}

/// Builds all layers of a tree, laid out one after the other.
pub fn merkelize_flat<H: HashFunction>(leaves: Vec<H::Output>) -> (r: Vec<H::Output>)
    requires
        is_pow2(leaves@.len() as int),
    ensures
        r@ == flat_layers::<H>(leaves@),
{
    let ghost all = flat_layers::<H>(leaves@);
    let mut out: Vec<H::Output> = Vec::new();
    let mut cur: Vec<H::Output> = leaves;
    while cur.len() > 1
        invariant
            is_pow2(cur@.len() as int),
            out@ + flat_layers::<H>(cur@) == all,
        decreases cur@.len(),
    {
        let next = layer_above::<H>(&cur);
        proof {
            let rest = flat_layers::<H>(next@);
            assert((out@ + cur@) + rest =~= out@ + (cur@ + rest));
        }
        out.append(&mut cur);
        cur = next;
    }
    out.append(&mut cur);
    out
}

/// Reads the siblings of a leaf off layers laid out one after the other.
pub fn read_flat_path<T: Copy>(hashes: &[T], index: usize, width: usize) -> (r: Vec<T>)
    requires
        is_pow2(width as int),
        index < width,
        hashes@.len() >= 2 * width - 2,
    ensures
        r@ == flat_path(hashes@, index as int, width as int),
{
    let ghost goal = flat_path(hashes@, index as int, width as int);
    let mut out: Vec<T> = Vec::new();
    let mut idx: usize = index;
    let mut layer: usize = width;
    let mut offset: usize = 0;
    let total: usize = hashes.len();
    assert(hashes@.skip(0) =~= hashes@);
    assert(out@ + goal =~= goal);
    while layer > 1
        invariant
            is_pow2(layer as int),
            idx < layer,
            total == hashes@.len(),
            offset + 2 * layer - 2 <= total,
            out@ + flat_path(hashes@.skip(offset as int), idx as int, layer as int) == goal,
        decreases layer,
    {
        let sibling_idx: usize = if idx % 2 == 0 {
            idx + 1
        } else {
            idx - 1
        };
        proof {
            let rest = hashes@.skip(offset as int);
            assert(rest.skip(layer as int) =~= hashes@.skip(offset + layer));
            let tail = flat_path(rest.skip(layer as int), idx as int / 2, layer as int / 2);
            let s = hashes@[offset + sibling(idx as int)];
            assert(rest[sibling(idx as int)] == s);
            assert(out@.push(s) + tail =~= out@ + (seq![s] + tail));
        }
        out.push(hashes[offset + sibling_idx]);
        offset = offset + layer;
        idx = idx / 2;
        layer = layer / 2;
    }
    assert(out@ + flat_path(hashes@.skip(offset as int), idx as int, layer as int) =~= out@);
    out
}

/// The leaf digests of the columns of a matrix.
pub fn hash_columns<H: HashFunction, F: PrimeField>(rows: &[Vec<F>], n: usize) -> (r: Vec<H::Output>)
    requires
        rect(mat(rows@), n as nat),
    ensures
        r@ == column_leaves::<F, H>(mat(rows@), n as nat),
{
    let ghost goal = column_leaves::<F, H>(mat(rows@), n as nat);
    let mut out: Vec<H::Output> = Vec::new();
    let mut j: usize = 0;
    while j < n
        invariant
            j <= n,
            rect(mat(rows@), n as nat),
            goal == column_leaves::<F, H>(mat(rows@), n as nat),
            out@ == goal.take(j as int),
        decreases n - j,
    {
        assert forall|i: int| 0 <= i < rows@.len() implies j < (#[trigger] rows@[i])@.len() by {
            assert(mat(rows@)[i].len() == n);
        }
        let col = read_column_of(rows, j);
        out.push(hash_field_slice::<H, F>(&col));
        assert(goal.take(j as int + 1) =~= goal.take(j as int).push(goal[j as int]));
        j = j + 1;
    }
    assert(goal.take(j as int) =~= goal);
    out
}

} // verus!
