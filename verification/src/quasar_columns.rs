//! Consistency of folded rows with sampled columns.
//!
//! Sampled columns of the committed matrix fold to entries of the folded
//! codewords. A random combination of these equations is one sum-check over the
//! blocks of the codewords, in which a sparse selector picks the entries.

use crate::claims::{add_claims_take, claim_set, push_basefold_opening_claim, Claim};
use crate::classic_sumcheck::{
    honest_sumcheck_is_accepted, instance_fits, round_error, run_events, sumcheck_prove,
    sumcheck_refused, sumcheck_verified, sumcheck_verify, sumcheck_went,
};
use crate::error::Error;
use crate::field::{
    canon, canon_consts, challenge_to_index, f_interchange, f_units, fadd, fadd_assoc, fadd_canon,
    fadd_comm, fmul, fmul_canon, fmul_comm, fmul_fadd, index_of, word_bytes, word_len, word_pow,
    PrimeField, Residue,
};
use crate::hash::HashFunction;
use crate::linear::{
    column, comb, comb_entry, comb_len, dot, dot_canon, dot_push, dot_zero, inner_product, ints,
    mat, mat_push, powers, pows, pows_step, rect, vals, vcanon, vmul, vscale, vsum, vsum_push,
    vsum_zero, vzero, zero_vec,
};
use crate::merkle::{
    climb, climb_own_path, column_leaves, layers, leaf, merkle_path, path, tree_view,
    verify_merkle_path_with_leaf,
};
use crate::mle::{
    eq_evals, equality_mle_eval_at_index, exp2, exp2_is_pow2, log2, log2_power_of_two, mle,
    power_of_two,
};
use crate::qa_code::{
    copied, encode, encode_comb, encode_rows, encode_shape, flatten_entry, is_pow2, parities,
    parity,
};
use crate::qapcs::Evaluation;
use crate::quasar::{
    residues, tree_over, tree_root, QABaseCommitment, QABaseProverParams, QABaseVerifierParams,
    QACodewordColumns,
};
use crate::quasar_gkr::{
    endpoint_blocks, flat_split, QABaseProverOpeningAccumulator, QABaseTwoLayerGkrLayout,
    QABaseVerifierOpeningAccumulator,
};
use crate::sumcheck::{
    cube_sum, cube_sum_weighted, product_small, summand, summand_push, term_values, terms_view,
    values_at, ProductTerm, SumcheckInstance, Term,
};
use crate::transcript::{
    cut_later, cut_single, cut_within, digests_in, drawn, fields_in, messages_concat,
    messages_of_sent, read_commitments, read_field_elements, sent_commitments, sent_fields,
    squeeze_challenges, went, went_on, went_plain, write_commitments, write_field_elements, Event,
    TranscriptRead, TranscriptWrite,
};
use vstd::prelude::*;

verus! {

/// Folds an opened column with two lists of weights.
pub fn fold_opened_column_pair<F: PrimeField>(
    opened_column: &[F],
    proximity_weights: &[F],
    evaluation_weights: &[F],
) -> (r: (F, F))
    requires
        opened_column@.len() == proximity_weights@.len(),
        opened_column@.len() == evaluation_weights@.len(),
    ensures
        r.0.val() == dot::<F>(vals(proximity_weights@), vals(opened_column@)),
        r.1.val() == dot::<F>(vals(evaluation_weights@), vals(opened_column@)),
{
    (
        inner_product(proximity_weights, opened_column),
        inner_product(evaluation_weights, opened_column),
    )
}

/// The sum of values weighted by the powers of a challenge.
pub fn qabase_weighted_sum<F: PrimeField>(values: &[F], tau: F) -> (r: F)
    ensures
        r.val() == dot::<F>(pows::<F>(tau.val(), values@.len()), vals(values@)),
{
    let weights = powers(tau, values.len());
    proof {
        pows_step::<F>(tau.val(), values@.len());
        assert(vals(weights@).len() == values@.len());
    }
    inner_product(&weights, values)
}

/// The entries of one block of the selector: entry `l` of block `b` is the sum
/// of the powers of `tau` whose query is entry `l` of block `b`.
pub open spec fn selector<F: Residue>(
    queries: Seq<usize>,
    tau: int,
    block: int,
    n: nat,
) -> Seq<int>
    decreases queries.len(),
{
    if queries.len() == 0 {
        vzero(n)
    } else {
        let prev = selector::<F>(queries.drop_last(), tau, block, n);
        let j = queries.last() as int;
        let power = pows::<F>(tau, queries.len()).last();
        if j / (n as int) == block {
            prev.update(j % (n as int), fadd::<F>(prev[j % (n as int)], power))
        } else {
            prev
        }
    }
}

/// A selector has one canonical entry for every column of its block.
pub proof fn selector_shape<F: Residue>(queries: Seq<usize>, tau: int, block: int, n: nat)
    requires
        n > 0,
    ensures
        selector::<F>(queries, tau, block, n).len() == n,
        vcanon::<F>(selector::<F>(queries, tau, block, n)),
    decreases queries.len(),
{
    canon_consts::<F>();
    if queries.len() > 0 {
        selector_shape::<F>(queries.drop_last(), tau, block, n);
        vstd::arithmetic::div_mod::lemma_mod_bound(queries.last() as int, n as int);
        broadcast use fadd_canon;

    }
}

/// Builds the blocks of the selector.
pub fn selector_block_evals<F: PrimeField>(
    rho: usize,
    block_len: usize,
    query_indices: &[usize],
    tau: F,
) -> (r: Vec<Vec<F>>)
    requires
        block_len > 0,
        forall|s: int|
            0 <= s < query_indices@.len() ==> #[trigger] query_indices@[s] < rho * block_len,
    ensures
        r@.len() == rho,
        forall|b: int|
            0 <= b < rho ==> vals((#[trigger] r@[b])@) == selector::<F>(
                query_indices@,
                tau.val(),
                b,
                block_len as nat,
            ),
{
    let ghost n = block_len as nat;
    let ghost q = query_indices@;
    let mut blocks: Vec<Vec<F>> = Vec::new();
    while blocks.len() < rho
        invariant
            blocks@.len() <= rho,
            n == block_len,
            forall|b: int|
                0 <= b < blocks@.len() ==> vals((#[trigger] blocks@[b])@) == vzero(n)
                    && blocks@[b]@.len() == n,
        decreases rho - blocks@.len(),
    {
        blocks.push(zero_vec::<F>(block_len));
    }
    let mut power = F::one();
    let mut s: usize = 0;
    assert(q.take(0) =~= Seq::empty());
    while s < query_indices.len()
        invariant
            s <= q.len(),
            q == query_indices@,
            n == block_len,
            block_len > 0,
            forall|t: int| 0 <= t < q.len() ==> #[trigger] q[t] < rho * block_len,
            power.val() == pows::<F>(tau.val(), (s + 1) as nat)[s as int],
            blocks@.len() == rho,
            forall|b: int|
                0 <= b < rho ==> vals((#[trigger] blocks@[b])@) == selector::<F>(
                    q.take(s as int),
                    tau.val(),
                    b,
                    n,
                ) && blocks@[b]@.len() == n,
        decreases q.len() - s,
    {
        let index: usize = query_indices[s];
        proof {
            flat_split(index as int, rho as int, block_len as int);
            assert(q.take(s as int + 1).drop_last() =~= q.take(s as int));
            pows_step::<F>(tau.val(), s as nat);
            pows_step::<F>(tau.val(), (s + 1) as nat);
        }
        let block: usize = index / block_len;
        let local: usize = index % block_len;
        let ghost before = blocks@;
        let value = blocks[block][local].plus(power);
        let mut row = copied(&blocks[block]);
        row.set(local, value);
        blocks.set(block, row);
        proof {
            assert forall|b: int| 0 <= b < rho implies vals((#[trigger] blocks@[b])@)
                == selector::<F>(q.take(s as int + 1), tau.val(), b, n) && blocks@[b]@.len()
                == n by {
                let prev = selector::<F>(q.take(s as int), tau.val(), b, n);
                assert(vals(before[b]@) == prev);
                if b == block {
                    assert(vals(blocks@[b]@) =~= prev.update(
                        local as int,
                        fadd::<F>(prev[local as int], power.val()),
                    ));
                } else {
                    assert(blocks@[b] == before[b]);
                }
            }
        }
        power = power.times(tau);
        s = s + 1;
    }
    assert(q.take(s as int) =~= q);
    blocks
}

/// Adding to one entry of the first vector of an inner product.
pub proof fn dot_update<F: Residue>(a: Seq<int>, c: Seq<int>, l: int, p: int)
    requires
        a.len() == c.len(),
        0 <= l < a.len(),
    ensures
        dot::<F>(a.update(l, fadd::<F>(a[l], p)), c) == fadd::<F>(
            dot::<F>(a, c),
            fmul::<F>(p, c[l]),
        ),
    decreases a.len(),
{
    let a2 = a.update(l, fadd::<F>(a[l], p));
    let k = a.len() - 1;
    let (ad, cd) = (a.drop_last(), c.drop_last());
    assert(a =~= ad.push(a[k]));
    assert(c =~= cd.push(c[k]));
    dot_push::<F>(ad, cd, a[k], c[k]);
    let x = fmul::<F>(p, c[l]);
    if l == k {
        assert(a2 =~= ad.push(fadd::<F>(a[k], p)));
        dot_push::<F>(ad, cd, fadd::<F>(a[k], p), c[k]);
        fmul_comm::<F>(fadd::<F>(a[k], p), c[k]);
        fmul_fadd::<F>(c[k], a[k], p);
        fmul_comm::<F>(c[k], a[k]);
        fmul_comm::<F>(c[k], p);
        fadd_assoc::<F>(dot::<F>(ad, cd), fmul::<F>(a[k], c[k]), x);
    } else {
        dot_update::<F>(ad, cd, l, p);
        assert(a2 =~= ad.update(l, fadd::<F>(ad[l], p)).push(a[k]));
        dot_push::<F>(ad.update(l, fadd::<F>(ad[l], p)), cd, a[k], c[k]);
        let (d, y) = (dot::<F>(ad, cd), fmul::<F>(a[k], c[k]));
        fadd_assoc::<F>(d, x, y);
        fadd_comm::<F>(x, y);
        fadd_assoc::<F>(d, y, x);
    }
}

/// The part of a weighted sum that falls into one block.
pub open spec fn picked<F: Residue>(
    queries: Seq<usize>,
    tau: int,
    block: int,
    c: Seq<int>,
) -> int
    decreases queries.len(),
{
    if queries.len() == 0 {
        0
    } else {
        let prev = picked::<F>(queries.drop_last(), tau, block, c);
        let j = queries.last() as int;
        if j / (c.len() as int) == block {
            fadd::<F>(
                prev,
                fmul::<F>(pows::<F>(tau, queries.len()).last(), c[j % (c.len() as int)]),
            )
        } else {
            prev
        }
    }
}

/// The inner product with a block of the selector picks the queried entries.
pub proof fn dot_selector<F: Residue>(queries: Seq<usize>, tau: int, block: int, c: Seq<int>)
    requires
        c.len() > 0,
    ensures
        dot::<F>(selector::<F>(queries, tau, block, c.len()), c) == picked::<F>(
            queries,
            tau,
            block,
            c,
        ),
    decreases queries.len(),
{
    let n = c.len();
    if queries.len() == 0 {
        dot_zero::<F>(n, c);
    } else {
        let front = queries.drop_last();
        dot_selector::<F>(front, tau, block, c);
        selector_shape::<F>(front, tau, block, n);
        let j = queries.last() as int;
        if j / (n as int) == block {
            vstd::arithmetic::div_mod::lemma_mod_bound(j, n as int);
            dot_update::<F>(
                selector::<F>(front, tau, block, n),
                c,
                j % (n as int),
                pows::<F>(tau, queries.len()).last(),
            );
        }
    }
}

/// The extension of a block of the selector at a point.
pub fn selector_block_eval_at_point<F: PrimeField>(
    block_index: usize,
    block_len: usize,
    query_indices: &[usize],
    tau: F,
    point: &[F],
) -> (r: F)
    requires
        block_len == exp2(point@.len()),
    ensures
        r.val() == mle::<F>(
            selector::<F>(query_indices@, tau.val(), block_index as int, block_len as nat),
            vals(point@),
        ),
{
    let ghost z = vals(point@);
    let ghost q = query_indices@;
    let ghost c = eq_evals::<F>(z);
    let num_vars: usize = point.len();
    let mut acc = F::zero();
    let mut power = F::one();
    let mut s: usize = 0;
    proof {
        exp2_is_pow2(point@.len());
        assert(q.take(0) =~= Seq::empty());
    }
    while s < query_indices.len()
        invariant
            s <= q.len(),
            q == query_indices@,
            z == vals(point@),
            c == eq_evals::<F>(z),
            num_vars == point@.len(),
            block_len == exp2(num_vars as nat),
            block_len > 0,
            power.val() == pows::<F>(tau.val(), (s + 1) as nat)[s as int],
            acc.val() == picked::<F>(q.take(s as int), tau.val(), block_index as int, c),
        decreases q.len() - s,
    {
        let index: usize = query_indices[s];
        let block: usize = index / block_len;
        let local: usize = index % block_len;
        proof {
            assert(q.take(s as int + 1).drop_last() =~= q.take(s as int));
            pows_step::<F>(tau.val(), s as nat);
            pows_step::<F>(tau.val(), (s + 1) as nat);
        }
        if block == block_index {
            acc = acc.plus(power.times(equality_mle_eval_at_index(local, num_vars, point)));
        }
        power = power.times(tau);
        s = s + 1;
    }
    proof {
        assert(q.take(s as int) =~= q);
        dot_selector::<F>(q, tau.val(), block_index as int, c);
    }
    acc
}

/// The weighted sum of queried entries of a codeword is the sum over its
/// blocks of what each block contributes.
pub proof fn picked_blocks<F: Residue>(
    queries: Seq<usize>,
    tau: int,
    blocks: Seq<Seq<int>>,
    n: nat,
)
    requires
        n > 0,
        rect(blocks, n),
        forall|s: int| 0 <= s < queries.len() ==> #[trigger] queries[s] < blocks.len() * n,
    ensures
        vsum::<F>(
            Seq::new(blocks.len(), |b: int| picked::<F>(queries, tau, b, blocks[b])),
        ) == dot::<F>(
            pows::<F>(tau, queries.len()),
            Seq::new(
                queries.len(),
                |s: int| blocks[queries[s] as int / (n as int)][queries[s] as int % (n as int)],
            ),
        ),
    decreases queries.len(),
{
    let rho = blocks.len();
    let parts = Seq::new(rho, |b: int| picked::<F>(queries, tau, b, blocks[b]));
    let entries = Seq::new(
        queries.len(),
        |s: int| blocks[queries[s] as int / (n as int)][queries[s] as int % (n as int)],
    );
    if queries.len() == 0 {
        assert(parts =~= vzero(rho));
        vsum_zero::<F>(rho);
        assert(vmul::<F>(pows::<F>(tau, 0), entries) =~= Seq::empty());
    } else {
        let front = queries.drop_last();
        let k = front.len();
        assert forall|s: int| 0 <= s < front.len() implies #[trigger] front[s] < rho * n by {
            assert(front[s] == queries[s]);
        }
        picked_blocks::<F>(front, tau, blocks, n);
        let parts0 = Seq::new(rho, |b: int| picked::<F>(front, tau, b, blocks[b]));
        let entries0 = Seq::new(
            k,
            |s: int| blocks[front[s] as int / (n as int)][front[s] as int % (n as int)],
        );
        let j = queries[k as int] as int;
        flat_split(j, rho as int, n as int);
        let b = j / (n as int);
        let p = pows::<F>(tau, queries.len()).last();
        let x = fmul::<F>(p, blocks[b][j % (n as int)]);
        assert forall|c: int| 0 <= c < rho implies parts[c] == parts0.update(
            b,
            fadd::<F>(parts0[b], x),
        )[c] by {
            assert(blocks[c].len() == n);
        }
        assert(parts =~= parts0.update(b, fadd::<F>(parts0[b], x)));
        vsum_update::<F>(parts0, b, x);
        assert(entries =~= entries0.push(blocks[b][j % (n as int)]));
        pows_step::<F>(tau, k);
        assert(pows::<F>(tau, (k + 1) as nat) =~= pows::<F>(tau, k).push(p));
        dot_push::<F>(pows::<F>(tau, k), entries0, p, blocks[b][j % (n as int)]);
    }
}

/// Adding to one entry of a sum.
pub proof fn vsum_update<F: Residue>(a: Seq<int>, l: int, x: int)
    requires
        0 <= l < a.len(),
    ensures
        vsum::<F>(a.update(l, fadd::<F>(a[l], x))) == fadd::<F>(vsum::<F>(a), x),
    decreases a.len(),
{
    let a2 = a.update(l, fadd::<F>(a[l], x));
    let k = a.len() - 1;
    let ad = a.drop_last();
    assert(a =~= ad.push(a[k]));
    vsum_push::<F>(ad, a[k]);
    if l == k {
        assert(a2 =~= ad.push(fadd::<F>(a[k], x)));
        vsum_push::<F>(ad, fadd::<F>(a[k], x));
        fadd_assoc::<F>(vsum::<F>(ad), a[k], x);
    } else {
        vsum_update::<F>(ad, l, x);
        assert(a2 =~= ad.update(l, fadd::<F>(ad[l], x)).push(a[k]));
        vsum_push::<F>(ad.update(l, fadd::<F>(ad[l], x)), a[k]);
        let d = vsum::<F>(ad);
        fadd_assoc::<F>(d, x, a[k]);
        fadd_comm::<F>(x, a[k]);
        fadd_assoc::<F>(d, a[k], x);
    }
}

/// The columns that a list of challenges selects.
pub open spec fn indices_of<F: Residue>(challenges: Seq<int>, num_cols: int) -> Seq<int> {
    Seq::new(challenges.len(), |s: int| index_of::<F>(challenges[s], word_bytes(), num_cols))
}

/// Reads column indices off challenges.
pub fn field_challenges_to_indices<F: PrimeField>(challenges: &[F], num_cols: usize) -> (r: Vec<
    usize,
>)
    requires
        num_cols > 0,
    ensures
        ints(r@) == indices_of::<F>(vals(challenges@), num_cols as int),
        forall|s: int| 0 <= s < r@.len() ==> #[trigger] r@[s] < num_cols,
        r@.len() == challenges@.len(),
        forall|s: int|
            0 <= s < r@.len() ==> (#[trigger] r@[s]) as int == (challenges@[s].val() % (usize::MAX
                + 1)) % num_cols as int,
{
    proof {
        word_pow();
    }
    let mut out: Vec<usize> = Vec::new();
    let mut s: usize = 0;
    while s < challenges.len()
        invariant
            s <= challenges@.len(),
            num_cols > 0,
            out@.len() == s,
            forall|t: int|
                0 <= t < s ==> (#[trigger] out@[t]) as int == index_of::<F>(
                    challenges@[t].val(),
                    word_bytes(),
                    num_cols as int,
                ) && out@[t] < num_cols && out@[t] as int == (challenges@[t].val() % (usize::MAX
                    + 1)) % num_cols as int,
            vstd::arithmetic::power::pow(256, word_bytes()) == usize::MAX + 1,
        decreases challenges@.len() - s,
    {
        out.push(challenge_to_index(challenges[s], word_len(), num_cols));
        s = s + 1;
    }
    assert(ints(out@) =~= indices_of::<F>(vals(challenges@), num_cols as int));
    out
}

/// The steps that send siblings and column of every query.
pub open spec fn column_events<O>(paths: Seq<Seq<O>>, cols: Seq<Seq<int>>) -> Seq<Event<O>>
    decreases paths.len(),
{
    if paths.len() == 0 {
        Seq::empty()
    } else {
        column_events(paths.drop_last(), cols.drop_last()) + sent_commitments(paths.last())
            + sent_fields(cols.last())
    }
}

/// How many messages columns and paths are.
pub proof fn column_messages<O>(paths: Seq<Seq<O>>, cols: Seq<Seq<int>>, n: nat, depth: nat)
    requires
        cols.len() == paths.len(),
        rect(cols, n),
        forall|s: int| 0 <= s < paths.len() ==> (#[trigger] paths[s]).len() == depth,
    ensures
        fields_in(column_events(paths, cols)).len() == paths.len() * n,
        digests_in(column_events(paths, cols)).len() == paths.len() * depth,
    decreases paths.len(),
{
    if paths.len() > 0 {
        let k = paths.len() - 1;
        let (p, c) = (paths.drop_last(), cols.drop_last());
        assert forall|i: int| 0 <= i < c.len() implies (#[trigger] c[i]).len() == n by {
            assert(c[i] == cols[i]);
        }
        assert forall|i: int| 0 <= i < p.len() implies (#[trigger] p[i]).len() == depth by {
            assert(p[i] == paths[i]);
        }
        column_messages(p, c, n, depth);
        let front = column_events(p, c);
        messages_concat(front, sent_commitments(paths.last()));
        messages_concat(front + sent_commitments(paths.last()), sent_fields::<O>(cols.last()));
        messages_of_sent(cols.last(), paths.last());
        assert(cols.last() == cols[k] && paths.last() == paths[k]);
        assert(k * n + n == (k + 1) * n) by (nonlinear_arith);
        assert(k * depth + depth == (k + 1) * depth) by (nonlinear_arith);
    } else {
        assert(0 * n == 0 && 0 * depth == 0) by (nonlinear_arith);
    }
}

/// One more path and column.
pub proof fn column_events_push<O>(
    paths: Seq<Seq<O>>,
    cols: Seq<Seq<int>>,
    p: Seq<O>,
    c: Seq<int>,
    log0: Seq<Event<O>>,
)
    requires
        paths.len() == cols.len(),
    ensures
        log0 + column_events(paths, cols) + sent_commitments(p) + sent_fields(c) == log0
            + column_events(paths.push(p), cols.push(c)),
{
    assert(paths.push(p).drop_last() =~= paths);
    assert(cols.push(c).drop_last() =~= cols);
    assert(log0 + column_events(paths, cols) + sent_commitments(p) + sent_fields(c) =~= log0
        + column_events(paths.push(p), cols.push(c)));
}

/// A message as an opening error.
fn open_error(msg: String) -> (r: Error)
    ensures
        r == Error::InvalidPcsOpen(msg),
{
    Error::InvalidPcsOpen(msg)
}

/// The committed matrix has `num_rows` rows of `num_cols` entries and a valid
/// tree.
pub open spec fn commitment_wf<F: PrimeField, H: HashFunction, W: QACodewordColumns<F>>(
    comm: QABaseCommitment<H, W>,
    num_rows: nat,
    num_cols: nat,
) -> bool {
    &&& comm.codeword.encoded().len() == num_rows
    &&& num_rows > 0
    &&& rect(residues::<F>(comm.codeword.encoded()), num_cols)
    &&& comm.codeword_tree@.len() > 0
    &&& comm.codeword_tree@[0]@.len() == num_cols
    &&& is_pow2(num_cols as int)
    &&& tree_view(comm.codeword_tree@) == layers::<H>(comm.codeword_tree@[0]@)
}

/// Writes the siblings and the column of every query.
pub fn write_queries<
    F: PrimeField,
    H: HashFunction,
    W: QACodewordColumns<F>,
    T: TranscriptWrite<F, H::Output>,
>(
    comm: &QABaseCommitment<H, W>,
    num_rows: usize,
    num_cols: usize,
    query_indices: &[usize],
    transcript: &mut T,
) -> (r: Result<Vec<Vec<F>>, Error>)
    requires
        commitment_wf::<F, H, W>(*comm, num_rows as nat, num_cols as nat),
        forall|s: int|
            0 <= s < query_indices@.len() ==> #[trigger] query_indices@[s] < num_cols,
    ensures
        T::infallible() && comm.codeword.readable() ==> r is Ok,
        r matches Ok(cols) ==> {
            &&& cols@.len() == query_indices@.len()
            &&& rect(mat(cols@), num_rows as nat)
            &&& mat(cols@) == Seq::new(
                query_indices@.len(),
                |s: int|
                    column(residues::<F>(comm.codeword.encoded()), query_indices@[s] as int),
            )
            &&& final(transcript).log() == old(transcript).log() + column_events(
                Seq::new(
                    query_indices@.len(),
                    |s: int| path::<H>(comm.codeword_tree@[0]@, query_indices@[s] as int),
                ),
                mat(cols@),
            )
        },
        r matches Err(e) ==> e is Transcript || (e is InvalidPcsOpen && !comm.codeword.readable()),
{
    let ghost log0 = transcript.log();
    let ghost enc = residues::<F>(comm.codeword.encoded());
    let ghost leaves = comm.codeword_tree@[0]@;
    let ghost q = query_indices@;
    let ghost ps = Seq::new(q.len(), |s: int| path::<H>(leaves, q[s] as int));
    let ghost cs = Seq::new(q.len(), |s: int| column(enc, q[s] as int));
    let mut cols: Vec<Vec<F>> = Vec::new();
    let mut s: usize = 0;
    proof {
        assert(mat(cols@) =~= cs.take(0));
        assert(log0 + column_events(ps.take(0), cs.take(0)) =~= log0);
        assert forall|i: int| 0 <= i < comm.codeword.encoded().len() implies (
        #[trigger] comm.codeword.encoded()[i]).len() == comm.codeword.encoded()[0].len() by {
            assert(enc[i].len() == num_cols);
            assert(enc[0].len() == num_cols);
        }
        assert(enc[0].len() == num_cols);
    }
    while s < query_indices.len()
        invariant
            s <= q.len(),
            q == query_indices@,
            commitment_wf::<F, H, W>(*comm, num_rows as nat, num_cols as nat),
            enc == residues::<F>(comm.codeword.encoded()),
            enc[0].len() == num_cols,
            leaves == comm.codeword_tree@[0]@,
            forall|i: int|
                0 <= i < comm.codeword.encoded().len() ==> (
                #[trigger] comm.codeword.encoded()[i]).len() == comm.codeword.encoded()[0].len(),
            forall|t: int| 0 <= t < q.len() ==> #[trigger] q[t] < num_cols,
            ps == Seq::new(q.len(), |s: int| path::<H>(leaves, q[s] as int)),
            cs == Seq::new(q.len(), |s: int| column(enc, q[s] as int)),
            mat(cols@) == cs.take(s as int),
            transcript.log() == log0 + column_events(ps.take(s as int), cs.take(s as int)),
        decreases q.len() - s,
    {
        let index: usize = query_indices[s];
        let siblings = match merkle_path::<H>(&comm.codeword_tree, index) {
            Some(siblings) => siblings,
            None => {
                return Err(Error::open("invalid Quasar Merkle path request"));
            },
        };
        match write_commitments::<F, H::Output, T>(transcript, &siblings) {
            Ok(_) => {},
            Err(e) => {
                return Err(e);
            },
        }
        let col = match comm.codeword.read_column(index) {
            Ok(col) => col,
            Err(msg) => {
                return Err(open_error(msg));
            },
        };
        match write_field_elements::<F, H::Output, T>(transcript, &col) {
            Ok(_) => {},
            Err(e) => {
                return Err(e);
            },
        }
        proof {
            assert(vals(col@) =~= cs[s as int]);
            column_events_push(
                ps.take(s as int),
                cs.take(s as int),
                siblings@,
                vals(col@),
                log0,
            );
            assert(ps.take(s as int + 1) =~= ps.take(s as int).push(ps[s as int]));
            assert(cs.take(s as int + 1) =~= cs.take(s as int).push(cs[s as int]));
            mat_push(cols@, col);
        }
        cols.push(col);
        s = s + 1;
    }
    proof {
        assert(ps.take(s as int) =~= ps);
        assert(cs.take(s as int) =~= cs);
    }
    Ok(cols)
}

/// The foldings of several columns with one list of weights.
pub open spec fn fold_columns<F: Residue>(weights: Seq<int>, cols: Seq<Seq<int>>) -> Seq<int> {
    Seq::new(cols.len(), |s: int| dot::<F>(weights, cols[s]))
}

/// Folds several columns with two lists of weights.
pub fn fold_all<F: PrimeField>(
    cols: &[Vec<F>],
    proximity_weights: &[F],
    evaluation_weights: &[F],
) -> (r: (Vec<F>, Vec<F>))
    requires
        proximity_weights@.len() == evaluation_weights@.len(),
        rect(mat(cols@), proximity_weights@.len()),
    ensures
        vals(r.0@) == fold_columns::<F>(vals(proximity_weights@), mat(cols@)),
        vals(r.1@) == fold_columns::<F>(vals(evaluation_weights@), mat(cols@)),
{
    let ghost m = mat(cols@);
    let mut proximity: Vec<F> = Vec::new();
    let mut evaluation: Vec<F> = Vec::new();
    let mut s: usize = 0;
    while s < cols.len()
        invariant
            s <= cols@.len(),
            m == mat(cols@),
            proximity_weights@.len() == evaluation_weights@.len(),
            rect(m, proximity_weights@.len()),
            proximity@.len() == s,
            evaluation@.len() == s,
            forall|t: int|
                0 <= t < s ==> (#[trigger] proximity@[t]).val() == dot::<F>(
                    vals(proximity_weights@),
                    m[t],
                ),
            forall|t: int|
                0 <= t < s ==> (#[trigger] evaluation@[t]).val() == dot::<F>(
                    vals(evaluation_weights@),
                    m[t],
                ),
        decreases cols@.len() - s,
    {
        assert(m[s as int].len() == proximity_weights@.len());
        let (p, e) = fold_opened_column_pair(&cols[s], proximity_weights, evaluation_weights);
        proximity.push(p);
        evaluation.push(e);
        s = s + 1;
    }
    assert(vals(proximity@) =~= fold_columns::<F>(vals(proximity_weights@), m));
    assert(vals(evaluation@) =~= fold_columns::<F>(vals(evaluation_weights@), m));
    (proximity, evaluation)
}

/// The batched sum of all folded columns.
pub open spec fn merged_claim<F: Residue>(
    cols: Seq<Seq<int>>,
    proximity_weights: Seq<int>,
    evaluation_weights: Seq<int>,
    tau: int,
    zeta: int,
) -> int {
    let t = pows::<F>(tau, cols.len());
    fadd::<F>(
        dot::<F>(t, fold_columns::<F>(proximity_weights, cols)),
        fmul::<F>(zeta, dot::<F>(t, fold_columns::<F>(evaluation_weights, cols))),
    )
}

/// Computes the batched sum of all folded columns.
fn compute_merged_claim<F: PrimeField>(
    cols: &[Vec<F>],
    proximity_weights: &[F],
    evaluation_weights: &[F],
    tau: F,
    zeta: F,
) -> (r: F)
    requires
        proximity_weights@.len() == evaluation_weights@.len(),
        rect(mat(cols@), proximity_weights@.len()),
    ensures
        r.val() == merged_claim::<F>(
            mat(cols@),
            vals(proximity_weights@),
            vals(evaluation_weights@),
            tau.val(),
            zeta.val(),
        ),
{
    let (proximity, evaluation) = fold_all(cols, proximity_weights, evaluation_weights);
    assert(vals(proximity@).len() == cols@.len());
    assert(vals(evaluation@).len() == cols@.len());
    qabase_weighted_sum(&proximity, tau).plus(zeta.times(qabase_weighted_sum(&evaluation, tau)))
}

/// The polynomials of the merged sum-check: for every block the selector and
/// the blocks of both codewords.
pub open spec fn merged_polys<F: PrimeField>(
    queries: Seq<usize>,
    tau: int,
    polys: Seq<Seq<int>>,
    layout: QABaseTwoLayerGkrLayout,
    n: nat,
) -> Seq<Seq<int>> {
    Seq::new(
        (3 * layout.rho) as nat,
        |j: int|
            if j % 3 == 0 {
                selector::<F>(queries, tau, j / 3, n)
            } else if j % 3 == 1 {
                polys[layout.block_at(0, j / 3)]
            } else {
                polys[layout.block_at(1, j / 3)]
            },
    )
}

/// The terms of the merged sum-check: for every block the selector times the
/// block of the first codeword, and `zeta` times the selector times the block
/// of the second.
pub open spec fn merged_terms(zeta: int, rho: nat) -> Seq<Term> {
    Seq::new(
        2 * rho,
        |s: int|
            if s % 2 == 0 {
                Term { coeff: 1, factors: seq![(3 * (s / 2)) as usize, (3 * (s / 2) + 1) as usize] }
            } else {
                Term {
                    coeff: zeta,
                    factors: seq![(3 * (s / 2)) as usize, (3 * (s / 2) + 2) as usize],
                }
            },
    )
}

/// The prover's state before the merged sum-check.
pub struct MergedColumns<F> {
    pub query_indices: Vec<usize>,
    pub tau: F,
    pub instance_batch_challenge: F,
    pub instance: SumcheckInstance<F>,
}

/// Builds the merged sum-check.
fn build_merged_instance<F: PrimeField>(
    query_indices: &[usize],
    tau: F,
    zeta: F,
    claim: F,
    polys: &[Vec<F>],
    layout: &QABaseTwoLayerGkrLayout,
    num_vars: usize,
    block_len: usize,
) -> (r: SumcheckInstance<F>)
    requires
        layout.wf(),
        layout.num_instances == 2,
        block_len == exp2(num_vars as nat),
        block_len > 0,
        polys@.len() == layout.e_start,
        rect(mat(polys@), block_len as nat),
        3 * layout.rho <= usize::MAX,
        forall|s: int|
            0 <= s < query_indices@.len() ==> #[trigger] query_indices@[s] < layout.rho * block_len,
    ensures
        instance_fits(r),
        r.num_vars == num_vars,
        r.degree == 2,
        r.claim == claim,
        r.terms_spec() == merged_terms(zeta.val(), layout.rho as nat),
        mat(r.polys@) == merged_polys::<F>(
            query_indices@,
            tau.val(),
            mat(polys@),
            *layout,
            block_len as nat,
        ),
{
    let ghost m = mat(polys@);
    let ghost n = block_len as nat;
    let ghost goal = merged_polys::<F>(query_indices@, tau.val(), m, *layout, n);
    let ghost goal_terms = merged_terms(zeta.val(), layout.rho as nat);
    let selectors = selector_block_evals(layout.rho, block_len, query_indices, tau);
    let mut out: Vec<Vec<F>> = Vec::new();
    let mut terms: Vec<ProductTerm<F>> = Vec::new();
    let mut b: usize = 0;
    assert(mat(out@) =~= goal.take(0));
    assert(terms_view(terms@) =~= goal_terms.take(0));
    while b < layout.rho
        invariant
            b <= layout.rho,
            layout.wf(),
            layout.num_instances == 2,
            polys@.len() == layout.e_start,
            m == mat(polys@),
            n == block_len,
            n > 0,
            rect(m, n),
            3 * layout.rho <= usize::MAX,
            goal == merged_polys::<F>(query_indices@, tau.val(), m, *layout, n),
            goal_terms == merged_terms(zeta.val(), layout.rho as nat),
            selectors@.len() == layout.rho,
            forall|c: int|
                0 <= c < layout.rho ==> vals((#[trigger] selectors@[c])@) == selector::<F>(
                    query_indices@,
                    tau.val(),
                    c,
                    n,
                ),
            mat(out@) == goal.take(3 * b),
            terms_view(terms@) == goal_terms.take(2 * b),
        decreases layout.rho - b,
    {
        let at0: usize = layout.block_poly_index(0, b);
        let at1: usize = layout.block_poly_index(1, b);
        let s = copied(&selectors[b]);
        let u = copied(&polys[at0]);
        let v = copied(&polys[at1]);
        proof {
            assert(goal[3 * b] == vals(s@));
            assert(goal[3 * b + 1] == m[at0 as int]);
            assert(goal[3 * b + 2] == m[at1 as int]);
            mat_push(out@, s);
            mat_push(out@.push(s), u);
            mat_push(out@.push(s).push(u), v);
            assert(goal.take(3 * (b + 1)) =~= goal.take(3 * b).push(goal[3 * b]).push(
                goal[3 * b + 1],
            ).push(goal[3 * b + 2]));
        }
        out.push(s);
        out.push(u);
        out.push(v);
        let mut f1: Vec<usize> = Vec::new();
        f1.push(3 * b);
        f1.push(3 * b + 1);
        let mut f2: Vec<usize> = Vec::new();
        f2.push(3 * b);
        f2.push(3 * b + 2);
        let ghost before = terms@;
        terms.push(ProductTerm { coeff: F::one(), factors: f1 });
        terms.push(ProductTerm { coeff: zeta, factors: f2 });
        proof {
            assert(f1@ =~= goal_terms[2 * b].factors);
            assert(f2@ =~= goal_terms[2 * b + 1].factors);
            assert(goal_terms.take(2 * (b + 1)) =~= goal_terms.take(2 * b).push(
                goal_terms[2 * b],
            ).push(goal_terms[2 * b + 1]));
            assert(terms_view(terms@) =~= terms_view(before).push(goal_terms[2 * b]).push(
                goal_terms[2 * b + 1],
            ));
        }
        b = b + 1;
    }
    proof {
        assert(goal.take(3 * layout.rho) =~= goal);
        assert(goal_terms.take(2 * layout.rho) =~= goal_terms);
        assert forall|j: int| 0 <= j < goal.len() implies (#[trigger] goal[j]).len() == n by {
            if j % 3 == 0 {
                selector_shape::<F>(query_indices@, tau.val(), j / 3, n);
            } else if j % 3 == 1 {
                layout.lemma_block(0, j / 3);
                assert(m[layout.block_at(0, j / 3)].len() == n);
            } else {
                layout.lemma_block(1, j / 3);
                assert(m[layout.block_at(1, j / 3)].len() == n);
            }
        }
        assert forall|t: int, k: int|
            0 <= t < terms@.len() && 0 <= k
                < terms@[t].factors@.len() implies #[trigger] terms@[t].factors@[k]
            < out@.len() by {
            assert(terms@[t].factors@ == goal_terms[t].factors);
            assert(mat(out@).len() == out@.len());
        }
        assert forall|t: int| 0 <= t < terms@.len() implies (#[trigger] terms@[t]).factors@.len()
            <= 2 by {
            assert(terms_view(terms@)[t].factors == goal_terms[t].factors);
        }
    }
    SumcheckInstance { num_vars, degree: 2, polys: out, terms, claim }
}

/// Draws the column queries, answers them, and sets up the merged sum-check.
pub fn prove_merged_column_consistency_start<
    F: PrimeField,
    H: HashFunction,
    C,
    W: QACodewordColumns<F>,
    T: TranscriptWrite<F, H::Output>,
>(
    pp: &QABaseProverParams<F, C>,
    comm: &QABaseCommitment<H, W>,
    polys: &[Vec<F>],
    layout: &QABaseTwoLayerGkrLayout,
    proximity_weights: &[F],
    evaluation_weights: &[F],
    transcript: &mut T,
) -> (r: Result<MergedColumns<F>, Error>)
    requires
        pp.wf(),
        layout.wf(),
        layout.rho == pp.inverse_rate,
        3 * layout.rho <= usize::MAX,
        polys@.len() == layout.e_start,
        rect(mat(polys@), exp2(pp.num_vars as nat)),
        commitment_wf::<F, H, W>(
            *comm,
            pp.num_rows as nat,
            (pp.inverse_rate * exp2(pp.num_vars as nat)) as nat,
        ),
        proximity_weights@.len() == pp.num_rows,
        evaluation_weights@.len() == pp.num_rows,
    ensures
        layout.num_instances != 2 ==> r is Err && r->Err_0.is_open(
            "full Quasar opening expects two instances",
        ) && *final(transcript) == *old(transcript),
        layout.num_instances == 2 && T::infallible() && comm.codeword.readable() ==> r is Ok,
        r matches Ok(state) ==> merged_started::<F, H, C, W>(
            *pp,
            *comm,
            mat(polys@),
            *layout,
            vals(proximity_weights@),
            vals(evaluation_weights@),
            state,
            old(transcript).log(),
            final(transcript).log(),
        ),
        r matches Err(e) ==> layout.num_instances != 2 || e is Transcript
            || (e is InvalidPcsOpen && !comm.codeword.readable()),
{
    if layout.num_instances != 2 {
        return Err(Error::open("full Quasar opening expects two instances"));
    }
    let ghost log0 = transcript.log();
    proof {
        exp2_is_pow2(pp.num_vars as nat);
        let n = exp2(pp.num_vars as nat) as int;
        assert(n <= pp.inverse_rate * n) by (nonlinear_arith)
            requires
                pp.inverse_rate >= 2,
                n >= 0,
        ;
        assert(pp.inverse_rate * n > 0) by (nonlinear_arith)
            requires
                pp.inverse_rate >= 2,
                n > 0,
        ;
    }
    let block_len: usize = power_of_two(pp.num_vars);
    let num_cols: usize = layout.rho * block_len;
    let challenges = squeeze_challenges::<F, H::Output, T>(transcript, pp.num_queries);
    let query_indices = field_challenges_to_indices(&challenges, num_cols);
    let cols = match write_queries::<F, H, W, T>(
        comm,
        pp.num_rows,
        num_cols,
        &query_indices,
        transcript,
    ) {
        Ok(cols) => cols,
        Err(e) => {
            return Err(e);
        },
    };
    let tau = transcript.squeeze_challenge();
    let zeta = transcript.squeeze_challenge();
    let claim = compute_merged_claim(&cols, proximity_weights, evaluation_weights, tau, zeta);
    let instance = build_merged_instance(
        &query_indices,
        tau,
        zeta,
        claim,
        polys,
        layout,
        pp.num_vars,
        block_len,
    );
    proof {
        let ch = vals(challenges@);
        let q = query_indices@;
        let ps = Seq::new(q.len(), |s: int| path::<H>(comm.codeword_tree@[0]@, q[s] as int));
        assert(ch.len() == pp.num_queries);
        assert(drawn::<H::Output>(seq![tau.val(), zeta.val()]) =~= seq![
            Event::Challenge(tau.val()),
            Event::Challenge(zeta.val()),
        ]);
        assert(transcript.log() =~= log0 + drawn(ch) + column_events(ps, mat(cols@)) + drawn(
            seq![tau.val(), zeta.val()],
        ));
        assert(ints(q).len() == q.len());
    }
    Ok(MergedColumns { query_indices, tau, instance_batch_challenge: zeta, instance })
}

/// What the prover's first part of the merged check leaves behind.
pub open spec fn merged_started<F: PrimeField, H: HashFunction, C, W: QACodewordColumns<F>>(
    pp: QABaseProverParams<F, C>,
    comm: QABaseCommitment<H, W>,
    polys: Seq<Seq<int>>,
    layout: QABaseTwoLayerGkrLayout,
    proximity_weights: Seq<int>,
    evaluation_weights: Seq<int>,
    state: MergedColumns<F>,
    log0: Seq<Event<H::Output>>,
    log1: Seq<Event<H::Output>>,
) -> bool {
    let n = exp2(pp.num_vars as nat);
    let q = state.query_indices@;
    let enc = residues::<F>(comm.codeword.encoded());
    let cols = Seq::new(q.len(), |s: int| column(enc, q[s] as int));
    let paths = Seq::new(q.len(), |s: int| path::<H>(comm.codeword_tree@[0]@, q[s] as int));
    &&& layout.num_instances == 2
    &&& q.len() == pp.num_queries
    &&& forall|s: int| 0 <= s < q.len() ==> #[trigger] q[s] < pp.inverse_rate * n
    &&& instance_fits(state.instance)
    &&& state.instance.num_vars == pp.num_vars
    &&& state.instance.degree == 2
    &&& state.instance.terms_spec() == merged_terms(
        state.instance_batch_challenge.val(),
        layout.rho as nat,
    )
    &&& mat(state.instance.polys@) == merged_polys::<F>(q, state.tau.val(), polys, layout, n)
    &&& state.instance.claim.val() == merged_claim::<F>(
        cols,
        proximity_weights,
        evaluation_weights,
        state.tau.val(),
        state.instance_batch_challenge.val(),
    )
    &&& exists|ch: Seq<int>|
        {
            &&& ints(q) == #[trigger] indices_of::<F>(ch, pp.inverse_rate * n)
            &&& log1 == log0 + drawn(ch) + column_events(paths, cols) + drawn(
                seq![state.tau.val(), state.instance_batch_challenge.val()],
            )
        }
}

/// Entries of a codeword by blocks.
pub proof fn encode_entry<F: Residue>(msg: Seq<int>, e: Seq<Seq<int>>, j: int)
    requires
        is_pow2(msg.len() as int),
        rect(e, msg.len()),
        0 <= j < (e.len() + 1) * msg.len(),
    ensures
        encode::<F>(msg, e)[j] == (if j / (msg.len() as int) == 0 {
            msg[j % (msg.len() as int)]
        } else {
            parity::<F>(msg, e[j / (msg.len() as int) - 1])[j % (msg.len() as int)]
        }),
        0 <= j / (msg.len() as int) < e.len() + 1,
        0 <= j % (msg.len() as int) < msg.len(),
{
    let n = msg.len() as int;
    flat_split(j, (e.len() + 1) as int, n);
    encode_shape::<F>(msg, e);
    let (b, l) = (j / n, j % n);
    let ps = parities::<F>(msg, e);
    if b == 0 {
        assert(0 * n == 0) by (nonlinear_arith);
    } else {
        flatten_entry(ps, msg.len(), b - 1, l);
        assert((b - 1) * n + l == j - n) by (nonlinear_arith)
            requires
                j == b * n + l,
        ;
        assert(j >= n) by (nonlinear_arith)
            requires
                j == b * n + l,
                b >= 1,
                0 <= l < n,
        ;
    }
}

/// Alternating weights `1, zeta, 1, zeta, ...` split an inner product.
proof fn dot_alternating<F: Residue>(zeta: int, a: Seq<int>, c: Seq<int>)
    requires
        a.len() == c.len(),
        vcanon::<F>(a),
    ensures
        dot::<F>(
            Seq::new(2 * a.len(), |s: int| if s % 2 == 0 { 1int } else { zeta }),
            Seq::new(2 * a.len(), |s: int| if s % 2 == 0 { a[s / 2] } else { c[s / 2] }),
        ) == fadd::<F>(vsum::<F>(a), fmul::<F>(zeta, vsum::<F>(c))),
    decreases a.len(),
{
    let k = a.len();
    let w = Seq::new(2 * k, |s: int| if s % 2 == 0 { 1int } else { zeta });
    let v = Seq::new(2 * k, |s: int| if s % 2 == 0 { a[s / 2] } else { c[s / 2] });
    if k == 0 {
        assert(vmul::<F>(w, v) =~= Seq::empty());
        canon_consts::<F>();
        f_units::<F>(0);
        crate::field::ops_red::<F>(zeta, 0);
        assert(zeta * 0 == 0) by (nonlinear_arith);
    } else {
        let (ad, cd) = (a.drop_last(), c.drop_last());
        dot_alternating::<F>(zeta, ad, cd);
        let k1 = (k - 1) as nat;
        let w1 = Seq::new(2 * k1, |s: int| if s % 2 == 0 { 1int } else { zeta });
        let v1 = Seq::new(2 * k1, |s: int| if s % 2 == 0 { ad[s / 2] } else { cd[s / 2] });
        let (x, y) = (a[k1 as int], c[k1 as int]);
        assert(w =~= w1.push(1).push(zeta));
        assert(v =~= v1.push(x).push(y));
        dot_push::<F>(w1, v1, 1, x);
        dot_push::<F>(w1.push(1), v1.push(x), zeta, y);
        f_units::<F>(x);
        let (sa, sc) = (vsum::<F>(ad), vsum::<F>(cd));
        let zc = fmul::<F>(zeta, sc);
        let zy = fmul::<F>(zeta, y);
        fmul_fadd::<F>(zeta, sc, y);
        fadd_assoc::<F>(fadd::<F>(sa, zc), x, zy);
        f_interchange::<F>(sa, zc, x, zy);
        assert(vsum::<F>(a) == fadd::<F>(sa, x));
        assert(vsum::<F>(c) == fadd::<F>(sc, y));
    }
}

/// The blocks of the two folded codewords.
pub open spec fn folded_blocks(
    polys: Seq<Seq<int>>,
    layout: QABaseTwoLayerGkrLayout,
    instance: int,
) -> Seq<Seq<int>> {
    Seq::new(layout.rho as nat, |b: int| polys[layout.block_at(instance, b)])
}

/// Folded sampled columns are entries of the codeword of the folded rows.
proof fn folded_entries<F: PrimeField>(
    rows: Seq<Seq<int>>,
    e: Seq<Seq<int>>,
    polys: Seq<Seq<int>>,
    inputs: Seq<Seq<int>>,
    layout: QABaseTwoLayerGkrLayout,
    w: Seq<int>,
    instance: int,
    q: Seq<usize>,
    n: nat,
)
    requires
        layout.wf(),
        layout.rho == e.len() + 1,
        is_pow2(n as int),
        rect(rows, n),
        rect(e, n),
        w.len() == rows.len(),
        0 <= instance < inputs.len(),
        inputs.len() == layout.num_instances,
        inputs[instance] == comb::<F>(w, rows, n),
        endpoint_blocks::<F>(polys, inputs, e),
        forall|s: int| 0 <= s < q.len() ==> #[trigger] q[s] < layout.rho * n,
    ensures
        fold_columns::<F>(
            w,
            Seq::new(q.len(), |s: int| column(encode_rows::<F>(rows, e), q[s] as int)),
        ) == Seq::new(
            q.len(),
            |s: int|
                folded_blocks(polys, layout, instance)[q[s] as int / (n as int)][q[s] as int % (
                n as int)],
        ),
        rect(folded_blocks(polys, layout, instance), n),
{
    let enc = encode_rows::<F>(rows, e);
    let cols = Seq::new(q.len(), |s: int| column(enc, q[s] as int));
    let blocks = folded_blocks(polys, layout, instance);
    let msg = comb::<F>(w, rows, n);
    comb_len::<F>(w, rows, n);
    encode_comb::<F>(w, rows, n, e);
    let cl = (e.len() + 1) * n;
    assert forall|i: int| 0 <= i < enc.len() implies (#[trigger] enc[i]).len() == cl by {
        assert(rows[i].len() == n);
        encode_shape::<F>(rows[i], e);
    }
    encode_shape::<F>(msg, e);
    assert forall|b: int| 0 <= b < layout.rho implies (#[trigger] blocks[b]) == (if b == 0 {
        msg
    } else {
        parity::<F>(msg, e[b - 1])
    }) by {
        if b == 0 {
            assert(polys[instance * layout.rho] == inputs[instance]);
        } else {
            assert(polys[instance * layout.rho + ((b - 1) + 1)] == parity::<F>(
                inputs[instance],
                e[b - 1],
            ));
        }
    }
    assert forall|b: int| 0 <= b < layout.rho implies (#[trigger] blocks[b]).len() == n by {
        if b > 0 {
            assert(parities::<F>(msg, e)[b - 1].len() == n);
        }
    }
    let lhs = fold_columns::<F>(w, cols);
    let rhs = Seq::new(
        q.len(),
        |s: int| blocks[q[s] as int / (n as int)][q[s] as int % (n as int)],
    );
    assert forall|s: int| 0 <= s < q.len() implies lhs[s] == rhs[s] by {
        let j = q[s] as int;
        assert(q[s] < layout.rho * n);
        comb_entry::<F>(w, enc, cl, j);
        assert(w.take(enc.len() as int) =~= w);
        encode_entry::<F>(msg, e, j);
    }
    assert(lhs =~= rhs);
}

/// The entries of a codeword, given by its blocks, at the queried positions.
pub open spec fn entries_of(queries: Seq<usize>, blocks: Seq<Seq<int>>, n: nat) -> Seq<int> {
    Seq::new(
        queries.len(),
        |s: int| blocks[queries[s] as int / (n as int)][queries[s] as int % (n as int)],
    )
}

/// The sum of the merged sum-check over the hypercube is the weighted sum of the
/// entries of both folded codewords at the queried positions.
pub proof fn merged_sum<F: PrimeField>(
    q: Seq<usize>,
    tau: int,
    zeta: int,
    polys: Seq<Seq<int>>,
    layout: QABaseTwoLayerGkrLayout,
    n: nat,
)
    requires
        n > 0,
        layout.wf(),
        3 * layout.rho <= usize::MAX,
        rect(folded_blocks(polys, layout, 0), n),
        rect(folded_blocks(polys, layout, 1), n),
        forall|s: int| 0 <= s < q.len() ==> #[trigger] q[s] < layout.rho * n,
    ensures
        cube_sum::<F>(
            merged_terms(zeta, layout.rho as nat),
            merged_polys::<F>(q, tau, polys, layout, n),
            n,
        ) == fadd::<F>(
            dot::<F>(pows::<F>(tau, q.len()), entries_of(q, folded_blocks(polys, layout, 0), n)),
            fmul::<F>(
                zeta,
                dot::<F>(pows::<F>(tau, q.len()), entries_of(q, folded_blocks(polys, layout, 1), n)),
            ),
        ),
{
    let rho = layout.rho as nat;
    let ps = merged_polys::<F>(q, tau, polys, layout, n);
    let terms = merged_terms(zeta, rho);
    let ub = folded_blocks(polys, layout, 0);
    let qb = folded_blocks(polys, layout, 1);
    assert forall|s: int| 0 <= s < q.len() implies #[trigger] q[s] < ub.len() * n by {
        assert(q[s] < layout.rho * n);
    }
    picked_blocks::<F>(q, tau, ub, n);
    picked_blocks::<F>(q, tau, qb, n);
    let pu = Seq::new(rho, |b: int| picked::<F>(q, tau, b, ub[b]));
    let pq = Seq::new(rho, |b: int| picked::<F>(q, tau, b, qb[b]));
    let w = Seq::new(2 * rho, |s: int| if s % 2 == 0 { 1int } else { zeta });
    let v = Seq::new(2 * rho, |s: int| if s % 2 == 0 { pu[s / 2] } else { pq[s / 2] });
    assert forall|s: int| 0 <= s < terms.len() implies vsum::<F>(
        term_values::<F>(#[trigger] terms[s], ps, n),
    ) == fmul::<F>(w[s], v[s]) by {
        let b = s / 2;
        let sel = selector::<F>(q, tau, b, n);
        selector_shape::<F>(q, tau, b, n);
        let block = if s % 2 == 0 { ub[b] } else { qb[b] };
        let f0 = (3 * b) as usize;
        let f1 = (3 * b + 1 + s % 2) as usize;
        assert(terms[s].factors == seq![f0, f1]);
        assert(block.len() == n) by {
            assert(ub[b].len() == n && qb[b].len() == n);
        }
        assert(ps[3 * b] == sel);
        assert(ps[3 * b + 1 + s % 2] == block);
        let tv = term_values::<F>(terms[s], ps, n);
        assert forall|x: int| 0 <= x < n implies tv[x] == vscale::<F>(
            w[s],
            vmul::<F>(sel, block),
        )[x] by {
            let col = column(ps, x);
            assert(col[f0 as int] == sel[x]);
            assert(col[f1 as int] == block[x]);
            product_small::<F>(f0, f1, f1, col);
        }
        assert(tv =~= vscale::<F>(w[s], vmul::<F>(sel, block)));
        crate::linear::vsum_scale::<F>(w[s], vmul::<F>(sel, block));
        dot_selector::<F>(q, tau, b, block);
    }
    cube_sum_weighted::<F>(terms, ps, n, w, v);
    assert forall|b: int| 0 <= b < rho implies canon::<F>(#[trigger] pu[b]) by {
        picked_canon::<F>(q, tau, b, ub[b]);
    }
    dot_alternating::<F>(zeta, pu, pq);
    assert(w =~= Seq::new(2 * pu.len(), |s: int| if s % 2 == 0 { 1int } else { zeta }));
    assert(v =~= Seq::new(2 * pu.len(), |s: int| if s % 2 == 0 { pu[s / 2] } else { pq[s / 2] }));
}

/// The claim of the merged sum-check is the sum over the hypercube, where the
/// committed matrix holds the codewords of `rows` and the blocks are those of
/// the codewords of the two foldings of `rows`.
pub proof fn merged_claim_holds<F: PrimeField, H: HashFunction, C, W: QACodewordColumns<F>>(
    pp: QABaseProverParams<F, C>,
    comm: QABaseCommitment<H, W>,
    rows: Seq<Seq<int>>,
    polys: Seq<Seq<int>>,
    layout: QABaseTwoLayerGkrLayout,
    proximity_weights: Seq<int>,
    evaluation_weights: Seq<int>,
    state: MergedColumns<F>,
    log0: Seq<Event<H::Output>>,
    log1: Seq<Event<H::Output>>,
)
    requires
        pp.wf(),
        layout.wf(),
        layout.rho == pp.inverse_rate,
        3 * layout.rho <= usize::MAX,
        rows.len() == pp.num_rows,
        rect(rows, exp2(pp.num_vars as nat)),
        residues::<F>(comm.codeword.encoded()) == encode_rows::<F>(rows, pp.qa_params.coeffs()),
        proximity_weights.len() == pp.num_rows,
        evaluation_weights.len() == pp.num_rows,
        endpoint_blocks::<F>(
            polys,
            seq![
                comb::<F>(proximity_weights, rows, exp2(pp.num_vars as nat)),
                comb::<F>(evaluation_weights, rows, exp2(pp.num_vars as nat)),
            ],
            pp.qa_params.coeffs(),
        ),
        merged_started::<F, H, C, W>(
            pp,
            comm,
            polys,
            layout,
            proximity_weights,
            evaluation_weights,
            state,
            log0,
            log1,
        ),
    ensures
        state.instance.holds(),
{
    let n = exp2(pp.num_vars as nat);
    let e = pp.qa_params.coeffs();
    let q = state.query_indices@;
    let tau = state.tau.val();
    let zeta = state.instance_batch_challenge.val();
    let inputs = seq![
        comb::<F>(proximity_weights, rows, n),
        comb::<F>(evaluation_weights, rows, n),
    ];
    exp2_is_pow2(pp.num_vars as nat);
    let ub = folded_blocks(polys, layout, 0);
    let qb = folded_blocks(polys, layout, 1);
    assert forall|s: int| 0 <= s < q.len() implies #[trigger] q[s] < layout.rho * n by {
        assert(q[s] < pp.inverse_rate * n);
    }
    folded_entries::<F>(rows, e, polys, inputs, layout, proximity_weights, 0, q, n);
    folded_entries::<F>(rows, e, polys, inputs, layout, evaluation_weights, 1, q, n);
    merged_sum::<F>(q, tau, zeta, polys, layout, n);
}

proof fn picked_canon<F: Residue>(queries: Seq<usize>, tau: int, block: int, c: Seq<int>)
    ensures
        canon::<F>(picked::<F>(queries, tau, block, c)),
    decreases queries.len(),
{
    canon_consts::<F>();
    if queries.len() > 0 {
        picked_canon::<F>(queries.drop_last(), tau, block, c);
        broadcast use fadd_canon;

    }
}

/// What the merged check establishes.
pub struct QABaseMergedColumnConsistencyOutput<F> {
    pub query_indices: Vec<usize>,
    pub tau: F,
    pub instance_batch_challenge: F,
    pub sc_point: Vec<F>,
    pub proximity_block_evals: Vec<F>,
    pub evaluation_block_evals: Vec<F>,
}

/// The claims of the merged check: both blocks at the point of the sum-check,
/// for every block.
pub open spec fn merged_claims(
    layout: QABaseTwoLayerGkrLayout,
    sc_point: Seq<int>,
    u: Seq<int>,
    q: Seq<int>,
) -> Seq<Claim> {
    Seq::new(
        (2 * layout.rho) as nat,
        |s: int|
            Claim {
                poly: layout.block_at(s % 2, s / 2),
                point: sc_point,
                value: if s % 2 == 0 {
                    u[s / 2]
                } else {
                    q[s / 2]
                },
            },
    )
}

/// Two lists taken by turns.
pub open spec fn alternate(u: Seq<int>, q: Seq<int>) -> Seq<int> {
    Seq::new(2 * u.len(), |s: int| if s % 2 == 0 { u[s / 2] } else { q[s / 2] })
}

/// Takes the answer of the merged sum-check, writes the values of the blocks
/// and adds the claims about them.
pub fn prove_merged_column_consistency_finish<F: PrimeField, O, T: TranscriptWrite<F, O>>(
    state: MergedColumns<F>,
    layout: &QABaseTwoLayerGkrLayout,
    sc_point: Vec<F>,
    terminal_evals: Vec<F>,
    points: &mut Vec<Vec<F>>,
    evals: &mut Vec<Evaluation<F>>,
    transcript: &mut T,
) -> (r: Result<QABaseMergedColumnConsistencyOutput<F>, Error>)
    requires
        layout.wf(),
        layout.num_instances == 2,
        3 * layout.rho <= usize::MAX,
    ensures
        terminal_evals@.len() != 3 * layout.rho ==> r is Err && r->Err_0.is_sumcheck(
            "wrong merged selector terminal vector",
        ) && *final(transcript) == *old(transcript) && *final(points) == *old(points)
            && *final(evals) == *old(evals),
        terminal_evals@.len() == 3 * layout.rho && T::infallible() ==> r is Ok,
        r matches Ok(out) ==> {
            let u = vals(out.proximity_block_evals@);
            let q = vals(out.evaluation_block_evals@);
            &&& terminal_evals@.len() == 3 * layout.rho
            &&& out.query_indices == state.query_indices
            &&& out.tau == state.tau
            &&& out.instance_batch_challenge == state.instance_batch_challenge
            &&& out.sc_point == sc_point
            &&& u == Seq::new(layout.rho as nat, |b: int| terminal_evals@[3 * b + 1].val())
            &&& q == Seq::new(layout.rho as nat, |b: int| terminal_evals@[3 * b + 2].val())
            &&& claim_set(final(points)@, final(evals)@) == claim_set(
                old(points)@,
                old(evals)@,
            ).add_claims(merged_claims(*layout, vals(sc_point@), u, q))
            &&& final(transcript).log() == old(transcript).log() + sent_fields(alternate(u, q))
        },
        r matches Err(e) ==> terminal_evals@.len() != 3 * layout.rho || e is Transcript,
{
    if terminal_evals.len() != 3 * layout.rho {
        return Err(Error::sumcheck("wrong merged selector terminal vector"));
    }
    let ghost log0 = transcript.log();
    let ghost set0 = claim_set(points@, evals@);
    let ghost u = Seq::new(layout.rho as nat, |b: int| terminal_evals@[3 * b + 1].val());
    let ghost q = Seq::new(layout.rho as nat, |b: int| terminal_evals@[3 * b + 2].val());
    let ghost all = merged_claims(*layout, vals(sc_point@), u, q);
    let ghost alt = alternate(u, q);
    let mut us: Vec<F> = Vec::new();
    let mut qs: Vec<F> = Vec::new();
    let mut b: usize = 0;
    proof {
        assert(log0 + sent_fields::<O>(alt.take(0)) =~= log0);
        assert(all.take(0) =~= Seq::empty());
    }
    while b < layout.rho
        invariant
            b <= layout.rho,
            layout.wf(),
            layout.num_instances == 2,
            3 * layout.rho <= usize::MAX,
            terminal_evals@.len() == 3 * layout.rho,
            u == Seq::new(layout.rho as nat, |b: int| terminal_evals@[3 * b + 1].val()),
            q == Seq::new(layout.rho as nat, |b: int| terminal_evals@[3 * b + 2].val()),
            all == merged_claims(*layout, vals(sc_point@), u, q),
            alt == alternate(u, q),
            us@.len() == b,
            qs@.len() == b,
            forall|c: int| 0 <= c < b ==> (#[trigger] us@[c]).val() == u[c],
            forall|c: int| 0 <= c < b ==> (#[trigger] qs@[c]).val() == q[c],
            claim_set(points@, evals@) == set0.add_claims(all.take(2 * b)),
            transcript.log() == log0 + sent_fields(alt.take(2 * b)),
        decreases layout.rho - b,
    {
        let x = terminal_evals[3 * b + 1];
        let y = terminal_evals[3 * b + 2];
        match transcript.write_field_element(x) {
            Ok(_) => {},
            Err(e) => {
                return Err(e);
            },
        }
        match transcript.write_field_element(y) {
            Ok(_) => {},
            Err(e) => {
                return Err(e);
            },
        }
        proof {
            assert(alt.take(2 * (b + 1)) =~= alt.take(2 * b).push(x.val()).push(y.val()));
            assert(log0 + sent_fields::<O>(alt.take(2 * (b + 1))) =~= (log0 + sent_fields(
                alt.take(2 * b),
            )).push(Event::Field(x.val())).push(Event::Field(y.val())));
            add_claims_take(set0, all, 2 * b);
            add_claims_take(set0, all, 2 * b + 1);
        }
        us.push(x);
        qs.push(y);
        push_basefold_opening_claim(
            points,
            evals,
            layout.block_poly_index(0, b),
            copied(&sc_point),
            x,
        );
        push_basefold_opening_claim(
            points,
            evals,
            layout.block_poly_index(1, b),
            copied(&sc_point),
            y,
        );
        b = b + 1;
    }
    proof {
        assert(all.take(2 * b) =~= all);
        assert(alt.take(2 * b) =~= alt);
        assert(vals(us@) =~= u);
        assert(vals(qs@) =~= q);
    }
    Ok(
        QABaseMergedColumnConsistencyOutput {
            query_indices: state.query_indices,
            tau: state.tau,
            instance_batch_challenge: state.instance_batch_challenge,
            sc_point,
            proximity_block_evals: us,
            evaluation_block_evals: qs,
        },
    )
}

/// The depth of a tree over `num_leaves` leaves.
pub fn merkle_depth(num_leaves: usize) -> (r: Result<usize, Error>)
    ensures
        r is Ok <==> is_pow2(num_leaves as int),
        r matches Ok(d) ==> d == log2(num_leaves as int),
        r matches Err(e) ==> e.is_open("invalid Quasar Merkle leaf count"),
{
    if crate::mle::is_power_of_two(num_leaves) {
        Ok(log2_power_of_two(num_leaves))
    } else {
        Err(Error::open("invalid Quasar Merkle leaf count"))
    }
}

/// The verifier's state before the merged sum-check.
pub struct MergedColumnsVerifier<F> {
    pub query_indices: Vec<usize>,
    pub tau: F,
    pub instance_batch_challenge: F,
    pub claimed_sum: F,
}

/// What the verifier read and drew before the merged sum-check.
pub struct QueriesRead<O> {
    pub challenges: Seq<int>,
    pub paths: Seq<Seq<O>>,
    pub cols: Seq<Seq<int>>,
}

/// Every column read leads to the root.
pub open spec fn columns_authentic<F: PrimeField, H: HashFunction>(
    root: H::Output,
    d: QueriesRead<H::Output>,
    num_cols: int,
) -> bool {
    forall|s: int|
        0 <= s < d.cols.len() ==> climb::<H>(
            leaf::<F, H>(#[trigger] d.cols[s]),
            d.paths[s],
            index_of::<F>(d.challenges[s], word_bytes(), num_cols),
        ) == root
}

/// Every column read leads to the root but the last, which does not.
pub open spec fn stopped_at_last<F: PrimeField, H: HashFunction>(
    root: H::Output,
    d: QueriesRead<H::Output>,
    num_cols: int,
) -> bool {
    let last = d.cols.len() - 1;
    &&& d.cols.len() > 0
    &&& forall|s: int|
        0 <= s < last ==> climb::<H>(
            leaf::<F, H>(#[trigger] d.cols[s]),
            d.paths[s],
            index_of::<F>(d.challenges[s], word_bytes(), num_cols),
        ) == root
    &&& climb::<H>(
        leaf::<F, H>(d.cols[last]),
        d.paths[last],
        index_of::<F>(d.challenges[last], word_bytes(), num_cols),
    ) != root
}

/// The queries read have the right sizes.
pub open spec fn queries_shaped<O>(
    d: QueriesRead<O>,
    num_queries: nat,
    num_rows: nat,
    depth: nat,
) -> bool {
    &&& d.challenges.len() == num_queries
    &&& d.paths.len() == num_queries
    &&& d.cols.len() == num_queries
    &&& rect(d.cols, num_rows)
    &&& forall|s: int| 0 <= s < num_queries ==> (#[trigger] d.paths[s]).len() == depth
}

/// The columns read lead to the root, and the state is what follows from them.
pub open spec fn queries_verified<F: PrimeField, H: HashFunction, C>(
    vp: QABaseVerifierParams<F, C>,
    root: H::Output,
    proximity_weights: Seq<int>,
    evaluation_weights: Seq<int>,
    state: MergedColumnsVerifier<F>,
    d: QueriesRead<H::Output>,
    log0: Seq<Event<H::Output>>,
    log1: Seq<Event<H::Output>>,
) -> bool {
    let num_cols = vp.inverse_rate * exp2(vp.num_vars as nat);
    &&& queries_shaped(d, vp.num_queries as nat, vp.num_rows as nat, log2(num_cols))
    &&& columns_authentic::<F, H>(root, d, num_cols)
    &&& ints(state.query_indices@) == indices_of::<F>(d.challenges, num_cols)
    &&& forall|s: int|
        0 <= s < state.query_indices@.len() ==> #[trigger] state.query_indices@[s] < num_cols
    &&& state.claimed_sum.val() == merged_claim::<F>(
        d.cols,
        proximity_weights,
        evaluation_weights,
        state.tau.val(),
        state.instance_batch_challenge.val(),
    )
    &&& log1 == log0 + drawn(d.challenges) + column_events(d.paths, d.cols) + drawn(
        seq![state.tau.val(), state.instance_batch_challenge.val()],
    )
}

/// All challenges were drawn and `k` columns read, the last of which is the first
/// that does not lead to the root.
pub open spec fn queries_refused<F: PrimeField, H: HashFunction, C>(
    vp: QABaseVerifierParams<F, C>,
    root: H::Output,
    d: QueriesRead<H::Output>,
    k: nat,
    log0: Seq<Event<H::Output>>,
    log1: Seq<Event<H::Output>>,
) -> bool {
    let num_cols = vp.inverse_rate * exp2(vp.num_vars as nat);
    &&& d.challenges.len() == vp.num_queries
    &&& d.paths.len() == k
    &&& d.cols.len() == k
    &&& k <= vp.num_queries
    &&& rect(d.cols, vp.num_rows as nat)
    &&& forall|s: int| 0 <= s < k ==> (#[trigger] d.paths[s]).len() == log2(num_cols)
    &&& log1 == log0 + drawn(d.challenges) + column_events(d.paths, d.cols)
    &&& stopped_at_last::<F, H>(root, d, num_cols)
}

/// Draws the column queries, reads the columns and authenticates them. `None`
/// if a column does not lead to the root.
pub fn verify_merged_column_consistency_start<
    F: PrimeField,
    H: HashFunction,
    C,
    T: TranscriptRead<F, H::Output>,
>(
    vp: &QABaseVerifierParams<F, C>,
    root: &H::Output,
    proximity_weights: &[F],
    evaluation_weights: &[F],
    transcript: &mut T,
) -> (r: Result<Option<MergedColumnsVerifier<F>>, Error>)
    requires
        vp.wf(),
        proximity_weights@.len() == vp.num_rows,
        evaluation_weights@.len() == vp.num_rows,
    ensures
        final(transcript).held() == old(transcript).held(),
        r matches Ok(Some(state)) ==> exists|d: QueriesRead<H::Output>| #[trigger]
            queries_verified::<F, H, C>(
                *vp,
                *root,
                vals(proximity_weights@),
                vals(evaluation_weights@),
                state,
                d,
                old(transcript).log(),
                final(transcript).log(),
            ),
        r matches Ok(None) ==> exists|d: QueriesRead<H::Output>, k: nat| #[trigger]
            queries_refused::<F, H, C>(
                *vp,
                *root,
                d,
                k,
                old(transcript).log(),
                final(transcript).log(),
            ),
        r matches Err(e) ==> cut_within(
            e,
            old(transcript).log(),
            final(transcript).log(),
            (vp.num_queries as nat) * (vp.num_rows as nat),
            (vp.num_queries as nat) * log2(vp.inverse_rate * exp2(vp.num_vars as nat)),
        ),
{
    let ghost log0 = transcript.log();
    proof {
        exp2_is_pow2(vp.num_vars as nat);
        let n = exp2(vp.num_vars as nat) as int;
        assert(n <= vp.inverse_rate * n && vp.inverse_rate * n > 0) by (nonlinear_arith)
            requires
                vp.inverse_rate >= 2,
                n > 0,
        ;
    }
    let block_len: usize = power_of_two(vp.num_vars);
    let num_cols: usize = vp.inverse_rate * block_len;
    let challenges = squeeze_challenges::<F, H::Output, T>(transcript, vp.num_queries);
    let ghost ch = vals(challenges@);
    let query_indices = field_challenges_to_indices(&challenges, num_cols);
    let depth: usize = match merkle_depth(num_cols) {
        Ok(depth) => depth,
        Err(e) => {
            return Err(e);
        },
    };
    let ghost log1 = transcript.log();
    let ghost mut paths: Seq<Seq<H::Output>> = Seq::empty();
    let mut cols: Vec<Vec<F>> = Vec::new();
    let mut s: usize = 0;
    proof {
        assert(log1 + column_events(paths, mat(cols@)) =~= log1);
        assert(ints(query_indices@).len() == query_indices@.len());
        assert(indices_of::<F>(ch, num_cols as int).len() == ch.len());
    }
    while s < query_indices.len()
        invariant
            transcript.held() == old(transcript).held(),
            s <= query_indices@.len(),
            query_indices@.len() == vp.num_queries,
            ch.len() == vp.num_queries,
            num_cols == vp.inverse_rate * exp2(vp.num_vars as nat),
            depth == log2(num_cols as int),
            log0 == old(transcript).log(),
            log1 == log0 + drawn(ch),
            ints(query_indices@) == indices_of::<F>(ch, num_cols as int),
            cols@.len() == s,
            paths.len() == s,
            rect(mat(cols@), vp.num_rows as nat),
            forall|t: int| 0 <= t < s ==> (#[trigger] paths[t]).len() == depth,
            forall|t: int|
                0 <= t < s ==> climb::<H>(
                    leaf::<F, H>(#[trigger] mat(cols@)[t]),
                    paths[t],
                    index_of::<F>(ch[t], word_bytes(), num_cols as int),
                ) == *root,
            transcript.log() == log1 + column_events(paths, mat(cols@)),
        decreases query_indices@.len() - s,
    {
        let index: usize = query_indices[s];
        let ghost before = transcript.log();
        let ghost k = s as nat;
        let ghost all = vp.num_queries as nat;
        let ghost n = vp.num_rows as nat;
        let ghost dn = depth as nat;
        proof {
            went_plain::<H::Output>(log0, ch, Seq::empty());
            column_messages(paths, mat(cols@), n, dn);
            messages_concat(log1, column_events(paths, mat(cols@)));
            assert(went(log0, before, k * n, k * dn));
            assert(k * n + n <= all * n) by (nonlinear_arith)
                requires
                    k + 1 <= all,
            ;
            assert(k * dn + dn <= all * dn) by (nonlinear_arith)
                requires
                    k + 1 <= all,
            ;
        }
        let siblings = match read_commitments::<F, H::Output, T>(transcript, depth) {
            Ok(siblings) => siblings,
            Err(e) => {
                proof {
                    cut_later(
                        e,
                        log0,
                        before,
                        transcript.log(),
                        k * n,
                        k * dn,
                        0,
                        dn,
                        all * n,
                        all * dn,
                    );
                }
                return Err(e);
            },
        };
        let ghost between = transcript.log();
        proof {
            went_plain::<H::Output>(before, Seq::empty(), siblings@);
            went_on(log0, before, between, k * n, k * dn, 0, dn);
        }
        let col = match read_field_elements::<F, H::Output, T>(transcript, vp.num_rows) {
            Ok(col) => col,
            Err(e) => {
                proof {
                    cut_later(
                        e,
                        log0,
                        between,
                        transcript.log(),
                        k * n,
                        k * dn + dn,
                        n,
                        0,
                        all * n,
                        all * dn,
                    );
                }
                return Err(e);
            },
        };
        assert(ints(query_indices@)[s as int] == index as int);
        assert(index as int == index_of::<F>(ch[s as int], word_bytes(), num_cols as int));
        let ghost m = mat(cols@);
        let ghost c = vals(col@);
        proof {
            mat_push(cols@, col);
            assert forall|k: int| 0 <= k < m.len() + 1 implies (#[trigger] m.push(c)[k]).len()
                == vp.num_rows by {
                if k < m.len() {
                    assert(m.push(c)[k] == m[k]);
                }
            }
        }
        if !verify_merkle_path_with_leaf::<H, F>(root, &col, &siblings, index) {
            proof {
                let d = QueriesRead::<H::Output> {
                    challenges: ch,
                    paths: paths.push(siblings@),
                    cols: m.push(c),
                };
                column_events_push(paths, m, siblings@, c, log1);
                assert(climb::<H>(
                    leaf::<F, H>(d.cols[s as int]),
                    d.paths[s as int],
                    index_of::<F>(d.challenges[s as int], word_bytes(), num_cols as int),
                ) != *root);
                assert forall|t: int| 0 <= t < s implies climb::<H>(
                    leaf::<F, H>(#[trigger] d.cols[t]),
                    d.paths[t],
                    index_of::<F>(d.challenges[t], word_bytes(), num_cols as int),
                ) == *root by {
                    assert(d.cols[t] == m[t]);
                }
                assert(queries_refused::<F, H, C>(
                    *vp,
                    *root,
                    d,
                    (s + 1) as nat,
                    log0,
                    transcript.log(),
                ));
            }
            return Ok(None);
        }
        proof {
            column_events_push(paths, m, siblings@, c, log1);
            paths = paths.push(siblings@);
            assert forall|t: int| 0 <= t < s + 1 implies climb::<H>(
                leaf::<F, H>(#[trigger] m.push(c)[t]),
                paths[t],
                index_of::<F>(ch[t], word_bytes(), num_cols as int),
            ) == *root by {
                if t < s {
                    assert(m.push(c)[t] == m[t]);
                }
            }
        }
        cols.push(col);
        s = s + 1;
    }
    let tau = transcript.squeeze_challenge();
    let zeta = transcript.squeeze_challenge();
    let claimed_sum = compute_merged_claim(&cols, proximity_weights, evaluation_weights, tau, zeta);
    proof {
        let d = QueriesRead::<H::Output> { challenges: ch, paths, cols: mat(cols@) };
        assert(queries_shaped(d, vp.num_queries as nat, vp.num_rows as nat, depth as nat));
        assert(drawn::<H::Output>(seq![tau.val(), zeta.val()]) =~= seq![
            Event::Challenge(tau.val()),
            Event::Challenge(zeta.val()),
        ]);
        assert(transcript.log() =~= log0 + drawn(d.challenges) + column_events(d.paths, d.cols)
            + drawn(seq![tau.val(), zeta.val()]));
    }
    let state = MergedColumnsVerifier {
        query_indices,
        tau,
        instance_batch_challenge: zeta,
        claimed_sum,
    };
    proof {
        let d = QueriesRead::<H::Output> { challenges: ch, paths, cols: mat(cols@) };
        assert(queries_verified::<F, H, C>(
            *vp,
            *root,
            vals(proximity_weights@),
            vals(evaluation_weights@),
            state,
            d,
            old(transcript).log(),
            transcript.log(),
        ));
    }
    let r: Result<Option<MergedColumnsVerifier<F>>, Error> = Ok(Some(state));
    assert(r->Ok_0->Some_0 == state);
    r
}

/// What the merged sum-check must end in, given the values of the blocks.
pub open spec fn merged_terminal_expected<F: PrimeField>(
    queries: Seq<usize>,
    tau: int,
    zeta: int,
    point: Seq<int>,
    u: Seq<int>,
    q: Seq<int>,
) -> int {
    vsum::<F>(
        Seq::new(
            u.len(),
            |b: int|
                fmul::<F>(
                    mle::<F>(selector::<F>(queries, tau, b, exp2(point.len())), point),
                    fadd::<F>(u[b], fmul::<F>(zeta, q[b])),
                ),
        ),
    )
}

/// Takes the result of the merged sum-check, reads the values of the blocks,
/// adds the claims about them and holds the result to them.
pub fn verify_merged_column_consistency_finish<F: PrimeField, O, T: TranscriptRead<F, O>>(
    state: MergedColumnsVerifier<F>,
    layout: &QABaseTwoLayerGkrLayout,
    block_len: usize,
    sc_point: Vec<F>,
    terminal_eval: F,
    points: &mut Vec<Vec<F>>,
    evals: &mut Vec<Evaluation<F>>,
    transcript: &mut T,
) -> (r: Result<(bool, QABaseMergedColumnConsistencyOutput<F>), Error>)
    requires
        layout.wf(),
        layout.num_instances >= 2,
        block_len == exp2(sc_point@.len()),
    ensures
        final(transcript).held() == old(transcript).held(),
        r matches Ok(result) ==> {
            let out = result.1;
            let u = vals(out.proximity_block_evals@);
            let q = vals(out.evaluation_block_evals@);
            &&& result.0 == (terminal_eval.val() == merged_terminal_expected::<F>(
                state.query_indices@,
                state.tau.val(),
                state.instance_batch_challenge.val(),
                vals(sc_point@),
                u,
                q,
            ))
            &&& out.query_indices == state.query_indices
            &&& out.tau == state.tau
            &&& out.instance_batch_challenge == state.instance_batch_challenge
            &&& out.sc_point == sc_point
            &&& u.len() == layout.rho
            &&& q.len() == layout.rho
            &&& claim_set(final(points)@, final(evals)@) == claim_set(
                old(points)@,
                old(evals)@,
            ).add_claims(merged_claims(*layout, vals(sc_point@), u, q))
            &&& final(transcript).log() == old(transcript).log() + sent_fields(alternate(u, q))
        },
        r matches Err(e) ==> cut_within(
            e,
            old(transcript).log(),
            final(transcript).log(),
            2 * layout.rho as nat,
            0,
        ),
{
    let ghost log0 = transcript.log();
    let ghost set0 = claim_set(points@, evals@);
    let ghost z = vals(sc_point@);
    let ghost tau = state.tau.val();
    let ghost zeta = state.instance_batch_challenge.val();
    let mut us: Vec<F> = Vec::new();
    let mut qs: Vec<F> = Vec::new();
    let mut expected = F::zero();
    let mut b: usize = 0;
    proof {
        assert(alternate(vals(us@), vals(qs@)) =~= Seq::empty());
        assert(log0 + sent_fields::<O>(alternate(vals(us@), vals(qs@))) =~= log0);
        assert(merged_claims(*layout, z, vals(us@), vals(qs@)).take(0) =~= Seq::empty());
    }
    while b < layout.rho
        invariant
            transcript.held() == old(transcript).held(),
            b <= layout.rho,
            log0 == old(transcript).log(),
            layout.wf(),
            layout.num_instances >= 2,
            block_len == exp2(sc_point@.len()),
            z == vals(sc_point@),
            tau == state.tau.val(),
            zeta == state.instance_batch_challenge.val(),
            us@.len() == b,
            qs@.len() == b,
            expected.val() == merged_terminal_expected::<F>(
                state.query_indices@,
                tau,
                zeta,
                z,
                vals(us@),
                vals(qs@),
            ),
            claim_set(points@, evals@) == set0.add_claims(
                merged_claims(*layout, z, vals(us@), vals(qs@)).take(2 * b),
            ),
            transcript.log() == log0 + sent_fields(alternate(vals(us@), vals(qs@))),
        decreases layout.rho - b,
    {
        let ghost before = transcript.log();
        let ghost all = 2 * layout.rho as nat;
        let ghost got = 2 * b as nat;
        proof {
            went_plain::<O>(log0, alternate(vals(us@), vals(qs@)), Seq::empty());
        }
        let x = match transcript.read_field_element() {
            Ok(x) => x,
            Err(e) => {
                proof {
                    cut_single::<O>(e, before, 0, arbitrary());
                    cut_later(e, log0, before, transcript.log(), got, 0, 1, 0, all, 0);
                }
                return Err(e);
            },
        };
        let ghost between = transcript.log();
        let y = match transcript.read_field_element() {
            Ok(y) => y,
            Err(e) => {
                proof {
                    cut_single::<O>(e, before, x.val(), arbitrary());
                    cut_single::<O>(e, between, 0, arbitrary());
                    went_on(log0, before, between, got, 0, 1, 0);
                    cut_later(e, log0, between, transcript.log(), got + 1, 0, 1, 0, all, 0);
                }
                return Err(e);
            },
        };
        let selector_eval = selector_block_eval_at_point(
            b,
            block_len,
            &state.query_indices,
            state.tau,
            &sc_point,
        );
        let ghost u0 = vals(us@);
        let ghost q0 = vals(qs@);
        expected =
        expected.plus(selector_eval.times(x.plus(state.instance_batch_challenge.times(y))));
        us.push(x);
        qs.push(y);
        proof {
            let u1 = vals(us@);
            let q1 = vals(qs@);
            assert(u1 =~= u0.push(x.val()));
            assert(q1 =~= q0.push(y.val()));
            let n = exp2(z.len());
            let p0 = Seq::new(
                u0.len(),
                |c: int|
                    fmul::<F>(
                        mle::<F>(selector::<F>(state.query_indices@, tau, c, n), z),
                        fadd::<F>(u0[c], fmul::<F>(zeta, q0[c])),
                    ),
            );
            let p1 = Seq::new(
                u1.len(),
                |c: int|
                    fmul::<F>(
                        mle::<F>(selector::<F>(state.query_indices@, tau, c, n), z),
                        fadd::<F>(u1[c], fmul::<F>(zeta, q1[c])),
                    ),
            );
            assert(p1 =~= p0.push(p1[b as int]));
            vsum_push::<F>(p0, p1[b as int]);
            let c0 = merged_claims(*layout, z, u0, q0);
            let c1 = merged_claims(*layout, z, u1, q1);
            assert(c1.take(2 * b) =~= c0.take(2 * b));
            add_claims_take(set0, c1, 2 * b);
            add_claims_take(set0, c1, 2 * b + 1);
            let a0 = alternate(u0, q0);
            let a1 = alternate(u1, q1);
            assert(a1 =~= a0.push(x.val()).push(y.val()));
            assert(log0 + sent_fields::<O>(a1) =~= (log0 + sent_fields(a0)).push(
                Event::Field(x.val()),
            ).push(Event::Field(y.val())));
        }
        push_basefold_opening_claim(
            points,
            evals,
            layout.block_poly_index(0, b),
            copied(&sc_point),
            x,
        );
        push_basefold_opening_claim(
            points,
            evals,
            layout.block_poly_index(1, b),
            copied(&sc_point),
            y,
        );
        b = b + 1;
    }
    proof {
        let all = merged_claims(*layout, z, vals(us@), vals(qs@));
        assert(all.take(2 * b) =~= all);
    }
    let ok: bool = terminal_eval.equals(expected);
    Ok(
        (
            ok,
            QABaseMergedColumnConsistencyOutput {
                query_indices: state.query_indices,
                tau: state.tau,
                instance_batch_challenge: state.instance_batch_challenge,
                sc_point,
                proximity_block_evals: us,
                evaluation_block_evals: qs,
            },
        ),
    )
}

/// `s u + zeta (s q) == s (u + zeta q)`.
proof fn f_merged_term<F: Residue>(s: int, u: int, q: int, zeta: int)
    ensures
        fadd::<F>(fmul::<F>(s, u), fmul::<F>(zeta, fmul::<F>(s, q))) == fmul::<F>(
            s,
            fadd::<F>(u, fmul::<F>(zeta, q)),
        ),
{
    crate::mle::f_swap::<F>(zeta, s, q);
    fmul_fadd::<F>(s, u, fmul::<F>(zeta, q));
}

/// Where the merged sum-check is answered with the values of its polynomials,
/// the verifier's final check passes.
pub proof fn honest_merged_check_is_accepted<F: PrimeField>(
    queries: Seq<usize>,
    tau: int,
    zeta: int,
    polys: Seq<Seq<int>>,
    layout: QABaseTwoLayerGkrLayout,
    point: Seq<int>,
    terminals: Seq<int>,
)
    requires
        layout.wf(),
        3 * layout.rho <= usize::MAX,
        terminals == values_at::<F>(
            merged_polys::<F>(queries, tau, polys, layout, exp2(point.len())),
            point,
        ),
    ensures
        summand::<F>(merged_terms(zeta, layout.rho as nat), terminals)
            == merged_terminal_expected::<F>(
            queries,
            tau,
            zeta,
            point,
            Seq::new(layout.rho as nat, |b: int| terminals[3 * b + 1]),
            Seq::new(layout.rho as nat, |b: int| terminals[3 * b + 2]),
        ),
{
    let u = Seq::new(layout.rho as nat, |b: int| terminals[3 * b + 1]);
    let q = Seq::new(layout.rho as nat, |b: int| terminals[3 * b + 2]);
    merged_summand::<F>(queries, tau, zeta, polys, layout, point, terminals, layout.rho as nat);
    let terms = merged_terms(zeta, layout.rho as nat);
    assert(terms.take(2 * layout.rho) =~= terms);
    assert(u.take(layout.rho as int) =~= u);
    assert(q.take(layout.rho as int) =~= q);
}

proof fn merged_summand<F: PrimeField>(
    queries: Seq<usize>,
    tau: int,
    zeta: int,
    polys: Seq<Seq<int>>,
    layout: QABaseTwoLayerGkrLayout,
    point: Seq<int>,
    terminals: Seq<int>,
    k: nat,
)
    requires
        layout.wf(),
        3 * layout.rho <= usize::MAX,
        k <= layout.rho,
        terminals == values_at::<F>(
            merged_polys::<F>(queries, tau, polys, layout, exp2(point.len())),
            point,
        ),
    ensures
        summand::<F>(
            merged_terms(zeta, layout.rho as nat).take((2 * k) as int),
            terminals,
        ) == merged_terminal_expected::<F>(
            queries,
            tau,
            zeta,
            point,
            Seq::new(layout.rho as nat, |b: int| terminals[3 * b + 1]).take(k as int),
            Seq::new(layout.rho as nat, |b: int| terminals[3 * b + 2]).take(k as int),
        ),
    decreases k,
{
    let n = exp2(point.len());
    let terms = merged_terms(zeta, layout.rho as nat);
    let u = Seq::new(layout.rho as nat, |b: int| terminals[3 * b + 1]);
    let q = Seq::new(layout.rho as nat, |b: int| terminals[3 * b + 2]);
    if k == 0 {
        assert(terms.take(0) =~= Seq::empty());
    } else {
        let b = k - 1;
        merged_summand::<F>(queries, tau, zeta, polys, layout, point, terminals, b as nat);
        let t0 = terms.take(2 * b);
        let (ta, tb) = (terms[2 * b], terms[2 * b + 1]);
        assert(terms.take((2 * k) as int) =~= t0.push(ta).push(tb));
        summand_push::<F>(t0, ta, terminals);
        summand_push::<F>(t0.push(ta), tb, terminals);
        let ps = merged_polys::<F>(queries, tau, polys, layout, n);
        let sv = mle::<F>(selector::<F>(queries, tau, b, n), point);
        assert(ps[3 * b] == selector::<F>(queries, tau, b, n));
        assert(terminals[3 * b] == sv);
        dot_canon::<F>(ps[3 * b], eq_evals::<F>(point));
        let f0 = (3 * b) as usize;
        let f1 = (3 * b + 1) as usize;
        let f2 = (3 * b + 2) as usize;
        assert(ta.factors == seq![f0, f1]);
        assert(tb.factors == seq![f0, f2]);
        product_small::<F>(f0, f1, f1, terminals);
        product_small::<F>(f0, f2, f2, terminals);
        broadcast use fmul_canon;

        f_units::<F>(fmul::<F>(sv, u[b]));
        f_merged_term::<F>(sv, u[b], q[b], zeta);
        let prev = summand::<F>(t0, terminals);
        fadd_assoc::<F>(prev, fmul::<F>(sv, u[b]), fmul::<F>(zeta, fmul::<F>(sv, q[b])));
        let (uk, qk) = (u.take(k as int), q.take(k as int));
        let (u0, q0) = (u.take(b), q.take(b));
        let p0 = Seq::new(
            u0.len(),
            |c: int|
                fmul::<F>(
                    mle::<F>(selector::<F>(queries, tau, c, n), point),
                    fadd::<F>(u0[c], fmul::<F>(zeta, q0[c])),
                ),
        );
        let p1 = Seq::new(
            uk.len(),
            |c: int|
                fmul::<F>(
                    mle::<F>(selector::<F>(queries, tau, c, n), point),
                    fadd::<F>(uk[c], fmul::<F>(zeta, qk[c])),
                ),
        );
        assert(p1 =~= p0.push(fmul::<F>(sv, fadd::<F>(u[b], fmul::<F>(zeta, q[b])))));
        vsum_push::<F>(p0, fmul::<F>(sv, fadd::<F>(u[b], fmul::<F>(zeta, q[b]))));
    }
}

/// The columns and paths that an honest prover writes lead to the committed
/// root.
pub proof fn opened_columns_are_authentic<F: PrimeField, H: HashFunction, W: QACodewordColumns<F>>(
    comm: QABaseCommitment<H, W>,
    num_cols: nat,
    j: int,
)
    requires
        is_pow2(num_cols as int),
        tree_over::<H, F>(
            comm.codeword_tree@,
            residues::<F>(comm.codeword.encoded()),
            num_cols,
        ),
        0 <= j < num_cols,
    ensures
        climb::<H>(
            leaf::<F, H>(column(residues::<F>(comm.codeword.encoded()), j)),
            path::<H>(comm.codeword_tree@[0]@, j),
            j,
        ) == comm.root_spec(),
        path::<H>(comm.codeword_tree@[0]@, j).len() == log2(num_cols as int),
{
    let rows = residues::<F>(comm.codeword.encoded());
    let leaves = column_leaves::<F, H>(rows, num_cols);
    tree_root::<H, F>(comm.codeword_tree@, rows, num_cols);
    climb_own_path::<H>(leaves, j);
}

/// The values of the blocks of one instance at a point.
pub open spec fn block_values<F: PrimeField>(
    polys: Seq<Seq<int>>,
    layout: QABaseTwoLayerGkrLayout,
    instance: int,
    point: Seq<int>,
) -> Seq<int> {
    Seq::new(layout.rho as nat, |b: int| mle::<F>(polys[layout.block_at(instance, b)], point))
}

/// A run of the merged check goes through `state` at `mid`, its sum-check is
/// answered with the values of its polynomials, and the values of the blocks
/// are written.
pub open spec fn merged_proved<F: PrimeField, H: HashFunction, C, W: QACodewordColumns<F>>(
    pp: QABaseProverParams<F, C>,
    comm: QABaseCommitment<H, W>,
    polys: Seq<Seq<int>>,
    layout: QABaseTwoLayerGkrLayout,
    proximity_weights: Seq<int>,
    evaluation_weights: Seq<int>,
    out: QABaseMergedColumnConsistencyOutput<F>,
    state: MergedColumns<F>,
    log0: Seq<Event<H::Output>>,
    mid: Seq<Event<H::Output>>,
    log1: Seq<Event<H::Output>>,
) -> bool {
    let x = vals(out.sc_point@);
    let u = vals(out.proximity_block_evals@);
    let q = vals(out.evaluation_block_evals@);
    &&& merged_started::<F, H, C, W>(
        pp,
        comm,
        polys,
        layout,
        proximity_weights,
        evaluation_weights,
        state,
        log0,
        mid,
    )
    &&& x.len() == pp.num_vars
    &&& out.query_indices == state.query_indices
    &&& out.tau == state.tau
    &&& out.instance_batch_challenge == state.instance_batch_challenge
    &&& u == block_values::<F>(polys, layout, 0, x)
    &&& q == block_values::<F>(polys, layout, 1, x)
    &&& log1 == mid + run_events::<F, H::Output>(
        state.instance.terms_spec(),
        mat(state.instance.polys@),
        2,
        x,
    ) + sent_fields(alternate(u, q))
}

/// Every third value from the second on is that of a block of the first
/// codeword, every third from the third on that of a block of the second.
proof fn merged_terminals<F: PrimeField>(
    queries: Seq<usize>,
    tau: int,
    polys: Seq<Seq<int>>,
    layout: QABaseTwoLayerGkrLayout,
    n: nat,
    point: Seq<int>,
)
    ensures
        ({
            let t = values_at::<F>(merged_polys::<F>(queries, tau, polys, layout, n), point);
            &&& Seq::new(layout.rho as nat, |b: int| t[3 * b + 1]) == block_values::<F>(
                polys,
                layout,
                0,
                point,
            )
            &&& Seq::new(layout.rho as nat, |b: int| t[3 * b + 2]) == block_values::<F>(
                polys,
                layout,
                1,
                point,
            )
        }),
{
    let ps = merged_polys::<F>(queries, tau, polys, layout, n);
    let t = values_at::<F>(ps, point);
    let u = Seq::new(layout.rho as nat, |b: int| t[3 * b + 1]);
    let q = Seq::new(layout.rho as nat, |b: int| t[3 * b + 2]);
    assert forall|b: int| 0 <= b < layout.rho implies #[trigger] u[b] == mle::<F>(
        polys[layout.block_at(0, b)],
        point,
    ) by {
        assert(ps[3 * b + 1] == polys[layout.block_at(0, b)]);
    }
    assert forall|b: int| 0 <= b < layout.rho implies #[trigger] q[b] == mle::<F>(
        polys[layout.block_at(1, b)],
        point,
    ) by {
        assert(ps[3 * b + 2] == polys[layout.block_at(1, b)]);
    }
    assert(u =~= block_values::<F>(polys, layout, 0, point));
    assert(q =~= block_values::<F>(polys, layout, 1, point));
}

/// Proves that the sampled columns of the committed matrix fold to the entries
/// of both codewords, and adds the claims about the blocks.
pub fn prove_merged_column_consistency<
    'a,
    F: PrimeField,
    H: HashFunction,
    C,
    W: QACodewordColumns<F>,
    T: TranscriptWrite<F, H::Output>,
>(
    acc: &mut QABaseProverOpeningAccumulator<'a, F, C>,
    pp: &QABaseProverParams<F, C>,
    comm: &QABaseCommitment<H, W>,
    polys: &[Vec<F>],
    layout: &QABaseTwoLayerGkrLayout,
    proximity_weights: &[F],
    evaluation_weights: &[F],
    transcript: &mut T,
) -> (r: Result<QABaseMergedColumnConsistencyOutput<F>, Error>)
    requires
        pp.wf(),
        layout.wf(),
        layout.rho == pp.inverse_rate,
        3 * layout.rho <= usize::MAX,
        polys@.len() == layout.e_start,
        rect(mat(polys@), exp2(pp.num_vars as nat)),
        commitment_wf::<F, H, W>(
            *comm,
            pp.num_rows as nat,
            (pp.inverse_rate * exp2(pp.num_vars as nat)) as nat,
        ),
        proximity_weights@.len() == pp.num_rows,
        evaluation_weights@.len() == pp.num_rows,
    ensures
        layout.num_instances != 2 ==> r is Err && r->Err_0.is_open(
            "full Quasar opening expects two instances",
        ) && *final(transcript) == *old(transcript) && *final(acc) == *old(acc),
        layout.num_instances == 2 && T::infallible() && comm.codeword.readable() ==> r is Ok,
        final(acc).polys == old(acc).polys,
        final(acc).comms == old(acc).comms,
        r matches Ok(out) ==> claim_set(final(acc).points@, final(acc).evals@) == claim_set(
            old(acc).points@,
            old(acc).evals@,
        ).add_claims(
            merged_claims(
                *layout,
                vals(out.sc_point@),
                vals(out.proximity_block_evals@),
                vals(out.evaluation_block_evals@),
            ),
        ),
        r matches Ok(out) ==> exists|state: MergedColumns<F>, mid: Seq<Event<H::Output>>| #[trigger]
            merged_proved::<F, H, C, W>(
                *pp,
                *comm,
                mat(polys@),
                *layout,
                vals(proximity_weights@),
                vals(evaluation_weights@),
                out,
                state,
                old(transcript).log(),
                mid,
                final(transcript).log(),
            ),
        r matches Err(e) ==> layout.num_instances != 2 || e is Transcript
            || (e is InvalidPcsOpen && !comm.codeword.readable()),
{
    let ghost log0 = transcript.log();
    let state = match prove_merged_column_consistency_start::<F, H, C, W, T>(
        pp,
        comm,
        polys,
        layout,
        proximity_weights,
        evaluation_weights,
        transcript,
    ) {
        Ok(state) => state,
        Err(e) => {
            return Err(e);
        },
    };
    let ghost state_g = state;
    let ghost mid = transcript.log();
    let (sc_point, terminal_evals) = match sumcheck_prove::<F, H::Output, T>(
        &state.instance,
        transcript,
    ) {
        Ok(answer) => answer,
        Err(e) => {
            return Err(e);
        },
    };
    proof {
        let n = exp2(pp.num_vars as nat);
        let t = vals(terminal_evals@);
        assert(mat(state_g.instance.polys@).len() == state_g.instance.polys@.len());
        merged_terminals::<F>(
            state_g.query_indices@,
            state_g.tau.val(),
            mat(polys@),
            *layout,
            n,
            vals(sc_point@),
        );
        assert(Seq::new(layout.rho as nat, |b: int| terminal_evals@[3 * b + 1].val())
            =~= Seq::new(layout.rho as nat, |b: int| t[3 * b + 1]));
        assert(Seq::new(layout.rho as nat, |b: int| terminal_evals@[3 * b + 2].val())
            =~= Seq::new(layout.rho as nat, |b: int| t[3 * b + 2]));
    }
    let out = match prove_merged_column_consistency_finish::<F, H::Output, T>(
        state,
        layout,
        sc_point,
        terminal_evals,
        &mut acc.points,
        &mut acc.evals,
        transcript,
    ) {
        Ok(out) => out,
        Err(e) => {
            return Err(e);
        },
    };
    proof {
        assert(merged_proved::<F, H, C, W>(
            *pp,
            *comm,
            mat(polys@),
            *layout,
            vals(proximity_weights@),
            vals(evaluation_weights@),
            out,
            state_g,
            log0,
            mid,
            transcript.log(),
        ));
    }
    Ok(out)
}

/// The verifier of the merged check read authentic columns up to `mid`, the
/// sum-check ended in `terminal` at `end`, and the flag says whether the values
/// of the blocks give that.
pub open spec fn merged_verified<F: PrimeField, H: HashFunction, C>(
    ok: bool,
    out: QABaseMergedColumnConsistencyOutput<F>,
    vp: QABaseVerifierParams<F, C>,
    root: H::Output,
    proximity_weights: Seq<int>,
    evaluation_weights: Seq<int>,
    state: MergedColumnsVerifier<F>,
    d: QueriesRead<H::Output>,
    terminal: int,
    log0: Seq<Event<H::Output>>,
    mid: Seq<Event<H::Output>>,
    end: Seq<Event<H::Output>>,
    log1: Seq<Event<H::Output>>,
) -> bool {
    let x = vals(out.sc_point@);
    let u = vals(out.proximity_block_evals@);
    let q = vals(out.evaluation_block_evals@);
    &&& queries_verified::<F, H, C>(
        vp,
        root,
        proximity_weights,
        evaluation_weights,
        state,
        d,
        log0,
        mid,
    )
    &&& sumcheck_verified::<F, H::Output>(
        vp.num_vars as nat,
        2,
        state.claimed_sum.val(),
        terminal,
        x,
        mid,
        end,
    )
    &&& x.len() == vp.num_vars
    &&& out.query_indices@ == state.query_indices@
    &&& out.tau == state.tau
    &&& out.instance_batch_challenge == state.instance_batch_challenge
    &&& u.len() == vp.inverse_rate
    &&& q.len() == vp.inverse_rate
    &&& log1 == end + sent_fields(alternate(u, q))
    &&& ok == (terminal == merged_terminal_expected::<F>(
        out.query_indices@,
        out.tau.val(),
        out.instance_batch_challenge.val(),
        x,
        u,
        q,
    ))
}

/// The columns read were authentic, and the sum-check over them was refused.
pub open spec fn merged_sum_refused<F: PrimeField, H: HashFunction, C>(
    vp: QABaseVerifierParams<F, C>,
    root: H::Output,
    proximity_weights: Seq<int>,
    evaluation_weights: Seq<int>,
    state: MergedColumnsVerifier<F>,
    d: QueriesRead<H::Output>,
    log0: Seq<Event<H::Output>>,
    mid: Seq<Event<H::Output>>,
    log1: Seq<Event<H::Output>>,
) -> bool {
    &&& queries_verified::<F, H, C>(
        vp,
        root,
        proximity_weights,
        evaluation_weights,
        state,
        d,
        log0,
        mid,
    )
    &&& sumcheck_refused::<F, H::Output>(
        vp.num_vars as nat,
        2,
        state.claimed_sum.val(),
        mid,
        log1,
    )
}

/// How many field elements the merged check sends.
pub open spec fn merged_fields<F: PrimeField, C>(vp: QABaseVerifierParams<F, C>) -> nat {
    (vp.num_queries as nat) * (vp.num_rows as nat) + (vp.num_vars as nat) * 3 + 2
        * vp.inverse_rate as nat
}

/// How many digests the merged check sends.
pub open spec fn merged_digests<F: PrimeField, C>(vp: QABaseVerifierParams<F, C>) -> nat {
    (vp.num_queries as nat) * log2(vp.inverse_rate * exp2(vp.num_vars as nat))
}

/// How many messages the queries have.
pub proof fn queries_went<F: PrimeField, H: HashFunction, C>(
    vp: QABaseVerifierParams<F, C>,
    root: H::Output,
    proximity_weights: Seq<int>,
    evaluation_weights: Seq<int>,
    state: MergedColumnsVerifier<F>,
    d: QueriesRead<H::Output>,
    log0: Seq<Event<H::Output>>,
    log1: Seq<Event<H::Output>>,
)
    requires
        queries_verified::<F, H, C>(
            vp,
            root,
            proximity_weights,
            evaluation_weights,
            state,
            d,
            log0,
            log1,
        ),
    ensures
        went(
            log0,
            log1,
            (vp.num_queries as nat) * (vp.num_rows as nat),
            (vp.num_queries as nat) * log2(vp.inverse_rate * exp2(vp.num_vars as nat)),
        ),
{
    let depth = log2(vp.inverse_rate * exp2(vp.num_vars as nat));
    let last = seq![state.tau.val(), state.instance_batch_challenge.val()];
    let a = log0 + drawn::<H::Output>(d.challenges);
    let b = a + column_events(d.paths, d.cols);
    went_plain::<H::Output>(log0, d.challenges, Seq::empty());
    column_messages(d.paths, d.cols, vp.num_rows as nat, depth);
    messages_concat(a, column_events(d.paths, d.cols));
    went_plain::<H::Output>(b, last, Seq::empty());
}

/// Verifies that the sampled columns fold to the entries of both codewords, and
/// adds the claims about the blocks. No output, and no claim, where a column
/// does not lead to the root.
pub fn verify_merged_column_consistency<
    'a,
    F: PrimeField,
    H: HashFunction,
    C,
    T: TranscriptRead<F, H::Output>,
>(
    acc: &mut QABaseVerifierOpeningAccumulator<'a, F, C>,
    vp: &QABaseVerifierParams<F, C>,
    root: &H::Output,
    layout: &QABaseTwoLayerGkrLayout,
    proximity_weights: &[F],
    evaluation_weights: &[F],
    transcript: &mut T,
) -> (r: Result<(bool, Option<QABaseMergedColumnConsistencyOutput<F>>), Error>)
    requires
        vp.wf(),
        layout.wf(),
        layout.rho == vp.inverse_rate,
        layout.num_instances >= 2,
        proximity_weights@.len() == vp.num_rows,
        evaluation_weights@.len() == vp.num_rows,
    ensures
        final(transcript).held() == old(transcript).held(),
        final(acc).comms == old(acc).comms,
        r matches Ok((ok, Some(out))) ==> claim_set(final(acc).points@, final(acc).evals@)
            == claim_set(old(acc).points@, old(acc).evals@).add_claims(
            merged_claims(
                *layout,
                vals(out.sc_point@),
                vals(out.proximity_block_evals@),
                vals(out.evaluation_block_evals@),
            ),
        ),
        r matches Ok((ok, Some(out))) ==> exists|
            state: MergedColumnsVerifier<F>,
            d: QueriesRead<H::Output>,
            terminal: int,
            mid: Seq<Event<H::Output>>,
            end: Seq<Event<H::Output>>,
        | #[trigger]
            merged_verified::<F, H, C>(
                ok,
                out,
                *vp,
                *root,
                vals(proximity_weights@),
                vals(evaluation_weights@),
                state,
                d,
                terminal,
                old(transcript).log(),
                mid,
                end,
                final(transcript).log(),
            ),
        r matches Ok((ok, None)) ==> !ok && *final(acc) == *old(acc) && exists|
            d: QueriesRead<H::Output>,
            k: nat,
        | #[trigger]
            queries_refused::<F, H, C>(
                *vp,
                *root,
                d,
                k,
                old(transcript).log(),
                final(transcript).log(),
            ),
        r matches Err(e) ==> cut_within(
            e,
            old(transcript).log(),
            final(transcript).log(),
            merged_fields(*vp),
            merged_digests(*vp),
        ) || (round_error(e) && exists|
            state: MergedColumnsVerifier<F>,
            d: QueriesRead<H::Output>,
            mid: Seq<Event<H::Output>>,
        | #[trigger]
            merged_sum_refused::<F, H, C>(
                *vp,
                *root,
                vals(proximity_weights@),
                vals(evaluation_weights@),
                state,
                d,
                old(transcript).log(),
                mid,
                final(transcript).log(),
            )),
{
    let ghost log0 = transcript.log();
    let ghost pw = vals(proximity_weights@);
    let ghost ew = vals(evaluation_weights@);
    let ghost nc = vp.inverse_rate * exp2(vp.num_vars as nat);
    let ghost q1 = (vp.num_queries as nat) * (vp.num_rows as nat);
    let ghost q2 = (vp.num_queries as nat) * log2(nc);
    let ghost sc = (vp.num_vars as nat) * 3;
    let ghost (n, m) = (merged_fields(*vp), merged_digests(*vp));
    proof {
        assert(q1 >= 0 && q2 >= 0) by (nonlinear_arith)
            requires
                q1 == (vp.num_queries as nat) * (vp.num_rows as nat),
                q2 == (vp.num_queries as nat) * log2(nc),
        ;
    }
    let started = match verify_merged_column_consistency_start::<F, H, C, T>(
        vp,
        root,
        proximity_weights,
        evaluation_weights,
        transcript,
    ) {
        Ok(started) => started,
        Err(e) => {
            proof {
                assert(went(log0, log0, 0, 0));
                cut_later(e, log0, log0, transcript.log(), 0, 0, q1, q2, n, m);
            }
            return Err(e);
        },
    };
    let state = match started {
        Some(state) => state,
        None => {
            return Ok((false, None));
        },
    };
    let ghost mid = transcript.log();
    let ghost d = choose|d: QueriesRead<H::Output>| #[trigger]
        queries_verified::<F, H, C>(*vp, *root, pw, ew, state, d, log0, mid);
    let ghost state_g = state;
    proof {
        queries_went::<F, H, C>(*vp, *root, pw, ew, state, d, log0, mid);
    }
    let (terminal_eval, sc_point) = match sumcheck_verify::<F, H::Output, T>(
        vp.num_vars,
        2,
        state.claimed_sum,
        transcript,
    ) {
        Ok(end) => end,
        Err(e) => {
            proof {
                if cut_within(e, mid, transcript.log(), sc, 0) {
                    cut_later(e, log0, mid, transcript.log(), q1, q2, sc, 0, n, m);
                } else {
                    assert(merged_sum_refused::<F, H, C>(
                        *vp,
                        *root,
                        pw,
                        ew,
                        state_g,
                        d,
                        log0,
                        mid,
                        transcript.log(),
                    ));
                }
            }
            return Err(e);
        },
    };
    let ghost end = transcript.log();
    proof {
        sumcheck_went::<F, H::Output>(
            vp.num_vars as nat,
            2,
            state.claimed_sum.val(),
            terminal_eval.val(),
            vals(sc_point@),
            mid,
            end,
        );
        went_on(log0, mid, end, q1, q2, sc, 0);
        let n = exp2(vp.num_vars as nat) as int;
        assert(n <= vp.inverse_rate * n) by (nonlinear_arith)
            requires
                vp.inverse_rate >= 2,
                n >= 0,
        ;
    }
    let block_len: usize = power_of_two(vp.num_vars);
    let result = match verify_merged_column_consistency_finish::<F, H::Output, T>(
        state,
        layout,
        block_len,
        sc_point,
        terminal_eval,
        &mut acc.points,
        &mut acc.evals,
        transcript,
    ) {
        Ok(result) => result,
        Err(e) => {
            proof {
                let last = 2 * layout.rho as nat;
                cut_later(e, log0, end, transcript.log(), q1 + sc, q2, last, 0, n, m);
            }
            return Err(e);
        },
    };
    let ghost ok = result.0;
    let ghost out = result.1;
    proof {
        assert(merged_verified::<F, H, C>(
            ok,
            out,
            *vp,
            *root,
            pw,
            ew,
            state_g,
            d,
            terminal_eval.val(),
            log0,
            mid,
            end,
            transcript.log(),
        ));
    }
    let r: Result<(bool, Option<QABaseMergedColumnConsistencyOutput<F>>), Error> = Ok(
        (result.0, Some(result.1)),
    );
    assert(r->Ok_0.0 == ok && r->Ok_0.1->Some_0 == out);
    r
}

/// What the prover of the merged check writes for a committed matrix of the
/// codewords of `rows`, and for blocks of the codewords of both foldings of
/// `rows`, takes the verifier to the same output, accepted.
pub proof fn honest_merged_run_is_accepted<
    F: PrimeField,
    H: HashFunction,
    C,
    W: QACodewordColumns<F>,
>(
    pp: QABaseProverParams<F, C>,
    vp: QABaseVerifierParams<F, C>,
    comm: QABaseCommitment<H, W>,
    rows: Seq<Seq<int>>,
    polys: Seq<Seq<int>>,
    layout: QABaseTwoLayerGkrLayout,
    proximity_weights: Seq<int>,
    evaluation_weights: Seq<int>,
    out: QABaseMergedColumnConsistencyOutput<F>,
    state: MergedColumns<F>,
    log0: Seq<Event<H::Output>>,
    mid: Seq<Event<H::Output>>,
    log1: Seq<Event<H::Output>>,
)
    requires
        pp.wf(),
        vp.num_vars == pp.num_vars,
        vp.num_rows == pp.num_rows,
        vp.inverse_rate == pp.inverse_rate,
        vp.num_queries == pp.num_queries,
        layout.wf(),
        layout.rho == pp.inverse_rate,
        3 * layout.rho <= usize::MAX,
        rows.len() == pp.num_rows,
        rect(rows, exp2(pp.num_vars as nat)),
        residues::<F>(comm.codeword.encoded()) == encode_rows::<F>(rows, pp.qa_params.coeffs()),
        tree_over::<H, F>(
            comm.codeword_tree@,
            residues::<F>(comm.codeword.encoded()),
            (pp.inverse_rate * exp2(pp.num_vars as nat)) as nat,
        ),
        proximity_weights.len() == pp.num_rows,
        evaluation_weights.len() == pp.num_rows,
        endpoint_blocks::<F>(
            polys,
            seq![
                comb::<F>(proximity_weights, rows, exp2(pp.num_vars as nat)),
                comb::<F>(evaluation_weights, rows, exp2(pp.num_vars as nat)),
            ],
            pp.qa_params.coeffs(),
        ),
        merged_proved::<F, H, C, W>(
            pp,
            comm,
            polys,
            layout,
            proximity_weights,
            evaluation_weights,
            out,
            state,
            log0,
            mid,
            log1,
        ),
    ensures
        exists|
            read: MergedColumnsVerifier<F>,
            d: QueriesRead<H::Output>,
            terminal: int,
            end: Seq<Event<H::Output>>,
        | #[trigger]
            merged_verified::<F, H, C>(
                true,
                out,
                vp,
                comm.root_spec(),
                proximity_weights,
                evaluation_weights,
                read,
                d,
                terminal,
                log0,
                mid,
                end,
                log1,
            ),
{
    let n = exp2(pp.num_vars as nat);
    let num_cols = pp.inverse_rate * n;
    let q = state.query_indices@;
    let x = vals(out.sc_point@);
    let enc = residues::<F>(comm.codeword.encoded());
    let cols = Seq::new(q.len(), |s: int| column(enc, q[s] as int));
    let paths = Seq::new(q.len(), |s: int| path::<H>(comm.codeword_tree@[0]@, q[s] as int));
    let ch = choose|ch: Seq<int>|
        {
            &&& ints(q) == #[trigger] indices_of::<F>(ch, num_cols)
            &&& mid == log0 + drawn(ch) + column_events(paths, cols) + drawn(
                seq![state.tau.val(), state.instance_batch_challenge.val()],
            )
        };
    let d = QueriesRead { challenges: ch, paths, cols };
    let read = MergedColumnsVerifier {
        query_indices: state.query_indices,
        tau: state.tau,
        instance_batch_challenge: state.instance_batch_challenge,
        claimed_sum: state.instance.claim,
    };
    assert(ints(q).len() == q.len());
    assert(indices_of::<F>(ch, num_cols).len() == ch.len());
    assert forall|s: int| 0 <= s < cols.len() implies climb::<H>(
        leaf::<F, H>(#[trigger] cols[s]),
        paths[s],
        index_of::<F>(ch[s], word_bytes(), num_cols),
    ) == comm.root_spec() && paths[s].len() == log2(num_cols) by {
        assert(ints(q)[s] == indices_of::<F>(ch, num_cols)[s]);
        opened_columns_are_authentic::<F, H, W>(comm, num_cols as nat, q[s] as int);
    }
    assert forall|s: int| 0 <= s < q.len() implies (#[trigger] paths[s]).len() == log2(
        num_cols,
    ) by {
        assert(cols[s] == column(enc, q[s] as int));
    }
    assert(enc.len() == pp.num_rows);
    assert forall|s: int| 0 <= s < cols.len() implies (#[trigger] cols[s]).len() == pp.num_rows by {
        assert(cols[s] == column(enc, q[s] as int));
    }
    assert(queries_verified::<F, H, C>(
        vp,
        comm.root_spec(),
        proximity_weights,
        evaluation_weights,
        read,
        d,
        log0,
        mid,
    ));
    merged_claim_holds::<F, H, C, W>(
        pp,
        comm,
        rows,
        polys,
        layout,
        proximity_weights,
        evaluation_weights,
        state,
        log0,
        mid,
    );
    let terminals = values_at::<F>(mat(state.instance.polys@), x);
    let zeta = state.instance_batch_challenge.val();
    honest_merged_check_is_accepted::<F>(q, state.tau.val(), zeta, polys, layout, x, terminals);
    merged_terminals::<F>(q, state.tau.val(), polys, layout, n, x);
    honest_sumcheck_is_accepted::<F, H::Output>(state.instance, x, mid);
    let terminal = summand::<F>(state.instance.terms_spec(), terminals);
    let end = mid + run_events::<F, H::Output>(
        state.instance.terms_spec(),
        mat(state.instance.polys@),
        2,
        x,
    );
    assert(merged_verified::<F, H, C>(
        true,
        out,
        vp,
        comm.root_spec(),
        proximity_weights,
        evaluation_weights,
        read,
        d,
        terminal,
        log0,
        mid,
        end,
        log1,
    ));
}

} // verus!
