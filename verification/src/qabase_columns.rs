//! Sampled columns of the committed codewords against the folded codeword: one
//! sum-check over a selector, split into the blocks of the codeword.

use crate::brakingbase_checks::{entries_at, mask_eval, mask_of, mask_picks, query_mask};
use crate::claims::{append_claims_take, append_opening_claim, claim_set, Claim};
use crate::classic_sumcheck::{
    honest_run_is_accepted, instance_fits, round_error, run_events, sumcheck_prove,
    sumcheck_refused, sumcheck_verified, sumcheck_verify, sumcheck_went, terms_fit,
};
use crate::error::Error;
use crate::field::{f_units, fmul, fmul_canon, index_of, word_bytes, PrimeField, Residue};
use crate::hash::HashFunction;
use crate::linear::{
    column, comb, comb_entry, comb_len, dot, dot_canon, dot_comb, inner_product, ints, mat,
    mat_push, powers, pows, pows_step, rect, vals, vals_canon, vals_push, vcanon, vmul, vsum,
    vsum_canon,
};
use crate::merkle::{
    climb, layers, leaf, merkle_path, path, read_column_of, root, tree_view,
    verify_merkle_path_with_leaf,
};
use crate::mle::{
    eq_evals, equality_mle_evals_on_hypercube, eval_mle_from_evals, exp2, exp2_adds, exp2_is_pow2,
    log2, log2_power_of_two, mle, mle_row_major, pow2_is_exp2, power_of_two,
};
use crate::qa_code::{
    copied, encode, encode_comb, encode_rows, encode_shape, is_pow2, qa_codeword_block, row_bounds,
    rows_of, rows_of_shape,
};
use crate::qabase::{
    fold_opened_column, QABaseEvalAuxLayout, QABaseEvalWitness, QABaseFoldedWitness,
};
use crate::qabase_relations::{batch_value, batched_value};
use crate::qapcs::Evaluation;
use crate::quasar::{
    residues, QABaseCommitment, QABaseProverParams, QABaseVerifierParams, QACodewordColumns,
};
use crate::quasar_columns::{
    column_events, column_events_push, column_messages, columns_authentic, commitment_wf,
    field_challenges_to_indices, fold_columns, indices_of, stopped_at_last, write_queries,
    QueriesRead,
};
use crate::sumcheck::{
    cube_sum, cube_sum_nil, cube_sum_push, product_small, summand, summand_push, term_values,
    values_at, ProductTerm, SumcheckInstance, Term,
};
use crate::transcript::{
    cut_later, cut_single, cut_within, drawn, messages_concat, read_commitments,
    read_field_elements, sent_commitments, sent_fields, squeeze_challenges, went, went_on,
    went_plain, write_commitments, write_field_elements, Event, TranscriptRead, TranscriptWrite,
};
use vstd::prelude::*;

verus! {

/// Writes the siblings of a leaf.
pub fn write_merkle_path<F: PrimeField, H: HashFunction, T: TranscriptWrite<F, H::Output>>(
    tree: &[Vec<H::Output>],
    index: usize,
    transcript: &mut T,
) -> (r: Result<(), Error>)
    requires
        tree@.len() > 0,
        is_pow2(tree@[0]@.len() as int),
        tree_view(tree@) == layers::<H>(tree@[0]@),
        index < tree@[0]@.len(),
    ensures
        T::infallible() ==> r is Ok,
        r matches Err(e) ==> e is Transcript,
        r is Ok ==> final(transcript).log() == old(transcript).log() + sent_commitments(
            path::<H>(tree@[0]@, index as int),
        ),
{
    match merkle_path::<H>(tree, index) {
        Some(siblings) => write_commitments(transcript, &siblings),
        None => Ok(()),
    }
}

/// Reads the siblings of a leaf of a tree over `num_leaves` leaves.
pub fn read_merkle_path<F: PrimeField, H: HashFunction, T: TranscriptRead<F, H::Output>>(
    num_leaves: usize,
    transcript: &mut T,
) -> (r: Result<Vec<H::Output>, Error>)
    requires
        is_pow2(num_leaves as int),
    ensures
        final(transcript).held() == old(transcript).held(),
        r matches Err(e) ==> cut_within(
            e,
            old(transcript).log(),
            final(transcript).log(),
            0,
            log2(num_leaves as int),
        ),
        r matches Ok(siblings) ==> {
            &&& siblings@.len() == log2(num_leaves as int)
            &&& final(transcript).log() == old(transcript).log() + sent_commitments(siblings@)
        },
{
    let depth: usize = log2_power_of_two(num_leaves);
    read_commitments(transcript, depth)
}

/// The selector: at every queried column the sum of the powers of `tau` of its
/// queries.
pub open spec fn selector_of<F: Residue>(queries: Seq<int>, tau: int, num_cols: nat) -> Seq<int> {
    mask_of::<F>(queries, pows::<F>(tau, queries.len()), num_cols)
}

/// Builds the selector.
pub fn qabase_selector_evals_from_queries<F: PrimeField>(
    num_cols: usize,
    query_indices: &[usize],
    tau: F,
) -> (r: Vec<F>)
    requires
        forall|i: int| 0 <= i < query_indices@.len() ==> #[trigger] query_indices@[i] < num_cols,
    ensures
        vals(r@) == selector_of::<F>(ints(query_indices@), tau.val(), num_cols as nat),
        r@.len() == num_cols,
{
    let weights = powers(tau, query_indices.len());
    proof {
        pows_step::<F>(tau.val(), query_indices@.len());
        assert(vals(weights@).len() == weights@.len());
    }
    query_mask(query_indices, &weights, num_cols)
}

/// The sum of folded columns weighted by the powers of `tau`.
pub fn qabase_weighted_folded_sum<F: PrimeField>(folded_values: &[F], tau: F) -> (r: F)
    ensures
        r.val() == batch_value::<F>(tau.val(), vals(folded_values@)),
{
    batched_value(tau, folded_values)
}

/// The value of the selector at a point.
pub fn qabase_selector_eval_from_queries<F: PrimeField>(
    num_cols: usize,
    query_indices: &[usize],
    tau: F,
    point: &[F],
) -> (r: F)
    requires
        num_cols == exp2(point@.len()),
        forall|i: int| 0 <= i < query_indices@.len() ==> #[trigger] query_indices@[i] < num_cols,
    ensures
        r.val() == mle::<F>(
            selector_of::<F>(ints(query_indices@), tau.val(), num_cols as nat),
            vals(point@),
        ),
{
    let weights = powers(tau, query_indices.len());
    proof {
        pows_step::<F>(tau.val(), query_indices@.len());
        assert(vals(weights@).len() == weights@.len());
    }
    mask_eval(query_indices, &weights, point)
}

/// The product of the selector and the codeword.
pub open spec fn selector_terms() -> Seq<Term> {
    seq![Term { coeff: 1, factors: seq![0usize, 1] }]
}

/// The sum-check over the product of the selector and a codeword.
fn selector_instance<F: PrimeField>(
    selector: Vec<F>,
    word: Vec<F>,
    num_vars: usize,
    claim: F,
) -> (r: SumcheckInstance<F>)
    requires
        selector@.len() == exp2(num_vars as nat),
        word@.len() == selector@.len(),
    ensures
        instance_fits(r),
        r.num_vars == num_vars,
        r.degree == 2,
        r.claim == claim,
        r.terms_spec() == selector_terms(),
        mat(r.polys@) == seq![vals(selector@), vals(word@)],
        r.holds() <==> claim.val() == dot::<F>(vals(selector@), vals(word@)),
{
    let _size: usize = selector.len();
    let ghost (s, w) = (vals(selector@), vals(word@));
    proof {
        vals_canon(selector@);
    }
    let mut polys: Vec<Vec<F>> = Vec::new();
    polys.push(selector);
    polys.push(word);
    let mut factors: Vec<usize> = Vec::new();
    factors.push(0);
    factors.push(1);
    assert(factors@ =~= seq![0usize, 1]);
    let mut terms: Vec<ProductTerm<F>> = Vec::new();
    terms.push(ProductTerm { coeff: F::one(), factors });
    let r = SumcheckInstance { num_vars, degree: 2, polys, terms, claim };
    proof {
        let p = seq![s, w];
        let n = exp2(num_vars as nat);
        assert(mat(r.polys@) =~= p);
        assert(r.terms_spec() =~= selector_terms());
        selector_cube_sum::<F>(s, w, n);
        assert(r.terms@[0].factors@.len() == 2);
    }
    r
}

/// Answered with the values of its polynomials, the selector sum-check ends in
/// their product.
pub proof fn honest_selector_check_is_accepted<F: Residue>(
    selector: Seq<int>,
    word: Seq<int>,
    z: Seq<int>,
)
    ensures
        summand::<F>(selector_terms(), values_at::<F>(seq![selector, word], z)) == fmul::<F>(
            mle::<F>(selector, z),
            mle::<F>(word, z),
        ),
{
    let a = values_at::<F>(seq![selector, word], z);
    let t = selector_terms()[0];
    assert(selector_terms() =~= Seq::empty().push(t));
    summand_push::<F>(Seq::empty(), t, a);
    dot_canon::<F>(selector, eq_evals::<F>(z));
    product_small::<F>(0, 1, 0, a);
    fmul_canon::<F>(a[0], a[1]);
    f_units::<F>(fmul::<F>(a[0], a[1]));
}

/// Folding columns of encoded rows reads off the encoding of the folded row.
pub proof fn folded_columns_are_entries<F: Residue>(
    w: Seq<int>,
    rows: Seq<Seq<int>>,
    e: Seq<Seq<int>>,
    n: nat,
    queries: Seq<int>,
)
    requires
        is_pow2(n as int),
        w.len() == rows.len(),
        rect(rows, n),
        rect(e, n),
        forall|i: int|
            0 <= i < queries.len() ==> 0 <= #[trigger] queries[i] < (e.len() + 1) * n,
    ensures
        fold_columns::<F>(
            w,
            Seq::new(queries.len(), |i: int| column(encode_rows::<F>(rows, e), queries[i])),
        ) == entries_at(encode::<F>(comb::<F>(w, rows, n), e), queries),
{
    let cw = encode_rows::<F>(rows, e);
    let m = (e.len() + 1) * n;
    let word = encode::<F>(comb::<F>(w, rows, n), e);
    encode_comb::<F>(w, rows, n, e);
    assert forall|i: int| 0 <= i < cw.len() implies (#[trigger] cw[i]).len() == m by {
        assert(rows[i].len() == n);
        encode_shape::<F>(rows[i], e);
    }
    let cols = Seq::new(queries.len(), |i: int| column(cw, queries[i]));
    let l = fold_columns::<F>(w, cols);
    assert forall|i: int| 0 <= i < queries.len() implies l[i] == entries_at(word, queries)[i] by {
        comb_entry::<F>(w, cw, m, queries[i]);
        assert(w.take(cw.len() as int) =~= w);
    }
    assert(l =~= entries_at(word, queries));
}

/// The weighted sum of folded columns of encoded rows is what the selector picks
/// of the encoding of the folded row: the column check has a true claim.
pub proof fn column_claim_holds<F: Residue>(
    w: Seq<int>,
    rows: Seq<Seq<int>>,
    e: Seq<Seq<int>>,
    n: nat,
    queries: Seq<int>,
    tau: int,
)
    requires
        is_pow2(n as int),
        w.len() == rows.len(),
        rect(rows, n),
        rect(e, n),
        forall|i: int|
            0 <= i < queries.len() ==> 0 <= #[trigger] queries[i] < (e.len() + 1) * n,
    ensures
        batch_value::<F>(
            tau,
            fold_columns::<F>(
                w,
                Seq::new(queries.len(), |i: int| column(encode_rows::<F>(rows, e), queries[i])),
            ),
        ) == dot::<F>(
            selector_of::<F>(queries, tau, (e.len() + 1) * n),
            encode::<F>(comb::<F>(w, rows, n), e),
        ),
{
    let word = encode::<F>(comb::<F>(w, rows, n), e);
    comb_len::<F>(w, rows, n);
    encode_shape::<F>(comb::<F>(w, rows, n), e);
    folded_columns_are_entries::<F>(w, rows, e, n, queries);
    pows_step::<F>(tau, queries.len());
    mask_picks::<F>(queries, pows::<F>(tau, queries.len()), word);
}

/// The values of the blocks of a word at a point.
pub open spec fn block_values<F: Residue>(word: Seq<int>, rho: nat, local: Seq<int>) -> Seq<int> {
    values_at::<F>(rows_of(word, rho, exp2(local.len())), local)
}

/// The value of a word is the combination of the values of its blocks: the first
/// coordinates select the position within a block, the others the block.
pub proof fn blocks_make_up_value<F: Residue>(
    word: Seq<int>,
    rho: nat,
    local: Seq<int>,
    block: Seq<int>,
)
    requires
        rho == exp2(block.len()),
        word.len() == rho * exp2(local.len()),
    ensures
        mle::<F>(word, local + block) == dot::<F>(
            eq_evals::<F>(block),
            block_values::<F>(word, rho, local),
        ),
{
    let n = exp2(local.len());
    let rows = rows_of(word, rho, n);
    rows_of_shape(word, rho, n);
    mle_row_major::<F>(rows, n, local, block);
    dot_comb::<F>(eq_evals::<F>(block), rows, n, eq_evals::<F>(local));
    assert(Seq::new(rows.len(), |i: int| dot::<F>(rows[i], eq_evals::<F>(local)))
        =~= block_values::<F>(word, rho, local));
}

/// The claims about the blocks of a codeword.
pub open spec fn block_claims(
    layout: QABaseEvalAuxLayout,
    local: Seq<int>,
    values: Seq<int>,
) -> Seq<Claim> {
    Seq::new(
        layout.rho as nat,
        |b: int| Claim { poly: layout.block(b), point: local, value: values[b] },
    )
}

/// Adds the claims about the blocks of a codeword.
fn append_block_claims<F: PrimeField>(
    points: &mut Vec<Vec<F>>,
    evals: &mut Vec<Evaluation<F>>,
    layout: QABaseEvalAuxLayout,
    local: &[F],
    values: &[F],
)
    requires
        layout.wf(),
        values@.len() == layout.rho,
    ensures
        claim_set(final(points)@, final(evals)@) == claim_set(
            old(points)@,
            old(evals)@,
        ).append_claims(block_claims(layout, vals(local@), vals(values@))),
{
    let ghost set0 = claim_set(points@, evals@);
    let ghost all = block_claims(layout, vals(local@), vals(values@));
    let mut b: usize = 0;
    assert(all.take(0) =~= Seq::empty());
    while b < layout.rho
        invariant
            b <= layout.rho,
            layout.wf(),
            values@.len() == layout.rho,
            all == block_claims(layout, vals(local@), vals(values@)),
            claim_set(points@, evals@) == set0.append_claims(all.take(b as int)),
        decreases layout.rho - b,
    {
        proof {
            append_claims_take(set0, all, b as int);
        }
        append_opening_claim(points, evals, layout.q_aux_start + b, copied(local), values[b]);
        b = b + 1;
    }
    assert(all.take(b as int) =~= all);
}

/// The prover's state before the sum-check over the selector.
pub struct Item1Start<F> {
    pub query_indices: Vec<usize>,
    pub folded_values: Vec<F>,
    pub opened_columns: Vec<Vec<F>>,
    pub tau: F,
    pub instance: SumcheckInstance<F>,
}

/// The sum-check is over the selector of the queries and a codeword.
pub open spec fn selector_instance_of<F: PrimeField>(
    instance: SumcheckInstance<F>,
    queries: Seq<usize>,
    tau: int,
    word: Seq<int>,
    folded: Seq<int>,
) -> bool {
    let s = selector_of::<F>(ints(queries), tau, word.len());
    &&& instance_fits(instance)
    &&& exp2(instance.num_vars as nat) == word.len()
    &&& instance.degree == 2
    &&& instance.terms_spec() == selector_terms()
    &&& mat(instance.polys@) == seq![s, word]
    &&& instance.claim.val() == batch_value::<F>(tau, folded)
    &&& instance.holds() <==> batch_value::<F>(tau, folded) == dot::<F>(s, word)
}

/// Queries were drawn and answered with their paths and columns.
pub open spec fn item1_started<F: PrimeField, H: HashFunction>(
    start: Item1Start<F>,
    comm: QABaseCommitment<H, Vec<Vec<F>>>,
    row_challenges: Seq<int>,
    num_queries: nat,
    num_cols: int,
    challenges: Seq<int>,
    log0: Seq<Event<H::Output>>,
    log1: Seq<Event<H::Output>>,
) -> bool {
    let q = ints(start.query_indices@);
    &&& challenges.len() == num_queries
    &&& q == indices_of::<F>(challenges, num_cols)
    &&& mat(start.opened_columns@) == Seq::new(
        num_queries,
        |s: int| column(mat(comm.codeword@), q[s]),
    )
    &&& vals(start.folded_values@) == fold_columns::<F>(row_challenges, mat(start.opened_columns@))
    &&& log1 == log0 + drawn(challenges) + column_events(
        Seq::new(num_queries, |s: int| path::<H>(comm.codeword_tree@[0]@, q[s])),
        mat(start.opened_columns@),
    ) + drawn(seq![start.tau.val()])
}

/// Folds columns with one list of weights.
pub fn qabase_eval_folded_values_from_opened_columns<F: PrimeField>(
    opened_columns: &[Vec<F>],
    row_weights: &[F],
) -> (r: Vec<F>)
    requires
        rect(mat(opened_columns@), row_weights@.len()),
    ensures
        vals(r@) == fold_columns::<F>(vals(row_weights@), mat(opened_columns@)),
        r@.len() == opened_columns@.len(),
{
    let ghost m = mat(opened_columns@);
    let mut out: Vec<F> = Vec::new();
    let mut i: usize = 0;
    while i < opened_columns.len()
        invariant
            i <= opened_columns@.len(),
            m == mat(opened_columns@),
            rect(m, row_weights@.len()),
            out@.len() == i,
            forall|k: int|
                0 <= k < i ==> (#[trigger] out@[k]).val() == dot::<F>(vals(row_weights@), m[k]),
        decreases opened_columns@.len() - i,
    {
        assert(m[i as int].len() == opened_columns@[i as int]@.len());
        out.push(fold_opened_column(&opened_columns[i], row_weights));
        i = i + 1;
    }
    assert(vals(out@) =~= fold_columns::<F>(vals(row_weights@), m));
    out
}

/// Folds the queried columns of a commitment with one list of weights.
pub fn qabase_eval_folded_values_from_comm<F: PrimeField, H: HashFunction>(
    comm: &QABaseCommitment<H, Vec<Vec<F>>>,
    query_indices: &[usize],
    row_weights: &[F],
) -> (r: Vec<F>)
    requires
        comm.codeword@.len() == row_weights@.len(),
        forall|s: int, i: int|
            0 <= s < query_indices@.len() && 0 <= i < comm.codeword@.len() ==> #[trigger]
                query_indices@[s] < (#[trigger] comm.codeword@[i])@.len(),
    ensures
        vals(r@) == fold_columns::<F>(
            vals(row_weights@),
            Seq::new(
                query_indices@.len(),
                |s: int| column(mat(comm.codeword@), query_indices@[s] as int),
            ),
        ),
        r@.len() == query_indices@.len(),
{
    let ghost goal = fold_columns::<F>(
        vals(row_weights@),
        Seq::new(
            query_indices@.len(),
            |s: int| column(mat(comm.codeword@), query_indices@[s] as int),
        ),
    );
    let mut out: Vec<F> = Vec::new();
    let mut s: usize = 0;
    while s < query_indices.len()
        invariant
            s <= query_indices@.len(),
            comm.codeword@.len() == row_weights@.len(),
            forall|s: int, i: int|
                0 <= s < query_indices@.len() && 0 <= i < comm.codeword@.len() ==> #[trigger]
                    query_indices@[s] < (#[trigger] comm.codeword@[i])@.len(),
            out@.len() == s,
            forall|k: int|
                0 <= k < s ==> (#[trigger] out@[k]).val() == dot::<F>(
                    vals(row_weights@),
                    column(mat(comm.codeword@), query_indices@[k] as int),
                ),
        decreases query_indices@.len() - s,
    {
        let ghost _ = query_indices@[s as int];
        let col = read_column_of(&comm.codeword, query_indices[s]);
        out.push(fold_opened_column(&col, row_weights));
        s = s + 1;
    }
    assert(vals(out@) =~= goal);
    out
}

/// The number of columns and its exponent.
proof fn column_count<F: PrimeField>(num_vars: nat, inverse_rate: int)
    requires
        is_pow2(inverse_rate),
    ensures
        exp2(num_vars + log2(inverse_rate)) == inverse_rate * exp2(num_vars),
        exp2(log2(inverse_rate)) == inverse_rate,
{
    pow2_is_exp2(inverse_rate);
    exp2_adds(num_vars, log2(inverse_rate));
    assert(exp2(num_vars) * inverse_rate == inverse_rate * exp2(num_vars)) by (nonlinear_arith);
}

/// Draws the queries, opens the columns, folds them and states the sum-check
/// over the selector.
pub fn prove_qabase_item1_column_consistency_start<
    F: PrimeField,
    H: HashFunction,
    C,
    T: TranscriptWrite<F, H::Output>,
>(
    pp: &QABaseProverParams<F, C>,
    comm: &QABaseCommitment<H, Vec<Vec<F>>>,
    folded_witness: &QABaseFoldedWitness<F>,
    transcript: &mut T,
) -> (r: Result<Item1Start<F>, Error>)
    requires
        pp.wf(),
        commitment_wf::<F, H, Vec<Vec<F>>>(
            *comm,
            pp.num_rows as nat,
            (pp.inverse_rate * exp2(pp.num_vars as nat)) as nat,
        ),
        folded_witness.row_challenges@.len() == pp.num_rows,
        folded_witness.folded_qa_witness.codeword@.len() == pp.inverse_rate * exp2(
            pp.num_vars as nat,
        ),
        pp.inverse_rate * exp2(pp.num_vars as nat) <= usize::MAX,
    ensures
        T::infallible() ==> r is Ok,
        r matches Ok(start) ==> {
            let num_cols = pp.inverse_rate * exp2(pp.num_vars as nat);
            &&& forall|s: int|
                0 <= s < start.query_indices@.len() ==> #[trigger] start.query_indices@[s]
                    < num_cols
            &&& exists|challenges: Seq<int>| #[trigger]
                item1_started::<F, H>(
                    start,
                    *comm,
                    vals(folded_witness.row_challenges@),
                    pp.num_queries as nat,
                    num_cols,
                    challenges,
                    old(transcript).log(),
                    final(transcript).log(),
                )
            &&& selector_instance_of(
                start.instance,
                start.query_indices@,
                start.tau.val(),
                vals(folded_witness.folded_qa_witness.codeword@),
                vals(start.folded_values@),
            )
            &&& start.instance.num_vars == pp.num_vars + log2(pp.inverse_rate as int)
        },
        r matches Err(e) ==> e is Transcript,
{
    let ghost log0 = transcript.log();
    proof {
        exp2_is_pow2(pp.num_vars as nat);
        column_count::<F>(pp.num_vars as nat, pp.inverse_rate as int);
        let n = exp2(pp.num_vars as nat) as int;
        assert(n <= pp.inverse_rate * n && pp.inverse_rate * n > 0) by (nonlinear_arith)
            requires
                pp.inverse_rate >= 2,
                n > 0,
        ;
    }
    let block_len: usize = power_of_two(pp.num_vars);
    let num_cols: usize = pp.inverse_rate * block_len;
    let challenges = squeeze_challenges::<F, H::Output, T>(transcript, pp.num_queries);
    let ghost ch = vals(challenges@);
    let query_indices = field_challenges_to_indices(&challenges, num_cols);
    let ghost q = ints(query_indices@);
    proof {
        assert(q.len() == query_indices@.len());
        assert(ch.len() == pp.num_queries);
    }
    let opened_columns = match write_queries::<F, H, Vec<Vec<F>>, T>(
        comm,
        pp.num_rows,
        num_cols,
        &query_indices,
        transcript,
    ) {
        Ok(cols) => cols,
        Err(e) => {
            return Err(e);
        },
    };
    let folded_values = qabase_eval_folded_values_from_opened_columns(
        &opened_columns,
        &folded_witness.row_challenges,
    );
    let tau = transcript.squeeze_challenge();
    let claim = qabase_weighted_folded_sum(&folded_values, tau);
    let selector = qabase_selector_evals_from_queries(num_cols, &query_indices, tau);
    let total_vars: usize = log2_power_of_two(num_cols);
    proof {
        exp2_is_pow2(pp.num_vars as nat + log2(pp.inverse_rate as int));
    }
    let instance = selector_instance(
        selector,
        copied(&folded_witness.folded_qa_witness.codeword),
        total_vars,
        claim,
    );
    let start = Item1Start { query_indices, folded_values, opened_columns, tau, instance };
    proof {
        assert(drawn::<H::Output>(seq![tau.val()]) =~= seq![Event::Challenge(tau.val())]);
        let enc = residues::<F>(comm.codeword.encoded());
        assert(enc =~= mat(comm.codeword@));
        let paths = Seq::new(
            pp.num_queries as nat,
            |s: int| path::<H>(comm.codeword_tree@[0]@, q[s]),
        );
        assert(paths =~= Seq::new(
            query_indices@.len(),
            |s: int| path::<H>(comm.codeword_tree@[0]@, query_indices@[s] as int),
        ));
        assert(mat(opened_columns@) =~= Seq::new(
            pp.num_queries as nat,
            |s: int| column(mat(comm.codeword@), q[s]),
        ));
        assert(transcript.log() =~= log0 + drawn(ch) + column_events(
            paths,
            mat(opened_columns@),
        ) + drawn(seq![tau.val()]));
        assert(item1_started::<F, H>(
            start,
            *comm,
            vals(folded_witness.row_challenges@),
            pp.num_queries as nat,
            num_cols as int,
            ch,
            old(transcript).log(),
            transcript.log(),
        ));
    }
    Ok(start)
}

/// What the check of sampled columns ends in.
pub struct ColumnsEnd<F> {
    pub sc_point: Vec<F>,
    pub selector_eval_at_sc_point: F,
    pub word_eval_at_sc_point: F,
    pub block_evals_at_sc_point: Vec<F>,
}

/// Takes the answer of the selector sum-check, writes the value of the codeword
/// and those of its blocks, and adds the claims about the blocks.
fn columns_finish<F: PrimeField, O, T: TranscriptWrite<F, O>>(
    points: &mut Vec<Vec<F>>,
    evals: &mut Vec<Evaluation<F>>,
    layout: QABaseEvalAuxLayout,
    num_vars: usize,
    codeword: &[F],
    sc_point: Vec<F>,
    terminal_evals: &[F],
    transcript: &mut T,
) -> (r: Result<ColumnsEnd<F>, Error>)
    requires
        layout.wf(),
        is_pow2(layout.rho as int),
        sc_point@.len() == num_vars + log2(layout.rho as int),
        codeword@.len() == layout.rho * exp2(num_vars as nat),
        terminal_evals@.len() == 2,
        terminal_evals@[1].val() == mle::<F>(vals(codeword@), vals(sc_point@)),
    ensures
        T::infallible() ==> r is Ok,
        r matches Err(e) ==> e is Transcript,
        r matches Ok(end) ==> {
            let local = vals(sc_point@).take(num_vars as int);
            let values = block_values::<F>(vals(codeword@), layout.rho as nat, local);
            &&& end.sc_point == sc_point
            &&& end.selector_eval_at_sc_point == terminal_evals@[0]
            &&& end.word_eval_at_sc_point == terminal_evals@[1]
            &&& vals(end.block_evals_at_sc_point@) == values
            &&& claim_set(final(points)@, final(evals)@) == claim_set(
                old(points)@,
                old(evals)@,
            ).append_claims(block_claims(layout, local, values))
            &&& final(transcript).log() == old(transcript).log().push(
                Event::Field(terminal_evals@[1].val()),
            ) + sent_fields(values)
        },
{
    let ghost z = vals(sc_point@);
    let ghost local = z.take(num_vars as int);
    let ghost word = vals(codeword@);
    let ghost rho = layout.rho as nat;
    let ghost n = exp2(num_vars as nat);
    let total: usize = codeword.len();
    match transcript.write_field_element(terminal_evals[1]) {
        Ok(_) => {},
        Err(e) => {
            return Err(e);
        },
    }
    let local_point = copied(vstd::slice::slice_subrange(&sc_point, 0, num_vars));
    proof {
        assert(vals(local_point@) =~= local);
        assert(n <= rho * n) by (nonlinear_arith)
            requires
                rho >= 2,
        ;
    }
    let block_len: usize = power_of_two(num_vars);
    let ghost goal = block_values::<F>(word, rho, local);
    let mut values: Vec<F> = Vec::new();
    let mut b: usize = 0;
    while b < layout.rho
        invariant
            b <= layout.rho,
            rho == layout.rho,
            block_len == n,
            n == exp2(num_vars as nat),
            local.len() == num_vars,
            local_point@.len() == num_vars,
            vals(local_point@) == local,
            word == vals(codeword@),
            codeword@.len() == layout.rho * n,
            total == codeword@.len(),
            goal == block_values::<F>(word, rho, local),
            values@.len() == b,
            vals(values@) == goal.take(b as int),
        decreases layout.rho - b,
    {
        proof {
            row_bounds(b as int, rho, n);
        }
        let block = qa_codeword_block(codeword, block_len, b);
        proof {
            assert(vals(block@) =~= rows_of(word, rho, n)[b as int]);
            assert(block@.len() == n);
        }
        let value = eval_mle_from_evals(block, &local_point);
        proof {
            vals_push(values@, value);
            assert(goal.take(b as int + 1) =~= goal.take(b as int).push(goal[b as int]));
        }
        values.push(value);
        b = b + 1;
    }
    assert(goal.take(b as int) =~= goal);
    match write_field_elements(transcript, &values) {
        Ok(_) => {},
        Err(e) => {
            return Err(e);
        },
    }
    append_block_claims(points, evals, layout, &local_point, &values);
    Ok(
        ColumnsEnd {
            sc_point,
            selector_eval_at_sc_point: terminal_evals[0],
            word_eval_at_sc_point: terminal_evals[1],
            block_evals_at_sc_point: values,
        },
    )
}

/// What the verifier finds at the end of the check of sampled columns.
pub open spec fn columns_checked<F: PrimeField>(
    layout: QABaseEvalAuxLayout,
    num_vars: nat,
    terminal: int,
    end: ColumnsEnd<F>,
    ok: bool,
) -> bool {
    let z = vals(end.sc_point@);
    ok == ({
        &&& terminal == fmul::<F>(
            end.selector_eval_at_sc_point.val(),
            end.word_eval_at_sc_point.val(),
        )
        &&& end.word_eval_at_sc_point.val() == dot::<F>(
            eq_evals::<F>(z.skip(num_vars as int)),
            vals(end.block_evals_at_sc_point@),
        )
    })
}

/// Reads the value of the codeword and those of its blocks, holds the end of the
/// selector sum-check and the decomposition to them, and adds the claims.
fn columns_verify<F: PrimeField, O, T: TranscriptRead<F, O>>(
    points: &mut Vec<Vec<F>>,
    evals: &mut Vec<Evaluation<F>>,
    layout: QABaseEvalAuxLayout,
    num_vars: usize,
    query_indices: &[usize],
    tau: F,
    terminal_eval: F,
    sc_point: Vec<F>,
    transcript: &mut T,
) -> (r: Result<(bool, ColumnsEnd<F>), Error>)
    requires
        layout.wf(),
        is_pow2(layout.rho as int),
        sc_point@.len() == num_vars + log2(layout.rho as int),
        layout.rho * exp2(num_vars as nat) <= usize::MAX,
        forall|s: int|
            0 <= s < query_indices@.len() ==> #[trigger] query_indices@[s] < layout.rho * exp2(
                num_vars as nat,
            ),
    ensures
        final(transcript).held() == old(transcript).held(),
        r matches Err(e) ==> cut_within(
            e,
            old(transcript).log(),
            final(transcript).log(),
            1 + layout.rho as nat,
            0,
        ),
        r matches Ok(result) ==> {
            let end = result.1;
            let z = vals(sc_point@);
            let local = z.take(num_vars as int);
            let values = vals(end.block_evals_at_sc_point@);
            &&& columns_checked(layout, num_vars as nat, terminal_eval.val(), end, result.0)
            &&& end.sc_point == sc_point
            &&& end.selector_eval_at_sc_point.val() == mle::<F>(
                selector_of::<F>(
                    ints(query_indices@),
                    tau.val(),
                    (layout.rho * exp2(num_vars as nat)) as nat,
                ),
                z,
            )
            &&& values.len() == layout.rho
            &&& claim_set(final(points)@, final(evals)@) == claim_set(
                old(points)@,
                old(evals)@,
            ).append_claims(block_claims(layout, local, values))
            &&& final(transcript).log() == old(transcript).log().push(
                Event::Field(end.word_eval_at_sc_point.val()),
            ) + sent_fields(values)
        },
{
    let ghost z = vals(sc_point@);
    proof {
        column_count::<F>(num_vars as nat, layout.rho as int);
        exp2_is_pow2(num_vars as nat);
        let n = exp2(num_vars as nat) as int;
        assert(n <= layout.rho * n) by (nonlinear_arith)
            requires
                layout.rho >= 2,
                n > 0,
        ;
    }
    let block_len: usize = power_of_two(num_vars);
    let num_cols: usize = layout.rho * block_len;
    let ghost log0 = transcript.log();
    let ghost rho = layout.rho as nat;
    let word_eval = match transcript.read_field_element() {
        Ok(x) => x,
        Err(e) => {
            proof {
                assert(went(log0, log0, 0, 0));
                cut_single::<O>(e, log0, 0, arbitrary());
                cut_later(e, log0, log0, transcript.log(), 0, 0, 1, 0, 1 + rho, 0);
            }
            return Err(e);
        },
    };
    let ghost log1 = transcript.log();
    let selector_eval = qabase_selector_eval_from_queries(num_cols, query_indices, tau, &sc_point);
    let ok_sumcheck: bool = terminal_eval.equals(selector_eval.times(word_eval));
    let values = match read_field_elements(transcript, layout.rho) {
        Ok(values) => values,
        Err(e) => {
            proof {
                cut_single::<O>(e, log0, word_eval.val(), arbitrary());
                cut_later(e, log0, log1, transcript.log(), 1, 0, rho, 0, 1 + rho, 0);
            }
            return Err(e);
        },
    };
    let local_point = copied(vstd::slice::slice_subrange(&sc_point, 0, num_vars));
    let block_point = copied(vstd::slice::slice_subrange(&sc_point, num_vars, sc_point.len()));
    proof {
        assert(vals(local_point@) =~= z.take(num_vars as int));
        assert(vals(block_point@) =~= z.skip(num_vars as int));
    }
    let weights = equality_mle_evals_on_hypercube(&block_point);
    assert(vals(weights@).len() == weights@.len());
    let recomposed = inner_product(&weights, &values);
    append_block_claims(points, evals, layout, &local_point, &values);
    let ok: bool = ok_sumcheck && recomposed.equals(word_eval);
    Ok(
        (
            ok,
            ColumnsEnd {
                sc_point,
                selector_eval_at_sc_point: selector_eval,
                word_eval_at_sc_point: word_eval,
                block_evals_at_sc_point: values,
            },
        ),
    )
}

/// The prover's result of the check of the columns against the folded row.
pub struct QABaseItem1ProverOutput<F> {
    pub query_indices: Vec<usize>,
    pub folded_values: Vec<F>,
    pub opened_columns: Vec<Vec<F>>,
    pub tau: F,
    pub sc_point: Vec<F>,
    pub selector_eval_at_sc_point: F,
    pub u_eval_at_sc_point: F,
    pub u_block_evals_at_sc_point: Vec<F>,
}

/// Takes the answer of the selector sum-check over the folded codeword, writes
/// its value and those of its blocks, and adds the claims about them.
pub fn prove_qabase_item1_column_consistency_finish<F: PrimeField, O, T: TranscriptWrite<F, O>>(
    points: &mut Vec<Vec<F>>,
    evals: &mut Vec<Evaluation<F>>,
    layout: QABaseEvalAuxLayout,
    num_vars: usize,
    start: Item1Start<F>,
    folded_witness: &QABaseFoldedWitness<F>,
    sc_point: Vec<F>,
    terminal_evals: &[F],
    transcript: &mut T,
) -> (r: Result<QABaseItem1ProverOutput<F>, Error>)
    requires
        layout.wf(),
        is_pow2(layout.rho as int),
        sc_point@.len() == num_vars + log2(layout.rho as int),
        folded_witness.folded_qa_witness.codeword@.len() == layout.rho * exp2(num_vars as nat),
        selector_instance_of(
            start.instance,
            start.query_indices@,
            start.tau.val(),
            vals(folded_witness.folded_qa_witness.codeword@),
            vals(start.folded_values@),
        ),
        vals(terminal_evals@) == values_at::<F>(
            mat(start.instance.polys@),
            vals(sc_point@),
        ),
    ensures
        T::infallible() ==> r is Ok,
        r matches Err(e) ==> e is Transcript,
        r matches Ok(out) ==> {
            let word = vals(folded_witness.folded_qa_witness.codeword@);
            let z = vals(sc_point@);
            let local = z.take(num_vars as int);
            let values = block_values::<F>(word, layout.rho as nat, local);
            &&& out.query_indices == start.query_indices
            &&& out.folded_values == start.folded_values
            &&& out.opened_columns == start.opened_columns
            &&& out.tau == start.tau
            &&& out.sc_point == sc_point
            &&& out.selector_eval_at_sc_point.val() == mle::<F>(
                selector_of::<F>(ints(start.query_indices@), start.tau.val(), word.len()),
                z,
            )
            &&& out.u_eval_at_sc_point.val() == mle::<F>(word, z)
            &&& vals(out.u_block_evals_at_sc_point@) == values
            &&& claim_set(final(points)@, final(evals)@) == claim_set(
                old(points)@,
                old(evals)@,
            ).append_claims(block_claims(layout, local, values))
            &&& final(transcript).log() == old(transcript).log().push(
                Event::Field(mle::<F>(word, z)),
            ) + sent_fields(values)
        },
{
    proof {
        answers_of_selector(
            start.instance,
            start.query_indices@,
            start.tau.val(),
            vals(folded_witness.folded_qa_witness.codeword@),
            vals(sc_point@),
            terminal_evals@,
        );
    }
    match columns_finish(
        points,
        evals,
        layout,
        num_vars,
        &folded_witness.folded_qa_witness.codeword,
        sc_point,
        terminal_evals,
        transcript,
    ) {
        Ok(end) => Ok(
            QABaseItem1ProverOutput {
                query_indices: start.query_indices,
                folded_values: start.folded_values,
                opened_columns: start.opened_columns,
                tau: start.tau,
                sc_point: end.sc_point,
                selector_eval_at_sc_point: end.selector_eval_at_sc_point,
                u_eval_at_sc_point: end.word_eval_at_sc_point,
                u_block_evals_at_sc_point: end.block_evals_at_sc_point,
            },
        ),
        Err(e) => Err(e),
    }
}

/// The answers of a selector sum-check are the values of selector and codeword.
proof fn answers_of_selector<F: PrimeField>(
    instance: SumcheckInstance<F>,
    queries: Seq<usize>,
    tau: int,
    word: Seq<int>,
    z: Seq<int>,
    answers: Seq<F>,
)
    requires
        mat(instance.polys@) == seq![selector_of::<F>(ints(queries), tau, word.len()), word],
        vals(answers) == values_at::<F>(mat(instance.polys@), z),
    ensures
        answers.len() == 2,
        answers[0].val() == mle::<F>(selector_of::<F>(ints(queries), tau, word.len()), z),
        answers[1].val() == mle::<F>(word, z),
{
    let v = values_at::<F>(mat(instance.polys@), z);
    assert(vals(answers).len() == answers.len());
    assert(v.len() == 2);
    assert(vals(answers)[0] == answers[0].val());
    assert(vals(answers)[1] == answers[1].val());
}

/// The prover's result of the check of the columns against the row that the
/// point selects.
pub struct QABaseEvalColumnConsistencyProverOutput<F> {
    pub query_indices: Vec<usize>,
    pub eval_folded_values: Vec<F>,
    pub tau: F,
    pub sc_point: Vec<F>,
    pub selector_eval_at_sc_point: F,
    pub q_eval_at_sc_point: F,
    pub q_block_evals_at_sc_point: Vec<F>,
}

/// States the sum-check over the selector for the row that the point selects,
/// with queries that were opened already.
pub fn prove_qabase_eval_column_consistency_start<F: PrimeField, C>(
    pp: &QABaseProverParams<F, C>,
    query_indices: &[usize],
    eval_folded_values: &[F],
    tau: F,
    eval_witness: &QABaseEvalWitness<F>,
) -> (r: SumcheckInstance<F>)
    requires
        pp.wf(),
        query_indices@.len() == eval_folded_values@.len(),
        eval_witness.eval_qa_witness.codeword@.len() == pp.inverse_rate * exp2(
            pp.num_vars as nat,
        ),
        forall|s: int|
            0 <= s < query_indices@.len() ==> #[trigger] query_indices@[s] < pp.inverse_rate * exp2(
                pp.num_vars as nat,
            ),
    ensures
        selector_instance_of(
            r,
            query_indices@,
            tau.val(),
            vals(eval_witness.eval_qa_witness.codeword@),
            vals(eval_folded_values@),
        ),
        r.num_vars == pp.num_vars + log2(pp.inverse_rate as int),
{
    let num_cols: usize = eval_witness.eval_qa_witness.codeword.len();
    proof {
        column_count::<F>(pp.num_vars as nat, pp.inverse_rate as int);
        exp2_is_pow2(pp.num_vars as nat + log2(pp.inverse_rate as int));
    }
    let claim = qabase_weighted_folded_sum(eval_folded_values, tau);
    let selector = qabase_selector_evals_from_queries(num_cols, query_indices, tau);
    let total_vars: usize = log2_power_of_two(num_cols);
    selector_instance(
        selector,
        copied(&eval_witness.eval_qa_witness.codeword),
        total_vars,
        claim,
    )
}

/// Takes the answer of the selector sum-check over the codeword of the row that
/// the point selects, writes its value and those of its blocks, and adds the
/// claims about them.
pub fn prove_qabase_eval_column_consistency_finish<F: PrimeField, O, T: TranscriptWrite<F, O>>(
    points: &mut Vec<Vec<F>>,
    evals: &mut Vec<Evaluation<F>>,
    layout: QABaseEvalAuxLayout,
    num_vars: usize,
    query_indices: Vec<usize>,
    eval_folded_values: Vec<F>,
    tau: F,
    instance: &SumcheckInstance<F>,
    eval_witness: &QABaseEvalWitness<F>,
    sc_point: Vec<F>,
    terminal_evals: &[F],
    transcript: &mut T,
) -> (r: Result<QABaseEvalColumnConsistencyProverOutput<F>, Error>)
    requires
        layout.wf(),
        is_pow2(layout.rho as int),
        sc_point@.len() == num_vars + log2(layout.rho as int),
        eval_witness.eval_qa_witness.codeword@.len() == layout.rho * exp2(num_vars as nat),
        selector_instance_of(
            *instance,
            query_indices@,
            tau.val(),
            vals(eval_witness.eval_qa_witness.codeword@),
            vals(eval_folded_values@),
        ),
        vals(terminal_evals@) == values_at::<F>(mat(instance.polys@), vals(sc_point@)),
    ensures
        T::infallible() ==> r is Ok,
        r matches Err(e) ==> e is Transcript,
        r matches Ok(out) ==> {
            let word = vals(eval_witness.eval_qa_witness.codeword@);
            let z = vals(sc_point@);
            let local = z.take(num_vars as int);
            let values = block_values::<F>(word, layout.rho as nat, local);
            &&& out.query_indices == query_indices
            &&& out.eval_folded_values == eval_folded_values
            &&& out.tau == tau
            &&& out.sc_point == sc_point
            &&& out.selector_eval_at_sc_point.val() == mle::<F>(
                selector_of::<F>(ints(query_indices@), tau.val(), word.len()),
                z,
            )
            &&& out.q_eval_at_sc_point.val() == mle::<F>(word, z)
            &&& vals(out.q_block_evals_at_sc_point@) == values
            &&& claim_set(final(points)@, final(evals)@) == claim_set(
                old(points)@,
                old(evals)@,
            ).append_claims(block_claims(layout, local, values))
            &&& final(transcript).log() == old(transcript).log().push(
                Event::Field(mle::<F>(word, z)),
            ) + sent_fields(values)
        },
{
    proof {
        answers_of_selector(
            *instance,
            query_indices@,
            tau.val(),
            vals(eval_witness.eval_qa_witness.codeword@),
            vals(sc_point@),
            terminal_evals@,
        );
    }
    match columns_finish(
        points,
        evals,
        layout,
        num_vars,
        &eval_witness.eval_qa_witness.codeword,
        sc_point,
        terminal_evals,
        transcript,
    ) {
        Ok(end) => Ok(
            QABaseEvalColumnConsistencyProverOutput {
                query_indices,
                eval_folded_values,
                tau,
                sc_point: end.sc_point,
                selector_eval_at_sc_point: end.selector_eval_at_sc_point,
                q_eval_at_sc_point: end.word_eval_at_sc_point,
                q_block_evals_at_sc_point: end.block_evals_at_sc_point,
            },
        ),
        Err(e) => Err(e),
    }
}

/// The verifier's state before the sum-check over the selector.
pub struct Item1VerifierStart<F> {
    pub query_indices: Vec<usize>,
    pub folded_values: Vec<F>,
    pub opened_columns: Vec<Vec<F>>,
    pub tau: F,
    pub claimed_sum: F,
}

/// All challenges were drawn and `k` columns read with their paths.
pub open spec fn queries_read<O>(
    d: QueriesRead<O>,
    num_queries: nat,
    k: nat,
    num_rows: nat,
    depth: nat,
    log0: Seq<Event<O>>,
    log1: Seq<Event<O>>,
) -> bool {
    &&& d.challenges.len() == num_queries
    &&& d.paths.len() == k
    &&& d.cols.len() == k
    &&& rect(d.cols, num_rows)
    &&& forall|s: int| 0 <= s < k ==> (#[trigger] d.paths[s]).len() == depth
    &&& log1 == log0 + drawn(d.challenges) + column_events(d.paths, d.cols)
}

/// How many messages the columns and paths are.
pub proof fn queries_read_went<O>(
    d: QueriesRead<O>,
    num_queries: nat,
    k: nat,
    num_rows: nat,
    depth: nat,
    log0: Seq<Event<O>>,
    log1: Seq<Event<O>>,
)
    requires
        queries_read(d, num_queries, k, num_rows, depth, log0, log1),
    ensures
        went(log0, log1, k * num_rows, k * depth),
{
    went_plain::<O>(log0, d.challenges, Seq::empty());
    column_messages(d.paths, d.cols, num_rows, depth);
    messages_concat(log0 + drawn::<O>(d.challenges), column_events(d.paths, d.cols));
}

/// How many field elements a check of columns sends behind them.
pub open spec fn selector_fields(num_vars: nat, rho: nat) -> nat {
    (num_vars + log2(rho as int)) * 3 + 1 + rho
}

/// How many messages a check of columns has behind them.
pub proof fn selector_went<F: PrimeField, O>(
    queries: Seq<int>,
    tau: int,
    claim: int,
    num_vars: nat,
    rho: nat,
    z: Seq<int>,
    selector: int,
    word: int,
    blocks: Seq<int>,
    ok: bool,
    log0: Seq<Event<O>>,
    log1: Seq<Event<O>>,
)
    requires
        selector_read::<F, O>(
            queries,
            tau,
            claim,
            num_vars,
            rho,
            z,
            selector,
            word,
            blocks,
            ok,
            log0,
            log1,
        ),
    ensures
        went(log0, log1, selector_fields(num_vars, rho), 0),
{
    let (terminal, mid) = choose|terminal: int, mid: Seq<Event<O>>|
        {
            &&& #[trigger] sumcheck_verified::<F, O>(z.len(), 2, claim, terminal, z, log0, mid)
            &&& ok == columns_fit::<F>(terminal, selector, word, blocks, z.skip(num_vars as int))
            &&& log1 == mid.push(Event::Field(word)) + sent_fields(blocks)
        };
    sumcheck_went::<F, O>(z.len(), 2, claim, terminal, z, log0, mid);
    cut_single::<O>(arbitrary(), mid, word, arbitrary());
    went_plain::<O>(mid.push(Event::Field(word)), blocks, Seq::empty());
}

/// The columns read lead to the root, and the state follows from them.
pub open spec fn item1_verified<F: PrimeField, H: HashFunction, C>(
    vp: QABaseVerifierParams<F, C>,
    root: H::Output,
    row_challenges: Seq<int>,
    start: Item1VerifierStart<F>,
    d: QueriesRead<H::Output>,
    log0: Seq<Event<H::Output>>,
    log1: Seq<Event<H::Output>>,
) -> bool {
    let num_cols = vp.inverse_rate * exp2(vp.num_vars as nat);
    &&& exists|log: Seq<Event<H::Output>>|
        #[trigger] queries_read(
            d,
            vp.num_queries as nat,
            vp.num_queries as nat,
            vp.num_rows as nat,
            log2(num_cols),
            log0,
            log,
        ) && log1 == log + drawn(seq![start.tau.val()])
    &&& columns_authentic::<F, H>(root, d, num_cols)
    &&& ints(start.query_indices@) == indices_of::<F>(d.challenges, num_cols)
    &&& mat(start.opened_columns@) == d.cols
    &&& vals(start.folded_values@) == fold_columns::<F>(row_challenges, d.cols)
    &&& start.claimed_sum.val() == batch_value::<F>(start.tau.val(), vals(start.folded_values@))
    &&& forall|s: int|
        0 <= s < start.query_indices@.len() ==> #[trigger] start.query_indices@[s] < num_cols
}

/// `k` columns were read, the last of which is the first that does not lead to the
/// root.
pub open spec fn item1_refused<F: PrimeField, H: HashFunction, C>(
    vp: QABaseVerifierParams<F, C>,
    root: H::Output,
    d: QueriesRead<H::Output>,
    k: nat,
    log0: Seq<Event<H::Output>>,
    log1: Seq<Event<H::Output>>,
) -> bool {
    let num_cols = vp.inverse_rate * exp2(vp.num_vars as nat);
    &&& k <= vp.num_queries
    &&& queries_read(
        d,
        vp.num_queries as nat,
        k,
        vp.num_rows as nat,
        log2(num_cols),
        log0,
        log1,
    )
    &&& stopped_at_last::<F, H>(root, d, num_cols)
}

/// One more column and path.
proof fn queries_read_step<O>(
    d: QueriesRead<O>,
    num_queries: nat,
    k: nat,
    num_rows: nat,
    depth: nat,
    log0: Seq<Event<O>>,
    log1: Seq<Event<O>>,
    siblings: Seq<O>,
    col: Seq<int>,
)
    requires
        queries_read(d, num_queries, k, num_rows, depth, log0, log1),
        siblings.len() == depth,
        col.len() == num_rows,
    ensures
        queries_read(
            (QueriesRead {
                challenges: d.challenges,
                paths: d.paths.push(siblings),
                cols: d.cols.push(col),
            }),
            num_queries,
            k + 1,
            num_rows,
            depth,
            log0,
            log1 + sent_commitments(siblings) + sent_fields(col),
        ),
{
    column_events_push(d.paths, d.cols, siblings, col, log0 + drawn(d.challenges));
}

/// What was read before a column that does not lead to the root.
pub struct Item1Refused<F> {
    pub query_indices: Vec<usize>,
    pub folded_values: Vec<F>,
    pub opened_columns: Vec<Vec<F>>,
}

/// The columns before the refused one were kept and folded.
pub open spec fn item1_kept<F: PrimeField, O>(
    kept: Item1Refused<F>,
    row_challenges: Seq<int>,
    num_cols: int,
    d: QueriesRead<O>,
) -> bool {
    &&& ints(kept.query_indices@) == indices_of::<F>(d.challenges, num_cols)
    &&& mat(kept.opened_columns@) == d.cols.drop_last()
    &&& vals(kept.folded_values@) == fold_columns::<F>(row_challenges, d.cols.drop_last())
}

/// Draws the queries, reads the columns, authenticates and folds them. The inner
/// error holds what was read before a column that does not lead to the root.
pub fn verify_qabase_item1_column_consistency_start<
    F: PrimeField,
    H: HashFunction,
    C,
    T: TranscriptRead<F, H::Output>,
>(
    vp: &QABaseVerifierParams<F, C>,
    root: &H::Output,
    row_challenges: &[F],
    transcript: &mut T,
) -> (r: Result<Result<Item1VerifierStart<F>, Item1Refused<F>>, Error>)
    requires
        vp.wf(),
        row_challenges@.len() == vp.num_rows,
        vp.inverse_rate * exp2(vp.num_vars as nat) <= usize::MAX,
    ensures
        final(transcript).held() == old(transcript).held(),
        r matches Err(e) ==> cut_within(
            e,
            old(transcript).log(),
            final(transcript).log(),
            (vp.num_queries as nat) * (vp.num_rows as nat),
            (vp.num_queries as nat) * log2(vp.inverse_rate * exp2(vp.num_vars as nat)),
        ),
        r matches Ok(Ok(start)) ==> exists|d: QueriesRead<H::Output>| #[trigger]
            item1_verified::<F, H, C>(
                *vp,
                *root,
                vals(row_challenges@),
                start,
                d,
                old(transcript).log(),
                final(transcript).log(),
            ),
        r matches Ok(Err(kept)) ==> exists|d: QueriesRead<H::Output>, k: nat| #[trigger]
            item1_refused::<F, H, C>(
                *vp,
                *root,
                d,
                k,
                old(transcript).log(),
                final(transcript).log(),
            ) && item1_kept(
                kept,
                vals(row_challenges@),
                vp.inverse_rate * exp2(vp.num_vars as nat),
                d,
            ),
{
    let ghost log0 = transcript.log();
    proof {
        exp2_is_pow2(vp.num_vars as nat);
        column_count::<F>(vp.num_vars as nat, vp.inverse_rate as int);
        exp2_is_pow2(vp.num_vars as nat + log2(vp.inverse_rate as int));
        let n = exp2(vp.num_vars as nat) as int;
        assert(n <= vp.inverse_rate * n && vp.inverse_rate * n > 0) by (nonlinear_arith)
            requires
                vp.inverse_rate >= 2,
                n > 0,
        ;
    }
    let block_len: usize = power_of_two(vp.num_vars);
    let num_cols: usize = vp.inverse_rate * block_len;
    let challenges = squeeze_challenges::<F, H::Output, T>(transcript, vp.num_queries);
    let ghost ch = vals(challenges@);
    let query_indices = field_challenges_to_indices(&challenges, num_cols);
    let ghost depth = log2(num_cols as int);
    let ghost mut d: QueriesRead<H::Output> = QueriesRead {
        challenges: ch,
        paths: Seq::empty(),
        cols: Seq::empty(),
    };
    let mut cols: Vec<Vec<F>> = Vec::new();
    let mut s: usize = 0;
    proof {
        assert(log0 + drawn(ch) + column_events(d.paths, d.cols) =~= log0 + drawn(ch));
        assert(mat(cols@) =~= d.cols);
        assert(ints(query_indices@).len() == query_indices@.len());
        assert(indices_of::<F>(ch, num_cols as int).len() == ch.len());
    }
    while s < query_indices.len()
        invariant
            transcript.held() == old(transcript).held(),
            s <= query_indices@.len(),
            query_indices@.len() == vp.num_queries,
            num_cols == vp.inverse_rate * exp2(vp.num_vars as nat),
            row_challenges@.len() == vp.num_rows,
            is_pow2(num_cols as int),
            depth == log2(num_cols as int),
            ints(query_indices@) == indices_of::<F>(ch, num_cols as int),
            ch.len() == vp.num_queries,
            d.challenges == ch,
            mat(cols@) == d.cols,
            cols@.len() == s,
            log0 == old(transcript).log(),
            queries_read(
                d,
                vp.num_queries as nat,
                s as nat,
                vp.num_rows as nat,
                depth,
                log0,
                transcript.log(),
            ),
            columns_authentic::<F, H>(*root, d, num_cols as int),
        decreases query_indices@.len() - s,
    {
        let ghost log1 = transcript.log();
        let ghost (k, all) = (s as nat, vp.num_queries as nat);
        let ghost n = vp.num_rows as nat;
        proof {
            queries_read_went(d, all, k, n, depth, log0, log1);
            assert(k * n + n <= all * n) by (nonlinear_arith)
                requires
                    k + 1 <= all,
            ;
            assert(k * depth + depth <= all * depth) by (nonlinear_arith)
                requires
                    k + 1 <= all,
            ;
        }
        let index: usize = query_indices[s];
        let siblings = match read_merkle_path::<F, H, T>(num_cols, transcript) {
            Ok(siblings) => siblings,
            Err(e) => {
                proof {
                    cut_later(
                        e,
                        log0,
                        log1,
                        transcript.log(),
                        k * n,
                        k * depth,
                        0,
                        depth,
                        all * n,
                        all * depth,
                    );
                }
                return Err(e);
            },
        };
        let ghost between = transcript.log();
        proof {
            went_plain::<H::Output>(log1, Seq::empty(), siblings@);
            went_on(log0, log1, between, k * n, k * depth, 0, depth);
        }
        let col = match read_field_elements::<F, H::Output, T>(transcript, vp.num_rows) {
            Ok(col) => col,
            Err(e) => {
                proof {
                    cut_later(
                        e,
                        log0,
                        between,
                        transcript.log(),
                        k * n,
                        k * depth + depth,
                        n,
                        0,
                        all * n,
                        all * depth,
                    );
                }
                return Err(e);
            },
        };
        let ghost c = vals(col@);
        let ghost next = QueriesRead {
            challenges: ch,
            paths: d.paths.push(siblings@),
            cols: d.cols.push(c),
        };
        proof {
            assert(ints(query_indices@)[s as int] == index as int);
            assert(index as int == index_of::<F>(ch[s as int], word_bytes(), num_cols as int));
            assert(c.len() == vp.num_rows);
            queries_read_step(
                d,
                vp.num_queries as nat,
                s as nat,
                vp.num_rows as nat,
                depth,
                log0,
                log1,
                siblings@,
                c,
            );
            mat_push(cols@, col);
        }
        if !verify_merkle_path_with_leaf::<H, F>(root, &col, &siblings, index) {
            proof {
                assert(next.cols[s as int] == c && next.paths[s as int] == siblings@);
                assert forall|t: int| 0 <= t < s implies climb::<H>(
                    leaf::<F, H>(#[trigger] next.cols[t]),
                    next.paths[t],
                    index_of::<F>(next.challenges[t], word_bytes(), num_cols as int),
                ) == *root by {
                    assert(next.cols[t] == d.cols[t]);
                }
                assert(item1_refused::<F, H, C>(
                    *vp,
                    *root,
                    next,
                    (s + 1) as nat,
                    log0,
                    transcript.log(),
                ));
                assert(next.cols.drop_last() =~= d.cols);
            }
            let folded_values = qabase_eval_folded_values_from_opened_columns(
                &cols,
                row_challenges,
            );
            let kept = Item1Refused { query_indices, folded_values, opened_columns: cols };
            assert(item1_kept(kept, vals(row_challenges@), num_cols as int, next));
            let r: Result<Result<Item1VerifierStart<F>, Item1Refused<F>>, Error> = Ok(Err(kept));
            assert(r->Ok_0->Err_0 == kept);
            return r;
        }
        proof {
            assert forall|t: int| 0 <= t < next.cols.len() implies climb::<H>(
                leaf::<F, H>(#[trigger] next.cols[t]),
                next.paths[t],
                index_of::<F>(next.challenges[t], word_bytes(), num_cols as int),
            ) == *root by {
                if t < s {
                    assert(next.cols[t] == d.cols[t]);
                    assert(next.paths[t] == d.paths[t]);
                }
            }
            d = next;
        }
        cols.push(col);
        s = s + 1;
    }
    let ghost log1 = transcript.log();
    let folded_values = qabase_eval_folded_values_from_opened_columns(&cols, row_challenges);
    let tau = transcript.squeeze_challenge();
    let claimed_sum = qabase_weighted_folded_sum(&folded_values, tau);
    let start = Item1VerifierStart {
        query_indices,
        folded_values,
        opened_columns: cols,
        tau,
        claimed_sum,
    };
    proof {
        assert(drawn::<H::Output>(seq![tau.val()]) =~= seq![Event::Challenge(tau.val())]);
        assert(transcript.log() =~= log1 + drawn(seq![tau.val()]));
        assert(queries_read(
            d,
            vp.num_queries as nat,
            vp.num_queries as nat,
            vp.num_rows as nat,
            depth,
            log0,
            log1,
        ));
        assert(item1_verified::<F, H, C>(
            *vp,
            *root,
            vals(row_challenges@),
            start,
            d,
            old(transcript).log(),
            transcript.log(),
        ));
    }
    let r: Result<Result<Item1VerifierStart<F>, Item1Refused<F>>, Error> = Ok(Ok(start));
    assert(r->Ok_0->Ok_0 == start);
    r
}

/// The verifier's result of the check of the columns against the folded row.
pub struct QABaseItem1VerifierOutput<F> {
    pub query_indices: Vec<usize>,
    pub folded_values: Vec<F>,
    pub opened_columns: Vec<Vec<F>>,
    pub tau: F,
    pub sc_point: Vec<F>,
    pub selector_eval_at_sc_point: F,
    pub u_eval_at_sc_point: F,
    pub u_block_evals_at_sc_point: Vec<F>,
}

/// Whether a selector sum-check ends in the product of the values, and the value
/// of the codeword is made up of those of its blocks.
pub open spec fn columns_fit<F: Residue>(
    terminal: int,
    selector: int,
    word: int,
    blocks: Seq<int>,
    block_point: Seq<int>,
) -> bool {
    &&& terminal == fmul::<F>(selector, word)
    &&& word == dot::<F>(eq_evals::<F>(block_point), blocks)
}

/// Reads the values of the folded codeword and of its blocks, adds the claims,
/// and says whether the end of the selector sum-check fits them.
pub fn verify_qabase_item1_column_consistency_finish<F: PrimeField, O, T: TranscriptRead<F, O>>(
    points: &mut Vec<Vec<F>>,
    evals: &mut Vec<Evaluation<F>>,
    layout: QABaseEvalAuxLayout,
    num_vars: usize,
    start: Item1VerifierStart<F>,
    terminal_eval: F,
    sc_point: Vec<F>,
    transcript: &mut T,
) -> (r: Result<(bool, QABaseItem1VerifierOutput<F>), Error>)
    requires
        layout.wf(),
        is_pow2(layout.rho as int),
        sc_point@.len() == num_vars + log2(layout.rho as int),
        layout.rho * exp2(num_vars as nat) <= usize::MAX,
        forall|s: int|
            0 <= s < start.query_indices@.len() ==> #[trigger] start.query_indices@[s]
                < layout.rho * exp2(num_vars as nat),
    ensures
        final(transcript).held() == old(transcript).held(),
        r matches Err(e) ==> cut_within(
            e,
            old(transcript).log(),
            final(transcript).log(),
            1 + layout.rho as nat,
            0,
        ),
        r matches Ok(result) ==> {
            let out = result.1;
            let z = vals(sc_point@);
            let values = vals(out.u_block_evals_at_sc_point@);
            &&& result.0 == columns_fit::<F>(
                terminal_eval.val(),
                out.selector_eval_at_sc_point.val(),
                out.u_eval_at_sc_point.val(),
                values,
                z.skip(num_vars as int),
            )
            &&& out.query_indices == start.query_indices
            &&& out.folded_values == start.folded_values
            &&& out.opened_columns == start.opened_columns
            &&& out.tau == start.tau
            &&& out.sc_point == sc_point
            &&& out.selector_eval_at_sc_point.val() == mle::<F>(
                selector_of::<F>(
                    ints(start.query_indices@),
                    start.tau.val(),
                    (layout.rho * exp2(num_vars as nat)) as nat,
                ),
                z,
            )
            &&& values.len() == layout.rho
            &&& claim_set(final(points)@, final(evals)@) == claim_set(
                old(points)@,
                old(evals)@,
            ).append_claims(block_claims(layout, z.take(num_vars as int), values))
            &&& final(transcript).log() == old(transcript).log().push(
                Event::Field(out.u_eval_at_sc_point.val()),
            ) + sent_fields(values)
        },
{
    match columns_verify(
        points,
        evals,
        layout,
        num_vars,
        &start.query_indices,
        start.tau,
        terminal_eval,
        sc_point,
        transcript,
    ) {
        Ok((ok, end)) => Ok(
            (
                ok,
                QABaseItem1VerifierOutput {
                    query_indices: start.query_indices,
                    folded_values: start.folded_values,
                    opened_columns: start.opened_columns,
                    tau: start.tau,
                    sc_point: end.sc_point,
                    selector_eval_at_sc_point: end.selector_eval_at_sc_point,
                    u_eval_at_sc_point: end.word_eval_at_sc_point,
                    u_block_evals_at_sc_point: end.block_evals_at_sc_point,
                },
            ),
        ),
        Err(e) => Err(e),
    }
}

/// The verifier's result of the check of the columns against the row that the
/// point selects.
pub struct QABaseEvalColumnConsistencyVerifierOutput<F> {
    pub query_indices: Vec<usize>,
    pub eval_folded_values: Vec<F>,
    pub tau: F,
    pub sc_point: Vec<F>,
    pub selector_eval_at_sc_point: F,
    pub q_eval_at_sc_point: F,
    pub q_block_evals_at_sc_point: Vec<F>,
}

/// Reads the values of the codeword of the row that the point selects and of its
/// blocks, adds the claims, and says whether the end of the selector sum-check
/// fits them.
pub fn verify_qabase_eval_column_consistency_finish<F: PrimeField, O, T: TranscriptRead<F, O>>(
    points: &mut Vec<Vec<F>>,
    evals: &mut Vec<Evaluation<F>>,
    layout: QABaseEvalAuxLayout,
    num_vars: usize,
    query_indices: Vec<usize>,
    eval_folded_values: Vec<F>,
    tau: F,
    terminal_eval: F,
    sc_point: Vec<F>,
    transcript: &mut T,
) -> (r: Result<(bool, QABaseEvalColumnConsistencyVerifierOutput<F>), Error>)
    requires
        layout.wf(),
        is_pow2(layout.rho as int),
        sc_point@.len() == num_vars + log2(layout.rho as int),
        layout.rho * exp2(num_vars as nat) <= usize::MAX,
        forall|s: int|
            0 <= s < query_indices@.len() ==> #[trigger] query_indices@[s] < layout.rho * exp2(
                num_vars as nat,
            ),
    ensures
        final(transcript).held() == old(transcript).held(),
        r matches Err(e) ==> cut_within(
            e,
            old(transcript).log(),
            final(transcript).log(),
            1 + layout.rho as nat,
            0,
        ),
        r matches Ok(result) ==> {
            let out = result.1;
            let z = vals(sc_point@);
            let values = vals(out.q_block_evals_at_sc_point@);
            &&& result.0 == columns_fit::<F>(
                terminal_eval.val(),
                out.selector_eval_at_sc_point.val(),
                out.q_eval_at_sc_point.val(),
                values,
                z.skip(num_vars as int),
            )
            &&& out.query_indices == query_indices
            &&& out.eval_folded_values == eval_folded_values
            &&& out.tau == tau
            &&& out.sc_point == sc_point
            &&& out.selector_eval_at_sc_point.val() == mle::<F>(
                selector_of::<F>(
                    ints(query_indices@),
                    tau.val(),
                    (layout.rho * exp2(num_vars as nat)) as nat,
                ),
                z,
            )
            &&& values.len() == layout.rho
            &&& claim_set(final(points)@, final(evals)@) == claim_set(
                old(points)@,
                old(evals)@,
            ).append_claims(block_claims(layout, z.take(num_vars as int), values))
            &&& final(transcript).log() == old(transcript).log().push(
                Event::Field(out.q_eval_at_sc_point.val()),
            ) + sent_fields(values)
        },
{
    match columns_verify(
        points,
        evals,
        layout,
        num_vars,
        &query_indices,
        tau,
        terminal_eval,
        sc_point,
        transcript,
    ) {
        Ok((ok, end)) => Ok(
            (
                ok,
                QABaseEvalColumnConsistencyVerifierOutput {
                    query_indices,
                    eval_folded_values,
                    tau,
                    sc_point: end.sc_point,
                    selector_eval_at_sc_point: end.selector_eval_at_sc_point,
                    q_eval_at_sc_point: end.word_eval_at_sc_point,
                    q_block_evals_at_sc_point: end.block_evals_at_sc_point,
                },
            ),
        ),
        Err(e) => Err(e),
    }
}

/// The check that the verifier makes at the end of a column check passes for an
/// honest prover.
pub proof fn honest_columns_are_accepted<F: Residue>(
    selector: Seq<int>,
    word: Seq<int>,
    rho: nat,
    z: Seq<int>,
    num_vars: nat,
)
    requires
        num_vars <= z.len(),
        rho == exp2((z.len() - num_vars) as nat),
        word.len() == rho * exp2(num_vars),
    ensures
        columns_fit::<F>(
            summand::<F>(selector_terms(), values_at::<F>(seq![selector, word], z)),
            mle::<F>(selector, z),
            mle::<F>(word, z),
            block_values::<F>(word, rho, z.take(num_vars as int)),
            z.skip(num_vars as int),
        ),
{
    let (local, block) = (z.take(num_vars as int), z.skip(num_vars as int));
    assert(local + block =~= z);
    honest_selector_check_is_accepted::<F>(selector, word, z);
    blocks_make_up_value::<F>(word, rho, local, block);
}

/// The claims about the blocks of a codeword are true of the blocks.
pub proof fn block_claims_are_true<F: Residue>(
    layout: QABaseEvalAuxLayout,
    msg: Seq<int>,
    e: Seq<Seq<int>>,
    local: Seq<int>,
    polys: Seq<Seq<int>>,
    b: int,
)
    requires
        layout.wf(),
        e.len() + 1 == layout.rho,
        msg.len() == exp2(local.len()),
        rect(e, msg.len()),
        forall|i: int|
            0 <= i < 2 * layout.rho ==> polys[layout.q_aux_start + i] == #[trigger]
                crate::qabase::aux_polys::<F>(msg, e)[i],
        0 <= b < layout.rho,
    ensures
        ({
            let values = block_values::<F>(encode::<F>(msg, e), layout.rho as nat, local);
            let claim = block_claims(layout, local, values)[b];
            claim.value == mle::<F>(polys[claim.poly], claim.point)
        }),
{
    let n = msg.len();
    let word = encode::<F>(msg, e);
    let rho = layout.rho as nat;
    exp2_is_pow2(local.len());
    encode_shape::<F>(msg, e);
    let blocks = rows_of(word, rho, n);
    row_bounds(b, rho, n);
    let aux = crate::qabase::aux_polys::<F>(msg, e);
    assert(polys[layout.q_aux_start + b] == aux[b]);
    if b == 0 {
        assert(blocks[0] =~= msg) by {
            assert(0 * n == 0) by (nonlinear_arith);
        }
    } else {
        crate::qa_code::encode_parity_block::<F>(msg, e, b - 1);
        assert((b - 1 + 1) * n == b * n);
    }
}

/// The steps of a check of sampled columns behind the queries: the sum-check, the
/// value of the codeword, the values of its blocks.
pub open spec fn selector_events<F: Residue, O>(
    queries: Seq<int>,
    tau: int,
    word: Seq<int>,
    num_vars: nat,
    rho: nat,
    z: Seq<int>,
) -> Seq<Event<O>> {
    run_events::<F, O>(
        selector_terms(),
        seq![selector_of::<F>(queries, tau, word.len()), word],
        2,
        z,
    ).push(Event::Field(mle::<F>(word, z))) + sent_fields(
        block_values::<F>(word, rho, z.take(num_vars as int)),
    )
}

/// What a run of the prover of the column check wrote and found.
pub open spec fn item1_written<F: PrimeField, H: HashFunction, C>(
    out: QABaseItem1ProverOutput<F>,
    pp: QABaseProverParams<F, C>,
    comm: QABaseCommitment<H, Vec<Vec<F>>>,
    row_challenges: Seq<int>,
    word: Seq<int>,
    challenges: Seq<int>,
    log0: Seq<Event<H::Output>>,
    log1: Seq<Event<H::Output>>,
) -> bool {
    let q = ints(out.query_indices@);
    let z = vals(out.sc_point@);
    let rho = pp.inverse_rate as nat;
    let n = pp.num_vars as nat;
    let cols = mat(out.opened_columns@);
    &&& challenges.len() == pp.num_queries
    &&& q == indices_of::<F>(challenges, (rho * exp2(n)) as int)
    &&& cols == Seq::new(pp.num_queries as nat, |s: int| column(mat(comm.codeword@), q[s]))
    &&& vals(out.folded_values@) == fold_columns::<F>(row_challenges, cols)
    &&& z.len() == n + log2(rho as int)
    &&& out.selector_eval_at_sc_point.val() == mle::<F>(
        selector_of::<F>(q, out.tau.val(), word.len()),
        z,
    )
    &&& out.u_eval_at_sc_point.val() == mle::<F>(word, z)
    &&& vals(out.u_block_evals_at_sc_point@) == block_values::<F>(word, rho, z.take(n as int))
    &&& log1 == log0 + drawn(challenges) + column_events(
        Seq::new(pp.num_queries as nat, |s: int| path::<H>(comm.codeword_tree@[0]@, q[s])),
        cols,
    ) + drawn(seq![out.tau.val()]) + selector_events::<F, H::Output>(
        q,
        out.tau.val(),
        word,
        n,
        rho,
        z,
    )
}

/// Opens sampled columns and proves that the folded codeword agrees with them.
pub fn prove_qabase_item1_column_consistency_collect<
    F: PrimeField,
    H: HashFunction,
    C,
    T: TranscriptWrite<F, H::Output>,
>(
    points: &mut Vec<Vec<F>>,
    evals: &mut Vec<Evaluation<F>>,
    layout: QABaseEvalAuxLayout,
    pp: &QABaseProverParams<F, C>,
    comm: &QABaseCommitment<H, Vec<Vec<F>>>,
    folded_witness: &QABaseFoldedWitness<F>,
    transcript: &mut T,
) -> (r: Result<QABaseItem1ProverOutput<F>, Error>)
    requires
        pp.wf(),
        layout.wf(),
        layout.rho == pp.inverse_rate,
        commitment_wf::<F, H, Vec<Vec<F>>>(
            *comm,
            pp.num_rows as nat,
            (pp.inverse_rate * exp2(pp.num_vars as nat)) as nat,
        ),
        folded_witness.row_challenges@.len() == pp.num_rows,
        folded_witness.folded_qa_witness.codeword@.len() == pp.inverse_rate * exp2(
            pp.num_vars as nat,
        ),
        pp.inverse_rate * exp2(pp.num_vars as nat) <= usize::MAX,
    ensures
        T::infallible() ==> r is Ok,
        r matches Err(e) ==> e is Transcript,
        r matches Ok(out) ==> {
            let z = vals(out.sc_point@);
            &&& claim_set(final(points)@, final(evals)@) == claim_set(
                old(points)@,
                old(evals)@,
            ).append_claims(
                block_claims(
                    layout,
                    z.take(pp.num_vars as int),
                    vals(out.u_block_evals_at_sc_point@),
                ),
            )
            &&& forall|s: int|
                0 <= s < out.query_indices@.len() ==> #[trigger] out.query_indices@[s]
                    < pp.inverse_rate * exp2(pp.num_vars as nat)
            &&& exists|challenges: Seq<int>| #[trigger]
                item1_written::<F, H, C>(
                    out,
                    *pp,
                    *comm,
                    vals(folded_witness.row_challenges@),
                    vals(folded_witness.folded_qa_witness.codeword@),
                    challenges,
                    old(transcript).log(),
                    final(transcript).log(),
                )
        },
{
    let ghost log0 = transcript.log();
    let ghost word = vals(folded_witness.folded_qa_witness.codeword@);
    let start = match prove_qabase_item1_column_consistency_start(
        pp,
        comm,
        folded_witness,
        transcript,
    ) {
        Ok(start) => start,
        Err(e) => {
            return Err(e);
        },
    };
    let ghost begun = transcript.log();
    let ghost ch = choose|challenges: Seq<int>| #[trigger]
        item1_started::<F, H>(
            start,
            *comm,
            vals(folded_witness.row_challenges@),
            pp.num_queries as nat,
            pp.inverse_rate * exp2(pp.num_vars as nat),
            challenges,
            log0,
            begun,
        );
    let ghost (q, tau) = (ints(start.query_indices@), start.tau.val());
    proof {
        assert(ints(start.query_indices@) =~= q);
    }
    let (sc_point, answers) = match sumcheck_prove(&start.instance, transcript) {
        Ok(answer) => answer,
        Err(e) => {
            return Err(e);
        },
    };
    let ghost z = vals(sc_point@);
    let r = prove_qabase_item1_column_consistency_finish(
        points,
        evals,
        layout,
        pp.num_vars,
        start,
        folded_witness,
        sc_point,
        &answers,
        transcript,
    );
    proof {
        if r is Ok {
            let out = r->Ok_0;
            assert(transcript.log() =~= begun + selector_events::<F, H::Output>(
                q,
                tau,
                word,
                pp.num_vars as nat,
                pp.inverse_rate as nat,
                z,
            ));
            assert(item1_written::<F, H, C>(
                out,
                *pp,
                *comm,
                vals(folded_witness.row_challenges@),
                word,
                ch,
                log0,
                transcript.log(),
            ));
        }
    }
    r
}

/// What the verifier of a column check read behind the queries.
pub open spec fn selector_read<F: PrimeField, O>(
    queries: Seq<int>,
    tau: int,
    claim: int,
    num_vars: nat,
    rho: nat,
    z: Seq<int>,
    selector: int,
    word: int,
    blocks: Seq<int>,
    ok: bool,
    log0: Seq<Event<O>>,
    log1: Seq<Event<O>>,
) -> bool {
    &&& z.len() == num_vars + log2(rho as int)
    &&& blocks.len() == rho
    &&& selector == mle::<F>(selector_of::<F>(queries, tau, rho * exp2(num_vars)), z)
    &&& exists|terminal: int, mid: Seq<Event<O>>|
        {
            &&& #[trigger] sumcheck_verified::<F, O>(z.len(), 2, claim, terminal, z, log0, mid)
            &&& ok == columns_fit::<F>(terminal, selector, word, blocks, z.skip(num_vars as int))
            &&& log1 == mid.push(Event::Field(word)) + sent_fields(blocks)
        }
}

/// What a run of the verifier of the column check read and found where all
/// columns lead to the root.
pub open spec fn item1_read<F: PrimeField, H: HashFunction, C>(
    out: QABaseItem1VerifierOutput<F>,
    ok: bool,
    vp: QABaseVerifierParams<F, C>,
    root: H::Output,
    row_challenges: Seq<int>,
    d: QueriesRead<H::Output>,
    log0: Seq<Event<H::Output>>,
    log1: Seq<Event<H::Output>>,
) -> bool {
    let q = ints(out.query_indices@);
    let num_cols = vp.inverse_rate * exp2(vp.num_vars as nat);
    &&& columns_authentic::<F, H>(root, d, num_cols)
    &&& q == indices_of::<F>(d.challenges, num_cols)
    &&& mat(out.opened_columns@) == d.cols
    &&& vals(out.folded_values@) == fold_columns::<F>(row_challenges, d.cols)
    &&& exists|log: Seq<Event<H::Output>>|
        {
            &&& #[trigger] queries_read(
                d,
                vp.num_queries as nat,
                vp.num_queries as nat,
                vp.num_rows as nat,
                log2(num_cols),
                log0,
                log,
            )
            &&& selector_read::<F, H::Output>(
                q,
                out.tau.val(),
                batch_value::<F>(out.tau.val(), vals(out.folded_values@)),
                vp.num_vars as nat,
                vp.inverse_rate as nat,
                vals(out.sc_point@),
                out.selector_eval_at_sc_point.val(),
                out.u_eval_at_sc_point.val(),
                vals(out.u_block_evals_at_sc_point@),
                ok,
                log + drawn(seq![out.tau.val()]),
                log1,
            )
        }
}

/// The result of a column check with a column that does not lead to the root.
pub open spec fn item1_stopped<F: PrimeField, O>(
    out: QABaseItem1VerifierOutput<F>,
    row_challenges: Seq<int>,
    num_cols: int,
    d: QueriesRead<O>,
) -> bool {
    &&& ints(out.query_indices@) == indices_of::<F>(d.challenges, num_cols)
    &&& mat(out.opened_columns@) == d.cols.drop_last()
    &&& vals(out.folded_values@) == fold_columns::<F>(row_challenges, d.cols.drop_last())
    &&& out.tau.val() == 0
    &&& out.sc_point@.len() == 0
    &&& out.selector_eval_at_sc_point.val() == 0
    &&& out.u_eval_at_sc_point.val() == 0
    &&& out.u_block_evals_at_sc_point@.len() == 0
}

/// All columns lead to the root, and the sum-check behind them was refused.
pub open spec fn item1_sumcheck_refused<F: PrimeField, H: HashFunction, C>(
    vp: QABaseVerifierParams<F, C>,
    root: H::Output,
    row_challenges: Seq<int>,
    log0: Seq<Event<H::Output>>,
    log1: Seq<Event<H::Output>>,
) -> bool {
    exists|
        start: Item1VerifierStart<F>,
        d: QueriesRead<H::Output>,
        mid: Seq<Event<H::Output>>,
    |
        {
            &&& #[trigger] item1_verified::<F, H, C>(
                vp,
                root,
                row_challenges,
                start,
                d,
                log0,
                mid,
            )
            &&& sumcheck_refused::<F, H::Output>(
                vp.num_vars as nat + log2(vp.inverse_rate as int),
                2,
                start.claimed_sum.val(),
                mid,
                log1,
            )
        }
}

/// How many field elements the check of sampled columns sends.
pub open spec fn item1_fields<F: PrimeField, C>(vp: QABaseVerifierParams<F, C>) -> nat {
    (vp.num_queries as nat) * (vp.num_rows as nat) + selector_fields(
        vp.num_vars as nat,
        vp.inverse_rate as nat,
    )
}

/// How many digests the check of sampled columns sends.
pub open spec fn item1_digests<F: PrimeField, C>(vp: QABaseVerifierParams<F, C>) -> nat {
    (vp.num_queries as nat) * log2(vp.inverse_rate * exp2(vp.num_vars as nat))
}

/// Reads sampled columns, authenticates them and verifies that the folded
/// codeword agrees with them.
pub fn verify_qabase_item1_column_consistency_collect<
    F: PrimeField,
    H: HashFunction,
    C,
    T: TranscriptRead<F, H::Output>,
>(
    points: &mut Vec<Vec<F>>,
    evals: &mut Vec<Evaluation<F>>,
    layout: QABaseEvalAuxLayout,
    vp: &QABaseVerifierParams<F, C>,
    root: &H::Output,
    row_challenges: &[F],
    transcript: &mut T,
) -> (r: Result<(bool, QABaseItem1VerifierOutput<F>), Error>)
    requires
        vp.wf(),
        layout.wf(),
        layout.rho == vp.inverse_rate,
        row_challenges@.len() == vp.num_rows,
        vp.inverse_rate * exp2(vp.num_vars as nat) <= usize::MAX,
    ensures
        final(transcript).held() == old(transcript).held(),
        r matches Ok(result) ==> {
            ||| exists|d: QueriesRead<H::Output>|
                {
                    &&& #[trigger] item1_read::<F, H, C>(
                        result.1,
                        result.0,
                        *vp,
                        *root,
                        vals(row_challenges@),
                        d,
                        old(transcript).log(),
                        final(transcript).log(),
                    )
                    &&& claim_set(final(points)@, final(evals)@) == claim_set(
                        old(points)@,
                        old(evals)@,
                    ).append_claims(
                        block_claims(
                            layout,
                            vals(result.1.sc_point@).take(vp.num_vars as int),
                            vals(result.1.u_block_evals_at_sc_point@),
                        ),
                    )
                }
            ||| exists|d: QueriesRead<H::Output>, k: nat|
                {
                    &&& !result.0
                    &&& #[trigger] item1_refused::<F, H, C>(
                        *vp,
                        *root,
                        d,
                        k,
                        old(transcript).log(),
                        final(transcript).log(),
                    )
                    &&& item1_stopped(
                        result.1,
                        vals(row_challenges@),
                        vp.inverse_rate * exp2(vp.num_vars as nat),
                        d,
                    )
                    &&& *final(points) == *old(points)
                    &&& *final(evals) == *old(evals)
                }
        },
        r matches Ok(result) ==> forall|s: int|
            0 <= s < result.1.query_indices@.len() ==> #[trigger] result.1.query_indices@[s]
                < vp.inverse_rate * exp2(vp.num_vars as nat),
        r matches Err(e) ==> cut_within(
            e,
            old(transcript).log(),
            final(transcript).log(),
            item1_fields(*vp),
            item1_digests(*vp),
        ) || (round_error(e) && item1_sumcheck_refused::<
            F,
            H,
            C,
        >(
            *vp,
            *root,
            vals(row_challenges@),
            old(transcript).log(),
            final(transcript).log(),
        )),
{
    let ghost log0 = transcript.log();
    let ghost num_cols = vp.inverse_rate * exp2(vp.num_vars as nat);
    proof {
        column_count::<F>(vp.num_vars as nat, vp.inverse_rate as int);
        exp2_is_pow2(vp.num_vars as nat);
        assert(num_cols > 0) by (nonlinear_arith)
            requires
                vp.inverse_rate >= 2,
                exp2(vp.num_vars as nat) > 0,
                num_cols == vp.inverse_rate * exp2(vp.num_vars as nat),
        ;
    }
    let ghost q1 = (vp.num_queries as nat) * (vp.num_rows as nat);
    let ghost q2 = (vp.num_queries as nat) * log2(num_cols);
    let ghost sc = (vp.num_vars as nat + log2(vp.inverse_rate as int)) * 3;
    let ghost last = 1 + vp.inverse_rate as nat;
    let ghost (n, m) = (item1_fields(*vp), item1_digests(*vp));
    let start = match verify_qabase_item1_column_consistency_start::<F, H, C, T>(
        vp,
        root,
        row_challenges,
        transcript,
    ) {
        Ok(Ok(start)) => start,
        Ok(Err(kept)) => {
            let ghost (d, k) = choose|d: QueriesRead<H::Output>, k: nat| #[trigger]
                item1_refused::<F, H, C>(*vp, *root, d, k, log0, transcript.log()) && item1_kept(
                    kept,
                    vals(row_challenges@),
                    num_cols,
                    d,
                );
            let out = QABaseItem1VerifierOutput {
                query_indices: kept.query_indices,
                folded_values: kept.folded_values,
                opened_columns: kept.opened_columns,
                tau: F::zero(),
                sc_point: Vec::new(),
                selector_eval_at_sc_point: F::zero(),
                u_eval_at_sc_point: F::zero(),
                u_block_evals_at_sc_point: Vec::new(),
            };
            let r: Result<(bool, QABaseItem1VerifierOutput<F>), Error> = Ok((false, out));
            proof {
                indices_in_range::<F>(out.query_indices@, d.challenges, num_cols);
                assert(item1_stopped(r->Ok_0.1, vals(row_challenges@), num_cols, d));
                assert(item1_refused::<F, H, C>(
                    *vp,
                    *root,
                    d,
                    k,
                    old(transcript).log(),
                    transcript.log(),
                ));
            }
            return r;
        },
        Err(e) => {
            proof {
                assert(went(log0, log0, 0, 0));
                cut_later(e, log0, log0, transcript.log(), 0, 0, q1, q2, n, m);
            }
            return Err(e);
        },
    };
    let ghost begun = transcript.log();
    let ghost d = choose|d: QueriesRead<H::Output>| #[trigger]
        item1_verified::<F, H, C>(
            *vp,
            *root,
            vals(row_challenges@),
            start,
            d,
            log0,
            begun,
        );
    let ghost log1 = choose|log: Seq<Event<H::Output>>| #[trigger]
        queries_read(
            d,
            vp.num_queries as nat,
            vp.num_queries as nat,
            vp.num_rows as nat,
            log2(num_cols),
            log0,
            log,
        ) && begun == log + drawn(seq![start.tau.val()]);
    proof {
        queries_read_went(
            d,
            vp.num_queries as nat,
            vp.num_queries as nat,
            vp.num_rows as nat,
            log2(num_cols),
            log0,
            log1,
        );
        went_plain::<H::Output>(log1, seq![start.tau.val()], Seq::empty());
        went_on(log0, log1, begun, q1, q2, 0, 0);
    }
    let log_rho: usize = log2_power_of_two(vp.inverse_rate);
    proof {
        log_bound(vp.num_vars as nat, log2(vp.inverse_rate as int), num_cols);
    }
    let total_vars: usize = vp.num_vars + log_rho;
    let (terminal, sc_point) = match sumcheck_verify(total_vars, 2, start.claimed_sum, transcript) {
        Ok(end) => end,
        Err(e) => {
            proof {
                if cut_within(e, begun, transcript.log(), sc, 0) {
                    cut_later(e, log0, begun, transcript.log(), q1, q2, sc, 0, n, m);
                } else {
                    assert(item1_verified::<F, H, C>(
                        *vp,
                        *root,
                        vals(row_challenges@),
                        start,
                        d,
                        log0,
                        begun,
                    ));
                    assert(item1_sumcheck_refused::<F, H, C>(
                        *vp,
                        *root,
                        vals(row_challenges@),
                        log0,
                        transcript.log(),
                    ));
                }
            }
            return Err(e);
        },
    };
    let ghost mid = transcript.log();
    let ghost z = vals(sc_point@);
    let ghost (q, tau) = (ints(start.query_indices@), start.tau.val());
    let ghost claim = start.claimed_sum.val();
    proof {
        assert(ints(start.query_indices@) =~= q);
        assert(z.len() == total_vars);
        assert(sumcheck_verified::<F, H::Output>(
            z.len(),
            2,
            claim,
            terminal.val(),
            z,
            begun,
            mid,
        ));
        sumcheck_went::<F, H::Output>(z.len(), 2, claim, terminal.val(), z, begun, mid);
        went_on(log0, begun, mid, q1, q2, sc, 0);
    }
    let (ok, out) = match verify_qabase_item1_column_consistency_finish(
        points,
        evals,
        layout,
        vp.num_vars,
        start,
        terminal,
        sc_point,
        transcript,
    ) {
        Ok(result) => result,
        Err(e) => {
            proof {
                cut_later(e, log0, mid, transcript.log(), q1 + sc, q2, last, 0, n, m);
            }
            return Err(e);
        },
    };
    let r: Result<(bool, QABaseItem1VerifierOutput<F>), Error> = Ok((ok, out));
    proof {
        assert(vals(out.u_block_evals_at_sc_point@).len() == layout.rho);
        assert(selector_read::<F, H::Output>(
            q,
            tau,
            claim,
            vp.num_vars as nat,
            vp.inverse_rate as nat,
            z,
            out.selector_eval_at_sc_point.val(),
            out.u_eval_at_sc_point.val(),
            vals(out.u_block_evals_at_sc_point@),
            ok,
            begun,
            transcript.log(),
        ));
        assert(item1_read::<F, H, C>(
            r->Ok_0.1,
            r->Ok_0.0,
            *vp,
            *root,
            vals(row_challenges@),
            d,
            old(transcript).log(),
            transcript.log(),
        ));
    }
    r
}

/// Indices that challenges select are in range.
pub proof fn indices_in_range<F: PrimeField>(queries: Seq<usize>, challenges: Seq<int>, num_cols: int)
    requires
        num_cols > 0,
        ints(queries) == indices_of::<F>(challenges, num_cols),
    ensures
        forall|s: int| 0 <= s < queries.len() ==> #[trigger] queries[s] < num_cols,
{
    assert forall|s: int| 0 <= s < queries.len() implies #[trigger] queries[s] < num_cols by {
        assert(ints(queries)[s] == queries[s] as int);
        assert(ints(queries).len() == queries.len());
        assert(indices_of::<F>(challenges, num_cols).len() == challenges.len());
        assert(indices_of::<F>(challenges, num_cols)[s] == index_of::<F>(
            challenges[s],
            word_bytes(),
            num_cols,
        ));
        vstd::arithmetic::div_mod::lemma_mod_bound(
            challenges[s] % vstd::arithmetic::power::pow(
                256,
                if 8 <= F::repr_len() { 8nat } else { F::repr_len() },
            ),
            num_cols,
        );
    }
}

/// Exponents are below the numbers that they stand for.
proof fn log_bound(a: nat, b: nat, n: int)
    requires
        exp2(a + b) == n,
        n <= usize::MAX,
    ensures
        a + b <= usize::MAX,
{
    below_exp2(a + b);
}

proof fn below_exp2(k: nat)
    ensures
        k < exp2(k),
    decreases k,
{
    if k > 0 {
        below_exp2((k - 1) as nat);
    }
}

/// Proves that the codeword of the row that the point selects agrees with columns
/// that were opened already.
pub fn prove_qabase_eval_column_consistency_collect<F: PrimeField, O, C, T: TranscriptWrite<F, O>>(
    points: &mut Vec<Vec<F>>,
    evals: &mut Vec<Evaluation<F>>,
    layout: QABaseEvalAuxLayout,
    pp: &QABaseProverParams<F, C>,
    query_indices: Vec<usize>,
    eval_folded_values: Vec<F>,
    tau: F,
    eval_witness: &QABaseEvalWitness<F>,
    transcript: &mut T,
) -> (r: Result<QABaseEvalColumnConsistencyProverOutput<F>, Error>)
    requires
        pp.wf(),
        layout.wf(),
        layout.rho == pp.inverse_rate,
        query_indices@.len() == eval_folded_values@.len(),
        eval_witness.eval_qa_witness.codeword@.len() == pp.inverse_rate * exp2(
            pp.num_vars as nat,
        ),
        forall|s: int|
            0 <= s < query_indices@.len() ==> #[trigger] query_indices@[s] < pp.inverse_rate * exp2(
                pp.num_vars as nat,
            ),
    ensures
        T::infallible() ==> r is Ok,
        r matches Err(e) ==> e is Transcript,
        r matches Ok(out) ==> {
            let word = vals(eval_witness.eval_qa_witness.codeword@);
            let z = vals(out.sc_point@);
            let n = pp.num_vars as nat;
            let values = block_values::<F>(word, pp.inverse_rate as nat, z.take(n as int));
            &&& out.query_indices == query_indices
            &&& out.eval_folded_values == eval_folded_values
            &&& out.tau == tau
            &&& z.len() == n + log2(pp.inverse_rate as int)
            &&& out.selector_eval_at_sc_point.val() == mle::<F>(
                selector_of::<F>(ints(query_indices@), tau.val(), word.len()),
                z,
            )
            &&& out.q_eval_at_sc_point.val() == mle::<F>(word, z)
            &&& vals(out.q_block_evals_at_sc_point@) == values
            &&& claim_set(final(points)@, final(evals)@) == claim_set(
                old(points)@,
                old(evals)@,
            ).append_claims(block_claims(layout, z.take(n as int), values))
            &&& final(transcript).log() == old(transcript).log() + selector_events::<F, O>(
                ints(query_indices@),
                tau.val(),
                word,
                n,
                pp.inverse_rate as nat,
                z,
            )
        },
{
    let ghost log0 = transcript.log();
    let ghost word = vals(eval_witness.eval_qa_witness.codeword@);
    let ghost q = ints(query_indices@);
    let instance = prove_qabase_eval_column_consistency_start(
        pp,
        &query_indices,
        &eval_folded_values,
        tau,
        eval_witness,
    );
    let (sc_point, answers) = match sumcheck_prove(&instance, transcript) {
        Ok(answer) => answer,
        Err(e) => {
            return Err(e);
        },
    };
    let ghost z = vals(sc_point@);
    let r = prove_qabase_eval_column_consistency_finish(
        points,
        evals,
        layout,
        pp.num_vars,
        query_indices,
        eval_folded_values,
        tau,
        &instance,
        eval_witness,
        sc_point,
        &answers,
        transcript,
    );
    proof {
        if r is Ok {
            assert(transcript.log() =~= log0 + selector_events::<F, O>(
                q,
                tau.val(),
                word,
                pp.num_vars as nat,
                pp.inverse_rate as nat,
                z,
            ));
        }
    }
    r
}

/// Verifies that the codeword of the row that the point selects agrees with
/// columns that were authenticated already.
pub fn verify_qabase_eval_column_consistency_collect<F: PrimeField, O, C, T: TranscriptRead<F, O>>(
    points: &mut Vec<Vec<F>>,
    evals: &mut Vec<Evaluation<F>>,
    layout: QABaseEvalAuxLayout,
    vp: &QABaseVerifierParams<F, C>,
    query_indices: Vec<usize>,
    eval_folded_values: Vec<F>,
    tau: F,
    transcript: &mut T,
) -> (r: Result<(bool, QABaseEvalColumnConsistencyVerifierOutput<F>), Error>)
    requires
        vp.wf(),
        layout.wf(),
        layout.rho == vp.inverse_rate,
        query_indices@.len() == eval_folded_values@.len(),
        vp.inverse_rate * exp2(vp.num_vars as nat) <= usize::MAX,
        forall|s: int|
            0 <= s < query_indices@.len() ==> #[trigger] query_indices@[s] < vp.inverse_rate * exp2(
                vp.num_vars as nat,
            ),
    ensures
        final(transcript).held() == old(transcript).held(),
        r matches Ok(result) ==> {
            let out = result.1;
            let z = vals(out.sc_point@);
            &&& out.query_indices == query_indices
            &&& out.eval_folded_values == eval_folded_values
            &&& out.tau == tau
            &&& selector_read::<F, O>(
                ints(query_indices@),
                tau.val(),
                batch_value::<F>(tau.val(), vals(eval_folded_values@)),
                vp.num_vars as nat,
                vp.inverse_rate as nat,
                z,
                out.selector_eval_at_sc_point.val(),
                out.q_eval_at_sc_point.val(),
                vals(out.q_block_evals_at_sc_point@),
                result.0,
                old(transcript).log(),
                final(transcript).log(),
            )
            &&& claim_set(final(points)@, final(evals)@) == claim_set(
                old(points)@,
                old(evals)@,
            ).append_claims(
                block_claims(
                    layout,
                    z.take(vp.num_vars as int),
                    vals(out.q_block_evals_at_sc_point@),
                ),
            )
        },
        r matches Err(e) ==> cut_within(
            e,
            old(transcript).log(),
            final(transcript).log(),
            selector_fields(vp.num_vars as nat, vp.inverse_rate as nat),
            0,
        ) || (round_error(e) && sumcheck_refused::<F, O>(
            vp.num_vars as nat + log2(vp.inverse_rate as int),
            2,
            batch_value::<F>(tau.val(), vals(eval_folded_values@)),
            old(transcript).log(),
            final(transcript).log(),
        )),
{
    let ghost log0 = transcript.log();
    let ghost sc = (vp.num_vars as nat + log2(vp.inverse_rate as int)) * 3;
    let ghost all = selector_fields(vp.num_vars as nat, vp.inverse_rate as nat);
    let log_rho: usize = log2_power_of_two(vp.inverse_rate);
    proof {
        column_count::<F>(vp.num_vars as nat, vp.inverse_rate as int);
        log_bound(
            vp.num_vars as nat,
            log2(vp.inverse_rate as int),
            vp.inverse_rate * exp2(vp.num_vars as nat),
        );
    }
    let total_vars: usize = vp.num_vars + log_rho;
    let claim = qabase_weighted_folded_sum(&eval_folded_values, tau);
    let (terminal, sc_point) = match sumcheck_verify(total_vars, 2, claim, transcript) {
        Ok(end) => end,
        Err(e) => {
            proof {
                if cut_within(e, log0, transcript.log(), sc, 0) {
                    assert(went(log0, log0, 0, 0));
                    cut_later(e, log0, log0, transcript.log(), 0, 0, sc, 0, all, 0);
                }
            }
            return Err(e);
        },
    };
    let ghost mid = transcript.log();
    let ghost z = vals(sc_point@);
    proof {
        assert(z.len() == total_vars);
        assert(sumcheck_verified::<F, O>(
            z.len(),
            2,
            claim.val(),
            terminal.val(),
            z,
            log0,
            mid,
        ));
    }
    proof {
        sumcheck_went::<F, O>(z.len(), 2, claim.val(), terminal.val(), z, log0, mid);
    }
    let r = verify_qabase_eval_column_consistency_finish(
        points,
        evals,
        layout,
        vp.num_vars,
        query_indices,
        eval_folded_values,
        tau,
        terminal,
        sc_point,
        transcript,
    );
    proof {
        if r is Err {
            let last = 1 + vp.inverse_rate as nat;
            cut_later(r->Err_0, log0, mid, transcript.log(), sc, 0, last, 0, all, 0);
        }
    }
    r
}

/// What an honest prover writes about a codeword and a true claim is accepted.
pub proof fn honest_selector_run_is_accepted<F: PrimeField, O>(
    queries: Seq<int>,
    tau: int,
    word: Seq<int>,
    num_vars: nat,
    rho: nat,
    z: Seq<int>,
    log0: Seq<Event<O>>,
)
    requires
        is_pow2(rho as int),
        word.len() == rho * exp2(num_vars),
        vcanon::<F>(word),
        z.len() == num_vars + log2(rho as int),
        forall|i: int| 0 <= i < queries.len() ==> 0 <= #[trigger] queries[i] < word.len(),
    ensures
        ({
            let selector = selector_of::<F>(queries, tau, word.len());
            selector_read::<F, O>(
                queries,
                tau,
                dot::<F>(selector, word),
                num_vars,
                rho,
                z,
                mle::<F>(selector, z),
                mle::<F>(word, z),
                block_values::<F>(word, rho, z.take(num_vars as int)),
                true,
                log0,
                log0 + selector_events::<F, O>(queries, tau, word, num_vars, rho, z),
            )
        }),
{
    let selector = selector_of::<F>(queries, tau, word.len());
    let ts = selector_terms();
    let polys = seq![selector, word];
    column_count::<F>(num_vars, rho as int);
    assert(exp2(z.len()) == word.len());
    crate::brakingbase_verify::mask_canon::<F>(
        queries,
        pows::<F>(tau, queries.len()),
        word.len(),
    );
    assert(terms_fit(ts, 2, 2)) by {
        assert forall|t: int| 0 <= t < ts.len() implies {
            &&& (#[trigger] ts[t]).factors.len() <= 2
            &&& forall|i: int| 0 <= i < ts[t].factors.len() ==> #[trigger] ts[t].factors[i] < 2
        } by {}
    }
    assert forall|k: int| 0 <= k < polys.len() implies vcanon::<F>(#[trigger] polys[k])
        && polys[k].len() == word.len() by {
        assert(polys[k] == selector || polys[k] == word);
    }
    selector_cube_sum::<F>(selector, word, word.len());
    honest_run_is_accepted::<F, O>(ts, polys, 2, dot::<F>(selector, word), z, log0);
    honest_columns_are_accepted::<F>(selector, word, rho, z, num_vars);
    let values = block_values::<F>(word, rho, z.take(num_vars as int));
    let mid = log0 + run_events::<F, O>(ts, polys, 2, z);
    let terminal = summand::<F>(ts, values_at::<F>(polys, z));
    assert(sumcheck_verified::<F, O>(
        z.len(),
        2,
        dot::<F>(selector, word),
        terminal,
        z,
        log0,
        mid,
    ));
    assert(log0 + selector_events::<F, O>(queries, tau, word, num_vars, rho, z) =~= mid.push(
        Event::Field(mle::<F>(word, z)),
    ) + sent_fields(values));
}

/// The sum over the hypercube of the product of two vectors.
proof fn selector_cube_sum<F: Residue>(s: Seq<int>, w: Seq<int>, n: nat)
    requires
        s.len() == n,
        w.len() == n,
        vcanon::<F>(s),
    ensures
        cube_sum::<F>(selector_terms(), seq![s, w], n) == dot::<F>(s, w),
{
    let p = seq![s, w];
    let t = selector_terms()[0];
    assert(selector_terms() =~= Seq::empty().push(t));
    cube_sum_nil::<F>(p, n);
    cube_sum_push::<F>(Seq::empty(), t, p, n);
    let all = vmul::<F>(s, w);
    assert forall|j: int| 0 <= j < n implies term_values::<F>(t, p, n)[j] == all[j] by {
        product_small::<F>(0, 1, 0, column(p, j));
        fmul_canon::<F>(s[j], w[j]);
        f_units::<F>(all[j]);
    }
    assert(term_values::<F>(t, p, n) =~= all);
    vsum_canon::<F>(all);
    f_units::<F>(vsum::<F>(all));
}

} // verus!
