//! A multilinear commitment scheme with quasi-abelian row codes.
//!
//! The evaluations of a polynomial form a row-major matrix. Every row is
//! encoded, and the columns of the encoded matrix are the leaves of a Merkle
//! tree. An opening sends random combinations of the rows, the combination
//! that the evaluation point asks for, and sampled columns. The verifier
//! encodes the received rows itself and holds the sampled columns to them.

use crate::error::Error;
use crate::field::{
    canon, canon_consts, challenge_to_index, f_units, index_of, word_bytes, word_len, word_pow,
    PrimeField,
};
use crate::hash::{HashFunction, Output};
use crate::linear::{
    add_scaled, column, comb, comb_entry, comb_len, dot, inner_product, mat, mat_push, rect, vals,
    vals_canon, vcanon, zero_vec,
};
use crate::merkle::{
    climb, climb_own_path, column_leaves, flat_layers, flat_layers_shape, flat_path,
    flat_path_is_path, flat_path_len, hash_columns, leaf, merkelize_flat, read_column_of,
    read_flat_path, root, verify_merkle_path_with_leaf,
};
use crate::mle::{
    eq_evals, equality_mle_evals_on_hypercube, exp2, exp2_adds, exp2_is_pow2, exp2_mono, log2,
    log2_power_of_two, mle, mle_row_major, pow2_is_exp2, power_of_two,
};
use crate::qa_code::{
    copied, encode, encode_comb, encode_rows, encode_shape, is_pow2, qa_encode_codeword_only,
    row_bounds, rows_of, rows_of_shape, split_rows, QAParams,
};
use crate::qapcs_shape::{
    answers, best_at, policy_of, pow2_times, search_shape, searchable, shape_fits, QAPCSPolicy,
    QAPCSShape, QAPCSSpec,
};
use crate::transcript::{
    cut_within, digests_in, drawn, fields_in, messages_concat, messages_of_sent, messages_push,
    read_commitments, read_field_elements, sent_commitments, sent_fields, squeeze_challenges,
    write_commitments, write_field_elements, Event, FieldTranscript, TranscriptRead,
    TranscriptWrite,
};
use vstd::prelude::*;

verus! {

/// Combines the rows of a row-major matrix.
pub fn combine_message_rows<F: PrimeField>(
    evals: &[F],
    num_rows: usize,
    row_len: usize,
    coeffs: &[F],
    combined_row: &mut Vec<F>,
) -> (r: Result<(), Error>)
    ensures
        r is Ok <==> coeffs@.len() == num_rows && old(combined_row)@.len() == row_len
            && evals@.len() == num_rows * row_len,
        r is Ok ==> final(combined_row)@.len() == row_len && vals(final(combined_row)@) == comb::<
            F,
        >(vals(coeffs@), rows_of(vals(evals@), num_rows as nat, row_len as nat), row_len as nat),
        r matches Err(e) ==> e.is_param("invalid QAPCS row-combination dimensions"),
        r is Err ==> *final(combined_row) == *old(combined_row),
{
    let total: usize = evals.len();
    let fits: bool = match num_rows.checked_mul(row_len) {
        Some(size) => total == size,
        None => false,
    };
    if coeffs.len() != num_rows || combined_row.len() != row_len || !fits {
        return Err(Error::param("invalid QAPCS row-combination dimensions"));
    }
    let ghost m = rows_of(vals(evals@), num_rows as nat, row_len as nat);
    let ghost w = vals(coeffs@);
    let mut out = zero_vec::<F>(row_len);
    let mut i: usize = 0;
    let mut base: usize = 0;
    assert(m.take(0) =~= Seq::empty());
    assert(0 * row_len == 0) by (nonlinear_arith);
    while i < num_rows
        invariant
            i <= num_rows,
            base == i * row_len,
            evals@.len() == num_rows * row_len,
            evals@.len() == total,
            coeffs@.len() == num_rows,
            m == rows_of(vals(evals@), num_rows as nat, row_len as nat),
            w == vals(coeffs@),
            out@.len() == row_len,
            vals(out@) == comb::<F>(w, m.take(i as int), row_len as nat),
        decreases num_rows - i,
    {
        proof {
            row_bounds(i as int, num_rows as nat, row_len as nat);
        }
        let row = vstd::slice::slice_subrange(evals, base, base + row_len);
        proof {
            assert(vals(row@) =~= m[i as int]);
            assert(m.take(i as int + 1).drop_last() =~= m.take(i as int));
        }
        add_scaled(&mut out, coeffs[i], row);
        base = base + row_len;
        i = i + 1;
    }
    assert(m.take(i as int) =~= m);
    *combined_row = out;
    Ok(())
}

/// A row code with the query counts that go with it.
#[derive(Clone, Debug)]
pub struct QACode<F> {
    pub row_len: usize,
    pub codeword_len: usize,
    pub num_column_opening: usize,
    pub num_proximity_testing: usize,
    pub qa_params: QAParams<F>,
}

impl<F: PrimeField> QACode<F> {
    /// The coefficients fit the rows.
    pub open spec fn wf(self) -> bool {
        &&& self.qa_params.wf(self.row_len as nat)
        &&& self.codeword_len == self.qa_params.inverse_rate * self.row_len
        &&& is_pow2(self.codeword_len as int)
    }

    /// A code of a shape with given coefficients.
    pub fn from_params(shape: &QAPCSShape, qa_params: QAParams<F>) -> (r: Self)
        requires
            qa_params.wf(shape.row_len as nat),
            shape.codeword_len == qa_params.inverse_rate * shape.row_len,
            is_pow2(shape.codeword_len as int),
        ensures
            r.wf(),
            r.qa_params == qa_params,
            r.row_len == shape.row_len,
            r.num_column_opening == shape.num_column_opening,
            r.num_proximity_testing == shape.num_proximity_testing,
    {
        QACode {
            row_len: shape.row_len,
            codeword_len: shape.codeword_len,
            num_column_opening: shape.num_column_opening,
            num_proximity_testing: shape.num_proximity_testing,
            qa_params,
        }
    }

    pub fn row_len(&self) -> (r: usize)
        ensures
            r == self.row_len,
    {
        self.row_len
    }

    pub fn codeword_len(&self) -> (r: usize)
        ensures
            r == self.codeword_len,
    {
        self.codeword_len
    }

    pub fn num_column_opening(&self) -> (r: usize)
        ensures
            r == self.num_column_opening,
    {
        self.num_column_opening
    }

    pub fn num_proximity_testing(&self) -> (r: usize)
        ensures
            r == self.num_proximity_testing,
    {
        self.num_proximity_testing
    }

    pub fn qa_params(&self) -> (r: &QAParams<F>)
        ensures
            *r == self.qa_params,
    {
        &self.qa_params
    }

    /// Encodes a message into a buffer of the codeword length.
    pub fn encode_msg_into(&self, msg: &[F], target: &mut Vec<F>)
        requires
            self.wf(),
            msg@.len() == self.row_len,
            old(target)@.len() == self.codeword_len,
        ensures
            vals(final(target)@) == encode::<F>(vals(msg@), self.qa_params.coeffs()),
            final(target)@.len() == self.codeword_len,
    {
        let codeword = qa_encode_codeword_only(msg, &self.qa_params);
        proof {
            self.lemma_len(vals(msg@));
            assert(vals(codeword@).len() == codeword@.len());
        }
        *target = codeword;
    }

    pub proof fn lemma_len(self, msg: Seq<int>)
        requires
            self.wf(),
            msg.len() == self.row_len,
        ensures
            encode::<F>(msg, self.qa_params.coeffs()).len() == self.codeword_len,
            rect(self.qa_params.coeffs(), self.row_len as nat),
            self.qa_params.coeffs().len() + 1 == self.qa_params.inverse_rate,
    {
        encode_shape::<F>(msg, self.qa_params.coeffs());
    }

    /// Encodes the first `row_len` entries of a buffer in place.
    pub fn encode(&self, target: &mut Vec<F>)
        requires
            self.wf(),
            old(target)@.len() == self.codeword_len,
        ensures
            vals(final(target)@) == encode::<F>(
                vals(old(target)@).take(self.row_len as int),
                self.qa_params.coeffs(),
            ),
            final(target)@.len() == self.codeword_len,
    {
        proof {
            assert(self.row_len <= self.codeword_len) by (nonlinear_arith)
                requires
                    self.codeword_len == self.qa_params.inverse_rate * self.row_len,
                    self.qa_params.inverse_rate >= 2,
            ;
        }
        let msg = copied(vstd::slice::slice_subrange(target.as_slice(), 0, self.row_len));
        assert(vals(msg@) =~= vals(old(target)@).take(self.row_len as int));
        self.encode_msg_into(&msg, target);
    }
}

/// Parameters of the scheme.
#[derive(Clone, Debug)]
pub struct MultilinearQAPCSParams<F> {
    pub num_vars: usize,
    pub num_rows: usize,
    pub shape: QAPCSShape,
    pub qa: QACode<F>,
}

impl<F: PrimeField> MultilinearQAPCSParams<F> {
    /// The matrix holds `2^num_vars` entries in `num_rows` rows.
    pub open spec fn wf(self) -> bool {
        &&& self.qa.wf()
        &&& is_pow2(self.num_rows as int)
        &&& self.num_rows * self.qa.row_len == exp2(self.num_vars as nat)
        &&& exp2(self.num_vars as nat) <= usize::MAX
    }

    pub fn num_vars(&self) -> (r: usize)
        ensures
            r == self.num_vars,
    {
        self.num_vars
    }

    pub fn num_rows(&self) -> (r: usize)
        ensures
            r == self.num_rows,
    {
        self.num_rows
    }

    pub fn row_len(&self) -> (r: usize)
        ensures
            r == self.qa.row_len,
    {
        self.qa.row_len()
    }

    pub fn codeword_len(&self) -> (r: usize)
        ensures
            r == self.qa.codeword_len,
    {
        self.qa.codeword_len()
    }

    pub fn shape(&self) -> (r: &QAPCSShape)
        ensures
            *r == self.shape,
    {
        &self.shape
    }

    pub fn qa(&self) -> (r: &QACode<F>)
        ensures
            *r == self.qa,
    {
        &self.qa
    }

    /// The number of variables splits into row and column variables.
    pub proof fn lemma_split(self)
        requires
            self.wf(),
        ensures
            exp2(log2(self.num_rows as int)) == self.num_rows,
            exp2(log2(self.qa.row_len as int)) == self.qa.row_len,
            log2(self.num_rows as int) + log2(self.qa.row_len as int) == self.num_vars,
    {
        let a = log2(self.num_rows as int);
        let b = log2(self.qa.row_len as int);
        pow2_is_exp2(self.num_rows as int);
        pow2_is_exp2(self.qa.row_len as int);
        exp2_adds(a, b);
        exp2_is_pow2(a + b);
        exp2_is_pow2(self.num_vars as nat);
    }
}

/// A commitment: the encoded rows, the inner layers of the tree, the root.
#[derive(Clone, Debug)]
pub struct MultilinearQAPCSCommitment<F, H: HashFunction> {
    pub rows: Vec<Vec<F>>,
    pub intermediate_hashes: Vec<H::Output>,
    pub root: H::Output,
}

impl<F: PrimeField, H: HashFunction> MultilinearQAPCSCommitment<F, H> {
    /// A commitment of which only the root is known.
    pub fn from_root(root: H::Output) -> (r: Self)
        ensures
            r.root == root,
            r.rows@.len() == 0,
            r.intermediate_hashes@.len() == 0,
    {
        MultilinearQAPCSCommitment { rows: Vec::new(), intermediate_hashes: Vec::new(), root }
    }

    pub fn rows(&self) -> (r: &[Vec<F>])
        ensures
            r@ == self.rows@,
    {
        self.rows.as_slice()
    }

    pub fn intermediate_hashes(&self) -> (r: &[H::Output])
        ensures
            r@ == self.intermediate_hashes@,
    {
        self.intermediate_hashes.as_slice()
    }

    pub fn root(&self) -> (r: &H::Output)
        ensures
            *r == self.root,
    {
        &self.root
    }

    /// The commitment is the one to `evals` under `pp`.
    pub open spec fn commits_to(self, pp: MultilinearQAPCSParams<F>, evals: Seq<int>) -> bool {
        let rows = encode_rows::<F>(
            rows_of(evals, pp.num_rows as nat, pp.qa.row_len as nat),
            pp.qa.qa_params.coeffs(),
        );
        let leaves = column_leaves::<F, H>(rows, pp.qa.codeword_len as nat);
        &&& mat(self.rows@) == rows
        &&& self.intermediate_hashes@ == flat_layers::<H>(leaves).drop_last()
        &&& self.root == root::<H>(leaves)
    }
}

/// The weights of the rows and of the columns at an evaluation point: the
/// last variables index rows, the others columns.
pub fn point_to_tensor<F: PrimeField>(num_rows: usize, point: &[F]) -> (r: (Vec<F>, Vec<F>))
    requires
        is_pow2(num_rows as int),
        point@.len() >= log2(num_rows as int),
        exp2(point@.len()) <= usize::MAX,
    ensures
        vals(r.0@) == eq_evals::<F>(row_point(vals(point@), num_rows as int)),
        vals(r.1@) == eq_evals::<F>(column_point(vals(point@), num_rows as int)),
{
    let log_rows: usize = log2_power_of_two(num_rows);
    let split: usize = point.len() - log_rows;
    let column_part = vstd::slice::slice_subrange(point, 0, split);
    let row_part = vstd::slice::slice_subrange(point, split, point.len());
    proof {
        exp2_mono(column_part@.len(), point@.len());
        exp2_mono(row_part@.len(), point@.len());
        assert(vals(row_part@) =~= row_point(vals(point@), num_rows as int));
        assert(vals(column_part@) =~= column_point(vals(point@), num_rows as int));
    }
    let row_weights = equality_mle_evals_on_hypercube(row_part);
    let column_weights = equality_mle_evals_on_hypercube(column_part);
    (row_weights, column_weights)
}

/// The variables that index rows.
pub open spec fn row_point(point: Seq<int>, num_rows: int) -> Seq<int> {
    point.skip(point.len() - log2(num_rows))
}

/// The variables that index columns.
pub open spec fn column_point(point: Seq<int>, num_rows: int) -> Seq<int> {
    point.take(point.len() - log2(num_rows))
}

/// Folding the rows and then the columns evaluates the polynomial.
pub proof fn folded_evaluation<F: PrimeField>(
    evals: Seq<int>,
    num_rows: nat,
    row_len: nat,
    point: Seq<int>,
)
    requires
        is_pow2(num_rows as int),
        is_pow2(row_len as int),
        evals.len() == num_rows * row_len,
        point.len() == log2(num_rows as int) + log2(row_len as int),
    ensures
        mle::<F>(evals, point) == dot::<F>(
            comb::<F>(
                eq_evals::<F>(row_point(point, num_rows as int)),
                rows_of(evals, num_rows, row_len),
                row_len,
            ),
            eq_evals::<F>(column_point(point, num_rows as int)),
        ),
{
    let zr = row_point(point, num_rows as int);
    let zc = column_point(point, num_rows as int);
    pow2_is_exp2(num_rows as int);
    pow2_is_exp2(row_len as int);
    rows_of_shape(evals, num_rows, row_len);
    mle_row_major::<F>(rows_of(evals, num_rows, row_len), row_len, zc, zr);
    assert(zc + zr =~= point);
}

/// Draws a column index.
pub fn squeeze_challenge_idx<F: PrimeField, O, T: FieldTranscript<F, O>>(
    transcript: &mut T,
    cap: usize,
) -> (r: usize)
    requires
        cap > 0,
    ensures
        final(transcript).held() == old(transcript).held(),
        r < cap,
        exists|c: int|
            canon::<F>(c) && r as int == #[trigger] index_of::<F>(c, word_bytes(), cap as int)
                && r as int == (c % (usize::MAX + 1)) % cap as int && final(transcript).log() == old(transcript).log().push(Event::Challenge(c)),
{
    let challenge = transcript.squeeze_challenge();
    proof {
        challenge.lemma_val();
        word_pow();
    }
    challenge_to_index(challenge, word_len(), cap)
}

/// All messages and challenges of one opening.
pub struct OpeningData<O> {
    /// Coefficients of the random row combinations.
    pub coeffs: Seq<Seq<int>>,
    /// The random row combinations.
    pub rows: Seq<Seq<int>>,
    /// The row combination of the evaluation point.
    pub evaluation_row: Seq<int>,
    /// The challenges that select columns.
    pub queries: Seq<int>,
    /// The opened columns.
    pub columns: Seq<Seq<int>>,
    /// The siblings of the opened columns.
    pub paths: Seq<Seq<O>>,
}

/// The steps of the random row combinations.
pub open spec fn row_events<O>(coeffs: Seq<Seq<int>>, rows: Seq<Seq<int>>) -> Seq<Event<O>>
    decreases coeffs.len(),
{
    if coeffs.len() == 0 {
        Seq::empty()
    } else {
        row_events::<O>(coeffs.drop_last(), rows.drop_last()) + drawn(coeffs.last()) + sent_fields(
            rows.last(),
        )
    }
}

/// The steps of the column queries.
pub open spec fn query_events<O>(
    queries: Seq<int>,
    columns: Seq<Seq<int>>,
    paths: Seq<Seq<O>>,
) -> Seq<Event<O>>
    decreases queries.len(),
{
    if queries.len() == 0 {
        Seq::empty()
    } else {
        query_events(queries.drop_last(), columns.drop_last(), paths.drop_last()).push(
            Event::Challenge(queries.last()),
        ) + sent_fields(columns.last()) + sent_commitments(paths.last())
    }
}

impl<O> OpeningData<O> {
    /// The steps of the opening.
    pub open spec fn events(self) -> Seq<Event<O>> {
        row_events(self.coeffs, self.rows) + sent_fields(self.evaluation_row) + query_events(
            self.queries,
            self.columns,
            self.paths,
        )
    }

    /// The numbers of messages and their lengths are those of `pp`.
    pub open spec fn shaped<F: PrimeField>(self, pp: MultilinearQAPCSParams<F>) -> bool {
        self.shaped_to(pp, pp.qa.num_column_opening as nat)
    }

    /// The numbers of messages and their lengths are those of `pp` with `k`
    /// queries answered.
    pub open spec fn shaped_to<F: PrimeField>(self, pp: MultilinearQAPCSParams<F>, k: nat) -> bool {
        &&& self.coeffs.len() == (if pp.num_rows > 1 {
            pp.qa.num_proximity_testing as nat
        } else {
            0
        })
        &&& self.rows.len() == self.coeffs.len()
        &&& rect(self.coeffs, pp.num_rows as nat)
        &&& rect(self.rows, pp.qa.row_len as nat)
        &&& self.evaluation_row.len() == pp.qa.row_len
        &&& self.queries.len() == k
        &&& self.columns.len() == k
        &&& self.paths.len() == k
        &&& rect(self.columns, pp.num_rows as nat)
        &&& forall|q: int|
            0 <= q < k ==> (#[trigger] self.paths[q]).len() == log2(pp.qa.codeword_len as int)
    }
}

/// How many field elements an opening sends.
pub open spec fn proof_fields<F: PrimeField>(pp: MultilinearQAPCSParams<F>) -> nat {
    let tests = if pp.num_rows > 1 {
        pp.qa.num_proximity_testing as nat
    } else {
        0
    };
    tests * (pp.qa.row_len as nat) + pp.qa.row_len as nat + (pp.qa.num_column_opening as nat) * (
    pp.num_rows as nat)
}

/// How many digests an opening sends.
pub open spec fn proof_digests<F: PrimeField>(pp: MultilinearQAPCSParams<F>) -> nat {
    (pp.qa.num_column_opening as nat) * log2(pp.qa.codeword_len as int)
}

/// The messages of the random row combinations.
pub proof fn row_messages<O>(coeffs: Seq<Seq<int>>, rows: Seq<Seq<int>>, n: nat)
    requires
        rows.len() == coeffs.len(),
        rect(rows, n),
    ensures
        fields_in(row_events::<O>(coeffs, rows)).len() == coeffs.len() * n,
        digests_in(row_events::<O>(coeffs, rows)).len() == 0,
    decreases coeffs.len(),
{
    if coeffs.len() > 0 {
        let k = coeffs.len() - 1;
        let (c, r) = (coeffs.drop_last(), rows.drop_last());
        assert forall|i: int| 0 <= i < r.len() implies (#[trigger] r[i]).len() == n by {
            assert(r[i] == rows[i]);
        }
        row_messages::<O>(c, r, n);
        let front = row_events::<O>(c, r);
        messages_concat(front, drawn::<O>(coeffs.last()));
        messages_concat(front + drawn::<O>(coeffs.last()), sent_fields::<O>(rows.last()));
        messages_of_sent::<O>(coeffs.last(), Seq::empty());
        messages_of_sent::<O>(rows.last(), Seq::empty());
        assert(rows.last() == rows[k]);
        assert(k * n + n == (k + 1) * n) by (nonlinear_arith);
    } else {
        assert(0 * n == 0) by (nonlinear_arith);
    }
}

/// The messages of the column queries.
pub proof fn query_messages<O>(
    queries: Seq<int>,
    columns: Seq<Seq<int>>,
    paths: Seq<Seq<O>>,
    n: nat,
    depth: nat,
)
    requires
        columns.len() == queries.len(),
        paths.len() == queries.len(),
        rect(columns, n),
        forall|q: int| 0 <= q < paths.len() ==> (#[trigger] paths[q]).len() == depth,
    ensures
        fields_in(query_events(queries, columns, paths)).len() == queries.len() * n,
        digests_in(query_events(queries, columns, paths)).len() == queries.len() * depth,
    decreases queries.len(),
{
    if queries.len() > 0 {
        let k = queries.len() - 1;
        let (q, c, p) = (queries.drop_last(), columns.drop_last(), paths.drop_last());
        assert forall|i: int| 0 <= i < c.len() implies (#[trigger] c[i]).len() == n by {
            assert(c[i] == columns[i]);
        }
        assert forall|i: int| 0 <= i < p.len() implies (#[trigger] p[i]).len() == depth by {
            assert(p[i] == paths[i]);
        }
        query_messages(q, c, p, n, depth);
        let front = query_events(q, c, p).push(Event::Challenge(queries.last()));
        messages_push(query_events(q, c, p), Event::Challenge(queries.last()));
        messages_concat(front, sent_fields::<O>(columns.last()));
        messages_concat(front + sent_fields::<O>(columns.last()), sent_commitments(paths.last()));
        messages_of_sent::<O>(columns.last(), paths.last());
        assert(columns.last() == columns[k] && paths.last() == paths[k]);
        assert(k * n + n == (k + 1) * n) by (nonlinear_arith);
        assert(k * depth + depth == (k + 1) * depth) by (nonlinear_arith);
    } else {
        assert(0 * n == 0 && 0 * depth == 0) by (nonlinear_arith);
    }
}

/// The column that a challenge selects.
pub open spec fn query_index<F: PrimeField>(challenge: int, codeword_len: usize) -> int {
    index_of::<F>(challenge, word_bytes(), codeword_len as int)
}

/// A query is answered with the column that it selects and with its path.
pub open spec fn query_answered<F: PrimeField, H: HashFunction>(
    pp: MultilinearQAPCSParams<F>,
    comm: MultilinearQAPCSCommitment<F, H>,
    challenge: int,
    col: Seq<int>,
    siblings: Seq<H::Output>,
) -> bool {
    let index = query_index::<F>(challenge, pp.qa.codeword_len);
    &&& col == column(mat(comm.rows@), index)
    &&& siblings == flat_path(comm.intermediate_hashes@, index, pp.qa.codeword_len as int)
}

/// The messages of an honest opening.
pub open spec fn honest<F: PrimeField, H: HashFunction>(
    pp: MultilinearQAPCSParams<F>,
    evals: Seq<int>,
    comm: MultilinearQAPCSCommitment<F, H>,
    point: Seq<int>,
    d: OpeningData<H::Output>,
) -> bool {
    let m = rows_of(evals, pp.num_rows as nat, pp.qa.row_len as nat);
    let n = pp.qa.row_len as nat;
    &&& d.shaped(pp)
    &&& forall|t: int|
        0 <= t < d.coeffs.len() ==> #[trigger] d.rows[t] == comb::<F>(d.coeffs[t], m, n)
    &&& d.evaluation_row == comb::<F>(eq_evals::<F>(row_point(point, pp.num_rows as int)), m, n)
    &&& forall|q: int|
        0 <= q < d.queries.len() ==> #[trigger] query_answered::<F, H>(
            pp,
            comm,
            d.queries[q],
            d.columns[q],
            d.paths[q],
        )
}

/// `log1` extends `log0` by an honest opening.
pub open spec fn opened<F: PrimeField, H: HashFunction>(
    pp: MultilinearQAPCSParams<F>,
    evals: Seq<int>,
    comm: MultilinearQAPCSCommitment<F, H>,
    point: Seq<int>,
    log0: Seq<Event<H::Output>>,
    log1: Seq<Event<H::Output>>,
) -> bool {
    exists|d: OpeningData<H::Output>| #[trigger]
        honest::<F, H>(pp, evals, comm, point, d) && log1 == log0 + d.events()
}

/// What an opened column projects to under a combination of rows.
pub open spec fn project<F: PrimeField>(num_rows: usize, coeffs: Seq<int>, col: Seq<int>) -> int {
    if num_rows > 1 {
        dot::<F>(coeffs, col)
    } else {
        col[0]
    }
}

/// The received row, encoded, agrees with an opened column.
pub open spec fn folds_to<F: PrimeField>(
    vp: MultilinearQAPCSParams<F>,
    coeffs: Seq<int>,
    row: Seq<int>,
    col: Seq<int>,
    index: int,
) -> bool {
    project::<F>(vp.num_rows, coeffs, col) == encode::<F>(row, vp.qa.qa_params.coeffs())[index]
}

/// One query is answered consistently.
pub open spec fn query_ok<F: PrimeField, H: HashFunction>(
    vp: MultilinearQAPCSParams<F>,
    root: H::Output,
    point: Seq<int>,
    d: OpeningData<H::Output>,
    q: int,
) -> bool {
    let index = query_index::<F>(d.queries[q], vp.qa.codeword_len);
    &&& forall|t: int|
        0 <= t < d.coeffs.len() ==> folds_to::<F>(
            vp,
            #[trigger] d.coeffs[t],
            d.rows[t],
            d.columns[q],
            index,
        )
    &&& folds_to::<F>(
        vp,
        eq_evals::<F>(row_point(point, vp.num_rows as int)),
        d.evaluation_row,
        d.columns[q],
        index,
    )
    &&& climb::<H>(leaf::<F, H>(d.columns[q]), d.paths[q], index) == root
}

/// The messages that the verifier accepts.
pub open spec fn accepted<F: PrimeField, H: HashFunction>(
    vp: MultilinearQAPCSParams<F>,
    root: H::Output,
    point: Seq<int>,
    eval: int,
    d: OpeningData<H::Output>,
) -> bool {
    &&& d.shaped(vp)
    &&& dot::<F>(d.evaluation_row, eq_evals::<F>(column_point(point, vp.num_rows as int))) == eval
    &&& forall|q: int| 0 <= q < d.queries.len() ==> #[trigger] query_ok::<F, H>(
        vp,
        root,
        point,
        d,
        q,
    )
}

/// The encoded rows agree with the column of a query.
pub open spec fn query_folds<F: PrimeField, O>(
    vp: MultilinearQAPCSParams<F>,
    point: Seq<int>,
    d: OpeningData<O>,
    q: int,
) -> bool {
    let index = query_index::<F>(d.queries[q], vp.qa.codeword_len);
    &&& forall|t: int|
        0 <= t < d.coeffs.len() ==> folds_to::<F>(
            vp,
            #[trigger] d.coeffs[t],
            d.rows[t],
            d.columns[q],
            index,
        )
    &&& folds_to::<F>(
        vp,
        eq_evals::<F>(row_point(point, vp.num_rows as int)),
        d.evaluation_row,
        d.columns[q],
        index,
    )
}

/// Messages, with the answers to the first `k` queries, that the verifier
/// refuses with an error: for the claimed value before any query, or for the
/// last of the queries.
pub open spec fn refusal<F: PrimeField, H: HashFunction>(
    vp: MultilinearQAPCSParams<F>,
    root: H::Output,
    point: Seq<int>,
    eval: int,
    d: OpeningData<H::Output>,
    k: nat,
    e: Error,
) -> bool {
    &&& d.shaped_to(vp, k)
    &&& k <= vp.qa.num_column_opening
    &&& if dot::<F>(
        d.evaluation_row,
        eq_evals::<F>(column_point(point, vp.num_rows as int)),
    ) != eval {
        k == 0 && e.is_open("QAPCS evaluation consistency failure")
    } else {
        &&& k > 0
        &&& forall|q: int|
            0 <= q < k - 1 ==> #[trigger] query_ok::<F, H>(vp, root, point, d, q)
        &&& !query_ok::<F, H>(vp, root, point, d, k - 1)
        &&& if !query_folds::<F, H::Output>(vp, point, d, k - 1) {
            e.is_open("QAPCS folded-column consistency failure")
        } else {
            e.is_open("invalid QAPCS Merkle opening")
        }
    }
}

/// `log1` extends `log0` by messages that the verifier refuses with an error.
pub open spec fn refused<F: PrimeField, H: HashFunction>(
    vp: MultilinearQAPCSParams<F>,
    root: H::Output,
    point: Seq<int>,
    eval: int,
    log0: Seq<Event<H::Output>>,
    log1: Seq<Event<H::Output>>,
    e: Error,
) -> bool {
    exists|d: OpeningData<H::Output>, k: nat| #[trigger]
        refusal::<F, H>(vp, root, point, eval, d, k, e) && log1 == log0 + d.events()
}

/// `log1` extends `log0` by messages that the verifier accepts.
pub open spec fn verified<F: PrimeField, H: HashFunction>(
    vp: MultilinearQAPCSParams<F>,
    root: H::Output,
    point: Seq<int>,
    eval: int,
    log0: Seq<Event<H::Output>>,
    log1: Seq<Event<H::Output>>,
) -> bool {
    exists|d: OpeningData<H::Output>| #[trigger]
        accepted::<F, H>(vp, root, point, eval, d) && log1 == log0 + d.events()
}

/// What the verifier says of the messages from `log0` to `log1`: it accepts
/// those that are verified; it fails where the point has another size, where the
/// messages ran out, and where it refuses them.
pub open spec fn verdict<F: PrimeField, H: HashFunction>(
    vp: MultilinearQAPCSParams<F>,
    root: H::Output,
    point: Seq<int>,
    eval: int,
    log0: Seq<Event<H::Output>>,
    log1: Seq<Event<H::Output>>,
    r: Result<(), Error>,
) -> bool {
    &&& r is Ok ==> point.len() == vp.num_vars && verified::<F, H>(
        vp,
        root,
        point,
        eval,
        log0,
        log1,
    )
    &&& r matches Err(e) ==> {
        ||| point.len() != vp.num_vars
        ||| cut_within(e, log0, log1, proof_fields(vp), proof_digests(vp))
        ||| refused::<F, H>(vp, root, point, eval, log0, log1, e)
    }
}

/// An honest row combination, encoded, agrees with every honest column.
pub proof fn honest_folds<F: PrimeField, H: HashFunction>(
    pp: MultilinearQAPCSParams<F>,
    evals: Seq<int>,
    comm: MultilinearQAPCSCommitment<F, H>,
    w: Seq<int>,
    j: int,
)
    requires
        pp.wf(),
        comm.commits_to(pp, evals),
        evals.len() == exp2(pp.num_vars as nat),
        vcanon::<F>(evals),
        w.len() == pp.num_rows,
        pp.num_rows == 1 ==> w == seq![1int],
        0 <= j < pp.qa.codeword_len,
    ensures
        folds_to::<F>(
            pp,
            w,
            comb::<F>(
                w,
                rows_of(evals, pp.num_rows as nat, pp.qa.row_len as nat),
                pp.qa.row_len as nat,
            ),
            column(mat(comm.rows@), j),
            j,
        ),
{
    let n = pp.qa.row_len as nat;
    let m = rows_of(evals, pp.num_rows as nat, n);
    let e = pp.qa.qa_params.coeffs();
    rows_of_shape(evals, pp.num_rows as nat, n);
    pp.qa.lemma_len(m[0]);
    encode_comb::<F>(w, m, n, e);
    let cw = encode_rows::<F>(m, e);
    assert forall|i: int| 0 <= i < cw.len() implies (#[trigger] cw[i]).len()
        == pp.qa.codeword_len by {
        pp.qa.lemma_len(m[i]);
    }
    comb_entry::<F>(w, cw, pp.qa.codeword_len as nat, j);
    assert(w.take(cw.len() as int) =~= w);
    if pp.num_rows == 1 {
        row_bounds(0, 1, n);
        assert(m[0] =~= evals);
        assert forall|i: int| 0 <= i < n implies comb::<F>(w, m, n)[i] == m[0][i] by {
            reveal_with_fuel(comb, 2);
            assert(m.drop_last() =~= Seq::<Seq<int>>::empty());
            f_units::<F>(m[0][i]);
            canon_consts::<F>();
        }
        comb_len::<F>(w, m, n);
        assert(comb::<F>(w, m, n) =~= m[0]);
    }
}

/// What an honest prover writes for the true value of a committed polynomial
/// is accepted, whatever the challenges are.
pub proof fn honest_opening_is_accepted<F: PrimeField, H: HashFunction>(
    pp: MultilinearQAPCSParams<F>,
    evals: Seq<int>,
    comm: MultilinearQAPCSCommitment<F, H>,
    point: Seq<int>,
    log0: Seq<Event<H::Output>>,
    log1: Seq<Event<H::Output>>,
)
    requires
        pp.wf(),
        evals.len() == exp2(pp.num_vars as nat),
        vcanon::<F>(evals),
        point.len() == pp.num_vars,
        comm.commits_to(pp, evals),
        opened::<F, H>(pp, evals, comm, point, log0, log1),
    ensures
        verified::<F, H>(pp, comm.root, point, mle::<F>(evals, point), log0, log1),
{
    let d = choose|d: OpeningData<H::Output>| #[trigger]
        honest::<F, H>(pp, evals, comm, point, d) && log1 == log0 + d.events();
    let n = pp.qa.row_len as nat;
    let m = rows_of(evals, pp.num_rows as nat, n);
    let e = pp.qa.qa_params.coeffs();
    let zr = row_point(point, pp.num_rows as int);
    let wr = eq_evals::<F>(zr);
    let cw = encode_rows::<F>(m, e);
    let cl = pp.qa.codeword_len;
    let leaves = column_leaves::<F, H>(cw, cl as nat);
    pp.lemma_split();
    folded_evaluation::<F>(evals, pp.num_rows as nat, n, point);
    if pp.num_rows == 1 {
        assert(log2(1) == 0);
        assert(zr =~= Seq::empty());
        assert(wr =~= seq![1int]);
    }
    assert forall|q: int| 0 <= q < d.queries.len() implies #[trigger] query_ok::<F, H>(
        pp,
        comm.root,
        point,
        d,
        q,
    ) by {
        let j = query_index::<F>(d.queries[q], cl);
        vstd::arithmetic::div_mod::lemma_mod_bound(
            d.queries[q] % vstd::arithmetic::power::pow(
                256,
                if 8 <= F::repr_len() { 8 } else { F::repr_len() },
            ),
            cl as int,
        );
        assert(query_answered::<F, H>(pp, comm, d.queries[q], d.columns[q], d.paths[q]));
        assert(d.columns[q] == column(mat(comm.rows@), j));
        honest_folds::<F, H>(pp, evals, comm, wr, j);
        assert forall|t: int| 0 <= t < d.coeffs.len() implies folds_to::<F>(
            pp,
            #[trigger] d.coeffs[t],
            d.rows[t],
            d.columns[q],
            j,
        ) by {
            assert(d.rows[t] == comb::<F>(d.coeffs[t], m, n));
            honest_folds::<F, H>(pp, evals, comm, d.coeffs[t], j);
        }
        flat_path_is_path::<H>(leaves, j);
        climb_own_path::<H>(leaves, j);
    }
    assert(accepted::<F, H>(pp, comm.root, point, mle::<F>(evals, point), d));
}

/// Whether the prover's commitment state has the sizes that `pp` asks for.
pub open spec fn state_sized<F: PrimeField, H: HashFunction>(
    pp: MultilinearQAPCSParams<F>,
    comm: MultilinearQAPCSCommitment<F, H>,
) -> bool {
    &&& comm.rows@.len() == pp.num_rows
    &&& rect(mat(comm.rows@), pp.qa.codeword_len as nat)
    &&& comm.intermediate_hashes@.len() == 2 * pp.qa.codeword_len - 2
}

/// Checks the sizes of the prover's commitment state.
pub fn validate_qapcs_commitment_state<F: PrimeField, H: HashFunction>(
    pp: &MultilinearQAPCSParams<F>,
    comm: &MultilinearQAPCSCommitment<F, H>,
) -> (r: Result<(), Error>)
    requires
        pp.wf(),
    ensures
        r is Ok <==> state_sized::<F, H>(*pp, *comm),
        r matches Err(e) ==> e.is_param("invalid QAPCS prover commitment state"),
{
    let codeword_len: usize = pp.codeword_len();
    let mut sized: bool = comm.rows.len() == pp.num_rows && comm.intermediate_hashes.len() % 2 == 0
        && comm.intermediate_hashes.len() / 2 == codeword_len - 1;
    let mut i: usize = 0;
    while i < comm.rows.len()
        invariant
            i <= comm.rows@.len(),
            codeword_len == pp.qa.codeword_len,
            sized == (comm.rows@.len() == pp.num_rows && comm.intermediate_hashes@.len() == 2
                * codeword_len - 2 && forall|k: int|
                0 <= k < i ==> (#[trigger] mat(comm.rows@)[k]).len() == codeword_len),
        decreases comm.rows@.len() - i,
    {
        assert(mat(comm.rows@)[i as int].len() == comm.rows@[i as int]@.len());
        sized = sized && comm.rows[i].len() == codeword_len;
        i = i + 1;
    }
    if sized {
        Ok(())
    } else {
        Err(Error::param("invalid QAPCS prover commitment state"))
    }
}

/// The sizes of an opening request fit the parameters.
pub open spec fn request_sized<F: PrimeField, H: HashFunction>(
    pp: MultilinearQAPCSParams<F>,
    evals_len: nat,
    comm: MultilinearQAPCSCommitment<F, H>,
    point_len: nat,
) -> bool {
    &&& evals_len == exp2(pp.num_vars as nat)
    &&& point_len == pp.num_vars
    &&& state_sized::<F, H>(pp, comm)
}

/// One more random row combination.
proof fn row_events_push<O>(
    coeffs: Seq<Seq<int>>,
    rows: Seq<Seq<int>>,
    c: Seq<int>,
    row: Seq<int>,
    log0: Seq<Event<O>>,
)
    requires
        coeffs.len() == rows.len(),
    ensures
        log0 + row_events(coeffs, rows) + drawn(c) + sent_fields(row) == log0 + row_events(
            coeffs.push(c),
            rows.push(row),
        ),
{
    assert(coeffs.push(c).drop_last() =~= coeffs);
    assert(rows.push(row).drop_last() =~= rows);
    assert(log0 + row_events(coeffs, rows) + drawn(c) + sent_fields(row) =~= log0 + row_events(
        coeffs.push(c),
        rows.push(row),
    ));
}

/// One more query.
proof fn query_events_push<O>(
    queries: Seq<int>,
    columns: Seq<Seq<int>>,
    paths: Seq<Seq<O>>,
    q: int,
    col: Seq<int>,
    p: Seq<O>,
    log0: Seq<Event<O>>,
)
    requires
        queries.len() == columns.len() == paths.len(),
    ensures
        (log0 + query_events(queries, columns, paths)).push(Event::Challenge(q)) + sent_fields(col)
            + sent_commitments(p) == log0 + query_events(
            queries.push(q),
            columns.push(col),
            paths.push(p),
        ),
{
    assert(queries.push(q).drop_last() =~= queries);
    assert(columns.push(col).drop_last() =~= columns);
    assert(paths.push(p).drop_last() =~= paths);
    assert((log0 + query_events(queries, columns, paths)).push(Event::Challenge(q)) + sent_fields(
        col,
    ) + sent_commitments(p) =~= log0 + query_events(
        queries.push(q),
        columns.push(col),
        paths.push(p),
    ));
}

/// Writes the random row combinations.
fn open_rows<F: PrimeField, H: HashFunction, T: TranscriptWrite<F, H::Output>>(
    pp: &MultilinearQAPCSParams<F>,
    evals: &[F],
    transcript: &mut T,
) -> (r: Result<Ghost<(Seq<Seq<int>>, Seq<Seq<int>>)>, Error>)
    requires
        pp.wf(),
        evals@.len() == exp2(pp.num_vars as nat),
    ensures
        T::infallible() ==> r is Ok,
        r matches Ok(sent) ==> {
            let (coeffs, rows) = sent@;
            &&& coeffs.len() == (if pp.num_rows > 1 {
                pp.qa.num_proximity_testing as nat
            } else {
                0
            })
            &&& rows.len() == coeffs.len()
            &&& rect(coeffs, pp.num_rows as nat)
            &&& rect(rows, pp.qa.row_len as nat)
            &&& forall|t: int|
                0 <= t < coeffs.len() ==> #[trigger] rows[t] == comb::<F>(
                    coeffs[t],
                    rows_of(vals(evals@), pp.num_rows as nat, pp.qa.row_len as nat),
                    pp.qa.row_len as nat,
                )
            &&& final(transcript).log() == old(transcript).log() + row_events(coeffs, rows)
        },
        r matches Err(e) ==> e is Transcript,
{
    let ghost log0 = transcript.log();
    let ghost mut coeffs_seen: Seq<Seq<int>> = Seq::empty();
    let ghost mut rows_seen: Seq<Seq<int>> = Seq::empty();
    let row_len: usize = pp.row_len();
    let tests: usize = if pp.num_rows > 1 {
        pp.qa.num_proximity_testing()
    } else {
        0
    };
    let mut combined_row = zero_vec::<F>(row_len);
    let mut i: usize = 0;
    assert(log0 + row_events(coeffs_seen, rows_seen) =~= log0);
    while i < tests
        invariant
            i <= tests,
            pp.wf(),
            row_len == pp.qa.row_len,
            evals@.len() == exp2(pp.num_vars as nat),
            combined_row@.len() == row_len,
            coeffs_seen.len() == i,
            rows_seen.len() == i,
            rect(coeffs_seen, pp.num_rows as nat),
            rect(rows_seen, row_len as nat),
            forall|t: int|
                0 <= t < i ==> #[trigger] rows_seen[t] == comb::<F>(
                    coeffs_seen[t],
                    rows_of(vals(evals@), pp.num_rows as nat, row_len as nat),
                    row_len as nat,
                ),
            transcript.log() == log0 + row_events(coeffs_seen, rows_seen),
        decreases tests - i,
    {
        let coeffs = squeeze_challenges::<F, H::Output, T>(transcript, pp.num_rows);
        match combine_message_rows(evals, pp.num_rows, row_len, &coeffs, &mut combined_row) {
            Ok(_) => {},
            Err(e) => {
                return Err(e);
            },
        }
        match write_field_elements::<F, H::Output, T>(transcript, &combined_row) {
            Ok(_) => {},
            Err(e) => {
                return Err(e);
            },
        }
        proof {
            let c = vals(coeffs@);
            let row = vals(combined_row@);
            row_events_push(coeffs_seen, rows_seen, c, row, log0);
            coeffs_seen = coeffs_seen.push(c);
            rows_seen = rows_seen.push(row);
        }
        i = i + 1;
    }
    Ok(Ghost((coeffs_seen, rows_seen)))
}

/// Draws the column queries and writes the columns with their siblings.
fn open_columns<F: PrimeField, H: HashFunction, T: TranscriptWrite<F, H::Output>>(
    pp: &MultilinearQAPCSParams<F>,
    comm: &MultilinearQAPCSCommitment<F, H>,
    transcript: &mut T,
) -> (r: Result<Ghost<(Seq<int>, Seq<Seq<int>>, Seq<Seq<H::Output>>)>, Error>)
    requires
        pp.wf(),
        state_sized::<F, H>(*pp, *comm),
    ensures
        T::infallible() ==> r is Ok,
        r matches Ok(sent) ==> {
            let (queries, columns, paths) = sent@;
            &&& queries.len() == pp.qa.num_column_opening
            &&& columns.len() == queries.len()
            &&& paths.len() == queries.len()
            &&& rect(columns, pp.num_rows as nat)
            &&& forall|q: int|
                0 <= q < queries.len() ==> #[trigger] query_answered::<F, H>(
                    *pp,
                    *comm,
                    queries[q],
                    columns[q],
                    paths[q],
                )
            &&& final(transcript).log() == old(transcript).log() + query_events(
                queries,
                columns,
                paths,
            )
        },
        r matches Err(e) ==> e is Transcript,
{
    let ghost log0 = transcript.log();
    let ghost mut queries: Seq<int> = Seq::empty();
    let ghost mut columns: Seq<Seq<int>> = Seq::empty();
    let ghost mut paths: Seq<Seq<H::Output>> = Seq::empty();
    let codeword_len: usize = pp.codeword_len();
    let mut i: usize = 0;
    assert(log0 + query_events(queries, columns, paths) =~= log0);
    while i < pp.qa.num_column_opening
        invariant
            i <= pp.qa.num_column_opening,
            pp.wf(),
            codeword_len == pp.qa.codeword_len,
            state_sized::<F, H>(*pp, *comm),
            queries.len() == i,
            columns.len() == i,
            paths.len() == i,
            rect(columns, pp.num_rows as nat),
            forall|q: int|
                0 <= q < i ==> #[trigger] query_answered::<F, H>(
                    *pp,
                    *comm,
                    queries[q],
                    columns[q],
                    paths[q],
                ),
            transcript.log() == log0 + query_events(queries, columns, paths),
        decreases pp.qa.num_column_opening - i,
    {
        let ghost before = transcript.log();
        let index = squeeze_challenge_idx::<F, H::Output, T>(transcript, codeword_len);
        let ghost challenge = choose|c: int|
            index as int == #[trigger] index_of::<F>(c, word_bytes(), codeword_len as int)
                && transcript.log() == before.push(Event::Challenge(c));
        assert forall|k: int| 0 <= k < comm.rows@.len() implies index < (
        #[trigger] comm.rows@[k])@.len() by {
            assert(mat(comm.rows@)[k].len() == codeword_len);
        }
        let items = read_column_of(&comm.rows, index);
        match write_field_elements::<F, H::Output, T>(transcript, &items) {
            Ok(_) => {},
            Err(e) => {
                return Err(e);
            },
        }
        let siblings = read_flat_path(&comm.intermediate_hashes, index, codeword_len);
        match write_commitments::<F, H::Output, T>(transcript, &siblings) {
            Ok(_) => {},
            Err(e) => {
                return Err(e);
            },
        }
        proof {
            let col = vals(items@);
            query_events_push(queries, columns, paths, challenge, col, siblings@, log0);
            let (q0, c0, p0) = (queries, columns, paths);
            queries = queries.push(challenge);
            columns = columns.push(col);
            paths = paths.push(siblings@);
            assert(query_answered::<F, H>(*pp, *comm, challenge, col, siblings@));
            assert forall|q: int| 0 <= q < i + 1 implies #[trigger] query_answered::<F, H>(
                *pp,
                *comm,
                queries[q],
                columns[q],
                paths[q],
            ) by {
                if q < i {
                    assert(query_answered::<F, H>(*pp, *comm, q0[q], c0[q], p0[q]));
                }
            }
            assert forall|q: int| 0 <= q < i + 1 implies (#[trigger] columns[q]).len()
                == pp.num_rows by {
                if q < i {
                    assert(columns[q] == c0[q]);
                }
            }
        }
        i = i + 1;
    }
    Ok(Ghost((queries, columns, paths)))
}

/// Opens a committed polynomial at a point.
///
/// Refuses requests whose sizes do not fit and claimed values that are not the
/// value of the polynomial, before anything is written.
pub fn qapcs_open_full<F: PrimeField, H: HashFunction, T: TranscriptWrite<F, H::Output>>(
    pp: &MultilinearQAPCSParams<F>,
    poly: &[F],
    comm: &MultilinearQAPCSCommitment<F, H>,
    point: &[F],
    eval: F,
    transcript: &mut T,
) -> (r: Result<(), Error>)
    requires
        pp.wf(),
    ensures
        r is Ok ==> request_sized::<F, H>(*pp, poly@.len(), *comm, point@.len()) && eval.val()
            == mle::<F>(vals(poly@), vals(point@)) && opened::<F, H>(
            *pp,
            vals(poly@),
            *comm,
            vals(point@),
            old(transcript).log(),
            final(transcript).log(),
        ),
        !request_sized::<F, H>(*pp, poly@.len(), *comm, point@.len()) ==> r is Err
            && r->Err_0 is InvalidPcsParam && *final(transcript) == *old(transcript),
        request_sized::<F, H>(*pp, poly@.len(), *comm, point@.len()) && eval.val() != mle::<F>(
            vals(poly@),
            vals(point@),
        ) ==> r is Err && r->Err_0.is_open("claimed QAPCS evaluation does not match the polynomial")
            && *final(transcript) == *old(transcript),
        request_sized::<F, H>(*pp, poly@.len(), *comm, point@.len()) && eval.val() == mle::<F>(
            vals(poly@),
            vals(point@),
        ) && T::infallible() ==> r is Ok,
        r matches Err(e) ==> !request_sized::<F, H>(*pp, poly@.len(), *comm, point@.len())
            || eval.val() != mle::<F>(vals(poly@), vals(point@)) || e is Transcript,
{
    let size: usize = power_of_two(pp.num_vars);
    if poly.len() != size {
        return Err(Error::param("the polynomial does not have the number of variables of open"));
    }
    if point.len() != pp.num_vars {
        return Err(Error::param("the point does not have the number of variables of open"));
    }
    match validate_qapcs_commitment_state(pp, comm) {
        Ok(_) => {},
        Err(e) => {
            return Err(e);
        },
    }
    proof {
        pp.lemma_split();
        folded_evaluation::<F>(
            vals(poly@),
            pp.num_rows as nat,
            pp.qa.row_len as nat,
            vals(point@),
        );
    }
    let (row_weights, column_weights) = point_to_tensor(pp.num_rows, point);
    let mut evaluation_row = zero_vec::<F>(pp.row_len());
    assert(vals(row_weights@).len() == pp.num_rows);
    assert(vals(column_weights@).len() == pp.qa.row_len);
    match combine_message_rows(poly, pp.num_rows, pp.row_len(), &row_weights, &mut evaluation_row) {
        Ok(_) => {},
        Err(e) => {
            return Err(e);
        },
    }
    if !inner_product(&evaluation_row, &column_weights).equals(eval) {
        return Err(Error::open("claimed QAPCS evaluation does not match the polynomial"));
    }
    let ghost log0 = transcript.log();
    let sent_rows = match open_rows::<F, H, T>(pp, poly, transcript) {
        Ok(sent) => sent,
        Err(e) => {
            return Err(e);
        },
    };
    match write_field_elements::<F, H::Output, T>(transcript, &evaluation_row) {
        Ok(_) => {},
        Err(e) => {
            return Err(e);
        },
    }
    let sent_columns = match open_columns::<F, H, T>(pp, comm, transcript) {
        Ok(sent) => sent,
        Err(e) => {
            return Err(e);
        },
    };
    proof {
        let (coeffs, rows) = sent_rows@;
        let (queries, columns, paths) = sent_columns@;
        let d = OpeningData::<H::Output> {
            coeffs,
            rows,
            evaluation_row: vals(evaluation_row@),
            queries,
            columns,
            paths,
        };
        assert forall|q: int| 0 <= q < paths.len() implies (#[trigger] paths[q]).len() == log2(
            pp.qa.codeword_len as int,
        ) by {
            assert(query_answered::<F, H>(*pp, *comm, queries[q], columns[q], paths[q]));
            flat_path_len(
                comm.intermediate_hashes@,
                query_index::<F>(queries[q], pp.qa.codeword_len),
                pp.qa.codeword_len as int,
            );
        }
        assert(vals(evaluation_row@).len() == pp.qa.row_len);
        assert(d.shaped_to(*pp, pp.qa.num_column_opening as nat));
        assert(d.shaped(*pp));
        assert(honest::<F, H>(*pp, vals(poly@), *comm, vals(point@), d));
        assert(transcript.log() =~= log0 + d.events());
    }
    Ok(())
}

/// A received row combination: its coefficients and the encoded row.
pub struct FoldedRow<F> {
    pub coeffs: Vec<F>,
    pub encoded: Vec<F>,
}

/// The encoded rows `folded` belong to the coefficients and the rows received.
pub open spec fn folded_rows<F: PrimeField>(
    vp: MultilinearQAPCSParams<F>,
    folded: Seq<FoldedRow<F>>,
    coeffs: Seq<Seq<int>>,
    rows: Seq<Seq<int>>,
) -> bool {
    &&& folded.len() == coeffs.len() == rows.len()
    &&& rect(coeffs, vp.num_rows as nat)
    &&& rect(rows, vp.qa.row_len as nat)
    &&& forall|t: int|
        0 <= t < folded.len() ==> {
            &&& vals((#[trigger] folded[t]).coeffs@) == coeffs[t]
            &&& vals(folded[t].encoded@) == encode::<F>(rows[t], vp.qa.qa_params.coeffs())
        }
}

/// The opened column agrees with an encoded row.
pub open spec fn row_agrees<F: PrimeField>(
    num_rows: usize,
    row: FoldedRow<F>,
    col: Seq<int>,
    index: int,
) -> bool {
    project::<F>(num_rows, vals(row.coeffs@), col) == row.encoded@[index].val()
}

/// Holds one answered query to the received rows and to the root.
pub fn check_query<F: PrimeField, H: HashFunction>(
    vp: &MultilinearQAPCSParams<F>,
    root: &H::Output,
    folded: &[FoldedRow<F>],
    index: usize,
    items: &[F],
    siblings: &[H::Output],
) -> (r: Result<(), Error>)
    requires
        forall|t: int|
            0 <= t < folded@.len() ==> (#[trigger] folded@[t]).coeffs@.len() == vp.num_rows
                && index < folded@[t].encoded@.len(),
        vp.num_rows > 0,
        items@.len() == vp.num_rows,
    ensures
        r is Ok <==> (forall|t: int|
            0 <= t < folded@.len() ==> row_agrees::<F>(
                vp.num_rows,
                #[trigger] folded@[t],
                vals(items@),
                index as int,
            )) && climb::<H>(leaf::<F, H>(vals(items@)), siblings@, index as int) == *root,
        r matches Err(e) ==> if (exists|t: int|
            0 <= t < folded@.len() && !row_agrees::<F>(
                vp.num_rows,
                #[trigger] folded@[t],
                vals(items@),
                index as int,
            )) {
            e.is_open("QAPCS folded-column consistency failure")
        } else {
            e.is_open("invalid QAPCS Merkle opening")
        },
{
    let mut t: usize = 0;
    while t < folded.len()
        invariant
            t <= folded@.len(),
            forall|k: int|
                0 <= k < folded@.len() ==> (#[trigger] folded@[k]).coeffs@.len() == vp.num_rows
                    && index < folded@[k].encoded@.len(),
            vp.num_rows > 0,
            items@.len() == vp.num_rows,
            forall|k: int|
                0 <= k < t ==> row_agrees::<F>(
                    vp.num_rows,
                    #[trigger] folded@[k],
                    vals(items@),
                    index as int,
                ),
        decreases folded@.len() - t,
    {
        let projected = if vp.num_rows > 1 {
            inner_product(&folded[t].coeffs, items)
        } else {
            items[0]
        };
        if !projected.equals(folded[t].encoded[index]) {
            assert(!row_agrees::<F>(vp.num_rows, folded@[t as int], vals(items@), index as int));
            return Err(Error::open("QAPCS folded-column consistency failure"));
        }
        t = t + 1;
    }
    if verify_merkle_path_with_leaf::<H, F>(root, items, siblings, index) {
        Ok(())
    } else {
        Err(Error::open("invalid QAPCS Merkle opening"))
    }
}

/// Agreement with the encoded rows is agreement with the rows received.
proof fn agreement<F: PrimeField>(
    vp: MultilinearQAPCSParams<F>,
    folded: Seq<FoldedRow<F>>,
    coeffs: Seq<Seq<int>>,
    rows: Seq<Seq<int>>,
    index: int,
)
    requires
        vp.wf(),
        folded_rows::<F>(vp, folded, coeffs, rows),
        0 <= index < vp.qa.codeword_len,
    ensures
        forall|t: int|
            0 <= t < folded.len() ==> (#[trigger] folded[t]).coeffs@.len() == vp.num_rows && index
                < folded[t].encoded@.len(),
        forall|t: int, col: Seq<int>|
            0 <= t < folded.len() ==> #[trigger] row_agrees::<F>(
                vp.num_rows,
                folded[t],
                col,
                index,
            ) == folds_to::<F>(vp, coeffs[t], rows[t], col, index),
{
    assert forall|t: int| 0 <= t < folded.len() implies (#[trigger] folded[t]).coeffs@.len()
        == vp.num_rows && folded[t].encoded@.len() == vp.qa.codeword_len by {
        assert(coeffs[t].len() == vp.num_rows);
        assert(rows[t].len() == vp.qa.row_len);
        vp.qa.lemma_len(rows[t]);
        assert(vals(folded[t].coeffs@).len() == vp.num_rows);
        assert(vals(folded[t].encoded@).len() == vp.qa.codeword_len);
    }
    assert forall|t: int, col: Seq<int>| 0 <= t < folded.len() implies #[trigger] row_agrees::<F>(
        vp.num_rows,
        folded[t],
        col,
        index,
    ) == folds_to::<F>(vp, coeffs[t], rows[t], col, index) by {
        assert(vals(folded[t].encoded@)[index] == folded[t].encoded@[index].val());
    }
}

/// Agreement of a column with all encoded rows is agreement with the random rows
/// and with the evaluation row.
proof fn refused_query<F: PrimeField>(
    vp: MultilinearQAPCSParams<F>,
    folded: Seq<FoldedRow<F>>,
    coeffs: Seq<Seq<int>>,
    rows: Seq<Seq<int>>,
    wr: Seq<int>,
    er: Seq<int>,
    col: Seq<int>,
    index: int,
)
    requires
        vp.wf(),
        folded_rows::<F>(vp, folded, coeffs.push(wr), rows.push(er)),
        coeffs.len() == rows.len(),
        0 <= index < vp.qa.codeword_len,
    ensures
        (exists|t: int|
            0 <= t < folded.len() && !row_agrees::<F>(
                vp.num_rows,
                #[trigger] folded[t],
                col,
                index,
            )) == !({
            &&& forall|t: int|
                0 <= t < coeffs.len() ==> folds_to::<F>(
                    vp,
                    #[trigger] coeffs[t],
                    rows[t],
                    col,
                    index,
                )
            &&& folds_to::<F>(vp, wr, er, col, index)
        }),
{
    let (ac, ar) = (coeffs.push(wr), rows.push(er));
    agreement::<F>(vp, folded, ac, ar, index);
    let k = coeffs.len() as int;
    if forall|t: int|
        0 <= t < folded.len() ==> row_agrees::<F>(vp.num_rows, #[trigger] folded[t], col, index) {
        assert forall|t: int| 0 <= t < coeffs.len() implies folds_to::<F>(
            vp,
            #[trigger] coeffs[t],
            rows[t],
            col,
            index,
        ) by {
            assert(row_agrees::<F>(vp.num_rows, folded[t], col, index));
            assert(ac[t] == coeffs[t] && ar[t] == rows[t]);
        }
        assert(row_agrees::<F>(vp.num_rows, folded[k], col, index));
        assert(ac[k] == wr && ar[k] == er);
    } else {
        let t = choose|t: int|
            0 <= t < folded.len() && !row_agrees::<F>(
                vp.num_rows,
                #[trigger] folded[t],
                col,
                index,
            );
        if t < k {
            assert(ac[t] == coeffs[t] && ar[t] == rows[t]);
        } else {
            assert(ac[k] == wr && ar[k] == er);
        }
    }
}

/// Whether the received evaluation row has the claimed value.
pub fn check_evaluation<F: PrimeField>(
    evaluation_row: &[F],
    column_weights: &[F],
    eval: F,
) -> (r: Result<(), Error>)
    requires
        evaluation_row@.len() == column_weights@.len(),
    ensures
        r is Ok <==> dot::<F>(vals(evaluation_row@), vals(column_weights@)) == eval.val(),
        r matches Err(e) ==> e.is_open("QAPCS evaluation consistency failure"),
{
    if inner_product(evaluation_row, column_weights).equals(eval) {
        Ok(())
    } else {
        Err(Error::open("QAPCS evaluation consistency failure"))
    }
}

/// Reads the random row combinations and encodes them.
fn read_rows<F: PrimeField, H: HashFunction, T: TranscriptRead<F, H::Output>>(
    vp: &MultilinearQAPCSParams<F>,
    transcript: &mut T,
) -> (r: Result<(Vec<FoldedRow<F>>, Ghost<(Seq<Seq<int>>, Seq<Seq<int>>)>), Error>)
    requires
        vp.wf(),
    ensures
        final(transcript).held() == old(transcript).held(),
        r matches Ok(got) ==> {
            let (coeffs, rows) = got.1@;
            &&& folded_rows::<F>(*vp, got.0@, coeffs, rows)
            &&& coeffs.len() == (if vp.num_rows > 1 {
                vp.qa.num_proximity_testing as nat
            } else {
                0
            })
            &&& final(transcript).log() == old(transcript).log() + row_events(coeffs, rows)
        },
        r matches Err(e) ==> cut_within(
            e,
            old(transcript).log(),
            final(transcript).log(),
            (if vp.num_rows > 1 {
                vp.qa.num_proximity_testing as nat
            } else {
                0
            }) * (vp.qa.row_len as nat),
            0,
        ),
{
    let ghost log0 = transcript.log();
    let ghost mut coeffs_seen: Seq<Seq<int>> = Seq::empty();
    let ghost mut rows_seen: Seq<Seq<int>> = Seq::empty();
    let tests: usize = if vp.num_rows > 1 {
        vp.qa.num_proximity_testing()
    } else {
        0
    };
    let mut folded: Vec<FoldedRow<F>> = Vec::new();
    let mut i: usize = 0;
    assert(log0 + row_events(coeffs_seen, rows_seen) =~= log0);
    while i < tests
        invariant
            transcript.held() == old(transcript).held(),
            i <= tests,
            vp.wf(),
            log0 == old(transcript).log(),
            tests == (if vp.num_rows > 1 {
                vp.qa.num_proximity_testing
            } else {
                0
            }),
            folded@.len() == i,
            folded_rows::<F>(*vp, folded@, coeffs_seen, rows_seen),
            transcript.log() == log0 + row_events(coeffs_seen, rows_seen),
        decreases tests - i,
    {
        let ghost before = transcript.log();
        let coeffs = squeeze_challenges::<F, H::Output, T>(transcript, vp.num_rows);
        proof {
            let n = vp.qa.row_len as nat;
            messages_concat(before, drawn::<H::Output>(vals(coeffs@)));
            messages_of_sent::<H::Output>(vals(coeffs@), Seq::empty());
            messages_concat(log0, row_events::<H::Output>(coeffs_seen, rows_seen));
            row_messages::<H::Output>(coeffs_seen, rows_seen, n);
            assert(i * n + n <= tests * n) by (nonlinear_arith)
                requires
                    i + 1 <= tests,
            ;
        }
        let row = match read_field_elements::<F, H::Output, T>(transcript, vp.row_len()) {
            Ok(row) => row,
            Err(e) => {
                return Err(e);
            },
        };
        let encoded = qa_encode_codeword_only(&row, &vp.qa.qa_params);
        proof {
            let c = vals(coeffs@);
            let m = vals(row@);
            row_events_push(coeffs_seen, rows_seen, c, m, log0);
            coeffs_seen = coeffs_seen.push(c);
            rows_seen = rows_seen.push(m);
        }
        folded.push(FoldedRow { coeffs, encoded });
        i = i + 1;
    }
    Ok((folded, Ghost((coeffs_seen, rows_seen))))
}

/// Verifies an opening of a committed polynomial at a point.
pub fn qapcs_verify_full<F: PrimeField, H: HashFunction, T: TranscriptRead<F, H::Output>>(
    vp: &MultilinearQAPCSParams<F>,
    comm: &MultilinearQAPCSCommitment<F, H>,
    point: &[F],
    eval: F,
    transcript: &mut T,
) -> (r: Result<(), Error>)
    requires
        vp.wf(),
    ensures
        final(transcript).held() == old(transcript).held(),
        verdict::<F, H>(
            *vp,
            comm.root,
            vals(point@),
            eval.val(),
            old(transcript).log(),
            final(transcript).log(),
            r,
        ),
        point@.len() != vp.num_vars ==> r is Err && r->Err_0.is_param(
            "the point does not have the number of variables of verify",
        ) && *final(transcript) == *old(transcript),
{
    if point.len() != vp.num_vars {
        return Err(Error::param("the point does not have the number of variables of verify"));
    }
    let ghost log0 = transcript.log();
    let ghost z = vals(point@);
    proof {
        vp.lemma_split();
    }
    let ghost tests = (if vp.num_rows > 1 {
        vp.qa.num_proximity_testing as nat
    } else {
        0
    });
    let ghost n = vp.qa.row_len as nat;
    proof {
        assert(tests * n >= 0) by (nonlinear_arith);
        assert((vp.qa.num_column_opening as nat) * (vp.num_rows as nat) >= 0) by (nonlinear_arith);
    }
    let (row_weights, column_weights) = point_to_tensor(vp.num_rows, point);
    let (mut folded, seen) = match read_rows::<F, H, T>(vp, transcript) {
        Ok(got) => got,
        Err(e) => {
            return Err(e);
        },
    };
    let ghost (coeffs_seen, rows_seen) = seen@;
    proof {
        messages_concat(log0, row_events::<H::Output>(coeffs_seen, rows_seen));
        row_messages::<H::Output>(coeffs_seen, rows_seen, n);
    }
    let evaluation_row = match read_field_elements::<F, H::Output, T>(transcript, vp.row_len()) {
        Ok(row) => row,
        Err(e) => {
            return Err(e);
        },
    };
    let ghost er = vals(evaluation_row@);
    let ghost wr = eq_evals::<F>(row_point(z, vp.num_rows as int));
    assert(vals(column_weights@).len() == vp.qa.row_len);
    match check_evaluation(&evaluation_row, &column_weights, eval) {
        Ok(_) => {},
        Err(e) => {
            proof {
                let d = OpeningData::<H::Output> {
                    coeffs: coeffs_seen,
                    rows: rows_seen,
                    evaluation_row: er,
                    queries: Seq::empty(),
                    columns: Seq::empty(),
                    paths: Seq::empty(),
                };
                assert(refusal::<F, H>(*vp, comm.root, z, eval.val(), d, 0, e));
                assert(transcript.log() =~= log0 + d.events());
            }
            return Err(e);
        },
    }
    let encoded = qa_encode_codeword_only(&evaluation_row, &vp.qa.qa_params);
    folded.push(FoldedRow { coeffs: row_weights, encoded });
    let ghost all_coeffs = coeffs_seen.push(wr);
    let ghost all_rows = rows_seen.push(er);
    assert(folded_rows::<F>(*vp, folded@, all_coeffs, all_rows));
    let ghost log1 = transcript.log();
    proof {
        messages_concat(
            log0 + row_events::<H::Output>(coeffs_seen, rows_seen),
            sent_fields::<H::Output>(er),
        );
        messages_of_sent::<H::Output>(er, Seq::empty());
    }
    let depth: usize = log2_power_of_two(vp.codeword_len());
    let ghost mut queries: Seq<int> = Seq::empty();
    let ghost mut columns: Seq<Seq<int>> = Seq::empty();
    let ghost mut paths: Seq<Seq<H::Output>> = Seq::empty();
    let mut i: usize = 0;
    assert(log1 + query_events(queries, columns, paths) =~= log1);
    while i < vp.qa.num_column_opening
        invariant
            transcript.held() == old(transcript).held(),
            i <= vp.qa.num_column_opening,
            vp.wf(),
            point@.len() == vp.num_vars,
            z == vals(point@),
            log0 == old(transcript).log(),
            all_coeffs == coeffs_seen.push(wr),
            all_rows == rows_seen.push(er),
            wr == eq_evals::<F>(row_point(z, vp.num_rows as int)),
            coeffs_seen.len() == rows_seen.len(),
            coeffs_seen.len() == (if vp.num_rows > 1 {
                vp.qa.num_proximity_testing as nat
            } else {
                0
            }),
            rect(coeffs_seen, vp.num_rows as nat),
            rect(rows_seen, vp.qa.row_len as nat),
            er.len() == vp.qa.row_len,
            dot::<F>(er, eq_evals::<F>(column_point(z, vp.num_rows as int))) == eval.val(),
            log1 == log0 + row_events(coeffs_seen, rows_seen) + sent_fields(er),
            fields_in(log1).len() == fields_in(log0).len() + tests * n + n,
            digests_in(log1).len() == digests_in(log0).len(),
            tests == (if vp.num_rows > 1 {
                vp.qa.num_proximity_testing as nat
            } else {
                0
            }),
            n == vp.qa.row_len,
            folded_rows::<F>(*vp, folded@, all_coeffs, all_rows),
            queries.len() == i,
            columns.len() == i,
            paths.len() == i,
            rect(columns, vp.num_rows as nat),
            depth == log2(vp.qa.codeword_len as int),
            forall|q: int| 0 <= q < i ==> (#[trigger] paths[q]).len() == depth,
            transcript.log() == log1 + query_events(queries, columns, paths),
            forall|q: int, t: int|
                0 <= q < i && 0 <= t < all_coeffs.len() ==> folds_to::<F>(
                    *vp,
                    #[trigger] all_coeffs[t],
                    all_rows[t],
                    #[trigger] columns[q],
                    query_index::<F>(queries[q], vp.qa.codeword_len),
                ),
            forall|q: int|
                0 <= q < i ==> climb::<H>(
                    leaf::<F, H>(#[trigger] columns[q]),
                    paths[q],
                    query_index::<F>(queries[q], vp.qa.codeword_len),
                ) == comm.root,
        decreases vp.qa.num_column_opening - i,
    {
        let ghost before = transcript.log();
        let index = squeeze_challenge_idx::<F, H::Output, T>(transcript, vp.codeword_len());
        let ghost challenge = choose|c: int|
            index as int == #[trigger] index_of::<F>(c, word_bytes(), vp.qa.codeword_len as int)
                && transcript.log() == before.push(Event::Challenge(c));
        proof {
            let rows = vp.num_rows as nat;
            let all = vp.qa.num_column_opening as nat;
            let k = i as nat;
            query_messages(queries, columns, paths, rows, depth as nat);
            messages_concat(log1, query_events(queries, columns, paths));
            messages_push(before, Event::<H::Output>::Challenge(challenge));
            assert(k * rows + rows <= all * rows) by (nonlinear_arith)
                requires
                    k + 1 <= all,
            ;
            assert(k * depth + depth <= all * depth) by (nonlinear_arith)
                requires
                    k + 1 <= all,
            ;
        }
        let ghost asked = transcript.log();
        let items = match read_field_elements::<F, H::Output, T>(transcript, vp.num_rows) {
            Ok(items) => items,
            Err(e) => {
                return Err(e);
            },
        };
        proof {
            messages_concat(asked, sent_fields::<H::Output>(vals(items@)));
            messages_of_sent::<H::Output>(vals(items@), Seq::empty());
        }
        let siblings = match read_commitments::<F, H::Output, T>(transcript, depth) {
            Ok(siblings) => siblings,
            Err(e) => {
                return Err(e);
            },
        };
        proof {
            agreement::<F>(*vp, folded@, all_coeffs, all_rows, index as int);
        }
        match check_query::<F, H>(vp, comm.root(), &folded, index, &items, &siblings) {
            Ok(_) => {},
            Err(e) => {
                proof {
                    let col = vals(items@);
                    query_events_push(queries, columns, paths, challenge, col, siblings@, log1);
                    let d = OpeningData::<H::Output> {
                        coeffs: coeffs_seen,
                        rows: rows_seen,
                        evaluation_row: er,
                        queries: queries.push(challenge),
                        columns: columns.push(col),
                        paths: paths.push(siblings@),
                    };
                    let k = (i + 1) as nat;
                    assert forall|q: int| 0 <= q < k implies (#[trigger] d.paths[q]).len()
                        == depth by {
                        if q < i {
                            assert(d.paths[q] == paths[q]);
                        }
                    }
                    assert forall|q: int| 0 <= q < k - 1 implies #[trigger] query_ok::<F, H>(
                        *vp,
                        comm.root,
                        z,
                        d,
                        q,
                    ) by {
                        assert(columns[q] == d.columns[q]);
                        let at = query_index::<F>(queries[q], vp.qa.codeword_len);
                        assert forall|t: int| 0 <= t < d.coeffs.len() implies folds_to::<F>(
                            *vp,
                            #[trigger] d.coeffs[t],
                            d.rows[t],
                            d.columns[q],
                            at,
                        ) by {
                            assert(all_coeffs[t] == d.coeffs[t]);
                            assert(all_rows[t] == d.rows[t]);
                        }
                        let last = all_coeffs.len() - 1;
                        assert(folds_to::<F>(
                            *vp,
                            all_coeffs[last],
                            all_rows[last],
                            columns[q],
                            at,
                        ));
                    }
                    refused_query::<F>(
                        *vp,
                        folded@,
                        coeffs_seen,
                        rows_seen,
                        wr,
                        er,
                        col,
                        index as int,
                    );
                    assert forall|q: int| 0 <= q < k implies (#[trigger] d.columns[q]).len()
                        == vp.num_rows by {
                        if q < i {
                            assert(d.columns[q] == columns[q]);
                        }
                    }
                    assert(d.shaped_to(*vp, k));
                    assert(d.columns[i as int] == col && d.queries[i as int] == challenge);
                    assert(!query_ok::<F, H>(*vp, comm.root, z, d, k - 1));
                    assert(refusal::<F, H>(*vp, comm.root, z, eval.val(), d, k, e));
                    assert(transcript.log() =~= log0 + d.events());
                }
                return Err(e);
            },
        }
        proof {
            let col = vals(items@);
            assert forall|t: int| 0 <= t < all_coeffs.len() implies folds_to::<F>(
                *vp,
                #[trigger] all_coeffs[t],
                all_rows[t],
                col,
                index as int,
            ) by {
                assert(row_agrees::<F>(vp.num_rows, folded@[t], col, index as int));
            }
            query_events_push(queries, columns, paths, challenge, col, siblings@, log1);
            queries = queries.push(challenge);
            columns = columns.push(col);
            paths = paths.push(siblings@);
        }
        i = i + 1;
    }
    proof {
        let d = OpeningData::<H::Output> {
            coeffs: coeffs_seen,
            rows: rows_seen,
            evaluation_row: er,
            queries,
            columns,
            paths,
        };
        assert forall|q: int| 0 <= q < d.queries.len() implies #[trigger] query_ok::<F, H>(
            *vp,
            comm.root,
            z,
            d,
            q,
        ) by {
            let index = query_index::<F>(queries[q], vp.qa.codeword_len);
            assert forall|t: int| 0 <= t < d.coeffs.len() implies folds_to::<F>(
                *vp,
                #[trigger] d.coeffs[t],
                d.rows[t],
                d.columns[q],
                index,
            ) by {
                assert(all_coeffs[t] == d.coeffs[t]);
                assert(all_rows[t] == d.rows[t]);
                assert(columns[q] == d.columns[q]);
            }
            let k = all_coeffs.len() - 1;
            assert(folds_to::<F>(*vp, all_coeffs[k], all_rows[k], columns[q], index));
        }
        assert(accepted::<F, H>(*vp, comm.root, z, eval.val(), d));
        assert(transcript.log() =~= log0 + d.events());
    }
    Ok(())
}

impl<F: PrimeField> QACode<F> {
    /// The code of a shape with the coefficients drawn.
    pub fn new_random(shape: &QAPCSShape, inverse_rate: usize, drawn: &[F]) -> (r: Self)
        requires
            is_pow2(shape.row_len as int),
            is_pow2(shape.codeword_len as int),
            inverse_rate >= 2,
            shape.codeword_len == inverse_rate * shape.row_len,
            drawn@.len() == (inverse_rate - 1) * shape.row_len,
        ensures
            r.wf(),
            r.row_len == shape.row_len,
            r.num_column_opening == shape.num_column_opening,
            r.num_proximity_testing == shape.num_proximity_testing,
            r.qa_params.inverse_rate == inverse_rate,
            r.qa_params.coeffs() == rows_of(
                vals(drawn@),
                (inverse_rate - 1) as nat,
                shape.row_len as nat,
            ),
    {
        let qa_params = QAParams::new_random(shape.row_len, inverse_rate, drawn);
        QACode::from_params(shape, qa_params)
    }
}

impl<F: PrimeField> MultilinearQAPCSParams<F> {
    /// Same sizes and same code.
    pub open spec fn same(self, other: Self) -> bool {
        &&& self.num_vars == other.num_vars
        &&& self.num_rows == other.num_rows
        &&& self.shape == other.shape
        &&& self.qa.row_len == other.qa.row_len
        &&& self.qa.codeword_len == other.qa.codeword_len
        &&& self.qa.num_column_opening == other.qa.num_column_opening
        &&& self.qa.num_proximity_testing == other.qa.num_proximity_testing
        &&& self.qa.qa_params.inverse_rate == other.qa.qa_params.inverse_rate
        &&& self.qa.qa_params.coeffs() == other.qa.qa_params.coeffs()
        &&& self.wf() ==> other.wf()
    }

    /// A copy of the parameters.
    pub fn duplicate(&self) -> (r: Self)
        ensures
            self.same(r),
    {
        MultilinearQAPCSParams {
            num_vars: self.num_vars,
            num_rows: self.num_rows,
            shape: self.shape,
            qa: QACode {
                row_len: self.qa.row_len,
                codeword_len: self.qa.codeword_len,
                num_column_opening: self.qa.num_column_opening,
                num_proximity_testing: self.qa.num_proximity_testing,
                qa_params: self.qa.qa_params.duplicate(),
            },
        }
    }
}

/// A claimed value of one of several polynomials at one of several points.
#[derive(Clone, Copy, Debug)]
pub struct Evaluation<F> {
    pub poly: usize,
    pub point: usize,
    pub value: F,
}

/// Openings of the first `k` claims take `log0` to `log1`.
pub open spec fn batch_opened<F: PrimeField, H: HashFunction>(
    pp: MultilinearQAPCSParams<F>,
    polys: Seq<Vec<F>>,
    comms: Seq<MultilinearQAPCSCommitment<F, H>>,
    points: Seq<Vec<F>>,
    evals: Seq<Evaluation<F>>,
    k: nat,
    log0: Seq<Event<H::Output>>,
    log1: Seq<Event<H::Output>>,
) -> bool
    decreases k,
{
    if k == 0 {
        log1 == log0
    } else {
        let e = evals[k - 1];
        &&& e.value.val() == mle::<F>(vals(polys[e.poly as int]@), vals(points[e.point as int]@))
        &&& exists|mid: Seq<Event<H::Output>>|
            batch_opened::<F, H>(pp, polys, comms, points, evals, (k - 1) as nat, log0, mid)
                && #[trigger] opened::<F, H>(
                pp,
                vals(polys[e.poly as int]@),
                comms[e.poly as int],
                vals(points[e.point as int]@),
                mid,
                log1,
            )
    }
}

/// Accepted openings of the first `k` claims take `log0` to `log1`.
pub open spec fn batch_verified<F: PrimeField, H: HashFunction>(
    vp: MultilinearQAPCSParams<F>,
    comms: Seq<MultilinearQAPCSCommitment<F, H>>,
    points: Seq<Vec<F>>,
    evals: Seq<Evaluation<F>>,
    k: nat,
    log0: Seq<Event<H::Output>>,
    log1: Seq<Event<H::Output>>,
) -> bool
    decreases k,
{
    if k == 0 {
        log1 == log0
    } else {
        let e = evals[k - 1];
        exists|mid: Seq<Event<H::Output>>|
            batch_verified::<F, H>(vp, comms, points, evals, (k - 1) as nat, log0, mid)
                && #[trigger] verified::<F, H>(
                vp,
                comms[e.poly as int].root,
                vals(points[e.point as int]@),
                e.value.val(),
                mid,
                log1,
            )
    }
}

/// A claim that cannot be opened, and the error that says why.
pub open spec fn claim_unopenable<F: PrimeField, H: HashFunction>(
    pp: MultilinearQAPCSParams<F>,
    polys: Seq<Vec<F>>,
    comms: Seq<MultilinearQAPCSCommitment<F, H>>,
    points: Seq<Vec<F>>,
    claim: Evaluation<F>,
    e: Error,
) -> bool {
    let poly = polys[claim.poly as int]@;
    let point = points[claim.point as int]@;
    if !request_sized::<F, H>(pp, poly.len(), comms[claim.poly as int], point.len()) {
        e is InvalidPcsParam
    } else {
        &&& claim.value.val() != mle::<F>(vals(poly), vals(point))
        &&& e.is_open("claimed QAPCS evaluation does not match the polynomial")
    }
}

/// A claim whose opening is refused with an error.
pub open spec fn claim_refused<F: PrimeField, H: HashFunction>(
    vp: MultilinearQAPCSParams<F>,
    comms: Seq<MultilinearQAPCSCommitment<F, H>>,
    points: Seq<Vec<F>>,
    claim: Evaluation<F>,
    log0: Seq<Event<H::Output>>,
    log1: Seq<Event<H::Output>>,
    e: Error,
) -> bool {
    if points[claim.point as int]@.len() != vp.num_vars {
        e is InvalidPcsParam && log1 == log0
    } else {
        refused::<F, H>(
            vp,
            comms[claim.poly as int].root,
            vals(points[claim.point as int]@),
            claim.value.val(),
            log0,
            log1,
            e,
        )
    }
}

/// One more accepted claim.
proof fn batch_verified_step<F: PrimeField, H: HashFunction>(
    vp: MultilinearQAPCSParams<F>,
    comms: Seq<MultilinearQAPCSCommitment<F, H>>,
    points: Seq<Vec<F>>,
    evals: Seq<Evaluation<F>>,
    k: nat,
    log0: Seq<Event<H::Output>>,
    mid: Seq<Event<H::Output>>,
    log1: Seq<Event<H::Output>>,
)
    requires
        batch_verified::<F, H>(vp, comms, points, evals, k, log0, mid),
        verified::<F, H>(
            vp,
            comms[evals[k as int].poly as int].root,
            vals(points[evals[k as int].point as int]@),
            evals[k as int].value.val(),
            mid,
            log1,
        ),
    ensures
        batch_verified::<F, H>(vp, comms, points, evals, k + 1, log0, log1),
{
    let e = evals[(k + 1) - 1];
    assert(e == evals[k as int]);
    assert(batch_verified::<F, H>(vp, comms, points, evals, ((k + 1) - 1) as nat, log0, mid));
    assert(verified::<F, H>(
        vp,
        comms[e.poly as int].root,
        vals(points[e.point as int]@),
        e.value.val(),
        mid,
        log1,
    ));
}

/// What the verifier of a batch says of the messages from `log0` to `log1`: all
/// claims are verified, or those before one at which the transcript is cut short
/// or which is refused.
pub open spec fn batch_verdict<F: PrimeField, H: HashFunction>(
    vp: MultilinearQAPCSParams<F>,
    comms: Seq<MultilinearQAPCSCommitment<F, H>>,
    points: Seq<Vec<F>>,
    evals: Seq<Evaluation<F>>,
    log0: Seq<Event<H::Output>>,
    log1: Seq<Event<H::Output>>,
    r: Result<(), Error>,
) -> bool {
    &&& r is Ok ==> batch_verified::<F, H>(vp, comms, points, evals, evals.len(), log0, log1)
    &&& r matches Err(e) ==> exists|k: nat, mid: Seq<Event<H::Output>>|
        {
            &&& k < evals.len()
            &&& #[trigger] batch_verified::<F, H>(vp, comms, points, evals, k, log0, mid)
            &&& {
                ||| cut_within(e, mid, log1, proof_fields(vp), proof_digests(vp))
                ||| claim_refused::<F, H>(vp, comms, points, evals[k as int], mid, log1, e)
            }
        }
}

/// A batch opened honestly is accepted as a batch.
pub proof fn honest_batch_is_accepted<F: PrimeField, H: HashFunction>(
    pp: MultilinearQAPCSParams<F>,
    polys: Seq<Vec<F>>,
    comms: Seq<MultilinearQAPCSCommitment<F, H>>,
    points: Seq<Vec<F>>,
    evals: Seq<Evaluation<F>>,
    k: nat,
    log0: Seq<Event<H::Output>>,
    log1: Seq<Event<H::Output>>,
)
    requires
        pp.wf(),
        k <= evals.len(),
        forall|i: int|
            0 <= i < evals.len() ==> {
                let e = #[trigger] evals[i];
                &&& polys[e.poly as int]@.len() == exp2(pp.num_vars as nat)
                &&& points[e.point as int]@.len() == pp.num_vars
                &&& comms[e.poly as int].commits_to(pp, vals(polys[e.poly as int]@))
            },
        batch_opened::<F, H>(pp, polys, comms, points, evals, k, log0, log1),
    ensures
        batch_verified::<F, H>(pp, comms, points, evals, k, log0, log1),
    decreases k,
{
    if k > 0 {
        let e = evals[k - 1];
        let mid = choose|mid: Seq<Event<H::Output>>|
            batch_opened::<F, H>(pp, polys, comms, points, evals, (k - 1) as nat, log0, mid)
                && #[trigger] opened::<F, H>(
                pp,
                vals(polys[e.poly as int]@),
                comms[e.poly as int],
                vals(points[e.point as int]@),
                mid,
                log1,
            );
        honest_batch_is_accepted::<F, H>(
            pp,
            polys,
            comms,
            points,
            evals,
            (k - 1) as nat,
            log0,
            mid,
        );
        vals_canon(polys[e.poly as int]@);
        honest_opening_is_accepted::<F, H>(
            pp,
            vals(polys[e.poly as int]@),
            comms[e.poly as int],
            vals(points[e.point as int]@),
            mid,
            log1,
        );
    }
}

/// The commitment scheme with field `F`, hash `H` and policy `S`.
#[derive(Debug)]
pub struct MultilinearQAPCS<F, H, S>(core::marker::PhantomData<(F, H, S)>);

impl<F: PrimeField, H: HashFunction, S: QAPCSSpec> MultilinearQAPCS<F, H, S> {
    /// Parameters for polynomials with `poly_size` evaluations over a field of
    /// `field_bits` bits. `queries[r]` is the number of column openings that
    /// rows of `2^r` entries need; `drawn` holds the random coefficients.
    pub fn setup(
        poly_size: usize,
        field_bits: usize,
        queries: &[usize],
        drawn: &[F],
    ) -> (r: Result<MultilinearQAPCSParams<F>, Error>)
        requires
            is_pow2(poly_size as int),
            forall|p: QAPCSPolicy| #[trigger]
                answers::<S>(p, field_bits) ==> searchable(
                    p,
                    log2(poly_size as int) as int,
                    field_bits as int,
                    queries@,
                ),
        ensures
            exists|p: QAPCSPolicy, s: QAPCSShape| #[trigger]
                answers::<S>(p, field_bits) && #[trigger] best_at(
                    s,
                    p,
                    log2(poly_size as int) as int,
                    s.row_log_size as int,
                    log2(poly_size as int) as int,
                    field_bits as int,
                    queries@,
                ) && (r is Ok <==> drawn@.len() == (p.inverse_rate - 1) * s.row_len) && (
                r matches Ok(param) ==> {
                    &&& param.wf()
                    &&& param.num_vars == log2(poly_size as int)
                    &&& param.num_rows == s.num_rows
                    &&& param.shape == s
                    &&& param.qa.row_len == s.row_len
                    &&& param.qa.num_column_opening == s.num_column_opening
                    &&& param.qa.num_proximity_testing == s.num_proximity_testing
                    &&& param.qa.qa_params.inverse_rate == p.inverse_rate
                    &&& param.qa.qa_params.coeffs() == rows_of(
                        vals(drawn@),
                        (p.inverse_rate - 1) as nat,
                        s.row_len as nat,
                    )
                }),
            r matches Err(e) ==> e is InvalidPcsParam,
    {
        let num_vars: usize = log2_power_of_two(poly_size);
        let p = policy_of::<S>(field_bits);
        let shape = search_shape(&p, num_vars, field_bits, queries);
        let ghost total = num_vars as int;
        let ghost rl = shape.row_log_size as int;
        proof {
            assert(shape_fits(p, total, rl, field_bits as int, queries@[rl] as int));
            exp2_is_pow2(rl as nat);
            exp2_adds((total - rl) as nat, rl as nat);
            exp2_is_pow2((total - rl) as nat);
            pow2_times(p.inverse_rate as int, rl as nat);
            assert((p.inverse_rate - 1) * shape.row_len <= p.inverse_rate * shape.row_len)
                by (nonlinear_arith);
        }
        if drawn.len() != (p.inverse_rate - 1) * shape.row_len {
            return Err(Error::param("wrong number of random QA coefficients"));
        }
        let qa = QACode::new_random(&shape, p.inverse_rate, drawn);
        Ok(MultilinearQAPCSParams { num_vars, num_rows: shape.num_rows, shape, qa })
    }

    /// Prover and verifier parameters for polynomials of one size.
    pub fn trim(param: &MultilinearQAPCSParams<F>, poly_size: usize) -> (r: Result<
        (MultilinearQAPCSParams<F>, MultilinearQAPCSParams<F>),
        Error,
    >)
        requires
            param.wf(),
        ensures
            r is Ok <==> poly_size == exp2(param.num_vars as nat),
            r matches Ok(pair) ==> param.same(pair.0) && param.same(pair.1),
            r matches Err(e) ==> e.is_param(
                "Can't trim MultilinearQAPCSParams into different poly_size",
            ),
    {
        if poly_size == power_of_two(param.num_vars) {
            Ok((param.duplicate(), param.duplicate()))
        } else {
            Err(Error::param("Can't trim MultilinearQAPCSParams into different poly_size"))
        }
    }

    /// Commits to a polynomial given by its evaluations.
    pub fn commit(pp: &MultilinearQAPCSParams<F>, poly: &[F]) -> (r: Result<
        MultilinearQAPCSCommitment<F, H>,
        Error,
    >)
        requires
            pp.wf(),
            poly@.len() >= exp2(pp.num_vars as nat),
        ensures
            r is Ok <==> poly@.len() == exp2(pp.num_vars as nat),
            r matches Ok(comm) ==> comm.commits_to(*pp, vals(poly@)),
            r matches Err(e) ==> e is InvalidPcsParam,
    {
        if poly.len() != power_of_two(pp.num_vars) {
            return Err(Error::param("too many variables of poly to commit"));
        }
        let row_len: usize = pp.row_len();
        let codeword_len: usize = pp.codeword_len();
        let ghost m = rows_of(vals(poly@), pp.num_rows as nat, row_len as nat);
        let ghost e = pp.qa.qa_params.coeffs();
        let ghost cw = encode_rows::<F>(m, e);
        let messages = split_rows(poly, pp.num_rows, row_len);
        let mut rows: Vec<Vec<F>> = Vec::new();
        let mut i: usize = 0;
        assert(mat(rows@) =~= cw.take(0));
        while i < pp.num_rows
            invariant
                i <= pp.num_rows,
                pp.wf(),
                row_len == pp.qa.row_len,
                messages@.len() == pp.num_rows,
                mat(messages@) == m,
                m.len() == pp.num_rows,
                e == pp.qa.qa_params.coeffs(),
                cw == encode_rows::<F>(m, e),
                forall|k: int| 0 <= k < pp.num_rows ==> (#[trigger] messages@[k])@.len() == row_len,
                mat(rows@) == cw.take(i as int),
            decreases pp.num_rows - i,
        {
            let row = qa_encode_codeword_only(&messages[i], pp.qa.qa_params());
            proof {
                assert(m[i as int] == vals(messages@[i as int]@));
                mat_push(rows@, row);
                assert(cw.take(i as int + 1) =~= cw.take(i as int).push(cw[i as int]));
            }
            rows.push(row);
            i = i + 1;
        }
        proof {
            assert(cw.take(i as int) =~= cw);
            rows_of_shape(vals(poly@), pp.num_rows as nat, row_len as nat);
            assert forall|k: int| 0 <= k < cw.len() implies (#[trigger] cw[k]).len()
                == codeword_len by {
                pp.qa.lemma_len(m[k]);
            }
        }
        let leaves = hash_columns::<H, F>(&rows, codeword_len);
        proof {
            flat_layers_shape::<H>(leaves@);
        }
        let mut hashes = merkelize_flat::<H>(leaves);
        let last: usize = hashes.len() - 1;
        let root = hashes[last];
        hashes.truncate(last);
        proof {
            let flat = flat_layers::<H>(leaves@);
            assert(hashes@ =~= flat.drop_last());
        }
        Ok(MultilinearQAPCSCommitment { rows, intermediate_hashes: hashes, root })
    }

    /// Commits to several polynomials.
    pub fn batch_commit(pp: &MultilinearQAPCSParams<F>, polys: &[Vec<F>]) -> (r: Result<
        Vec<MultilinearQAPCSCommitment<F, H>>,
        Error,
    >)
        requires
            pp.wf(),
            forall|i: int|
                0 <= i < polys@.len() ==> (#[trigger] polys@[i])@.len() >= exp2(
                    pp.num_vars as nat,
                ),
        ensures
            r is Ok <==> forall|i: int|
                0 <= i < polys@.len() ==> (#[trigger] polys@[i])@.len() == exp2(
                    pp.num_vars as nat,
                ),
            r matches Ok(comms) ==> comms@.len() == polys@.len() && forall|i: int|
                0 <= i < polys@.len() ==> (#[trigger] comms@[i]).commits_to(
                    *pp,
                    vals(polys@[i]@),
                ),
            r matches Err(e) ==> e is InvalidPcsParam,
    {
        let mut comms: Vec<MultilinearQAPCSCommitment<F, H>> = Vec::new();
        let mut i: usize = 0;
        while i < polys.len()
            invariant
                i <= polys@.len(),
                pp.wf(),
                comms@.len() == i,
                forall|k: int|
                    0 <= k < polys@.len() ==> (#[trigger] polys@[k])@.len() >= exp2(
                        pp.num_vars as nat,
                    ),
                forall|k: int|
                    0 <= k < i ==> (#[trigger] polys@[k])@.len() == exp2(pp.num_vars as nat),
                forall|k: int|
                    0 <= k < i ==> (#[trigger] comms@[k]).commits_to(*pp, vals(polys@[k]@)),
            decreases polys@.len() - i,
        {
            match Self::commit(pp, &polys[i]) {
                Ok(comm) => {
                    comms.push(comm);
                },
                Err(e) => {
                    return Err(e);
                },
            }
            i = i + 1;
        }
        Ok(comms)
    }

    /// Opens a committed polynomial at a point.
    pub fn open<T: TranscriptWrite<F, H::Output>>(
        pp: &MultilinearQAPCSParams<F>,
        poly: &[F],
        comm: &MultilinearQAPCSCommitment<F, H>,
        point: &[F],
        eval: F,
        transcript: &mut T,
    ) -> (r: Result<(), Error>)
        requires
            pp.wf(),
        ensures
            r is Ok ==> request_sized::<F, H>(*pp, poly@.len(), *comm, point@.len()) && eval.val()
                == mle::<F>(vals(poly@), vals(point@)) && opened::<F, H>(
                *pp,
                vals(poly@),
                *comm,
                vals(point@),
                old(transcript).log(),
                final(transcript).log(),
            ),
            !request_sized::<F, H>(*pp, poly@.len(), *comm, point@.len()) ==> r is Err
                && r->Err_0 is InvalidPcsParam && *final(transcript) == *old(transcript),
            request_sized::<F, H>(*pp, poly@.len(), *comm, point@.len()) && eval.val() != mle::<F>(
                vals(poly@),
                vals(point@),
            ) ==> r is Err && r->Err_0.is_open(
                "claimed QAPCS evaluation does not match the polynomial",
            ) && *final(transcript) == *old(transcript),
            request_sized::<F, H>(*pp, poly@.len(), *comm, point@.len()) && eval.val() == mle::<F>(
                vals(poly@),
                vals(point@),
            ) && T::infallible() ==> r is Ok,
            r matches Err(e) ==> !request_sized::<F, H>(*pp, poly@.len(), *comm, point@.len())
                || eval.val() != mle::<F>(vals(poly@), vals(point@)) || e is Transcript,
    {
        qapcs_open_full::<F, H, T>(pp, poly, comm, point, eval, transcript)
    }

    /// Opens several claims one after the other.
    pub fn batch_open<T: TranscriptWrite<F, H::Output>>(
        pp: &MultilinearQAPCSParams<F>,
        polys: &[Vec<F>],
        comms: &[MultilinearQAPCSCommitment<F, H>],
        points: &[Vec<F>],
        evals: &[Evaluation<F>],
        transcript: &mut T,
    ) -> (r: Result<(), Error>)
        requires
            pp.wf(),
            forall|i: int|
                0 <= i < evals@.len() ==> {
                    let e = #[trigger] evals@[i];
                    e.poly < polys@.len() && e.poly < comms@.len() && e.point < points@.len()
                },
        ensures
            r is Ok ==> batch_opened::<F, H>(
                *pp,
                polys@,
                comms@,
                points@,
                evals@,
                evals@.len(),
                old(transcript).log(),
                final(transcript).log(),
            ),
            T::infallible() && (forall|i: int|
                0 <= i < evals@.len() ==> {
                    let e = #[trigger] evals@[i];
                    request_sized::<F, H>(
                        *pp,
                        polys@[e.poly as int]@.len(),
                        comms@[e.poly as int],
                        points@[e.point as int]@.len(),
                    ) && e.value.val() == mle::<F>(
                        vals(polys@[e.poly as int]@),
                        vals(points@[e.point as int]@),
                    )
                }) ==> r is Ok,
            r matches Err(e) ==> e is Transcript || exists|k: nat|
                k < evals@.len() && #[trigger] batch_opened::<F, H>(
                    *pp,
                    polys@,
                    comms@,
                    points@,
                    evals@,
                    k,
                    old(transcript).log(),
                    final(transcript).log(),
                ) && claim_unopenable::<F, H>(*pp, polys@, comms@, points@, evals@[k as int], e),
    {
        let ghost log0 = transcript.log();
        let mut i: usize = 0;
        while i < evals.len()
            invariant
                i <= evals@.len(),
                log0 == old(transcript).log(),
                pp.wf(),
                forall|k: int|
                    0 <= k < evals@.len() ==> {
                        let e = #[trigger] evals@[k];
                        e.poly < polys@.len() && e.poly < comms@.len() && e.point < points@.len()
                    },
                batch_opened::<F, H>(
                    *pp,
                    polys@,
                    comms@,
                    points@,
                    evals@,
                    i as nat,
                    log0,
                    transcript.log(),
                ),
            decreases evals@.len() - i,
        {
            let ghost mid = transcript.log();
            let e = evals[i];
            match Self::open(
                pp,
                &polys[e.poly],
                &comms[e.poly],
                &points[e.point],
                e.value,
                transcript,
            ) {
                Ok(_) => {},
                Err(error) => {
                    proof {
                        if !(error is Transcript) {
                            assert(transcript.log() == mid);
                            assert(claim_unopenable::<F, H>(
                                *pp,
                                polys@,
                                comms@,
                                points@,
                                evals@[i as int],
                                error,
                            ));
                        }
                    }
                    return Err(error);
                },
            }
            i = i + 1;
        }
        Ok(())
    }

    /// Reads commitments, of which the transcript holds the roots.
    pub fn read_commitments<T: TranscriptRead<F, H::Output>>(
        num_polys: usize,
        transcript: &mut T,
    ) -> (r: Result<Vec<MultilinearQAPCSCommitment<F, H>>, Error>)
        ensures
            final(transcript).held() == old(transcript).held(),
            r matches Ok(comms) ==> comms@.len() == num_polys && (forall|i: int|
                0 <= i < num_polys ==> (#[trigger] comms@[i]).rows@.len() == 0
                    && comms@[i].intermediate_hashes@.len() == 0) && final(transcript).log() == old(
                transcript).log() + sent_commitments(
                Seq::new(num_polys as nat, |i: int| comms@[i].root),
            ),
            r matches Err(e) ==> cut_within(
                e,
                old(transcript).log(),
                final(transcript).log(),
                0,
                num_polys as nat,
            ),
    {
        let ghost log0 = transcript.log();
        let roots = match read_commitments::<F, H::Output, T>(transcript, num_polys) {
            Ok(roots) => roots,
            Err(e) => {
                return Err(e);
            },
        };
        let mut comms: Vec<MultilinearQAPCSCommitment<F, H>> = Vec::new();
        let mut i: usize = 0;
        while i < num_polys
            invariant
                i <= num_polys,
                roots@.len() == num_polys,
                comms@.len() == i,
                forall|k: int|
                    0 <= k < i ==> (#[trigger] comms@[k]).rows@.len() == 0
                        && comms@[k].intermediate_hashes@.len() == 0 && comms@[k].root == roots@[k],
            decreases num_polys - i,
        {
            comms.push(MultilinearQAPCSCommitment::from_root(roots[i]));
            i = i + 1;
        }
        assert(roots@ =~= Seq::new(num_polys as nat, |i: int| comms@[i].root));
        Ok(comms)
    }

    /// Verifies an opening of a committed polynomial at a point.
    pub fn verify<T: TranscriptRead<F, H::Output>>(
        vp: &MultilinearQAPCSParams<F>,
        comm: &MultilinearQAPCSCommitment<F, H>,
        point: &[F],
        eval: F,
        transcript: &mut T,
    ) -> (r: Result<(), Error>)
        requires
            vp.wf(),
        ensures
            final(transcript).held() == old(transcript).held(),
            verdict::<F, H>(
                *vp,
                comm.root,
                vals(point@),
                eval.val(),
                old(transcript).log(),
                final(transcript).log(),
                r,
            ),
            point@.len() != vp.num_vars ==> r is Err && r->Err_0 is InvalidPcsParam
                && *final(transcript) == *old(transcript),
    {
        qapcs_verify_full::<F, H, T>(vp, comm, point, eval, transcript)
    }

    /// Verifies several claims one after the other.
    pub fn batch_verify<T: TranscriptRead<F, H::Output>>(
        vp: &MultilinearQAPCSParams<F>,
        comms: &[MultilinearQAPCSCommitment<F, H>],
        points: &[Vec<F>],
        evals: &[Evaluation<F>],
        transcript: &mut T,
    ) -> (r: Result<(), Error>)
        requires
            vp.wf(),
            forall|i: int|
                0 <= i < evals@.len() ==> {
                    let e = #[trigger] evals@[i];
                    e.poly < comms@.len() && e.point < points@.len()
                },
        ensures
            final(transcript).held() == old(transcript).held(),
            batch_verdict::<F, H>(
                *vp,
                comms@,
                points@,
                evals@,
                old(transcript).log(),
                final(transcript).log(),
                r,
            ),
    {
        let ghost log0 = transcript.log();
        let mut i: usize = 0;
        while i < evals.len()
            invariant
                transcript.held() == old(transcript).held(),
                i <= evals@.len(),
                log0 == old(transcript).log(),
                vp.wf(),
                forall|k: int|
                    0 <= k < evals@.len() ==> {
                        let e = #[trigger] evals@[k];
                        e.poly < comms@.len() && e.point < points@.len()
                    },
                batch_verified::<F, H>(
                    *vp,
                    comms@,
                    points@,
                    evals@,
                    i as nat,
                    log0,
                    transcript.log(),
                ),
            decreases evals@.len() - i,
        {
            let ghost mid = transcript.log();
            let e = evals[i];
            match Self::verify(vp, &comms[e.poly], &points[e.point], e.value, transcript) {
                Ok(_) => {},
                Err(error) => {
                    assert(cut_within(
                        error,
                        mid,
                        transcript.log(),
                        proof_fields(*vp),
                        proof_digests(*vp),
                    ) || claim_refused::<F, H>(
                        *vp,
                        comms@,
                        points@,
                        evals@[i as int],
                        mid,
                        transcript.log(),
                        error,
                    ));
                    return Err(error);
                },
            }
            assert(verified::<F, H>(
                *vp,
                comms@[evals@[i as int].poly as int].root,
                vals(points@[evals@[i as int].point as int]@),
                evals@[i as int].value.val(),
                mid,
                transcript.log(),
            ));
            proof {
                batch_verified_step::<F, H>(
                    *vp,
                    comms@,
                    points@,
                    evals@,
                    i as nat,
                    log0,
                    mid,
                    transcript.log(),
                );
            }
            i = i + 1;
        }
        Ok(())
    }
}

} // verus!
