//! Evaluation proofs for sparse matrices: the sparse inner product and the
//! offline check of the memory that it reads.

use crate::claims::{same_point, Claim};
use crate::classic_sumcheck::{
    honest_run_is_accepted, instance_fits, round_error, run_events, sumcheck_prove,
    sumcheck_refused, sumcheck_verified, sumcheck_verify, sumcheck_went, terms_fit,
};
use crate::error::Error;
use crate::field::{
    canon, canon_consts, f_units, fadd, fmul, fmul_canon, red, val_canon, PrimeField, Residue,
};
use crate::linear::{
    column, dot, dot_canon, ints, mat, rect, vals, vals_canon, vcanon, vmul, vsum, vsum_push, vzero,
    zero_vec,
};
use crate::mle::{
    eq_at, eq_at_canon, eq_evals, eq_product, equality_mle_eval, equality_mle_evals_on_hypercube,
    eval_mle_from_evals, exp2, exp2_mono, log2, log2_power_of_two, mle, mle_of_eq_evals,
    pow2_is_exp2,
};
use crate::parity::{entries_of, Entry};
use crate::products::{
    eq_product_comm, honest_products_are_accepted, layers_shaped, layers_went, level, level_values,
    levels_after, product_events, products_fields, products_refused, products_verified,
    products_written, prove_products, verify_products, ProductProver, ProductVerifier,
};
use crate::qa_code::{copied, is_pow2};
use crate::spark_memory::{
    col_addresses, extend_point, extended, fetched, hash_memory, hash_memory_tuple, hashes_extend,
    identity, identity_eval, identity_extends_indices, indices, later, memory_hash, memory_hashes,
    memory_is_balanced, ones, pad_poly, padded, padding_keeps_evaluation, row_addresses,
    static_vectors, vprod, COL_ADDR, COL_AUDIT_TS, COL_READ_TS, MATRIX_VAL, ROW_ADDR, ROW_AUDIT_TS,
    ROW_READ_TS, SparkProverData,
};
use crate::sumcheck::{
    cube_sum, cube_sum_nil, cube_sum_push, product_small, summand, summand_push, term_values,
    values_at, ProductTerm, SumcheckInstance, Term,
};
use crate::transcript::{
    cut_later, cut_within, drawn, read_field_elements, sent_fields, went, went_on, went_plain,
    write_field_elements, Event, FieldTranscript, TranscriptRead, TranscriptWrite,
};
use vstd::prelude::*;

verus! {

/// A claim about the value of a committed polynomial.
pub struct OpeningClaim<F> {
    pub poly: usize,
    pub point: Vec<F>,
    pub value: F,
}

/// A claim as residues.
pub open spec fn claim_of<F: PrimeField>(c: OpeningClaim<F>) -> Claim {
    Claim { poly: c.poly as int, point: vals(c.point@), value: c.value.val() }
}

/// Claims as residues.
pub open spec fn claims_of<F: PrimeField>(s: Seq<OpeningClaim<F>>) -> Seq<Claim> {
    Seq::new(s.len(), |i: int| claim_of(s[i]))
}

impl<F: PrimeField> SparkProverData<F> {
    pub open spec fn mem_vars(self) -> nat {
        log2(self.num_mem_cells as int)
    }

    pub open spec fn ops_vars(self) -> nat {
        log2(self.num_ops as int)
    }

    pub open spec fn aux_vars(self) -> nat {
        log2(self.aux_len as int)
    }

    /// The fixed vectors before padding.
    pub open spec fn vectors(self) -> Seq<Seq<int>> {
        static_vectors::<F>(
            entries_of(self.entries@),
            self.num_ops as nat,
            self.num_mem_cells as nat,
        )
    }

    /// The rows that the accesses read.
    pub open spec fn rows(self) -> Seq<int> {
        row_addresses(entries_of(self.entries@), self.num_ops as nat)
    }

    /// The columns that the accesses read.
    pub open spec fn cols(self) -> Seq<int> {
        col_addresses(entries_of(self.entries@), self.num_ops as nat)
    }

    /// The memory that an extended point stands for.
    pub open spec fn memory(self, x: Seq<int>) -> Seq<int> {
        eq_evals::<F>(x)
    }

    /// What the accesses read in the memory of the row point.
    pub open spec fn row_reads(self, x: Seq<int>) -> Seq<int> {
        fetched(self.memory(x), self.rows())
    }

    /// What the accesses read in the memory of the column point.
    pub open spec fn col_reads(self, y: Seq<int>) -> Seq<int> {
        fetched(self.memory(y), self.cols())
    }
}

/// Sizes and ranges of well-formed data.
pub proof fn spark_shape<F: PrimeField>(spark: SparkProverData<F>)
    requires
        spark.wf(),
    ensures
        exp2(spark.mem_vars()) == spark.num_mem_cells,
        exp2(spark.ops_vars()) == spark.num_ops,
        exp2(spark.aux_vars()) == spark.aux_len,
        spark.mem_vars() <= spark.aux_vars(),
        spark.ops_vars() <= spark.aux_vars(),
        spark.vectors().len() == 7,
        forall|k: int|
            0 <= k < 7 ==> (#[trigger] spark.vectors()[k]).len() == if k == 4 || k == 6 {
                spark.num_mem_cells as nat
            } else {
                spark.num_ops as nat
            },
        forall|i: int|
            0 <= i < spark.num_ops ==> 0 <= #[trigger] spark.rows()[i] < spark.num_mem_cells,
        forall|i: int|
            0 <= i < spark.num_ops ==> 0 <= #[trigger] spark.cols()[i] < spark.num_mem_cells,
        spark.row_addr@.len() == spark.num_ops,
        spark.col_addr@.len() == spark.num_ops,
        spark.static_polys@.len() == 7,
        forall|k: int| 0 <= k < 7 ==> (#[trigger] spark.static_polys@[k])@.len() == spark.aux_len,
{
    pow2_is_exp2(spark.num_mem_cells as int);
    pow2_is_exp2(spark.num_ops as int);
    pow2_is_exp2(spark.aux_len as int);
    if spark.mem_vars() > spark.aux_vars() {
        exp2_mono(spark.aux_vars() + 1, spark.mem_vars());
        assert(exp2(spark.aux_vars() + 1) == 2 * exp2(spark.aux_vars()));
    }
    if spark.ops_vars() > spark.aux_vars() {
        exp2_mono(spark.aux_vars() + 1, spark.ops_vars());
        assert(exp2(spark.aux_vars() + 1) == 2 * exp2(spark.aux_vars()));
    }
    let e = entries_of(spark.entries@);
    assert(ints(spark.row_addr@).len() == spark.row_addr@.len());
    assert(ints(spark.col_addr@).len() == spark.col_addr@.len());
    assert forall|i: int| 0 <= i < spark.num_ops implies 0 <= #[trigger] spark.rows()[i]
        < spark.num_mem_cells by {
        if i < e.len() {
            assert(spark.entries@[i].row < spark.num_mem_cells);
        }
    }
    assert forall|i: int| 0 <= i < spark.num_ops implies 0 <= #[trigger] spark.cols()[i]
        < spark.num_mem_cells by {
        if i < e.len() {
            assert(spark.entries@[i].row < spark.num_mem_cells);
        }
    }
    assert(mat(spark.static_polys@).len() == spark.static_polys@.len());
    assert forall|k: int| 0 <= k < 7 implies (#[trigger] spark.static_polys@[k])@.len()
        == spark.aux_len by {
        let p = mat(spark.static_polys@)[k];
        assert(p.len() == spark.static_polys@[k]@.len());
        assert(p == padded(spark.vectors()[k], spark.aux_len as nat));
        assert(spark.vectors()[k].len() <= spark.aux_len);
    }
}

/// What the prover derives from the two points.
pub struct SparkWitness<F> {
    pub x_ext: Vec<F>,
    pub y_ext: Vec<F>,
    pub mem_x: Vec<F>,
    pub mem_y: Vec<F>,
    pub deref_row: Vec<F>,
    pub deref_col: Vec<F>,
    pub dynamic_polys: Vec<Vec<F>>,
}

impl<F: PrimeField> SparkWitness<F> {
    /// The extended row point.
    pub open spec fn x(self) -> Seq<int> {
        vals(self.x_ext@)
    }

    /// The extended column point.
    pub open spec fn y(self) -> Seq<int> {
        vals(self.y_ext@)
    }

    /// Memories and reads are those of the extended points.
    pub open spec fn wf(self, spark: SparkProverData<F>) -> bool {
        let (x, y) = (self.x(), self.y());
        &&& x.len() == spark.mem_vars()
        &&& y.len() == spark.mem_vars()
        &&& vals(self.mem_x@) == spark.memory(x)
        &&& vals(self.mem_y@) == spark.memory(y)
        &&& vals(self.deref_row@) == spark.row_reads(x)
        &&& vals(self.deref_col@) == spark.col_reads(y)
        &&& mat(self.dynamic_polys@) == seq![
            padded(spark.row_reads(x), spark.aux_len as nat),
            padded(spark.col_reads(y), spark.aux_len as nat),
        ]
    }
}

/// The values of a memory at some addresses.
fn fetch<F: PrimeField>(mem: &[F], addresses: &[usize]) -> (r: Vec<F>)
    requires
        forall|i: int| 0 <= i < addresses@.len() ==> #[trigger] addresses@[i] < mem@.len(),
    ensures
        vals(r@) == fetched(vals(mem@), ints(addresses@)),
        r@.len() == addresses@.len(),
{
    let mut out: Vec<F> = Vec::new();
    let mut i: usize = 0;
    while i < addresses.len()
        invariant
            i <= addresses@.len(),
            forall|i: int| 0 <= i < addresses@.len() ==> #[trigger] addresses@[i] < mem@.len(),
            out@.len() == i,
            forall|j: int| 0 <= j < i ==> #[trigger] out@[j] == mem@[addresses@[j] as int],
        decreases addresses@.len() - i,
    {
        out.push(mem[addresses[i]]);
        i = i + 1;
    }
    assert(vals(out@) =~= fetched(vals(mem@), ints(addresses@)));
    out
}

/// Expands the two points and reads their memories; the padded reads are what
/// the prover commits to.
pub fn spark_prove_start<F: PrimeField>(
    spark: &SparkProverData<F>,
    x: &[F],
    y: &[F],
) -> (r: SparkWitness<F>)
    requires
        spark.wf(),
        x@.len() <= spark.mem_vars(),
        y@.len() <= spark.mem_vars(),
    ensures
        r.wf(*spark),
        r.x() == extended(vals(x@), spark.mem_vars()),
        r.y() == extended(vals(y@), spark.mem_vars()),
{
    proof {
        spark_shape(*spark);
    }
    let mem_vars: usize = log2_power_of_two(spark.num_mem_cells);
    let x_ext = extend_point(x, mem_vars);
    let y_ext = extend_point(y, mem_vars);
    let mem_x = equality_mle_evals_on_hypercube(&x_ext);
    let mem_y = equality_mle_evals_on_hypercube(&y_ext);
    proof {
        assert(vals(mem_x@).len() == mem_x@.len());
        assert(vals(mem_y@).len() == mem_y@.len());
        assert forall|i: int| 0 <= i < spark.row_addr@.len() implies #[trigger] spark.row_addr@[i]
            < mem_x@.len() by {
            assert(ints(spark.row_addr@)[i] == spark.rows()[i]);
        }
        assert forall|i: int| 0 <= i < spark.col_addr@.len() implies #[trigger] spark.col_addr@[i]
            < mem_y@.len() by {
            assert(ints(spark.col_addr@)[i] == spark.cols()[i]);
        }
    }
    let deref_row = fetch(&mem_x, &spark.row_addr);
    let deref_col = fetch(&mem_y, &spark.col_addr);
    let mut dynamic_polys: Vec<Vec<F>> = Vec::new();
    dynamic_polys.push(pad_poly(copied(&deref_row), spark.aux_len));
    dynamic_polys.push(pad_poly(copied(&deref_col), spark.aux_len));
    let r = SparkWitness { x_ext, y_ext, mem_x, mem_y, deref_row, deref_col, dynamic_polys };
    assert(mat(r.dynamic_polys@) =~= seq![
        padded(spark.row_reads(r.x()), spark.aux_len as nat),
        padded(spark.col_reads(r.y()), spark.aux_len as nat),
    ]);
    r
}

/// The sum of the products of three vectors, entry by entry.
pub open spec fn triple_sum<F: Residue>(a: Seq<int>, b: Seq<int>, c: Seq<int>) -> int {
    vsum::<F>(vmul::<F>(vmul::<F>(a, b), c))
}

/// The value at two points of the extension of a sparse matrix.
pub open spec fn matrix_eval<F: Residue>(entries: Seq<Entry>, x: Seq<int>, y: Seq<int>) -> int {
    vsum::<F>(
        Seq::new(
            entries.len(),
            |k: int|
                fmul::<F>(
                    fmul::<F>(entries[k].value, eq_at::<F>(entries[k].row, x)),
                    eq_at::<F>(entries[k].col, y),
                ),
        ),
    )
}

/// What the accesses sum to is the value of the sparse matrix at the two
/// points: accesses behind the last cell add nothing.
pub proof fn accesses_evaluate_matrix<F: PrimeField>(
    spark: SparkProverData<F>,
    x: Seq<int>,
    y: Seq<int>,
)
    requires
        spark.wf(),
        x.len() == spark.mem_vars(),
        y.len() == spark.mem_vars(),
    ensures
        triple_sum::<F>(spark.vectors()[2], spark.row_reads(x), spark.col_reads(y)) == matrix_eval::<
            F,
        >(entries_of(spark.entries@), x, y),
{
    spark_shape(spark);
    let e = entries_of(spark.entries@);
    let goal = Seq::new(
        e.len(),
        |k: int|
            fmul::<F>(
                fmul::<F>(e[k].value, eq_at::<F>(e[k].row, x)),
                eq_at::<F>(e[k].col, y),
            ),
    );
    let all = vmul::<F>(
        vmul::<F>(spark.vectors()[2], spark.row_reads(x)),
        spark.col_reads(y),
    );
    let rest = vzero((spark.num_ops - e.len()) as nat);
    assert forall|i: int| 0 <= i < all.len() implies all[i] == (goal + rest)[i] by {
        let _ = (spark.rows()[i], spark.cols()[i]);
        if i >= e.len() {
            eq_at_canon::<F>(spark.rows()[i], x);
            eq_at_canon::<F>(spark.cols()[i], y);
            f_units::<F>(eq_at::<F>(spark.rows()[i], x));
            f_units::<F>(eq_at::<F>(spark.cols()[i], y));
        } else {
            assert(spark.entries@[i].row < spark.num_mem_cells);
        }
    }
    assert(all =~= goal + rest);
    crate::linear::vsum_concat::<F>(goal, rest);
    crate::linear::vsum_zero::<F>(rest.len());
    crate::linear::vsum_canon::<F>(goal);
    f_units::<F>(vsum::<F>(goal));
}

/// Sums the products of three vectors, entry by entry.
fn sum_of_products<F: PrimeField>(a: &[F], b: &[F], c: &[F]) -> (r: F)
    requires
        a@.len() == b@.len() == c@.len(),
    ensures
        r.val() == triple_sum::<F>(vals(a@), vals(b@), vals(c@)),
{
    let ghost all = vmul::<F>(vmul::<F>(vals(a@), vals(b@)), vals(c@));
    let mut acc = F::zero();
    let mut i: usize = 0;
    assert(all.take(0) =~= Seq::empty());
    while i < a.len()
        invariant
            i <= a@.len(),
            a@.len() == b@.len() == c@.len(),
            all == vmul::<F>(vmul::<F>(vals(a@), vals(b@)), vals(c@)),
            acc.val() == vsum::<F>(all.take(i as int)),
        decreases a@.len() - i,
    {
        proof {
            assert(all.take(i as int + 1) =~= all.take(i as int).push(all[i as int]));
            vsum_push::<F>(all.take(i as int), all[i as int]);
        }
        acc = acc.plus(a[i].times(b[i]).times(c[i]));
        i = i + 1;
    }
    assert(all.take(i as int) =~= all);
    acc
}

/// The first entries of a vector.
fn prefix<F: PrimeField>(v: &[F], n: usize) -> (r: Vec<F>)
    requires
        n <= v@.len(),
    ensures
        vals(r@) == vals(v@).take(n as int),
        r@.len() == n,
{
    let r = copied(vstd::slice::slice_subrange(v, 0, n));
    assert(vals(r@) =~= vals(v@).take(n as int));
    r
}

/// The single term of a triple product.
pub open spec fn triple_terms() -> Seq<Term> {
    seq![Term { coeff: 1, factors: seq![0usize, 1, 2] }]
}

/// The sum-check over the products of three vectors.
pub fn triple_product_instance<F: PrimeField>(
    a: Vec<F>,
    b: Vec<F>,
    c: Vec<F>,
    num_vars: usize,
    sum: F,
) -> (r: SumcheckInstance<F>)
    requires
        a@.len() == exp2(num_vars as nat),
        b@.len() == a@.len(),
        c@.len() == a@.len(),
    ensures
        instance_fits(r),
        r.num_vars == num_vars,
        r.degree == 3,
        r.claim == sum,
        r.terms_spec() == triple_terms(),
        mat(r.polys@) == seq![vals(a@), vals(b@), vals(c@)],
        r.holds() <==> sum.val() == triple_sum::<F>(vals(a@), vals(b@), vals(c@)),
{
    let _size: usize = a.len();
    let ghost (va, vb, vc) = (vals(a@), vals(b@), vals(c@));
    proof {
        vals_canon(a@);
    }
    let mut polys: Vec<Vec<F>> = Vec::new();
    polys.push(a);
    polys.push(b);
    polys.push(c);
    let mut factors: Vec<usize> = Vec::new();
    factors.push(0);
    factors.push(1);
    factors.push(2);
    let mut terms: Vec<ProductTerm<F>> = Vec::new();
    assert(factors@ =~= seq![0usize, 1, 2]);
    terms.push(ProductTerm { coeff: F::one(), factors });
    let r = SumcheckInstance { num_vars, degree: 3, polys, terms, claim: sum };
    proof {
        let p = seq![va, vb, vc];
        assert(mat(r.polys@) =~= p);
        assert(r.terms_spec() =~= triple_terms());
        triple_cube_sum::<F>(va, vb, vc, exp2(num_vars as nat));
        assert(r.terms@[0].factors@.len() == 3);
    }
    r
}

/// The sum over the hypercube of a triple product.
pub proof fn triple_cube_sum<F: Residue>(a: Seq<int>, b: Seq<int>, c: Seq<int>, n: nat)
    requires
        a.len() == b.len() == c.len() == n,
        vcanon::<F>(a),
    ensures
        cube_sum::<F>(triple_terms(), seq![a, b, c], n) == triple_sum::<F>(a, b, c),
{
    let p = seq![a, b, c];
    let t = triple_terms()[0];
    cube_sum_push::<F>(Seq::empty(), t, p, n);
    cube_sum_nil::<F>(p, n);
    assert(triple_terms() =~= Seq::empty().push(t));
    let all = vmul::<F>(vmul::<F>(a, b), c);
    assert forall|i: int| 0 <= i < n implies term_values::<F>(t, p, n)[i] == all[i] by {
        let col = column(p, i);
        product_small::<F>(0, 1, 2, col);
        fmul_canon::<F>(fmul::<F>(a[i], b[i]), c[i]);
        f_units::<F>(all[i]);
    }
    assert(term_values::<F>(t, p, n) =~= all);
    crate::linear::vsum_canon::<F>(all);
    f_units::<F>(vsum::<F>(all));
}

/// Writes the values of the three vectors at the point of the sum-check.
pub fn prove_triple_product_finish<F: PrimeField, O, T: TranscriptWrite<F, O>>(
    instance: &SumcheckInstance<F>,
    point: &[F],
    transcript: &mut T,
) -> (r: Result<[F; 3], Error>)
    requires
        instance.wf(),
        instance.polys@.len() == 3,
        point@.len() == instance.num_vars,
    ensures
        T::infallible() ==> r is Ok,
        r matches Err(e) ==> e is Transcript,
        r matches Ok(evals) ==> {
            &&& vals(evals@) == values_at::<F>(mat(instance.polys@), vals(point@))
            &&& final(transcript).log() == old(transcript).log() + sent_fields(vals(evals@))
        },
{
    proof {
        assert(mat(instance.polys@)[0].len() == instance.polys@[0]@.len());
        assert(mat(instance.polys@)[1].len() == instance.polys@[1]@.len());
        assert(mat(instance.polys@)[2].len() == instance.polys@[2]@.len());
    }
    let evals = [
        eval_mle_from_evals(&instance.polys[0], point),
        eval_mle_from_evals(&instance.polys[1], point),
        eval_mle_from_evals(&instance.polys[2], point),
    ];
    assert(vals(evals@) =~= values_at::<F>(mat(instance.polys@), vals(point@)));
    match write_field_elements(transcript, &evals) {
        Ok(_) => Ok(evals),
        Err(e) => Err(e),
    }
}

/// Whether a sum-check over a triple product ends in the product of the values.
pub open spec fn triple_accepted<F: Residue>(terminal: int, evals: Seq<int>) -> bool {
    terminal == fmul::<F>(fmul::<F>(evals[0], evals[1]), evals[2])
}

/// Three values were read and their product is not the end of the sum-check.
pub open spec fn triple_refused<F: Residue, O>(
    terminal: int,
    log0: Seq<Event<O>>,
    log1: Seq<Event<O>>,
) -> bool {
    exists|evals: Seq<int>|
        {
            &&& evals.len() == 3
            &&& log1 == log0 + #[trigger] sent_fields(evals)
            &&& !triple_accepted::<F>(terminal, evals)
        }
}

/// Reads the values of the three vectors and holds the end of the sum-check to
/// their product.
pub fn verify_triple_product_finish<F: PrimeField, O, T: TranscriptRead<F, O>>(
    terminal: F,
    transcript: &mut T,
) -> (r: Result<[F; 3], Error>)
    ensures
        final(transcript).held() == old(transcript).held(),
        r matches Ok(evals) ==> {
            &&& triple_accepted::<F>(terminal.val(), vals(evals@))
            &&& final(transcript).log() == old(transcript).log() + sent_fields(vals(evals@))
        },
        r matches Err(e) ==> cut_within(
            e,
            old(transcript).log(),
            final(transcript).log(),
            3,
            0,
        ) || (e.is_open("SPARK sparse dot-product failed")
            && triple_refused::<F, O>(
            terminal.val(),
            old(transcript).log(),
            final(transcript).log(),
        )),
{
    let values = match read_field_elements(transcript, 3) {
        Ok(values) => values,
        Err(e) => {
            return Err(e);
        },
    };
    let evals = [values[0], values[1], values[2]];
    proof {
        assert(vals(evals@) =~= vals(values@));
    }
    if !terminal.equals(evals[0].times(evals[1]).times(evals[2])) {
        return Err(Error::open("SPARK sparse dot-product failed"));
    }
    Ok(evals)
}

/// Answered with the values of its vectors, the sum-check over a triple product
/// ends in what the verifier expects.
pub proof fn honest_triple_product_is_accepted<F: Residue>(
    a: Seq<int>,
    b: Seq<int>,
    c: Seq<int>,
    z: Seq<int>,
)
    ensures
        triple_accepted::<F>(
            summand::<F>(triple_terms(), values_at::<F>(seq![a, b, c], z)),
            values_at::<F>(seq![a, b, c], z),
        ),
{
    let v = values_at::<F>(seq![a, b, c], z);
    let t = triple_terms()[0];
    assert(triple_terms() =~= Seq::empty().push(t));
    summand_push::<F>(Seq::empty(), t, v);
    dot_canon::<F>(a, eq_evals::<F>(z));
    product_small::<F>(0, 1, 2, v);
    let p = fmul::<F>(fmul::<F>(v[0], v[1]), v[2]);
    fmul_canon::<F>(fmul::<F>(v[0], v[1]), v[2]);
    f_units::<F>(p);
}

/// Proves the sum of the products of three vectors, entry by entry, and writes
/// their values at the point of the sum-check.
pub fn prove_triple_product<F: PrimeField, O, T: TranscriptWrite<F, O>>(
    instance: &SumcheckInstance<F>,
    transcript: &mut T,
) -> (r: Result<(Vec<F>, [F; 3]), Error>)
    requires
        instance_fits(*instance),
        instance.polys@.len() == 3,
    ensures
        T::infallible() ==> r is Ok,
        r matches Err(e) ==> e is Transcript,
        r matches Ok(end) ==> {
            let z = vals(end.0@);
            &&& end.0@.len() == instance.num_vars
            &&& vals(end.1@) == values_at::<F>(mat(instance.polys@), z)
            &&& final(transcript).log() == old(transcript).log() + run_events::<F, O>(
                instance.terms_spec(),
                mat(instance.polys@),
                instance.degree as nat,
                z,
            ) + sent_fields(vals(end.1@))
        },
{
    let (point, _evals) = match sumcheck_prove(instance, transcript) {
        Ok(answer) => answer,
        Err(e) => {
            return Err(e);
        },
    };
    match prove_triple_product_finish(instance, &point, transcript) {
        Ok(evals) => Ok((point, evals)),
        Err(e) => Err(e),
    }
}

/// The sum-check over a triple product was read and ends in the product of the
/// values read after it.
pub open spec fn triple_verified<F: PrimeField, O>(
    num_vars: nat,
    sum: int,
    point: Seq<int>,
    evals: Seq<int>,
    log0: Seq<Event<O>>,
    log1: Seq<Event<O>>,
) -> bool {
    exists|terminal: int, mid: Seq<Event<O>>|
        {
            &&& #[trigger] sumcheck_verified::<F, O>(
                num_vars,
                3,
                sum,
                terminal,
                point,
                log0,
                mid,
            )
            &&& triple_accepted::<F>(terminal, evals)
            &&& log1 == mid + sent_fields(evals)
        }
}

/// The sum-check over a triple product was read and does not end in the product
/// of the values read after it.
pub open spec fn triple_unverified<F: PrimeField, O>(
    num_vars: nat,
    sum: int,
    log0: Seq<Event<O>>,
    log1: Seq<Event<O>>,
) -> bool {
    exists|terminal: int, point: Seq<int>, mid: Seq<Event<O>>|
        {
            &&& #[trigger] sumcheck_verified::<F, O>(
                num_vars,
                3,
                sum,
                terminal,
                point,
                log0,
                mid,
            )
            &&& triple_refused::<F, O>(terminal, mid, log1)
        }
}

/// How many field elements the sum of a triple product sends.
pub open spec fn triple_fields(num_vars: nat) -> nat {
    num_vars * 4 + 3
}

/// How many messages the sum of a triple product has.
pub proof fn triple_went<F: PrimeField, O>(
    num_vars: nat,
    sum: int,
    point: Seq<int>,
    evals: Seq<int>,
    log0: Seq<Event<O>>,
    log1: Seq<Event<O>>,
)
    requires
        triple_verified::<F, O>(num_vars, sum, point, evals, log0, log1),
        evals.len() == 3,
    ensures
        went(log0, log1, triple_fields(num_vars), 0),
{
    let (terminal, mid) = choose|terminal: int, mid: Seq<Event<O>>|
        {
            &&& #[trigger] sumcheck_verified::<F, O>(
                num_vars,
                3,
                sum,
                terminal,
                point,
                log0,
                mid,
            )
            &&& triple_accepted::<F>(terminal, evals)
            &&& log1 == mid + sent_fields(evals)
        };
    sumcheck_went::<F, O>(num_vars, 3, sum, terminal, point, log0, mid);
    went_plain::<O>(mid, evals, Seq::empty());
}

/// Verifies the sum of the products of three vectors.
pub fn verify_triple_product<F: PrimeField, O, T: TranscriptRead<F, O>>(
    num_vars: usize,
    sum: F,
    transcript: &mut T,
) -> (r: Result<(Vec<F>, [F; 3]), Error>)
    ensures
        final(transcript).held() == old(transcript).held(),
        ({
            let (log0, log1) = (old(transcript).log(), final(transcript).log());
            &&& r matches Ok(end) ==> end.0@.len() == num_vars && triple_verified::<F, O>(
                num_vars as nat,
                sum.val(),
                vals(end.0@),
                vals(end.1@),
                log0,
                log1,
            )
            &&& r matches Err(e) ==> {
                ||| cut_within(e, log0, log1, triple_fields(num_vars as nat), 0)
                ||| round_error(e) && sumcheck_refused::<F, O>(
                    num_vars as nat,
                    3,
                    sum.val(),
                    log0,
                    log1,
                )
                ||| e.is_open("SPARK sparse dot-product failed") && triple_unverified::<F, O>(
                    num_vars as nat,
                    sum.val(),
                    log0,
                    log1,
                )
            }
        }),
{
    let ghost log0 = transcript.log();
    let ghost rounds = num_vars as nat * 4;
    let ghost all = triple_fields(num_vars as nat);
    let (terminal, point) = match sumcheck_verify(num_vars, 3, sum, transcript) {
        Ok(end) => end,
        Err(e) => {
            proof {
                if cut_within(e, log0, transcript.log(), rounds, 0) {
                    assert(went(log0, log0, 0, 0));
                    cut_later(e, log0, log0, transcript.log(), 0, 0, rounds, 0, all, 0);
                }
            }
            return Err(e);
        },
    };
    let ghost mid = transcript.log();
    proof {
        sumcheck_went::<F, O>(
            num_vars as nat,
            3,
            sum.val(),
            terminal.val(),
            vals(point@),
            log0,
            mid,
        );
    }
    match verify_triple_product_finish(terminal, transcript) {
        Ok(evals) => Ok((point, evals)),
        Err(e) => {
            proof {
                if cut_within(e, mid, transcript.log(), 3, 0) {
                    cut_later(e, log0, mid, transcript.log(), rounds, 0, 3, 0, all, 0);
                }
            }
            Err(e)
        },
    }
}

/// Draws the two challenges of the memory check.
pub fn spark_challenges<F: PrimeField, O, T: FieldTranscript<F, O>>(transcript: &mut T) -> (r: (
    F,
    F,
))
    ensures
        final(transcript).held() == old(transcript).held(),
        final(transcript).log() == old(transcript).log() + drawn(seq![r.0.val(), r.1.val()]),
{
    let ghost log0 = transcript.log();
    let gamma = transcript.squeeze_challenge();
    let tau = transcript.squeeze_challenge();
    assert(transcript.log() =~= log0 + drawn(seq![gamma.val(), tau.val()]));
    (gamma, tau)
}

/// Holds the claimed value of the matrix to what the accesses sum to and
/// states the sum-check over them.
pub fn spark_prove_dot<F: PrimeField>(
    spark: &SparkProverData<F>,
    witness: &SparkWitness<F>,
    claimed_eval: F,
) -> (r: Result<SumcheckInstance<F>, Error>)
    requires
        spark.wf(),
        witness.wf(*spark),
    ensures
        r is Ok <==> claimed_eval.val() == matrix_eval::<F>(
            entries_of(spark.entries@),
            witness.x(),
            witness.y(),
        ),
        r matches Err(e) ==> e.is_open("SPARK witness does not match claimed matrix evaluation"),
        r matches Ok(instance) ==> {
            &&& instance_fits(instance)
            &&& instance.holds()
            &&& instance.num_vars == spark.ops_vars()
            &&& instance.degree == 3
            &&& instance.claim == claimed_eval
            &&& instance.terms_spec() == triple_terms()
            &&& mat(instance.polys@) == seq![
                spark.vectors()[2],
                spark.row_reads(witness.x()),
                spark.col_reads(witness.y()),
            ]
        },
{
    proof {
        spark_shape(*spark);
        accesses_evaluate_matrix(*spark, witness.x(), witness.y());
        assert(vals(witness.deref_row@).len() == witness.deref_row@.len());
        assert(vals(witness.deref_col@).len() == witness.deref_col@.len());
    }
    let values = prefix(&spark.static_polys[MATRIX_VAL], spark.num_ops);
    proof {
        assert(mat(spark.static_polys@)[2] == padded(spark.vectors()[2], spark.aux_len as nat));
        assert(vals(values@) =~= spark.vectors()[2]);
    }
    let sparse_eval = sum_of_products(&values, &witness.deref_row, &witness.deref_col);
    if !sparse_eval.equals(claimed_eval) {
        return Err(Error::open("SPARK witness does not match claimed matrix evaluation"));
    }
    let ops_vars: usize = log2_power_of_two(spark.num_ops);
    Ok(
        triple_product_instance(
            values,
            copied(&witness.deref_row),
            copied(&witness.deref_col),
            ops_vars,
            claimed_eval,
        ),
    )
}

/// Extending a point keeps the equality polynomial at the indices it has.
pub proof fn extension_keeps_eq<F: Residue>(i: int, x: Seq<int>, num_vars: nat)
    requires
        0 <= i < exp2(x.len()),
        x.len() <= num_vars,
    ensures
        eq_at::<F>(i, extended(x, num_vars)) == eq_at::<F>(i, x),
    decreases num_vars,
{
    let xe = extended(x, num_vars);
    if num_vars == x.len() {
        assert(xe =~= x);
    } else {
        let d = (num_vars - 1) as nat;
        extension_keeps_eq::<F>(i, x, d);
        exp2_mono(x.len(), d);
        assert(xe.drop_last() =~= extended(x, d));
        assert(xe.last() == 0);
        canon_consts::<F>();
        f_units::<F>(1);
        eq_at_canon::<F>(i, x);
        f_units::<F>(eq_at::<F>(i, x));
    }
}

/// Extending the points keeps the value of a sparse matrix.
pub proof fn extension_keeps_matrix_eval<F: Residue>(
    entries: Seq<Entry>,
    x: Seq<int>,
    y: Seq<int>,
    num_vars: nat,
)
    requires
        x.len() <= num_vars,
        y.len() <= num_vars,
        forall|k: int|
            0 <= k < entries.len() ==> 0 <= (#[trigger] entries[k]).row < exp2(x.len()) && 0
                <= entries[k].col < exp2(y.len()),
    ensures
        matrix_eval::<F>(entries, extended(x, num_vars), extended(y, num_vars)) == matrix_eval::<F>(
            entries,
            x,
            y,
        ),
{
    let (xe, ye) = (extended(x, num_vars), extended(y, num_vars));
    assert forall|k: int| 0 <= k < entries.len() implies {
        &&& eq_at::<F>((#[trigger] entries[k]).row, xe) == eq_at::<F>(entries[k].row, x)
        &&& eq_at::<F>(entries[k].col, ye) == eq_at::<F>(entries[k].col, y)
    } by {
        extension_keeps_eq::<F>(entries[k].row, x, num_vars);
        extension_keeps_eq::<F>(entries[k].col, y, num_vars);
    }
    assert(Seq::new(
        entries.len(),
        |k: int|
            fmul::<F>(
                fmul::<F>(entries[k].value, eq_at::<F>(entries[k].row, xe)),
                eq_at::<F>(entries[k].col, ye),
            ),
    ) =~= Seq::new(
        entries.len(),
        |k: int|
            fmul::<F>(
                fmul::<F>(entries[k].value, eq_at::<F>(entries[k].row, x)),
                eq_at::<F>(entries[k].col, y),
            ),
    ));
}

/// The hashes of the accesses: rows read and written, columns read and written.
pub open spec fn ops_leaves<F: PrimeField>(
    spark: SparkProverData<F>,
    x: Seq<int>,
    y: Seq<int>,
    gamma: int,
    tau: int,
) -> Seq<Seq<int>> {
    let v = spark.vectors();
    let (rows, cols) = (spark.row_reads(x), spark.col_reads(y));
    seq![
        memory_hashes::<F>(v[0], rows, v[3], gamma, tau),
        memory_hashes::<F>(v[0], rows, later::<F>(v[3]), gamma, tau),
        memory_hashes::<F>(v[1], cols, v[5], gamma, tau),
        memory_hashes::<F>(v[1], cols, later::<F>(v[5]), gamma, tau),
    ]
}

/// The hashes of the cells: rows at first and at last, columns at first and at
/// last.
pub open spec fn mem_leaves<F: PrimeField>(
    spark: SparkProverData<F>,
    x: Seq<int>,
    y: Seq<int>,
    gamma: int,
    tau: int,
) -> Seq<Seq<int>> {
    let v = spark.vectors();
    let n = spark.num_mem_cells as nat;
    let cells = indices::<F>(n);
    seq![
        memory_hashes::<F>(cells, spark.memory(x), vzero(n), gamma, tau),
        memory_hashes::<F>(cells, spark.memory(x), v[4], gamma, tau),
        memory_hashes::<F>(cells, spark.memory(y), vzero(n), gamma, tau),
        memory_hashes::<F>(cells, spark.memory(y), v[6], gamma, tau),
    ]
}

/// Every timestamp one later.
fn one_later<F: PrimeField>(times: &[F]) -> (r: Vec<F>)
    ensures
        vals(r@) == later::<F>(vals(times@)),
        r@.len() == times@.len(),
{
    let mut out: Vec<F> = Vec::new();
    let mut i: usize = 0;
    while i < times.len()
        invariant
            i <= times@.len(),
            out@.len() == i,
            forall|j: int|
                0 <= j < i ==> (#[trigger] out@[j]).val() == fadd::<F>(times@[j].val(), 1),
        decreases times@.len() - i,
    {
        out.push(times[i].plus(F::one()));
        i = i + 1;
    }
    assert(vals(out@) =~= later::<F>(vals(times@)));
    out
}

/// The indices of the cells as field elements.
fn index_vector<F: PrimeField>(n: usize) -> (r: Vec<F>)
    ensures
        vals(r@) == indices::<F>(n as nat),
        r@.len() == n,
{
    let mut out: Vec<F> = Vec::new();
    let mut i: usize = 0;
    while i < n
        invariant
            i <= n,
            out@.len() == i,
            forall|j: int| 0 <= j < i ==> (#[trigger] out@[j]).val() == red::<F>(j),
        decreases n - i,
    {
        let x = F::from_u64(i as u64);
        assert(x.val() == red::<F>(i as int)) by {
            reveal(red);
        }
        out.push(x);
        i = i + 1;
    }
    assert(vals(out@) =~= indices::<F>(n as nat));
    out
}

/// One of the fixed vectors without its padding.
fn static_vector<F: PrimeField>(spark: &SparkProverData<F>, k: usize) -> (r: Vec<F>)
    requires
        spark.wf(),
        k < 7,
    ensures
        vals(r@) == spark.vectors()[k as int],
        r@.len() == spark.vectors()[k as int].len(),
{
    proof {
        spark_shape(*spark);
        let _ = spark.vectors()[k as int];
        let _ = spark.static_polys@[k as int];
    }
    let n: usize = if k == ROW_AUDIT_TS || k == COL_AUDIT_TS {
        spark.num_mem_cells
    } else {
        spark.num_ops
    };
    let r = prefix(&spark.static_polys[k], n);
    proof {
        assert(mat(spark.static_polys@)[k as int] == padded(
            spark.vectors()[k as int],
            spark.aux_len as nat,
        ));
        assert(vals(r@) =~= spark.vectors()[k as int]);
    }
    r
}

/// Hashes the accesses.
pub fn spark_ops_leaves<F: PrimeField>(
    spark: &SparkProverData<F>,
    witness: &SparkWitness<F>,
    gamma: F,
    tau: F,
) -> (r: Vec<Vec<F>>)
    requires
        spark.wf(),
        witness.wf(*spark),
    ensures
        mat(r@) == ops_leaves(*spark, witness.x(), witness.y(), gamma.val(), tau.val()),
        r@.len() == 4,
        rect(mat(r@), spark.num_ops as nat),
        r@[0]@.len() == spark.num_ops,
{
    proof {
        spark_shape(*spark);
        assert(vals(witness.deref_row@).len() == witness.deref_row@.len());
        assert(vals(witness.deref_col@).len() == witness.deref_col@.len());
    }
    let row_addr = static_vector(spark, ROW_ADDR);
    let col_addr = static_vector(spark, COL_ADDR);
    let row_ts = static_vector(spark, ROW_READ_TS);
    let col_ts = static_vector(spark, COL_READ_TS);
    let row_later = one_later(&row_ts);
    let col_later = one_later(&col_ts);
    let mut out: Vec<Vec<F>> = Vec::new();
    out.push(hash_memory(&row_addr, &witness.deref_row, &row_ts, gamma, tau));
    out.push(hash_memory(&row_addr, &witness.deref_row, &row_later, gamma, tau));
    out.push(hash_memory(&col_addr, &witness.deref_col, &col_ts, gamma, tau));
    out.push(hash_memory(&col_addr, &witness.deref_col, &col_later, gamma, tau));
    assert(mat(out@) =~= ops_leaves(*spark, witness.x(), witness.y(), gamma.val(), tau.val()));
    out
}

/// Hashes the cells of the memories.
pub fn spark_mem_leaves<F: PrimeField>(
    spark: &SparkProverData<F>,
    witness: &SparkWitness<F>,
    gamma: F,
    tau: F,
) -> (r: Vec<Vec<F>>)
    requires
        spark.wf(),
        witness.wf(*spark),
    ensures
        mat(r@) == mem_leaves(*spark, witness.x(), witness.y(), gamma.val(), tau.val()),
        r@.len() == 4,
        rect(mat(r@), spark.num_mem_cells as nat),
        r@[0]@.len() == spark.num_mem_cells,
{
    proof {
        spark_shape(*spark);
        assert(vals(witness.mem_x@).len() == witness.mem_x@.len());
        assert(vals(witness.mem_y@).len() == witness.mem_y@.len());
    }
    let cells = index_vector::<F>(spark.num_mem_cells);
    let zeros = zero_vec::<F>(spark.num_mem_cells);
    let row_audit = static_vector(spark, ROW_AUDIT_TS);
    let col_audit = static_vector(spark, COL_AUDIT_TS);
    proof {
        assert(vals(zeros@).len() == zeros@.len());
    }
    let mut out: Vec<Vec<F>> = Vec::new();
    out.push(hash_memory(&cells, &witness.mem_x, &zeros, gamma, tau));
    out.push(hash_memory(&cells, &witness.mem_x, &row_audit, gamma, tau));
    out.push(hash_memory(&cells, &witness.mem_y, &zeros, gamma, tau));
    out.push(hash_memory(&cells, &witness.mem_y, &col_audit, gamma, tau));
    assert(mat(out@) =~= mem_leaves(*spark, witness.x(), witness.y(), gamma.val(), tau.val()));
    out
}

/// The products of reads, writes, first and last cells balance.
pub open spec fn balanced<F: Residue>(ops_roots: Seq<int>, mem_roots: Seq<int>) -> bool {
    &&& fmul::<F>(mem_roots[0], ops_roots[1]) == fmul::<F>(ops_roots[0], mem_roots[1])
    &&& fmul::<F>(mem_roots[2], ops_roots[3]) == fmul::<F>(ops_roots[2], mem_roots[3])
}

/// Whether the products of reads, writes, first and last cells balance.
pub fn memory_balanced<F: PrimeField>(ops_roots: &[F], mem_roots: &[F]) -> (r: bool)
    requires
        ops_roots@.len() == 4,
        mem_roots@.len() == 4,
    ensures
        r == balanced::<F>(vals(ops_roots@), vals(mem_roots@)),
{
    mem_roots[0].times(ops_roots[1]).equals(ops_roots[0].times(mem_roots[1]))
        && mem_roots[2].times(ops_roots[3]).equals(ops_roots[2].times(mem_roots[3]))
}

/// The hashes of one access from the values of its addresses, timestamps and
/// reads.
pub open spec fn ops_expected<F: Residue>(v: Seq<int>, gamma: int, tau: int) -> Seq<int> {
    seq![
        memory_hash::<F>(v[0], v[4], v[1], gamma, tau),
        memory_hash::<F>(v[0], v[4], fadd::<F>(v[1], 1), gamma, tau),
        memory_hash::<F>(v[2], v[5], v[3], gamma, tau),
        memory_hash::<F>(v[2], v[5], fadd::<F>(v[3], 1), gamma, tau),
    ]
}

/// Hashes an access from the values of its addresses, timestamps and reads.
pub fn expected_ops<F: PrimeField>(values: &[F], gamma: F, tau: F) -> (r: Vec<F>)
    requires
        values@.len() == 6,
    ensures
        vals(r@) == ops_expected::<F>(vals(values@), gamma.val(), tau.val()),
{
    let row_later = values[1].plus(F::one());
    let col_later = values[3].plus(F::one());
    let mut out: Vec<F> = Vec::new();
    out.push(hash_memory_tuple(values[0], values[4], values[1], gamma, tau));
    out.push(hash_memory_tuple(values[0], values[4], row_later, gamma, tau));
    out.push(hash_memory_tuple(values[2], values[5], values[3], gamma, tau));
    out.push(hash_memory_tuple(values[2], values[5], col_later, gamma, tau));
    assert(vals(out@) =~= ops_expected::<F>(vals(values@), gamma.val(), tau.val()));
    out
}

/// The hashes of the cells at a point of the memory.
pub open spec fn mem_expected<F: Residue>(
    point: Seq<int>,
    x: Seq<int>,
    y: Seq<int>,
    audit: Seq<int>,
    gamma: int,
    tau: int,
) -> Seq<int> {
    let address = identity::<F>(point);
    let row = eq_product::<F>(point, x);
    let col = eq_product::<F>(point, y);
    seq![
        memory_hash::<F>(address, row, 0, gamma, tau),
        memory_hash::<F>(address, row, audit[0], gamma, tau),
        memory_hash::<F>(address, col, 0, gamma, tau),
        memory_hash::<F>(address, col, audit[1], gamma, tau),
    ]
}

/// Hashes the cells at a point of the memory.
pub fn expected_mem<F: PrimeField>(
    point: &[F],
    x_ext: &[F],
    y_ext: &[F],
    audit: &[F],
    gamma: F,
    tau: F,
) -> (r: Vec<F>)
    requires
        point@.len() == x_ext@.len() == y_ext@.len(),
        audit@.len() == 2,
    ensures
        vals(r@) == mem_expected::<F>(
            vals(point@),
            vals(x_ext@),
            vals(y_ext@),
            vals(audit@),
            gamma.val(),
            tau.val(),
        ),
{
    let address = identity_eval(point);
    let row = equality_mle_eval(point, x_ext);
    let col = equality_mle_eval(point, y_ext);
    let mut out: Vec<F> = Vec::new();
    out.push(hash_memory_tuple(address, row, F::zero(), gamma, tau));
    out.push(hash_memory_tuple(address, row, audit[0], gamma, tau));
    out.push(hash_memory_tuple(address, col, F::zero(), gamma, tau));
    out.push(hash_memory_tuple(address, col, audit[1], gamma, tau));
    assert(vals(out@) =~= mem_expected::<F>(
        vals(point@),
        vals(x_ext@),
        vals(y_ext@),
        vals(audit@),
        gamma.val(),
        tau.val(),
    ));
    out
}

/// The values at a point of the access vectors: row addresses and timestamps,
/// column addresses and timestamps, row and column reads.
pub open spec fn ops_values<F: PrimeField>(
    spark: SparkProverData<F>,
    x: Seq<int>,
    y: Seq<int>,
    point: Seq<int>,
) -> Seq<int> {
    let v = spark.vectors();
    seq![
        mle::<F>(v[0], point),
        mle::<F>(v[3], point),
        mle::<F>(v[1], point),
        mle::<F>(v[5], point),
        mle::<F>(spark.row_reads(x), point),
        mle::<F>(spark.col_reads(y), point),
    ]
}

/// The values at a point of the final timestamps.
pub open spec fn audit_values<F: PrimeField>(spark: SparkProverData<F>, point: Seq<int>) -> Seq<
    int,
> {
    seq![mle::<F>(spark.vectors()[4], point), mle::<F>(spark.vectors()[6], point)]
}

/// The products of the hashes of an honest memory balance.
pub proof fn honest_memory_is_balanced<F: PrimeField>(
    spark: SparkProverData<F>,
    x: Seq<int>,
    y: Seq<int>,
    gamma: int,
    tau: int,
)
    requires
        spark.wf(),
        x.len() == spark.mem_vars(),
        y.len() == spark.mem_vars(),
    ensures
        ({
            let ops = ops_leaves(spark, x, y, gamma, tau);
            let mem = mem_leaves(spark, x, y, gamma, tau);
            balanced::<F>(
                Seq::new(4, |i: int| vprod::<F>(ops[i])),
                Seq::new(4, |i: int| vprod::<F>(mem[i])),
            )
        }),
{
    spark_shape(spark);
    memory_is_balanced::<F>(spark.rows(), spark.memory(x), gamma, tau);
    memory_is_balanced::<F>(spark.cols(), spark.memory(y), gamma, tau);
}

/// The extension of later timestamps is one more.
pub proof fn later_extends<F: Residue>(times: Seq<int>, z: Seq<int>)
    requires
        times.len() == exp2(z.len()),
    ensures
        mle::<F>(later::<F>(times), z) == fadd::<F>(mle::<F>(times, z), 1),
{
    let e = eq_evals::<F>(z);
    assert(later::<F>(times) =~= crate::linear::vadd::<F>(times, ones(times.len())));
    crate::linear::dot_add::<F>(times, ones(times.len()), e);
    crate::spark_memory::mle_of_ones::<F>(z);
}

/// The values of the hashes of the accesses are the hashes of the values.
pub proof fn honest_ops_claims_match<F: PrimeField>(
    spark: SparkProverData<F>,
    x: Seq<int>,
    y: Seq<int>,
    gamma: int,
    tau: int,
    point: Seq<int>,
)
    requires
        spark.wf(),
        canon::<F>(tau),
        point.len() == spark.ops_vars(),
    ensures
        level_values::<F>(ops_leaves(spark, x, y, gamma, tau), point) == ops_expected::<F>(
            ops_values(spark, x, y, point),
            gamma,
            tau,
        ),
{
    spark_shape(spark);
    let v = spark.vectors();
    let (rows, cols) = (spark.row_reads(x), spark.col_reads(y));
    hashes_extend::<F>(v[0], rows, v[3], gamma, tau, point);
    hashes_extend::<F>(v[0], rows, later::<F>(v[3]), gamma, tau, point);
    hashes_extend::<F>(v[1], cols, v[5], gamma, tau, point);
    hashes_extend::<F>(v[1], cols, later::<F>(v[5]), gamma, tau, point);
    later_extends::<F>(v[3], point);
    later_extends::<F>(v[5], point);
    assert(level_values::<F>(ops_leaves(spark, x, y, gamma, tau), point) =~= ops_expected::<F>(
        ops_values(spark, x, y, point),
        gamma,
        tau,
    ));
}

/// The values of the hashes of the cells are the hashes of the values.
pub proof fn honest_mem_claims_match<F: PrimeField>(
    spark: SparkProverData<F>,
    x: Seq<int>,
    y: Seq<int>,
    gamma: int,
    tau: int,
    point: Seq<int>,
)
    requires
        spark.wf(),
        canon::<F>(tau),
        x.len() == spark.mem_vars(),
        y.len() == spark.mem_vars(),
        point.len() == spark.mem_vars(),
    ensures
        level_values::<F>(mem_leaves(spark, x, y, gamma, tau), point) == mem_expected::<F>(
            point,
            x,
            y,
            audit_values(spark, point),
            gamma,
            tau,
        ),
{
    spark_shape(spark);
    let v = spark.vectors();
    let n = spark.num_mem_cells as nat;
    let cells = indices::<F>(n);
    let (mx, my) = (spark.memory(x), spark.memory(y));
    hashes_extend::<F>(cells, mx, vzero(n), gamma, tau, point);
    hashes_extend::<F>(cells, mx, v[4], gamma, tau, point);
    hashes_extend::<F>(cells, my, vzero(n), gamma, tau, point);
    hashes_extend::<F>(cells, my, v[6], gamma, tau, point);
    identity_extends_indices::<F>(point);
    mle_of_eq_evals::<F>(x, point);
    mle_of_eq_evals::<F>(y, point);
    eq_product_comm::<F>(x, point);
    eq_product_comm::<F>(y, point);
    crate::linear::dot_zero::<F>(n, eq_evals::<F>(point));
    assert(level_values::<F>(mem_leaves(spark, x, y, gamma, tau), point) =~= mem_expected::<F>(
        point,
        x,
        y,
        audit_values(spark, point),
        gamma,
        tau,
    ));
}

/// Where the polynomials of the sparse matrix stand among the committed ones.
#[derive(Clone, Copy, Debug)]
pub struct SparkOffsets {
    pub dynamic_offset: usize,
    pub static_offset: usize,
}

/// All claims of an evaluation proof: about the sparse inner product, about the
/// accesses, about the final timestamps.
pub open spec fn spark_claims(
    at: SparkOffsets,
    aux_vars: nat,
    dot_point: Seq<int>,
    dot_evals: Seq<int>,
    ops_point: Seq<int>,
    ops: Seq<int>,
    mem_point: Seq<int>,
    audit: Seq<int>,
) -> Seq<Claim> {
    let s = at.static_offset as int;
    let d = at.dynamic_offset as int;
    let (p, q, m) = (
        extended(dot_point, aux_vars),
        extended(ops_point, aux_vars),
        extended(mem_point, aux_vars),
    );
    seq![
        Claim { poly: s + 2, point: p, value: dot_evals[0] },
        Claim { poly: d, point: p, value: dot_evals[1] },
        Claim { poly: d + 1, point: p, value: dot_evals[2] },
        Claim { poly: s, point: q, value: ops[0] },
        Claim { poly: s + 3, point: q, value: ops[1] },
        Claim { poly: s + 1, point: q, value: ops[2] },
        Claim { poly: s + 5, point: q, value: ops[3] },
        Claim { poly: d, point: q, value: ops[4] },
        Claim { poly: d + 1, point: q, value: ops[5] },
        Claim { poly: s + 4, point: m, value: audit[0] },
        Claim { poly: s + 6, point: m, value: audit[1] },
    ]
}

fn claim_at<F: PrimeField>(poly: usize, point: &[F], value: F) -> (r: OpeningClaim<F>)
    ensures
        claim_of(r) == (Claim { poly: poly as int, point: vals(point@), value: value.val() }),
{
    OpeningClaim { poly, point: copied(point), value }
}

/// Collects the claims of an evaluation proof.
fn collect_spark_claims<F: PrimeField>(
    at: SparkOffsets,
    aux_vars: usize,
    dot_point: &[F],
    dot_evals: &[F],
    ops_point: &[F],
    ops: &[F],
    mem_point: &[F],
    audit: &[F],
) -> (r: Vec<OpeningClaim<F>>)
    requires
        at.static_offset + 6 <= usize::MAX,
        at.dynamic_offset + 1 <= usize::MAX,
        dot_point@.len() <= aux_vars,
        ops_point@.len() <= aux_vars,
        mem_point@.len() <= aux_vars,
        dot_evals@.len() == 3,
        ops@.len() == 6,
        audit@.len() == 2,
    ensures
        claims_of(r@) == spark_claims(
            at,
            aux_vars as nat,
            vals(dot_point@),
            vals(dot_evals@),
            vals(ops_point@),
            vals(ops@),
            vals(mem_point@),
            vals(audit@),
        ),
{
    let s: usize = at.static_offset;
    let d: usize = at.dynamic_offset;
    let p = extend_point(dot_point, aux_vars);
    let q = extend_point(ops_point, aux_vars);
    let m = extend_point(mem_point, aux_vars);
    let mut out: Vec<OpeningClaim<F>> = Vec::new();
    out.push(claim_at(s + MATRIX_VAL, &p, dot_evals[0]));
    out.push(claim_at(d, &p, dot_evals[1]));
    out.push(claim_at(d + 1, &p, dot_evals[2]));
    out.push(claim_at(s + ROW_ADDR, &q, ops[0]));
    out.push(claim_at(s + ROW_READ_TS, &q, ops[1]));
    out.push(claim_at(s + COL_ADDR, &q, ops[2]));
    out.push(claim_at(s + COL_READ_TS, &q, ops[3]));
    out.push(claim_at(d, &q, ops[4]));
    out.push(claim_at(d + 1, &q, ops[5]));
    out.push(claim_at(s + ROW_AUDIT_TS, &m, audit[0]));
    out.push(claim_at(s + COL_AUDIT_TS, &m, audit[1]));
    assert(claims_of(out@) =~= spark_claims(
        at,
        aux_vars as nat,
        vals(dot_point@),
        vals(dot_evals@),
        vals(ops_point@),
        vals(ops@),
        vals(mem_point@),
        vals(audit@),
    ));
    out
}

/// Every claim of an honest evaluation proof is true of the polynomials that it
/// names.
pub proof fn honest_spark_claims_are_true<F: PrimeField>(
    spark: SparkProverData<F>,
    x: Seq<int>,
    y: Seq<int>,
    at: SparkOffsets,
    polys: Seq<Seq<int>>,
    dot_point: Seq<int>,
    ops_point: Seq<int>,
    mem_point: Seq<int>,
    i: int,
)
    requires
        spark.wf(),
        dot_point.len() == spark.ops_vars(),
        ops_point.len() == spark.ops_vars(),
        mem_point.len() == spark.mem_vars(),
        forall|k: int|
            0 <= k < 7 ==> polys[at.static_offset + k] == padded(
                #[trigger] spark.vectors()[k],
                spark.aux_len as nat,
            ),
        polys[at.dynamic_offset as int] == padded(spark.row_reads(x), spark.aux_len as nat),
        polys[at.dynamic_offset + 1] == padded(spark.col_reads(y), spark.aux_len as nat),
        0 <= i < 11,
    ensures
        ({
            let evals = values_at::<F>(
                seq![spark.vectors()[2], spark.row_reads(x), spark.col_reads(y)],
                dot_point,
            );
            let claim = spark_claims(
                at,
                spark.aux_vars(),
                dot_point,
                evals,
                ops_point,
                ops_values(spark, x, y, ops_point),
                mem_point,
                audit_values(spark, mem_point),
            )[i];
            claim.value == mle::<F>(polys[claim.poly], claim.point)
        }),
{
    spark_shape(spark);
    let n = spark.aux_vars();
    let v = spark.vectors();
    let (rows, cols) = (spark.row_reads(x), spark.col_reads(y));
    assert(polys[at.static_offset + 0] == padded(v[0], spark.aux_len as nat));
    assert(polys[at.static_offset + 1] == padded(v[1], spark.aux_len as nat));
    assert(polys[at.static_offset + 2] == padded(v[2], spark.aux_len as nat));
    assert(polys[at.static_offset + 3] == padded(v[3], spark.aux_len as nat));
    assert(polys[at.static_offset + 4] == padded(v[4], spark.aux_len as nat));
    assert(polys[at.static_offset + 5] == padded(v[5], spark.aux_len as nat));
    assert(polys[at.static_offset + 6] == padded(v[6], spark.aux_len as nat));
    padding_keeps_evaluation::<F>(v[2], dot_point, n);
    padding_keeps_evaluation::<F>(rows, dot_point, n);
    padding_keeps_evaluation::<F>(cols, dot_point, n);
    padding_keeps_evaluation::<F>(v[0], ops_point, n);
    padding_keeps_evaluation::<F>(v[3], ops_point, n);
    padding_keeps_evaluation::<F>(v[1], ops_point, n);
    padding_keeps_evaluation::<F>(v[5], ops_point, n);
    padding_keeps_evaluation::<F>(rows, ops_point, n);
    padding_keeps_evaluation::<F>(cols, ops_point, n);
    padding_keeps_evaluation::<F>(v[4], mem_point, n);
    padding_keeps_evaluation::<F>(v[6], mem_point, n);
}

/// The value of one of the fixed polynomials at a short point.
fn static_value<F: PrimeField>(spark: &SparkProverData<F>, k: usize, aux_point: &[F]) -> (r: F)
    requires
        spark.wf(),
        k < 7,
        aux_point@.len() == spark.aux_vars(),
    ensures
        r.val() == mle::<F>(
            padded(spark.vectors()[k as int], spark.aux_len as nat),
            vals(aux_point@),
        ),
{
    proof {
        spark_shape(*spark);
        assert(mat(spark.static_polys@)[k as int] == padded(
            spark.vectors()[k as int],
            spark.aux_len as nat,
        ));
        let _ = spark.static_polys@[k as int];
    }
    eval_mle_from_evals(&spark.static_polys[k], aux_point)
}

/// The products of a batch that reached its leaves.
pub open spec fn products_reached<F: PrimeField>(
    state: ProductProver<F>,
    leaves: Seq<Seq<int>>,
    num_layers: nat,
) -> bool {
    &&& state.wf()
    &&& state.leaves() == leaves
    &&& state.num_layers == num_layers
    &&& state.point@.len() == num_layers
}

/// Holds the products and the hashes of accesses and cells to each other,
/// writes the values that the hashes are made of and collects the claims.
#[verifier::rlimit(40)]
pub fn spark_prove_finish<F: PrimeField, O, T: TranscriptWrite<F, O>>(
    spark: &SparkProverData<F>,
    witness: &SparkWitness<F>,
    gamma: F,
    tau: F,
    dot_point: &[F],
    dot_evals: &[F],
    ops: &ProductProver<F>,
    mem: &ProductProver<F>,
    at: SparkOffsets,
    transcript: &mut T,
) -> (r: Result<Vec<OpeningClaim<F>>, Error>)
    requires
        spark.wf(),
        witness.wf(*spark),
        products_reached(
            *ops,
            ops_leaves(*spark, witness.x(), witness.y(), gamma.val(), tau.val()),
            spark.ops_vars(),
        ),
        products_reached(
            *mem,
            mem_leaves(*spark, witness.x(), witness.y(), gamma.val(), tau.val()),
            spark.mem_vars(),
        ),
        dot_point@.len() == spark.ops_vars(),
        dot_evals@.len() == 3,
        at.static_offset + 6 <= usize::MAX,
        at.dynamic_offset + 1 <= usize::MAX,
    ensures
        T::infallible() ==> r is Ok,
        r matches Err(e) ==> e is Transcript,
        r matches Ok(claims) ==> {
            let values = ops_values(*spark, witness.x(), witness.y(), vals(ops.point@));
            let audit = audit_values(*spark, vals(mem.point@));
            &&& claims_of(claims@) == spark_claims(
                at,
                spark.aux_vars(),
                vals(dot_point@),
                vals(dot_evals@),
                vals(ops.point@),
                values,
                vals(mem.point@),
                audit,
            )
            &&& final(transcript).log() == old(transcript).log() + sent_fields(values)
                + sent_fields(audit)
        },
{
    let ghost (x, y) = (witness.x(), witness.y());
    let ghost (g, t) = (gamma.val(), tau.val());
    let ghost (po, pm) = (vals(ops.point@), vals(mem.point@));
    proof {
        spark_shape(*spark);
        val_canon(tau);
        honest_memory_is_balanced(*spark, x, y, g, t);
        honest_ops_claims_match(*spark, x, y, g, t, po);
        honest_mem_claims_match(*spark, x, y, g, t, pm);
        let (ol, ml) = (ops.leaves(), mem.leaves());
        assert(ol.len() == 4 && ops.trees@.len() == 4);
        assert(ml.len() == 4 && mem.trees@.len() == 4);
        assert forall|j: int| 0 <= j < 4 implies {
            &&& #[trigger] ops.roots@[j].val() == vprod::<F>(ol[j])
            &&& ops.claims@[j].val() == mle::<F>(ol[j], po)
        } by {
            let _ = (ops.roots@[j], ops.claims@[j]);
            assert(level::<F>(ol[j], 0) == ol[j]);
        }
        assert forall|j: int| 0 <= j < 4 implies {
            &&& #[trigger] mem.roots@[j].val() == vprod::<F>(ml[j])
            &&& mem.claims@[j].val() == mle::<F>(ml[j], pm)
        } by {
            let _ = (mem.roots@[j], mem.claims@[j]);
            assert(level::<F>(ml[j], 0) == ml[j]);
        }
        assert(vals(ops.roots@) =~= Seq::new(4, |i: int| vprod::<F>(ol[i])));
        assert(vals(mem.roots@) =~= Seq::new(4, |i: int| vprod::<F>(ml[i])));
        assert(vals(ops.claims@) =~= level_values::<F>(ol, po));
        assert(vals(mem.claims@) =~= level_values::<F>(ml, pm));
    }
    if !memory_balanced(&ops.roots, &mem.roots) {
        return Err(Error::open("SPARK memory multiset check failed"));
    }
    let aux_vars: usize = log2_power_of_two(spark.aux_len);
    let ops_aux_point = extend_point(&ops.point, aux_vars);
    proof {
        let d = mat(witness.dynamic_polys@);
        assert(d.len() == 2);
        assert(d[0] == vals(witness.dynamic_polys@[0]@));
        assert(d[1] == vals(witness.dynamic_polys@[1]@));
        assert(d[0].len() == witness.dynamic_polys@[0]@.len());
        assert(d[1].len() == witness.dynamic_polys@[1]@.len());
        let v = spark.vectors();
        let n = spark.aux_vars();
        padding_keeps_evaluation::<F>(v[0], po, n);
        padding_keeps_evaluation::<F>(v[3], po, n);
        padding_keeps_evaluation::<F>(v[1], po, n);
        padding_keeps_evaluation::<F>(v[5], po, n);
        padding_keeps_evaluation::<F>(spark.row_reads(x), po, n);
        padding_keeps_evaluation::<F>(spark.col_reads(y), po, n);
        padding_keeps_evaluation::<F>(v[4], pm, n);
        padding_keeps_evaluation::<F>(v[6], pm, n);
    }
    let mut values: Vec<F> = Vec::new();
    values.push(static_value(spark, ROW_ADDR, &ops_aux_point));
    values.push(static_value(spark, ROW_READ_TS, &ops_aux_point));
    values.push(static_value(spark, COL_ADDR, &ops_aux_point));
    values.push(static_value(spark, COL_READ_TS, &ops_aux_point));
    values.push(eval_mle_from_evals(&witness.dynamic_polys[0], &ops_aux_point));
    values.push(eval_mle_from_evals(&witness.dynamic_polys[1], &ops_aux_point));
    assert(vals(values@) =~= ops_values(*spark, x, y, po));
    match write_field_elements(transcript, &values) {
        Ok(_) => {},
        Err(e) => {
            return Err(e);
        },
    }
    let ops_hashes = expected_ops(&values, gamma, tau);
    if !same_point(&ops.claims, &ops_hashes) {
        return Err(Error::open("SPARK operation hash opening failed"));
    }
    let mem_aux_point = extend_point(&mem.point, aux_vars);
    let mut audit: Vec<F> = Vec::new();
    audit.push(static_value(spark, ROW_AUDIT_TS, &mem_aux_point));
    audit.push(static_value(spark, COL_AUDIT_TS, &mem_aux_point));
    assert(vals(audit@) =~= audit_values(*spark, pm));
    match write_field_elements(transcript, &audit) {
        Ok(_) => {},
        Err(e) => {
            return Err(e);
        },
    }
    proof {
        assert(x.len() == witness.x_ext@.len());
        assert(y.len() == witness.y_ext@.len());
    }
    let mem_hashes = expected_mem(
        &mem.point,
        &witness.x_ext,
        &witness.y_ext,
        &audit,
        gamma,
        tau,
    );
    if !same_point(&mem.claims, &mem_hashes) {
        return Err(Error::open("SPARK memory hash opening failed"));
    }
    Ok(
        collect_spark_claims(
            at,
            aux_vars,
            dot_point,
            dot_evals,
            &ops.point,
            &values,
            &mem.point,
            &audit,
        ),
    )
}

/// Everything the verifier's last check looks at.
pub struct SparkChecked {
    pub gamma: int,
    pub tau: int,
    pub x: Seq<int>,
    pub y: Seq<int>,
    pub ops_claims: Seq<int>,
    pub mem_claims: Seq<int>,
    pub mem_point: Seq<int>,
}

/// The values of the accesses hash to the claims.
pub open spec fn ops_accepted<F: Residue>(c: SparkChecked, values: Seq<int>) -> bool {
    c.ops_claims == ops_expected::<F>(values, c.gamma, c.tau)
}

/// The values of the cells hash to the claims.
pub open spec fn mem_accepted<F: Residue>(c: SparkChecked, audit: Seq<int>) -> bool {
    c.mem_claims == mem_expected::<F>(c.mem_point, c.x, c.y, audit, c.gamma, c.tau)
}

/// Values of the accesses were read that do not hash to the claims.
pub open spec fn ops_refused<F: Residue, O>(
    c: SparkChecked,
    log0: Seq<Event<O>>,
    log1: Seq<Event<O>>,
) -> bool {
    exists|values: Seq<int>|
        {
            &&& values.len() == 6
            &&& log1 == log0 + #[trigger] sent_fields(values)
            &&& !ops_accepted::<F>(c, values)
        }
}

/// Lists of six and of two values were read.
pub open spec fn values_read<O>(
    log0: Seq<Event<O>>,
    log1: Seq<Event<O>>,
    values: Seq<int>,
    audit: Seq<int>,
) -> bool {
    &&& values.len() == 6
    &&& audit.len() == 2
    &&& log1 == log0 + sent_fields(values) + sent_fields(audit)
}

/// Values were read of which those of the accesses hash to the claims and those
/// of the cells do not.
pub open spec fn mem_refused<F: Residue, O>(
    c: SparkChecked,
    log0: Seq<Event<O>>,
    log1: Seq<Event<O>>,
) -> bool {
    exists|values: Seq<int>, audit: Seq<int>|
        {
            &&& #[trigger] values_read(log0, log1, values, audit)
            &&& ops_accepted::<F>(c, values)
            &&& !mem_accepted::<F>(c, audit)
        }
}

/// Values were read that hash to the claims.
pub open spec fn spark_accepted<F: Residue, O>(
    c: SparkChecked,
    claims: Seq<Claim>,
    at: SparkOffsets,
    aux_vars: nat,
    dot_point: Seq<int>,
    dot_evals: Seq<int>,
    ops_point: Seq<int>,
    log0: Seq<Event<O>>,
    log1: Seq<Event<O>>,
) -> bool {
    exists|values: Seq<int>, audit: Seq<int>|
        {
            &&& #[trigger] values_read(log0, log1, values, audit)
            &&& ops_accepted::<F>(c, values)
            &&& mem_accepted::<F>(c, audit)
            &&& claims == spark_claims(
                at,
                aux_vars,
                dot_point,
                dot_evals,
                ops_point,
                values,
                c.mem_point,
                audit,
            )
        }
}

/// Holds the products to each other, reads the values that the hashes are made
/// of, holds the hashes to the claims of the products and collects the claims.
pub fn spark_verify_finish<F: PrimeField, O, T: TranscriptRead<F, O>>(
    x_ext: &[F],
    y_ext: &[F],
    gamma: F,
    tau: F,
    dot_point: &[F],
    dot_evals: &[F],
    ops: &ProductVerifier<F>,
    mem: &ProductVerifier<F>,
    aux_vars: usize,
    at: SparkOffsets,
    transcript: &mut T,
) -> (r: Result<Vec<OpeningClaim<F>>, Error>)
    requires
        ops.roots@.len() == 4,
        mem.roots@.len() == 4,
        mem.point@.len() == x_ext@.len() == y_ext@.len(),
        dot_point@.len() <= aux_vars,
        ops.point@.len() <= aux_vars,
        mem.point@.len() <= aux_vars,
        dot_evals@.len() == 3,
        at.static_offset + 6 <= usize::MAX,
        at.dynamic_offset + 1 <= usize::MAX,
    ensures
        final(transcript).held() == old(transcript).held(),
        ({
            let c = SparkChecked {
                gamma: gamma.val(),
                tau: tau.val(),
                x: vals(x_ext@),
                y: vals(y_ext@),
                ops_claims: vals(ops.claims@),
                mem_claims: vals(mem.claims@),
                mem_point: vals(mem.point@),
            };
            let (log0, log1) = (old(transcript).log(), final(transcript).log());
            let ok = balanced::<F>(vals(ops.roots@), vals(mem.roots@));
            &&& r matches Ok(claims) ==> ok && spark_accepted::<F, O>(
                c,
                claims_of(claims@),
                at,
                aux_vars as nat,
                vals(dot_point@),
                vals(dot_evals@),
                vals(ops.point@),
                log0,
                log1,
            )
            &&& r matches Err(e) ==> {
                ||| e.is_open("SPARK memory multiset check failed") && !ok && log1 == log0
                ||| ok && cut_within(e, log0, log1, 8, 0)
                ||| ok && e.is_open("SPARK operation hash opening failed") && ops_refused::<F, O>(
                    c,
                    log0,
                    log1,
                )
                ||| ok && e.is_open("SPARK memory hash opening failed") && mem_refused::<F, O>(
                    c,
                    log0,
                    log1,
                )
            }
        }),
{
    let ghost log0 = transcript.log();
    let ghost c = SparkChecked {
        gamma: gamma.val(),
        tau: tau.val(),
        x: vals(x_ext@),
        y: vals(y_ext@),
        ops_claims: vals(ops.claims@),
        mem_claims: vals(mem.claims@),
        mem_point: vals(mem.point@),
    };
    if !memory_balanced(&ops.roots, &mem.roots) {
        return Err(Error::open("SPARK memory multiset check failed"));
    }
    let values = match read_field_elements(transcript, 6) {
        Ok(values) => values,
        Err(e) => {
            proof {
                assert(went(log0, log0, 0, 0));
                cut_later(e, log0, log0, transcript.log(), 0, 0, 6, 0, 8, 0);
            }
            return Err(e);
        },
    };
    let ops_hashes = expected_ops(&values, gamma, tau);
    proof {
        assert(vals(values@).len() == 6);
    }
    if !same_point(&ops.claims, &ops_hashes) {
        proof {
            assert(!ops_accepted::<F>(c, vals(values@)));
        }
        return Err(Error::open("SPARK operation hash opening failed"));
    }
    let ghost between = transcript.log();
    let audit = match read_field_elements(transcript, 2) {
        Ok(audit) => audit,
        Err(e) => {
            proof {
                went_plain::<O>(log0, vals(values@), Seq::empty());
                cut_later(e, log0, between, transcript.log(), 6, 0, 2, 0, 8, 0);
            }
            return Err(e);
        },
    };
    let mem_hashes = expected_mem(&mem.point, x_ext, y_ext, &audit, gamma, tau);
    proof {
        assert(vals(audit@).len() == 2);
        assert(values_read(log0, transcript.log(), vals(values@), vals(audit@)));
    }
    if !same_point(&mem.claims, &mem_hashes) {
        return Err(Error::open("SPARK memory hash opening failed"));
    }
    let claims = collect_spark_claims(
        at,
        aux_vars,
        dot_point,
        dot_evals,
        &ops.point,
        &values,
        &mem.point,
        &audit,
    );
    proof {
        assert(spark_accepted::<F, O>(
            c,
            claims_of(claims@),
            at,
            aux_vars as nat,
            vals(dot_point@),
            vals(dot_evals@),
            vals(ops.point@),
            log0,
            transcript.log(),
        ));
    }
    Ok(claims)
}

/// What a run of the prover drew.
pub struct SparkRun {
    pub gamma: int,
    pub tau: int,
    pub dot_point: Seq<int>,
    pub ops_coeffs: Seq<Seq<int>>,
    pub ops_points: Seq<Seq<int>>,
    pub mem_coeffs: Seq<Seq<int>>,
    pub mem_points: Seq<Seq<int>>,
}

impl SparkRun {
    /// The final point of the products over the accesses.
    pub open spec fn ops_point(self) -> Seq<int> {
        self.ops_points.last()
    }

    /// The final point of the products over the cells.
    pub open spec fn mem_point(self) -> Seq<int> {
        self.mem_points.last()
    }

    /// The numbers of draws fit the sizes.
    pub open spec fn shaped(self, ops_vars: nat, mem_vars: nat) -> bool {
        &&& self.dot_point.len() == ops_vars
        &&& layers_shaped(4, ops_vars, self.ops_coeffs, self.ops_points)
        &&& layers_shaped(4, mem_vars, self.mem_coeffs, self.mem_points)
    }
}

/// The vectors of the sparse inner product.
pub open spec fn dot_polys<F: PrimeField>(
    spark: SparkProverData<F>,
    x: Seq<int>,
    y: Seq<int>,
) -> Seq<Seq<int>> {
    seq![spark.vectors()[2], spark.row_reads(x), spark.col_reads(y)]
}

/// The steps of a batch of products: the products, then the layers.
pub open spec fn batch_events<F: PrimeField, O>(
    leaves: Seq<Seq<int>>,
    num_layers: nat,
    coeffs: Seq<Seq<int>>,
    points: Seq<Seq<int>>,
) -> Seq<Event<O>> {
    sent_fields(Seq::new(leaves.len(), |i: int| vprod::<F>(leaves[i]))) + product_events::<F, O>(
        leaves,
        num_layers,
        coeffs,
        points,
        num_layers,
    )
}

/// The steps of an evaluation proof behind the commitments to the reads.
pub open spec fn spark_events<F: PrimeField, O>(
    spark: SparkProverData<F>,
    x: Seq<int>,
    y: Seq<int>,
    run: SparkRun,
) -> Seq<Event<O>> {
    drawn(seq![run.gamma, run.tau]) + run_events::<F, O>(
        triple_terms(),
        dot_polys(spark, x, y),
        3,
        run.dot_point,
    ) + sent_fields(values_at::<F>(dot_polys(spark, x, y), run.dot_point)) + batch_events::<F, O>(
        ops_leaves(spark, x, y, run.gamma, run.tau),
        spark.ops_vars(),
        run.ops_coeffs,
        run.ops_points,
    ) + batch_events::<F, O>(
        mem_leaves(spark, x, y, run.gamma, run.tau),
        spark.mem_vars(),
        run.mem_coeffs,
        run.mem_points,
    ) + sent_fields(ops_values(spark, x, y, run.ops_point())) + sent_fields(
        audit_values(spark, run.mem_point()),
    )
}

/// The claims of an evaluation proof.
pub open spec fn spark_run_claims<F: PrimeField>(
    spark: SparkProverData<F>,
    x: Seq<int>,
    y: Seq<int>,
    at: SparkOffsets,
    run: SparkRun,
) -> Seq<Claim> {
    spark_claims(
        at,
        spark.aux_vars(),
        run.dot_point,
        values_at::<F>(dot_polys(spark, x, y), run.dot_point),
        run.ops_point(),
        ops_values(spark, x, y, run.ops_point()),
        run.mem_point(),
        audit_values(spark, run.mem_point()),
    )
}

/// A run of the prover wrote these steps and left these claims.
pub open spec fn spark_written<F: PrimeField, O>(
    spark: SparkProverData<F>,
    x: Seq<int>,
    y: Seq<int>,
    at: SparkOffsets,
    run: SparkRun,
    claims: Seq<Claim>,
    log0: Seq<Event<O>>,
    log1: Seq<Event<O>>,
) -> bool {
    &&& canon::<F>(run.tau)
    &&& run.shaped(spark.ops_vars(), spark.mem_vars())
    &&& claims == spark_run_claims(spark, x, y, at, run)
    &&& log1 == log0 + spark_events::<F, O>(spark, x, y, run)
}

/// Proves the value of a sparse matrix at two points, behind the commitments to
/// the reads, and leaves claims about the committed polynomials.
pub fn spark_prove<F: PrimeField, O, T: TranscriptWrite<F, O>>(
    spark: &SparkProverData<F>,
    witness: &SparkWitness<F>,
    claimed_eval: F,
    at: SparkOffsets,
    transcript: &mut T,
) -> (r: Result<Vec<OpeningClaim<F>>, Error>)
    requires
        spark.wf(),
        witness.wf(*spark),
        at.static_offset + 6 <= usize::MAX,
        at.dynamic_offset + 1 <= usize::MAX,
    ensures
        ({
            let value = matrix_eval::<F>(
                entries_of(spark.entries@),
                witness.x(),
                witness.y(),
            );
            &&& claimed_eval.val() == value && T::infallible() ==> r is Ok
            &&& r matches Err(e) ==> if claimed_eval.val() == value {
                e is Transcript
            } else {
                e.is_open("SPARK witness does not match claimed matrix evaluation")
            }
            &&& r matches Ok(claims) ==> claimed_eval.val() == value && exists|run: SparkRun|
                #[trigger] spark_written::<F, O>(
                    *spark,
                    witness.x(),
                    witness.y(),
                    at,
                    run,
                    claims_of(claims@),
                    old(transcript).log(),
                    final(transcript).log(),
                )
        }),
{
    let ghost log0 = transcript.log();
    let ghost (x, y) = (witness.x(), witness.y());
    let (gamma, tau) = spark_challenges::<F, O, T>(transcript);
    let instance = match spark_prove_dot(spark, witness, claimed_eval) {
        Ok(instance) => instance,
        Err(e) => {
            return Err(e);
        },
    };
    proof {
        assert(mat(instance.polys@).len() == instance.polys@.len());
    }
    let (dot_point, dot_evals) = match prove_triple_product(&instance, transcript) {
        Ok(end) => end,
        Err(e) => {
            return Err(e);
        },
    };
    let ghost log1 = transcript.log();
    let ops_vectors = spark_ops_leaves(spark, witness, gamma, tau);
    proof {
        spark_shape(*spark);
    }
    let ops = match prove_products(ops_vectors, transcript) {
        Ok(ops) => ops,
        Err(e) => {
            return Err(e);
        },
    };
    let ghost log2 = transcript.log();
    let mem_vectors = spark_mem_leaves(spark, witness, gamma, tau);
    let mem = match prove_products(mem_vectors, transcript) {
        Ok(mem) => mem,
        Err(e) => {
            return Err(e);
        },
    };
    let ghost log3 = transcript.log();
    let ghost ol = ops_leaves(*spark, x, y, gamma.val(), tau.val());
    let ghost ml = mem_leaves(*spark, x, y, gamma.val(), tau.val());
    let ghost (oc, op) = choose|c: Seq<Seq<int>>, p: Seq<Seq<int>>| #[trigger]
        products_written::<F, O>(ol, spark.ops_vars(), vals(ops.point@), c, p, log1, log2);
    let ghost (mc, mp) = choose|c: Seq<Seq<int>>, p: Seq<Seq<int>>| #[trigger]
        products_written::<F, O>(ml, spark.mem_vars(), vals(mem.point@), c, p, log2, log3);
    let r = spark_prove_finish(
        spark,
        witness,
        gamma,
        tau,
        &dot_point,
        &dot_evals,
        &ops,
        &mem,
        at,
        transcript,
    );
    proof {
        if r is Ok {
            val_canon(tau);
            let run = SparkRun {
                gamma: gamma.val(),
                tau: tau.val(),
                dot_point: vals(dot_point@),
                ops_coeffs: oc,
                ops_points: op,
                mem_coeffs: mc,
                mem_points: mp,
            };
            assert(run.ops_point() == vals(ops.point@));
            assert(run.mem_point() == vals(mem.point@));
            assert(transcript.log() =~= log0 + spark_events::<F, O>(*spark, x, y, run));
            assert(spark_written::<F, O>(
                *spark,
                x,
                y,
                at,
                run,
                claims_of(r->Ok_0@),
                log0,
                transcript.log(),
            ));
        }
    }
    r
}

/// What a run of the verifier drew and read.
pub struct SparkRead<O> {
    pub gamma: int,
    pub tau: int,
    pub dot_point: Seq<int>,
    pub dot_evals: Seq<int>,
    pub ops_roots: Seq<int>,
    pub ops_claims: Seq<int>,
    pub ops_point: Seq<int>,
    pub mem_roots: Seq<int>,
    pub mem_claims: Seq<int>,
    pub mem_point: Seq<int>,
    pub log1: Seq<Event<O>>,
    pub log2: Seq<Event<O>>,
    pub log3: Seq<Event<O>>,
}

impl<O> SparkRead<O> {
    /// The sparse inner product was accepted.
    pub open spec fn dot_ok<F: PrimeField>(
        self,
        ops_vars: nat,
        claimed: int,
        log0: Seq<Event<O>>,
    ) -> bool {
        &&& self.dot_point.len() == ops_vars
        &&& self.dot_evals.len() == 3
        &&& triple_verified::<F, O>(
            ops_vars,
            claimed,
            self.dot_point,
            self.dot_evals,
            log0 + drawn(seq![self.gamma, self.tau]),
            self.log1,
        )
    }

    /// The products over the accesses were accepted.
    pub open spec fn ops_ok<F: PrimeField>(self, ops_vars: nat) -> bool {
        &&& self.ops_roots.len() == 4
        &&& products_verified::<F, O>(
            self.ops_roots,
            ops_vars,
            self.ops_claims,
            self.ops_point,
            self.log1 + sent_fields(self.ops_roots),
            self.log2,
        )
    }

    /// The products over the cells were accepted.
    pub open spec fn mem_ok<F: PrimeField>(self, mem_vars: nat) -> bool {
        &&& self.mem_roots.len() == 4
        &&& products_verified::<F, O>(
            self.mem_roots,
            mem_vars,
            self.mem_claims,
            self.mem_point,
            self.log2 + sent_fields(self.mem_roots),
            self.log3,
        )
    }

    /// How many messages the sparse inner product has.
    pub proof fn dot_went<F: PrimeField>(self, ops_vars: nat, claimed: int, log0: Seq<Event<O>>)
        requires
            self.dot_ok::<F>(ops_vars, claimed, log0),
        ensures
            went(log0, self.log1, triple_fields(ops_vars), 0),
            (log0 + drawn(seq![self.gamma, self.tau])).is_prefix_of(self.log1),
    {
        let start = log0 + drawn::<O>(seq![self.gamma, self.tau]);
        went_plain::<O>(log0, seq![self.gamma, self.tau], Seq::empty());
        triple_went::<F, O>(
            ops_vars,
            claimed,
            self.dot_point,
            self.dot_evals,
            start,
            self.log1,
        );
        went_on(log0, start, self.log1, 0, 0, triple_fields(ops_vars), 0);
    }

    /// How many messages the products over the accesses have.
    pub proof fn ops_went<F: PrimeField>(self, ops_vars: nat)
        requires
            self.ops_ok::<F>(ops_vars),
        ensures
            went(self.log1, self.log2, products_fields(4, ops_vars), 0),
            (self.log1 + sent_fields(self.ops_roots)).is_prefix_of(self.log2),
    {
        let start = self.log1 + sent_fields::<O>(self.ops_roots);
        went_plain::<O>(self.log1, self.ops_roots, Seq::empty());
        layers_went::<F, O>(
            self.ops_roots,
            ops_vars,
            self.ops_claims,
            self.ops_point,
            start,
            self.log2,
        );
    }

    /// How many messages the products over the cells have.
    pub proof fn mem_went<F: PrimeField>(self, mem_vars: nat)
        requires
            self.mem_ok::<F>(mem_vars),
        ensures
            went(self.log2, self.log3, products_fields(4, mem_vars), 0),
            (self.log2 + sent_fields(self.mem_roots)).is_prefix_of(self.log3),
    {
        let start = self.log2 + sent_fields::<O>(self.mem_roots);
        went_plain::<O>(self.log2, self.mem_roots, Seq::empty());
        layers_went::<F, O>(
            self.mem_roots,
            mem_vars,
            self.mem_claims,
            self.mem_point,
            start,
            self.log3,
        );
    }

    /// What the last check looks at.
    pub open spec fn checked(self, x: Seq<int>, y: Seq<int>) -> SparkChecked {
        SparkChecked {
            gamma: self.gamma,
            tau: self.tau,
            x,
            y,
            ops_claims: self.ops_claims,
            mem_claims: self.mem_claims,
            mem_point: self.mem_point,
        }
    }
}

/// How many field elements the evaluation proof of a sparse matrix sends.
pub open spec fn spark_fields(ops_vars: nat, mem_vars: nat) -> nat {
    triple_fields(ops_vars) + products_fields(4, ops_vars) + products_fields(4, mem_vars) + 8
}

/// A run of the verifier that accepts and leaves these claims.
pub open spec fn spark_run_accepted<F: PrimeField, O>(
    ops_vars: nat,
    mem_vars: nat,
    aux_vars: nat,
    x: Seq<int>,
    y: Seq<int>,
    claimed: int,
    at: SparkOffsets,
    d: SparkRead<O>,
    claims: Seq<Claim>,
    log0: Seq<Event<O>>,
    log1: Seq<Event<O>>,
) -> bool {
    &&& d.dot_ok::<F>(ops_vars, claimed, log0)
    &&& d.ops_ok::<F>(ops_vars)
    &&& d.mem_ok::<F>(mem_vars)
    &&& balanced::<F>(d.ops_roots, d.mem_roots)
    &&& spark_accepted::<F, O>(
        d.checked(x, y),
        claims,
        at,
        aux_vars,
        d.dot_point,
        d.dot_evals,
        d.ops_point,
        d.log3,
        log1,
    )
}

/// A run of the verifier that ends with an error: for the sparse inner product,
/// for the products over the accesses or the cells, or for the last check.
pub open spec fn spark_run_refused<F: PrimeField, O>(
    ops_vars: nat,
    mem_vars: nat,
    x: Seq<int>,
    y: Seq<int>,
    claimed: int,
    d: SparkRead<O>,
    e: Error,
    log0: Seq<Event<O>>,
    log1: Seq<Event<O>>,
) -> bool {
    let start = log0 + drawn(seq![d.gamma, d.tau]);
    ||| round_error(e) && sumcheck_refused::<F, O>(ops_vars, 3, claimed, start, log1)
    ||| e.is_open("SPARK sparse dot-product failed") && triple_unverified::<F, O>(
        ops_vars,
        claimed,
        start,
        log1,
    )
    ||| d.dot_ok::<F>(ops_vars, claimed, log0) && products_refused::<F, O>(
        4,
        ops_vars,
        d.log1,
        log1,
        e,
    )
    ||| d.dot_ok::<F>(ops_vars, claimed, log0) && d.ops_ok::<F>(ops_vars) && products_refused::<
        F,
        O,
    >(4, mem_vars, d.log2, log1, e)
    ||| {
        &&& d.dot_ok::<F>(ops_vars, claimed, log0)
        &&& d.ops_ok::<F>(ops_vars)
        &&& d.mem_ok::<F>(mem_vars)
        &&& {
            ||| e.is_open("SPARK memory multiset check failed") && !balanced::<F>(
                d.ops_roots,
                d.mem_roots,
            ) && log1 == d.log3
            ||| balanced::<F>(d.ops_roots, d.mem_roots) && e.is_open(
                "SPARK operation hash opening failed",
            ) && ops_refused::<F, O>(d.checked(x, y), d.log3, log1)
            ||| balanced::<F>(d.ops_roots, d.mem_roots) && e.is_open(
                "SPARK memory hash opening failed",
            ) && mem_refused::<F, O>(d.checked(x, y), d.log3, log1)
        }
    }
}

/// Verifies the value of a sparse matrix at two points, behind the commitments to
/// the reads, and leaves claims about the committed polynomials.
pub fn spark_verify<F: PrimeField, O, T: TranscriptRead<F, O>>(
    num_ops: usize,
    num_mem_cells: usize,
    aux_len: usize,
    x: &[F],
    y: &[F],
    claimed_eval: F,
    at: SparkOffsets,
    transcript: &mut T,
) -> (r: Result<Vec<OpeningClaim<F>>, Error>)
    requires
        is_pow2(num_ops as int),
        is_pow2(num_mem_cells as int),
        is_pow2(aux_len as int),
        log2(num_ops as int) <= log2(aux_len as int),
        log2(num_mem_cells as int) <= log2(aux_len as int),
        x@.len() <= log2(num_mem_cells as int),
        y@.len() <= log2(num_mem_cells as int),
        at.static_offset + 6 <= usize::MAX,
        at.dynamic_offset + 1 <= usize::MAX,
    ensures
        final(transcript).held() == old(transcript).held(),
        r matches Ok(claims) ==> exists|d: SparkRead<O>| #[trigger]
            spark_run_accepted::<F, O>(
                log2(num_ops as int),
                log2(num_mem_cells as int),
                log2(aux_len as int),
                extended(vals(x@), log2(num_mem_cells as int)),
                extended(vals(y@), log2(num_mem_cells as int)),
                claimed_eval.val(),
                at,
                d,
                claims_of(claims@),
                old(transcript).log(),
                final(transcript).log(),
            ),
        r matches Err(e) ==> cut_within(
            e,
            old(transcript).log(),
            final(transcript).log(),
            spark_fields(log2(num_ops as int), log2(num_mem_cells as int)),
            0,
        ) || exists|d: SparkRead<O>| #[trigger]
            spark_run_refused::<F, O>(
                log2(num_ops as int),
                log2(num_mem_cells as int),
                extended(vals(x@), log2(num_mem_cells as int)),
                extended(vals(y@), log2(num_mem_cells as int)),
                claimed_eval.val(),
                d,
                e,
                old(transcript).log(),
                final(transcript).log(),
            ),
{
    let ghost log0 = transcript.log();
    let mem_vars: usize = log2_power_of_two(num_mem_cells);
    let ops_vars: usize = log2_power_of_two(num_ops);
    let aux_vars: usize = log2_power_of_two(aux_len);
    let x_ext = extend_point(x, mem_vars);
    let y_ext = extend_point(y, mem_vars);
    let (gamma, tau) = spark_challenges::<F, O, T>(transcript);
    let ghost (n1, n2, n3) = (
        triple_fields(ops_vars as nat),
        products_fields(4, ops_vars as nat),
        products_fields(4, mem_vars as nat),
    );
    let ghost all = spark_fields(ops_vars as nat, mem_vars as nat);
    let ghost start = transcript.log();
    proof {
        went_plain::<O>(log0, seq![gamma.val(), tau.val()], Seq::empty());
    }
    let ghost mut d: SparkRead<O> = SparkRead {
        gamma: gamma.val(),
        tau: tau.val(),
        dot_point: Seq::empty(),
        dot_evals: Seq::empty(),
        ops_roots: Seq::empty(),
        ops_claims: Seq::empty(),
        ops_point: Seq::empty(),
        mem_roots: Seq::empty(),
        mem_claims: Seq::empty(),
        mem_point: Seq::empty(),
        log1: Seq::empty(),
        log2: Seq::empty(),
        log3: Seq::empty(),
    };
    let (dot_point, dot_evals) = match verify_triple_product(ops_vars, claimed_eval, transcript) {
        Ok(end) => end,
        Err(e) => {
            proof {
                if cut_within(e, start, transcript.log(), n1, 0) {
                    cut_later(e, log0, start, transcript.log(), 0, 0, n1, 0, all, 0);
                } else {
                    assert(spark_run_refused::<F, O>(
                        log2(num_ops as int),
                        log2(num_mem_cells as int),
                        extended(vals(x@), log2(num_mem_cells as int)),
                        extended(vals(y@), log2(num_mem_cells as int)),
                        claimed_eval.val(),
                        d,
                        e,
                        old(transcript).log(),
                        transcript.log(),
                    ));
                }
            }
            let r: Result<Vec<OpeningClaim<F>>, Error> = Err(e);
            assert(r->Err_0 == e);
            return r;
        },
    };
    proof {
        d = SparkRead {
            dot_point: vals(dot_point@),
            dot_evals: vals(dot_evals@),
            log1: transcript.log(),
            ..d
        };
        assert(d.dot_ok::<F>(ops_vars as nat, claimed_eval.val(), log0));
        d.dot_went::<F>(ops_vars as nat, claimed_eval.val(), log0);
    }
    let ops = match verify_products(4, num_ops, transcript) {
        Ok(ops) => ops,
        Err(e) => {
            proof {
                if cut_within(e, d.log1, transcript.log(), n2, 0) {
                    cut_later(e, log0, d.log1, transcript.log(), n1, 0, n2, 0, all, 0);
                } else {
                    assert(spark_run_refused::<F, O>(
                        log2(num_ops as int),
                        log2(num_mem_cells as int),
                        extended(vals(x@), log2(num_mem_cells as int)),
                        extended(vals(y@), log2(num_mem_cells as int)),
                        claimed_eval.val(),
                        d,
                        e,
                        old(transcript).log(),
                        transcript.log(),
                    ));
                }
            }
            let r: Result<Vec<OpeningClaim<F>>, Error> = Err(e);
            assert(r->Err_0 == e);
            return r;
        },
    };
    proof {
        d = SparkRead {
            ops_roots: vals(ops.roots@),
            ops_claims: vals(ops.claims@),
            ops_point: vals(ops.point@),
            log2: transcript.log(),
            ..d
        };
        assert(d.dot_ok::<F>(ops_vars as nat, claimed_eval.val(), log0));
        assert(d.ops_ok::<F>(ops_vars as nat));
        d.ops_went::<F>(ops_vars as nat);
        went_on(log0, d.log1, d.log2, n1, 0, n2, 0);
    }
    let mem = match verify_products(4, num_mem_cells, transcript) {
        Ok(mem) => mem,
        Err(e) => {
            proof {
                if cut_within(e, d.log2, transcript.log(), n3, 0) {
                    cut_later(e, log0, d.log2, transcript.log(), n1 + n2, 0, n3, 0, all, 0);
                } else {
                    assert(spark_run_refused::<F, O>(
                        log2(num_ops as int),
                        log2(num_mem_cells as int),
                        extended(vals(x@), log2(num_mem_cells as int)),
                        extended(vals(y@), log2(num_mem_cells as int)),
                        claimed_eval.val(),
                        d,
                        e,
                        old(transcript).log(),
                        transcript.log(),
                    ));
                }
            }
            let r: Result<Vec<OpeningClaim<F>>, Error> = Err(e);
            assert(r->Err_0 == e);
            return r;
        },
    };
    proof {
        d = SparkRead {
            mem_roots: vals(mem.roots@),
            mem_claims: vals(mem.claims@),
            mem_point: vals(mem.point@),
            log3: transcript.log(),
            ..d
        };
        assert(d.dot_ok::<F>(ops_vars as nat, claimed_eval.val(), log0));
        assert(d.ops_ok::<F>(ops_vars as nat));
        assert(d.mem_ok::<F>(mem_vars as nat));
        d.mem_went::<F>(mem_vars as nat);
        went_on(log0, d.log2, d.log3, n1 + n2, 0, n3, 0);
    }
    let r = spark_verify_finish(
        &x_ext,
        &y_ext,
        gamma,
        tau,
        &dot_point,
        &dot_evals,
        &ops,
        &mem,
        aux_vars,
        at,
        transcript,
    );
    proof {
        if r is Ok {
            assert(spark_run_accepted::<F, O>(
                ops_vars as nat,
                mem_vars as nat,
                aux_vars as nat,
                vals(x_ext@),
                vals(y_ext@),
                claimed_eval.val(),
                at,
                d,
                claims_of(r->Ok_0@),
                log0,
                transcript.log(),
            ));
        } else if cut_within(r->Err_0, d.log3, transcript.log(), 8, 0) {
            let so_far = n1 + n2 + n3;
            cut_later(r->Err_0, log0, d.log3, transcript.log(), so_far, 0, 8, 0, all, 0);
        } else {
            assert(spark_run_refused::<F, O>(
                ops_vars as nat,
                mem_vars as nat,
                vals(x_ext@),
                vals(y_ext@),
                claimed_eval.val(),
                d,
                r->Err_0,
                log0,
                transcript.log(),
            ));
        }
    }
    r
}

/// What an honest prover writes about the true value of a sparse matrix is
/// accepted, and leaves the verifier with the same claims.
#[verifier::rlimit(60)]
#[verifier::spinoff_prover]
pub proof fn honest_spark_is_accepted<F: PrimeField, O>(
    spark: SparkProverData<F>,
    x: Seq<int>,
    y: Seq<int>,
    at: SparkOffsets,
    run: SparkRun,
    claims: Seq<Claim>,
    log0: Seq<Event<O>>,
    log1: Seq<Event<O>>,
)
    requires
        spark.wf(),
        x.len() == spark.mem_vars(),
        y.len() == spark.mem_vars(),
        spark_written::<F, O>(spark, x, y, at, run, claims, log0, log1),
    ensures
        exists|d: SparkRead<O>| #[trigger]
            spark_run_accepted::<F, O>(
                spark.ops_vars(),
                spark.mem_vars(),
                spark.aux_vars(),
                x,
                y,
                matrix_eval::<F>(entries_of(spark.entries@), x, y),
                at,
                d,
                claims,
                log0,
                log1,
            ),
{
    spark_shape(spark);
    let (g, t) = (run.gamma, run.tau);
    let value = matrix_eval::<F>(entries_of(spark.entries@), x, y);
    let polys = dot_polys(spark, x, y);
    let evals = values_at::<F>(polys, run.dot_point);
    let ol = ops_leaves(spark, x, y, g, t);
    let ml = mem_leaves(spark, x, y, g, t);
    let oroots = Seq::new(4, |i: int| vprod::<F>(ol[i]));
    let mroots = Seq::new(4, |i: int| vprod::<F>(ml[i]));
    let start = log0 + drawn(seq![g, t]);
    let mid = start + run_events::<F, O>(triple_terms(), polys, 3, run.dot_point);
    let l1 = mid + sent_fields(evals);
    let l2 = l1 + sent_fields(oroots) + product_events::<F, O>(
        ol,
        spark.ops_vars(),
        run.ops_coeffs,
        run.ops_points,
        spark.ops_vars(),
    );
    let l3 = l2 + sent_fields(mroots) + product_events::<F, O>(
        ml,
        spark.mem_vars(),
        run.mem_coeffs,
        run.mem_points,
        spark.mem_vars(),
    );
    let (po, pm) = (run.ops_point(), run.mem_point());
    let values = ops_values(spark, x, y, po);
    let audit = audit_values(spark, pm);
    let d = SparkRead {
        gamma: g,
        tau: t,
        dot_point: run.dot_point,
        dot_evals: evals,
        ops_roots: oroots,
        ops_claims: level_values::<F>(ol, po),
        ops_point: po,
        mem_roots: mroots,
        mem_claims: level_values::<F>(ml, pm),
        mem_point: pm,
        log1: l1,
        log2: l2,
        log3: l3,
    };
    honest_dot_is_accepted::<F, O>(spark, x, y, run.dot_point, start);
    assert(d.dot_ok::<F>(spark.ops_vars(), value, log0)) by {
        assert(sumcheck_verified::<F, O>(
            spark.ops_vars(),
            3,
            value,
            summand::<F>(triple_terms(), evals),
            run.dot_point,
            start,
            mid,
        ));
        assert(triple_verified::<F, O>(
            spark.ops_vars(),
            value,
            run.dot_point,
            evals,
            start,
            l1,
        ));
    }
    assert forall|i: int| 0 <= i < 4 implies {
        &&& vcanon::<F>(#[trigger] ol[i])
        &&& ol[i].len() == exp2(spark.ops_vars())
    } by {
        broadcast use crate::field::fsub_canon;

    }
    assert forall|i: int| 0 <= i < 4 implies {
        &&& vcanon::<F>(#[trigger] ml[i])
        &&& ml[i].len() == exp2(spark.mem_vars())
    } by {
        broadcast use crate::field::fsub_canon;

    }
    products_end::<F, O>(ol, spark.ops_vars(), run.ops_coeffs, run.ops_points, l1);
    products_end::<F, O>(ml, spark.mem_vars(), run.mem_coeffs, run.mem_points, l2);
    assert(Seq::new(ol.len(), |i: int| vprod::<F>(ol[i])) =~= oroots);
    assert(Seq::new(ml.len(), |i: int| vprod::<F>(ml[i])) =~= mroots);
    assert(d.ops_ok::<F>(spark.ops_vars()));
    assert(d.mem_ok::<F>(spark.mem_vars()));
    honest_memory_is_balanced(spark, x, y, g, t);
    assert(po.len() == spark.ops_vars());
    assert(pm.len() == spark.mem_vars());
    honest_ops_claims_match(spark, x, y, g, t, po);
    honest_mem_claims_match(spark, x, y, g, t, pm);
    assert(log1 =~= l3 + sent_fields(values) + sent_fields(audit));
    assert(values_read(l3, log1, values, audit));
    assert(spark_accepted::<F, O>(
        d.checked(x, y),
        claims,
        at,
        spark.aux_vars(),
        run.dot_point,
        evals,
        po,
        l3,
        log1,
    ));
    assert(spark_run_accepted::<F, O>(
        spark.ops_vars(),
        spark.mem_vars(),
        spark.aux_vars(),
        x,
        y,
        value,
        at,
        d,
        claims,
        log0,
        log1,
    ));
}

/// The sparse inner product of an honest prover is accepted.
proof fn honest_dot_is_accepted<F: PrimeField, O>(
    spark: SparkProverData<F>,
    x: Seq<int>,
    y: Seq<int>,
    point: Seq<int>,
    log0: Seq<Event<O>>,
)
    requires
        spark.wf(),
        x.len() == spark.mem_vars(),
        y.len() == spark.mem_vars(),
        point.len() == spark.ops_vars(),
    ensures
        sumcheck_verified::<F, O>(
            spark.ops_vars(),
            3,
            matrix_eval::<F>(entries_of(spark.entries@), x, y),
            summand::<F>(triple_terms(), values_at::<F>(dot_polys(spark, x, y), point)),
            point,
            log0,
            log0 + run_events::<F, O>(triple_terms(), dot_polys(spark, x, y), 3, point),
        ),
        triple_accepted::<F>(
            summand::<F>(triple_terms(), values_at::<F>(dot_polys(spark, x, y), point)),
            values_at::<F>(dot_polys(spark, x, y), point),
        ),
{
    spark_shape(spark);
    accesses_evaluate_matrix(spark, x, y);
    let (a, b, c) = (spark.vectors()[2], spark.row_reads(x), spark.col_reads(y));
    let polys = dot_polys(spark, x, y);
    let n = exp2(point.len());
    assert(vcanon::<F>(a)) by {
        canon_consts::<F>();
        assert forall|i: int| 0 <= i < a.len() implies canon::<F>(#[trigger] a[i]) by {
            if i < spark.entries@.len() {
                val_canon(spark.entries@[i].value);
            }
        }
    }
    assert(vcanon::<F>(b)) by {
        assert forall|i: int| 0 <= i < b.len() implies canon::<F>(#[trigger] b[i]) by {
            let _ = spark.rows()[i];
            eq_at_canon::<F>(spark.rows()[i], x);
        }
    }
    assert(vcanon::<F>(c)) by {
        assert forall|i: int| 0 <= i < c.len() implies canon::<F>(#[trigger] c[i]) by {
            let _ = spark.cols()[i];
            eq_at_canon::<F>(spark.cols()[i], y);
        }
    }
    triple_cube_sum::<F>(a, b, c, n);
    let ts = triple_terms();
    assert(terms_fit(ts, 3, 3)) by {
        assert forall|t: int| 0 <= t < ts.len() implies {
            &&& (#[trigger] ts[t]).factors.len() <= 3
            &&& forall|i: int| 0 <= i < ts[t].factors.len() ==> #[trigger] ts[t].factors[i] < 3
        } by {}
    }
    assert forall|k: int| 0 <= k < polys.len() implies vcanon::<F>(#[trigger] polys[k])
        && polys[k].len() == n by {
        assert(polys[k] == a || polys[k] == b || polys[k] == c);
    }
    honest_run_is_accepted::<F, O>(
        ts,
        polys,
        3,
        triple_sum::<F>(a, b, c),
        point,
        log0,
    );
    honest_triple_product_is_accepted::<F>(a, b, c, point);
}

/// A batch of products of an honest prover is accepted and ends with claims about
/// the vectors themselves.
proof fn products_end<F: PrimeField, O>(
    leaves: Seq<Seq<int>>,
    num_layers: nat,
    coeffs: Seq<Seq<int>>,
    points: Seq<Seq<int>>,
    log0: Seq<Event<O>>,
)
    requires
        leaves.len() == 4,
        rect(leaves, exp2(num_layers)),
        forall|i: int| 0 <= i < leaves.len() ==> vcanon::<F>(#[trigger] leaves[i]),
        layers_shaped(4, num_layers, coeffs, points),
    ensures
        ({
            let roots = Seq::new(leaves.len(), |i: int| vprod::<F>(leaves[i]));
            products_verified::<F, O>(
                roots,
                num_layers,
                level_values::<F>(leaves, points.last()),
                points.last(),
                log0 + sent_fields(roots),
                log0 + sent_fields(roots) + product_events::<F, O>(
                    leaves,
                    num_layers,
                    coeffs,
                    points,
                    num_layers,
                ),
            )
        }),
{
    let roots = Seq::new(leaves.len(), |i: int| vprod::<F>(leaves[i]));
    honest_products_are_accepted::<F, O>(
        leaves,
        num_layers,
        coeffs,
        points,
        num_layers,
        log0 + sent_fields(roots),
    );
    assert(points.last() == points[num_layers as int]);
    assert(levels_after::<F>(leaves, num_layers, num_layers as int) =~= leaves);
}

} // verus!
