//! What an accepted evaluation proof of a sparse matrix shows.

use crate::claims::Claim;
use crate::classic_sumcheck::{sumcheck_verified, terms_fit};
use crate::field::{canon, fmul, fsub_canon, PrimeField, Residue};
use crate::linear::{mcanon, rect, vcanon, vzero};
use crate::mle::{eq_evals, exp2, mle_of_eq_evals};
use crate::products::{eq_product_comm, level_values};
use crate::products_soundness::{accepted_depth, accepted_roots_are_products, products_missed};
use crate::spark::{
    honest_triple_product_is_accepted, later_extends, mem_accepted, mem_expected, ops_accepted,
    ops_expected, spark_claims, spark_run_accepted, triple_accepted, triple_cube_sum, triple_sum,
    triple_terms, triple_verified, values_read, SparkOffsets, SparkRead,
};
use crate::spark_memory::{
    hashes_extend, identity_extends_indices, indices, later, memory_hashes, padded,
    padding_keeps_evaluation, vprod,
};
use crate::sumcheck::values_at;
use crate::sumcheck_soundness::{accepted_claim_is_the_sum, strayed_before};
use crate::transcript::{drawn, sent_fields, Event};
use vstd::prelude::*;

verus! {

/// An accepted sum of products of three vectors, whose values are true, is the sum,
/// unless a message of the sum-check strayed.
pub proof fn accepted_triple_sum_is_the_sum<F: PrimeField, O>(
    a: Seq<int>,
    b: Seq<int>,
    c: Seq<int>,
    sum: int,
    point: Seq<int>,
    evals: Seq<int>,
    log0: Seq<Event<O>>,
    log1: Seq<Event<O>>,
)
    requires
        rect(triple(a, b, c), exp2(point.len())),
        mcanon::<F>(triple(a, b, c)),
        triple_verified::<F, O>(point.len(), sum, point, evals, log0, log1),
        evals == values_at::<F>(triple(a, b, c), point),
    ensures
        sum == triple_sum::<F>(a, b, c) || strayed_before::<F, O>(
            triple_terms(),
            triple(a, b, c),
            3,
            point,
            log0,
            sent_fields(evals),
            log1,
        ),
{
    let polys = triple(a, b, c);
    let n = exp2(point.len());
    let (terminal, mid) = choose|terminal: int, mid: Seq<Event<O>>|
        {
            &&& #[trigger] sumcheck_verified::<F, O>(
                point.len(),
                3,
                sum,
                terminal,
                point,
                log0,
                mid,
            )
            &&& triple_accepted::<F>(terminal, evals)
            &&& log1 == mid + sent_fields(evals)
        };
    assert(polys[0].len() == n && polys[1].len() == n && polys[2].len() == n);
    assert(vcanon::<F>(polys[0]));
    honest_triple_product_is_accepted::<F>(a, b, c, point);
    triple_cube_sum::<F>(a, b, c, n);
    assert(terms_fit(triple_terms(), 3, 3));
    accepted_claim_is_the_sum::<F, O>(triple_terms(), polys, 3, sum, terminal, point, log0, mid);
}

/// Three polynomials.
pub open spec fn triple(a: Seq<int>, b: Seq<int>, c: Seq<int>) -> Seq<Seq<int>> {
    seq![a, b, c]
}

/// The vectors behind an evaluation proof of a sparse matrix.
pub struct SparkVectors {
    /// Row and column of every entry.
    pub rows: Seq<int>,
    pub cols: Seq<int>,
    /// Value of every entry.
    pub values: Seq<int>,
    /// For the rows: the timestamps read, and those left at the end.
    pub row_times: Seq<int>,
    pub row_audit: Seq<int>,
    /// For the columns: the timestamps read, and those left at the end.
    pub col_times: Seq<int>,
    pub col_audit: Seq<int>,
    /// The values that were read for the rows and for the columns.
    pub row_reads: Seq<int>,
    pub col_reads: Seq<int>,
}

impl SparkVectors {
    /// The vectors of the accesses.
    pub open spec fn ops(self) -> Seq<Seq<int>> {
        seq![
            self.rows,
            self.cols,
            self.values,
            self.row_times,
            self.col_times,
            self.row_reads,
            self.col_reads,
        ]
    }

    /// The vectors of the cells.
    pub open spec fn mem(self) -> Seq<Seq<int>> {
        seq![self.row_audit, self.col_audit]
    }

    /// Canonical vectors of the right lengths.
    pub open spec fn sized<F: Residue>(self, ops_vars: nat, mem_vars: nat) -> bool {
        &&& rect(self.ops(), exp2(ops_vars))
        &&& rect(self.mem(), exp2(mem_vars))
        &&& mcanon::<F>(self.ops())
        &&& mcanon::<F>(self.mem())
    }

    /// The vectors stand, padded with zeros, at their places among the polynomials.
    pub open spec fn stand_in(
        self,
        polys: Seq<Seq<int>>,
        at: SparkOffsets,
        aux_vars: nat,
    ) -> bool {
        let n = exp2(aux_vars);
        let (s, d) = (at.static_offset as int, at.dynamic_offset as int);
        &&& polys[s] == padded(self.rows, n)
        &&& polys[s + 1] == padded(self.cols, n)
        &&& polys[s + 2] == padded(self.values, n)
        &&& polys[s + 3] == padded(self.row_times, n)
        &&& polys[s + 4] == padded(self.row_audit, n)
        &&& polys[s + 5] == padded(self.col_times, n)
        &&& polys[s + 6] == padded(self.col_audit, n)
        &&& polys[d] == padded(self.row_reads, n)
        &&& polys[d + 1] == padded(self.col_reads, n)
    }

    /// The hashes of what every access read and wrote, for the rows and the columns.
    pub open spec fn accesses<F: Residue>(self, gamma: int, tau: int) -> Seq<Seq<int>> {
        seq![
            memory_hashes::<F>(self.rows, self.row_reads, self.row_times, gamma, tau),
            memory_hashes::<F>(self.rows, self.row_reads, later::<F>(self.row_times), gamma, tau),
            memory_hashes::<F>(self.cols, self.col_reads, self.col_times, gamma, tau),
            memory_hashes::<F>(self.cols, self.col_reads, later::<F>(self.col_times), gamma, tau),
        ]
    }

    /// The hashes of what every cell holds at the beginning and at the end.
    pub open spec fn cells<F: Residue>(
        self,
        x: Seq<int>,
        y: Seq<int>,
        gamma: int,
        tau: int,
    ) -> Seq<Seq<int>> {
        let n = exp2(x.len());
        seq![
            memory_hashes::<F>(indices::<F>(n), eq_evals::<F>(x), vzero(n), gamma, tau),
            memory_hashes::<F>(indices::<F>(n), eq_evals::<F>(x), self.row_audit, gamma, tau),
            memory_hashes::<F>(indices::<F>(n), eq_evals::<F>(y), vzero(n), gamma, tau),
            memory_hashes::<F>(indices::<F>(n), eq_evals::<F>(y), self.col_audit, gamma, tau),
        ]
    }

    /// What was written, the beginning included, is what was read, the end
    /// included: for the rows and for the columns the products of the hashes agree.
    pub open spec fn reads_are_writes<F: Residue>(
        self,
        x: Seq<int>,
        y: Seq<int>,
        gamma: int,
        tau: int,
    ) -> bool {
        let (ops, mem) = (self.accesses::<F>(gamma, tau), self.cells::<F>(x, y, gamma, tau));
        &&& fmul::<F>(vprod::<F>(mem[0]), vprod::<F>(ops[1])) == fmul::<F>(
            vprod::<F>(ops[0]),
            vprod::<F>(mem[1]),
        )
        &&& fmul::<F>(vprod::<F>(mem[2]), vprod::<F>(ops[3])) == fmul::<F>(
            vprod::<F>(ops[2]),
            vprod::<F>(mem[3]),
        )
    }
}

/// Hashes of memory entries are canonical.
proof fn hashes_canon<F: Residue>(
    addresses: Seq<int>,
    values: Seq<int>,
    times: Seq<int>,
    gamma: int,
    tau: int,
)
    ensures
        vcanon::<F>(memory_hashes::<F>(addresses, values, times, gamma, tau)),
        memory_hashes::<F>(addresses, values, times, gamma, tau).len() == addresses.len(),
{
    broadcast use fsub_canon;

}

/// An accepted evaluation proof of a sparse matrix all of whose claims are true shows:
/// the claimed value is the sum over the entries of value, row read and column
/// read, and what the reads found in the memory is what was written there, as far
/// as the products of the hashes tell, unless a message of a sum-check strayed or a
/// layer of a product argument missed.
#[verifier::rlimit(40)]
#[verifier::spinoff_prover]
pub proof fn accepted_matrix_value_is_the_sum<F: PrimeField, O>(
    v: SparkVectors,
    ops_vars: nat,
    mem_vars: nat,
    aux_vars: nat,
    x: Seq<int>,
    y: Seq<int>,
    claimed: int,
    at: SparkOffsets,
    d: SparkRead<O>,
    claims: Seq<Claim>,
    polys: Seq<Seq<int>>,
    log0: Seq<Event<O>>,
    log1: Seq<Event<O>>,
)
    requires
        ops_vars <= aux_vars,
        mem_vars <= aux_vars,
        x.len() == mem_vars,
        y.len() == mem_vars,
        canon::<F>(d.tau),
        v.sized::<F>(ops_vars, mem_vars),
        v.stand_in(polys, at, aux_vars),
        spark_run_accepted::<F, O>(
            ops_vars,
            mem_vars,
            aux_vars,
            x,
            y,
            claimed,
            at,
            d,
            claims,
            log0,
            log1,
        ),
        forall|i: int| 0 <= i < claims.len() ==> (#[trigger] claims[i]).is_true::<F>(polys),
    ensures
        claimed == triple_sum::<F>(v.values, v.row_reads, v.col_reads) || strayed_before::<F, O>(
            triple_terms(),
            triple(v.values, v.row_reads, v.col_reads),
            3,
            d.dot_point,
            log0 + drawn(seq![d.gamma, d.tau]),
            sent_fields(d.dot_evals),
            d.log1,
        ),
        v.reads_are_writes::<F>(x, y, d.gamma, d.tau) || products_missed::<F, O>(
            v.accesses::<F>(d.gamma, d.tau),
            ops_vars,
            d.ops_roots,
            ops_vars,
            d.ops_claims,
            d.ops_point,
            d.log1 + sent_fields(d.ops_roots),
            d.log2,
        ) || products_missed::<F, O>(
            v.cells::<F>(x, y, d.gamma, d.tau),
            mem_vars,
            d.mem_roots,
            mem_vars,
            d.mem_claims,
            d.mem_point,
            d.log2 + sent_fields(d.mem_roots),
            d.log3,
        ),
{
    let (gamma, tau) = (d.gamma, d.tau);
    let (values, audit) = choose|values: Seq<int>, audit: Seq<int>|
        {
            &&& #[trigger] values_read(d.log3, log1, values, audit)
            &&& ops_accepted::<F>(d.checked(x, y), values)
            &&& mem_accepted::<F>(d.checked(x, y), audit)
            &&& claims == spark_claims(
                at,
                aux_vars,
                d.dot_point,
                d.dot_evals,
                d.ops_point,
                values,
                d.mem_point,
                audit,
            )
        };
    let (m, n) = (exp2(ops_vars), exp2(mem_vars));
    let (p, q, z) = (d.dot_point, d.ops_point, d.mem_point);
    accepted_depth::<F, O>(
        d.ops_roots,
        ops_vars,
        d.ops_claims,
        q,
        d.log1 + sent_fields(d.ops_roots),
        d.log2,
    );
    accepted_depth::<F, O>(
        d.mem_roots,
        mem_vars,
        d.mem_claims,
        z,
        d.log2 + sent_fields(d.mem_roots),
        d.log3,
    );
    let (ov, mv) = (v.ops(), v.mem());
    assert(ov[0].len() == m && ov[1].len() == m && ov[2].len() == m && ov[3].len() == m);
    assert(ov[4].len() == m && ov[5].len() == m && ov[6].len() == m);
    assert(mv[0].len() == n && mv[1].len() == n);
    assert(vcanon::<F>(ov[2]) && vcanon::<F>(ov[5]) && vcanon::<F>(ov[6]));
    assert(claims.len() == 11);
    padding_keeps_evaluation::<F>(v.values, p, aux_vars);
    padding_keeps_evaluation::<F>(v.row_reads, p, aux_vars);
    padding_keeps_evaluation::<F>(v.col_reads, p, aux_vars);
    assert(claims[0].is_true::<F>(polys) && claims[1].is_true::<F>(polys));
    assert(claims[2].is_true::<F>(polys));
    let t = triple(v.values, v.row_reads, v.col_reads);
    assert(d.dot_evals =~= values_at::<F>(t, p));
    accepted_triple_sum_is_the_sum::<F, O>(
        v.values,
        v.row_reads,
        v.col_reads,
        claimed,
        p,
        d.dot_evals,
        log0 + drawn(seq![gamma, tau]),
        d.log1,
    );
    padding_keeps_evaluation::<F>(v.rows, q, aux_vars);
    padding_keeps_evaluation::<F>(v.row_times, q, aux_vars);
    padding_keeps_evaluation::<F>(v.cols, q, aux_vars);
    padding_keeps_evaluation::<F>(v.col_times, q, aux_vars);
    padding_keeps_evaluation::<F>(v.row_reads, q, aux_vars);
    padding_keeps_evaluation::<F>(v.col_reads, q, aux_vars);
    assert(claims[3].is_true::<F>(polys) && claims[4].is_true::<F>(polys));
    assert(claims[5].is_true::<F>(polys) && claims[6].is_true::<F>(polys));
    assert(claims[7].is_true::<F>(polys) && claims[8].is_true::<F>(polys));
    hashes_extend::<F>(v.rows, v.row_reads, v.row_times, gamma, tau, q);
    hashes_extend::<F>(v.rows, v.row_reads, later::<F>(v.row_times), gamma, tau, q);
    hashes_extend::<F>(v.cols, v.col_reads, v.col_times, gamma, tau, q);
    hashes_extend::<F>(v.cols, v.col_reads, later::<F>(v.col_times), gamma, tau, q);
    later_extends::<F>(v.row_times, q);
    later_extends::<F>(v.col_times, q);
    let ops = v.accesses::<F>(gamma, tau);
    assert(level_values::<F>(ops, q) =~= ops_expected::<F>(values, gamma, tau));
    hashes_canon::<F>(v.rows, v.row_reads, v.row_times, gamma, tau);
    hashes_canon::<F>(v.rows, v.row_reads, later::<F>(v.row_times), gamma, tau);
    hashes_canon::<F>(v.cols, v.col_reads, v.col_times, gamma, tau);
    hashes_canon::<F>(v.cols, v.col_reads, later::<F>(v.col_times), gamma, tau);
    accepted_roots_are_products::<F, O>(
        ops,
        ops_vars,
        d.ops_roots,
        d.ops_claims,
        q,
        d.log1 + sent_fields(d.ops_roots),
        d.log2,
    );
    padding_keeps_evaluation::<F>(v.row_audit, z, aux_vars);
    padding_keeps_evaluation::<F>(v.col_audit, z, aux_vars);
    assert(claims[9].is_true::<F>(polys) && claims[10].is_true::<F>(polys));
    let ids = indices::<F>(n);
    let (ex, ey) = (eq_evals::<F>(x), eq_evals::<F>(y));
    hashes_extend::<F>(ids, ex, vzero(n), gamma, tau, z);
    hashes_extend::<F>(ids, ex, v.row_audit, gamma, tau, z);
    hashes_extend::<F>(ids, ey, vzero(n), gamma, tau, z);
    hashes_extend::<F>(ids, ey, v.col_audit, gamma, tau, z);
    identity_extends_indices::<F>(z);
    mle_of_eq_evals::<F>(x, z);
    mle_of_eq_evals::<F>(y, z);
    eq_product_comm::<F>(x, z);
    eq_product_comm::<F>(y, z);
    crate::linear::dot_zero::<F>(n, eq_evals::<F>(z));
    let mem = v.cells::<F>(x, y, gamma, tau);
    assert(level_values::<F>(mem, z) =~= mem_expected::<F>(z, x, y, audit, gamma, tau));
    hashes_canon::<F>(ids, ex, vzero(n), gamma, tau);
    hashes_canon::<F>(ids, ex, v.row_audit, gamma, tau);
    hashes_canon::<F>(ids, ey, vzero(n), gamma, tau);
    hashes_canon::<F>(ids, ey, v.col_audit, gamma, tau);
    accepted_roots_are_products::<F, O>(
        mem,
        mem_vars,
        d.mem_roots,
        d.mem_claims,
        z,
        d.log2 + sent_fields(d.mem_roots),
        d.log3,
    );
    if (forall|i: int| 0 <= i < ops.len() ==> #[trigger] d.ops_roots[i] == vprod::<F>(ops[i])) && (
    forall|i: int| 0 <= i < mem.len() ==> #[trigger] d.mem_roots[i] == vprod::<F>(mem[i])) {
        assert(d.ops_roots[0] == vprod::<F>(ops[0]) && d.ops_roots[1] == vprod::<F>(ops[1]));
        assert(d.ops_roots[2] == vprod::<F>(ops[2]) && d.ops_roots[3] == vprod::<F>(ops[3]));
        assert(d.mem_roots[0] == vprod::<F>(mem[0]) && d.mem_roots[1] == vprod::<F>(mem[1]));
        assert(d.mem_roots[2] == vprod::<F>(mem[2]) && d.mem_roots[3] == vprod::<F>(mem[3]));
    }
}

} // verus!
