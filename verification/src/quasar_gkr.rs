//! Certification of quasi-abelian encodings by two layers of sum-checks.
//!
//! A parity block is `WHT(E .* WHT(m))`. The outer layer reduces values of
//! parity blocks to values of `E` and of `WHT(m)` at one point, the inner layer
//! reduces the latter to values of `m`.

use crate::claims::{add_claims_take, claim_set, push_basefold_opening_claim, Claim};
use crate::classic_sumcheck::{
    honest_sumcheck_is_accepted, instance_fits, round_error, run_events, sumcheck_prove,
    sumcheck_refused, sumcheck_verified, sumcheck_verify, sumcheck_went,
};
use crate::error::Error;
use crate::field::{canon, f_units, fmul, fmul_assoc, fmul_canon, fmul_comm, PrimeField, Residue};
use crate::linear::{
    add_scaled, column, comb, comb_len, dot, dot_canon, dot_comb, dot_comm, dot_nil, dot_push,
    dot_scale, flatten, mat, mat_push, powers, pows, pows_step, rect, vals, vals_push, vcanon, vmul,
    vscale, vsum, vsum_push, vsum_scale, zero_vec,
};
use crate::mle::{
    eq_evals, eval_mle_from_evals, exp2, exp2_is_pow2, had_evals, had_evals_shape, hadamard,
    hadamard_tensor_mle_eval, hadamard_tensor_mle_evals_on_hypercube, mle, mle_of_had_evals,
    mle_of_walsh, power_of_two,
};
use crate::qa_code::{
    copied, copied_rows, flatten_entry, flatten_len, flatten_push, parities, parity, row_bounds,
    walsh, walsh_shape,
};
use crate::qapcs::Evaluation;
use crate::quasar::{qa_encode_endpoint_instance, QABaseProverParams, QABaseVerifierParams};
use crate::sumcheck::{
    cube_sum, cube_sum_nil, cube_sum_push, cube_sum_weighted, product_at, product_small, summand,
    summand_push, term_values, terms_view, values_at, ProductTerm, SumcheckInstance, Term,
};
use crate::transcript::{
    cut_later, cut_within, drawn, read_field_elements, sent_fields, squeeze_challenges, went,
    went_on, went_plain, write_field_elements, Event, FieldTranscript, TranscriptRead,
    TranscriptWrite,
};
use vstd::prelude::*;

verus! {

/// Commitments to the blocks of the encoded instances, in whatever form the
/// inner commitment scheme has them.
pub struct QABaseEndpointCommitments<C> {
    pub num_instances: usize,
    pub block_commitments: Vec<C>,
}

/// The blocks of the encoded instances and the transforms of the inputs.
pub struct QABaseEndpointProverData<F, C> {
    pub commitments: QABaseEndpointCommitments<C>,
    pub polys: Vec<Vec<F>>,
    pub middle_evals: Vec<Vec<F>>,
}

/// Where the polynomials of an opening stand in its list of polynomials.
#[derive(Clone, Debug)]
pub struct QABaseTwoLayerGkrLayout {
    pub rho: usize,
    pub num_instances: usize,
    pub block_starts: Vec<usize>,
    pub e_start: usize,
}

impl QABaseTwoLayerGkrLayout {
    /// Blocks of one instance stand together; the coefficients come last.
    pub open spec fn wf(self) -> bool {
        &&& self.rho >= 2
        &&& self.block_starts@.len() == self.num_instances
        &&& forall|b: int|
            0 <= b < self.num_instances ==> #[trigger] self.block_starts@[b] == b * self.rho
        &&& self.e_start == self.num_instances * self.rho
        &&& self.e_start + self.rho <= usize::MAX
    }

    /// Index of a block.
    pub open spec fn block_at(self, instance: int, block: int) -> int {
        instance * self.rho + block
    }

    /// Index of a coefficient vector.
    pub open spec fn e_at(self, i: int) -> int {
        self.num_instances * self.rho + i
    }

    pub proof fn lemma_block(self, instance: int, block: int)
        requires
            self.wf(),
            0 <= instance < self.num_instances,
            0 <= block < self.rho,
        ensures
            0 <= self.block_at(instance, block) < self.e_start,
    {
        row_bounds(instance, self.num_instances as nat, self.rho as nat);
    }

    /// Index of a block.
    pub fn block_poly_index(&self, instance: usize, block: usize) -> (r: usize)
        requires
            self.wf(),
            instance < self.num_instances,
            block < self.rho,
        ensures
            r == self.block_at(instance as int, block as int),
            r < self.e_start,
    {
        proof {
            self.lemma_block(instance as int, block as int);
        }
        self.block_starts[instance] + block
    }

    /// Index of a coefficient vector.
    pub fn e_poly_index(&self, i: usize) -> (r: usize)
        requires
            self.wf(),
            i + 1 < self.rho,
        ensures
            r == self.e_at(i as int),
    {
        self.e_start + i
    }

    /// The layout of `num_instances` instances with `rho` blocks each.
    pub fn new(rho: usize, num_instances: usize) -> (r: Self)
        requires
            rho >= 2,
            num_instances * rho + rho <= usize::MAX,
        ensures
            r.wf(),
            r.rho == rho,
            r.num_instances == num_instances,
    {
        let mut block_starts: Vec<usize> = Vec::new();
        let mut start: usize = 0;
        let mut b: usize = 0;
        assert(0 * rho == 0) by (nonlinear_arith);
        while b < num_instances
            invariant
                b <= num_instances,
                start == b * rho,
                num_instances * rho + rho <= usize::MAX,
                block_starts@.len() == b,
                forall|k: int| 0 <= k < b ==> #[trigger] block_starts@[k] == k * rho,
            decreases num_instances - b,
        {
            proof {
                row_bounds(b as int, num_instances as nat, rho as nat);
            }
            block_starts.push(start);
            start = start + rho;
            b = b + 1;
        }
        QABaseTwoLayerGkrLayout { rho, num_instances, block_starts, e_start: start }
    }
}

/// `polys` holds the blocks of the codewords of `inputs` in the order of the
/// layout.
pub open spec fn endpoint_blocks<F: PrimeField>(
    polys: Seq<Seq<int>>,
    inputs: Seq<Seq<int>>,
    e: Seq<Seq<int>>,
) -> bool {
    let rho = e.len() + 1;
    &&& polys.len() == inputs.len() * rho
    &&& forall|b: int|
        0 <= b < inputs.len() ==> polys[b * rho] == #[trigger] inputs[b]
    &&& forall|b: int, i: int|
        0 <= b < inputs.len() && 0 <= i < e.len() ==> polys[b * rho + (i + 1)] == #[trigger] parity::<
            F,
        >(inputs[b], e[i])
}

/// Encodes the inputs into blocks and transforms.
pub fn encode_endpoint_instances<F: PrimeField + Send, C>(
    pp: &QABaseProverParams<F, C>,
    inputs: Vec<Vec<F>>,
) -> (r: Result<(Vec<Vec<F>>, Vec<Vec<F>>), Error>)
    requires
        pp.wf(),
        rect(mat(inputs@), exp2(pp.num_vars as nat)),
        inputs@.len() * pp.inverse_rate <= usize::MAX,
    ensures
        r is Ok <==> inputs@.len() > 0,
        r matches Ok(d) ==> {
            &&& endpoint_blocks::<F>(mat(d.0@), mat(inputs@), pp.qa_params.coeffs())
            &&& rect(mat(d.0@), exp2(pp.num_vars as nat))
            &&& d.1@.len() == inputs@.len()
            &&& mat(d.1@) == Seq::new(inputs@.len(), |b: int| walsh::<F>(vals(inputs@[b]@)))
        },
        r matches Err(e) ==> e.is_open("Quasar needs at least one endpoint instance"),
{
    if inputs.len() == 0 {
        return Err(Error::open("Quasar needs at least one endpoint instance"));
    }
    let ghost ins = mat(inputs@);
    let ghost e = pp.qa_params.coeffs();
    let ghost rho = pp.inverse_rate as nat;
    let ghost n = exp2(pp.num_vars as nat);
    let mut polys: Vec<Vec<F>> = Vec::new();
    let mut middle_evals: Vec<Vec<F>> = Vec::new();
    let mut b: usize = 0;
    assert(0 * rho == 0) by (nonlinear_arith);
    proof {
        exp2_is_pow2(pp.num_vars as nat);
    }
    while b < inputs.len()
        invariant
            b <= inputs@.len(),
            pp.wf(),
            ins == mat(inputs@),
            rect(ins, n),
            n == exp2(pp.num_vars as nat),
            crate::qa_code::is_pow2(n as int),
            e == pp.qa_params.coeffs(),
            rho == pp.inverse_rate,
            rho == e.len() + 1,
            polys@.len() == b * rho,
            rect(mat(polys@), n),
            forall|k: int| 0 <= k < b ==> mat(polys@)[k * rho] == #[trigger] ins[k],
            forall|k: int, i: int|
                0 <= k < b && 0 <= i < e.len() ==> mat(polys@)[k * rho + (i + 1)]
                    == #[trigger] parity::<F>(ins[k], e[i]),
            middle_evals@.len() == b,
            forall|k: int|
                0 <= k < b ==> vals((#[trigger] middle_evals@[k])@) == walsh::<F>(ins[k]),
        decreases inputs@.len() - b,
    {
        let ghost before = mat(polys@);
        assert(ins[b as int] == vals(inputs@[b as int]@));
        assert(ins[b as int].len() == n);
        let (mut blocks, middle) = qa_encode_endpoint_instance(copied(&inputs[b]), &pp.qa_params);
        let ghost bl = mat(blocks@);
        proof {
            crate::qa_code::encode_shape::<F>(ins[b as int], e);
            assert((b + 1) * rho == b * rho + rho) by (nonlinear_arith);
        }
        polys.append(&mut blocks);
        middle_evals.push(middle);
        proof {
            let now = mat(polys@);
            assert(now =~= before + bl);
            let ps = parities::<F>(ins[b as int], e);
            assert forall|k: int| 0 <= k < now.len() implies (#[trigger] now[k]).len() == n by {
                if k >= before.len() {
                    let j = k - before.len();
                    if j > 0 {
                        assert(bl[j] == ps[j - 1]);
                    }
                }
            }
            assert forall|k: int| 0 <= k < b + 1 implies now[k * rho] == #[trigger] ins[k] by {
                if k < b {
                    row_bounds(k, b as nat, rho);
                    assert(before[k * rho] == ins[k]);
                }
            }
            assert forall|k: int, i: int| 0 <= k < b + 1 && 0 <= i < e.len() implies now[k * rho + (i
                + 1)] == #[trigger] parity::<F>(ins[k], e[i]) by {
                if k < b {
                    row_bounds(k, b as nat, rho);
                    assert(before[k * rho + (i + 1)] == parity::<F>(ins[k], e[i]));
                } else {
                    assert(bl[i + 1] == ps[i]);
                }
            }
        }
        b = b + 1;
    }
    proof {
        assert(mat(middle_evals@) =~= Seq::new(
            inputs@.len(),
            |b: int| walsh::<F>(vals(inputs@[b]@)),
        ));
    }
    Ok((polys, middle_evals))
}

/// Puts the committed blocks together; there must be one commitment a block.
pub fn finish_endpoint_commitments<F: PrimeField, C>(
    num_instances: usize,
    commitments: Vec<C>,
    polys: Vec<Vec<F>>,
    middle_evals: Vec<Vec<F>>,
) -> (r: Result<QABaseEndpointProverData<F, C>, Error>)
    ensures
        r is Ok <==> commitments@.len() == polys@.len(),
        r matches Ok(d) ==> {
            &&& d.commitments.num_instances == num_instances
            &&& d.commitments.block_commitments == commitments
            &&& d.polys == polys
            &&& d.middle_evals == middle_evals
        },
        r matches Err(e) ==> e.is_open("wrong BaseFold endpoint commitment count"),
{
    if commitments.len() != polys.len() {
        return Err(Error::open("wrong BaseFold endpoint commitment count"));
    }
    Ok(
        QABaseEndpointProverData {
            commitments: QABaseEndpointCommitments { num_instances, block_commitments: commitments },
            polys,
            middle_evals,
        },
    )
}

/// Takes over the block commitments that the verifier read.
pub fn read_endpoint_block_commitments<F: PrimeField, C>(
    vp: &QABaseVerifierParams<F, C>,
    num_instances: usize,
    commitments: Vec<C>,
) -> (r: Result<QABaseEndpointCommitments<C>, Error>)
    requires
        num_instances * vp.inverse_rate <= usize::MAX,
    ensures
        r is Ok <==> commitments@.len() == num_instances * vp.inverse_rate,
        r matches Ok(d) ==> d.num_instances == num_instances && d.block_commitments == commitments,
        r matches Err(e) ==> e.is_open("wrong endpoint commitment count"),
{
    if commitments.len() != num_instances * vp.inverse_rate {
        return Err(Error::open("wrong endpoint commitment count"));
    }
    Ok(QABaseEndpointCommitments { num_instances, block_commitments: commitments })
}

/// What the opening of all claims refers to on the prover's side.
pub struct QABaseProverOpeningAccumulator<'a, F, C> {
    pub polys: Vec<&'a Vec<F>>,
    pub comms: Vec<&'a C>,
    pub points: Vec<Vec<F>>,
    pub evals: Vec<Evaluation<F>>,
}

/// What the opening of all claims refers to on the verifier's side.
pub struct QABaseVerifierOpeningAccumulator<'a, F, C> {
    pub comms: Vec<&'a C>,
    pub points: Vec<Vec<F>>,
    pub evals: Vec<Evaluation<F>>,
}

/// References to the items of two lists, one after the other.
pub fn refs_of<'a, T>(first: &'a [T], second: &'a [T]) -> (r: Vec<&'a T>)
    ensures
        r@.len() == first@.len() + second@.len(),
        forall|i: int| 0 <= i < first@.len() ==> *(#[trigger] r@[i]) == first@[i],
        forall|i: int|
            0 <= i < second@.len() ==> *(#[trigger] r@[first@.len() + i]) == second@[i],
{
    let mut out: Vec<&'a T> = Vec::new();
    let mut i: usize = 0;
    while i < first.len()
        invariant
            i <= first@.len(),
            out@.len() == i,
            forall|k: int| 0 <= k < i ==> *(#[trigger] out@[k]) == first@[k],
        decreases first@.len() - i,
    {
        out.push(&first[i]);
        i = i + 1;
    }
    let mut j: usize = 0;
    while j < second.len()
        invariant
            j <= second@.len(),
            out@.len() == first@.len() + j,
            forall|k: int| 0 <= k < first@.len() ==> *(#[trigger] out@[k]) == first@[k],
            forall|k: int| 0 <= k < j ==> *(#[trigger] out@[first@.len() + k]) == second@[k],
        decreases second@.len() - j,
    {
        out.push(&second[j]);
        j = j + 1;
    }
    out
}

/// The prover's list of polynomials and commitments, without claims yet.
pub fn build_two_layer_gkr_prover_accumulator<'a, F: PrimeField, C>(
    endpoint_data: &'a QABaseEndpointProverData<F, C>,
    pp: &'a QABaseProverParams<F, C>,
) -> (r: (QABaseProverOpeningAccumulator<'a, F, C>, QABaseTwoLayerGkrLayout))
    requires
        pp.inverse_rate >= 2,
        endpoint_data.polys@.len() == endpoint_data.commitments.num_instances * pp.inverse_rate,
        endpoint_data.commitments.num_instances * pp.inverse_rate + pp.inverse_rate <= usize::MAX,
    ensures
        r.1.wf(),
        r.1.rho == pp.inverse_rate,
        r.1.num_instances == endpoint_data.commitments.num_instances,
        r.0.points@.len() == 0,
        r.0.evals@.len() == 0,
        r.0.polys@.len() == endpoint_data.polys@.len() + pp.e_polys@.len(),
        forall|i: int|
            0 <= i < endpoint_data.polys@.len() ==> *(#[trigger] r.0.polys@[i])
                == endpoint_data.polys@[i],
        forall|i: int|
            0 <= i < pp.e_polys@.len() ==> *(#[trigger] r.0.polys@[r.1.e_at(i)]) == pp.e_polys@[i],
        r.0.comms@.len() == endpoint_data.commitments.block_commitments@.len()
            + pp.e_commitments@.len(),
        forall|i: int|
            0 <= i < endpoint_data.commitments.block_commitments@.len() ==> *(
            #[trigger] r.0.comms@[i]) == endpoint_data.commitments.block_commitments@[i],
        forall|i: int|
            0 <= i < pp.e_commitments@.len() ==> *(
            #[trigger] r.0.comms@[endpoint_data.commitments.block_commitments@.len() + i])
                == pp.e_commitments@[i],
{
    let layout = QABaseTwoLayerGkrLayout::new(
        pp.inverse_rate,
        endpoint_data.commitments.num_instances,
    );
    let polys = refs_of(&endpoint_data.polys, &pp.e_polys);
    let comms = refs_of(&endpoint_data.commitments.block_commitments, &pp.e_commitments);
    (
        QABaseProverOpeningAccumulator { polys, comms, points: Vec::new(), evals: Vec::new() },
        layout,
    )
}

/// The verifier's list of commitments, without claims yet.
pub fn build_two_layer_gkr_verifier_accumulator<'a, F: PrimeField, C>(
    endpoints: &'a QABaseEndpointCommitments<C>,
    vp: &'a QABaseVerifierParams<F, C>,
) -> (r: (QABaseVerifierOpeningAccumulator<'a, F, C>, QABaseTwoLayerGkrLayout))
    requires
        vp.inverse_rate >= 2,
        endpoints.num_instances * vp.inverse_rate + vp.inverse_rate <= usize::MAX,
    ensures
        r.1.wf(),
        r.1.rho == vp.inverse_rate,
        r.1.num_instances == endpoints.num_instances,
        r.0.points@.len() == 0,
        r.0.evals@.len() == 0,
        r.0.comms@.len() == endpoints.block_commitments@.len() + vp.e_commitments@.len(),
        forall|i: int|
            0 <= i < endpoints.block_commitments@.len() ==> *(#[trigger] r.0.comms@[i])
                == endpoints.block_commitments@[i],
        forall|i: int|
            0 <= i < vp.e_commitments@.len() ==> *(
            #[trigger] r.0.comms@[endpoints.block_commitments@.len() + i]) == vp.e_commitments@[i],
{
    let layout = QABaseTwoLayerGkrLayout::new(vp.inverse_rate, endpoints.num_instances);
    let comms = refs_of(&endpoints.block_commitments, &vp.e_commitments);
    (QABaseVerifierOpeningAccumulator { comms, points: Vec::new(), evals: Vec::new() }, layout)
}

/// A flat index into `np` columns, taken apart and put together.
pub proof fn flat_index(b: int, i: int, np: int)
    requires
        0 <= b,
        0 <= i < np,
    ensures
        (b * np + i) / np == b,
        (b * np + i) % np == i,
{
    vstd::arithmetic::div_mod::lemma_fundamental_div_mod_converse(b * np + i, np, b, i);
}

/// A flat index below `k * np` names a row below `k` and a column below `np`.
pub proof fn flat_split(t: int, k: int, np: int)
    requires
        0 <= t < k * np,
        np > 0,
    ensures
        0 <= t / np < k,
        0 <= t % np < np,
        t == (t / np) * np + t % np,
{
    vstd::arithmetic::div_mod::lemma_fundamental_div_mod(t, np);
    vstd::arithmetic::div_mod::lemma_mod_bound(t, np);
    let (q, r) = (t / np, t % np);
    assert(t == q * np + r) by (nonlinear_arith)
        requires
            t == np * q + r,
    ;
    assert(0 <= q < k) by (nonlinear_arith)
        requires
            t == q * np + r,
            0 <= r < np,
            0 <= t < k * np,
    ;
}

/// All coordinates of nested lists of points, in order.
pub open spec fn coords<F: PrimeField>(points: Seq<Vec<Vec<F>>>) -> Seq<int>
    decreases points.len(),
{
    if points.len() == 0 {
        Seq::empty()
    } else {
        coords::<F>(points.drop_last()) + flatten(mat(points.last()@))
    }
}

/// Draws a number of points.
pub fn squeeze_points<F: PrimeField, O, T: FieldTranscript<F, O>>(
    transcript: &mut T,
    count: usize,
    num_vars: usize,
) -> (r: Vec<Vec<F>>)
    ensures
        final(transcript).held() == old(transcript).held(),
        r@.len() == count,
        rect(mat(r@), num_vars as nat),
        final(transcript).log() == old(transcript).log() + drawn(flatten(mat(r@))),
{
    let ghost log0 = transcript.log();
    let mut out: Vec<Vec<F>> = Vec::new();
    assert(log0 + drawn(flatten(mat(out@))) =~= log0);
    while out.len() < count
        invariant
            transcript.held() == old(transcript).held(),
            out@.len() <= count,
            rect(mat(out@), num_vars as nat),
            transcript.log() == log0 + drawn(flatten(mat(out@))),
        decreases count - out@.len(),
    {
        let point = squeeze_challenges::<F, O, T>(transcript, num_vars);
        proof {
            let m = mat(out@);
            let p = vals(point@);
            mat_push(out@, point);
            flatten_push(m, p);
            assert(log0 + drawn::<O>(flatten(m) + p) =~= log0 + drawn(flatten(m)) + drawn(p));
            assert forall|k: int| 0 <= k < m.len() + 1 implies (#[trigger] m.push(p)[k]).len()
                == num_vars by {
                if k < m.len() {
                    assert(m.push(p)[k] == m[k]);
                }
            }
        }
        out.push(point);
    }
    out
}

/// The challenges that batch the outputs of all instances, and the points at
/// which the outputs are taken.
pub struct GkrChallenges<F> {
    pub block_batch_challenge: F,
    pub instance_batch_challenge: F,
    pub block_powers: Vec<F>,
    pub instance_powers: Vec<F>,
    pub gammas: Vec<Vec<Vec<F>>>,
}

impl<F: PrimeField> GkrChallenges<F> {
    /// Challenges for `k` instances with `np` parity blocks in `num_vars`
    /// variables.
    pub open spec fn wf(self, k: nat, np: nat, num_vars: nat) -> bool {
        &&& vals(self.block_powers@) == pows::<F>(self.block_batch_challenge.val(), np)
        &&& vals(self.instance_powers@) == pows::<F>(self.instance_batch_challenge.val(), k)
        &&& k <= 1 ==> self.instance_batch_challenge.val() == 1
        &&& self.gammas@.len() == k
        &&& forall|b: int|
            0 <= b < k ==> (#[trigger] self.gammas@[b])@.len() == np && rect(
                mat(self.gammas@[b]@),
                num_vars,
            )
    }

    /// The point of an output.
    pub open spec fn gamma(self, b: int, i: int) -> Seq<int> {
        vals(self.gammas@[b]@[i]@)
    }

    /// The weight of an output.
    pub open spec fn weight(self, b: int, i: int) -> int {
        fmul::<F>(self.instance_powers@[b].val(), self.block_powers@[i].val())
    }

    /// The weights of all outputs.
    pub open spec fn weights(self, k: nat, np: nat) -> Seq<int> {
        Seq::new(k * np, |t: int| self.weight(t / (np as int), t % (np as int)))
    }

    /// The steps that draw the challenges.
    pub open spec fn events<O>(self) -> Seq<Event<O>> {
        drawn::<O>(seq![self.block_batch_challenge.val()]) + drawn::<O>(
            if self.gammas@.len() > 1 {
                seq![self.instance_batch_challenge.val()]
            } else {
                Seq::empty()
            },
        ) + drawn::<O>(coords(self.gammas@))
    }

    /// No message is sent.
    pub proof fn lemma_went<O>(self, log0: Seq<Event<O>>)
        ensures
            went(log0, log0 + self.events::<O>(), 0, 0),
    {
        let first = seq![self.block_batch_challenge.val()];
        let second = if self.gammas@.len() > 1 {
            seq![self.instance_batch_challenge.val()]
        } else {
            Seq::empty()
        };
        let a = log0 + drawn::<O>(first);
        let b = a + drawn::<O>(second);
        let c = b + drawn::<O>(coords(self.gammas@));
        went_plain::<O>(log0, first, Seq::empty());
        went_plain::<O>(a, second, Seq::empty());
        went_plain::<O>(b, coords(self.gammas@), Seq::empty());
        assert(log0 + self.events::<O>() =~= c);
    }

    pub proof fn lemma_lens(self, k: nat, np: nat, num_vars: nat)
        requires
            self.wf(k, np, num_vars),
        ensures
            self.block_powers@.len() == np,
            self.instance_powers@.len() == k,
            forall|b: int, i: int|
                0 <= b < k && 0 <= i < np ==> (#[trigger] self.gammas@[b]@[i])@.len() == num_vars,
    {
        pows_step::<F>(self.block_batch_challenge.val(), np);
        pows_step::<F>(self.instance_batch_challenge.val(), k);
        assert(vals(self.block_powers@).len() == np);
        assert(vals(self.instance_powers@).len() == k);
        assert forall|b: int, i: int| 0 <= b < k && 0 <= i < np implies (
        #[trigger] self.gammas@[b]@[i])@.len() == num_vars by {
            assert(mat(self.gammas@[b]@)[i].len() == num_vars);
        }
    }
}

/// Draws the batching challenges and the points.
pub fn squeeze_gkr_challenges<F: PrimeField, O, T: FieldTranscript<F, O>>(
    transcript: &mut T,
    k: usize,
    np: usize,
    num_vars: usize,
) -> (r: GkrChallenges<F>)
    ensures
        final(transcript).held() == old(transcript).held(),
        r.wf(k as nat, np as nat, num_vars as nat),
        final(transcript).log() == old(transcript).log() + r.events::<O>(),
{
    let ghost log0 = transcript.log();
    let block_batch_challenge = transcript.squeeze_challenge();
    let instance_batch_challenge = if k > 1 {
        transcript.squeeze_challenge()
    } else {
        F::one()
    };
    let ghost log1 = transcript.log();
    let block_powers = powers(block_batch_challenge, np);
    let instance_powers = powers(instance_batch_challenge, k);
    let mut gammas: Vec<Vec<Vec<F>>> = Vec::new();
    assert(log1 + drawn(coords(gammas@)) =~= log1);
    while gammas.len() < k
        invariant
            transcript.held() == old(transcript).held(),
            gammas@.len() <= k,
            forall|b: int|
                0 <= b < gammas@.len() ==> (#[trigger] gammas@[b])@.len() == np && rect(
                    mat(gammas@[b]@),
                    num_vars as nat,
                ),
            transcript.log() == log1 + drawn(coords(gammas@)),
        decreases k - gammas@.len(),
    {
        let points = squeeze_points::<F, O, T>(transcript, np, num_vars);
        proof {
            let c = coords(gammas@);
            let p = flatten(mat(points@));
            assert(gammas@.push(points).drop_last() =~= gammas@);
            assert(log1 + drawn::<O>(c + p) =~= log1 + drawn(c) + drawn(p));
        }
        gammas.push(points);
    }
    let r = GkrChallenges {
        block_batch_challenge,
        instance_batch_challenge,
        block_powers,
        instance_powers,
        gammas,
    };
    proof {
        assert(transcript.log() =~= log0 + r.events::<O>());
    }
    r
}

/// All outputs, instance after instance.
pub open spec fn flat_outputs<F: PrimeField>(outputs: Seq<Vec<F>>) -> Seq<int> {
    flatten(mat(outputs))
}

/// The batched claim: every output times its weight.
pub open spec fn batched_claim<F: PrimeField>(
    ch: GkrChallenges<F>,
    outputs: Seq<Vec<F>>,
    k: nat,
    np: nat,
) -> int {
    dot::<F>(ch.weights(k, np), flat_outputs(outputs))
}

/// Batches the outputs of all instances into one claim.
pub fn batch_outputs<F: PrimeField>(
    ch: &GkrChallenges<F>,
    outputs: &[Vec<F>],
    k: usize,
    np: usize,
    num_vars: usize,
) -> (r: F)
    requires
        ch.wf(k as nat, np as nat, num_vars as nat),
        np > 0,
        outputs@.len() == k,
        rect(mat(outputs@), np as nat),
    ensures
        r.val() == batched_claim(*ch, outputs@, k as nat, np as nat),
{
    let ghost w = ch.weights(k as nat, np as nat);
    let ghost v = flat_outputs(outputs@);
    let ghost m = mat(outputs@);
    proof {
        ch.lemma_lens(k as nat, np as nat, num_vars as nat);
        flatten_len(m, np as nat);
        assert(0 * np == 0) by (nonlinear_arith);
        dot_nil::<F>(w, v);
    }
    let mut acc = F::zero();
    let mut b: usize = 0;
    while b < k
        invariant
            b <= k,
            ch.block_powers@.len() == np,
            ch.instance_powers@.len() == k,
            np > 0,
            outputs@.len() == k,
            m == mat(outputs@),
            rect(m, np as nat),
            w == ch.weights(k as nat, np as nat),
            v == flatten(m),
            v.len() == k * np,
            acc.val() == dot::<F>(w.take(b * np), v.take(b * np)),
        decreases k - b,
    {
        assert(m[b as int].len() == np);
        let mut i: usize = 0;
        while i < np
            invariant
                i <= np,
                b < k,
                ch.block_powers@.len() == np,
                ch.instance_powers@.len() == k,
                np > 0,
                outputs@.len() == k,
                outputs@[b as int]@.len() == np,
                m == mat(outputs@),
                rect(m, np as nat),
                w == ch.weights(k as nat, np as nat),
                v == flatten(m),
                v.len() == k * np,
                acc.val() == dot::<F>(w.take(b * np + i), v.take(b * np + i)),
            decreases np - i,
        {
            proof {
                let t = b * np + i;
                row_bounds(b as int, k as nat, np as nat);
                flat_index(b as int, i as int, np as int);
                flatten_entry(m, np as nat, b as int, i as int);
                crate::linear::dot_take::<F>(w, v, t);
                assert(v[t] == outputs@[b as int]@[i as int].val());
                assert(w[t] == ch.weight(b as int, i as int));
            }
            let weight = ch.instance_powers[b].times(ch.block_powers[i]);
            acc = acc.plus(weight.times(outputs[b][i]));
            i = i + 1;
        }
        proof {
            assert((b + 1) * np == b * np + np) by (nonlinear_arith);
        }
        b = b + 1;
    }
    proof {
        assert(w.take(k * np) =~= w);
        assert(v.take(k * np) =~= v);
    }
    acc
}

/// The outputs are the values of the parity blocks at the points.
pub open spec fn outputs_taken<F: PrimeField>(
    polys: Seq<Seq<int>>,
    layout: QABaseTwoLayerGkrLayout,
    ch: GkrChallenges<F>,
    outputs: Seq<Vec<F>>,
) -> bool {
    &&& outputs.len() == layout.num_instances
    &&& rect(mat(outputs), (layout.rho - 1) as nat)
    &&& forall|b: int, i: int|
        0 <= b < layout.num_instances && 0 <= i < layout.rho - 1 ==> (
        #[trigger] outputs[b]@[i]).val() == mle::<F>(
            polys[layout.block_at(b, i + 1)],
            ch.gamma(b, i),
        )
}

/// Evaluates every parity block at its point and writes the values.
fn write_outputs<F: PrimeField, O, T: TranscriptWrite<F, O>>(
    polys: &[Vec<F>],
    layout: &QABaseTwoLayerGkrLayout,
    ch: &GkrChallenges<F>,
    num_vars: usize,
    transcript: &mut T,
) -> (r: Result<Vec<Vec<F>>, Error>)
    requires
        layout.wf(),
        ch.wf(layout.num_instances as nat, (layout.rho - 1) as nat, num_vars as nat),
        polys@.len() == layout.e_start,
        rect(mat(polys@), exp2(num_vars as nat)),
    ensures
        T::infallible() ==> r is Ok,
        r matches Ok(outputs) ==> {
            &&& outputs_taken(mat(polys@), *layout, *ch, outputs@)
            &&& final(transcript).log() == old(transcript).log() + sent_fields(
                flat_outputs(outputs@),
            )
        },
        r matches Err(e) ==> e is Transcript,
{
    let ghost log0 = transcript.log();
    let ghost m = mat(polys@);
    let np: usize = layout.rho - 1;
    let mut outputs: Vec<Vec<F>> = Vec::new();
    let mut b: usize = 0;
    proof {
        ch.lemma_lens(layout.num_instances as nat, np as nat, num_vars as nat);
        assert(log0 + sent_fields(flat_outputs(outputs@)) =~= log0);
    }
    while b < layout.num_instances
        invariant
            b <= layout.num_instances,
            layout.wf(),
            np == layout.rho - 1,
            m == mat(polys@),
            polys@.len() == layout.e_start,
            rect(m, exp2(num_vars as nat)),
            ch.wf(layout.num_instances as nat, np as nat, num_vars as nat),
            forall|c: int, i: int|
                0 <= c < layout.num_instances && 0 <= i < np ==> (
                #[trigger] ch.gammas@[c]@[i])@.len() == num_vars,
            outputs@.len() == b,
            rect(mat(outputs@), np as nat),
            forall|c: int, i: int|
                0 <= c < b && 0 <= i < np ==> (#[trigger] outputs@[c]@[i]).val() == mle::<F>(
                    m[layout.block_at(c, i + 1)],
                    ch.gamma(c, i),
                ),
            transcript.log() == log0 + sent_fields(flat_outputs(outputs@)),
        decreases layout.num_instances - b,
    {
        let mut per_instance: Vec<F> = Vec::new();
        let mut i: usize = 0;
        assert(ch.gammas@[b as int]@.len() == np);
        while i < np
            invariant
                i <= np,
                b < layout.num_instances,
                layout.wf(),
                np == layout.rho - 1,
                m == mat(polys@),
                polys@.len() == layout.e_start,
                rect(m, exp2(num_vars as nat)),
                ch.gammas@.len() == layout.num_instances,
                ch.gammas@[b as int]@.len() == np,
                forall|c: int, j: int|
                    0 <= c < layout.num_instances && 0 <= j < np ==> (
                    #[trigger] ch.gammas@[c]@[j])@.len() == num_vars,
                per_instance@.len() == i,
                forall|j: int|
                    0 <= j < i ==> (#[trigger] per_instance@[j]).val() == mle::<F>(
                        m[layout.block_at(b as int, j + 1)],
                        ch.gamma(b as int, j),
                    ),
            decreases np - i,
        {
            let at: usize = layout.block_poly_index(b, i + 1);
            assert(m[at as int].len() == exp2(num_vars as nat));
            assert(ch.gammas@[b as int]@[i as int]@.len() == num_vars);
            per_instance.push(eval_mle_from_evals(&polys[at], &ch.gammas[b][i]));
            i = i + 1;
        }
        match write_field_elements::<F, O, T>(transcript, &per_instance) {
            Ok(_) => {},
            Err(e) => {
                return Err(e);
            },
        }
        proof {
            let o = mat(outputs@);
            let p = vals(per_instance@);
            mat_push(outputs@, per_instance);
            flatten_push(o, p);
            assert(log0 + sent_fields::<O>(flatten(o) + p) =~= log0 + sent_fields(flatten(o))
                + sent_fields(p));
            assert forall|k: int| 0 <= k < o.len() + 1 implies (#[trigger] o.push(p)[k]).len()
                == np by {
                if k < o.len() {
                    assert(o.push(p)[k] == o[k]);
                }
            }
        }
        outputs.push(per_instance);
        b = b + 1;
    }
    Ok(outputs)
}

/// The polynomials of the outer sum-check: the transforms, the weighted rows
/// of the transform matrix, the coefficients.
pub open spec fn outer_polys<F: PrimeField>(
    ch: GkrChallenges<F>,
    middles: Seq<Seq<int>>,
    e: Seq<Seq<int>>,
    k: nat,
    np: nat,
) -> Seq<Seq<int>> {
    middles + Seq::new(
        k * np,
        |t: int|
            vscale::<F>(
                ch.weights(k, np)[t],
                had_evals::<F>(ch.gamma(t / (np as int), t % (np as int))),
            ),
    ) + e
}

/// The factors of a term of the outer sum-check.
pub open spec fn outer_factors(t: int, k: nat, np: nat) -> Seq<usize> {
    seq![
        (t / (np as int)) as usize,
        (k + t) as usize,
        (k + k * np + t % (np as int)) as usize,
    ]
}

/// The terms of the outer sum-check: transform times row times coefficient for
/// every parity block of every instance.
pub open spec fn outer_terms(k: nat, np: nat) -> Seq<Term> {
    Seq::new(k * np, |t: int| Term { coeff: 1, factors: outer_factors(t, k, np) })
}

/// There are as many rows as before, and none of them has an entry left.
pub open spec fn emptied<F>(rows: Seq<Vec<F>>, before: Seq<Vec<F>>) -> bool {
    &&& rows.len() == before.len()
    &&& forall|b: int| 0 <= b < rows.len() ==> (#[trigger] rows[b])@.len() == 0
}

/// Moves the rows out and leaves empty ones in their places.
fn take_rows<F>(rows: &mut Vec<Vec<F>>) -> (r: Vec<Vec<F>>)
    ensures
        r@ == old(rows)@,
        emptied(final(rows)@, old(rows)@),
{
    let mut moved: Vec<Vec<F>> = Vec::new();
    while moved.len() < rows.len()
        invariant
            moved@.len() <= rows@.len(),
            forall|b: int| 0 <= b < moved@.len() ==> (#[trigger] moved@[b])@.len() == 0,
        decreases rows@.len() - moved@.len(),
    {
        moved.push(Vec::new());
    }
    core::mem::swap(rows, &mut moved);
    moved
}

/// Builds the polynomials of the outer sum-check.
fn build_outer_polys<F: PrimeField>(
    ch: &GkrChallenges<F>,
    middles: Vec<Vec<F>>,
    e_polys: &[Vec<F>],
    k: usize,
    np: usize,
    num_vars: usize,
) -> (r: Vec<Vec<F>>)
    requires
        ch.wf(k as nat, np as nat, num_vars as nat),
        np > 0,
        middles@.len() == k,
        e_polys@.len() == np,
        rect(mat(middles@), exp2(num_vars as nat)),
        rect(mat(e_polys@), exp2(num_vars as nat)),
        exp2(num_vars as nat) <= usize::MAX,
        k * np <= usize::MAX,
    ensures
        mat(r@) == outer_polys(*ch, mat(middles@), mat(e_polys@), k as nat, np as nat),
        rect(mat(r@), exp2(num_vars as nat)),
        r@.len() == k + k * np + np,
{
    let ghost kk = k as nat;
    let ghost nn = np as nat;
    let ghost w = ch.weights(kk, nn);
    let ghost hs = Seq::new(
        kk * nn,
        |t: int| vscale::<F>(w[t], had_evals::<F>(ch.gamma(t / (np as int), t % (np as int)))),
    );
    let ghost mid = mat(middles@);
    let mut polys = middles;
    let total: usize = k * np;
    let mut t: usize = 0;
    proof {
        ch.lemma_lens(kk, nn, num_vars as nat);
        assert(mat(polys@) =~= mid + hs.take(0));
    }
    while t < total
        invariant
            t <= total,
            total == k * np,
            np > 0,
            kk == k,
            nn == np,
            ch.wf(kk, nn, num_vars as nat),
            ch.block_powers@.len() == np,
            ch.instance_powers@.len() == k,
            forall|b: int, i: int|
                0 <= b < k && 0 <= i < np ==> (#[trigger] ch.gammas@[b]@[i])@.len() == num_vars,
            exp2(num_vars as nat) <= usize::MAX,
            w == ch.weights(kk, nn),
            hs == Seq::new(
                kk * nn,
                |t: int|
                    vscale::<F>(w[t], had_evals::<F>(ch.gamma(t / (np as int), t % (np as int)))),
            ),
            mat(polys@) == mid + hs.take(t as int),
        decreases total - t,
    {
        proof {
            flat_split(t as int, k as int, np as int);
        }
        let b: usize = t / np;
        let i: usize = t % np;
        assert(ch.gammas@[b as int]@.len() == np);
        assert(ch.gammas@[b as int]@[i as int]@.len() == num_vars);
        let weight = ch.instance_powers[b].times(ch.block_powers[i]);
        let mut h = hadamard_tensor_mle_evals_on_hypercube(&ch.gammas[b][i]);
        let ghost had = vals(h@);
        let mut x: usize = 0;
        while x < h.len()
            invariant
                x <= h@.len(),
                h@.len() == had.len(),
                forall|y: int|
                    0 <= y < x ==> (#[trigger] h@[y]).val() == fmul::<F>(weight.val(), had[y]),
                forall|y: int| x <= y < had.len() ==> (#[trigger] h@[y]).val() == had[y],
            decreases h@.len() - x,
        {
            let scaled = h[x].times(weight);
            proof {
                fmul_comm::<F>(had[x as int], weight.val());
            }
            h.set(x, scaled);
            x = x + 1;
        }
        proof {
            assert(vals(h@) =~= vscale::<F>(weight.val(), had));
            assert(hs[t as int] == vals(h@));
            mat_push(polys@, h);
            assert(hs.take(t as int + 1) =~= hs.take(t as int).push(hs[t as int]));
            assert((mid + hs.take(t as int)).push(hs[t as int]) =~= mid
                + hs.take(t as int + 1));
        }
        polys.push(h);
        t = t + 1;
    }
    let mut tail = copied_rows(e_polys);
    let ghost front = mat(polys@);
    let ghost tail_m = mat(tail@);
    polys.append(&mut tail);
    proof {
        assert(hs.take(t as int) =~= hs);
        assert(mat(polys@) =~= front + tail_m);
        let all = mat(polys@);
        assert forall|j: int| 0 <= j < all.len() implies (#[trigger] all[j]).len() == exp2(
            num_vars as nat,
        ) by {
            if j < k {
                assert(all[j] == mid[j]);
            } else if j < k + k * np {
                assert(all[j] == hs[j - k]);
                flat_split(j - k, k as int, np as int);
                let g = ch.gamma((j - k) / (np as int), (j - k) % (np as int));
                assert(ch.gammas@[(j - k) / (np as int)]@[(j - k) % (np as int)]@.len()
                    == num_vars);
                had_evals_shape::<F>(g);
            } else {
                assert(all[j] == tail_m[j - k - k * np]);
                assert(mat(e_polys@)[j - k - k * np].len() == exp2(num_vars as nat));
            }
        }
    }
    polys
}

/// Builds the terms of the outer sum-check.
fn build_outer_terms<F: PrimeField>(k: usize, np: usize) -> (r: Vec<ProductTerm<F>>)
    requires
        np > 0,
        k + k * np + np <= usize::MAX,
    ensures
        terms_view(r@) == outer_terms(k as nat, np as nat),
        forall|t: int| 0 <= t < r@.len() ==> (#[trigger] r@[t]).factors@.len() == 3,
        forall|t: int, j: int|
            0 <= t < r@.len() && 0 <= j < r@[t].factors@.len() ==> #[trigger] r@[t].factors@[j] < k
                + k * np + np,
{
    let ghost goal = outer_terms(k as nat, np as nat);
    let mut terms: Vec<ProductTerm<F>> = Vec::new();
    proof {
        assert(0 <= k * np) by (nonlinear_arith);
    }
    let total: usize = k * np;
    let mut t: usize = 0;
    while t < total
        invariant
            t <= total,
            total == k * np,
            np > 0,
            k + k * np + np <= usize::MAX,
            goal == outer_terms(k as nat, np as nat),
            terms@.len() == t,
            forall|s: int|
                0 <= s < t ==> (#[trigger] terms@[s]).coeff.val() == 1 && terms@[s].factors@
                    == outer_factors(s, k as nat, np as nat),
        decreases total - t,
    {
        proof {
            flat_split(t as int, k as int, np as int);
        }
        let mut factors: Vec<usize> = Vec::new();
        factors.push(t / np);
        factors.push(k + t);
        factors.push(k + total + t % np);
        assert(factors@ =~= outer_factors(t as int, k as nat, np as nat));
        terms.push(ProductTerm { coeff: F::one(), factors });
        t = t + 1;
    }
    proof {
        assert(terms_view(terms@) =~= goal);
        assert forall|s: int, j: int|
            0 <= s < terms@.len() && 0 <= j
                < terms@[s].factors@.len() implies #[trigger] terms@[s].factors@[j] < k + k * np
            + np by {
            assert(terms@[s].factors@ == outer_factors(s, k as nat, np as nat));
            flat_split(s, k as int, np as int);
        }
    }
    terms
}

/// The prover's state before the outer sum-check.
pub struct GkrOuter<F> {
    pub challenges: GkrChallenges<F>,
    pub output_evals_at_gammas: Vec<Vec<F>>,
    pub instance: SumcheckInstance<F>,
}

impl<F: PrimeField> GkrOuter<F> {
    /// The sizes are those of the layout.
    pub open spec fn shaped(self, layout: QABaseTwoLayerGkrLayout, num_vars: nat) -> bool {
        let k = layout.num_instances as nat;
        let np = (layout.rho - 1) as nat;
        &&& self.challenges.wf(k, np, num_vars)
        &&& instance_fits(self.instance)
        &&& self.instance.num_vars == num_vars
        &&& self.instance.degree == 3
        &&& self.instance.polys@.len() == k + k * np + np
        &&& self.instance.terms_spec() == outer_terms(k, np)
        &&& self.output_evals_at_gammas@.len() == k
        &&& rect(mat(self.output_evals_at_gammas@), np)
    }

    /// The state for given blocks, transforms and coefficients.
    pub open spec fn of(
        self,
        polys: Seq<Seq<int>>,
        middles: Seq<Seq<int>>,
        e: Seq<Seq<int>>,
        layout: QABaseTwoLayerGkrLayout,
        num_vars: nat,
    ) -> bool {
        let k = layout.num_instances as nat;
        let np = (layout.rho - 1) as nat;
        &&& self.shaped(layout, num_vars)
        &&& outputs_taken(polys, layout, self.challenges, self.output_evals_at_gammas@)
        &&& mat(self.instance.polys@) == outer_polys(self.challenges, middles, e, k, np)
        &&& self.instance.claim.val() == batched_claim(
            self.challenges,
            self.output_evals_at_gammas@,
            k,
            np,
        )
    }
}

/// Draws the batching challenges, writes the outputs and sets up the outer
/// sum-check.
pub fn prove_qabase_two_layer_gkr_outer<F: PrimeField, O, C, T: TranscriptWrite<F, O>>(
    pp: &QABaseProverParams<F, C>,
    endpoint_data: &mut QABaseEndpointProverData<F, C>,
    layout: &QABaseTwoLayerGkrLayout,
    transcript: &mut T,
) -> (r: Result<GkrOuter<F>, Error>)
    requires
        pp.wf(),
        layout.wf(),
        layout.rho == pp.inverse_rate,
        old(endpoint_data).polys@.len() == layout.e_start,
        rect(mat(old(endpoint_data).polys@), exp2(pp.num_vars as nat)),
        rect(mat(old(endpoint_data).middle_evals@), exp2(pp.num_vars as nat)),
    ensures
        layout.num_instances == 0 || old(endpoint_data).middle_evals@.len() != layout.num_instances
            ==> r is Err && r->Err_0.is_open("invalid two-layer GKR instance count")
            && *final(transcript) == *old(transcript) && *final(endpoint_data) == *old(
            endpoint_data,
        ),
        layout.num_instances > 0 && old(endpoint_data).middle_evals@.len() == layout.num_instances
            && T::infallible() ==> r is Ok,
        r matches Ok(outer) ==> {
            &&& layout.num_instances > 0
            &&& old(endpoint_data).middle_evals@.len() == layout.num_instances
            &&& outer.of(
                mat(old(endpoint_data).polys@),
                mat(old(endpoint_data).middle_evals@),
                pp.qa_params.coeffs(),
                *layout,
                pp.num_vars as nat,
            )
            &&& final(transcript).log() == old(transcript).log() + outer.challenges.events::<O>()
                + sent_fields(flat_outputs(outer.output_evals_at_gammas@))
        },
        r matches Err(e) ==> layout.num_instances == 0 || old(endpoint_data).middle_evals@.len()
            != layout.num_instances || e is Transcript,
        final(endpoint_data).polys == old(endpoint_data).polys,
        final(endpoint_data).commitments == old(endpoint_data).commitments,
        r is Ok ==> emptied(final(endpoint_data).middle_evals@, old(endpoint_data).middle_evals@),
        r is Err ==> final(endpoint_data).middle_evals == old(endpoint_data).middle_evals
            || emptied(final(endpoint_data).middle_evals@, old(endpoint_data).middle_evals@),
{
    let k: usize = layout.num_instances;
    let np: usize = layout.rho - 1;
    if k == 0 || endpoint_data.middle_evals.len() != k {
        return Err(Error::open("invalid two-layer GKR instance count"));
    }
    let ch = squeeze_gkr_challenges::<F, O, T>(transcript, k, np, pp.num_vars);
    let outputs = match write_outputs::<F, O, T>(
        &endpoint_data.polys,
        layout,
        &ch,
        pp.num_vars,
        transcript,
    ) {
        Ok(outputs) => outputs,
        Err(e) => {
            return Err(e);
        },
    };
    proof {
        let kk = k as int;
        let nn = np as int;
        assert(kk * layout.rho == kk * nn + kk) by (nonlinear_arith)
            requires
                layout.rho == nn + 1,
        ;
        let n = exp2(pp.num_vars as nat) as int;
        assert(n <= pp.inverse_rate * n) by (nonlinear_arith)
            requires
                pp.inverse_rate >= 2,
                n >= 0,
        ;
        assert(mat(pp.e_polys@).len() == pp.e_polys@.len());
        assert(0 <= kk * nn) by (nonlinear_arith)
            requires
                0 <= kk,
                0 <= nn,
        ;
    }
    let claim = batch_outputs(&ch, &outputs, k, np, pp.num_vars);
    let middles = take_rows(&mut endpoint_data.middle_evals);
    let polys = build_outer_polys(
        &ch,
        middles,
        &pp.e_polys,
        k,
        np,
        pp.num_vars,
    );
    let terms = build_outer_terms::<F>(k, np);
    proof {
        assert(mat(pp.e_polys@)[0].len() == pp.e_polys@[0]@.len());
    }
    let _size: usize = pp.e_polys[0].len();
    let instance = SumcheckInstance { num_vars: pp.num_vars, degree: 3, polys, terms, claim };
    Ok(GkrOuter { challenges: ch, output_evals_at_gammas: outputs, instance })
}

/// `(v * (w * h)) * e == w * ((v * e) * h)`.
proof fn f_outer_term<F: Residue>(v: int, w: int, h: int, e: int)
    ensures
        fmul::<F>(fmul::<F>(v, fmul::<F>(w, h)), e) == fmul::<F>(
            w,
            fmul::<F>(fmul::<F>(v, e), h),
        ),
{
    let wh = fmul::<F>(w, h);
    fmul_comm::<F>(fmul::<F>(v, wh), e);
    fmul_assoc::<F>(e, v, wh);
    fmul_comm::<F>(e, v);
    crate::mle::f_swap::<F>(fmul::<F>(v, e), w, h);
}

/// The values of the parity blocks of the inputs at the points of the outputs.
pub open spec fn true_outputs<F: PrimeField>(
    ch: GkrChallenges<F>,
    inputs: Seq<Seq<int>>,
    e: Seq<Seq<int>>,
) -> Seq<int> {
    let np = e.len() as int;
    Seq::new(
        inputs.len() * e.len(),
        |t: int| mle::<F>(parity::<F>(inputs[t / np], e[t % np]), ch.gamma(t / np, t % np)),
    )
}

/// The transforms of the inputs.
pub open spec fn transforms<F: PrimeField>(inputs: Seq<Seq<int>>) -> Seq<Seq<int>> {
    Seq::new(inputs.len(), |b: int| walsh::<F>(inputs[b]))
}

/// The sum of the outer sum-check over the hypercube is the weighted sum of the
/// values of the parity blocks of the inputs.
pub proof fn outer_sum<F: PrimeField>(
    ch: GkrChallenges<F>,
    inputs: Seq<Seq<int>>,
    e: Seq<Seq<int>>,
    num_vars: nat,
)
    requires
        ch.wf(inputs.len(), e.len(), num_vars),
        inputs.len() + inputs.len() * e.len() + e.len() <= usize::MAX,
        rect(inputs, exp2(num_vars)),
        rect(e, exp2(num_vars)),
        forall|b: int| 0 <= b < inputs.len() ==> vcanon::<F>(#[trigger] inputs[b]),
    ensures
        cube_sum::<F>(
            outer_terms(inputs.len(), e.len()),
            outer_polys(ch, transforms::<F>(inputs), e, inputs.len(), e.len()),
            exp2(num_vars),
        ) == dot::<F>(ch.weights(inputs.len(), e.len()), true_outputs(ch, inputs, e)),
{
    let k = inputs.len();
    let np = e.len();
    let n = exp2(num_vars);
    let w = ch.weights(k, np);
    let v = true_outputs(ch, inputs, e);
    let ps = outer_polys(ch, transforms::<F>(inputs), e, k, np);
    let terms = outer_terms(k, np);
    exp2_is_pow2(num_vars);
    ch.lemma_lens(k, np, num_vars);
    assert forall|t: int| 0 <= t < terms.len() implies vsum::<F>(
        term_values::<F>(#[trigger] terms[t], ps, n),
    ) == fmul::<F>(w[t], v[t]) by {
        let b = t / (np as int);
        let i = t % (np as int);
        flat_split(t, k as int, np as int);
        let g = ch.gamma(b, i);
        let had = had_evals::<F>(g);
        assert(ch.gammas@[b]@[i]@.len() == num_vars);
        had_evals_shape::<F>(g);
        let mid = walsh::<F>(inputs[b]);
        assert(inputs[b].len() == n && vcanon::<F>(inputs[b]));
        walsh_shape::<F>(inputs[b]);
        assert(e[i].len() == n);
        let prod = vmul::<F>(mid, e[i]);
        assert(vcanon::<F>(prod)) by {
            broadcast use fmul_canon;

        }
        assert(ps[b] == mid);
        assert(ps[k + t] == vscale::<F>(w[t], had));
        assert(ps[k + k * np + i] == e[i]);
        let tv = term_values::<F>(terms[t], ps, n);
        assert forall|x: int| 0 <= x < n implies tv[x] == fmul::<F>(
            w[t],
            vmul::<F>(prod, had)[x],
        ) by {
            let col = column(ps, x);
            let f0 = b as usize;
            let f1 = (k + t) as usize;
            let f2 = (k + k * np + i) as usize;
            assert(terms[t].factors == seq![f0, f1, f2]);
            assert(col[f0 as int] == mid[x]);
            assert(col[f1 as int] == fmul::<F>(w[t], had[x]));
            assert(col[f2 as int] == e[i][x]);
            product_small::<F>(f0, f1, f2, col);
            f_outer_term::<F>(mid[x], w[t], had[x], e[i][x]);
            broadcast use fmul_canon;

            f_units::<F>(product_at::<F>(terms[t].factors, col));
        }
        assert(tv =~= vscale::<F>(w[t], vmul::<F>(prod, had)));
        vsum_scale::<F>(w[t], vmul::<F>(prod, had));
        mle_of_walsh::<F>(prod, g);
        assert(parity::<F>(inputs[b], e[i]) == walsh::<F>(prod));
    }
    cube_sum_weighted::<F>(terms, ps, n, w, v);
}

/// The claim of the outer sum-check is the sum over the hypercube, where the
/// blocks are those of the codewords of the inputs and the transforms are those
/// of the inputs.
pub proof fn outer_claim_holds<F: PrimeField>(
    outer: GkrOuter<F>,
    polys: Seq<Seq<int>>,
    inputs: Seq<Seq<int>>,
    middles: Seq<Seq<int>>,
    e: Seq<Seq<int>>,
    layout: QABaseTwoLayerGkrLayout,
    num_vars: nat,
)
    requires
        layout.wf(),
        layout.rho == e.len() + 1,
        inputs.len() == layout.num_instances,
        rect(inputs, exp2(num_vars)),
        rect(e, exp2(num_vars)),
        endpoint_blocks::<F>(polys, inputs, e),
        middles == Seq::new(inputs.len(), |b: int| walsh::<F>(inputs[b])),
        forall|b: int| 0 <= b < inputs.len() ==> vcanon::<F>(#[trigger] inputs[b]),
        outer.of(polys, middles, e, layout, num_vars),
    ensures
        outer.instance.holds(),
{
    let k = layout.num_instances as nat;
    let np = (layout.rho - 1) as nat;
    let ch = outer.challenges;
    let v = flat_outputs(outer.output_evals_at_gammas@);
    let outs = mat(outer.output_evals_at_gammas@);
    let all = true_outputs(ch, inputs, e);
    assert(k * layout.rho == k * np + k) by (nonlinear_arith)
        requires
            layout.rho == np + 1,
    ;
    outer_sum::<F>(ch, inputs, e, num_vars);
    assert(middles =~= transforms::<F>(inputs));
    flatten_len(outs, np);
    assert forall|t: int| 0 <= t < k * np implies v[t] == all[t] by {
        let b = t / (np as int);
        let i = t % (np as int);
        flat_split(t, k as int, np as int);
        assert(polys[layout.block_at(b, i + 1)] == parity::<F>(inputs[b], e[i]));
        flatten_entry(outs, np, b, i);
        assert(outer.output_evals_at_gammas@[b]@[i].val() == mle::<F>(
            polys[layout.block_at(b, i + 1)],
            ch.gamma(b, i),
        ));
    }
    assert(v =~= all);
}

/// The weight of an instance after the outer sum-check: the sum over its parity
/// blocks of batching weight, matrix entry and coefficient value.
pub open spec fn instance_weight<F: PrimeField>(
    ch: GkrChallenges<F>,
    point: Seq<int>,
    e_evals: Seq<int>,
    b: int,
    np: nat,
) -> int {
    vsum::<F>(
        Seq::new(
            np,
            |i: int|
                fmul::<F>(
                    fmul::<F>(ch.weight(b, i), hadamard::<F>(ch.gamma(b, i), point)),
                    e_evals[i],
                ),
        ),
    )
}

/// The weights of all instances after the outer sum-check.
pub open spec fn instance_weights<F: PrimeField>(
    ch: GkrChallenges<F>,
    point: Seq<int>,
    e_evals: Seq<int>,
    k: nat,
    np: nat,
) -> Seq<int> {
    Seq::new(k, |b: int| instance_weight(ch, point, e_evals, b, np))
}

/// Computes the weights of all instances after the outer sum-check.
pub fn qabase_gkr_instance_weights<F: PrimeField>(
    ch: &GkrChallenges<F>,
    outer_point: &[F],
    e_evals: &[F],
    k: usize,
    np: usize,
) -> (r: Vec<F>)
    requires
        ch.wf(k as nat, np as nat, outer_point@.len()),
        e_evals@.len() == np,
    ensures
        vals(r@) == instance_weights(*ch, vals(outer_point@), vals(e_evals@), k as nat, np as nat),
{
    let ghost z = vals(outer_point@);
    let ghost ev = vals(e_evals@);
    proof {
        ch.lemma_lens(k as nat, np as nat, outer_point@.len());
    }
    let mut out: Vec<F> = Vec::new();
    let mut b: usize = 0;
    while b < k
        invariant
            b <= k,
            ch.wf(k as nat, np as nat, outer_point@.len()),
            ch.block_powers@.len() == np,
            ch.instance_powers@.len() == k,
            forall|c: int, i: int|
                0 <= c < k && 0 <= i < np ==> (#[trigger] ch.gammas@[c]@[i])@.len()
                    == outer_point@.len(),
            e_evals@.len() == np,
            z == vals(outer_point@),
            ev == vals(e_evals@),
            out@.len() == b,
            forall|c: int|
                0 <= c < b ==> (#[trigger] out@[c]).val() == instance_weight(
                    *ch,
                    z,
                    ev,
                    c,
                    np as nat,
                ),
        decreases k - b,
    {
        let ghost parts = Seq::new(
            np as nat,
            |i: int|
                fmul::<F>(
                    fmul::<F>(ch.weight(b as int, i), hadamard::<F>(ch.gamma(b as int, i), z)),
                    ev[i],
                ),
        );
        let mut acc = F::zero();
        let mut i: usize = 0;
        assert(ch.gammas@[b as int]@.len() == np);
        assert(parts.take(0) =~= Seq::empty());
        while i < np
            invariant
                i <= np,
                b < k,
                ch.block_powers@.len() == np,
                ch.instance_powers@.len() == k,
                ch.gammas@.len() == k,
                ch.gammas@[b as int]@.len() == np,
                forall|c: int, j: int|
                    0 <= c < k && 0 <= j < np ==> (#[trigger] ch.gammas@[c]@[j])@.len()
                        == outer_point@.len(),
                e_evals@.len() == np,
                z == vals(outer_point@),
                ev == vals(e_evals@),
                parts == Seq::new(
                    np as nat,
                    |i: int|
                        fmul::<F>(
                            fmul::<F>(
                                ch.weight(b as int, i),
                                hadamard::<F>(ch.gamma(b as int, i), z),
                            ),
                            ev[i],
                        ),
                ),
                acc.val() == vsum::<F>(parts.take(i as int)),
            decreases np - i,
        {
            assert(ch.gammas@[b as int]@[i as int]@.len() == outer_point@.len());
            let h = hadamard_tensor_mle_eval(&ch.gammas[b][i], outer_point);
            let weight = ch.instance_powers[b].times(ch.block_powers[i]);
            proof {
                assert(parts.take(i as int + 1) =~= parts.take(i as int).push(parts[i as int]));
                vsum_push::<F>(parts.take(i as int), parts[i as int]);
            }
            acc = acc.plus(weight.times(h).times(e_evals[i]));
            i = i + 1;
        }
        assert(parts.take(i as int) =~= parts);
        out.push(acc);
        b = b + 1;
    }
    assert(vals(out@) =~= instance_weights(*ch, z, ev, k as nat, np as nat));
    out
}

/// The inputs of all instances.
pub open spec fn inputs_of(
    polys: Seq<Seq<int>>,
    layout: QABaseTwoLayerGkrLayout,
) -> Seq<Seq<int>> {
    Seq::new(layout.num_instances as nat, |b: int| polys[layout.block_at(b, 0)])
}

/// The prover's state before the inner sum-check.
pub struct GkrInner<F> {
    pub challenges: GkrChallenges<F>,
    pub output_evals_at_gammas: Vec<Vec<F>>,
    pub claimed_output_batch: F,
    pub outer_point: Vec<F>,
    pub e_evals_at_outer_point: Vec<F>,
    pub instance_weights_at_outer_point: Vec<F>,
    pub instance: SumcheckInstance<F>,
}

impl<F: PrimeField> GkrInner<F> {
    /// The state that follows the outer state with given answers.
    pub open spec fn of(
        self,
        outer: GkrOuter<F>,
        polys: Seq<Seq<int>>,
        layout: QABaseTwoLayerGkrLayout,
        outer_point: Seq<int>,
        terminals: Seq<int>,
        num_vars: nat,
    ) -> bool {
        let k = layout.num_instances as nat;
        let np = (layout.rho - 1) as nat;
        let n = exp2(num_vars);
        let e_evals = terminals.skip((k + k * np) as int);
        let w = instance_weights(outer.challenges, outer_point, e_evals, k, np);
        &&& self.challenges == outer.challenges
        &&& self.output_evals_at_gammas == outer.output_evals_at_gammas
        &&& self.claimed_output_batch == outer.instance.claim
        &&& vals(self.outer_point@) == outer_point
        &&& vals(self.e_evals_at_outer_point@) == e_evals
        &&& vals(self.instance_weights_at_outer_point@) == w
        &&& instance_fits(self.instance)
        &&& self.instance.num_vars == num_vars
        &&& self.instance.degree == 2
        &&& mat(self.instance.polys@) == seq![
            had_evals::<F>(outer_point),
            comb::<F>(w, inputs_of(polys, layout), n),
        ]
        &&& self.instance.terms_spec() == seq![Term { coeff: 1, factors: seq![0usize, 1usize] }]
        &&& self.instance.claim.val() == summand::<F>(outer_terms(k, np), terminals)
    }
}

/// Takes the answer of the outer sum-check, writes the values of the
/// coefficients and sets up the inner sum-check.
pub fn prove_qabase_two_layer_gkr_inner<F: PrimeField, O, T: TranscriptWrite<F, O>>(
    outer: GkrOuter<F>,
    polys: &[Vec<F>],
    layout: &QABaseTwoLayerGkrLayout,
    outer_point: Vec<F>,
    outer_terminal_evals: Vec<F>,
    transcript: &mut T,
) -> (r: Result<GkrInner<F>, Error>)
    requires
        layout.wf(),
        layout.num_instances > 0,
        polys@.len() == layout.e_start,
        rect(mat(polys@), exp2(outer_point@.len())),
        exp2(outer_point@.len()) <= usize::MAX,
        outer.shaped(*layout, outer_point@.len()),
    ensures
        outer_terminal_evals@.len() != outer.instance.polys@.len() ==> r is Err
            && r->Err_0.is_sumcheck("wrong Quasar outer terminal vector") && *final(transcript)
            == *old(transcript),
        outer_terminal_evals@.len() == outer.instance.polys@.len() && T::infallible() ==> r is Ok,
        r matches Ok(inner) ==> {
            &&& outer_terminal_evals@.len() == outer.instance.polys@.len()
            &&& inner.of(
                outer,
                mat(polys@),
                *layout,
                vals(outer_point@),
                vals(outer_terminal_evals@),
                outer_point@.len(),
            )
            &&& final(transcript).log() == old(transcript).log() + sent_fields(
                vals(inner.e_evals_at_outer_point@),
            )
        },
        r matches Err(e) ==> outer_terminal_evals@.len() != outer.instance.polys@.len() || e
            is Transcript,
{
    let k: usize = layout.num_instances;
    let np: usize = layout.rho - 1;
    let num_vars: usize = outer_point.len();
    let ghost n = exp2(num_vars as nat);
    proof {
        assert(k * layout.rho == k * np + k) by (nonlinear_arith)
            requires
                layout.rho == np + 1,
        ;
        assert(0 <= k * np) by (nonlinear_arith);
    }
    let e_start: usize = k + k * np;
    if outer_terminal_evals.len() != e_start + np {
        return Err(Error::sumcheck("wrong Quasar outer terminal vector"));
    }
    let e_evals = copied(
        vstd::slice::slice_subrange(outer_terminal_evals.as_slice(), e_start, e_start + np),
    );
    proof {
        assert(vals(e_evals@) =~= vals(outer_terminal_evals@).skip(e_start as int));
    }
    match write_field_elements::<F, O, T>(transcript, &e_evals) {
        Ok(_) => {},
        Err(e) => {
            return Err(e);
        },
    }
    let outer_terminal_eval = outer.instance.terminal(&outer_terminal_evals);
    let weights = qabase_gkr_instance_weights(&outer.challenges, &outer_point, &e_evals, k, np);
    let h_outer = hadamard_tensor_mle_evals_on_hypercube(&outer_point);
    let ghost ins = inputs_of(mat(polys@), *layout);
    let ghost w = vals(weights@);
    let mut combined = zero_vec::<F>(power_of_two(num_vars));
    let mut b: usize = 0;
    assert(ins.take(0) =~= Seq::empty());
    assert(w.len() == k);
    while b < k
        invariant
            b <= k,
            k == layout.num_instances,
            layout.wf(),
            polys@.len() == layout.e_start,
            rect(mat(polys@), n),
            ins == inputs_of(mat(polys@), *layout),
            w == vals(weights@),
            w.len() == k,
            combined@.len() == n,
            vals(combined@) == comb::<F>(w, ins.take(b as int), n),
        decreases k - b,
    {
        let at: usize = layout.block_poly_index(b, 0);
        proof {
            assert(mat(polys@)[at as int].len() == n);
            assert(ins[b as int] == vals(polys@[at as int]@));
            assert(ins.take(b as int + 1).drop_last() =~= ins.take(b as int));
        }
        add_scaled(&mut combined, weights[b], &polys[at]);
        b = b + 1;
    }
    assert(ins.take(b as int) =~= ins);
    let ghost combined_m = vals(combined@);
    let ghost h_m = vals(h_outer@);
    let mut inner_polys: Vec<Vec<F>> = Vec::new();
    inner_polys.push(h_outer);
    inner_polys.push(combined);
    let mut factors: Vec<usize> = Vec::new();
    factors.push(0);
    factors.push(1);
    let mut terms: Vec<ProductTerm<F>> = Vec::new();
    terms.push(ProductTerm { coeff: F::one(), factors });
    let instance = SumcheckInstance {
        num_vars,
        degree: 2,
        polys: inner_polys,
        terms,
        claim: outer_terminal_eval,
    };
    proof {
        assert(mat(instance.polys@) =~= seq![h_m, combined_m]);
        assert(factors@ =~= seq![0usize, 1usize]);
        assert(instance.terms_spec() =~= seq![Term { coeff: 1, factors: seq![0usize, 1usize] }]);
        had_evals_shape::<F>(vals(outer_point@));
    }
    Ok(
        GkrInner {
            challenges: outer.challenges,
            output_evals_at_gammas: outer.output_evals_at_gammas,
            claimed_output_batch: outer.instance.claim,
            outer_point,
            e_evals_at_outer_point: e_evals,
            instance_weights_at_outer_point: weights,
            instance,
        },
    )
}

/// Everything that the two layers establish: what was drawn, what was sent and
/// where the sum-checks ended.
pub struct QABaseTwoLayerGkrProof<F> {
    pub num_instances: usize,
    pub block_batch_challenge: F,
    pub instance_batch_challenge: F,
    pub gammas: Vec<Vec<Vec<F>>>,
    pub output_evals_at_gammas: Vec<Vec<F>>,
    pub claimed_output_batch: F,
    pub outer_point: Vec<F>,
    pub outer_terminal_eval: F,
    pub e_evals_at_outer_point: Vec<F>,
    pub instance_weights_at_outer_point: Vec<F>,
    pub inner_point: Vec<F>,
    pub input_evals_at_inner_point: Vec<F>,
    pub inner_terminal_eval: F,
}

impl<F: PrimeField> QABaseTwoLayerGkrProof<F> {
    /// The lists have the sizes of the layout.
    pub open spec fn shaped(self, layout: QABaseTwoLayerGkrLayout) -> bool {
        &&& self.gammas@.len() == layout.num_instances
        &&& forall|b: int|
            0 <= b < layout.num_instances ==> (#[trigger] self.gammas@[b])@.len() == layout.rho - 1
        &&& self.output_evals_at_gammas@.len() == layout.num_instances
        &&& rect(mat(self.output_evals_at_gammas@), (layout.rho - 1) as nat)
        &&& self.input_evals_at_inner_point@.len() == layout.num_instances
        &&& self.e_evals_at_outer_point@.len() == layout.rho - 1
    }

    /// The proof was drawn and sent as `ch`, `outputs` say.
    pub open spec fn drawn_as(self, ch: GkrChallenges<F>) -> bool {
        &&& self.block_batch_challenge == ch.block_batch_challenge
        &&& self.instance_batch_challenge == ch.instance_batch_challenge
        &&& self.gammas == ch.gammas
    }
}

/// The values of the inputs at a point.
pub open spec fn input_values<F: PrimeField>(
    polys: Seq<Seq<int>>,
    layout: QABaseTwoLayerGkrLayout,
    point: Seq<int>,
) -> Seq<int> {
    Seq::new(
        layout.num_instances as nat,
        |b: int| mle::<F>(polys[layout.block_at(b, 0)], point),
    )
}

/// Takes the answer of the inner sum-check and writes the values of the inputs.
pub fn prove_qabase_two_layer_gkr_finish<F: PrimeField, O, T: TranscriptWrite<F, O>>(
    inner: GkrInner<F>,
    polys: &[Vec<F>],
    layout: &QABaseTwoLayerGkrLayout,
    inner_point: Vec<F>,
    inner_terminal_evals: Vec<F>,
    transcript: &mut T,
) -> (r: Result<QABaseTwoLayerGkrProof<F>, Error>)
    requires
        layout.wf(),
        polys@.len() == layout.e_start,
        rect(mat(polys@), exp2(inner_point@.len())),
    ensures
        inner_terminal_evals@.len() != 2 ==> r is Err && r->Err_0.is_sumcheck(
            "wrong Quasar inner terminal vector",
        ) && *final(transcript) == *old(transcript),
        inner_terminal_evals@.len() == 2 && T::infallible() ==> r is Ok,
        r matches Ok(proof_data) ==> {
            &&& inner_terminal_evals@.len() == 2
            &&& proof_data.num_instances == layout.num_instances
            &&& proof_data.drawn_as(inner.challenges)
            &&& proof_data.output_evals_at_gammas == inner.output_evals_at_gammas
            &&& proof_data.claimed_output_batch == inner.claimed_output_batch
            &&& proof_data.outer_point == inner.outer_point
            &&& proof_data.outer_terminal_eval == inner.instance.claim
            &&& proof_data.e_evals_at_outer_point == inner.e_evals_at_outer_point
            &&& proof_data.instance_weights_at_outer_point
                == inner.instance_weights_at_outer_point
            &&& proof_data.inner_point == inner_point
            &&& vals(proof_data.input_evals_at_inner_point@) == input_values::<F>(
                mat(polys@),
                *layout,
                vals(inner_point@),
            )
            &&& proof_data.inner_terminal_eval.val() == fmul::<F>(
                inner_terminal_evals@[0].val(),
                inner_terminal_evals@[1].val(),
            )
            &&& final(transcript).log() == old(transcript).log() + sent_fields(
                vals(proof_data.input_evals_at_inner_point@),
            )
        },
        r matches Err(e) ==> inner_terminal_evals@.len() != 2 || e is Transcript,
{
    if inner_terminal_evals.len() != 2 {
        return Err(Error::sumcheck("wrong Quasar inner terminal vector"));
    }
    let ghost m = mat(polys@);
    let ghost z = vals(inner_point@);
    let ghost goal = input_values::<F>(m, *layout, z);
    let mut inputs: Vec<F> = Vec::new();
    let mut b: usize = 0;
    while b < layout.num_instances
        invariant
            b <= layout.num_instances,
            layout.wf(),
            polys@.len() == layout.e_start,
            m == mat(polys@),
            rect(m, exp2(inner_point@.len())),
            z == vals(inner_point@),
            goal == input_values::<F>(m, *layout, z),
            vals(inputs@) == goal.take(b as int),
        decreases layout.num_instances - b,
    {
        let at: usize = layout.block_poly_index(b, 0);
        assert(m[at as int].len() == exp2(inner_point@.len()));
        let value = eval_mle_from_evals(&polys[at], &inner_point);
        proof {
            vals_push(inputs@, value);
            assert(goal.take(b as int + 1) =~= goal.take(b as int).push(goal[b as int]));
        }
        inputs.push(value);
        b = b + 1;
    }
    assert(goal.take(b as int) =~= goal);
    match write_field_elements::<F, O, T>(transcript, &inputs) {
        Ok(_) => {},
        Err(e) => {
            return Err(e);
        },
    }
    let inner_terminal_eval = inner_terminal_evals[0].times(inner_terminal_evals[1]);
    Ok(
        QABaseTwoLayerGkrProof {
            num_instances: layout.num_instances,
            block_batch_challenge: inner.challenges.block_batch_challenge,
            instance_batch_challenge: inner.challenges.instance_batch_challenge,
            gammas: inner.challenges.gammas,
            output_evals_at_gammas: inner.output_evals_at_gammas,
            claimed_output_batch: inner.claimed_output_batch,
            outer_point: inner.outer_point,
            outer_terminal_eval: inner.instance.claim,
            e_evals_at_outer_point: inner.e_evals_at_outer_point,
            instance_weights_at_outer_point: inner.instance_weights_at_outer_point,
            inner_point,
            input_evals_at_inner_point: inputs,
            inner_terminal_eval,
        },
    )
}

/// The verifier's state before the outer sum-check.
pub struct GkrVerifierOuter<F> {
    pub challenges: GkrChallenges<F>,
    pub output_evals_at_gammas: Vec<Vec<F>>,
    pub claimed_output_batch: F,
}

/// Reads several lists of field elements.
fn read_lists<F: PrimeField, O, T: TranscriptRead<F, O>>(
    transcript: &mut T,
    count: usize,
    len: usize,
) -> (r: Result<Vec<Vec<F>>, Error>)
    ensures
        final(transcript).held() == old(transcript).held(),
        r matches Ok(lists) ==> {
            &&& lists@.len() == count
            &&& rect(mat(lists@), len as nat)
            &&& final(transcript).log() == old(transcript).log() + sent_fields(
                flatten(mat(lists@)),
            )
        },
        r matches Err(e) ==> cut_within(
            e,
            old(transcript).log(),
            final(transcript).log(),
            (count as nat) * (len as nat),
            0,
        ),
{
    let ghost log0 = transcript.log();
    let mut out: Vec<Vec<F>> = Vec::new();
    assert(log0 + sent_fields(flatten(mat(out@))) =~= log0);
    while out.len() < count
        invariant
            transcript.held() == old(transcript).held(),
            out@.len() <= count,
            log0 == old(transcript).log(),
            rect(mat(out@), len as nat),
            transcript.log() == log0 + sent_fields(flatten(mat(out@))),
        decreases count - out@.len(),
    {
        let ghost before = transcript.log();
        let list = match read_field_elements::<F, O, T>(transcript, len) {
            Ok(list) => list,
            Err(e) => {
                proof {
                    let k = out@.len();
                    let w = len as nat;
                    let c = count as nat;
                    flatten_len(mat(out@), w);
                    went_plain::<O>(log0, flatten(mat(out@)), Seq::empty());
                    assert(k * w + w <= c * w) by (nonlinear_arith)
                        requires
                            k + 1 <= c,
                    ;
                    cut_later(e, log0, before, transcript.log(), k * w, 0, w, 0, c * w, 0);
                }
                return Err(e);
            },
        };
        proof {
            let m = mat(out@);
            let p = vals(list@);
            mat_push(out@, list);
            flatten_push(m, p);
            assert(log0 + sent_fields::<O>(flatten(m) + p) =~= log0 + sent_fields(flatten(m))
                + sent_fields(p));
            assert forall|k: int| 0 <= k < m.len() + 1 implies (#[trigger] m.push(p)[k]).len()
                == len by {
                if k < m.len() {
                    assert(m.push(p)[k] == m[k]);
                }
            }
        }
        out.push(list);
    }
    Ok(out)
}

/// Draws the batching challenges, reads the outputs and batches them into the
/// claim of the outer sum-check.
pub fn verify_qabase_two_layer_gkr_outer<F: PrimeField, O, C, T: TranscriptRead<F, O>>(
    vp: &QABaseVerifierParams<F, C>,
    num_instances: usize,
    transcript: &mut T,
) -> (r: Result<GkrVerifierOuter<F>, Error>)
    requires
        vp.inverse_rate >= 2,
    ensures
        final(transcript).held() == old(transcript).held(),
        r matches Ok(outer) ==> {
            let k = num_instances as nat;
            let np = (vp.inverse_rate - 1) as nat;
            &&& outer.challenges.wf(k, np, vp.num_vars as nat)
            &&& outer.output_evals_at_gammas@.len() == k
            &&& rect(mat(outer.output_evals_at_gammas@), np)
            &&& outer.claimed_output_batch.val() == batched_claim(
                outer.challenges,
                outer.output_evals_at_gammas@,
                k,
                np,
            )
            &&& final(transcript).log() == old(transcript).log() + outer.challenges.events::<O>()
                + sent_fields(flat_outputs(outer.output_evals_at_gammas@))
        },
        r matches Err(e) ==> cut_within(
            e,
            old(transcript).log(),
            final(transcript).log(),
            (num_instances as nat) * (vp.inverse_rate - 1) as nat,
            0,
        ),
{
    let np: usize = vp.inverse_rate - 1;
    let ghost log0 = transcript.log();
    let ch = squeeze_gkr_challenges::<F, O, T>(transcript, num_instances, np, vp.num_vars);
    let ghost drawn_end = transcript.log();
    proof {
        ch.lemma_went::<O>(log0);
    }
    let outputs = match read_lists::<F, O, T>(transcript, num_instances, np) {
        Ok(outputs) => outputs,
        Err(e) => {
            proof {
                let n = (num_instances as nat) * (np as nat);
                cut_later(e, log0, drawn_end, transcript.log(), 0, 0, n, 0, n, 0);
            }
            return Err(e);
        },
    };
    let claim = batch_outputs(&ch, &outputs, num_instances, np, vp.num_vars);
    Ok(
        GkrVerifierOuter {
            challenges: ch,
            output_evals_at_gammas: outputs,
            claimed_output_batch: claim,
        },
    )
}

/// The verifier's state before the inner sum-check.
pub struct GkrVerifierInner<F> {
    pub outer: GkrVerifierOuter<F>,
    pub outer_point: Vec<F>,
    pub outer_terminal_eval: F,
    pub e_evals_at_outer_point: Vec<F>,
    pub instance_weights_at_outer_point: Vec<F>,
}

/// Takes the result of the outer sum-check and reads the values of the
/// coefficients. The claim of the inner sum-check is `outer_terminal_eval`.
pub fn verify_qabase_two_layer_gkr_inner<F: PrimeField, O, T: TranscriptRead<F, O>>(
    outer: GkrVerifierOuter<F>,
    num_instances: usize,
    num_parity: usize,
    outer_point: Vec<F>,
    outer_terminal_eval: F,
    transcript: &mut T,
) -> (r: Result<GkrVerifierInner<F>, Error>)
    requires
        outer.challenges.wf(num_instances as nat, num_parity as nat, outer_point@.len()),
    ensures
        final(transcript).held() == old(transcript).held(),
        r matches Ok(inner) ==> {
            &&& inner.outer == outer
            &&& inner.outer_point == outer_point
            &&& inner.outer_terminal_eval == outer_terminal_eval
            &&& inner.e_evals_at_outer_point@.len() == num_parity
            &&& vals(inner.instance_weights_at_outer_point@) == instance_weights(
                outer.challenges,
                vals(outer_point@),
                vals(inner.e_evals_at_outer_point@),
                num_instances as nat,
                num_parity as nat,
            )
            &&& final(transcript).log() == old(transcript).log() + sent_fields(
                vals(inner.e_evals_at_outer_point@),
            )
        },
        r matches Err(e) ==> cut_within(
            e,
            old(transcript).log(),
            final(transcript).log(),
            num_parity as nat,
            0,
        ),
{
    let e_evals = match read_field_elements::<F, O, T>(transcript, num_parity) {
        Ok(values) => values,
        Err(e) => {
            return Err(e);
        },
    };
    let weights = qabase_gkr_instance_weights(
        &outer.challenges,
        &outer_point,
        &e_evals,
        num_instances,
        num_parity,
    );
    Ok(
        GkrVerifierInner {
            outer,
            outer_point,
            outer_terminal_eval,
            e_evals_at_outer_point: e_evals,
            instance_weights_at_outer_point: weights,
        },
    )
}

/// What the inner sum-check must end in.
pub open spec fn inner_terminal_expected<F: PrimeField>(
    outer_point: Seq<int>,
    inner_point: Seq<int>,
    weights: Seq<int>,
    inputs: Seq<int>,
) -> int {
    fmul::<F>(hadamard::<F>(outer_point, inner_point), dot::<F>(weights, inputs))
}

/// Takes the result of the inner sum-check, reads the values of the inputs and
/// holds the result to them.
pub fn verify_qabase_two_layer_gkr_finish<F: PrimeField, O, T: TranscriptRead<F, O>>(
    inner: GkrVerifierInner<F>,
    num_instances: usize,
    inner_point: Vec<F>,
    inner_terminal_eval: F,
    transcript: &mut T,
) -> (r: Result<(bool, QABaseTwoLayerGkrProof<F>), Error>)
    requires
        inner.outer_point@.len() == inner_point@.len(),
        inner.instance_weights_at_outer_point@.len() == num_instances,
    ensures
        final(transcript).held() == old(transcript).held(),
        r matches Ok(result) ==> {
            let p = result.1;
            &&& result.0 == (inner_terminal_eval.val() == inner_terminal_expected::<F>(
                vals(inner.outer_point@),
                vals(inner_point@),
                vals(inner.instance_weights_at_outer_point@),
                vals(p.input_evals_at_inner_point@),
            ))
            &&& p.num_instances == num_instances
            &&& p.drawn_as(inner.outer.challenges)
            &&& p.output_evals_at_gammas == inner.outer.output_evals_at_gammas
            &&& p.claimed_output_batch == inner.outer.claimed_output_batch
            &&& p.outer_point == inner.outer_point
            &&& p.outer_terminal_eval == inner.outer_terminal_eval
            &&& p.e_evals_at_outer_point == inner.e_evals_at_outer_point
            &&& p.instance_weights_at_outer_point == inner.instance_weights_at_outer_point
            &&& p.inner_point == inner_point
            &&& p.input_evals_at_inner_point@.len() == num_instances
            &&& p.inner_terminal_eval == inner_terminal_eval
            &&& final(transcript).log() == old(transcript).log() + sent_fields(
                vals(p.input_evals_at_inner_point@),
            )
        },
        r matches Err(e) ==> cut_within(
            e,
            old(transcript).log(),
            final(transcript).log(),
            num_instances as nat,
            0,
        ),
{
    let inputs = match read_field_elements::<F, O, T>(transcript, num_instances) {
        Ok(values) => values,
        Err(e) => {
            return Err(e);
        },
    };
    let combined = crate::linear::inner_product(&inner.instance_weights_at_outer_point, &inputs);
    let h = hadamard_tensor_mle_eval(&inner.outer_point, &inner_point);
    let ok: bool = inner_terminal_eval.equals(h.times(combined));
    Ok(
        (
            ok,
            QABaseTwoLayerGkrProof {
                num_instances,
                block_batch_challenge: inner.outer.challenges.block_batch_challenge,
                instance_batch_challenge: inner.outer.challenges.instance_batch_challenge,
                gammas: inner.outer.challenges.gammas,
                output_evals_at_gammas: inner.outer.output_evals_at_gammas,
                claimed_output_batch: inner.outer.claimed_output_batch,
                outer_point: inner.outer_point,
                outer_terminal_eval: inner.outer_terminal_eval,
                e_evals_at_outer_point: inner.e_evals_at_outer_point,
                instance_weights_at_outer_point: inner.instance_weights_at_outer_point,
                inner_point,
                input_evals_at_inner_point: inputs,
                inner_terminal_eval,
            },
        ),
    )
}

/// Weighted values that are equal within blocks of `np` entries.
proof fn dot_blocks<F: Residue>(q: Seq<int>, d: Seq<int>, k: nat, np: nat)
    requires
        np > 0,
        q.len() == k * np,
        d.len() == k,
        vcanon::<F>(d),
    ensures
        dot::<F>(q, Seq::new(k * np, |t: int| d[t / (np as int)])) == dot::<F>(
            Seq::new(k, |b: int| vsum::<F>(q.subrange(b * np, (b + 1) * np))),
            d,
        ),
    decreases k,
{
    let spread = Seq::new(k * np, |t: int| d[t / (np as int)]);
    let sums = Seq::new(k, |b: int| vsum::<F>(q.subrange(b * np, (b + 1) * np)));
    if k == 0 {
        assert(0 * np == 0) by (nonlinear_arith);
        assert(vmul::<F>(q, spread) =~= Seq::empty());
        assert(vmul::<F>(sums, d) =~= Seq::empty());
    } else {
        let k1 = (k - 1) as nat;
        row_bounds(k1 as int, k, np);
        let q1 = q.take((k1 * np) as int);
        let d1 = d.drop_last();
        dot_blocks::<F>(q1, d1, k1, np);
        let block = q.subrange((k1 * np) as int, (k * np) as int);
        let last = Seq::new(np, |i: int| d[k1 as int]);
        let spread1 = Seq::new(k1 * np, |t: int| d1[t / (np as int)]);
        assert forall|t: int| 0 <= t < k * np implies spread[t] == (spread1 + last)[t] by {
            flat_split(t, k as int, np as int);
            if t < k1 * np {
                flat_split(t, k1 as int, np as int);
            } else {
                flat_index(k1 as int, t - k1 * np, np as int);
            }
        }
        assert(spread =~= spread1 + last);
        assert(q =~= q1 + block);
        crate::linear::dot_concat::<F>(q1, block, spread1, last);
        assert forall|i: int| 0 <= i < np implies vmul::<F>(block, last)[i] == vscale::<F>(
            d[k1 as int],
            block,
        )[i] by {
            fmul_comm::<F>(block[i], d[k1 as int]);
        }
        assert(vmul::<F>(block, last) =~= vscale::<F>(d[k1 as int], block));
        vsum_scale::<F>(d[k1 as int], block);
        let sums1 = Seq::new(k1, |b: int| vsum::<F>(q1.subrange(b * np, (b + 1) * np)));
        assert forall|b: int| 0 <= b < k1 implies sums1[b] == sums[b] by {
            row_bounds(b, k1, np);
            assert(q1.subrange(b * np, (b + 1) * np) =~= q.subrange(b * np, (b + 1) * np));
        }
        assert(sums =~= sums1.push(vsum::<F>(block)));
        assert(d =~= d1.push(d[k1 as int]));
        dot_push::<F>(sums1, d1, vsum::<F>(block), d[k1 as int]);
        fmul_comm::<F>(d[k1 as int], vsum::<F>(block));
    }
}

/// `(d * (w * h)) * e == ((w * h) * e) * d`.
proof fn f_inner_term<F: Residue>(d: int, wh: int, e: int)
    ensures
        fmul::<F>(fmul::<F>(d, wh), e) == fmul::<F>(fmul::<F>(wh, e), d),
{
    fmul_assoc::<F>(d, wh, e);
    fmul_comm::<F>(d, fmul::<F>(wh, e));
}

/// The summand of the outer sum-check at a point is the sum of the inner sum-check:
/// that of the matrix at the point times the weighted sum of the inputs.
pub proof fn inner_sum<F: PrimeField>(
    ch: GkrChallenges<F>,
    inputs: Seq<Seq<int>>,
    e: Seq<Seq<int>>,
    outer_point: Seq<int>,
)
    requires
        e.len() > 0,
        ch.wf(inputs.len(), e.len(), outer_point.len()),
        inputs.len() + inputs.len() * e.len() + e.len() <= usize::MAX,
        rect(inputs, exp2(outer_point.len())),
        rect(e, exp2(outer_point.len())),
        forall|b: int| 0 <= b < inputs.len() ==> vcanon::<F>(#[trigger] inputs[b]),
    ensures
        summand::<F>(
            outer_terms(inputs.len(), e.len()),
            values_at::<F>(
                outer_polys(ch, transforms::<F>(inputs), e, inputs.len(), e.len()),
                outer_point,
            ),
        ) == cube_sum::<F>(
            seq![Term { coeff: 1, factors: seq![0usize, 1usize] }],
            seq![
                had_evals::<F>(outer_point),
                comb::<F>(
                    instance_weights(
                        ch,
                        outer_point,
                        values_at::<F>(e, outer_point),
                        inputs.len(),
                        e.len(),
                    ),
                    inputs,
                    exp2(outer_point.len()),
                ),
            ],
            exp2(outer_point.len()),
        ),
{
    let k = inputs.len();
    let np = e.len();
    let num_vars = outer_point.len();
    let n = exp2(num_vars);
    let w = ch.weights(k, np);
    let had = had_evals::<F>(outer_point);
    let ps = outer_polys(ch, transforms::<F>(inputs), e, k, np);
    let terms = outer_terms(k, np);
    let terminals = values_at::<F>(ps, outer_point);
    let e_evals = values_at::<F>(e, outer_point);
    let wts = instance_weights(ch, outer_point, e_evals, k, np);
    exp2_is_pow2(num_vars);
    ch.lemma_lens(k, np, num_vars);
    had_evals_shape::<F>(outer_point);
    let d = Seq::new(k, |b: int| dot::<F>(inputs[b], had));
    let q = Seq::new(
        k * np,
        |t: int|
            fmul::<F>(
                fmul::<F>(
                    w[t],
                    hadamard::<F>(ch.gamma(t / (np as int), t % (np as int)), outer_point),
                ),
                e_evals[t % (np as int)],
            ),
    );
    let spread = Seq::new(k * np, |t: int| d[t / (np as int)]);
    assert forall|b: int| 0 <= b < k implies canon::<F>(#[trigger] d[b]) by {
        dot_canon::<F>(inputs[b], had);
    }
    assert forall|t: int| 0 <= t < terms.len() implies fmul::<F>(
        (#[trigger] terms[t]).coeff,
        product_at::<F>(terms[t].factors, terminals),
    ) == fmul::<F>(q[t], spread[t]) by {
        let b = t / (np as int);
        let i = t % (np as int);
        flat_split(t, k as int, np as int);
        let g = ch.gamma(b, i);
        assert(ch.gammas@[b]@[i]@.len() == num_vars);
        had_evals_shape::<F>(g);
        assert(inputs[b].len() == n && vcanon::<F>(inputs[b]));
        let f0 = b as usize;
        let f1 = (k + t) as usize;
        let f2 = (k + k * np + i) as usize;
        assert(terms[t].factors == seq![f0, f1, f2]);
        assert(ps[b] == walsh::<F>(inputs[b]));
        assert(ps[k + t] == vscale::<F>(w[t], had_evals::<F>(g)));
        mle_of_walsh::<F>(inputs[b], outer_point);
        assert(terminals[b] == d[b]);
        dot_scale::<F>(w[t], had_evals::<F>(g), eq_evals::<F>(outer_point));
        mle_of_had_evals::<F>(g, outer_point);
        let wh = fmul::<F>(w[t], hadamard::<F>(g, outer_point));
        assert(terminals[k + t] == wh);
        assert(terminals[k + k * np + i] == e_evals[i]);
        assert(canon::<F>(d[b]));
        product_small::<F>(f0, f1, f2, terminals);
        f_inner_term::<F>(d[b], wh, e_evals[i]);
        broadcast use fmul_canon;

        f_units::<F>(product_at::<F>(terms[t].factors, terminals));
    }
    crate::sumcheck::summand_weighted::<F>(terms, terminals, q, spread);
    dot_blocks::<F>(q, d, k, np);
    let sums = Seq::new(k, |b: int| vsum::<F>(q.subrange(b * np, (b + 1) * np)));
    assert forall|b: int| 0 <= b < k implies sums[b] == wts[b] by {
        row_bounds(b, k, np);
        let parts = Seq::new(
            np,
            |i: int|
                fmul::<F>(
                    fmul::<F>(ch.weight(b, i), hadamard::<F>(ch.gamma(b, i), outer_point)),
                    e_evals[i],
                ),
        );
        assert forall|i: int| 0 <= i < np implies q.subrange(b * np, (b + 1) * np)[i]
            == parts[i] by {
            flat_index(b, i, np as int);
        }
        assert(q.subrange(b * np, (b + 1) * np) =~= parts);
    }
    assert(sums =~= wts);
    dot_comb::<F>(wts, inputs, n, had);
    assert(d =~= Seq::new(inputs.len(), |i: int| dot::<F>(inputs[i], had)));
    let c = comb::<F>(wts, inputs, n);
    comb_len::<F>(wts, inputs, n);
    single_product_sum::<F>(had, c, n);
    dot_comm::<F>(c, had);
}

/// The claim of the inner sum-check is the sum over the hypercube, where the
/// outer sum-check was answered with the values of its polynomials.
pub proof fn inner_claim_holds<F: PrimeField>(
    outer: GkrOuter<F>,
    inner: GkrInner<F>,
    polys: Seq<Seq<int>>,
    inputs: Seq<Seq<int>>,
    middles: Seq<Seq<int>>,
    e: Seq<Seq<int>>,
    layout: QABaseTwoLayerGkrLayout,
    outer_point: Seq<int>,
    terminals: Seq<int>,
)
    requires
        layout.wf(),
        layout.rho == e.len() + 1,
        inputs.len() == layout.num_instances,
        rect(inputs, exp2(outer_point.len())),
        rect(e, exp2(outer_point.len())),
        endpoint_blocks::<F>(polys, inputs, e),
        middles == Seq::new(inputs.len(), |b: int| walsh::<F>(inputs[b])),
        forall|b: int| 0 <= b < inputs.len() ==> vcanon::<F>(#[trigger] inputs[b]),
        outer.of(polys, middles, e, layout, outer_point.len()),
        outer.instance.answered(outer_point, terminals),
        inner.of(outer, polys, layout, outer_point, terminals, outer_point.len()),
    ensures
        inner.instance.holds(),
{
    let k = layout.num_instances as nat;
    let np = (layout.rho - 1) as nat;
    let ch = outer.challenges;
    assert(k * layout.rho == k * np + k) by (nonlinear_arith)
        requires
            layout.rho == np + 1,
    ;
    inner_sum::<F>(ch, inputs, e, outer_point);
    assert(middles =~= transforms::<F>(inputs));
    assert(terminals.skip((k + k * np) as int) =~= values_at::<F>(e, outer_point));
    let ins = inputs_of(polys, layout);
    assert forall|b: int| 0 <= b < k implies ins[b] == inputs[b] by {
        assert(polys[b * layout.rho] == inputs[b]);
    }
    assert(ins =~= inputs);
}

/// The sum over the hypercube of the product of two polynomials.
pub proof fn single_product_sum<F: Residue>(a: Seq<int>, b: Seq<int>, n: nat)
    requires
        a.len() == n,
        b.len() == n,
        vcanon::<F>(a),
    ensures
        cube_sum::<F>(seq![Term { coeff: 1, factors: seq![0usize, 1usize] }], seq![a, b], n)
            == dot::<F>(a, b),
{
    let term = Term { coeff: 1, factors: seq![0usize, 1usize] };
    let ps = seq![a, b];
    let tv = term_values::<F>(term, ps, n);
    assert forall|x: int| 0 <= x < n implies tv[x] == vmul::<F>(a, b)[x] by {
        let col = column(ps, x);
        assert(col[0] == a[x] && col[1] == b[x]);
        product_small::<F>(0, 1, 1, col);
        broadcast use fmul_canon;

        f_units::<F>(fmul::<F>(a[x], b[x]));
    }
    assert(tv =~= vmul::<F>(a, b));
    cube_sum_nil::<F>(ps, n);
    cube_sum_push::<F>(Seq::empty(), term, ps, n);
    assert(Seq::<Term>::empty().push(term) =~= seq![term]);
    dot_canon::<F>(a, b);
    f_units::<F>(dot::<F>(a, b));
}

/// Where the inner sum-check is answered with the values of its polynomials and
/// the values sent are those of the inputs, the verifier's final check passes.
pub proof fn honest_gkr_is_accepted<F: PrimeField>(
    outer: GkrOuter<F>,
    inner: GkrInner<F>,
    polys: Seq<Seq<int>>,
    layout: QABaseTwoLayerGkrLayout,
    outer_point: Seq<int>,
    terminals: Seq<int>,
    inner_point: Seq<int>,
    inner_terminals: Seq<int>,
)
    requires
        layout.wf(),
        inner.of(outer, polys, layout, outer_point, terminals, outer_point.len()),
        inner.instance.answered(inner_point, inner_terminals),
        forall|b: int|
            0 <= b < layout.num_instances ==> polys[#[trigger] layout.block_at(b, 0)].len() == exp2(
                outer_point.len(),
            ),
    ensures
        summand::<F>(inner.instance.terms_spec(), inner_terminals) == fmul::<F>(
            inner_terminals[0],
            inner_terminals[1],
        ),
        fmul::<F>(inner_terminals[0], inner_terminals[1]) == inner_terminal_expected::<F>(
            outer_point,
            inner_point,
            vals(inner.instance_weights_at_outer_point@),
            input_values::<F>(polys, layout, inner_point),
        ),
{
    let n = exp2(outer_point.len());
    let w = vals(inner.instance_weights_at_outer_point@);
    let ins = inputs_of(polys, layout);
    let had = had_evals::<F>(outer_point);
    let c = comb::<F>(w, ins, n);
    assert forall|b: int| 0 <= b < ins.len() implies (#[trigger] ins[b]).len() == n by {
        assert(polys[layout.block_at(b, 0)].len() == n);
    }
    let eqs = eq_evals::<F>(inner_point);
    dot_comb::<F>(w, ins, n, eqs);
    assert(input_values::<F>(polys, layout, inner_point) =~= Seq::new(
        ins.len(),
        |i: int| dot::<F>(ins[i], eqs),
    ));
    mle_of_had_evals::<F>(outer_point, inner_point);
    assert(mat(inner.instance.polys@)[0] == had && mat(inner.instance.polys@)[1] == c);
    let term = Term { coeff: 1, factors: seq![0usize, 1usize] };
    dot_canon::<F>(had, eqs);
    product_small::<F>(0, 1, 1, inner_terminals);
    summand_push::<F>(Seq::empty(), term, inner_terminals);
    assert(Seq::<Term>::empty().push(term) =~= seq![term]);
    broadcast use fmul_canon;

    f_units::<F>(fmul::<F>(inner_terminals[0], inner_terminals[1]));
}

/// A proof of the two layers goes through the states `outer` and `inner`, both
/// sum-checks are answered with the values of their polynomials, and the
/// transcript goes from `log0` to `log1`.
pub open spec fn gkr_proved<F: PrimeField, O>(
    p: QABaseTwoLayerGkrProof<F>,
    outer: GkrOuter<F>,
    inner: GkrInner<F>,
    polys: Seq<Seq<int>>,
    middles: Seq<Seq<int>>,
    e: Seq<Seq<int>>,
    layout: QABaseTwoLayerGkrLayout,
    num_vars: nat,
    log0: Seq<Event<O>>,
    log1: Seq<Event<O>>,
) -> bool {
    let z = vals(p.outer_point@);
    let y = vals(p.inner_point@);
    let terminals = values_at::<F>(mat(outer.instance.polys@), z);
    let last = values_at::<F>(mat(inner.instance.polys@), y);
    &&& z.len() == num_vars
    &&& y.len() == num_vars
    &&& outer.of(polys, middles, e, layout, num_vars)
    &&& inner.of(outer, polys, layout, z, terminals, num_vars)
    &&& p.shaped(layout)
    &&& p.num_instances == layout.num_instances
    &&& p.drawn_as(outer.challenges)
    &&& p.output_evals_at_gammas == outer.output_evals_at_gammas
    &&& p.claimed_output_batch == outer.instance.claim
    &&& p.outer_terminal_eval == inner.instance.claim
    &&& p.e_evals_at_outer_point == inner.e_evals_at_outer_point
    &&& p.instance_weights_at_outer_point == inner.instance_weights_at_outer_point
    &&& vals(p.input_evals_at_inner_point@) == input_values::<F>(polys, layout, y)
    &&& p.inner_terminal_eval.val() == fmul::<F>(last[0], last[1])
    &&& log1 == log0 + outer.challenges.events::<O>() + sent_fields(
        flat_outputs(p.output_evals_at_gammas@),
    ) + run_events::<F, O>(
        outer.instance.terms_spec(),
        mat(outer.instance.polys@),
        3,
        z,
    ) + sent_fields(vals(p.e_evals_at_outer_point@)) + run_events::<F, O>(
        inner.instance.terms_spec(),
        mat(inner.instance.polys@),
        2,
        y,
    ) + sent_fields(vals(p.input_evals_at_inner_point@))
}

/// Proves that the parity blocks of every instance are the transforms of its
/// transform times the coefficients: an outer sum-check over the products and
/// an inner one over the first transform. The transforms of the inputs are moved
/// into the outer sum-check and released behind it.
pub fn prove_qabase_two_layer_gkr_batch<F: PrimeField, O, C, T: TranscriptWrite<F, O>>(
    pp: &QABaseProverParams<F, C>,
    endpoint_data: &mut QABaseEndpointProverData<F, C>,
    layout: &QABaseTwoLayerGkrLayout,
    transcript: &mut T,
) -> (r: Result<QABaseTwoLayerGkrProof<F>, Error>)
    requires
        pp.wf(),
        layout.wf(),
        layout.rho == pp.inverse_rate,
        old(endpoint_data).polys@.len() == layout.e_start,
        rect(mat(old(endpoint_data).polys@), exp2(pp.num_vars as nat)),
        rect(mat(old(endpoint_data).middle_evals@), exp2(pp.num_vars as nat)),
    ensures
        layout.num_instances == 0 || old(endpoint_data).middle_evals@.len() != layout.num_instances
            ==> r is Err && r->Err_0.is_open("invalid two-layer GKR instance count")
            && *final(transcript) == *old(transcript) && *final(endpoint_data) == *old(
            endpoint_data,
        ),
        layout.num_instances > 0 && old(endpoint_data).middle_evals@.len() == layout.num_instances
            && T::infallible() ==> r is Ok,
        r matches Ok(p) ==> {
            &&& layout.num_instances > 0
            &&& old(endpoint_data).middle_evals@.len() == layout.num_instances
            &&& exists|outer: GkrOuter<F>, inner: GkrInner<F>| #[trigger]
                gkr_proved::<F, O>(
                    p,
                    outer,
                    inner,
                    mat(old(endpoint_data).polys@),
                    mat(old(endpoint_data).middle_evals@),
                    pp.qa_params.coeffs(),
                    *layout,
                    pp.num_vars as nat,
                    old(transcript).log(),
                    final(transcript).log(),
                )
        },
        r matches Err(e) ==> layout.num_instances == 0 || old(endpoint_data).middle_evals@.len()
            != layout.num_instances || e is Transcript,
        final(endpoint_data).polys == old(endpoint_data).polys,
        final(endpoint_data).commitments == old(endpoint_data).commitments,
        r is Ok ==> emptied(final(endpoint_data).middle_evals@, old(endpoint_data).middle_evals@),
        r is Err ==> final(endpoint_data).middle_evals == old(endpoint_data).middle_evals
            || emptied(final(endpoint_data).middle_evals@, old(endpoint_data).middle_evals@),
{
    let ghost log0 = transcript.log();
    let ghost polys = mat(endpoint_data.polys@);
    let ghost middles = mat(endpoint_data.middle_evals@);
    let outer = match prove_qabase_two_layer_gkr_outer::<F, O, C, T>(
        pp,
        endpoint_data,
        layout,
        transcript,
    ) {
        Ok(outer) => outer,
        Err(e) => {
            return Err(e);
        },
    };
    let ghost outer_g = outer;
    let (outer_point, outer_evals) = match sumcheck_prove::<F, O, T>(&outer.instance, transcript) {
        Ok(answer) => answer,
        Err(e) => {
            return Err(e);
        },
    };
    let ghost z = vals(outer_point@);
    let inner = match prove_qabase_two_layer_gkr_inner::<F, O, T>(
        outer,
        &endpoint_data.polys,
        layout,
        outer_point,
        outer_evals,
        transcript,
    ) {
        Ok(inner) => inner,
        Err(e) => {
            return Err(e);
        },
    };
    let ghost inner_g = inner;
    let (inner_point, inner_evals) = match sumcheck_prove::<F, O, T>(&inner.instance, transcript) {
        Ok(answer) => answer,
        Err(e) => {
            return Err(e);
        },
    };
    proof {
        assert(mat(inner_g.instance.polys@).len() == inner_g.instance.polys@.len());
    }
    let ghost y = vals(inner_point@);
    let ghost last = vals(inner_evals@);
    let p = match prove_qabase_two_layer_gkr_finish::<F, O, T>(
        inner,
        &endpoint_data.polys,
        layout,
        inner_point,
        inner_evals,
        transcript,
    ) {
        Ok(p) => p,
        Err(e) => {
            return Err(e);
        },
    };
    proof {
        let k = layout.num_instances as nat;
        let np = (layout.rho - 1) as nat;
        assert(vals(inner_g.outer_point@) == z);
        assert(last[0] == inner_evals@[0].val());
        assert(last[1] == inner_evals@[1].val());
        assert(vals(p.e_evals_at_outer_point@).len() == np);
        assert(vals(p.input_evals_at_inner_point@).len() == k);
        assert(gkr_proved::<F, O>(
            p,
            outer_g,
            inner_g,
            polys,
            middles,
            pp.qa_params.coeffs(),
            *layout,
            pp.num_vars as nat,
            log0,
            transcript.log(),
        ));
    }
    Ok(p)
}

/// The verifier of the two layers went from `log0` to `log1`, its sum-checks
/// ended at `outer_end` and `inner_end`, and it found the end `ok`.
pub open spec fn gkr_verified<F: PrimeField, O>(
    ok: bool,
    p: QABaseTwoLayerGkrProof<F>,
    ch: GkrChallenges<F>,
    num_vars: nat,
    k: nat,
    np: nat,
    log0: Seq<Event<O>>,
    outer_end: Seq<Event<O>>,
    inner_end: Seq<Event<O>>,
    log1: Seq<Event<O>>,
) -> bool {
    let z = vals(p.outer_point@);
    let y = vals(p.inner_point@);
    &&& ch.wf(k, np, num_vars)
    &&& p.drawn_as(ch)
    &&& p.num_instances == k
    &&& p.output_evals_at_gammas@.len() == k
    &&& rect(mat(p.output_evals_at_gammas@), np)
    &&& p.input_evals_at_inner_point@.len() == k
    &&& p.e_evals_at_outer_point@.len() == np
    &&& z.len() == num_vars
    &&& y.len() == num_vars
    &&& p.claimed_output_batch.val() == batched_claim(ch, p.output_evals_at_gammas@, k, np)
    &&& vals(p.instance_weights_at_outer_point@) == instance_weights(
        ch,
        z,
        vals(p.e_evals_at_outer_point@),
        k,
        np,
    )
    &&& sumcheck_verified::<F, O>(
        num_vars,
        3,
        p.claimed_output_batch.val(),
        p.outer_terminal_eval.val(),
        z,
        log0 + ch.events::<O>() + sent_fields(flat_outputs(p.output_evals_at_gammas@)),
        outer_end,
    )
    &&& sumcheck_verified::<F, O>(
        num_vars,
        2,
        p.outer_terminal_eval.val(),
        p.inner_terminal_eval.val(),
        y,
        outer_end + sent_fields(vals(p.e_evals_at_outer_point@)),
        inner_end,
    )
    &&& log1 == inner_end + sent_fields(vals(p.input_evals_at_inner_point@))
    &&& ok == (p.inner_terminal_eval.val() == inner_terminal_expected::<F>(
        z,
        y,
        vals(p.instance_weights_at_outer_point@),
        vals(p.input_evals_at_inner_point@),
    ))
}

/// The outer sum-check was refused.
pub open spec fn gkr_outer_refused<F: PrimeField, O>(
    ch: GkrChallenges<F>,
    outputs: Seq<Vec<F>>,
    num_vars: nat,
    k: nat,
    np: nat,
    log0: Seq<Event<O>>,
    log1: Seq<Event<O>>,
) -> bool {
    &&& ch.wf(k, np, num_vars)
    &&& outputs.len() == k
    &&& rect(mat(outputs), np)
    &&& sumcheck_refused::<F, O>(
        num_vars,
        3,
        batched_claim(ch, outputs, k, np),
        log0 + ch.events::<O>() + sent_fields(flat_outputs(outputs)),
        log1,
    )
}

/// The outer sum-check was accepted with `terminal` at `z`, the inner one
/// refused.
pub open spec fn gkr_inner_refused<F: PrimeField, O>(
    ch: GkrChallenges<F>,
    outputs: Seq<Vec<F>>,
    terminal: int,
    z: Seq<int>,
    e_evals: Seq<int>,
    num_vars: nat,
    k: nat,
    np: nat,
    log0: Seq<Event<O>>,
    outer_end: Seq<Event<O>>,
    log1: Seq<Event<O>>,
) -> bool {
    &&& ch.wf(k, np, num_vars)
    &&& outputs.len() == k
    &&& rect(mat(outputs), np)
    &&& e_evals.len() == np
    &&& z.len() == num_vars
    &&& sumcheck_verified::<F, O>(
        num_vars,
        3,
        batched_claim(ch, outputs, k, np),
        terminal,
        z,
        log0 + ch.events::<O>() + sent_fields(flat_outputs(outputs)),
        outer_end,
    )
    &&& sumcheck_refused::<F, O>(
        num_vars,
        2,
        terminal,
        outer_end + sent_fields(e_evals),
        log1,
    )
}

/// One of the two sum-checks was refused.
pub open spec fn gkr_refused<F: PrimeField, O>(
    num_vars: nat,
    k: nat,
    np: nat,
    log0: Seq<Event<O>>,
    log1: Seq<Event<O>>,
) -> bool {
    ||| exists|ch: GkrChallenges<F>, outputs: Seq<Vec<F>>| #[trigger]
        gkr_outer_refused::<F, O>(ch, outputs, num_vars, k, np, log0, log1)
    ||| exists|
        ch: GkrChallenges<F>,
        outputs: Seq<Vec<F>>,
        terminal: int,
        z: Seq<int>,
        e_evals: Seq<int>,
        outer_end: Seq<Event<O>>,
    | #[trigger]
        gkr_inner_refused::<F, O>(
            ch,
            outputs,
            terminal,
            z,
            e_evals,
            num_vars,
            k,
            np,
            log0,
            outer_end,
            log1,
        )
}

/// How many field elements the two layers send.
pub open spec fn gkr_fields(num_vars: nat, k: nat, np: nat) -> nat {
    k * np + num_vars * 4 + np + num_vars * 3 + k
}

/// Verifies the two layers. The flag says whether the inner sum-check ends in
/// what the values of the inputs give.
pub fn verify_qabase_two_layer_gkr_batch<F: PrimeField, O, C, T: TranscriptRead<F, O>>(
    vp: &QABaseVerifierParams<F, C>,
    num_instances: usize,
    transcript: &mut T,
) -> (r: Result<(bool, QABaseTwoLayerGkrProof<F>), Error>)
    requires
        vp.inverse_rate >= 2,
    ensures
        final(transcript).held() == old(transcript).held(),
        r matches Ok(result) ==> exists|
            ch: GkrChallenges<F>,
            outer_end: Seq<Event<O>>,
            inner_end: Seq<Event<O>>,
        | #[trigger]
            gkr_verified::<F, O>(
                result.0,
                result.1,
                ch,
                vp.num_vars as nat,
                num_instances as nat,
                (vp.inverse_rate - 1) as nat,
                old(transcript).log(),
                outer_end,
                inner_end,
                final(transcript).log(),
            ),
        r matches Err(e) ==> cut_within(
            e,
            old(transcript).log(),
            final(transcript).log(),
            gkr_fields(
                vp.num_vars as nat,
                num_instances as nat,
                (vp.inverse_rate - 1) as nat,
            ),
            0,
        ) || (round_error(e) && gkr_refused::<F, O>(
            vp.num_vars as nat,
            num_instances as nat,
            (vp.inverse_rate - 1) as nat,
            old(transcript).log(),
            final(transcript).log(),
        )),
{
    let np: usize = vp.inverse_rate - 1;
    let ghost log0 = transcript.log();
    let ghost k = num_instances as nat;
    let ghost nv = vp.num_vars as nat;
    let ghost all = gkr_fields(nv, k, np as nat);
    let ghost kn = k * (np as nat);
    let ghost o = nv * 4;
    let ghost i = nv * 3;
    proof {
        assert(kn >= 0) by (nonlinear_arith);
        assert(all == kn + o + np + i + k);
    }
    let outer = match verify_qabase_two_layer_gkr_outer::<F, O, C, T>(
        vp,
        num_instances,
        transcript,
    ) {
        Ok(outer) => outer,
        Err(e) => {
            proof {
                cut_later(e, log0, log0, transcript.log(), 0, 0, kn, 0, all, 0);
            }
            return Err(e);
        },
    };
    let ghost ch = outer.challenges;
    let ghost outputs = outer.output_evals_at_gammas@;
    let ghost read = transcript.log();
    proof {
        ch.lemma_went::<O>(log0);
        flatten_len(mat(outputs), np as nat);
        went_plain::<O>(log0 + ch.events::<O>(), flat_outputs(outputs), Seq::empty());
        went_on(log0, log0 + ch.events::<O>(), read, 0, 0, kn, 0);
    }
    let (outer_terminal_eval, outer_point) = match sumcheck_verify::<F, O, T>(
        vp.num_vars,
        3,
        outer.claimed_output_batch,
        transcript,
    ) {
        Ok(end) => end,
        Err(e) => {
            proof {
                if cut_within(e, read, transcript.log(), o, 0) {
                    cut_later(e, log0, read, transcript.log(), kn, 0, o, 0, all, 0);
                } else {
                    assert(gkr_outer_refused::<F, O>(
                        ch,
                        outputs,
                        nv,
                        k,
                        np as nat,
                        log0,
                        transcript.log(),
                    ));
                }
            }
            return Err(e);
        },
    };
    let ghost outer_end = transcript.log();
    proof {
        sumcheck_went::<F, O>(
            nv,
            3,
            outer.claimed_output_batch.val(),
            outer_terminal_eval.val(),
            vals(outer_point@),
            read,
            outer_end,
        );
        went_on(log0, read, outer_end, kn, 0, o, 0);
    }
    let inner = match verify_qabase_two_layer_gkr_inner::<F, O, T>(
        outer,
        num_instances,
        np,
        outer_point,
        outer_terminal_eval,
        transcript,
    ) {
        Ok(inner) => inner,
        Err(e) => {
            proof {
                cut_later(
                    e,
                    log0,
                    outer_end,
                    transcript.log(),
                    kn + o,
                    0,
                    np as nat,
                    0,
                    all,
                    0,
                );
            }
            return Err(e);
        },
    };
    let ghost second = transcript.log();
    proof {
        went_plain::<O>(outer_end, vals(inner.e_evals_at_outer_point@), Seq::empty());
        went_on(log0, outer_end, second, kn + o, 0, np as nat, 0);
    }
    let (inner_terminal_eval, inner_point) = match sumcheck_verify::<F, O, T>(
        vp.num_vars,
        2,
        outer_terminal_eval,
        transcript,
    ) {
        Ok(end) => end,
        Err(e) => {
            proof {
                if cut_within(e, second, transcript.log(), i, 0) {
                    cut_later(e, log0, second, transcript.log(), kn + o + np as nat, 0, i, 0, all, 0);
                } else {
                    assert(gkr_inner_refused::<F, O>(
                        ch,
                        outputs,
                        outer_terminal_eval.val(),
                        vals(outer_point@),
                        vals(inner.e_evals_at_outer_point@),
                        nv,
                        k,
                        np as nat,
                        log0,
                        outer_end,
                        transcript.log(),
                    ));
                }
            }
            return Err(e);
        },
    };
    let ghost inner_end = transcript.log();
    proof {
        sumcheck_went::<F, O>(
            nv,
            2,
            outer_terminal_eval.val(),
            inner_terminal_eval.val(),
            vals(inner_point@),
            second,
            inner_end,
        );
        went_on(log0, second, inner_end, kn + o + np as nat, 0, i, 0);
        assert(vals(inner.instance_weights_at_outer_point@).len() == k);
    }
    let result = match verify_qabase_two_layer_gkr_finish::<F, O, T>(
        inner,
        num_instances,
        inner_point,
        inner_terminal_eval,
        transcript,
    ) {
        Ok(result) => result,
        Err(e) => {
            proof {
                cut_later(
                    e,
                    log0,
                    inner_end,
                    transcript.log(),
                    kn + o + np as nat + i,
                    0,
                    k,
                    0,
                    all,
                    0,
                );
            }
            return Err(e);
        },
    };
    proof {
        assert(gkr_verified::<F, O>(
            result.0,
            result.1,
            ch,
            nv,
            k,
            np as nat,
            log0,
            outer_end,
            inner_end,
            transcript.log(),
        ));
    }
    Ok(result)
}

/// What the prover of the two layers writes for blocks that are those of the
/// codewords of the inputs takes the verifier to the same proof, accepted.
pub proof fn honest_gkr_run_is_accepted<F: PrimeField, O>(
    p: QABaseTwoLayerGkrProof<F>,
    outer: GkrOuter<F>,
    inner: GkrInner<F>,
    polys: Seq<Seq<int>>,
    inputs: Seq<Seq<int>>,
    middles: Seq<Seq<int>>,
    e: Seq<Seq<int>>,
    layout: QABaseTwoLayerGkrLayout,
    num_vars: nat,
    log0: Seq<Event<O>>,
    log1: Seq<Event<O>>,
)
    requires
        layout.wf(),
        layout.rho == e.len() + 1,
        inputs.len() == layout.num_instances,
        rect(inputs, exp2(num_vars)),
        rect(e, exp2(num_vars)),
        polys.len() == layout.e_start,
        rect(polys, exp2(num_vars)),
        endpoint_blocks::<F>(polys, inputs, e),
        middles == Seq::new(inputs.len(), |b: int| walsh::<F>(inputs[b])),
        forall|b: int| 0 <= b < inputs.len() ==> vcanon::<F>(#[trigger] inputs[b]),
        gkr_proved::<F, O>(p, outer, inner, polys, middles, e, layout, num_vars, log0, log1),
    ensures
        exists|outer_end: Seq<Event<O>>, inner_end: Seq<Event<O>>| #[trigger]
            gkr_verified::<F, O>(
                true,
                p,
                outer.challenges,
                num_vars,
                layout.num_instances as nat,
                (layout.rho - 1) as nat,
                log0,
                outer_end,
                inner_end,
                log1,
            ),
{
    let k = layout.num_instances as nat;
    let np = (layout.rho - 1) as nat;
    let z = vals(p.outer_point@);
    let y = vals(p.inner_point@);
    let terminals = values_at::<F>(mat(outer.instance.polys@), z);
    let last = values_at::<F>(mat(inner.instance.polys@), y);
    outer_claim_holds::<F>(outer, polys, inputs, middles, e, layout, num_vars);
    assert(outer.instance.answered(z, terminals));
    inner_claim_holds::<F>(outer, inner, polys, inputs, middles, e, layout, z, terminals);
    assert(inner.instance.answered(y, last));
    assert forall|b: int|
        0 <= b
            < layout.num_instances implies polys[#[trigger] layout.block_at(b, 0)].len() == exp2(
        z.len(),
    ) by {
        layout.lemma_block(b, 0);
    }
    honest_gkr_is_accepted::<F>(outer, inner, polys, layout, z, terminals, y, last);
    let start = log0 + outer.challenges.events::<O>() + sent_fields(
        flat_outputs(p.output_evals_at_gammas@),
    );
    honest_sumcheck_is_accepted::<F, O>(outer.instance, z, start);
    let outer_end = start + run_events::<F, O>(
        outer.instance.terms_spec(),
        mat(outer.instance.polys@),
        3,
        z,
    );
    let second = outer_end + sent_fields(vals(p.e_evals_at_outer_point@));
    honest_sumcheck_is_accepted::<F, O>(inner.instance, y, second);
    let inner_end = second + run_events::<F, O>(
        inner.instance.terms_spec(),
        mat(inner.instance.polys@),
        2,
        y,
    );
    assert(gkr_verified::<F, O>(
        true,
        p,
        outer.challenges,
        num_vars,
        k,
        np,
        log0,
        outer_end,
        inner_end,
        log1,
    ));
}

/// The claims of the two layers: outputs at their points, inputs at the inner
/// point, coefficients at the outer point.
pub open spec fn gkr_claims<F: PrimeField>(
    layout: QABaseTwoLayerGkrLayout,
    p: QABaseTwoLayerGkrProof<F>,
) -> Seq<Claim> {
    let np = layout.rho - 1;
    Seq::new(
        (layout.num_instances * np) as nat,
        |t: int|
            Claim {
                poly: layout.block_at(t / np, t % np + 1),
                point: vals(p.gammas@[t / np]@[t % np]@),
                value: p.output_evals_at_gammas@[t / np]@[t % np].val(),
            },
    ) + Seq::new(
        layout.num_instances as nat,
        |b: int|
            Claim {
                poly: layout.block_at(b, 0),
                point: vals(p.inner_point@),
                value: p.input_evals_at_inner_point@[b].val(),
            },
    ) + Seq::new(
        np as nat,
        |i: int|
            Claim {
                poly: layout.e_at(i),
                point: vals(p.outer_point@),
                value: p.e_evals_at_outer_point@[i].val(),
            },
    )
}

/// Adds the claims of the two layers to a list of claims.
pub fn collect_two_layer_gkr_claims<F: PrimeField>(
    points: &mut Vec<Vec<F>>,
    evals: &mut Vec<Evaluation<F>>,
    layout: &QABaseTwoLayerGkrLayout,
    p: &QABaseTwoLayerGkrProof<F>,
)
    requires
        layout.wf(),
        p.shaped(*layout),
    ensures
        claim_set(final(points)@, final(evals)@) == claim_set(old(points)@, old(evals)@).add_claims(
            gkr_claims(*layout, *p),
        ),
{
    let ghost set0 = claim_set(points@, evals@);
    let ghost all = gkr_claims(*layout, *p);
    let np: usize = layout.rho - 1;
    let k: usize = layout.num_instances;
    proof {
        assert(k * layout.rho == k * np + k) by (nonlinear_arith)
            requires
                layout.rho == np + 1,
        ;
        assert(0 <= k * np) by (nonlinear_arith);
    }
    let total: usize = k * np;
    let mut t: usize = 0;
    while t < total
        invariant
            t <= total,
            total == k * np,
            np == layout.rho - 1,
            np > 0,
            k == layout.num_instances,
            layout.wf(),
            p.shaped(*layout),
            all == gkr_claims(*layout, *p),
            claim_set(points@, evals@) == set0.add_claims(all.take(t as int)),
        decreases total - t,
    {
        proof {
            flat_split(t as int, k as int, np as int);
            add_claims_take(set0, all, t as int);
        }
        let b: usize = t / np;
        let i: usize = t % np;
        assert(p.gammas@[b as int]@.len() == np);
        assert(mat(p.output_evals_at_gammas@)[b as int].len() == np);
        push_basefold_opening_claim(
            points,
            evals,
            layout.block_poly_index(b, i + 1),
            copied(&p.gammas[b][i]),
            p.output_evals_at_gammas[b][i],
        );
        t = t + 1;
    }
    let mut b: usize = 0;
    while b < k
        invariant
            b <= k,
            total == k * np,
            np == layout.rho - 1,
            k == layout.num_instances,
            layout.wf(),
            p.shaped(*layout),
            all == gkr_claims(*layout, *p),
            claim_set(points@, evals@) == set0.add_claims(all.take(total + b)),
        decreases k - b,
    {
        proof {
            add_claims_take(set0, all, total + b);
        }
        push_basefold_opening_claim(
            points,
            evals,
            layout.block_poly_index(b, 0),
            copied(&p.inner_point),
            p.input_evals_at_inner_point[b],
        );
        b = b + 1;
    }
    let mut i: usize = 0;
    while i < np
        invariant
            i <= np,
            total == k * np,
            np == layout.rho - 1,
            k == layout.num_instances,
            layout.wf(),
            p.shaped(*layout),
            all == gkr_claims(*layout, *p),
            claim_set(points@, evals@) == set0.add_claims(all.take(total + k + i)),
        decreases np - i,
    {
        proof {
            add_claims_take(set0, all, total + k + i);
        }
        push_basefold_opening_claim(
            points,
            evals,
            layout.e_poly_index(i),
            copied(&p.outer_point),
            p.e_evals_at_outer_point[i],
        );
        i = i + 1;
    }
    assert(all.take(total + k + np) =~= all);
}

/// Adds the claims of the two layers on the prover's side.
pub fn collect_two_layer_gkr_claims_prover<'a, F: PrimeField, C>(
    acc: &mut QABaseProverOpeningAccumulator<'a, F, C>,
    layout: &QABaseTwoLayerGkrLayout,
    p: &QABaseTwoLayerGkrProof<F>,
)
    requires
        layout.wf(),
        p.shaped(*layout),
    ensures
        claim_set(final(acc).points@, final(acc).evals@) == claim_set(
            old(acc).points@,
            old(acc).evals@,
        ).add_claims(gkr_claims(*layout, *p)),
        final(acc).polys == old(acc).polys,
        final(acc).comms == old(acc).comms,
{
    collect_two_layer_gkr_claims(&mut acc.points, &mut acc.evals, layout, p);
}

/// Adds the claims of the two layers on the verifier's side.
pub fn collect_two_layer_gkr_claims_verifier<'a, F: PrimeField, C>(
    acc: &mut QABaseVerifierOpeningAccumulator<'a, F, C>,
    layout: &QABaseTwoLayerGkrLayout,
    p: &QABaseTwoLayerGkrProof<F>,
)
    requires
        layout.wf(),
        p.shaped(*layout),
    ensures
        claim_set(final(acc).points@, final(acc).evals@) == claim_set(
            old(acc).points@,
            old(acc).evals@,
        ).add_claims(gkr_claims(*layout, *p)),
        final(acc).comms == old(acc).comms,
{
    collect_two_layer_gkr_claims(&mut acc.points, &mut acc.evals, layout, p);
}

} // verus!
