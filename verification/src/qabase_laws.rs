//! What holds of an honest opening of a row-encoded matrix as a whole.

use crate::claims::no_claims;
use crate::field::PrimeField;
use crate::hash::HashFunction;
use crate::linear::{comb_len, mat, rect, vals};
use crate::mle::{exp2, log2, mle};
use crate::qa_code::{encode_rows, parities, scaled_blocks, walsh};
use crate::qabase::{
    aux_polys, encoding_claims, encoding_written, value_claim,
    QABaseEncodingRelationsBatchedWhtProof, QABaseEvalAuxLayout, QABaseFoldedWitness,
};
use crate::qabase_columns::{block_claims, block_claims_are_true, QABaseItem1ProverOutput};
use crate::qabase_open::{
    columns_checked_first, encoding_checked, encoding_claims_are_true, encoding_proved,
    first_layout, honest_encoding_claims_are_accepted, honest_item1_is_accepted, item1_as_read,
    opening_claims, opening_proved, proximity_claims, proximity_proved, proximity_verified,
    scaled_values, second_layout, FullOpenProved,
};
use crate::qabase_relations::{scaling_polys, scaling_written, wht_inputs, wht_written};
use crate::quasar::{tree_over, QABaseCommitment, QABaseProverParams, QABaseVerifierParams};
use crate::transcript::{sent_fields, Event};
use vstd::prelude::*;

verus! {

/// What the prover of proximity writes takes the verifier to the same claims,
/// accepted.
pub proof fn honest_proximity_is_accepted<F: PrimeField, H: HashFunction, C>(
    pp: QABaseProverParams<F, C>,
    vp: QABaseVerifierParams<F, C>,
    comm: QABaseCommitment<H, Vec<Vec<F>>>,
    rows: Seq<Seq<int>>,
    folded: QABaseFoldedWitness<F>,
    p: QABaseEncodingRelationsBatchedWhtProof<F>,
    item1: QABaseItem1ProverOutput<F>,
    challenges: Seq<int>,
    log0: Seq<Event<H::Output>>,
    mid: Seq<Event<H::Output>>,
    log1: Seq<Event<H::Output>>,
)
    requires
        pp.wf(),
        vp.num_vars == pp.num_vars,
        vp.num_rows == pp.num_rows,
        vp.inverse_rate == pp.inverse_rate,
        vp.num_queries == pp.num_queries,
        3 * pp.inverse_rate <= usize::MAX,
        rows.len() == pp.num_rows,
        rect(rows, exp2(pp.num_vars as nat)),
        mat(comm.codeword@) == encode_rows::<F>(rows, pp.qa_params.coeffs()),
        tree_over::<H, F>(
            comm.codeword_tree@,
            mat(comm.codeword@),
            (pp.inverse_rate * exp2(pp.num_vars as nat)) as nat,
        ),
        folded.of(rows, pp.qa_params.coeffs(), exp2(pp.num_vars as nat)),
        proximity_proved::<F, H, C>(
            pp,
            comm,
            vals(folded.row_challenges@),
            vals(folded.folded_msg@),
            p,
            item1,
            challenges,
            log0,
            mid,
            log1,
        ),
    ensures
        proximity_verified::<F, H, C>(
            vp,
            comm.root_spec(),
            vals(folded.row_challenges@),
            true,
            p,
            scaled_values::<F>(p, vals(folded.folded_msg@), pp.qa_params.coeffs()),
            item1_as_read(item1),
            no_claims().append_claims(
                proximity_claims(
                    first_layout(pp.inverse_rate),
                    p,
                    scaled_values::<F>(p, vals(folded.folded_msg@), pp.qa_params.coeffs()),
                    vals(item1.sc_point@).take(pp.num_vars as int),
                    vals(item1.u_block_evals_at_sc_point@),
                ),
            ),
            log0,
            mid,
            log1,
        ),
{
    let n = exp2(pp.num_vars as nat);
    let e = pp.qa_params.coeffs();
    let msg = vals(folded.folded_msg@);
    let rc = vals(folded.row_challenges@);
    let root = comm.root_spec();
    comb_len::<F>(rc, rows, n);
    honest_encoding_claims_are_accepted::<F, H::Output>(
        p,
        folded.folded_qa_witness,
        msg,
        e,
        pp.num_vars as nat,
        log0,
        mid,
    );
    honest_item1_is_accepted::<F, H, C>(pp, vp, comm, rows, folded, item1, challenges, mid, log1);
    let read = item1_as_read(item1);
    let claims = block_claims(
        first_layout(vp.inverse_rate),
        vals(read.sc_point@).take(vp.num_vars as int),
        vals(read.u_block_evals_at_sc_point@),
    );
    let us = scaled_values::<F>(p, msg, e);
    assert(encoding_checked::<F, H::Output>(
        p,
        us,
        true,
        true,
        vp.num_vars as nat,
        vp.inverse_rate as nat,
        log0,
        mid,
    ));
    assert(columns_checked_first::<F, H, C>(vp, root, rc, read, true, claims, mid, log1));
}

/// Every claim that an honest prover states about one encoding is true.
pub proof fn honest_encoding_claims_are_true<F: PrimeField, O>(
    layout: QABaseEvalAuxLayout,
    p: QABaseEncodingRelationsBatchedWhtProof<F>,
    msg: Seq<int>,
    e: Seq<Seq<int>>,
    polys: Seq<Seq<int>>,
    log0: Seq<Event<O>>,
    log1: Seq<Event<O>>,
    i: int,
)
    requires
        layout.wf(),
        e.len() + 1 == layout.rho,
        p.sized(layout.rho as nat),
        encoding_proved::<F, O>(p, msg, e, log0, log1),
        forall|k: int|
            0 <= k < 2 * layout.rho ==> polys[layout.q_aux_start + k] == #[trigger] aux_polys::<F>(
                msg,
                e,
            )[k],
        forall|k: int| 0 <= k < e.len() ==> polys[layout.e_start + k] == #[trigger] e[k],
        0 <= i < 4 * layout.rho - 1,
    ensures
        encoding_claims(layout, p, scaled_values::<F>(p, msg, e)).len() == 4 * layout.rho - 1,
        encoding_claims(layout, p, scaled_values::<F>(p, msg, e))[i].is_true::<F>(polys),
{
    let scaled = scaled_blocks::<F>(msg, e);
    let v = walsh::<F>(msg);
    let mid = choose|mid: Seq<Event<O>>| #[trigger]
        encoding_written::<F, O>(p, msg, e, log0, mid) && log1 == mid + sent_fields(
            scaled_values::<F>(p, msg, e),
        );
    let inner = choose|inner: Seq<Event<O>>|
        {
            &&& #[trigger] wht_written::<F, O>(
                p.batched_wht,
                wht_inputs(msg, scaled),
                wht_inputs(v, parities::<F>(msg, e)),
                log2(msg.len() as int),
                log0,
                inner,
            )
            &&& scaling_written::<F, O>(p.scaling, scaled, e, v, inner, mid)
        };
    let z = vals(p.scaling.sc_point@);
    assert(scaling_polys::<F>(p.scaling.alpha.val(), vals(p.scaling.beta@), scaled, e, v)[3] == v);
    encoding_claims_are_true::<F>(
        layout,
        msg,
        e,
        mat(p.batched_wht.gammas@),
        vals(p.batched_wht.sc_point@),
        z,
        polys,
        i,
    );
}

/// Every claim that an honest opening at a point states is true of the committed
/// polynomials, where the value claimed is the one of the witness.
pub proof fn honest_opening_claims_are_true<F: PrimeField, H: HashFunction, C>(
    pp: QABaseProverParams<F, C>,
    comm: QABaseCommitment<H, Vec<Vec<F>>>,
    row_challenges: Seq<int>,
    msg: Seq<int>,
    row_weights: Seq<int>,
    eval_msg: Seq<int>,
    z_right: Seq<int>,
    out: FullOpenProved<F>,
    polys: Seq<Seq<int>>,
    challenges: Seq<int>,
    log0: Seq<Event<H::Output>>,
    first_end: Seq<Event<H::Output>>,
    second_end: Seq<Event<H::Output>>,
    columns_end: Seq<Event<H::Output>>,
    log1: Seq<Event<H::Output>>,
    i: int,
)
    requires
        pp.wf(),
        5 * pp.inverse_rate <= usize::MAX,
        msg.len() == exp2(pp.num_vars as nat),
        eval_msg.len() == exp2(pp.num_vars as nat),
        opening_proved::<F, H, C>(
            pp,
            comm,
            row_challenges,
            msg,
            row_weights,
            eval_msg,
            out,
            challenges,
            log0,
            first_end,
            second_end,
            columns_end,
            log1,
        ),
        forall|k: int|
            0 <= k < 2 * pp.inverse_rate ==> polys[k] == #[trigger] aux_polys::<F>(
                msg,
                pp.qa_params.coeffs(),
            )[k],
        forall|k: int|
            0 <= k < pp.inverse_rate - 1 ==> polys[2 * pp.inverse_rate + k]
                == #[trigger] pp.qa_params.coeffs()[k],
        forall|k: int|
            0 <= k < 2 * pp.inverse_rate ==> polys[3 * pp.inverse_rate - 1 + k]
                == #[trigger] aux_polys::<F>(eval_msg, pp.qa_params.coeffs())[k],
        0 <= i < 10 * pp.inverse_rate - 1,
    ensures
        ({
            let e = pp.qa_params.coeffs();
            let claims = opening_claims(
                pp.inverse_rate,
                out.encoding_relations,
                scaled_values::<F>(out.encoding_relations, msg, e),
                out.eval_encoding_relations,
                scaled_values::<F>(out.eval_encoding_relations, eval_msg, e),
                vals(out.item1.sc_point@).take(pp.num_vars as int),
                vals(out.item1.u_block_evals_at_sc_point@),
                vals(out.eval_item1.sc_point@).take(pp.num_vars as int),
                vals(out.eval_item1.q_block_evals_at_sc_point@),
                z_right,
                mle::<F>(eval_msg, z_right),
            );
            claims.len() == 10 * pp.inverse_rate - 1 && claims[i].is_true::<F>(polys)
        }),
{
    let rho = pp.inverse_rate as int;
    let e = pp.qa_params.coeffs();
    let first = first_layout(pp.inverse_rate);
    let second = second_layout(pp.inverse_rate);
    let us = scaled_values::<F>(out.encoding_relations, msg, e);
    let ws = scaled_values::<F>(out.eval_encoding_relations, eval_msg, e);
    let a = encoding_claims(first, out.encoding_relations, us);
    let b = encoding_claims(second, out.eval_encoding_relations, ws);
    let local = vals(out.item1.sc_point@).take(pp.num_vars as int);
    let eval_local = vals(out.eval_item1.sc_point@).take(pp.num_vars as int);
    let c = block_claims(first, local, vals(out.item1.u_block_evals_at_sc_point@));
    let d = block_claims(second, eval_local, vals(out.eval_item1.q_block_evals_at_sc_point@));
    let value = mle::<F>(eval_msg, z_right);
    let claims = opening_claims(
        pp.inverse_rate,
        out.encoding_relations,
        us,
        out.eval_encoding_relations,
        ws,
        local,
        vals(out.item1.u_block_evals_at_sc_point@),
        eval_local,
        vals(out.eval_item1.q_block_evals_at_sc_point@),
        z_right,
        value,
    );
    let m = 4 * rho - 1;
    assert(a.len() == m && b.len() == m);
    assert(local.len() == pp.num_vars && eval_local.len() == pp.num_vars);
    if i < m {
        assert(claims[i] == a[i]);
        honest_encoding_claims_are_true::<F, H::Output>(
            first,
            out.encoding_relations,
            msg,
            e,
            polys,
            log0,
            first_end,
            i,
        );
    } else if i < 2 * m {
        assert(claims[i] == b[i - m]);
        honest_encoding_claims_are_true::<F, H::Output>(
            second,
            out.eval_encoding_relations,
            eval_msg,
            e,
            polys,
            first_end,
            second_end,
            i - m,
        );
    } else if i < 2 * m + rho {
        assert(claims[i] == c[i - 2 * m]);
        block_claims_are_true::<F>(first, msg, e, local, polys, i - 2 * m);
    } else if i < 2 * m + 2 * rho {
        assert(claims[i] == d[i - 2 * m - rho]);
        block_claims_are_true::<F>(second, eval_msg, e, eval_local, polys, i - 2 * m - rho);
    } else {
        assert(claims[i] == value_claim(second, z_right, value));
        assert(aux_polys::<F>(eval_msg, e)[0] == eval_msg);
        assert(polys[3 * rho - 1 + 0] == aux_polys::<F>(eval_msg, e)[0]);
    }
}

} // verus!
