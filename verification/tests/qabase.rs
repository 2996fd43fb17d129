use ff::{Field, PrimeField as _};
use quasar::bn256::Fr;
use quasar::error::Error;
use quasar::field::PrimeField;
use quasar::hash::{Blake2s, HashFunction};
use quasar::linear::linear_combine_rows;
use quasar::mle::{eval_mle_from_evals, log2_power_of_two};
use quasar::qa_code::{
    qa_codeword_block, qa_encode_with_witness, qa_message_block_index, qa_parity_block_index, wht,
    QAParams,
};
use quasar::qabase::{
    commit_eval_witness_start, commit_folded_witness_start, flatten_aux_commitments,
    index_to_boolean_point, qabase_codeword_column_to_block, qabase_split_evaluation_point,
    read_aux_commitments_start, setup, split_aux_commitments, QABaseAuxProverData,
    QABaseEvalWitness, QABaseFoldConfig, QABaseFoldedWitness,
};
use quasar::qabase_open::{
    prove_qabase_open_full_global_batch_batched_wht,
    prove_qabase_open_scaffold_global_batch_batched_wht,
    verify_qabase_open_full_global_batch_batched_wht,
    verify_qabase_open_scaffold_global_batch_batched_wht, FullOpenProved,
};
use quasar::qabase_relations::{
    prove_batched_wht_relations_sumcheck, prove_scaling_relation_sumcheck,
    verify_batched_wht_relations_sumcheck, verify_scaling_relation_sumcheck,
};
use quasar::qapcs::Evaluation;
use quasar::quasar::{
    commit_and_write, trim, QABaseCommitment, QABaseProverParams, QABaseVerifierParams,
};
use quasar::quasar_open::qabase_row_weights_from_z_left;
use quasar::transcript::{read_commitments, write_commitments, InMemoryTranscript};
use rand_chacha::{
    rand_core::{RngCore, SeedableRng},
    ChaCha8Rng,
};

type Digest = [u8; 32];
type TestTranscript = InMemoryTranscript<Fr, Blake2s>;
type Commitment = QABaseCommitment<Blake2s, Vec<Vec<Fr>>>;

fn random_fr(rng: &mut impl RngCore) -> Fr {
    let x = halo2curves::bn256::Fr::random(rng);
    Fr::from_bytes(&x.to_repr().as_ref().try_into().unwrap()).unwrap()
}

fn random_vec(n: usize, rng: &mut impl RngCore) -> Vec<Fr> {
    (0..n).map(|_| random_fr(rng)).collect()
}

fn random_matrix(rows: usize, cols: usize, rng: &mut ChaCha8Rng) -> Vec<Vec<Fr>> {
    (0..rows).map(|_| random_vec(cols, rng)).collect()
}

fn same(a: &[Fr], b: &[Fr]) -> bool {
    a.len() == b.len() && a.iter().zip(b).all(|(x, y)| x.equals(*y))
}

fn commit_poly(poly: &[Fr]) -> Digest {
    let bytes: Vec<u8> = poly.iter().flat_map(|x| x.to_repr()).collect();
    Blake2s::digest(&bytes)
}

fn params(
    poly_size: usize,
    num_rows: usize,
    inverse_rate: usize,
    num_queries: usize,
    rng: &mut ChaCha8Rng,
) -> (QABaseProverParams<Fr, Digest>, QABaseVerifierParams<Fr, Digest>) {
    let drawn = random_vec((inverse_rate - 1) * poly_size, rng);
    let param = setup(
        poly_size,
        Some(num_rows),
        Some(inverse_rate),
        Some(num_queries),
        &drawn,
    );
    let comms: Vec<Digest> = param.qa_params.e.iter().map(|e| commit_poly(e)).collect();
    trim(&param, comms.clone(), comms)
}

fn claims_hold(polys: &[Vec<Fr>], points: &[Vec<Fr>], evals: &[Evaluation<Fr>]) -> bool {
    evals
        .iter()
        .all(|e| eval_mle_from_evals(&polys[e.poly], &points[e.point]).equals(e.value))
}

fn commit_aux(
    polys: Vec<Vec<Fr>>,
    inverse_rate: usize,
    transcript: &mut TestTranscript,
) -> QABaseAuxProverData<Fr, Digest> {
    let comms: Vec<Digest> = polys.iter().map(|p| commit_poly(p)).collect();
    write_commitments(transcript, &comms).unwrap();
    QABaseAuxProverData { commitments: split_aux_commitments(comms, inverse_rate), polys }
}

#[test]
fn test_qabase_setup_trim_commit() {
    let num_vars = 8;
    let poly_size = 1usize << num_vars;
    let num_rows = 4usize;
    let inverse_rate = 2usize;
    let num_queries = 16usize;
    let mut rng = ChaCha8Rng::from_seed([7u8; 32]);

    let (pp, vp) = params(poly_size, num_rows, inverse_rate, num_queries, &mut rng);
    assert_eq!(pp.num_vars, num_vars);
    assert_eq!(vp.num_rows, num_rows);

    let word = random_matrix(num_rows, poly_size, &mut rng);
    let mut transcript = TestTranscript::new();
    let comm: Commitment = commit_and_write(&pp, &word, &mut transcript).unwrap();

    assert_eq!(comm.codeword.len(), num_rows);
    assert_eq!(comm.codeword_tree[0].len(), inverse_rate * poly_size);
    for row in 0..num_rows {
        let msg_block = qa_codeword_block(&comm.codeword[row], poly_size, qa_message_block_index());
        assert!(same(msg_block, word[row].as_slice()));
    }
}

#[test]
fn test_qabase_inverse_rate_4_commit() {
    let num_vars = 6;
    let poly_size = 1usize << num_vars;
    let num_rows = 4usize;
    let inverse_rate = 4usize;
    let num_queries = 16usize;
    let mut rng = ChaCha8Rng::from_seed([9u8; 32]);

    let (pp, _) = params(poly_size, num_rows, inverse_rate, num_queries, &mut rng);
    let word = random_matrix(num_rows, poly_size, &mut rng);
    let mut transcript = TestTranscript::new();
    let comm: Commitment = commit_and_write(&pp, &word, &mut transcript).unwrap();

    assert_eq!(comm.codeword.len(), num_rows);
    for row in 0..num_rows {
        assert_eq!(comm.codeword[row].len(), inverse_rate * poly_size);
        let expected_witness = qa_encode_with_witness(&word[row], &pp.qa_params);
        for i in 0..(inverse_rate - 1) {
            let parity_block =
                qa_codeword_block(&comm.codeword[row], poly_size, qa_parity_block_index(i));
            assert!(same(parity_block, expected_witness.parity_blocks[i].as_slice()));
        }
    }
}

#[test]
fn test_qabase_basefold_aux_commitments() {
    let num_vars = 6;
    let poly_size = 1usize << num_vars;
    let num_rows = 4usize;
    let inverse_rate = 2usize;
    let num_queries = 8usize;
    let mut rng = ChaCha8Rng::from_seed([13u8; 32]);

    let (pp, vp) = params(poly_size, num_rows, inverse_rate, num_queries, &mut rng);
    let word = random_matrix(num_rows, poly_size, &mut rng);
    let mut prover_transcript = TestTranscript::new();
    let comm: Commitment = commit_and_write(&pp, &word, &mut prover_transcript).unwrap();
    let (folded_witness, polys) = commit_folded_witness_start(&pp, &word, &mut prover_transcript);
    let aux_data = commit_aux(polys, inverse_rate, &mut prover_transcript);
    assert_eq!(folded_witness.row_challenges.len(), num_rows);
    assert_eq!(aux_data.commitments.u_block_commitments.len(), inverse_rate);
    assert_eq!(aux_data.polys.len(), 2 * inverse_rate);

    let (fields, commitments) = prover_transcript.into_proof();
    let mut verifier_transcript = TestTranscript::from_proof(fields, commitments);
    let verifier_row_challenges =
        read_aux_commitments_start::<Fr, Blake2s, Digest, TestTranscript>(
            &vp,
            comm.as_root(),
            &mut verifier_transcript,
        )
        .unwrap()
        .unwrap();
    let read = read_commitments(&mut verifier_transcript, 2 * inverse_rate).unwrap();
    let verifier_aux_commitments = split_aux_commitments(read, inverse_rate);
    assert!(same(&verifier_row_challenges, &folded_witness.row_challenges));
    assert_eq!(verifier_aux_commitments.u_prime_commitments.len(), inverse_rate - 1);
    assert_eq!(
        flatten_aux_commitments(&verifier_aux_commitments, inverse_rate),
        flatten_aux_commitments(&aux_data.commitments, inverse_rate)
    );
}

#[test]
fn test_qabase_scaling_relation_sumcheck() {
    let num_vars = 6;
    let n = 1usize << num_vars;
    let inverse_rate = 4usize;
    let mut rng = ChaCha8Rng::from_seed([23u8; 32]);
    let drawn = random_vec((inverse_rate - 1) * n, &mut rng);
    let qa_params = QAParams::<Fr>::new_random(n, inverse_rate, &drawn);
    let msg = random_vec(n, &mut rng);
    let witness = qa_encode_with_witness(&msg, &qa_params);
    let mut prover_transcript = TestTranscript::new();
    let prover_proof = prove_scaling_relation_sumcheck(
        &qa_params,
        &witness.msg_wht,
        &witness.scaled_wht_blocks,
        &mut prover_transcript,
    )
    .unwrap();
    let (fields, commitments) = prover_transcript.into_proof();
    let mut verifier_transcript = TestTranscript::from_proof(fields, commitments);
    let (ok, verifier_proof) =
        verify_scaling_relation_sumcheck(num_vars, inverse_rate - 1, &mut verifier_transcript)
            .unwrap();
    assert!(ok);
    assert!(prover_proof.alpha.equals(verifier_proof.alpha));
}

#[test]
fn test_qabase_batched_wht_relations_sumcheck() {
    let num_vars = 6;
    let n = 1usize << num_vars;
    let num_relations = 5usize;
    let mut rng = ChaCha8Rng::from_seed([61u8; 32]);
    let mut inputs = Vec::with_capacity(num_relations);
    let mut outputs = Vec::with_capacity(num_relations);
    for _ in 0..num_relations {
        let input = random_vec(n, &mut rng);
        let mut output = input.clone();
        wht(&mut output);
        inputs.push(input);
        outputs.push(output);
    }
    let mut prover_transcript = TestTranscript::new();
    let prover_proof =
        prove_batched_wht_relations_sumcheck(&inputs, &outputs, &mut prover_transcript).unwrap();
    let (fields, commitments) = prover_transcript.into_proof();
    let mut verifier_transcript = TestTranscript::from_proof(fields, commitments);
    let (ok, verifier_proof) = verify_batched_wht_relations_sumcheck(
        num_vars,
        num_relations,
        &mut verifier_transcript,
    )
    .unwrap();
    assert!(ok);
    assert!(prover_proof.eta.equals(verifier_proof.eta));
}

#[test]
fn test_qabase_open_scaffold_global_batch_batched_wht() {
    let num_vars = 6;
    let poly_size = 1usize << num_vars;
    let num_rows = 4usize;
    let inverse_rate = 4usize;
    let num_queries = 8usize;
    let mut rng = ChaCha8Rng::from_seed([67u8; 32]);

    let (pp, vp) = params(poly_size, num_rows, inverse_rate, num_queries, &mut rng);
    let word = random_matrix(num_rows, poly_size, &mut rng);
    let mut prover_transcript = TestTranscript::new();
    let comm: Commitment = commit_and_write(&pp, &word, &mut prover_transcript).unwrap();
    let (folded_witness, polys) = commit_folded_witness_start(&pp, &word, &mut prover_transcript);
    let aux_data = commit_aux(polys, inverse_rate, &mut prover_transcript);
    let (acc, encoding_relations, item1) = prove_qabase_open_scaffold_global_batch_batched_wht(
        &pp,
        &comm,
        &folded_witness,
        &aux_data,
        &mut prover_transcript,
    )
    .unwrap();
    let polys: Vec<Vec<Fr>> = acc.polys.iter().map(|p| (*p).clone()).collect();
    assert_eq!(acc.evals.len(), 19);
    assert!(claims_hold(&polys, &acc.points, &acc.evals));

    let (fields, commitments) = prover_transcript.into_proof();
    let mut verifier_transcript = TestTranscript::from_proof(fields, commitments);
    let row_challenges = read_aux_commitments_start::<Fr, Blake2s, Digest, TestTranscript>(
        &vp,
        comm.as_root(),
        &mut verifier_transcript,
    )
    .unwrap()
    .unwrap();
    let read = read_commitments(&mut verifier_transcript, 2 * inverse_rate).unwrap();
    let aux_commitments = split_aux_commitments(read, inverse_rate);
    let (ok, verifier_acc, _, verifier_item1) =
        verify_qabase_open_scaffold_global_batch_batched_wht::<Fr, Blake2s, Digest, TestTranscript>(
            &vp,
            comm.as_root(),
            &row_challenges,
            &aux_commitments,
            &mut verifier_transcript,
        )
        .unwrap();
    assert!(ok);
    assert!(verifier_acc.comms.iter().zip(&polys).all(|(c, p)| **c == commit_poly(p)));
    assert!(claims_hold(&polys, &verifier_acc.points, &verifier_acc.evals));
    assert_eq!(verifier_transcript.unread(), (0, 0));
    assert!(same(&folded_witness.row_challenges, &row_challenges));
    assert_eq!(item1.query_indices, verifier_item1.query_indices);
    assert!(same(&item1.folded_values, &verifier_item1.folded_values));
    assert_eq!(encoding_relations.batched_wht.gammas.len(), inverse_rate);

    let direct_folded_msg = linear_combine_rows(&word, &folded_witness.row_challenges);
    assert!(same(&direct_folded_msg, &folded_witness.folded_msg));
    let direct_witness = qa_encode_with_witness(&folded_witness.folded_msg, &pp.qa_params);
    assert!(same(&direct_witness.codeword, &folded_witness.folded_qa_witness.codeword));
}

struct Opened {
    pp: QABaseProverParams<Fr, Digest>,
    vp: QABaseVerifierParams<Fr, Digest>,
    comm: Commitment,
    z_left: Vec<Fr>,
    z_right: Vec<Fr>,
    claimed_value: Fr,
    folded_witness: QABaseFoldedWitness<Fr>,
    eval_witness: QABaseEvalWitness<Fr>,
    proved: FullOpenProved<Fr>,
    polys: Vec<Vec<Fr>>,
    fields: Vec<Fr>,
    commitments: Vec<Digest>,
}

fn open_full(
    num_vars: usize,
    num_rows: usize,
    inverse_rate: usize,
    num_queries: usize,
    seed: u8,
    offset: Fr,
) -> Opened {
    let poly_size = 1usize << num_vars;
    let mut rng = ChaCha8Rng::from_seed([seed; 32]);
    let (pp, vp) = params(poly_size, num_rows, inverse_rate, num_queries, &mut rng);
    let word = random_matrix(num_rows, poly_size, &mut rng);
    let log_rows = log2_power_of_two(num_rows);
    let full_point = random_vec(log_rows + num_vars, &mut rng);
    let (z_left, z_right) = qabase_split_evaluation_point(&full_point, num_rows, num_vars);
    let row_weights = qabase_row_weights_from_z_left(num_rows, &z_left);
    let eval_msg = linear_combine_rows(&word, &row_weights);
    let claimed_value = eval_mle_from_evals(&eval_msg, &z_right).plus(offset);

    let mut transcript = TestTranscript::new();
    let comm: Commitment = commit_and_write(&pp, &word, &mut transcript).unwrap();
    let (folded_witness, polys) = commit_folded_witness_start(&pp, &word, &mut transcript);
    let aux_data = commit_aux(polys, inverse_rate, &mut transcript);
    let (eval_witness, eval_polys) = commit_eval_witness_start(&pp, &word, z_left.clone());
    let eval_aux_data = commit_aux(eval_polys, inverse_rate, &mut transcript);
    let (proved, polys) = {
        let (acc, proved) = prove_qabase_open_full_global_batch_batched_wht(
            &pp,
            &comm,
            &folded_witness,
            &aux_data,
            &eval_witness,
            &eval_aux_data,
            &z_right,
            claimed_value,
            &mut transcript,
        )
        .unwrap();
        let polys: Vec<Vec<Fr>> = acc.polys.iter().map(|p| (*p).clone()).collect();
        assert_eq!(acc.evals.len(), 10 * inverse_rate - 1);
        assert_eq!(claims_hold(&polys, &acc.points, &acc.evals), proved.ok_eval_value);
        (proved, polys)
    };
    let (fields, commitments) = transcript.into_proof();
    Opened {
        pp,
        vp,
        comm,
        z_left,
        z_right,
        claimed_value,
        folded_witness,
        eval_witness,
        proved,
        polys,
        fields,
        commitments,
    }
}

fn verify_full(o: &Opened, fields: Vec<Fr>, commitments: Vec<Digest>) -> Result<bool, Error> {
    let rho = o.vp.inverse_rate;
    let mut transcript = TestTranscript::from_proof(fields, commitments);
    let row_challenges = match read_aux_commitments_start::<Fr, Blake2s, Digest, TestTranscript>(
        &o.vp,
        o.comm.as_root(),
        &mut transcript,
    )? {
        Some(row_challenges) => row_challenges,
        None => return Ok(false),
    };
    let aux = split_aux_commitments(read_commitments(&mut transcript, 2 * rho)?, rho);
    let eval_aux = split_aux_commitments(read_commitments(&mut transcript, 2 * rho)?, rho);
    let (ok, acc, _) =
        verify_qabase_open_full_global_batch_batched_wht::<Fr, Blake2s, Digest, TestTranscript>(
            &o.vp,
            o.comm.as_root(),
            &row_challenges,
            &aux,
            &o.z_left,
            &eval_aux,
            &o.z_right,
            o.claimed_value,
            &mut transcript,
        )?;
    let bound = acc.comms.iter().zip(&o.polys).all(|(c, p)| **c == commit_poly(p));
    Ok(ok && bound && claims_hold(&o.polys, &acc.points, &acc.evals))
}

#[test]
fn test_qabase_open_full_global_batch_batched_wht() {
    let inverse_rate = 4usize;
    let o = open_full(6, 4, inverse_rate, 8, 87, Fr::zero());
    let mut transcript = TestTranscript::from_proof(o.fields.clone(), o.commitments.clone());
    let row_challenges = read_aux_commitments_start::<Fr, Blake2s, Digest, TestTranscript>(
        &o.vp,
        o.comm.as_root(),
        &mut transcript,
    )
    .unwrap()
    .unwrap();
    let read = read_commitments(&mut transcript, 2 * inverse_rate).unwrap();
    let aux = split_aux_commitments(read, inverse_rate);
    let read = read_commitments(&mut transcript, 2 * inverse_rate).unwrap();
    let eval_aux = split_aux_commitments(read, inverse_rate);
    let (ok, acc, read) =
        verify_qabase_open_full_global_batch_batched_wht::<Fr, Blake2s, Digest, TestTranscript>(
            &o.vp,
            o.comm.as_root(),
            &row_challenges,
            &aux,
            &o.z_left,
            &eval_aux,
            &o.z_right,
            o.claimed_value,
            &mut transcript,
        )
        .unwrap();
    assert!(claims_hold(&o.polys, &acc.points, &acc.evals));
    assert_eq!(transcript.unread(), (0, 0));

    assert!(ok);
    assert!(o.proved.ok_eval_value);
    assert!(same(&o.folded_witness.row_challenges, &row_challenges));
    assert_eq!(o.proved.item1.query_indices, read.item1.query_indices);
    assert!(same(&o.proved.item1.folded_values, &read.item1.folded_values));
    assert_eq!(o.proved.item1.opened_columns.len(), read.item1.opened_columns.len());
    for (a, b) in o.proved.item1.opened_columns.iter().zip(&read.item1.opened_columns) {
        assert!(same(a, b));
    }
    let eval_item1 = read.eval_item1.unwrap();
    assert!(same(
        &o.proved.eval_item1.eval_folded_values,
        &eval_item1.eval_folded_values
    ));
    assert!(same(&o.eval_witness.z_left, &o.z_left));
    assert_eq!(o.pp.num_queries, eval_item1.query_indices.len());
}

#[test]
fn three_rows_can_be_shown_close() {
    let (num_vars, num_rows, inverse_rate) = (3usize, 3usize, 2usize);
    let mut rng = ChaCha8Rng::from_seed([90u8; 32]);
    let (pp, vp) = params(1 << num_vars, num_rows, inverse_rate, 4, &mut rng);
    let word = random_matrix(num_rows, 1 << num_vars, &mut rng);
    let mut transcript = TestTranscript::new();
    let comm: Commitment = commit_and_write(&pp, &word, &mut transcript).unwrap();
    let (folded_witness, polys) = commit_folded_witness_start(&pp, &word, &mut transcript);
    let aux_data = commit_aux(polys, inverse_rate, &mut transcript);
    let (acc, _, _) = prove_qabase_open_scaffold_global_batch_batched_wht(
        &pp,
        &comm,
        &folded_witness,
        &aux_data,
        &mut transcript,
    )
    .unwrap();
    let polys: Vec<Vec<Fr>> = acc.polys.iter().map(|p| (*p).clone()).collect();
    let (fields, commitments) = transcript.into_proof();
    let mut reader = TestTranscript::from_proof(fields, commitments);
    let row_challenges = read_aux_commitments_start::<Fr, Blake2s, Digest, TestTranscript>(
        &vp,
        comm.as_root(),
        &mut reader,
    )
    .unwrap()
    .unwrap();
    let read = read_commitments(&mut reader, 2 * inverse_rate).unwrap();
    let aux = split_aux_commitments(read, inverse_rate);
    let (ok, acc, _, _) =
        verify_qabase_open_scaffold_global_batch_batched_wht::<Fr, Blake2s, Digest, TestTranscript>(
            &vp,
            comm.as_root(),
            &row_challenges,
            &aux,
            &mut reader,
        )
        .unwrap();
    assert!(ok && claims_hold(&polys, &acc.points, &acc.evals));
    assert_eq!(reader.unread(), (0, 0));
}

#[test]
fn wrong_value_leaves_a_false_claim() {
    let o = open_full(3, 2, 2, 2, 88, Fr::one());
    assert!(!o.proved.ok_eval_value);
    assert!(!verify_full(&o, o.fields.clone(), o.commitments.clone()).unwrap());
}

#[test]
fn tampered_encoding_messages_are_not_accepted() {
    let o = open_full(3, 2, 2, 2, 89, Fr::zero());
    assert!(verify_full(&o, o.fields.clone(), o.commitments.clone()).unwrap());
    for i in 0..o.fields.len() {
        let mut bent = o.fields.clone();
        bent[i] = bent[i].plus(Fr::one());
        let result = verify_full(&o, bent, o.commitments.clone());
        assert!(!matches!(result, Ok(true)), "message {} was not bound", i);
    }
    for i in 0..o.commitments.len() {
        let mut bent = o.commitments.clone();
        bent[i][3] ^= 16;
        let result = verify_full(&o, o.fields.clone(), bent);
        assert!(!matches!(result, Ok(true)), "digest {} was not bound", i);
    }
    let short = o.fields[..o.fields.len() - 1].to_vec();
    assert!(matches!(
        verify_full(&o, short, o.commitments.clone()),
        Err(Error::Transcript(_))
    ));
}

#[test]
fn false_transform_is_refused() {
    let mut rng = ChaCha8Rng::from_seed([62u8; 32]);
    let input = random_vec(8, &mut rng);
    let mut output = input.clone();
    wht(&mut output);
    output[3] = output[3].plus(Fr::one());
    let mut transcript = TestTranscript::new();
    prove_batched_wht_relations_sumcheck(&[input], &[output], &mut transcript).unwrap();
    let (fields, commitments) = transcript.into_proof();
    let mut reader = TestTranscript::from_proof(fields, commitments);
    match verify_batched_wht_relations_sumcheck::<Fr, Digest, TestTranscript>(3, 1, &mut reader) {
        Err(Error::InvalidSumcheck(msg)) => {
            assert_eq!(msg, "the values at zero and one do not sum to the claim")
        }
        _ => panic!("a false transform was accepted"),
    }
}

#[test]
fn columns_and_points_of_small_sizes() {
    assert_eq!(qabase_codeword_column_to_block(13, 4, 4), (3, 1));
    let point: Vec<Fr> = index_to_boolean_point(5, 4);
    let expected = [1u64, 0, 1, 0];
    assert!(point.iter().zip(expected).all(|(a, b)| a.equals(Fr::from_u64(b))));
    let values: Vec<Fr> = (0..16).map(|i| Fr::from_u64(100 + i)).collect();
    assert!(eval_mle_from_evals(&values, &point).equals(Fr::from_u64(105)));
    assert_eq!(QABaseFoldConfig::get_reps(), 241);
}

#[test]
fn reading_stops_at_the_first_column_that_misses_the_root() {
    let o = open_full(3, 2, 2, 3, 91, Fr::zero());
    let (n, rho, rows) = (o.vp.num_vars, o.vp.inverse_rate, o.vp.num_rows);
    let encoding = (2 * rho + 3 * n) + (4 * n + 2 + (rho - 1)) + (rho - 1);
    let columns = 2 * encoding;
    for bad in 0..3usize {
        let mut fields = o.fields.clone();
        let at = columns + bad * rows;
        fields[at] = fields[at].plus(Fr::one());
        let mut transcript = TestTranscript::from_proof(fields, o.commitments.clone());
        let row_challenges = read_aux_commitments_start::<Fr, Blake2s, Digest, TestTranscript>(
            &o.vp,
            o.comm.as_root(),
            &mut transcript,
        )
        .unwrap()
        .unwrap();
        let read = read_commitments(&mut transcript, 2 * rho).unwrap();
        let aux = split_aux_commitments(read, rho);
        let read = read_commitments(&mut transcript, 2 * rho).unwrap();
        let eval_aux = split_aux_commitments(read, rho);
        let (ok, _, read) =
            verify_qabase_open_full_global_batch_batched_wht::<Fr, Blake2s, Digest, TestTranscript>(
                &o.vp,
                o.comm.as_root(),
                &row_challenges,
                &aux,
                &o.z_left,
                &eval_aux,
                &o.z_right,
                o.claimed_value,
                &mut transcript,
            )
            .unwrap();
        assert!(!ok);
        assert!(read.eval_item1.is_none());
        assert_eq!(read.item1.opened_columns.len(), bad);
        assert!(same(&read.item1.folded_values, &o.proved.item1.folded_values[..bad]));
        for (a, b) in read.item1.opened_columns.iter().zip(&o.proved.item1.opened_columns) {
            assert!(same(a, b));
        }
        assert_eq!(transcript.unread().0, o.fields.len() - columns - (bad + 1) * rows);
    }
}
