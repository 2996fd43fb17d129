use ff::{Field, PrimeField as _};
use quasar::bn256::Fr;
use quasar::error::Error;
use quasar::field::PrimeField;
use quasar::hash::{Blake2s, HashFunction};
use quasar::mle::eval_mle_from_evals;
use quasar::qapcs::Evaluation;
use quasar::quasar::{
    commit_and_write, setup, trim, QABaseCommitment, QABaseProverParams, QABaseSecurityConfig,
    QABaseVerifierParams,
};
use quasar::quasar_columns::{merkle_depth, selector_block_eval_at_point, selector_block_evals};
use quasar::quasar_gkr::{
    finish_endpoint_commitments, prove_qabase_two_layer_gkr_batch,
    read_endpoint_block_commitments, QABaseTwoLayerGkrLayout,
};
use quasar::quasar_open::{
    linear_combine_rows_pair_parallel, prove_qabase_open_full_start,
    prove_qabase_open_full_two_layer_gkr, qabase_row_weights_from_z_left,
    qabase_split_evaluation_point, verify_qabase_open_full_start,
    verify_qabase_open_full_two_layer_gkr, QABaseFullOpenTwoLayerGkrProverOutput,
    QABaseFullOpenTwoLayerGkrVerifierOutput,
};
use quasar::transcript::{
    read_commitments, write_commitments, InMemoryTranscript, TranscriptRead,
};
use rand_chacha::{
    rand_core::{RngCore, SeedableRng},
    ChaCha8Rng,
};

type Digest = [u8; 32];
type Transcript = InMemoryTranscript<Fr, Blake2s>;
type Commitment = QABaseCommitment<Blake2s, Vec<Vec<Fr>>>;

fn random_fr(rng: &mut impl RngCore) -> Fr {
    let x = halo2curves::bn256::Fr::random(rng);
    Fr::from_bytes(&x.to_repr().as_ref().try_into().unwrap()).unwrap()
}

fn random_vec(n: usize, rng: &mut impl RngCore) -> Vec<Fr> {
    (0..n).map(|_| random_fr(rng)).collect()
}

fn random_matrix(rows: usize, cols: usize, rng: &mut ChaCha8Rng) -> Vec<Vec<Fr>> {
    (0..rows).map(|_| random_vec(cols, rng)).collect()
}

fn commit_poly(poly: &[Fr]) -> Digest {
    let bytes: Vec<u8> = poly.iter().flat_map(|x| x.to_repr()).collect();
    Blake2s::digest(&bytes)
}

fn params(
    poly_size: usize,
    num_rows: usize,
    inverse_rate: usize,
    num_queries: usize,
    rng: &mut ChaCha8Rng,
) -> (QABaseProverParams<Fr, Digest>, QABaseVerifierParams<Fr, Digest>) {
    let drawn = random_vec((inverse_rate - 1) * poly_size, rng);
    let param = setup(
        poly_size,
        Some(num_rows),
        Some(inverse_rate),
        Some(num_queries),
        &drawn,
    );
    let comms: Vec<Digest> = param.qa_params.e.iter().map(|e| commit_poly(e)).collect();
    trim(&param, comms.clone(), comms)
}

fn claims_hold(polys: &[Vec<Fr>], points: &[Vec<Fr>], evals: &[Evaluation<Fr>]) -> bool {
    evals
        .iter()
        .all(|e| eval_mle_from_evals(&polys[e.poly], &points[e.point]).equals(e.value))
}

fn prove(
    pp: &QABaseProverParams<Fr, Digest>,
    word: &Vec<Vec<Fr>>,
    comm: &Commitment,
    z_left: &[Fr],
    z_right: &[Fr],
    claimed_value: Fr,
    transcript: &mut Transcript,
) -> Result<(QABaseFullOpenTwoLayerGkrProverOutput, Vec<Vec<Fr>>), Error> {
    let start = prove_qabase_open_full_start(pp, word, z_left, z_right, transcript)?;
    let comms: Vec<Digest> = start.polys.iter().map(|p| commit_poly(p)).collect();
    write_commitments(transcript, &comms)?;
    let mut data = finish_endpoint_commitments(2, comms, start.polys, start.middle_evals)?;
    let (acc, out) = prove_qabase_open_full_two_layer_gkr(
        pp,
        comm,
        &start.row_challenges,
        &start.row_weights,
        &mut data,
        z_right.to_vec(),
        claimed_value,
        transcript,
    )?;
    let polys: Vec<Vec<Fr>> = acc.polys.iter().map(|p| (*p).clone()).collect();
    assert_eq!(polys.len(), acc.comms.len());
    for (poly, comm) in polys.iter().zip(acc.comms.iter()) {
        assert_eq!(&commit_poly(poly), *comm);
    }
    assert!(claims_hold(&polys, &acc.points, &acc.evals));
    assert_eq!(data.middle_evals.len(), 2);
    assert!(data.middle_evals.iter().all(|middle| middle.is_empty()));
    assert_eq!(data.polys.len(), 2 * pp.inverse_rate);
    Ok((out, polys))
}

fn verify(
    vp: &QABaseVerifierParams<Fr, Digest>,
    comm: &Commitment,
    polys: &[Vec<Fr>],
    z_left: &[Fr],
    z_right: &[Fr],
    claimed_value: Fr,
    transcript: &mut Transcript,
) -> Result<(bool, QABaseFullOpenTwoLayerGkrVerifierOutput), Error> {
    let root = comm.as_root();
    let start = match verify_qabase_open_full_start::<Fr, Blake2s, Digest, Transcript>(
        vp, root, z_left, z_right, transcript,
    )? {
        Some(start) => start,
        None => return Ok((false, QABaseFullOpenTwoLayerGkrVerifierOutput::rejected())),
    };
    let read = read_commitments(transcript, 2 * vp.inverse_rate)?;
    let endpoints = read_endpoint_block_commitments(vp, 2, read)?;
    let (acc, out) = verify_qabase_open_full_two_layer_gkr::<Fr, Blake2s, Digest, Transcript>(
        vp,
        root,
        &start.row_challenges,
        &start.row_weights,
        &endpoints,
        z_right.to_vec(),
        claimed_value,
        transcript,
    )?;
    match acc {
        Some(acc) => {
            let bound = acc.comms.len() == polys.len()
                && acc.comms.iter().zip(polys).all(|(c, p)| **c == commit_poly(p));
            Ok((bound && claims_hold(polys, &acc.points, &acc.evals), out))
        }
        None => Ok((false, out)),
    }
}

#[test]
fn test_commit_rate_2_and_4() {
    for inverse_rate in [2usize, 4usize] {
        let poly_size = 1usize << 6;
        let num_rows = 4;
        let mut rng = ChaCha8Rng::from_seed([9u8; 32]);
        let (pp, _) = params(poly_size, num_rows, inverse_rate, 8, &mut rng);
        let word = random_matrix(num_rows, poly_size, &mut rng);
        let mut transcript = Transcript::new();
        let comm: Commitment = commit_and_write(&pp, &word, &mut transcript).unwrap();
        assert_eq!(comm.codeword.len(), num_rows);
        assert!(comm
            .codeword
            .iter()
            .all(|row| row.len() == inverse_rate * poly_size));
    }
}

#[test]
fn test_row_major_point_split_matches_direct_mle() {
    let num_rows = 4usize;
    let row_size = 8usize;
    let num_vars = 3usize;
    let mut rng = ChaCha8Rng::from_seed([17u8; 32]);
    let word = random_matrix(num_rows, row_size, &mut rng);
    let full_point = random_vec(5, &mut rng);

    let flat = word.iter().flatten().copied().collect::<Vec<_>>();
    let direct = eval_mle_from_evals(&flat, &full_point);
    let (z_left, z_right) = qabase_split_evaluation_point(&full_point, num_rows, num_vars);
    let weights = qabase_row_weights_from_z_left(num_rows, &z_left);
    let zero = vec![Fr::zero(); num_rows];
    let (eval_msg, _) = linear_combine_rows_pair_parallel(&word, &weights, &zero);
    let decomposed = eval_mle_from_evals(&eval_msg, &z_right);
    assert!(direct.equals(decomposed));
}

#[test]
fn test_full_two_layer_gkr_rate_2_and_4() {
    for inverse_rate in [2usize, 4usize] {
        let num_vars = 6usize;
        let poly_size = 1usize << num_vars;
        let num_rows = 4usize;
        let mut rng = ChaCha8Rng::from_seed([71u8; 32]);
        let (pp, vp) = params(poly_size, num_rows, inverse_rate, 8, &mut rng);
        let word = random_matrix(num_rows, poly_size, &mut rng);

        let full_point = random_vec(num_vars + 2, &mut rng);
        let (z_left, z_right) = qabase_split_evaluation_point(&full_point, num_rows, num_vars);
        let flat = word.iter().flatten().copied().collect::<Vec<_>>();
        let claimed_value = eval_mle_from_evals(&flat, &full_point);

        let mut prover_transcript = Transcript::new();
        let comm: Commitment = commit_and_write(&pp, &word, &mut prover_transcript).unwrap();
        let (prover_output, polys) = prove(
            &pp,
            &word,
            &comm,
            &z_left,
            &z_right,
            claimed_value,
            &mut prover_transcript,
        )
        .unwrap();
        assert_eq!(prover_output.endpoint_commitment_count, 2 * inverse_rate);
        assert!(prover_output.unique_opening_point_count < prover_output.opening_claim_count);
        assert_eq!(prover_output.opening_claim_count, 5 * inverse_rate);
        assert!(prover_output.unique_opening_point_count <= 2 * inverse_rate + 2);

        let (fields, commitments) = prover_transcript.into_proof();
        let mut verifier_transcript = Transcript::from_proof(fields, commitments);
        let (ok, verifier_output) = verify(
            &vp,
            &comm,
            &polys,
            &z_left,
            &z_right,
            claimed_value,
            &mut verifier_transcript,
        )
        .unwrap();
        assert!(ok);
        assert_eq!(prover_output.query_indices, verifier_output.query_indices);
        assert!(verifier_transcript.read_field_element().is_err());
    }
}

#[test]
fn test_wrong_claimed_value_is_rejected_by_prover() {
    let num_vars = 5usize;
    let poly_size = 1usize << num_vars;
    let num_rows = 4usize;
    let mut rng = ChaCha8Rng::from_seed([81u8; 32]);
    let (pp, _) = params(poly_size, num_rows, 2, 4, &mut rng);
    let word = random_matrix(num_rows, poly_size, &mut rng);
    let point = random_vec(num_vars + 2, &mut rng);
    let (z_left, z_right) = qabase_split_evaluation_point(&point, num_rows, num_vars);

    let mut transcript = Transcript::new();
    let comm: Commitment = commit_and_write(&pp, &word, &mut transcript).unwrap();
    let result = prove(
        &pp,
        &word,
        &comm,
        &z_left,
        &z_right,
        random_fr(&mut rng),
        &mut transcript,
    );
    assert!(result.is_err());
}

#[test]
fn test_root_mismatch_rejects_without_panic() {
    let num_vars = 5usize;
    let poly_size = 1usize << num_vars;
    let num_rows = 4usize;
    let mut rng = ChaCha8Rng::from_seed([91u8; 32]);
    let (pp, vp) = params(poly_size, num_rows, 2, 4, &mut rng);
    let word = random_matrix(num_rows, poly_size, &mut rng);
    let point = random_vec(num_vars + 2, &mut rng);
    let (z_left, z_right) = qabase_split_evaluation_point(&point, num_rows, num_vars);
    let flat = word.iter().flatten().copied().collect::<Vec<_>>();
    let value = eval_mle_from_evals(&flat, &point);

    let mut prover_transcript = Transcript::new();
    let comm: Commitment = commit_and_write(&pp, &word, &mut prover_transcript).unwrap();
    let (_, polys) =
        prove(&pp, &word, &comm, &z_left, &z_right, value, &mut prover_transcript).unwrap();
    let (fields, mut commitments) = prover_transcript.into_proof();
    commitments[0][0] ^= 1;

    let mut verifier_transcript = Transcript::from_proof(fields, commitments);
    let (ok, _) =
        verify(&vp, &comm, &polys, &z_left, &z_right, value, &mut verifier_transcript).unwrap();
    assert!(!ok);
}

#[test]
fn prover_names_the_wrong_value() {
    let mut rng = ChaCha8Rng::from_seed([5u8; 32]);
    let (pp, _) = params(8, 2, 2, 3, &mut rng);
    let word = random_matrix(2, 8, &mut rng);
    let point = random_vec(4, &mut rng);
    let (z_left, z_right) = qabase_split_evaluation_point(&point, 2, 3);
    let mut transcript = Transcript::new();
    let comm: Commitment = commit_and_write(&pp, &word, &mut transcript).unwrap();
    let flat = word.iter().flatten().copied().collect::<Vec<_>>();
    let wrong = eval_mle_from_evals(&flat, &point).plus(Fr::one());
    match prove(&pp, &word, &comm, &z_left, &z_right, wrong, &mut transcript) {
        Err(Error::InvalidPcsOpen(msg)) => {
            assert_eq!(msg, "claimed Quasar evaluation does not match the witness")
        }
        _ => panic!("a wrong value was opened"),
    }
}

#[test]
fn opening_request_of_another_size_is_refused() {
    let mut rng = ChaCha8Rng::from_seed([6u8; 32]);
    let (pp, vp) = params(8, 2, 2, 3, &mut rng);
    let word = random_matrix(2, 8, &mut rng);
    let short = random_matrix(2, 4, &mut rng);
    let z_left = random_vec(1, &mut rng);
    let z_right = random_vec(3, &mut rng);
    let mut transcript = Transcript::new();
    for (w, l, r) in [(&word, 2usize, 3usize), (&word, 1, 2), (&short, 1, 3)] {
        let a = random_vec(l, &mut rng);
        let b = random_vec(r, &mut rng);
        match prove_qabase_open_full_start(&pp, w, &a, &b, &mut transcript) {
            Err(Error::InvalidPcsParam(msg)) => {
                assert_eq!(msg, "invalid Quasar full-opening dimensions")
            }
            _ => panic!("a request of another size was taken"),
        }
    }
    assert!(prove_qabase_open_full_start(&pp, &word, &z_left, &z_right, &mut transcript).is_ok());
    let root = [0u8; 32];
    match verify_qabase_open_full_start::<Fr, Blake2s, Digest, Transcript>(
        &vp,
        &root,
        &z_right,
        &z_right,
        &mut transcript,
    ) {
        Err(Error::InvalidPcsParam(msg)) => {
            assert_eq!(msg, "invalid Quasar evaluation point dimensions")
        }
        _ => panic!("a point of another size was taken"),
    }
}

#[test]
fn tampered_messages_are_not_accepted() {
    let num_vars = 4usize;
    let mut rng = ChaCha8Rng::from_seed([33u8; 32]);
    let (pp, vp) = params(1 << num_vars, 4, 2, 3, &mut rng);
    let word = random_matrix(4, 1 << num_vars, &mut rng);
    let point = random_vec(num_vars + 2, &mut rng);
    let (z_left, z_right) = qabase_split_evaluation_point(&point, 4, num_vars);
    let flat = word.iter().flatten().copied().collect::<Vec<_>>();
    let value = eval_mle_from_evals(&flat, &point);
    let mut transcript = Transcript::new();
    let comm: Commitment = commit_and_write(&pp, &word, &mut transcript).unwrap();
    let (_, polys) = prove(&pp, &word, &comm, &z_left, &z_right, value, &mut transcript).unwrap();
    let (fields, commitments) = transcript.into_proof();

    for i in 0..fields.len() {
        let mut bent = fields.clone();
        bent[i] = bent[i].plus(Fr::one());
        let mut reader = Transcript::from_proof(bent, commitments.clone());
        let result = verify(&vp, &comm, &polys, &z_left, &z_right, value, &mut reader);
        assert!(!matches!(result, Ok((true, _))), "message {} was not bound", i);
    }
    for i in 0..commitments.len() {
        let mut bent = commitments.clone();
        bent[i][7] ^= 4;
        let mut reader = Transcript::from_proof(fields.clone(), bent);
        let result = verify(&vp, &comm, &polys, &z_left, &z_right, value, &mut reader);
        assert!(!matches!(result, Ok((true, _))), "digest {} was not bound", i);
    }
    let mut reader = Transcript::from_proof(fields[..fields.len() - 1].to_vec(), commitments);
    let result = verify(&vp, &comm, &polys, &z_left, &z_right, value, &mut reader);
    assert!(matches!(result, Err(Error::Transcript(_))));
}

#[test]
fn two_layers_need_an_instance() {
    let mut rng = ChaCha8Rng::from_seed([34u8; 32]);
    let (pp, _) = params(4, 2, 2, 3, &mut rng);
    let layout = QABaseTwoLayerGkrLayout::new(2, 0);
    let mut data =
        finish_endpoint_commitments(0, Vec::<Digest>::new(), Vec::new(), Vec::new()).unwrap();
    let mut transcript = Transcript::new();
    match prove_qabase_two_layer_gkr_batch(&pp, &mut data, &layout, &mut transcript) {
        Err(Error::InvalidPcsOpen(msg)) => assert_eq!(msg, "invalid two-layer GKR instance count"),
        _ => panic!("nothing was proved of no instance"),
    }
}

#[test]
fn commitment_counts_are_held() {
    let mut rng = ChaCha8Rng::from_seed([35u8; 32]);
    let (_, vp) = params(4, 2, 2, 3, &mut rng);
    let digest = [1u8; 32];
    match read_endpoint_block_commitments(&vp, 2, vec![digest; 3]) {
        Err(Error::InvalidPcsOpen(msg)) => assert_eq!(msg, "wrong endpoint commitment count"),
        _ => panic!("three commitments for four blocks"),
    }
    assert!(read_endpoint_block_commitments(&vp, 2, vec![digest; 4]).is_ok());
    match finish_endpoint_commitments(1, vec![digest], Vec::<Vec<Fr>>::new(), Vec::new()) {
        Err(Error::InvalidPcsOpen(msg)) => {
            assert_eq!(msg, "wrong BaseFold endpoint commitment count")
        }
        _ => panic!("one commitment for no polynomial"),
    }
}

#[test]
fn layout_and_depth_of_small_sizes() {
    let layout = QABaseTwoLayerGkrLayout::new(4, 2);
    assert_eq!(layout.block_starts, vec![0, 4]);
    assert_eq!(layout.e_start, 8);
    assert_eq!(layout.block_poly_index(1, 3), 7);
    assert_eq!(layout.e_poly_index(2), 10);
    assert_eq!(merkle_depth(1).unwrap(), 0);
    assert_eq!(merkle_depth(16).unwrap(), 4);
    match merkle_depth(12) {
        Err(Error::InvalidPcsOpen(msg)) => assert_eq!(msg, "invalid Quasar Merkle leaf count"),
        _ => panic!("twelve leaves make no tree"),
    }
}

#[test]
fn selector_holds_powers_at_its_queries() {
    let tau = Fr::from_u64(3);
    let queries = [1usize, 5, 1];
    let blocks = selector_block_evals(2, 4, &queries, tau);
    let expected = [[0u64, 10, 0, 0], [0, 3, 0, 0]];
    for (block, values) in blocks.iter().zip(expected) {
        assert!(block.iter().zip(values).all(|(a, b)| a.equals(Fr::from_u64(b))));
    }
    let point = [Fr::from_u64(2), Fr::from_u64(7)];
    for (i, block) in blocks.iter().enumerate() {
        let direct = eval_mle_from_evals(block, &point);
        assert!(selector_block_eval_at_point(i, 4, &queries, tau, &point).equals(direct));
    }
}

#[test]
fn security_config_derives_its_sizes() {
    let cfg = QABaseSecurityConfig {
        total_log_size: 20,
        log_rows: 6,
        inverse_rate: 2,
        field_bits: 254,
        security_bits: 100,
        distance_failure_bits: 100,
    };
    assert_eq!(cfg.row_log_size(), 14);
    assert_eq!(cfg.num_rows(), 64);
    assert_eq!(cfg.row_size(), 1 << 14);
}

#[test]
fn defaults_of_the_parameters() {
    let mut rng = ChaCha8Rng::from_seed([36u8; 32]);
    let drawn = random_vec(16, &mut rng);
    let param = setup(16, None, None, None, &drawn);
    assert_eq!(param.num_vars, 4);
    assert_eq!(param.num_rows, 64);
    assert_eq!(param.inverse_rate, 2);
    assert_eq!(param.num_queries, 504);
}
