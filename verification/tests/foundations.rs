use ff::{Field, PrimeField as _};
use quasar::bn256::Fr;
use quasar::claims::{append_opening_claim, push_basefold_opening_claim};
use quasar::classic_sumcheck::{sumcheck_prove, sumcheck_verify};
use quasar::error::Error;
use quasar::field::{challenge_to_index, u64_to_le_bytes, PrimeField};
use quasar::hash::{Blake2s, HashFunction};
use quasar::interpolation::evaluate_from_values;
use quasar::linear::{inner_product, linear_combine_rows, powers};
use quasar::merkle::{
    hash_columns, hash_field_slice, hash_hash_pair, merkelize_flat, merkelize_from_leaves,
    merkle_path, read_flat_path, tree_is_consistent, verify_merkle_path,
    verify_merkle_path_with_leaf,
};
use quasar::mersenne_61_mont::Mersenne61Mont;
use quasar::mle::{
    equality_mle_eval, equality_mle_eval_at_index, equality_mle_evals_on_hypercube,
    eval_mle_from_evals, hadamard_tensor_mle_eval, hadamard_tensor_mle_evals_on_hypercube,
    is_power_of_two, log2_power_of_two,
};
use quasar::play_field::PlayField;
use quasar::products::{product_tree, prove_products, verify_products};
use quasar::qa_code::{
    qa_encode_codeword_only, qa_encode_with_witness, qa_encode_with_witness_parallel, wht,
    wht_parallel, QAParams,
};
use quasar::spark_memory::{
    extend_point, hash_memory_tuple, identity_eval, next_power_of_two, pad_poly, timestamps,
};
use quasar::sumcheck::{ProductTerm, SumcheckInstance};
use quasar::transcript::{
    squeeze_challenges, FieldTranscript, InMemoryTranscript, TranscriptRead, TranscriptWrite,
};
use rand_chacha::{
    rand_core::{RngCore, SeedableRng},
    ChaCha8Rng,
};

type Digest = [u8; 32];
type Transcript = InMemoryTranscript<Fr, Blake2s>;

fn fr(v: u64) -> Fr {
    Fr::from_u64(v)
}

fn frs(v: &[u64]) -> Vec<Fr> {
    v.iter().map(|x| fr(*x)).collect()
}

fn same(a: &[Fr], b: &[Fr]) -> bool {
    a.len() == b.len() && a.iter().zip(b).all(|(x, y)| x.equals(*y))
}

fn hex(bytes: &[u8]) -> String {
    bytes.iter().map(|b| format!("{:02x}", b)).collect()
}

#[test]
fn bn256_agrees_with_the_curve_crate() {
    let mut rng = ChaCha8Rng::from_seed([1u8; 32]);
    for _ in 0..50 {
        let a = halo2curves::bn256::Fr::random(&mut rng);
        let b = halo2curves::bn256::Fr::random(&mut rng);
        let bytes = |x: halo2curves::bn256::Fr| -> [u8; 32] {
            x.to_repr().as_ref().try_into().unwrap()
        };
        let x = Fr::from_bytes(&bytes(a)).unwrap();
        let y = Fr::from_bytes(&bytes(b)).unwrap();
        assert_eq!(x.plus(y).to_repr(), bytes(a + b).to_vec());
        assert_eq!(x.minus(y).to_repr(), bytes(a - b).to_vec());
        assert_eq!(x.times(y).to_repr(), bytes(a * b).to_vec());
    }
    assert!(fr(3).plus(fr(4)).equals(fr(7)));
    assert!(fr(3).minus(fr(4)).plus(fr(1)).equals(Fr::zero()));
    assert!(fr(3).times(fr(4)).equals(fr(12)));
    assert!(!fr(3).equals(fr(4)));
}

#[test]
fn bn256_takes_canonical_bytes_alone() {
    let minus_one: [u8; 32] = Fr::zero().minus(Fr::one()).to_repr().try_into().unwrap();
    assert_eq!(
        hex(&minus_one),
        "000000f093f5e1439170b97948e833285d588181b64550b829a031e1724e6430"
    );
    assert!(Fr::from_bytes(&minus_one).is_some());
    let mut order = minus_one;
    order[0] += 1;
    assert!(Fr::from_bytes(&order).is_none());
    assert!(Fr::from_bytes(&[255u8; 32]).is_none());
    assert_eq!(fr(258).to_repr()[..3], [2, 1, 0]);
}

#[test]
fn small_fields_wrap_at_their_moduli() {
    let p = (1u64 << 61) - 1;
    let top = Mersenne61Mont::from_u64(p - 1);
    assert!(top.plus(Mersenne61Mont::one()).equals(Mersenne61Mont::zero()));
    assert!(top.times(top).equals(Mersenne61Mont::one()));
    assert!(Mersenne61Mont::from_u64(p + 5).equals(Mersenne61Mont::from_u64(5)));
    assert_eq!(Mersenne61Mont::from_u64(258).to_repr()[..2], [2, 1]);
    let seven = PlayField::from_u64(7);
    assert!(seven.times(PlayField::from_u64(5)).equals(PlayField::one()));
    assert!(seven.minus(PlayField::from_u64(9)).equals(PlayField::from_u64(15)));
    assert!(PlayField::from_u64(34).equals(PlayField::zero()));
}

#[test]
fn blake2s_digests_of_short_strings() {
    assert_eq!(
        hex(&Blake2s::digest(b"")),
        "69217a3079908094e11121d042354a7c1f55b6482ca1a51e1b250dfd1ed0eef9"
    );
    assert_eq!(
        hex(&Blake2s::digest(b"abc")),
        "508c5e8c327c14e2e1a72ba34eeb452f37458b209ed63a294d999b4c86675982"
    );
}

#[test]
fn indices_come_from_low_bytes() {
    let x = Fr::from_u64(0x0102_0304_0506_0708);
    assert_eq!(challenge_to_index(x, 8, 1000), (0x0102_0304_0506_0708u64 % 1000) as usize);
    assert_eq!(challenge_to_index(x, 4, 1000), 0x0506_0708usize % 1000);
    assert_eq!(u64_to_le_bytes(258)[..3], [2, 1, 0]);
}

#[test]
fn merkle_paths_lead_to_the_root() {
    let rows = vec![frs(&[1, 2, 3, 4]), frs(&[5, 6, 7, 8])];
    let leaves: Vec<Digest> = hash_columns::<Blake2s, Fr>(&rows, 4);
    assert_eq!(leaves[2], hash_field_slice::<Blake2s, Fr>(&frs(&[3, 7])));
    let tree = merkelize_from_leaves::<Blake2s>(leaves.clone());
    assert_eq!(tree.len(), 3);
    let left = hash_hash_pair::<Blake2s>(&leaves[0], &leaves[1]);
    let right = hash_hash_pair::<Blake2s>(&leaves[2], &leaves[3]);
    let root = hash_hash_pair::<Blake2s>(&left, &right);
    assert_eq!(tree[2], vec![root]);
    assert_eq!(merkle_path::<Blake2s>(&tree, 2), Some(vec![leaves[3], left]));
    for i in 0..4usize {
        let path = merkle_path::<Blake2s>(&tree, i).unwrap();
        assert!(verify_merkle_path::<Blake2s>(&root, &leaves[i], &path, i));
        assert!(!verify_merkle_path::<Blake2s>(&root, &leaves[i], &path, (i + 1) % 4));
        let column: Vec<Fr> = rows.iter().map(|row| row[i]).collect();
        assert!(verify_merkle_path_with_leaf::<Blake2s, Fr>(&root, &column, &path, i));
        let mut bent = path.clone();
        bent[1][0] ^= 1;
        assert!(!verify_merkle_path::<Blake2s>(&root, &leaves[i], &bent, i));
    }
    assert_eq!(merkle_path::<Blake2s>(&tree, 4), None);
    assert!(tree_is_consistent::<Blake2s>(&tree));
    assert!(!tree_is_consistent::<Blake2s>(&tree[..2]));
    let mut bent = tree.clone();
    bent[1][1][5] ^= 1;
    assert!(!tree_is_consistent::<Blake2s>(&bent));
    assert!(!tree_is_consistent::<Blake2s>(&[leaves[..3].to_vec()]));
    let flat = merkelize_flat::<Blake2s>(leaves.clone());
    assert_eq!(flat.last(), Some(&root));
    for i in 0..4usize {
        let path = read_flat_path(&flat, i, 4);
        assert_eq!(Some(path), merkle_path::<Blake2s>(&tree, i));
    }
}

#[test]
fn multilinear_values_of_small_tables() {
    let table = frs(&[1, 2, 3, 7]);
    let point = frs(&[2, 3]);
    let expected = fr(1 + 2 + 6 + 18);
    assert!(eval_mle_from_evals(&table, &point).equals(expected));
    let weights = equality_mle_evals_on_hypercube(&point);
    assert!(inner_product(&table, &weights).equals(expected));
    for i in 0..4usize {
        assert!(equality_mle_eval_at_index(i, 2, &point).equals(weights[i]));
    }
    let corner = frs(&[1, 0]);
    assert!(equality_mle_eval(&corner, &point).equals(weights[1]));
    assert!(is_power_of_two(1) && is_power_of_two(64) && !is_power_of_two(0));
    assert!(!is_power_of_two(12));
    assert_eq!(log2_power_of_two(64), 6);
    assert!(same(&powers(fr(3), 4), &frs(&[1, 3, 9, 27])));
    let rows = vec![frs(&[1, 2]), frs(&[3, 4])];
    assert!(same(&linear_combine_rows(&rows, &frs(&[5, 7])), &frs(&[26, 38])));
}

#[test]
fn transforms_of_small_vectors() {
    let mut x = frs(&[1, 2, 3, 4]);
    wht(&mut x);
    let minus = |v: u64| Fr::zero().minus(fr(v));
    assert!(same(&x, &[fr(10), minus(2), minus(4), fr(0)]));
    wht(&mut x);
    assert!(same(&x, &frs(&[4, 8, 12, 16])));

    let mut rng = ChaCha8Rng::from_seed([2u8; 32]);
    let long: Vec<Fr> = (0..4096).map(|_| fr(rng.next_u64())).collect();
    let (mut a, mut b) = (long.clone(), long);
    wht(&mut a);
    wht_parallel(&mut b);
    assert!(same(&a, &b));

    let gamma = frs(&[2, 5]);
    let rows = hadamard_tensor_mle_evals_on_hypercube(&gamma);
    let point = frs(&[3, 4]);
    let direct = hadamard_tensor_mle_eval(&gamma, &point);
    assert!(eval_mle_from_evals(&rows, &point).equals(direct));
    let table = frs(&[1, 2, 3, 4]);
    let mut transformed = table.clone();
    wht(&mut transformed);
    assert!(inner_product(&rows, &table).equals(eval_mle_from_evals(&transformed, &gamma)));
}

#[test]
fn codewords_hold_message_and_parity() {
    let params = QAParams::<Fr>::new_random(2, 2, &frs(&[3, 5]));
    let word = qa_encode_codeword_only(&frs(&[1, 2]), &params);
    let parity = [fr(9).minus(fr(5)), fr(9).plus(fr(5))];
    assert!(same(&word[..2], &frs(&[1, 2])));
    assert!(same(&word[2..], &parity));
    let witness = qa_encode_with_witness(&frs(&[1, 2]), &params);
    assert!(same(&witness.codeword, &word));
    assert!(same(&witness.msg_wht, &[fr(3), Fr::zero().minus(fr(1))]));
    let parallel = qa_encode_with_witness_parallel(&frs(&[1, 2]), &params);
    assert!(same(&parallel.codeword, &word));
    let one = qa_encode_codeword_only(&frs(&[4, 6]), &params);
    let sum = qa_encode_codeword_only(&frs(&[5, 8]), &params);
    for i in 0..4usize {
        assert!(word[i].plus(one[i]).equals(sum[i]));
    }
}

fn instance(claim: u64) -> SumcheckInstance<Fr> {
    SumcheckInstance {
        num_vars: 2,
        degree: 2,
        polys: vec![frs(&[1, 2, 3, 4]), frs(&[5, 6, 7, 8])],
        terms: vec![
            ProductTerm { coeff: fr(1), factors: vec![0, 1] },
            ProductTerm { coeff: fr(10), factors: vec![1] },
        ],
        claim: fr(claim),
    }
}

#[test]
fn sum_checks_end_in_the_value_at_a_point() {
    let claim = 70 + 260;
    let mut transcript = Transcript::new();
    let honest = instance(claim);
    let (point, values) = sumcheck_prove(&honest, &mut transcript).unwrap();
    assert!(values[0].equals(eval_mle_from_evals(&honest.polys[0], &point)));
    assert!(values[1].equals(eval_mle_from_evals(&honest.polys[1], &point)));
    let (fields, commitments) = transcript.into_proof();
    assert_eq!(fields.len(), 6);
    assert!(same(&fields[..3], &frs(&[146, 184, 226])));

    let mut reader = Transcript::from_proof(fields.clone(), commitments.clone());
    let (terminal, read) = sumcheck_verify(2, 2, fr(claim), &mut reader).unwrap();
    assert!(same(&read, &point));
    assert!(terminal.equals(values[0].times(values[1]).plus(fr(10).times(values[1]))));
    assert!(honest.terminal(&values).equals(terminal));

    let mut reader = Transcript::from_proof(fields.clone(), commitments.clone());
    match sumcheck_verify::<Fr, Digest, Transcript>(2, 2, fr(claim + 1), &mut reader) {
        Err(Error::InvalidSumcheck(msg)) => {
            assert_eq!(msg, "the values at zero and one do not sum to the claim")
        }
        _ => panic!("a false sum was accepted"),
    }
    let mut reader = Transcript::from_proof(fields[..5].to_vec(), commitments);
    assert!(matches!(
        sumcheck_verify::<Fr, Digest, Transcript>(2, 2, fr(claim), &mut reader),
        Err(Error::Transcript(_))
    ));
}

#[test]
fn polynomials_are_known_from_their_values() {
    let values = frs(&[1, 6, 17]);
    for (x, y) in [(0, 1), (1, 6), (2, 17), (5, 86), (100, 30201)] {
        assert!(evaluate_from_values(&values, fr(x)).equals(fr(y)));
    }
    assert!(evaluate_from_values(&frs(&[9]), fr(4)).equals(fr(9)));
    let cubes = frs(&[0, 1, 8, 27]);
    assert!(evaluate_from_values(&cubes, fr(11)).equals(fr(1331)));
}

#[test]
fn small_integers_are_inverted() {
    for k in 1..17u64 {
        assert!(Fr::small_inverse(k).times(fr(k)).equals(Fr::one()));
        let x = Mersenne61Mont::small_inverse(k);
        assert!(x.times(Mersenne61Mont::from_u64(k)).equals(Mersenne61Mont::one()));
        let x = PlayField::small_inverse(k);
        assert!(x.times(PlayField::from_u64(k)).equals(PlayField::one()));
    }
}

#[test]
fn products_are_read_back() {
    let tree = product_tree(frs(&[2, 3, 5, 7]));
    assert_eq!(tree.len(), 3);
    assert!(same(tree.last().unwrap(), &frs(&[210])));
    let mut transcript = Transcript::new();
    let leaves = vec![frs(&[2, 3, 5, 7]), frs(&[1, 4, 6, 9])];
    let prover = prove_products(leaves.clone(), &mut transcript).unwrap();
    assert!(same(&prover.roots, &frs(&[210, 216])));
    let (fields, commitments) = transcript.into_proof();
    let mut reader = Transcript::from_proof(fields.clone(), commitments.clone());
    let verifier = verify_products(2, 4, &mut reader).unwrap();
    assert!(same(&verifier.roots, &prover.roots));
    assert!(same(&verifier.point, &prover.point));
    for (claim, leaves) in verifier.claims.iter().zip(&leaves) {
        assert!(claim.equals(eval_mle_from_evals(leaves, &verifier.point)));
    }
    for i in 0..fields.len() {
        let mut bent = fields.clone();
        bent[i] = bent[i].plus(Fr::one());
        let mut reader = Transcript::from_proof(bent, commitments.clone());
        let honest = match verify_products::<Fr, Digest, Transcript>(2, 4, &mut reader) {
            Ok(end) => end
                .claims
                .iter()
                .zip(&leaves)
                .all(|(c, l)| c.equals(eval_mle_from_evals(l, &end.point))),
            Err(_) => false,
        };
        assert!(!honest, "message {} was not bound", i);
    }
}

#[test]
fn memory_is_timed_and_padded() {
    let (reads, audit) = timestamps(&[2, 0, 2, 2], 4);
    assert_eq!(reads, vec![0, 0, 1, 2]);
    assert_eq!(audit, vec![1, 0, 3, 0]);
    assert_eq!(next_power_of_two(5), 8);
    assert_eq!(next_power_of_two(8), 8);
    assert_eq!(next_power_of_two(0), 1);
    assert!(same(&pad_poly(frs(&[1, 2]), 4), &frs(&[1, 2, 0, 0])));
    let point = extend_point(&frs(&[3]), 3);
    assert!(same(&point, &frs(&[3, 0, 0])));
    assert!(identity_eval(&frs(&[1, 0, 1])).equals(fr(5)));
    let hash = hash_memory_tuple(fr(2), fr(3), fr(4), fr(10), fr(1));
    assert!(hash.equals(fr(2 + 30 + 400 - 1)));
}

#[test]
fn claims_share_points_or_keep_their_own() {
    let (a, b) = (frs(&[1, 2]), frs(&[3, 4]));
    let mut points = Vec::new();
    let mut evals = Vec::new();
    push_basefold_opening_claim(&mut points, &mut evals, 7, a.clone(), fr(5));
    push_basefold_opening_claim(&mut points, &mut evals, 8, b, fr(6));
    push_basefold_opening_claim(&mut points, &mut evals, 9, a.clone(), fr(7));
    assert_eq!(points.len(), 2);
    let at: Vec<(usize, usize)> = evals.iter().map(|e| (e.poly, e.point)).collect();
    assert_eq!(at, vec![(7, 0), (8, 1), (9, 0)]);
    append_opening_claim(&mut points, &mut evals, 1, a, fr(8));
    assert_eq!(points.len(), 3);
    assert_eq!((evals[3].poly, evals[3].point), (1, 2));
}

#[test]
fn transcripts_replay_what_was_written() {
    let mut writer = Transcript::new();
    writer.write_field_element(fr(11)).unwrap();
    let first = writer.squeeze_challenge();
    writer.write_commitment([9u8; 32]).unwrap();
    let rest = squeeze_challenges(&mut writer, 2);
    assert!(!first.equals(rest[0]) && !rest[0].equals(rest[1]));
    let (fields, commitments) = writer.into_proof();
    assert!(same(&fields, &frs(&[11])));
    assert_eq!(commitments, vec![[9u8; 32]]);

    let mut reader = Transcript::from_proof(fields, commitments);
    assert_eq!(reader.unread(), (1, 1));
    assert!(reader.read_field_element().unwrap().equals(fr(11)));
    assert!(reader.squeeze_challenge().equals(first));
    assert_eq!(reader.read_commitment().unwrap(), [9u8; 32]);
    assert!(same(&squeeze_challenges(&mut reader, 2), &rest));
    assert_eq!(reader.unread(), (0, 0));
    assert!(matches!(reader.read_field_element(), Err(Error::Transcript(_))));
    assert!(matches!(reader.read_commitment(), Err(Error::Transcript(_))));

    let mut other = Transcript::from_proof(frs(&[12]), Vec::new());
    assert!(other.read_field_element().unwrap().equals(fr(12)));
    assert!(!other.squeeze_challenge().equals(first));
}
