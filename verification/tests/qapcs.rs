use ff::{Field, PrimeField as _};
use quasar::bn256::Fr;
use quasar::error::Error;
use quasar::field::PrimeField;
use quasar::hash::Blake2s;
use quasar::linear::inner_product;
use quasar::mle::eval_mle_from_evals;
use quasar::qapcs::{
    combine_message_rows, point_to_tensor, Evaluation, MultilinearQAPCS,
    MultilinearQAPCSCommitment, MultilinearQAPCSParams,
};
use quasar::qapcs_shape::{choose_qapcs_shape, QAPCSSpec, QAPCSSpecRateHalf100};
use quasar::transcript::{
    squeeze_challenges, FieldTranscript, InMemoryTranscript, TranscriptRead, TranscriptWrite,
};
use rand_chacha::{
    rand_core::{RngCore, SeedableRng},
    ChaCha8Rng,
};

fn qabase_gp(delta: f64, field_bits: usize) -> f64 {
    let bits = field_bits as f64;
    1.0 - delta + (delta * delta.log2() + (1.0 - delta) * (1.0 - delta).log2()) / bits
}

fn log2_add(a: f64, b: f64) -> f64 {
    let m = a.max(b);
    if !m.is_finite() {
        return m;
    }
    m + ((2.0f64).powf(a - m) + (2.0f64).powf(b - m)).log2()
}

fn failure_log2(delta: f64, row_log_size: usize, c: usize, field_bits: usize) -> f64 {
    let log_n = row_log_size as f64;
    let log_p = field_bits as f64;
    let eps = qabase_gp(delta, field_bits) - (1.0 + log_n / log_p) / (c as f64);
    if eps <= 0.0 {
        return f64::INFINITY;
    }
    let denom_log = if log_p * (c as f64) * eps < 60.0 {
        let x = log_p * (c as f64) * eps;
        (-(-std::f64::consts::LN_2 * x).exp_m1()).log2()
    } else {
        0.0
    };
    let a1 = ((c * (c - 1)) as f64 / 2.0).log2() + log_n - 2.0 * log_p;
    let t1 = (((c - 1) as f64) / ((c as f64) * delta)).ceil();
    let b1 = -log_p * t1 * (c as f64) * eps - denom_log - log_p;
    let a2 = (c as f64).log2() + log_n - log_p;
    let t2 = (1.0 / delta).ceil();
    let b2 = -log_p * t2 * (c as f64) * eps - denom_log - log_p;
    log2_add(a1, b1).min(log2_add(a2, b2))
}

fn queries_for<S: QAPCSSpec>(total: usize, field_bits: usize) -> Vec<usize> {
    (0..=total)
        .map(|row_log_size| {
            let target = -(S::distance_failure_bits() as f64);
            let mut lo = 1e-9f64;
            let mut hi = 1.0 - 1e-9f64;
            for _ in 0..100 {
                let mid = (lo + hi) * 0.5;
                if failure_log2(mid, row_log_size, S::inverse_rate(), field_bits) <= target {
                    lo = mid;
                } else {
                    hi = mid;
                }
            }
            let denom = -(1.0 - lo / 3.0).log2();
            ((S::security_bits() as f64) / denom).ceil() as usize
        })
        .collect()
}

fn fr(x: halo2curves::bn256::Fr) -> Fr {
    Fr::from_bytes(&x.to_repr().as_ref().try_into().unwrap()).unwrap()
}

fn random_fr(rng: &mut impl RngCore) -> Fr {
    fr(halo2curves::bn256::Fr::random(rng))
}

fn random_vec(n: usize, rng: &mut impl RngCore) -> Vec<Fr> {
    (0..n).map(|_| random_fr(rng)).collect()
}

fn same(a: &Fr, b: &Fr) -> bool {
    a.equals(*b)
}

#[derive(Debug)]
struct TestSpec;

impl QAPCSSpec for TestSpec {
    fn security_bits() -> usize {
        16
    }

    fn distance_failure_bits() -> usize {
        16
    }

    fn min_row_log_size() -> usize {
        3
    }
}

type Pcs = MultilinearQAPCS<Fr, Blake2s, TestSpec>;
type Transcript = InMemoryTranscript<Fr, Blake2s>;

const FIELD_BITS: usize = 254;

fn setup(poly_size: usize, rng: &mut ChaCha8Rng) -> MultilinearQAPCSParams<Fr> {
    let num_vars = poly_size.ilog2() as usize;
    let queries = queries_for::<TestSpec>(num_vars, FIELD_BITS);
    let shape = choose_qapcs_shape::<TestSpec>(num_vars, FIELD_BITS, &queries);
    let drawn = random_vec((TestSpec::inverse_rate() - 1) * shape.row_len, rng);
    Pcs::setup(poly_size, FIELD_BITS, &queries, &drawn).unwrap()
}

#[test]
fn qapcs_commit_open_verify() {
    for num_vars in 3..10usize {
        let poly_size = 1usize << num_vars;
        let mut rng = ChaCha8Rng::from_seed([num_vars as u8; 32]);
        let param = setup(poly_size, &mut rng);
        let (pp, vp) = Pcs::trim(&param, poly_size).unwrap();

        let (fields, commitments) = {
            let mut transcript = Transcript::new();
            let poly = random_vec(poly_size, &mut rng);
            let comm = Pcs::commit(&pp, &poly).unwrap();
            transcript.write_commitment(*comm.root()).unwrap();
            let point = squeeze_challenges(&mut transcript, num_vars);
            let eval = eval_mle_from_evals(&poly, &point);
            transcript.write_field_element(eval).unwrap();
            Pcs::open(&pp, &poly, &comm, &point, eval, &mut transcript).unwrap();
            transcript.into_proof()
        };

        let mut transcript = Transcript::from_proof(fields, commitments);
        let comm = Pcs::read_commitments(1, &mut transcript).unwrap().remove(0);
        let point = squeeze_challenges(&mut transcript, num_vars);
        let eval = transcript.read_field_element().unwrap();
        let result = Pcs::verify(&vp, &comm, &point, eval, &mut transcript);
        assert!(result.is_ok());
        assert_eq!(transcript.unread(), (0, 0));
    }
}

#[test]
fn batch_commit_open_verify() {
    for num_vars in 3..8usize {
        let poly_size = 1usize << num_vars;
        let batch_size = 8usize;
        let num_points = batch_size / 2;
        let mut rng = ChaCha8Rng::from_seed([100 + num_vars as u8; 32]);
        let param = setup(poly_size, &mut rng);
        let (pp, vp) = Pcs::trim(&param, poly_size).unwrap();
        let claims: Vec<(usize, usize)> = (0..num_points)
            .flat_map(|point| (0..batch_size).map(move |poly| (poly, point)))
            .filter(|(poly, point)| (poly + point) % 3 != 0)
            .collect();

        let (fields, commitments) = {
            let mut transcript = Transcript::new();
            let polys: Vec<Vec<Fr>> =
                (0..batch_size).map(|_| random_vec(poly_size, &mut rng)).collect();
            let comms = Pcs::batch_commit(&pp, &polys).unwrap();
            for comm in &comms {
                transcript.write_commitment(*comm.root()).unwrap();
            }
            let points: Vec<Vec<Fr>> = (0..num_points)
                .map(|_| squeeze_challenges(&mut transcript, num_vars))
                .collect();
            let evals: Vec<Evaluation<Fr>> = claims
                .iter()
                .map(|&(poly, point)| Evaluation {
                    poly,
                    point,
                    value: eval_mle_from_evals(&polys[poly], &points[point]),
                })
                .collect();
            for eval in &evals {
                transcript.write_field_element(eval.value).unwrap();
            }
            Pcs::batch_open(&pp, &polys, &comms, &points, &evals, &mut transcript).unwrap();
            transcript.into_proof()
        };

        let mut transcript = Transcript::from_proof(fields, commitments);
        let comms = Pcs::read_commitments(batch_size, &mut transcript).unwrap();
        let points: Vec<Vec<Fr>> = (0..num_points)
            .map(|_| squeeze_challenges(&mut transcript, num_vars))
            .collect();
        let evals: Vec<Evaluation<Fr>> = claims
            .iter()
            .map(|&(poly, point)| Evaluation {
                poly,
                point,
                value: transcript.read_field_element().unwrap(),
            })
            .collect();
        let result = Pcs::batch_verify(&vp, &comms, &points, &evals, &mut transcript);
        assert!(result.is_ok());
        assert_eq!(transcript.unread(), (0, 0));
    }
}

#[test]
fn point_split_matches_row_major_mle() {
    let num_rows = 4usize;
    let row_len = 8usize;
    let evals = (0..num_rows * row_len)
        .map(|i| Fr::from_u64((i + 1) as u64))
        .collect::<Vec<_>>();
    let point = vec![
        Fr::from_u64(2u64),
        Fr::from_u64(3u64),
        Fr::from_u64(5u64),
        Fr::from_u64(7u64),
        Fr::from_u64(11u64),
    ];

    let direct = eval_mle_from_evals(&evals, &point);
    let (row_weights, column_weights) = point_to_tensor(num_rows, &point);

    let mut combined_row = vec![Fr::zero(); row_len];
    combine_message_rows(&evals, num_rows, row_len, &row_weights, &mut combined_row).unwrap();

    assert!(same(&direct, &inner_product(&combined_row, &column_weights)));
}

#[test]
fn full_open_rejects_wrong_claimed_value() {
    let poly_size = 1usize << 8;
    let mut rng = ChaCha8Rng::from_seed([42u8; 32]);
    let param = setup(poly_size, &mut rng);
    let (pp, _) = Pcs::trim(&param, poly_size).unwrap();

    let poly = random_vec(poly_size, &mut rng);
    let comm = Pcs::commit(&pp, &poly).unwrap();
    let point = random_vec(pp.num_vars(), &mut rng);
    let actual = eval_mle_from_evals(&poly, &point);
    let wrong = actual.plus(Fr::one());

    let mut transcript = Transcript::new();
    let result = Pcs::open(&pp, &poly, &comm, &point, wrong, &mut transcript);
    assert!(result.is_err());
}

#[test]
fn shape_uses_rate_half() {
    let queries = queries_for::<QAPCSSpecRateHalf100>(20, 127);
    let shape = choose_qapcs_shape::<QAPCSSpecRateHalf100>(20, 127, &queries);
    assert_eq!(shape.codeword_len, 2 * shape.row_len);
    assert_eq!(QAPCSSpecRateHalf100::inverse_rate(), 2);
    assert_eq!(QAPCSSpecRateHalf100::security_bits(), 100);
}

#[test]
fn wrong_inputs_are_named() {
    let mut rng = ChaCha8Rng::from_seed([43u8; 32]);
    let param = setup(1 << 6, &mut rng);
    let (pp, vp) = Pcs::trim(&param, 1 << 6).unwrap();
    match Pcs::trim(&param, 1 << 5) {
        Err(Error::InvalidPcsParam(msg)) => {
            assert_eq!(msg, "Can't trim MultilinearQAPCSParams into different poly_size")
        }
        _ => panic!("trimmed to another size"),
    }
    let poly = random_vec(1 << 6, &mut rng);
    let mut comm = Pcs::commit(&pp, &poly).unwrap();
    let point = random_vec(6, &mut rng);
    let value = eval_mle_from_evals(&poly, &point);

    let mut transcript = Transcript::new();
    assert!(matches!(
        Pcs::open(&pp, &poly, &comm, &point[1..], value, &mut transcript),
        Err(Error::InvalidPcsParam(_))
    ));
    comm.intermediate_hashes.pop();
    match Pcs::open(&pp, &poly, &comm, &point, value, &mut transcript) {
        Err(Error::InvalidPcsParam(msg)) => assert_eq!(msg, "invalid QAPCS prover commitment state"),
        _ => panic!("an incomplete commitment was opened"),
    }
    let root = MultilinearQAPCSCommitment::<Fr, Blake2s>::from_root(*comm.root());
    let mut reader = Transcript::from_proof(Vec::new(), Vec::new());
    assert!(matches!(
        Pcs::verify(&vp, &root, &point[1..], value, &mut reader),
        Err(Error::InvalidPcsParam(_))
    ));
    assert!(matches!(
        Pcs::verify(&vp, &root, &point, value, &mut reader),
        Err(Error::Transcript(_))
    ));
}

#[test]
fn bent_proofs_are_refused_by_name() {
    let mut rng = ChaCha8Rng::from_seed([44u8; 32]);
    let num_vars = 6usize;
    let param = setup(1 << num_vars, &mut rng);
    let (pp, vp) = Pcs::trim(&param, 1 << num_vars).unwrap();
    let poly = random_vec(1 << num_vars, &mut rng);
    let comm = Pcs::commit(&pp, &poly).unwrap();
    let point = random_vec(num_vars, &mut rng);
    let value = eval_mle_from_evals(&poly, &point);
    let mut transcript = Transcript::new();
    Pcs::open(&pp, &poly, &comm, &point, value, &mut transcript).unwrap();
    let (fields, commitments) = transcript.into_proof();
    let root = MultilinearQAPCSCommitment::<Fr, Blake2s>::from_root(*comm.root());

    let mut seen: Vec<String> = Vec::new();
    let mut run = |fields: Vec<Fr>, commitments: Vec<[u8; 32]>, value: Fr| -> bool {
        let mut reader = Transcript::from_proof(fields, commitments);
        match Pcs::verify(&vp, &root, &point, value, &mut reader) {
            Ok(()) => reader.unread() == (0, 0),
            Err(Error::InvalidPcsOpen(msg)) => {
                if !seen.contains(&msg) {
                    seen.push(msg);
                }
                false
            }
            Err(_) => panic!("another error"),
        }
    };
    assert!(run(fields.clone(), commitments.clone(), value));
    assert!(!run(fields.clone(), commitments.clone(), value.plus(Fr::one())));
    let step = 1 + fields.len() / 40;
    for i in (0..fields.len()).step_by(step) {
        let mut bent = fields.clone();
        bent[i] = bent[i].plus(Fr::one());
        assert!(!run(bent, commitments.clone(), value), "message {} was not bound", i);
    }
    let step = 1 + commitments.len() / 20;
    for i in (0..commitments.len()).step_by(step) {
        let mut bent = commitments.clone();
        bent[i][1] ^= 8;
        assert!(!run(fields.clone(), bent, value), "digest {} was not bound", i);
    }
    for msg in [
        "QAPCS evaluation consistency failure",
        "QAPCS folded-column consistency failure",
        "invalid QAPCS Merkle opening",
    ] {
        assert!(seen.iter().any(|m| m == msg), "{} was not seen", msg);
    }
}

#[test]
fn shapes_are_the_cheapest() {
    let queries = queries_for::<QAPCSSpecRateHalf100>(16, 254);
    let shape = choose_qapcs_shape::<QAPCSSpecRateHalf100>(16, 254, &queries);
    assert_eq!(shape.row_len * shape.num_rows, 1 << 16);
    assert_eq!(shape.num_column_opening, queries[shape.row_log_size]);
    assert_eq!(shape.num_proximity_testing, 1);
}

#[test]
fn one_proof_is_accepted_for_one_value() {
    let poly_size = 1usize << 5;
    let mut rng = ChaCha8Rng::from_seed([57u8; 32]);
    let param = setup(poly_size, &mut rng);
    let (pp, vp) = Pcs::trim(&param, poly_size).unwrap();
    let poly = random_vec(poly_size, &mut rng);
    let comm = Pcs::commit(&pp, &poly).unwrap();
    let point = random_vec(5, &mut rng);
    let eval = eval_mle_from_evals(&poly, &point);
    let mut transcript = Transcript::new();
    Pcs::open(&pp, &poly, &comm, &point, eval, &mut transcript).unwrap();
    let (fields, commitments) = transcript.into_proof();
    let mut reader = Transcript::from_proof(fields.clone(), commitments.clone());
    assert!(Pcs::verify(&vp, &comm, &point, eval, &mut reader).is_ok());
    for shift in [1u64, 2, 77] {
        let other = eval.plus(Fr::from_u64(shift));
        let mut reader = Transcript::from_proof(fields.clone(), commitments.clone());
        match Pcs::verify(&vp, &comm, &point, other, &mut reader) {
            Err(Error::InvalidPcsOpen(msg)) => {
                assert_eq!(msg, "QAPCS evaluation consistency failure")
            }
            _ => panic!("another value was accepted"),
        }
    }
}
