use ff::{Field, PrimeField as _};
use quasar::bn256::Fr;
use quasar::brakedown::{Brakedown, SparseMatrix};
use quasar::brakingbase::{
    BrakingBaseCommitment, BrakingBaseParams, BrakingBaseProverParam, BrakingBaseVerifierParam,
    MultilinearBrakingBase,
    BASE_CODE_THRESHOLD,
};
use quasar::brakingbase_open::open_start;
use quasar::brakingbase_verify::verify_start;
use quasar::error::Error;
use quasar::field::PrimeField;
use quasar::hash::{Blake2s, HashFunction};
use quasar::mle::eval_mle_from_evals;
use quasar::parity::parity_check_entries;
use quasar::qapcs::Evaluation;
use quasar::transcript::{
    read_commitments, squeeze_challenges, write_commitments, InMemoryTranscript, TranscriptRead,
    TranscriptWrite,
};
use rand_chacha::{
    rand_core::{RngCore, SeedableRng},
    ChaCha8Rng,
};

type Digest = [u8; 32];
type Pcs = MultilinearBrakingBase<Fr, Blake2s>;
type Transcript = InMemoryTranscript<Fr, Blake2s>;
type Params = BrakingBaseParams<Fr, (), (), Digest>;
type ProverParam = BrakingBaseProverParam<Fr, (), Digest>;
type VerifierParam = BrakingBaseVerifierParam<(), Digest>;

fn random_fr(rng: &mut impl RngCore) -> Fr {
    let x = halo2curves::bn256::Fr::random(rng);
    Fr::from_bytes(&x.to_repr().as_ref().try_into().unwrap()).unwrap()
}

fn random_vec(n: usize, rng: &mut impl RngCore) -> Vec<Fr> {
    (0..n).map(|_| random_fr(rng)).collect()
}

fn commit_poly(poly: &[Fr]) -> Digest {
    let bytes: Vec<u8> = poly.iter().flat_map(|x| x.to_repr()).collect();
    Blake2s::digest(&bytes)
}

fn random_matrix(n: usize, m: usize, rng: &mut ChaCha8Rng) -> SparseMatrix<Fr> {
    let rows = (0..n)
        .map(|_| {
            let mut columns: Vec<usize> = Vec::new();
            while columns.len() < 4.min(m) {
                let c = (rng.next_u32() as usize) % m;
                if !columns.contains(&c) {
                    columns.push(c);
                }
            }
            columns.into_iter().map(|c| (c, random_fr(rng))).collect()
        })
        .collect();
    SparseMatrix { n, m, rows }
}

fn random_code(row_len: usize, queries: usize, rng: &mut ChaCha8Rng) -> Brakedown<Fr> {
    let mut dims = Vec::new();
    let mut n = row_len;
    loop {
        let m = (3 * n + 9) / 10;
        dims.push((n, m));
        if m <= BASE_CODE_THRESHOLD {
            break;
        }
        n = m;
    }
    let a = dims.iter().map(|&(n, m)| random_matrix(n, m, rng)).collect();
    let b = dims.iter().map(|&(n, m)| random_matrix(2 * m, n - 2 * m, rng)).collect();
    Brakedown {
        row_len,
        codeword_len: 2 * row_len,
        num_column_opening: queries,
        num_proximity_testing: 1,
        a,
        b,
    }
}

fn assemble(poly_size: usize, num_rows: usize, rng: &mut ChaCha8Rng) -> Params {
    let code = random_code(poly_size / num_rows, 2, rng);
    let setup = Pcs::setup_with_num_rows(poly_size, num_rows, code).unwrap();
    let comms: Vec<Digest> = setup.spark.static_polys.iter().map(|p| commit_poly(p)).collect();
    Pcs::assemble(setup, (), (), comms.clone(), comms)
}

fn claims_hold(polys: &[Vec<Fr>], points: &[Vec<Fr>], evals: &[Evaluation<Fr>]) -> bool {
    evals
        .iter()
        .all(|e| eval_mle_from_evals(&polys[e.poly], &points[e.point]).equals(e.value))
}

fn open(
    pp: &ProverParam,
    poly: &[Fr],
    comm: &BrakingBaseCommitment<Fr, Blake2s>,
    point: &[Fr],
    eval: Fr,
    transcript: &mut Transcript,
) -> Result<Vec<Vec<Fr>>, Error> {
    let state = open_start(pp, poly, comm, point, transcript)?;
    let comms: Vec<Digest> = state.aux_polys.iter().map(|p| commit_poly(p)).collect();
    write_commitments(transcript, &comms)?;
    let checked = Pcs::open_checks(pp, comm, &state, transcript)?;
    let comms: Vec<Digest> =
        checked.spark.dynamic_polys.iter().map(|p| commit_poly(p)).collect();
    write_commitments(transcript, &comms)?;
    let (points, evals) = Pcs::open(pp, &state, &checked, eval, transcript)?;
    let polys: Vec<Vec<Fr>> = state
        .aux_polys
        .iter()
        .chain(checked.spark.dynamic_polys.iter())
        .chain(pp.spark.static_polys.iter())
        .cloned()
        .collect();
    assert_eq!(evals.len(), 20);
    assert!(claims_hold(&polys, &points, &evals));
    Ok(polys)
}

fn verify(
    vp: &VerifierParam,
    root: &Digest,
    polys: &[Vec<Fr>],
    point: &[Fr],
    eval: Fr,
    transcript: &mut Transcript,
) -> Result<bool, Error> {
    let state = verify_start::<Fr, Digest, (), Digest, Transcript>(vp, point, transcript)?;
    let mut comms = read_commitments(transcript, 4)?;
    let checked = Pcs::verify_checks(vp, root, &state, transcript)?;
    comms.extend(read_commitments(transcript, 2)?);
    let (points, evals) = Pcs::verify(vp, &state, &checked, eval, transcript)?;
    comms.extend(vp.spark_comms.iter().copied());
    let bound = comms.len() == polys.len()
        && comms.iter().zip(polys).all(|(c, p)| *c == commit_poly(p));
    Ok(bound && claims_hold(polys, &points, &evals))
}

struct Opened {
    params: Params,
    polys: Vec<Vec<Fr>>,
    fields: Vec<Fr>,
    commitments: Vec<Digest>,
}

fn commit_and_open(num_vars: usize, num_rows: usize, seed: u8) -> Opened {
    let poly_size = 1usize << num_vars;
    let mut rng = ChaCha8Rng::from_seed([seed; 32]);
    let params = assemble(poly_size, num_rows, &mut rng);
    let (polys, fields, commitments) = {
        let (pp, _) = Pcs::trim(&params, poly_size).unwrap();
        assert_eq!(pp.num_rows(), num_rows);
        let poly = random_vec(poly_size, &mut rng);
        let mut transcript = Transcript::new();
        let comm = Pcs::commit(pp, &poly).unwrap();
        transcript.write_commitment(*comm.root()).unwrap();
        let point = squeeze_challenges(&mut transcript, num_vars);
        let eval = eval_mle_from_evals(&poly, &point);
        transcript.write_field_element(eval).unwrap();
        let polys = open(pp, &poly, &comm, &point, eval, &mut transcript).unwrap();
        let (fields, commitments) = transcript.into_proof();
        (polys, fields, commitments)
    };
    Opened { params, polys, fields, commitments }
}

fn read_and_verify(
    o: &Opened,
    fields: Vec<Fr>,
    commitments: Vec<Digest>,
) -> Result<bool, Error> {
    let vp = &o.params.verifier;
    let mut transcript = Transcript::from_proof(fields, commitments);
    let comm = Pcs::read_commitments(1, &mut transcript)?.remove(0);
    let point = squeeze_challenges(&mut transcript, vp.num_vars());
    let eval = transcript.read_field_element()?;
    let ok = verify(vp, comm.root(), &o.polys, &point, eval, &mut transcript)?;
    Ok(ok && transcript.unread() == (0, 0))
}

#[test]
fn parity_matrix_annihilates_encoder_output() {
    let mut rng = ChaCha8Rng::from_seed([1u8; 32]);
    let code = random_code(64, 2, &mut rng);
    assert_eq!(code.codeword_len(), 2 * code.row_len());
    let message = random_vec(code.row_len(), &mut rng);
    let word = code.encode(&message);
    let entries = parity_check_entries(&code);
    let mut syndrome = vec![Fr::zero(); code.codeword_len() - code.row_len()];
    for entry in entries {
        syndrome[entry.col] = syndrome[entry.col].plus(word[entry.row].times(entry.value));
    }
    assert!(syndrome.iter().all(|value| value.equals(Fr::zero())));
    assert!(word.iter().zip(&message).all(|(a, b)| a.equals(*b)));
}

#[test]
fn parity_matrix_catches_every_bent_entry() {
    let mut rng = ChaCha8Rng::from_seed([6u8; 32]);
    let code = random_code(64, 2, &mut rng);
    let n = code.row_len();
    let checks = code.codeword_len() - n;
    let entries = parity_check_entries(&code);
    let mut checked = vec![0usize; checks];
    for entry in &entries {
        if entry.row == n + entry.col {
            assert!(entry.value.plus(Fr::one()).equals(Fr::zero()));
            checked[entry.col] += 1;
        } else {
            assert!(entry.row < n + entry.col);
        }
    }
    assert!(checked.iter().all(|count| *count == 1));
    let word = code.encode(&random_vec(n, &mut rng));
    for i in n..word.len() {
        let mut bent = word.clone();
        bent[i] = bent[i].plus(Fr::one());
        let mut syndrome = vec![Fr::zero(); checks];
        for entry in &entries {
            syndrome[entry.col] = syndrome[entry.col].plus(bent[entry.row].times(entry.value));
        }
        assert!(!syndrome[i - n].equals(Fr::zero()));
    }
}

#[test]
fn brakingbase_commit_open_verify() {
    let o = commit_and_open(10, 8, 2);
    assert!(read_and_verify(&o, o.fields.clone(), o.commitments.clone()).unwrap());
}

#[test]
fn tampered_commitment_is_rejected() {
    let num_rows = Pcs::default_num_rows(1 << 10);
    assert_eq!(num_rows, 16);
    let o = commit_and_open(10, num_rows, 3);
    let mut commitments = o.commitments.clone();
    commitments[0][0] ^= 1;
    let rejected = read_and_verify(&o, o.fields.clone(), commitments).is_err();
    assert!(rejected);
}

#[test]
fn tampered_messages_are_rejected() {
    let o = commit_and_open(6, 2, 4);
    assert!(read_and_verify(&o, o.fields.clone(), o.commitments.clone()).unwrap());
    let step = 1 + o.fields.len() / 60;
    for i in (0..o.fields.len()).step_by(step) {
        let mut bent = o.fields.clone();
        bent[i] = bent[i].plus(Fr::one());
        let result = read_and_verify(&o, bent, o.commitments.clone());
        assert!(!matches!(result, Ok(true)), "message {} was not bound", i);
    }
    for i in 0..o.commitments.len() {
        let mut bent = o.commitments.clone();
        bent[i][5] ^= 2;
        let result = read_and_verify(&o, o.fields.clone(), bent);
        assert!(!matches!(result, Ok(true)), "digest {} was not bound", i);
    }
    let short = o.fields[..o.fields.len() - 1].to_vec();
    assert!(matches!(
        read_and_verify(&o, short, o.commitments.clone()),
        Err(Error::Transcript(_))
    ));
}

#[test]
fn wrong_value_is_not_opened() {
    let mut rng = ChaCha8Rng::from_seed([5u8; 32]);
    let params = assemble(1 << 6, 2, &mut rng);
    let pp = &params.prover;
    let poly = random_vec(1 << 6, &mut rng);
    let comm = Pcs::commit(pp, &poly).unwrap();
    let point = random_vec(6, &mut rng);
    let wrong = eval_mle_from_evals(&poly, &point).plus(Fr::one());
    let mut transcript = Transcript::new();
    match open(pp, &poly, &comm, &point, wrong, &mut transcript) {
        Err(Error::InvalidPcsOpen(msg)) => {
            assert_eq!(msg, "BrakingBase public evaluation mismatch")
        }
        _ => panic!("a wrong value was opened"),
    }
}

#[test]
fn root_alone_cannot_be_opened() {
    let mut rng = ChaCha8Rng::from_seed([6u8; 32]);
    let params = assemble(1 << 6, 2, &mut rng);
    let pp = &params.prover;
    let poly = random_vec(1 << 6, &mut rng);
    let comm = Pcs::commit(pp, &poly).unwrap();
    let bare: BrakingBaseCommitment<Fr, Blake2s> = BrakingBaseCommitment::from_root(*comm.root());
    let point = random_vec(6, &mut rng);
    let mut transcript = Transcript::new();
    match open_start(pp, &poly, &bare, &point, &mut transcript) {
        Err(Error::InvalidPcsOpen(msg)) => {
            assert_eq!(msg, "BrakingBase prover commitment lacks opening data")
        }
        _ => panic!("a root was opened"),
    }
    assert!(matches!(
        open_start(pp, &poly, &comm, &point[1..], &mut transcript),
        Err(Error::InvalidPcsParam(_))
    ));
    assert!(matches!(
        open_start(pp, &poly[1..], &comm, &point, &mut transcript),
        Err(Error::InvalidPcsParam(_))
    ));
    assert!(matches!(Pcs::trim(&params, 1 << 5), Err(Error::InvalidPcsParam(_))));
}

fn param_error(poly_size: usize, num_rows: usize, code: Brakedown<Fr>) -> String {
    match Pcs::setup_with_num_rows(poly_size, num_rows, code) {
        Err(Error::InvalidPcsParam(msg)) => msg,
        _ => panic!("the parameters were taken"),
    }
}

#[test]
fn parameters_that_do_not_fit_are_named() {
    let mut rng = ChaCha8Rng::from_seed([7u8; 32]);
    assert_eq!(
        param_error(96, 3, random_code(32, 2, &mut rng)),
        "BrakingBase polynomial size must be a power of two"
    );
    assert_eq!(
        param_error(64, 0, random_code(32, 2, &mut rng)),
        "BrakingBase row count must be a power-of-two divisor of the polynomial size"
    );
    let mut small = random_code(32, 2, &mut rng);
    small.row_len = 16;
    small.codeword_len = 32;
    small.a = vec![random_matrix(16, 5, &mut rng)];
    small.b = vec![random_matrix(10, 6, &mut rng)];
    assert_eq!(
        param_error(64, 4, small),
        "BrakingBase row length is below the Brakedown base threshold"
    );
    let mut twice = random_code(32, 2, &mut rng);
    twice.num_proximity_testing = 2;
    assert_eq!(
        param_error(64, 2, twice),
        "BrakingBase requires a field/parameter set with one random-row proximity test"
    );
    let mut long = random_code(32, 2, &mut rng);
    long.b = vec![random_matrix(20, 32, &mut rng)];
    long.codeword_len = 84;
    let msg = param_error(64, 2, long);
    assert_eq!(
        msg,
        "BrakingBase currently requires an exact rate-1/2 Brakedown code (got 84/32)"
    );
}

#[test]
fn rows_that_are_not_reached_are_zero() {
    let mut rng = ChaCha8Rng::from_seed([9u8; 32]);
    let params = assemble(1 << 7, 2, &mut rng);
    let (pp, _) = Pcs::trim(&params, 1 << 7).unwrap();
    let short = random_vec(pp.row_len(), &mut rng);
    let mut filled = short.clone();
    filled.resize(1 << 7, Fr::zero());
    let comm = Pcs::commit(pp, &short).unwrap();
    assert_eq!(comm.root(), Pcs::commit(pp, &filled).unwrap().root());
    assert!(comm.rows[1].iter().all(|x| x.equals(Fr::zero())));
    assert!(comm.rows[0][..pp.row_len()].iter().zip(&short).all(|(a, b)| a.equals(*b)));
    filled.resize(1 << 8, Fr::zero());
    assert!(matches!(Pcs::commit(pp, &filled), Err(Error::InvalidPcsParam(_))));

    assert!(comm.check_tree(pp.codeword_len()));
    let mut bent = Pcs::commit(pp, &short).unwrap();
    bent.rows[1][0] = Fr::one();
    assert!(!bent.check_tree(pp.codeword_len()));
    let mut bent = Pcs::commit(pp, &short).unwrap();
    bent.root[4] ^= 2;
    assert!(!bent.check_tree(pp.codeword_len()));
}
