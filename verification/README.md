# quasar

Multilinear polynomial commitments over linear codes, verified with Verus.

Three schemes share one toolbox:

* **QAPCS** commits to the rows of a matrix under a quasi-abelian code and opens
  with folded rows in the clear (`qapcs`, `qapcs_shape`).
* **Quasar / QABase** certifies the encodings of folded rows with sum-checks, so
  that the folded rows stay behind commitments (`quasar*`, `qabase*`).
* **BrakingBase** does the same for the recursive sparse Brakedown code, whose
  parity-check matrix is evaluated with an offline memory check
  (`brakedown`, `parity`, `brakingbase*`, `spark*`, `products`).

## Layout

* `src/` is the verified library. Field elements are modelled by their canonical
  integers, vectors and matrices by sequences of them, and a transcript by the
  sequence of its steps. Provers state what they write, verifiers what they have
  read when they accept, when they reject and when they fail. Laws that span
  several functions are public proof functions; those of the `*_replay`,
  `*_laws` and `*_accept` modules say that what an honest prover wrote is
  accepted when it is read, and leaves the same claims.
* `tests/` runs the library on concrete inputs.
* `app/` holds what stands around it: floating-point security estimates, random
  draws, storable forms of the types, and the drivers that hand the collected
  claims to a commitment scheme for auxiliary polynomials.

## What is taken on trust

* `bn256`: addition, subtraction, multiplication, inversion and the canonical decoding of
  `halo2curves::bn256::Fr`.
* `hash`: the BLAKE2s digest of `blake2`.
* `qa_code`: that `rayon::join` runs both halves.
* `brakingbase`: the text that `format!` makes of two numbers.
