//! Which positions challenges select.

use crate::brakingbase_open::queries_of;
use crate::field::{canon, index_of_low, word_pow, PrimeField, Residue};
use crate::linear::vcanon;
use crate::qapcs::query_index;
use crate::quasar_columns::indices_of;
use vstd::arithmetic::div_mod::lemma_mod_bound;
use vstd::arithmetic::power::pow;
use vstd::prelude::*;

verus! {

/// There is one position for every challenge, and it depends on that challenge
/// alone: it is the challenge modulo `2^32`, modulo the number of columns.
pub proof fn sampled_positions<F: Residue>(challenges: Seq<int>, num_cols: int, i: int)
    requires
        vcanon::<F>(challenges),
        num_cols > 0,
        0 <= i < challenges.len(),
    ensures
        queries_of::<F>(challenges, num_cols).len() == challenges.len(),
        queries_of::<F>(challenges, num_cols)[i] == (challenges[i] % 4294967296) % num_cols,
        0 <= queries_of::<F>(challenges, num_cols)[i] < num_cols,
{
    reveal_with_fuel(pow, 5);
    assert(canon::<F>(challenges[i]));
    index_of_low::<F>(challenges[i], 4, num_cols);
    lemma_mod_bound(challenges[i] % 4294967296, num_cols);
}

/// There is one column for every challenge, and it depends on that challenge alone:
/// it is the challenge modulo the range of a machine word, modulo the number of
/// columns.
pub proof fn sampled_columns<F: Residue>(challenges: Seq<int>, num_cols: int, i: int)
    requires
        vcanon::<F>(challenges),
        num_cols > 0,
        0 <= i < challenges.len(),
    ensures
        indices_of::<F>(challenges, num_cols).len() == challenges.len(),
        indices_of::<F>(challenges, num_cols)[i] == (challenges[i] % (usize::MAX + 1)) % num_cols,
        0 <= indices_of::<F>(challenges, num_cols)[i] < num_cols,
{
    assert(canon::<F>(challenges[i]));
    word_pow();
    index_of_low::<F>(challenges[i], crate::field::word_bytes(), num_cols);
    lemma_mod_bound(challenges[i] % (usize::MAX + 1), num_cols);
}

/// A query asks for the column that its challenge selects: the challenge modulo the
/// range of a machine word, modulo the length of a codeword.
pub proof fn queried_column<F: PrimeField>(challenge: int, codeword_len: usize)
    requires
        canon::<F>(challenge),
        codeword_len > 0,
    ensures
        query_index::<F>(challenge, codeword_len) == (challenge % (usize::MAX + 1))
            % codeword_len as int,
        0 <= query_index::<F>(challenge, codeword_len) < codeword_len,
{
    word_pow();
    index_of_low::<F>(challenge, crate::field::word_bytes(), codeword_len as int);
    lemma_mod_bound(challenge % (usize::MAX + 1), codeword_len as int);
}

} // verus!
