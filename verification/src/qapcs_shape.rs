//! Parameter policy and matrix-shape search.

use crate::mle::{exp2, exp2_is_pow2, log2, log2_power_of_two, power_of_two};
use crate::qa_code::is_pow2;
use vstd::prelude::*;

verus! {

/// Parameter policy of the scheme. The defaults are rate one half, a hundred
/// bits of query soundness and a hundred bits of distance failure.
pub trait QAPCSSpec {
    /// Inverse of the code rate.
    fn inverse_rate() -> (r: usize)
        default_ensures
            r == 2,
    {
        2
    }

    /// Soundness bits of the column queries.
    fn security_bits() -> (r: usize)
        default_ensures
            r == 100,
    {
        100
    }

    /// Failure budget of the distance bound.
    fn distance_failure_bits() -> (r: usize)
        default_ensures
            r == 100,
    {
        100
    }

    /// Smallest row length exponent that the shape search considers.
    fn min_row_log_size() -> (r: usize)
        default_ensures
            r == 5,
    {
        5
    }

    /// Whether the shape search counts authentication hashes.
    fn optimize_for_bytes() -> (r: bool)
        default_ensures
            r == false,
    {
        false
    }

    /// Bytes of a digest.
    fn hash_bytes() -> (r: usize)
        default_ensures
            r == 32,
    {
        32
    }

    /// Bytes of an element of a field with `log2_q` bits.
    fn field_bytes(log2_q: usize) -> (r: usize)
        default_ensures
            r == ceil_div(log2_q as int, 8),
    {
        if log2_q % 8 == 0 {
            log2_q / 8
        } else {
            log2_q / 8 + 1
        }
    }
}

/// The default policy: rate one half and a hundred bits.
#[derive(Debug)]
pub struct QAPCSSpecRateHalf100;

impl QAPCSSpec for QAPCSSpecRateHalf100 {

}

/// Quotient rounded up.
pub open spec fn ceil_div(a: int, b: int) -> int {
    if a % b == 0 {
        a / b
    } else {
        a / b + 1
    }
}

/// The answers of a policy that the shape search uses.
#[derive(Clone, Copy, Debug)]
pub struct QAPCSPolicy {
    pub inverse_rate: usize,
    pub security_bits: usize,
    pub min_row_log_size: usize,
    pub optimize_for_bytes: bool,
    pub hash_bytes: usize,
    pub field_bytes: usize,
}

/// `p` holds what the methods of `S` answered.
pub open spec fn answers<S: QAPCSSpec>(p: QAPCSPolicy, field_bits: usize) -> bool {
    &&& call_ensures(S::inverse_rate, (), p.inverse_rate)
    &&& call_ensures(S::security_bits, (), p.security_bits)
    &&& call_ensures(S::min_row_log_size, (), p.min_row_log_size)
    &&& call_ensures(S::optimize_for_bytes, (), p.optimize_for_bytes)
    &&& call_ensures(S::hash_bytes, (), p.hash_bytes)
    &&& call_ensures(S::field_bytes, (field_bits,), p.field_bytes)
}

/// Number of random row combinations:
/// `max(1, ceil(security_bits / (field_bits - log2(codeword_len))))`.
pub open spec fn proximity_tests(field_bits: int, codeword_len: int, security_bits: int) -> int {
    let t = ceil_div(security_bits, field_bits - log2(codeword_len));
    if t >= 1 {
        t
    } else {
        1
    }
}

/// Number of random row combinations that the soundness target asks for.
pub fn qapcs_num_proximity_testing(
    field_bits: usize,
    codeword_len: usize,
    security_bits: usize,
) -> (r: usize)
    requires
        is_pow2(codeword_len as int),
        field_bits > log2(codeword_len as int),
    ensures
        r == proximity_tests(field_bits as int, codeword_len as int, security_bits as int),
{
    let denom: usize = field_bits - log2_power_of_two(codeword_len);
    let quotient: usize = security_bits / denom;
    proof {
        assert(quotient <= security_bits) by (nonlinear_arith)
            requires
                quotient == security_bits / denom,
                denom > 0,
        ;
        assert(security_bits % denom != 0 ==> quotient < security_bits) by (nonlinear_arith)
            requires
                quotient == security_bits / denom,
                denom > 0,
        ;
    }
    let tests: usize = if security_bits % denom == 0 {
        quotient
    } else {
        quotient + 1
    };
    if tests >= 1 {
        tests
    } else {
        1
    }
}

/// A matrix shape with the query counts that go with it.
#[derive(Clone, Copy, Debug)]
pub struct QAPCSShape {
    pub row_log_size: usize,
    pub row_len: usize,
    pub num_rows: usize,
    pub codeword_len: usize,
    pub num_column_opening: usize,
    pub num_proximity_testing: usize,
    pub proof_proxy: usize,
}

/// The size objective of a shape, in field elements or in bytes.
pub open spec fn proxy_of(
    p: QAPCSPolicy,
    row_len: int,
    num_rows: int,
    tests: int,
    queries: int,
) -> int {
    let elems = (1 + tests) * row_len + queries * num_rows;
    if p.optimize_for_bytes {
        elems * p.field_bytes + queries * log2(p.inverse_rate * row_len) * p.hash_bytes
    } else {
        elems
    }
}

/// Whether `s` is the shape with rows of `2^row_log` entries.
pub open spec fn is_shape(
    s: QAPCSShape,
    p: QAPCSPolicy,
    total: int,
    row_log: int,
    field_bits: int,
    queries: int,
) -> bool {
    &&& s.row_log_size == row_log
    &&& s.row_len == exp2(row_log as nat)
    &&& s.num_rows == exp2((total - row_log) as nat)
    &&& s.codeword_len == p.inverse_rate * s.row_len
    &&& s.num_column_opening == queries
    &&& s.num_proximity_testing == proximity_tests(
        field_bits,
        s.codeword_len as int,
        p.security_bits as int,
    )
    &&& s.proof_proxy == proxy_of(
        p,
        s.row_len as int,
        s.num_rows as int,
        s.num_proximity_testing as int,
        queries,
    )
}

/// The inputs on which a shape is defined and fits machine integers.
pub open spec fn shape_fits(
    p: QAPCSPolicy,
    total: int,
    row_log: int,
    field_bits: int,
    queries: int,
) -> bool {
    let row_len = exp2(row_log as nat) as int;
    let num_rows = exp2((total - row_log) as nat) as int;
    let codeword_len = p.inverse_rate * row_len;
    let tests = proximity_tests(field_bits, codeword_len, p.security_bits as int);
    let elems = (1 + tests) * row_len + queries * num_rows;
    &&& 0 <= row_log <= total
    &&& p.inverse_rate >= 2
    &&& is_pow2(p.inverse_rate as int)
    &&& num_rows <= usize::MAX
    &&& codeword_len <= usize::MAX
    &&& field_bits > log2(codeword_len)
    &&& elems <= usize::MAX
    &&& p.optimize_for_bytes ==> {
        &&& elems * p.field_bytes + queries * log2(codeword_len) * p.hash_bytes <= usize::MAX
    }
}

/// Doubling a power of two several times.
pub proof fn pow2_times(a: int, k: nat)
    requires
        is_pow2(a),
    ensures
        is_pow2(a * exp2(k)),
    decreases k,
{
    if k > 0 {
        pow2_times(a, (k - 1) as nat);
        let h = exp2((k - 1) as nat);
        assert(a * (2 * h) == 2 * (a * h)) by (nonlinear_arith);
        assert(a * h >= 1) by (nonlinear_arith)
            requires
                a >= 1,
                h >= 1,
        ;
        exp2_is_pow2((k - 1) as nat);
        assert((2 * (a * h)) / 2 == a * h);
        assert((2 * (a * h)) % 2 == 0);
    } else {
        assert(a * 1 == a);
    }
}

/// Computes the shape with rows of `2^row_log_size` entries.
pub fn qapcs_shape_score(
    p: &QAPCSPolicy,
    total_log_size: usize,
    row_log_size: usize,
    field_bits: usize,
    num_column_opening: usize,
) -> (s: QAPCSShape)
    requires
        shape_fits(
            *p,
            total_log_size as int,
            row_log_size as int,
            field_bits as int,
            num_column_opening as int,
        ),
    ensures
        is_shape(
            s,
            *p,
            total_log_size as int,
            row_log_size as int,
            field_bits as int,
            num_column_opening as int,
        ),
{
    let ghost rl = exp2(row_log_size as nat) as int;
    let ghost nr = exp2((total_log_size - row_log_size) as nat) as int;
    proof {
        exp2_is_pow2(row_log_size as nat);
        exp2_is_pow2((total_log_size - row_log_size) as nat);
        pow2_times(p.inverse_rate as int, row_log_size as nat);
        assert(rl <= p.inverse_rate * rl) by (nonlinear_arith)
            requires
                p.inverse_rate >= 2,
                rl >= 1,
        ;
    }
    let row_len: usize = power_of_two(row_log_size);
    let num_rows: usize = power_of_two(total_log_size - row_log_size);
    let codeword_len: usize = p.inverse_rate * row_len;
    let num_proximity_testing: usize = qapcs_num_proximity_testing(
        field_bits,
        codeword_len,
        p.security_bits,
    );
    let ghost q = num_column_opening as int;
    let ghost t = num_proximity_testing as int;
    proof {
        assert(0 <= q * nr && 0 <= (1 + t) * rl && 1 + t <= (1 + t) * rl) by (nonlinear_arith)
            requires
                q >= 0,
                nr >= 1,
                t >= 1,
                rl >= 1,
        ;
    }
    let field_elems: usize = (1 + num_proximity_testing) * row_len + num_column_opening * num_rows;
    let proof_proxy: usize = if p.optimize_for_bytes {
        let merkle_depth: usize = log2_power_of_two(codeword_len);
        proof {
            let d = merkle_depth as int;
            let hb = p.hash_bytes as int;
            let fb = p.field_bytes as int;
            let e = field_elems as int;
            assert(0 <= e * fb && 0 <= q * d && 0 <= q * d * hb) by (nonlinear_arith)
                requires
                    0 <= e,
                    0 <= fb,
                    0 <= q,
                    0 <= d,
                    0 <= hb,
            ;
            assert(hb >= 1 ==> q * d <= q * d * hb) by (nonlinear_arith)
                requires
                    0 <= q * d,
            ;
        }
        if p.hash_bytes == 0 {
            assert(q * log2(p.inverse_rate * rl) * 0 == 0) by (nonlinear_arith);
            field_elems * p.field_bytes
        } else {
            field_elems * p.field_bytes + num_column_opening * merkle_depth * p.hash_bytes
        }
    } else {
        field_elems
    };
    QAPCSShape {
        row_log_size,
        row_len,
        num_rows,
        codeword_len,
        num_column_opening,
        num_proximity_testing,
        proof_proxy,
    }
}

/// The first row length exponent of the search.
pub open spec fn first_candidate(p: QAPCSPolicy, total: int) -> int {
    if p.min_row_log_size <= total {
        p.min_row_log_size as int
    } else {
        total
    }
}

/// Every candidate of the search is defined.
pub open spec fn searchable(
    p: QAPCSPolicy,
    total: int,
    field_bits: int,
    queries: Seq<usize>,
) -> bool {
    &&& queries.len() > total
    &&& forall|r: int|
        first_candidate(p, total) <= r <= total ==> shape_fits(
            p,
            total,
            r,
            field_bits,
            #[trigger] queries[r] as int,
        )
}

/// The objective at a row length exponent.
pub open spec fn objective(
    p: QAPCSPolicy,
    total: int,
    r: int,
    field_bits: int,
    queries: Seq<usize>,
) -> int {
    let row_len = exp2(r as nat) as int;
    proxy_of(
        p,
        row_len,
        exp2((total - r) as nat) as int,
        proximity_tests(field_bits, p.inverse_rate * row_len, p.security_bits as int),
        queries[r] as int,
    )
}

/// `s` is the shape at `r`, the smallest exponent with the least objective.
pub open spec fn best_at(
    s: QAPCSShape,
    p: QAPCSPolicy,
    total: int,
    r: int,
    last: int,
    field_bits: int,
    queries: Seq<usize>,
) -> bool {
    &&& first_candidate(p, total) <= r <= last
    &&& is_shape(s, p, total, r, field_bits, queries[r] as int)
    &&& forall|c: int|
        first_candidate(p, total) <= c <= last ==> objective(p, total, r, field_bits, queries)
            <= #[trigger] objective(p, total, c, field_bits, queries)
    &&& forall|c: int|
        first_candidate(p, total) <= c < r ==> objective(p, total, r, field_bits, queries)
            < #[trigger] objective(p, total, c, field_bits, queries)
}

/// The best shape under a policy, where `queries[r]` is the number of column
/// openings that rows of `2^r` entries need.
pub fn search_shape(
    p: &QAPCSPolicy,
    total_log_size: usize,
    field_bits: usize,
    queries: &[usize],
) -> (s: QAPCSShape)
    requires
        searchable(*p, total_log_size as int, field_bits as int, queries@),
    ensures
        best_at(
            s,
            *p,
            total_log_size as int,
            s.row_log_size as int,
            total_log_size as int,
            field_bits as int,
            queries@,
        ),
{
    let first: usize = if p.min_row_log_size <= total_log_size {
        p.min_row_log_size
    } else {
        total_log_size
    };
    let ghost total = total_log_size as int;
    assert(shape_fits(*p, total, first as int, field_bits as int, queries@[first as int] as int));
    let mut best = qapcs_shape_score(p, total_log_size, first, field_bits, queries[first]);
    let mut r: usize = first;
    while r < total_log_size
        invariant
            first == first_candidate(*p, total),
            total == total_log_size,
            first <= r <= total_log_size,
            searchable(*p, total, field_bits as int, queries@),
            best_at(
                best,
                *p,
                total,
                best.row_log_size as int,
                r as int,
                field_bits as int,
                queries@,
            ),
            best.proof_proxy == objective(
                *p,
                total,
                best.row_log_size as int,
                field_bits as int,
                queries@,
            ),
        decreases total_log_size - r,
    {
        r = r + 1;
        assert(shape_fits(*p, total, r as int, field_bits as int, queries@[r as int] as int));
        let shape = qapcs_shape_score(p, total_log_size, r, field_bits, queries[r]);
        assert(shape.proof_proxy == objective(*p, total, r as int, field_bits as int, queries@));
        if shape.proof_proxy < best.proof_proxy {
            best = shape;
        }
    }
    best
}

/// Asks a policy for its answers.
pub fn policy_of<S: QAPCSSpec>(field_bits: usize) -> (p: QAPCSPolicy)
    ensures
        answers::<S>(p, field_bits),
{
    QAPCSPolicy {
        inverse_rate: S::inverse_rate(),
        security_bits: S::security_bits(),
        min_row_log_size: S::min_row_log_size(),
        optimize_for_bytes: S::optimize_for_bytes(),
        hash_bytes: S::hash_bytes(),
        field_bytes: S::field_bytes(field_bits),
    }
}

/// The best shape under the policy `S`, where `queries[r]` is the number of
/// column openings that rows of `2^r` entries need.
pub fn choose_qapcs_shape<S: QAPCSSpec>(
    total_log_size: usize,
    field_bits: usize,
    queries: &[usize],
) -> (s: QAPCSShape)
    requires
        forall|p: QAPCSPolicy| #[trigger]
            answers::<S>(p, field_bits) ==> searchable(
                p,
                total_log_size as int,
                field_bits as int,
                queries@,
            ),
    ensures
        exists|p: QAPCSPolicy| #[trigger]
            answers::<S>(p, field_bits) && best_at(
                s,
                p,
                total_log_size as int,
                s.row_log_size as int,
                total_log_size as int,
                field_bits as int,
                queries@,
            ),
{
    let p = policy_of::<S>(field_bits);
    search_shape(&p, total_log_size, field_bits, queries)
}

/// The default policy encodes at rate one half with a hundred bits of
/// security: the codewords of its best shape are twice as long as its rows.
pub proof fn default_policy_rate_half(
    p: QAPCSPolicy,
    field_bits: usize,
    s: QAPCSShape,
    total: int,
    queries: Seq<usize>,
)
    requires
        answers::<QAPCSSpecRateHalf100>(p, field_bits),
        best_at(s, p, total, s.row_log_size as int, total, field_bits as int, queries),
    ensures
        p.inverse_rate == 2,
        p.security_bits == 100,
        s.codeword_len == 2 * s.row_len,
{
}

} // verus!
