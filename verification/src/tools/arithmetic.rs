//! Scalars and public points.
//!
//! Scalars are the integers modulo `2^64`. The public point of a scalar is its
//! product with a fixed odd generator, which makes the map from scalars to
//! points additive and one-to-one. The group is a stand-in with the algebraic
//! shape the protocols rely on; it offers no secrecy.

use vstd::prelude::*;
use vstd::arithmetic::div_mod::*;
use vstd::arithmetic::mul::*;

verus! {

/// The generator of the group of public points. It is odd, hence invertible.
pub const GENERATOR: u64 = 0x9E37_79B9_7F4A_7C15;

/// The inverse of [`GENERATOR`] modulo `2^64`.
pub const GENERATOR_INVERSE: u64 = 0xF1DE_83E1_9937_733D;

/// The number of scalars.
pub open spec fn modulus() -> int {
    0x1_0000_0000_0000_0000
}

/// The scalar that an integer stands for.
pub open spec fn reduce(x: int) -> u64 {
    (x % modulus()) as u64
}

/// Sum of two scalars.
pub open spec fn spec_add(a: u64, b: u64) -> u64 {
    reduce(a + b)
}

/// Difference of two scalars.
pub open spec fn spec_sub(a: u64, b: u64) -> u64 {
    reduce(a - b)
}

/// Product of two scalars.
pub open spec fn spec_mul(a: u64, b: u64) -> u64 {
    reduce(a * b)
}

/// The public point of a scalar.
pub open spec fn spec_point(x: u64) -> u64 {
    spec_mul(x, GENERATOR)
}

/// Sum of a sequence of scalars, folded from the left.
pub open spec fn spec_sum(s: Seq<u64>) -> u64
    decreases s.len(),
{
    if s.len() == 0 {
        0
    } else {
        spec_add(spec_sum(s.drop_last()), s.last())
    }
}

/// The public points of a sequence of scalars, position by position.
pub open spec fn spec_points(s: Seq<u64>) -> Seq<u64> {
    Seq::new(s.len(), |i: int| spec_point(s[i]))
}

/// Every scalar, times a fixed scalar.
pub open spec fn spec_scaled(e: u64, s: Seq<u64>) -> Seq<u64> {
    Seq::new(s.len(), |i: int| spec_mul(e, s[i]))
}

/// Two sequences of scalars added position by position.
pub open spec fn spec_zip_add(a: Seq<u64>, b: Seq<u64>) -> Seq<u64>
    recommends
        a.len() == b.len(),
{
    Seq::new(a.len(), |i: int| spec_add(a[i], b[i]))
}

pub proof fn lemma_reduce_add(x: int, y: int)
    ensures
        reduce(reduce(x) + y) == reduce(x + y),
        reduce(x + reduce(y)) == reduce(x + y),
        reduce(reduce(x) + reduce(y)) == reduce(x + y),
{
    let m = modulus();
    lemma_add_mod_noop(x, y, m);
    lemma_add_mod_noop_right(x, y, m);
    lemma_add_mod_noop_right(y, x, m);
    lemma_mod_bound(x, m);
    lemma_mod_bound(y, m);
}

pub proof fn lemma_reduce_sub(x: int, y: int)
    ensures
        reduce(reduce(x) - y) == reduce(x - y),
        reduce(x - reduce(y)) == reduce(x - y),
{
    let m = modulus();
    lemma_sub_mod_noop(x, y, m);
    lemma_sub_mod_noop_right(x, y, m);
    lemma_mod_bound(x, m);
    lemma_mod_bound(y, m);
    lemma_add_mod_noop_right(-y, x, m);
    assert(reduce(x) - y == -y + (x % m));
    assert(x - y == -y + x);
}

pub proof fn lemma_reduce_mul(x: int, y: int)
    ensures
        reduce(reduce(x) * y) == reduce(x * y),
        reduce(x * reduce(y)) == reduce(x * y),
        reduce(reduce(x) * reduce(y)) == reduce(x * y),
{
    let m = modulus();
    lemma_mul_mod_noop_left(x, y, m);
    lemma_mul_mod_noop_right(x, y, m);
    lemma_mul_mod_noop_general(x, y, m);
    lemma_mod_bound(x, m);
    lemma_mod_bound(y, m);
}

/// Addition of scalars is commutative and associative, with zero as unit.
pub proof fn lemma_add_laws(a: u64, b: u64, c: u64)
    ensures
        spec_add(a, b) == spec_add(b, a),
        spec_add(spec_add(a, b), c) == spec_add(a, spec_add(b, c)),
        spec_add(a, 0) == a,
        spec_add(0, a) == a,
{
    assert(spec_add(a, b) == spec_add(b, a)) by {
        assert(a + b == b + a);
    }
    assert(spec_add(spec_add(a, b), c) == spec_add(a, spec_add(b, c))) by {
        lemma_reduce_add(a + b, c as int);
        lemma_reduce_add(a as int, b + c);
        assert((a + b) + c == a + (b + c));
    }
    assert(spec_add(a, 0) == a && spec_add(0, a) == a) by {
        lemma_small_mod(a as nat, modulus() as nat);
        assert(a + 0 == a && 0 + a == a);
    }
}

/// Subtraction undoes addition.
pub proof fn lemma_sub_laws(a: u64, b: u64)
    ensures
        spec_sub(spec_add(a, b), b) == a,
        spec_add(spec_sub(a, b), b) == a,
        spec_sub(a, a) == 0,
{
    lemma_reduce_sub(a + b, b as int);
    lemma_reduce_add(a - b, b as int);
}

/// Multiplication of scalars is commutative and associative, with one as unit.
pub proof fn lemma_mul_laws(a: u64, b: u64, c: u64)
    ensures
        spec_mul(a, b) == spec_mul(b, a),
        spec_mul(spec_mul(a, b), c) == spec_mul(a, spec_mul(b, c)),
        spec_mul(a, 1) == a,
        spec_mul(a, 0) == 0,
{
    lemma_mul_is_commutative(a as int, b as int);
    lemma_reduce_mul(a * b, c as int);
    lemma_reduce_mul(a as int, b * c);
    lemma_mul_is_associative(a as int, b as int, c as int);
    lemma_mul_basics(a as int);
}

/// Multiplication distributes over addition.
pub proof fn lemma_mul_distributes(a: u64, b: u64, c: u64)
    ensures
        spec_mul(a, spec_add(b, c)) == spec_add(spec_mul(a, b), spec_mul(a, c)),
        spec_mul(spec_add(b, c), a) == spec_add(spec_mul(b, a), spec_mul(c, a)),
{
    lemma_reduce_mul(a as int, b + c);
    lemma_reduce_add(a * b, a * c);
    lemma_mul_is_distributive_add(a as int, b as int, c as int);
    lemma_mul_laws(a, spec_add(b, c), 0);
    lemma_mul_laws(a, b, 0);
    lemma_mul_laws(a, c, 0);
}

/// The public point of a sum is the sum of the public points.
pub proof fn lemma_point_of_sum(a: u64, b: u64)
    ensures
        spec_point(spec_add(a, b)) == spec_add(spec_point(a), spec_point(b)),
{
    lemma_mul_distributes(GENERATOR, a, b);
}

/// Scaling a public point is the public point of the scaled scalar.
pub proof fn lemma_point_of_product(e: u64, x: u64)
    ensures
        spec_point(spec_mul(e, x)) == spec_mul(e, spec_point(x)),
{
    lemma_mul_laws(e, x, GENERATOR);
}

/// Multiplying a public point by the inverse generator gives the scalar back.
pub proof fn lemma_point_inverts(x: u64)
    ensures
        spec_mul(spec_point(x), GENERATOR_INVERSE) == x,
{
    let m = modulus();
    let k: int = 0x957B_BF35_006E_D677;
    assert(GENERATOR * GENERATOR_INVERSE == 1 + k * m) by {
        lemma_unit_product(k);
    }
    lemma_mul_laws(x, GENERATOR, GENERATOR_INVERSE);
    assert(spec_mul(GENERATOR, GENERATOR_INVERSE) == 1);
}

proof fn lemma_unit_product(k: int)
    requires
        k == 0x957B_BF35_006E_D677,
    ensures
        0x9E37_79B9_7F4A_7C15 * 0xF1DE_83E1_9937_733D == 1 + k * 0x1_0000_0000_0000_0000,
{
}

/// Distinct scalars have distinct public points.
pub proof fn lemma_point_injective(a: u64, b: u64)
    requires
        spec_point(a) == spec_point(b),
    ensures
        a == b,
{
    lemma_point_inverts(a);
    lemma_point_inverts(b);
}

/// The sum of a sequence extended by one scalar.
pub proof fn lemma_sum_push(s: Seq<u64>, x: u64)
    ensures
        spec_sum(s.push(x)) == spec_add(spec_sum(s), x),
{
    assert(s.push(x).drop_last() =~= s);
}

/// The public point of a sum of scalars is the sum of their public points.
pub proof fn lemma_point_of_sequence_sum(s: Seq<u64>)
    ensures
        spec_point(spec_sum(s)) == spec_sum(spec_points(s)),
    decreases s.len(),
{
    if s.len() == 0 {
        lemma_mul_laws(GENERATOR, 0, 0);
    } else {
        lemma_point_of_sequence_sum(s.drop_last());
        lemma_point_of_sum(spec_sum(s.drop_last()), s.last());
        assert(spec_points(s).drop_last() =~= spec_points(s.drop_last()));
    }
}

/// Scaling every scalar of a sequence scales its sum.
pub proof fn lemma_sum_of_scaled(e: u64, s: Seq<u64>)
    ensures
        spec_sum(spec_scaled(e, s)) == spec_mul(e, spec_sum(s)),
    decreases s.len(),
{
    if s.len() == 0 {
        lemma_mul_laws(e, 0, 0);
    } else {
        lemma_sum_of_scaled(e, s.drop_last());
        lemma_mul_distributes(e, spec_sum(s.drop_last()), s.last());
        assert(spec_scaled(e, s).drop_last() =~= spec_scaled(e, s.drop_last()));
    }
}

/// The sum of two sequences added position by position is the sum of their sums.
pub proof fn lemma_sum_of_zip(a: Seq<u64>, b: Seq<u64>)
    requires
        a.len() == b.len(),
    ensures
        spec_sum(spec_zip_add(a, b)) == spec_add(spec_sum(a), spec_sum(b)),
    decreases a.len(),
{
    if a.len() == 0 {
    } else {
        lemma_sum_of_zip(a.drop_last(), b.drop_last());
        assert(spec_zip_add(a, b).drop_last() =~= spec_zip_add(a.drop_last(), b.drop_last()));
        let sa = spec_sum(a.drop_last());
        let sb = spec_sum(b.drop_last());
        let x = a.last();
        let y = b.last();
        // (sa + sb) + (x + y) == (sa + x) + (sb + y)
        lemma_reduce_add(sa + sb, x + y);
        lemma_reduce_add(sa + x, sb + y);
    }
}

/// The sums of the rows of a table of scalars.
pub open spec fn spec_row_sums(table: Seq<Seq<u64>>) -> Seq<u64> {
    Seq::new(table.len(), |p: int| spec_sum(table[p]))
}

/// The sums of the first `width` columns of a table of scalars.
pub open spec fn spec_column_sums(table: Seq<Seq<u64>>, width: int) -> Seq<u64> {
    Seq::new(width as nat, |q: int| spec_sum(Seq::new(table.len(), |p: int| table[p][q])))
}

/// A sequence of zeros adds up to zero.
pub proof fn lemma_sum_of_zeros(s: Seq<u64>)
    requires
        forall|i: int| 0 <= i < s.len() ==> s[i] == 0,
    ensures
        spec_sum(s) == 0,
    decreases s.len(),
{
    if s.len() > 0 {
        lemma_sum_of_zeros(s.drop_last());
    }
}

/// Adding up a table by rows or by columns gives the same total.
pub proof fn lemma_sum_exchange(table: Seq<Seq<u64>>, width: int)
    requires
        0 <= width,
        forall|p: int| 0 <= p < table.len() ==> (#[trigger] table[p]).len() == width,
    ensures
        spec_sum(spec_column_sums(table, width)) == spec_sum(spec_row_sums(table)),
    decreases table.len(),
{
    let columns = spec_column_sums(table, width);
    if table.len() == 0 {
        assert forall|q: int| 0 <= q < columns.len() implies columns[q] == 0 by {
            assert(Seq::new(table.len(), |p: int| table[p][q]).len() == 0);
        }
        lemma_sum_of_zeros(columns);
        assert(spec_row_sums(table) =~= Seq::<u64>::empty());
    } else {
        let shorter = table.drop_last();
        let last = table.last();
        lemma_sum_exchange(shorter, width);
        let before = spec_column_sums(shorter, width);
        assert forall|q: int| 0 <= q < width implies columns[q] == spec_add(
            before[q],
            last[q],
        ) by {
            let column = Seq::new(table.len(), |p: int| table[p][q]);
            let column_before = Seq::new(shorter.len(), |p: int| shorter[p][q]);
            assert(column.drop_last() =~= column_before);
        }
        assert(columns =~= spec_zip_add(before, last));
        lemma_sum_of_zip(before, last);
        assert(spec_row_sums(table).drop_last() =~= spec_row_sums(shorter));
    }
}

/// Sum of two scalars.
pub fn scalar_add(a: u64, b: u64) -> (r: u64)
    ensures
        r == spec_add(a, b),
{
    a.wrapping_add(b)
}

/// Difference of two scalars.
pub fn scalar_sub(a: u64, b: u64) -> (r: u64)
    ensures
        r == spec_sub(a, b),
{
    a.wrapping_sub(b)
}

/// Product of two scalars.
pub fn scalar_mul(a: u64, b: u64) -> (r: u64)
    ensures
        r == spec_mul(a, b),
{
    a.wrapping_mul(b)
}

/// The public point of a scalar.
pub fn public_point(x: u64) -> (r: u64)
    ensures
        r == spec_point(x),
{
    scalar_mul(x, GENERATOR)
}

/// Sum of the scalars of a vector.
pub fn scalar_sum(values: &Vec<u64>) -> (r: u64)
    ensures
        r == spec_sum(values@),
{
    let mut total: u64 = 0;
    let mut i: usize = 0;
    while i < values.len()
        invariant
            i <= values.len(),
            total == spec_sum(values@.take(i as int)),
        decreases values.len() - i,
    {
        proof {
            assert(values@.take(i + 1) =~= values@.take(i as int).push(values@[i as int]));
            lemma_sum_push(values@.take(i as int), values@[i as int]);
        }
        total = scalar_add(total, values[i]);
        i = i + 1;
    }
    proof {
        assert(values@.take(i as int) =~= values@);
    }
    total
}

} // verus!
