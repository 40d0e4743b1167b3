//! The cross product of the fixtures' parameter sets.
//!
//! A test names its fixtures in order. Fixture `j` brings `sizes[j]` parameter
//! tuples, and the test runs once for every way of picking one tuple per
//! fixture. The combinations are numbered as nested loops would visit them:
//! the first fixture is the outermost loop and varies slowest, the last
//! fixture is the innermost loop and varies fastest.

use vstd::prelude::*;
use vstd::arithmetic::div_mod::{
    lemma_basic_div, lemma_div_denominator, lemma_fundamental_div_mod,
    lemma_fundamental_div_mod_converse, lemma_small_mod,
};
use vstd::arithmetic::mul::{
    lemma_mul_inequality, lemma_mul_is_commutative, lemma_mul_strictly_positive,
};

verus! {

/// The number of combinations: the product of all sizes, 1 for no fixtures.
pub open spec fn product(sizes: Seq<usize>) -> nat
    decreases sizes.len(),
{
    if sizes.len() == 0 {
        1
    } else {
        product(sizes.drop_last()) * (sizes.last() as nat)
    }
}

/// How many consecutive combinations keep the tuple of the fixture at
/// `position`: the product of the sizes that follow it.
pub open spec fn stride(sizes: Seq<usize>, position: int) -> nat {
    product(sizes.skip(position + 1))
}

/// The tuple that combination `index` picks for the fixture at `position`.
pub open spec fn pick(sizes: Seq<usize>, index: nat, position: int) -> nat {
    (index / stride(sizes, position)) % (sizes[position] as nat)
}

/// Combination `index`: one pick per fixture, in declared order.
pub open spec fn picks(sizes: Seq<usize>, index: nat) -> Seq<usize> {
    Seq::new(sizes.len(), |position: int| pick(sizes, index, position) as usize)
}

/// `chosen` picks an existing tuple for every fixture.
pub open spec fn within(sizes: Seq<usize>, chosen: Seq<usize>) -> bool {
    &&& chosen.len() == sizes.len()
    &&& forall|position: int| 0 <= position < sizes.len() ==> chosen[position] < sizes[position]
}

/// The number of the combination `chosen`, counted from 0.
pub open spec fn rank(sizes: Seq<usize>, chosen: Seq<usize>) -> nat
    decreases sizes.len(),
{
    if sizes.len() == 0 {
        0
    } else {
        rank(sizes.drop_last(), chosen.drop_last()) * (sizes.last() as nat) + (
        chosen.last() as nat)
    }
}

/// A product is positive exactly when no factor is zero.
pub proof fn lemma_product_positive(sizes: Seq<usize>)
    ensures
        product(sizes) > 0 <==> forall|position: int|
            0 <= position < sizes.len() ==> sizes[position] > 0,
    decreases sizes.len(),
{
    if sizes.len() > 0 {
        let front = sizes.drop_last();
        lemma_product_positive(front);
        assert forall|position: int| 0 <= position < front.len() implies front[position]
            == sizes[position] by {}
        if product(front) > 0 && sizes.last() > 0 {
            lemma_mul_strictly_positive(product(front) as int, sizes.last() as int);
            assert forall|position: int| 0 <= position < sizes.len() implies sizes[position]
                > 0 by {
                if position < front.len() {
                    assert(front[position] > 0);
                }
            }
        } else {
            assert(product(sizes) == 0) by (nonlinear_arith)
                requires
                    product(sizes) == product(front) * (sizes.last() as nat),
                    product(front) == 0 || sizes.last() == 0,
            ;
            if product(front) == 0 {
                let bad = choose|position: int|
                    0 <= position < front.len() && !(front[position] > 0);
                assert(!(sizes[bad] > 0));
            }
        }
    }
}

/// Every stride of a positive product is positive, and dropping the last
/// fixture divides the strides before it by that fixture's size.
proof fn lemma_stride_unfold(sizes: Seq<usize>, position: int)
    requires
        0 <= position < sizes.len(),
    ensures
        position == sizes.len() - 1 ==> stride(sizes, position) == 1,
        position < sizes.len() - 1 ==> stride(sizes, position) == stride(
            sizes.drop_last(),
            position,
        ) * (sizes.last() as nat),
        product(sizes) > 0 ==> stride(sizes, position) > 0,
{
    let tail = sizes.skip(position + 1);
    if position == sizes.len() - 1 {
        assert(tail.len() == 0);
    } else {
        assert(tail.drop_last() =~= sizes.drop_last().skip(position + 1));
        assert(tail.last() == sizes.last());
    }
    if product(sizes) > 0 {
        lemma_product_positive(sizes);
        lemma_product_positive(tail);
        assert forall|at: int| 0 <= at < tail.len() implies tail[at] > 0 by {
            assert(tail[at] == sizes[position + 1 + at]);
        }
    }
}

/// The last fixture is the innermost loop: combination `index` is
/// combination `index / m` of the fixtures before the last one, followed by
/// the pick `index % m`, where `m` is the size of the last fixture's
/// parameter set.
pub proof fn lemma_last_fixture_innermost(sizes: Seq<usize>, index: nat)
    requires
        sizes.len() > 0,
        index < product(sizes),
    ensures
        index / (sizes.last() as nat) < product(sizes.drop_last()),
        picks(sizes, index) == picks(sizes.drop_last(), index / (sizes.last() as nat)).push(
            (index % (sizes.last() as nat)) as usize,
        ),
{
    let front = sizes.drop_last();
    let m = sizes.last() as nat;
    let q = index / m;
    lemma_product_positive(sizes);
    lemma_product_positive(front);
    assert(m > 0);
    assert(q < product(front)) by {
        lemma_fundamental_div_mod(index as int, m as int);
        if q >= product(front) {
            lemma_mul_inequality(product(front) as int, q as int, m as int);
            lemma_mul_is_commutative(q as int, m as int);
        }
    }
    assert(product(front) > 0);
    let unfolded = picks(front, q).push((index % m) as usize);
    assert forall|position: int| 0 <= position < sizes.len() implies picks(
        sizes,
        index,
    )[position] == unfolded[position] by {
        lemma_stride_unfold(sizes, position);
        if position < sizes.len() - 1 {
            lemma_stride_unfold(front, position);
            let w = stride(front, position);
            lemma_div_denominator(index as int, m as int, w as int);
            lemma_mul_is_commutative(m as int, w as int);
            assert(front[position] == sizes[position]);
            assert(pick(sizes, index, position) == pick(front, q, position));
        } else {
            assert(index / 1 == index);
        }
    }
    assert(picks(sizes, index) =~= unfolded);
}

/// A combination that picks existing tuples has a number below the product.
pub proof fn lemma_rank_bound(sizes: Seq<usize>, chosen: Seq<usize>)
    requires
        within(sizes, chosen),
    ensures
        rank(sizes, chosen) < product(sizes),
    decreases sizes.len(),
{
    if sizes.len() > 0 {
        let front = sizes.drop_last();
        let m = sizes.last() as nat;
        lemma_rank_bound(front, chosen.drop_last());
        let r = rank(front, chosen.drop_last());
        assert(r * m + chosen.last() < product(front) * m) by (nonlinear_arith)
            requires
                r < product(front),
                chosen.last() < m,
        ;
    }
}

/// Numbering a combination and looking that number up gives it back.
pub proof fn lemma_picks_of_rank(sizes: Seq<usize>, chosen: Seq<usize>)
    requires
        within(sizes, chosen),
    ensures
        rank(sizes, chosen) < product(sizes),
        picks(sizes, rank(sizes, chosen)) == chosen,
    decreases sizes.len(),
{
    lemma_rank_bound(sizes, chosen);
    if sizes.len() == 0 {
        assert(picks(sizes, rank(sizes, chosen)) =~= chosen);
    } else {
        let front = sizes.drop_last();
        let m = sizes.last() as nat;
        let r = rank(front, chosen.drop_last());
        let index = rank(sizes, chosen);
        lemma_picks_of_rank(front, chosen.drop_last());
        lemma_last_fixture_innermost(sizes, index);
        lemma_fundamental_div_mod_converse(index as int, m as int, r as int, chosen.last() as int);
        assert(picks(front, r).push(chosen.last()) =~= chosen);
    }
}

/// Every number below the product names a combination of existing tuples,
/// and that combination has this number.
pub proof fn lemma_rank_of_picks(sizes: Seq<usize>, index: nat)
    requires
        index < product(sizes),
    ensures
        within(sizes, picks(sizes, index)),
        rank(sizes, picks(sizes, index)) == index,
    decreases sizes.len(),
{
    if sizes.len() > 0 {
        let front = sizes.drop_last();
        let m = sizes.last() as nat;
        lemma_last_fixture_innermost(sizes, index);
        lemma_rank_of_picks(front, index / m);
        lemma_product_positive(sizes);
        lemma_fundamental_div_mod(index as int, m as int);
        lemma_mul_is_commutative(m as int, (index / m) as int);
        let unfolded = picks(front, index / m).push((index % m) as usize);
        assert(unfolded.drop_last() =~= picks(front, index / m));
        assert(unfolded.last() == (index % m) as usize);
        assert(index % m < m);
        assert forall|position: int| 0 <= position < sizes.len() implies unfolded[position]
            < sizes[position] by {
            if position < front.len() {
                assert(unfolded[position] == picks(front, index / m)[position]);
                assert(front[position] == sizes[position]);
            }
        }
    }
}

/// The first fixture is the outermost loop: its pick changes only after all
/// combinations of the other fixtures have passed, and goes through its
/// tuples once, in order.
pub proof fn lemma_first_fixture_outermost(sizes: Seq<usize>, index: nat)
    requires
        sizes.len() > 0,
        index < product(sizes),
    ensures
        stride(sizes, 0) > 0,
        pick(sizes, index, 0) == index / stride(sizes, 0),
        product(sizes) == (sizes[0] as nat) * stride(sizes, 0),
{
    let rest = stride(sizes, 0);
    let first = sizes[0] as nat;
    lemma_product_skip(sizes, 0);
    assert(sizes.skip(0) =~= sizes);
    lemma_product_positive(sizes);
    lemma_product_positive(sizes.skip(1));
    assert forall|at: int| 0 <= at < sizes.skip(1).len() implies sizes.skip(1)[at] > 0 by {
        assert(sizes.skip(1)[at] == sizes[at + 1]);
    }
    let q = index / rest;
    assert(q < first) by {
        lemma_fundamental_div_mod(index as int, rest as int);
        if q >= first {
            lemma_mul_inequality(first as int, q as int, rest as int);
            lemma_mul_is_commutative(q as int, rest as int);
        }
    }
    lemma_small_mod(q, first);
}

/// Different numbers below the product name different combinations, so the
/// numbers `0 .. product` and the combinations of existing tuples match one to
/// one.
pub proof fn lemma_combinations_distinct(sizes: Seq<usize>, first: nat, second: nat)
    requires
        first < product(sizes),
        second < product(sizes),
        first != second,
    ensures
        picks(sizes, first) != picks(sizes, second),
{
    lemma_rank_of_picks(sizes, first);
    lemma_rank_of_picks(sizes, second);
}

/// Fixtures that bring one tuple each, as a fixture without parameters does,
/// give exactly one combination, and it picks that one tuple everywhere.
pub proof fn lemma_single_tuples(sizes: Seq<usize>)
    requires
        forall|position: int| 0 <= position < sizes.len() ==> sizes[position] == 1,
    ensures
        product(sizes) == 1,
        picks(sizes, 0) == Seq::new(sizes.len(), |position: int| 0usize),
    decreases sizes.len(),
{
    let zeros = Seq::new(sizes.len(), |position: int| 0usize);
    if sizes.len() > 0 {
        let front = sizes.drop_last();
        lemma_single_tuples(front);
        assert(product(sizes) == 1) by (nonlinear_arith)
            requires
                product(sizes) == product(front) * (sizes.last() as nat),
                product(front) == 1,
                sizes.last() == 1,
        ;
        lemma_last_fixture_innermost(sizes, 0);
        assert(0nat / 1 == 0 && 0nat % 1 == 0);
        assert(picks(front, 0).push(0usize) =~= zeros);
    } else {
        assert(picks(sizes, 0) =~= zeros);
    }
}

/// Two fixtures with `outer` and `inner` tuples give `outer * inner`
/// combinations, and combination `index` takes tuple `index / inner` of the
/// first fixture and tuple `index % inner` of the second.
pub proof fn lemma_two_fixtures(outer: usize, inner: usize, index: nat)
    ensures
        product(seq![outer, inner]) == outer * inner,
        index < outer * inner ==> picks(seq![outer, inner], index) == seq![
            (index / (inner as nat)) as usize,
            (index % (inner as nat)) as usize,
        ],
{
    let sizes = seq![outer, inner];
    let front = sizes.drop_last();
    assert(front =~= seq![outer]);
    assert(front.drop_last() =~= Seq::<usize>::empty());
    assert(product(front.drop_last()) == 1);
    assert(product(front) == outer) by (nonlinear_arith)
        requires
            product(front) == product(front.drop_last()) * (outer as nat),
            product(front.drop_last()) == 1,
    ;
    assert(product(sizes) == outer * inner);
    if index < outer * inner {
        let q = index / (inner as nat);
        lemma_last_fixture_innermost(sizes, index);
        lemma_last_fixture_innermost(front, q);
        assert(q < outer);
        assert(q / (outer as nat) == 0) by {
            lemma_basic_div(q as int, outer as int);
        }
        assert(q % (outer as nat) == q) by {
            lemma_small_mod(q, outer as nat);
        }
        assert(picks(front.drop_last(), 0) =~= Seq::<usize>::empty());
        assert(picks(sizes, index) =~= seq![q as usize, (index % (inner as nat)) as usize]);
    }
}

/// The product of the sizes from `position` on is the size at `position`
/// times the product of the sizes after it.
proof fn lemma_product_skip(sizes: Seq<usize>, position: int)
    requires
        0 <= position < sizes.len(),
    ensures
        product(sizes.skip(position)) == (sizes[position] as nat) * product(
            sizes.skip(position + 1),
        ),
    decreases sizes.len(),
{
    let here = sizes.skip(position);
    let after = sizes.skip(position + 1);
    if position == sizes.len() - 1 {
        assert(here.drop_last() =~= Seq::<usize>::empty());
        assert(after =~= Seq::<usize>::empty());
        assert(product(here) == (sizes[position] as nat) * product(after)) by (nonlinear_arith)
            requires
                product(here) == product(here.drop_last()) * (sizes[position] as nat),
                product(here.drop_last()) == 1,
                product(after) == 1,
        ;
    } else {
        let front = sizes.drop_last();
        lemma_product_skip(front, position);
        assert(here.drop_last() =~= front.skip(position));
        assert(after.drop_last() =~= front.skip(position + 1));
        assert(here.last() == sizes.last() && after.last() == sizes.last());
        assert(front[position] == sizes[position]);
        let a = sizes[position] as nat;
        let b = product(front.skip(position + 1));
        let m = sizes.last() as nat;
        assert((a * b) * m == a * (b * m)) by (nonlinear_arith);
    }
}

/// With no empty parameter set among them, the product of the first few sizes
/// never exceeds the product of all.
proof fn lemma_prefix_product(sizes: Seq<usize>, count: int)
    requires
        0 <= count <= sizes.len(),
        forall|position: int| 0 <= position < sizes.len() ==> sizes[position] > 0,
    ensures
        product(sizes.take(count)) <= product(sizes),
    decreases sizes.len() - count,
{
    if count == sizes.len() {
        assert(sizes.take(count) =~= sizes);
    } else {
        lemma_prefix_product(sizes, count + 1);
        let longer = sizes.take(count + 1);
        assert(longer.drop_last() =~= sizes.take(count));
        assert(longer.last() == sizes[count]);
        assert(product(sizes.take(count)) <= product(longer)) by (nonlinear_arith)
            requires
                product(longer) == product(sizes.take(count)) * (sizes[count] as nat),
                sizes[count] > 0,
        ;
    }
}

/// Combination 0 picks the first tuple of every fixture.
proof fn lemma_zero_is_first(sizes: Seq<usize>)
    requires
        product(sizes) > 0,
    ensures
        picks(sizes, 0) == Seq::new(sizes.len(), |position: int| 0usize),
{
    let zeros = Seq::new(sizes.len(), |position: int| 0usize);
    lemma_product_positive(sizes);
    assert(within(sizes, zeros));
    lemma_rank_zero(sizes, zeros);
    lemma_picks_of_rank(sizes, zeros);
}

/// The combination that picks the first tuple everywhere has number 0.
proof fn lemma_rank_zero(sizes: Seq<usize>, chosen: Seq<usize>)
    requires
        chosen.len() == sizes.len(),
        forall|position: int| 0 <= position < chosen.len() ==> chosen[position] == 0,
    ensures
        rank(sizes, chosen) == 0,
    decreases sizes.len(),
{
    if sizes.len() > 0 {
        lemma_rank_zero(sizes.drop_last(), chosen.drop_last());
        assert(0 * (sizes.last() as nat) == 0) by (nonlinear_arith);
    }
}

/// The combination that picks the last tuple everywhere has the last number.
proof fn lemma_rank_last(sizes: Seq<usize>, chosen: Seq<usize>)
    requires
        chosen.len() == sizes.len(),
        forall|position: int|
            0 <= position < chosen.len() ==> chosen[position] + 1 == sizes[position],
    ensures
        rank(sizes, chosen) + 1 == product(sizes),
    decreases sizes.len(),
{
    if sizes.len() > 0 {
        let front = sizes.drop_last();
        lemma_rank_last(front, chosen.drop_last());
        let r = rank(front, chosen.drop_last());
        let m = sizes.last() as nat;
        assert(r * m + (m - 1) + 1 == (r + 1) * m) by (nonlinear_arith);
    }
}

/// Raising the pick at `position` by one and resetting the picks after it,
/// all of which stood on their last tuple, gives the next combination.
proof fn lemma_rank_step(sizes: Seq<usize>, before: Seq<usize>, after: Seq<usize>, position: int)
    requires
        within(sizes, before),
        after.len() == sizes.len(),
        0 <= position < sizes.len(),
        forall|at: int| 0 <= at < position ==> after[at] == before[at],
        after[position] == before[position] + 1,
        after[position] < sizes[position],
        forall|at: int|
            position < at < sizes.len() ==> after[at] == 0 && before[at] + 1 == sizes[at],
    ensures
        within(sizes, after),
        rank(sizes, after) == rank(sizes, before) + 1,
    decreases sizes.len(),
{
    let front = sizes.drop_last();
    let m = sizes.last() as nat;
    if position == sizes.len() - 1 {
        assert(after.drop_last() =~= before.drop_last());
    } else {
        lemma_rank_step(front, before.drop_last(), after.drop_last(), position);
        let r = rank(front, before.drop_last());
        assert((r + 1) * m + 0 == r * m + (m - 1) + 1) by (nonlinear_arith);
    }
    assert forall|at: int| 0 <= at < sizes.len() implies after[at] < sizes[at] by {
        if at < position {
            assert(after[at] == before[at]);
        }
    }
}

/// The number of combinations, or `None` when it does not fit in a `usize`.
pub fn invocation_count(sizes: &Vec<usize>) -> (count: Option<usize>)
    ensures
        count matches Some(n) ==> n == product(sizes@),
        count is None <==> product(sizes@) > usize::MAX,
{
    let mut position: usize = 0;
    while position < sizes.len()
        invariant
            position <= sizes.len(),
            forall|before: int| 0 <= before < position ==> sizes[before] > 0,
        decreases sizes.len() - position,
    {
        if sizes[position] == 0 {
            proof {
                lemma_product_positive(sizes@);
            }
            return Some(0);
        }
        position += 1;
    }
    let mut total: usize = 1;
    position = 0;
    assert(sizes@.take(0) =~= Seq::<usize>::empty());
    while position < sizes.len()
        invariant
            position <= sizes.len(),
            forall|at: int| 0 <= at < sizes.len() ==> sizes[at] > 0,
            total == product(sizes@.take(position as int)),
        decreases sizes.len() - position,
    {
        proof {
            let longer = sizes@.take(position + 1);
            assert(longer.drop_last() =~= sizes@.take(position as int));
            assert(longer.last() == sizes[position as int]);
            lemma_prefix_product(sizes@, position + 1);
        }
        match total.checked_mul(sizes[position]) {
            Some(larger) => {
                total = larger;
            },
            None => {
                return None;
            },
        }
        position += 1;
    }
    assert(sizes@.take(position as int) =~= sizes@);
    Some(total)
}

/// Combination `index`, or `None` when there are not that many.
pub fn invocation_at(sizes: &Vec<usize>, index: usize) -> (chosen: Option<Vec<usize>>)
    ensures
        chosen matches Some(found) ==> found@ == picks(sizes@, index as nat),
        chosen is Some <==> index < product(sizes@),
{
    let fixtures = sizes.len();
    let mut found: Vec<usize> = Vec::new();
    let mut length: usize = 0;
    while length < fixtures
        invariant
            length <= fixtures,
            found.len() == length,
        decreases fixtures - length,
    {
        found.push(0);
        length += 1;
    }
    let mut rest: usize = index;
    let mut position: usize = fixtures;
    assert(sizes@.skip(position as int) =~= Seq::<usize>::empty());
    while position > 0
        invariant
            position <= fixtures,
            fixtures == sizes.len(),
            found.len() == fixtures,
            product(sizes@.skip(position as int)) > 0,
            rest == (index as nat) / product(sizes@.skip(position as int)),
            forall|at: int|
                position <= at < fixtures ==> found[at] == pick(sizes@, index as nat, at),
        decreases position,
    {
        position -= 1;
        let size = sizes[position];
        if size == 0 {
            proof {
                lemma_product_positive(sizes@);
            }
            return None;
        }
        proof {
            let after = product(sizes@.skip(position + 1));
            lemma_product_skip(sizes@, position as int);
            lemma_div_denominator(index as int, after as int, size as int);
            lemma_mul_is_commutative(after as int, size as int);
            lemma_mul_strictly_positive(size as int, after as int);
        }
        found.set(position, rest % size);
        rest = rest / size;
    }
    proof {
        assert(sizes@.skip(0) =~= sizes@);
        let all = product(sizes@);
        lemma_fundamental_div_mod(index as int, all as int);
        if index < all {
            lemma_basic_div(index as int, all as int);
        } else {
            assert(rest > 0) by (nonlinear_arith)
                requires
                    index == all * rest + (index as nat) % all,
                    (index as nat) % all < all,
                    index >= all,
                    all > 0,
            ;
        }
    }
    if rest > 0 {
        return None;
    }
    assert(found@ =~= picks(sizes@, index as nat));
    Some(found)
}

/// All combinations in order, or `None` when their number does not fit in a
/// `usize`.
pub fn expand(sizes: &Vec<usize>) -> (invocations: Option<Vec<Vec<usize>>>)
    ensures
        invocations matches Some(all) ==> {
            &&& all.len() == product(sizes@)
            &&& forall|index: int|
                0 <= index < all.len() ==> all[index]@ == picks(sizes@, index as nat)
        },
        invocations is None <==> product(sizes@) > usize::MAX,
{
    let count = match invocation_count(sizes) {
        Some(count) => count,
        None => {
            return None;
        },
    };
    let mut all: Vec<Vec<usize>> = Vec::new();
    let mut index: usize = 0;
    while index < count
        invariant
            index <= count,
            count == product(sizes@),
            all.len() == index,
            forall|before: int|
                0 <= before < index ==> all[before]@ == picks(sizes@, before as nat),
        decreases count - index,
    {
        let chosen = invocation_at(sizes, index);
        all.push(chosen.unwrap());
        index += 1;
    }
    Some(all)
}

/// A cursor over the combinations, in order, that never holds more than one
/// of them. Unlike [`expand`] it has no limit on how many there are.
pub struct Expansion {
    sizes: Vec<usize>,
    chosen: Vec<usize>,
    exhausted: bool,
    passed: Ghost<nat>,
}

impl Expansion {
    /// The cursor stands on a combination of existing tuples, or past the
    /// last one.
    pub closed spec fn wf(&self) -> bool {
        &&& self.passed@ <= product(self.sizes@)
        &&& self.exhausted <==> self.passed@ == product(self.sizes@)
        &&& !self.exhausted ==> self.chosen@ == picks(self.sizes@, self.passed@)
    }

    /// The sizes of the parameter sets, in declared order.
    pub closed spec fn sizes(&self) -> Seq<usize> {
        self.sizes@
    }

    /// The number of the combination the cursor stands on, which is also the
    /// number of combinations it has left behind.
    pub closed spec fn index(&self) -> nat {
        self.passed@
    }

    /// A cursor on combination 0, or past the end when there is none.
    pub fn start(sizes: Vec<usize>) -> (cursor: Expansion)
        ensures
            cursor.wf(),
            cursor.sizes() == sizes@,
            cursor.index() == 0,
    {
        let mut chosen: Vec<usize> = Vec::new();
        let mut exhausted = false;
        let mut position: usize = 0;
        while position < sizes.len()
            invariant
                position <= sizes.len(),
                chosen.len() == position,
                forall|at: int| 0 <= at < position ==> chosen[at] == 0,
                !exhausted ==> forall|at: int| 0 <= at < position ==> sizes[at] > 0,
                exhausted ==> exists|at: int| 0 <= at < sizes.len() && sizes[at] == 0,
            decreases sizes.len() - position,
        {
            if sizes[position] == 0 {
                exhausted = true;
            }
            chosen.push(0);
            position += 1;
        }
        proof {
            lemma_product_positive(sizes@);
            if !exhausted {
                lemma_rank_of_picks(sizes@, 0);
                lemma_zero_is_first(sizes@);
                assert(chosen@ =~= picks(sizes@, 0));
            }
        }
        Expansion { sizes, chosen, exhausted, passed: Ghost(0) }
    }

    /// The number of fixtures.
    pub fn fixtures(&self) -> (fixtures: usize)
        ensures
            fixtures == self.sizes().len(),
    {
        self.sizes.len()
    }

    /// The combination the cursor stands on, `None` past the last one.
    pub fn current(&self) -> (chosen: Option<&Vec<usize>>)
        requires
            self.wf(),
        ensures
            chosen matches Some(found) ==> found@ == picks(self.sizes(), self.index()),
            chosen is Some <==> self.index() < product(self.sizes()),
    {
        if self.exhausted {
            None
        } else {
            Some(&self.chosen)
        }
    }

    /// Steps to the next combination; past the last one, stays there.
    pub fn advance(&mut self)
        requires
            old(self).wf(),
        ensures
            final(self).wf(),
            final(self).sizes() == old(self).sizes(),
            final(self).index() == if old(self).index() < product(old(self).sizes()) {
                old(self).index() + 1
            } else {
                old(self).index()
            },
    {
        if self.exhausted {
            return ;
        }
        let ghost before = self.chosen@;
        let ghost index = self.passed@;
        proof {
            lemma_rank_of_picks(self.sizes@, index);
        }
        let mut position: usize = self.sizes.len();
        let mut carried = true;
        while carried && position > 0
            invariant
                position <= self.sizes.len(),
                self.sizes == old(self).sizes,
                self.chosen.len() == self.sizes.len(),
                within(self.sizes@, before),
                carried ==> forall|at: int| 0 <= at < position ==> self.chosen[at] == before[at],
                carried ==> forall|at: int|
                    position <= at < self.sizes.len() ==> self.chosen[at] == 0 && before[at] + 1
                        == self.sizes[at],
                !carried ==> within(self.sizes@, self.chosen@) && rank(self.sizes@, self.chosen@)
                    == rank(self.sizes@, before) + 1,
            decreases position,
        {
            position -= 1;
            assert(self.chosen[position as int] == before[position as int]);
            assert(before[position as int] < self.sizes[position as int]);
            if self.chosen[position] + 1 < self.sizes[position] {
                let next = self.chosen[position] + 1;
                self.chosen.set(position, next);
                carried = false;
                proof {
                    lemma_rank_step(self.sizes@, before, self.chosen@, position as int);
                }
            } else {
                self.chosen.set(position, 0);
            }
        }
        proof {
            if carried {
                lemma_rank_last(self.sizes@, before);
                assert(index + 1 == product(self.sizes@));
            } else {
                lemma_picks_of_rank(self.sizes@, self.chosen@);
            }
        }
        self.exhausted = carried;
        self.passed = Ghost((index + 1) as nat);
    }
}

} // verus!
