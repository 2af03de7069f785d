//! EMT state-space exports: the discretization setting and the assembly of a
//! channel's real sections into a block-diagonal companion realization.

use vstd::prelude::*;

use crate::dims::state_space_sizes_ok;
use crate::shape::{flatten, lemma_flatten_push};

verus! {

/// Continuous-to-discrete transform used for EMT state-space export.
#[derive(Debug, Clone, Copy, PartialEq, Eq, Structural)]
pub enum DiscretizationMethod {
    BackwardEuler,
    Tustin,
}

/// One real section of a channel, given by the entries of its companion block.
///
/// A first-order section `r / (s - p)` contributes the `1 x 1` block `[p]` with
/// input `1` and output `r`. A second-order section
/// `(b1 s + b0) / (s^2 + a1 s + a0)` contributes the block `[[0, 1], [-a0, -a1]]`
/// with input `[0, 1]` and output `[b0, b1]`.
#[derive(Debug)]
pub enum SectionBlock<T> {
    First { pole: T, residue: T },
    Second { neg_a0: T, neg_a1: T, b0: T, b1: T },
}

/// The number of states a section adds.
pub open spec fn block_order<T>(s: SectionBlock<T>) -> nat {
    match s {
        SectionBlock::First { .. } => 1,
        SectionBlock::Second { .. } => 2,
    }
}

/// The number of states of a chain of sections.
pub open spec fn state_count<T>(blocks: Seq<SectionBlock<T>>) -> nat
    decreases blocks.len(),
{
    if blocks.len() == 0 {
        0
    } else {
        state_count(blocks.drop_last()) + block_order(blocks.last())
    }
}

/// A row of length `n` holding `x` at column `at` and `zero` elsewhere.
pub open spec fn unit_row<T>(n: nat, zero: T, at: int, x: T) -> Seq<T> {
    Seq::new(n, |j: int| if j == at { x } else { zero })
}

/// A row of length `n` holding `x` at column `at`, `y` at `at + 1` and `zero` elsewhere.
pub open spec fn pair_row<T>(n: nat, zero: T, at: int, x: T, y: T) -> Seq<T> {
    Seq::new(n, |j: int| if j == at { x } else if j == at + 1 { y } else { zero })
}

/// The rows of `A` that a section starting at state `o` contributes.
pub open spec fn block_rows<T>(s: SectionBlock<T>, n: nat, zero: T, one: T, o: int) -> Seq<Seq<T>> {
    match s {
        SectionBlock::First { pole, .. } => seq![unit_row(n, zero, o, pole)],
        SectionBlock::Second { neg_a0, neg_a1, .. } => seq![
            unit_row(n, zero, o + 1, one),
            pair_row(n, zero, o, neg_a0, neg_a1),
        ],
    }
}

/// The entries of `B` that a section contributes.
pub open spec fn block_b<T>(s: SectionBlock<T>, zero: T, one: T) -> Seq<T> {
    match s {
        SectionBlock::First { .. } => seq![one],
        SectionBlock::Second { .. } => seq![zero, one],
    }
}

/// The entries of `C` that a section contributes.
pub open spec fn block_c<T>(s: SectionBlock<T>) -> Seq<T> {
    match s {
        SectionBlock::First { residue, .. } => seq![residue],
        SectionBlock::Second { b0, b1, .. } => seq![b0, b1],
    }
}

/// The rows of the block-diagonal `A` of width `n`: each section's block placed at
/// the states after those of the sections before it.
pub open spec fn companion_rows<T>(blocks: Seq<SectionBlock<T>>, n: nat, zero: T, one: T) -> Seq<Seq<T>>
    decreases blocks.len(),
{
    if blocks.len() == 0 {
        seq![]
    } else {
        companion_rows(blocks.drop_last(), n, zero, one) + block_rows(
            blocks.last(),
            n,
            zero,
            one,
            state_count(blocks.drop_last()) as int,
        )
    }
}

/// The input vector `B`, section by section.
pub open spec fn companion_b<T>(blocks: Seq<SectionBlock<T>>, zero: T, one: T) -> Seq<T>
    decreases blocks.len(),
{
    if blocks.len() == 0 {
        seq![]
    } else {
        companion_b(blocks.drop_last(), zero, one) + block_b(blocks.last(), zero, one)
    }
}

/// The output vector `C`, section by section.
pub open spec fn companion_c<T>(blocks: Seq<SectionBlock<T>>) -> Seq<T>
    decreases blocks.len(),
{
    if blocks.len() == 0 {
        seq![]
    } else {
        companion_c(blocks.drop_last()) + block_c(blocks.last())
    }
}

/// A single-input single-output realization: `A` row-major with `n_states` rows and
/// columns, `B` and `C` of length `n_states`.
#[derive(Debug)]
pub struct StateSpaceParts<T> {
    pub a: Vec<T>,
    pub n_states: usize,
    pub b: Vec<T>,
    pub c: Vec<T>,
}

proof fn lemma_state_count_prefix<T>(blocks: Seq<SectionBlock<T>>, k: int)
    requires
        0 <= k <= blocks.len(),
    ensures
        state_count(blocks.take(k)) <= state_count(blocks),
    decreases blocks.len() - k,
{
    if k < blocks.len() {
        lemma_state_count_prefix(blocks, k + 1);
        assert(blocks.take(k + 1).drop_last() == blocks.take(k));
    } else {
        assert(blocks.take(k) == blocks);
    }
}

proof fn lemma_take_step<T>(blocks: Seq<SectionBlock<T>>, k: int)
    requires
        0 <= k < blocks.len(),
    ensures
        blocks.take(k + 1).drop_last() == blocks.take(k),
        blocks.take(k + 1).last() == blocks[k],
{
    assert(blocks.take(k + 1).drop_last() == blocks.take(k));
}

fn unit_row_vec<T: Copy>(n: usize, zero: T, at: usize, x: T) -> (r: Vec<T>)
    ensures
        r@ == unit_row(n as nat, zero, at as int, x),
{
    let mut r: Vec<T> = Vec::new();
    let mut j: usize = 0;
    while j < n
        invariant
            j <= n,
            r@ == unit_row(j as nat, zero, at as int, x),
        decreases n - j,
    {
        let v = if j == at {
            x
        } else {
            zero
        };
        r.push(v);
        j = j + 1;
        assert(r@ =~= unit_row(j as nat, zero, at as int, x));
    }
    r
}

fn pair_row_vec<T: Copy>(n: usize, zero: T, at: usize, x: T, y: T) -> (r: Vec<T>)
    ensures
        r@ == pair_row(n as nat, zero, at as int, x, y),
{
    let mut r: Vec<T> = Vec::new();
    let mut j: usize = 0;
    while j < n
        invariant
            j <= n,
            r@ == pair_row(j as nat, zero, at as int, x, y),
        decreases n - j,
    {
        let v = if j == at {
            x
        } else if j >= 1 && j - 1 == at {
            y
        } else {
            zero
        };
        r.push(v);
        j = j + 1;
        assert(r@ =~= pair_row(j as nat, zero, at as int, x, y));
    }
    r
}

/// The number of states of a chain of sections.
pub fn count_states<T>(blocks: &Vec<SectionBlock<T>>) -> (n: usize)
    requires
        state_count(blocks@) <= usize::MAX,
    ensures
        n == state_count(blocks@),
{
    let mut n: usize = 0;
    let mut k: usize = 0;
    while k < blocks.len()
        invariant
            k <= blocks.len(),
            n == state_count(blocks@.take(k as int)),
            state_count(blocks@) <= usize::MAX,
        decreases blocks.len() - k,
    {
        proof {
            lemma_take_step(blocks@, k as int);
            lemma_state_count_prefix(blocks@, k + 1);
        }
        n = match &blocks[k] {
            SectionBlock::First { .. } => n + 1,
            SectionBlock::Second { .. } => n + 2,
        };
        k = k + 1;
    }
    assert(blocks@.take(blocks.len() as int) == blocks@);
    n
}

/// Assembles a channel's sections into one realization: `A` is block diagonal with
/// each section's companion block, `B` and `C` stack the sections' entries, in the
/// order of the sections. `zero` and `one` are the scalar's zero and one.
pub fn assemble_state_space<T: Copy>(blocks: &Vec<SectionBlock<T>>, zero: T, one: T) -> (r:
    StateSpaceParts<T>)
    requires
        state_count(blocks@) * state_count(blocks@) <= usize::MAX,
    ensures
        r.n_states == state_count(blocks@),
        r.a@ == flatten(companion_rows(blocks@, r.n_states as nat, zero, one)),
        r.b@ == companion_b(blocks@, zero, one),
        r.c@ == companion_c(blocks@),
{
    let ghost total = state_count(blocks@);
    assert(total <= usize::MAX) by (nonlinear_arith)
        requires
            total * total <= usize::MAX,
    ;
    let n = count_states(blocks);
    let mut a: Vec<T> = Vec::new();
    let mut b: Vec<T> = Vec::new();
    let mut c: Vec<T> = Vec::new();
    let mut offset: usize = 0;
    let mut k: usize = 0;
    while k < blocks.len()
        invariant
            k <= blocks.len(),
            n == total,
            total == state_count(blocks@),
            total <= usize::MAX,
            offset == state_count(blocks@.take(k as int)),
            a@ == flatten(companion_rows(blocks@.take(k as int), n as nat, zero, one)),
            b@ == companion_b(blocks@.take(k as int), zero, one),
            c@ == companion_c(blocks@.take(k as int)),
        decreases blocks.len() - k,
    {
        proof {
            lemma_take_step(blocks@, k as int);
            lemma_state_count_prefix(blocks@, k + 1);
        }
        let ghost prev_rows = companion_rows(blocks@.take(k as int), n as nat, zero, one);
        match &blocks[k] {
            SectionBlock::First { pole, residue } => {
                let mut row = unit_row_vec(n, zero, offset, *pole);
                proof {
                    lemma_flatten_push(prev_rows, row@);
                    assert(prev_rows + block_rows(blocks@[k as int], n as nat, zero, one, offset as int)
                        == prev_rows.push(row@));
                }
                a.append(&mut row);
                b.push(one);
                c.push(*residue);
                offset = offset + 1;
            },
            SectionBlock::Second { neg_a0, neg_a1, b0, b1 } => {
                let mut top = unit_row_vec(n, zero, offset + 1, one);
                let mut bottom = pair_row_vec(n, zero, offset, *neg_a0, *neg_a1);
                proof {
                    lemma_flatten_push(prev_rows, top@);
                    lemma_flatten_push(prev_rows.push(top@), bottom@);
                    assert(prev_rows + block_rows(blocks@[k as int], n as nat, zero, one, offset as int)
                        == prev_rows.push(top@).push(bottom@));
                }
                a.append(&mut top);
                a.append(&mut bottom);
                b.push(zero);
                b.push(one);
                c.push(*b0);
                c.push(*b1);
                offset = offset + 2;
            },
        }
        k = k + 1;
        assert(b@ =~= companion_b(blocks@.take(k as int), zero, one));
        assert(c@ =~= companion_c(blocks@.take(k as int)));
    }
    assert(blocks@.take(blocks.len() as int) == blocks@);
    StateSpaceParts { a, n_states: n, b, c }
}

proof fn lemma_companion_sizes<T>(blocks: Seq<SectionBlock<T>>, n: nat, zero: T, one: T)
    ensures
        flatten(companion_rows(blocks, n, zero, one)).len() == state_count(blocks) * n,
        companion_b(blocks, zero, one).len() == state_count(blocks),
        companion_c(blocks).len() == state_count(blocks),
    decreases blocks.len(),
{
    if blocks.len() == 0 {
        assert(0 * n == 0) by (nonlinear_arith);
    } else {
        let prev = blocks.drop_last();
        lemma_companion_sizes(prev, n, zero, one);
        let rows = companion_rows(prev, n, zero, one);
        let o = state_count(prev) as int;
        let c = state_count(prev);
        match blocks.last() {
            SectionBlock::First { pole, .. } => {
                let r = unit_row(n, zero, o, pole);
                lemma_flatten_push(rows, r);
                assert(rows + block_rows(blocks.last(), n, zero, one, o) == rows.push(r));
                assert(c * n + n == (c + 1) * n) by (nonlinear_arith);
                assert(state_count(blocks) == c + 1);
            },
            SectionBlock::Second { neg_a0, neg_a1, .. } => {
                let top = unit_row(n, zero, o + 1, one);
                let bottom = pair_row(n, zero, o, neg_a0, neg_a1);
                lemma_flatten_push(rows, top);
                lemma_flatten_push(rows.push(top), bottom);
                assert(rows + block_rows(blocks.last(), n, zero, one, o) == rows.push(top).push(bottom));
                assert(c * n + n + n == (c + 2) * n) by (nonlinear_arith);
                assert(state_count(blocks) == c + 2);
            },
        }
    }
}

/// An assembled realization always has consistent sizes: `A` has `n * n` entries
/// and `B` and `C` have `n`, where `n` is the total order of the sections.
pub proof fn law_assembled_sizes<T>(blocks: Seq<SectionBlock<T>>, zero: T, one: T)
    ensures
        state_space_sizes_ok(
            flatten(companion_rows(blocks, state_count(blocks), zero, one)).len(),
            companion_b(blocks, zero, one).len(),
            companion_c(blocks).len(),
            state_count(blocks),
        ),
{
    lemma_companion_sizes(blocks, state_count(blocks), zero, one);
}

/// How a pole enters a real-section export: a real pole alone, or a complex pole
/// with the later pole that is its conjugate.
#[derive(Debug, Clone, Copy, PartialEq, Eq, Structural)]
pub enum PolePairing {
    Real(usize),
    Pair(usize, usize),
}

/// The first pole from `j` on that is still unused and that `row` marks as a
/// conjugate match.
pub open spec fn first_unused_match(row: Seq<bool>, used: Seq<bool>, j: int) -> Option<int>
    decreases row.len() - j,
{
    if j < 0 || j >= row.len() || j >= used.len() {
        None
    } else if !used[j] && row[j] {
        Some(j)
    } else {
        first_unused_match(row, used, j + 1)
    }
}

/// Pairs poles from the first on: a pole already used is skipped, a real pole makes
/// a section of its own, a complex pole takes the first unused later pole that
/// matches it as its conjugate. The result is the sections made and whether every
/// pole found its place (a complex pole without a match stops the pairing).
pub open spec fn pairing(
    is_real: Seq<bool>,
    matches: Seq<Seq<bool>>,
    used: Seq<bool>,
    i: int,
    acc: Seq<PolePairing>,
) -> (Seq<PolePairing>, bool)
    decreases is_real.len() - i,
{
    if i < 0 || i >= is_real.len() {
        (acc, true)
    } else if used[i] {
        pairing(is_real, matches, used, i + 1, acc)
    } else if is_real[i] {
        pairing(is_real, matches, used.update(i, true), i + 1, acc.push(PolePairing::Real(i as usize)))
    } else {
        match first_unused_match(matches[i], used, i + 1) {
            None => (acc, false),
            Some(j) => pairing(
                is_real,
                matches,
                used.update(i, true).update(j, true),
                i + 1,
                acc.push(PolePairing::Pair(i as usize, j as usize)),
            ),
        }
    }
}

/// The pairing of `n` poles that starts with none used.
pub open spec fn pair_plan(is_real: Seq<bool>, matches: Seq<Seq<bool>>) -> (Seq<PolePairing>, bool) {
    pairing(is_real, matches, Seq::new(is_real.len(), |k: int| false), 0, seq![])
}

pub open spec fn rows_view(rows: Seq<Vec<bool>>) -> Seq<Seq<bool>> {
    rows.map_values(|r: Vec<bool>| r@)
}

/// The sections of a pairing, and whether it placed every pole.
#[derive(Debug)]
pub struct PairingPlan {
    pub sections: Vec<PolePairing>,
    pub complete: bool,
}

fn find_partner(row: &Vec<bool>, used: &Vec<bool>, start: usize) -> (r: Option<usize>)
    requires
        row.len() == used.len(),
    ensures
        first_unused_match(row@, used@, start as int) == match r {
            Some(j) => Some(j as int),
            None => None::<int>,
        },
        r matches Some(j) ==> start <= j < row.len(),
    decreases row.len() - start,
{
    if start >= row.len() {
        return None;
    }
    if !used[start] && row[start] {
        return Some(start);
    }
    find_partner(row, used, start + 1)
}

/// Pairs poles for a real-section export, given which poles are real and, for each
/// pole, which poles match it as its conjugate.
pub fn pair_poles(is_real: &Vec<bool>, matches: &Vec<Vec<bool>>) -> (plan: PairingPlan)
    requires
        matches.len() == is_real.len(),
        forall|k: int| 0 <= k < matches.len() ==> (#[trigger] matches@[k]).len() == is_real.len(),
    ensures
        (plan.sections@, plan.complete) == pair_plan(is_real@, rows_view(matches@)),
{
    let n = is_real.len();
    let ghost ms = rows_view(matches@);
    let mut used: Vec<bool> = Vec::new();
    let mut z: usize = 0;
    while z < n
        invariant
            z <= n,
            used@ == Seq::new(z as nat, |k: int| false),
        decreases n - z,
    {
        used.push(false);
        z = z + 1;
        assert(used@ =~= Seq::new(z as nat, |k: int| false));
    }
    let mut sections: Vec<PolePairing> = Vec::new();
    let mut i: usize = 0;
    while i < n
        invariant
            i <= n,
            n == is_real.len(),
            used.len() == n,
            matches.len() == n,
            ms == rows_view(matches@),
            forall|k: int| 0 <= k < matches.len() ==> (#[trigger] matches@[k]).len() == n,
            pair_plan(is_real@, ms) == pairing(is_real@, ms, used@, i as int, sections@),
        decreases n - i,
    {
        if used[i] {
            i = i + 1;
        } else if is_real[i] {
            assert(pairing(is_real@, ms, used@, i as int, sections@) == pairing(
                is_real@,
                ms,
                used@.update(i as int, true),
                i + 1,
                sections@.push(PolePairing::Real(i)),
            ));
            used.set(i, true);
            sections.push(PolePairing::Real(i));
            i = i + 1;
        } else {
            assert(ms[i as int] == matches@[i as int]@);
            match find_partner(&matches[i], &used, i + 1) {
                None => {
                    return PairingPlan { sections, complete: false };
                },
                Some(j) => {
                    assert(pairing(is_real@, ms, used@, i as int, sections@) == pairing(
                        is_real@,
                        ms,
                        used@.update(i as int, true).update(j as int, true),
                        i + 1,
                        sections@.push(PolePairing::Pair(i, j)),
                    ));
                    used.set(i, true);
                    used.set(j, true);
                    sections.push(PolePairing::Pair(i, j));
                    i = i + 1;
                },
            }
        }
    }
    PairingPlan { sections, complete: true }
}

/// How many times a section names pole `k`.
pub open spec fn mentions(p: PolePairing, k: int) -> nat {
    match p {
        PolePairing::Real(a) => if a == k {
            1
        } else {
            0
        },
        PolePairing::Pair(a, b) => (if a == k {
            1nat
        } else {
            0nat
        }) + (if b == k {
            1nat
        } else {
            0nat
        }),
    }
}

/// How many times the sections name pole `k`.
pub open spec fn occurrences(s: Seq<PolePairing>, k: int) -> nat
    decreases s.len(),
{
    if s.len() == 0 {
        0
    } else {
        occurrences(s.drop_last(), k) + mentions(s.last(), k)
    }
}

proof fn lemma_first_unused_match(row: Seq<bool>, used: Seq<bool>, j: int)
    requires
        row.len() == used.len(),
    ensures
        first_unused_match(row, used, j) matches Some(m) ==> (j <= m < row.len() && !used[m]),
    decreases row.len() - j,
{
    if 0 <= j < row.len() && !(!used[j] && row[j]) {
        lemma_first_unused_match(row, used, j + 1);
    }
}

proof fn lemma_pairing_places_once(
    is_real: Seq<bool>,
    matches: Seq<Seq<bool>>,
    used: Seq<bool>,
    i: int,
    acc: Seq<PolePairing>,
)
    requires
        0 <= i <= is_real.len(),
        is_real.len() <= usize::MAX,
        used.len() == is_real.len(),
        matches.len() == is_real.len(),
        forall|k: int| 0 <= k < matches.len() ==> (#[trigger] matches[k]).len() == is_real.len(),
        forall|k: int| 0 <= k < used.len() ==> (#[trigger] occurrences(acc, k)) == if used[k] {
            1nat
        } else {
            0nat
        },
        forall|k: int| 0 <= k < i ==> #[trigger] used[k],
    ensures
        pairing(is_real, matches, used, i, acc).1 ==> forall|k: int|
            0 <= k < is_real.len() ==> #[trigger] occurrences(pairing(is_real, matches, used, i, acc).0, k)
                == 1,
    decreases is_real.len() - i,
{
    let n = is_real.len();
    if i >= n {
        assert(pairing(is_real, matches, used, i, acc) == (acc, true));
        assert forall|k: int| 0 <= k < n implies #[trigger] occurrences(acc, k) == 1 by {
            assert(used[k]);
        }
    } else if used[i] {
        assert(pairing(is_real, matches, used, i, acc) == pairing(is_real, matches, used, i + 1, acc));
        lemma_pairing_places_once(is_real, matches, used, i + 1, acc);
    } else if is_real[i] {
        let used2 = used.update(i, true);
        let acc2 = acc.push(PolePairing::Real(i as usize));
        assert forall|k: int| 0 <= k < used2.len() implies (#[trigger] occurrences(acc2, k)) == if used2[k] {
            1nat
        } else {
            0nat
        } by {
            assert(acc2.drop_last() == acc);
            assert(acc2.last() == PolePairing::Real(i as usize));
            assert(occurrences(acc2, k) == occurrences(acc, k) + mentions(PolePairing::Real(i as usize), k));
            assert(mentions(PolePairing::Real(i as usize), k) == if k == i { 1nat } else { 0nat });
        }
        assert(pairing(is_real, matches, used, i, acc) == pairing(is_real, matches, used2, i + 1, acc2));
        lemma_pairing_places_once(is_real, matches, used2, i + 1, acc2);
    } else {
        lemma_first_unused_match(matches[i], used, i + 1);
        match first_unused_match(matches[i], used, i + 1) {
            None => {},
            Some(j) => {
                let used2 = used.update(i, true).update(j, true);
                let acc2 = acc.push(PolePairing::Pair(i as usize, j as usize));
                assert forall|k: int| 0 <= k < used2.len() implies (#[trigger] occurrences(acc2, k))
                    == if used2[k] {
                    1nat
                } else {
                    0nat
                } by {
                    let p = PolePairing::Pair(i as usize, j as usize);
                    assert(acc2.drop_last() == acc);
                    assert(acc2.last() == p);
                    assert(occurrences(acc2, k) == occurrences(acc, k) + mentions(p, k));
                    assert(mentions(p, k) == (if k == i { 1nat } else { 0nat }) + (if k == j { 1nat } else { 0nat }));
                }
                assert(pairing(is_real, matches, used, i, acc) == pairing(is_real, matches, used2, i + 1, acc2));
                lemma_pairing_places_once(is_real, matches, used2, i + 1, acc2);
            },
        }
    }
}

/// A pairing that places every pole names each pole in exactly one section.
pub proof fn law_pairing_places_each_pole_once(is_real: Seq<bool>, matches: Seq<Seq<bool>>)
    requires
        is_real.len() <= usize::MAX,
        matches.len() == is_real.len(),
        forall|k: int| 0 <= k < matches.len() ==> (#[trigger] matches[k]).len() == is_real.len(),
    ensures
        pair_plan(is_real, matches).1 ==> forall|k: int|
            0 <= k < is_real.len() ==> #[trigger] occurrences(pair_plan(is_real, matches).0, k) == 1,
{
    let used = Seq::new(is_real.len(), |k: int| false);
    lemma_pairing_places_once(is_real, matches, used, 0, seq![]);
}

} // verus!
