//! The LogUp permutation argument: the trace builder and the constraint
//! evaluator that checks it without division.
use vstd::prelude::*;
use crate::field::{
    Felt, ExtFelt, ExtSpec, fneg, eadd, esub, emul, ebase, eone, ezero, einv, einvertible, ecanon,
    canon, p, lemma_emul_one, lemma_emul_zero, lemma_emul_comm, lemma_emul_assoc, lemma_emul_distrib,
    lemma_results_canon, lemma_ebase_canon, lemma_einv, lemma_ebase_neg, lemma_eadd_assoc,
    lemma_eadd_zero, lemma_esub_eadd,
};
use crate::interaction::Interaction;

verus! {

/// Generation met an interaction whose fingerprint has no inverse.
#[derive(Clone, Copy, Debug, PartialEq, Eq)]
pub enum PermutationError {
    ZeroDenominator,
}

pub open spec fn ext_views(s: Seq<ExtFelt>) -> Seq<ExtSpec> {
    s.map_values(|e: ExtFelt| e@)
}

pub open spec fn epow(x: ExtSpec, n: nat) -> ExtSpec
    decreases n,
{
    if n == 0 {
        eone()
    } else {
        emul(epow(x, (n - 1) as nat), x)
    }
}

/// `max(argument_index) + 1` over the interactions, and `1` when there are none.
pub open spec fn alpha_count(all: Seq<Interaction>) -> nat
    decreases all.len(),
{
    if all.len() == 0 {
        1
    } else {
        let rest = alpha_count(all.drop_last());
        let here = (all.last().argument_index + 1) as nat;
        if rest >= here {
            rest
        } else {
            here
        }
    }
}

/// `alpha + sum_{k < n} beta^(k+1) * vals[k]`, accumulated from the left.
pub open spec fn fingerprint_prefix(alpha: ExtSpec, beta: ExtSpec, vals: Seq<int>, n: nat) -> ExtSpec
    decreases n,
{
    if n == 0 {
        alpha
    } else {
        eadd(
            fingerprint_prefix(alpha, beta, vals, (n - 1) as nat),
            emul(epow(beta, n), ebase(vals[n - 1])),
        )
    }
}

/// The fingerprint of an interaction's tuple on a row: the denominator of its
/// contribution.
pub open spec fn fingerprint(
    i: Interaction,
    alphas: Seq<ExtSpec>,
    beta: ExtSpec,
    prep: Seq<Felt>,
    main: Seq<Felt>,
) -> ExtSpec {
    fingerprint_prefix(
        alphas[i.argument_index as int],
        beta,
        i.eval_values(prep, main),
        i.values@.len(),
    )
}

/// The multiplicity, negated for a receive.
pub open spec fn signed_mult(i: Interaction, is_send: bool, prep: Seq<Felt>, main: Seq<Felt>) -> int {
    let m = i.multiplicity.eval(prep, main);
    if is_send {
        m
    } else {
        fneg(m)
    }
}

/// Sends first, then receives, each in declaration order.
pub open spec fn all_of(sends: Seq<Interaction>, receives: Seq<Interaction>) -> Seq<Interaction> {
    sends + receives
}

pub open spec fn row_mults(
    sends: Seq<Interaction>,
    receives: Seq<Interaction>,
    prep: Seq<Felt>,
    main: Seq<Felt>,
) -> Seq<int> {
    let all = all_of(sends, receives);
    Seq::new(all.len(), |k: int| signed_mult(all[k], k < sends.len(), prep, main))
}

pub open spec fn row_dens(
    sends: Seq<Interaction>,
    receives: Seq<Interaction>,
    alphas: Seq<ExtSpec>,
    beta: ExtSpec,
    prep: Seq<Felt>,
    main: Seq<Felt>,
) -> Seq<ExtSpec> {
    let all = all_of(sends, receives);
    Seq::new(all.len(), |k: int| fingerprint(all[k], alphas, beta, prep, main))
}

pub open spec fn all_invertible(dens: Seq<ExtSpec>) -> bool {
    forall|k: int| 0 <= k < dens.len() ==> einvertible(#[trigger] dens[k])
}

/// `sum_i ms[i] / dens[i]`, accumulated from the left.
pub open spec fn batch_sum(ms: Seq<int>, dens: Seq<ExtSpec>) -> ExtSpec
    decreases ms.len(),
{
    if ms.len() == 0 {
        ezero()
    } else {
        eadd(
            batch_sum(ms.drop_last(), dens.drop_last()),
            emul(ebase(ms.last()), einv(dens[ms.len() - 1])),
        )
    }
}

/// `ceil(n / b)`: the number of chunks of at most `b` interactions.
pub open spec fn num_chunks(n: nat, b: nat) -> nat {
    ((n + b - 1) / (b as int)) as nat
}

pub open spec fn chunk_hi(j: nat, b: nat, n: nat) -> nat {
    if j * b + b <= n {
        j * b + b
    } else {
        n
    }
}

/// The cell of chunk `j`: the sum of its interactions' contributions.
pub open spec fn chunk_cell(ms: Seq<int>, dens: Seq<ExtSpec>, b: nat, j: nat) -> ExtSpec {
    let lo = (j * b) as int;
    let hi = chunk_hi(j, b, ms.len()) as int;
    batch_sum(ms.subrange(lo, hi), dens.subrange(lo, hi))
}

/// The cells of a permutation row, one per chunk, without the running sum.
pub open spec fn row_cells(ms: Seq<int>, dens: Seq<ExtSpec>, b: nat) -> Seq<ExtSpec> {
    Seq::new(num_chunks(ms.len(), b), |j: int| chunk_cell(ms, dens, b, j as nat))
}

/// The interactions can be evaluated on rows of these widths and find their
/// fingerprint element.
pub open spec fn interactions_fit(
    all: Seq<Interaction>,
    n_alphas: nat,
    prep_len: nat,
    main_len: nat,
) -> bool {
    forall|k: int|
        0 <= k < all.len() ==> #[trigger] all[k].in_range(prep_len, main_len) && all[k].argument_index
            < n_alphas
}

pub proof fn lemma_felt_canon(f: Felt)
    ensures
        canon(f@),
{
    vstd::arithmetic::div_mod::lemma_mod_pos_bound(f.val as int, p());
}

pub proof fn lemma_ext_canon(e: ExtFelt)
    ensures
        ecanon(e@),
{
    lemma_felt_canon(e.c0);
    lemma_felt_canon(e.c1);
}

/// Every argument index finds its power of alpha.
pub proof fn lemma_alpha_count_bounds(all: Seq<Interaction>)
    ensures
        alpha_count(all) >= 1,
        forall|k: int| 0 <= k < all.len() ==> (#[trigger] all[k]).argument_index < alpha_count(all),
    decreases all.len(),
{
    if all.len() > 0 {
        lemma_alpha_count_bounds(all.drop_last());
        assert forall|k: int| 0 <= k < all.len() implies (#[trigger] all[k]).argument_index
            < alpha_count(all) by {
            if k < all.len() - 1 {
                assert(all.drop_last()[k] == all[k]);
            }
        }
    }
}

/// When chunk `j` holds the row's last interaction, there are `j + 1` chunks.
proof fn lemma_chunk_bounds(n: nat, b: nat, j: nat)
    requires
        b > 0,
        j * b < n,
        n <= j * b + b,
    ensures
        num_chunks(n, b) == j + 1,
{
    let c = j + 1;
    assert(n + b - 1 == c * b + (n - 1 - j * b)) by (nonlinear_arith)
        requires
            c == j + 1,
    ;
    vstd::arithmetic::div_mod::lemma_fundamental_div_mod_converse_div(
        (n + b - 1) as int,
        b as int,
        c as int,
        (n - 1 - j * b) as int,
    );
}

/// A chunk that starts inside the row is one of the `num_chunks` chunks.
proof fn lemma_chunk_lt(n: nat, b: nat, j: nat)
    requires
        b > 0,
        j * b < n,
    ensures
        j < num_chunks(n, b),
{
    assert((j + 1) * b == j * b + b) by (nonlinear_arith);
    vstd::arithmetic::div_mod::lemma_fundamental_div_mod_converse_div(
        (j * b + b) as int,
        b as int,
        (j + 1) as int,
        0,
    );
    vstd::arithmetic::div_mod::lemma_div_is_ordered((j * b + b) as int, (n + b - 1) as int, b as int);
}

proof fn lemma_no_chunks(b: nat)
    requires
        b > 0,
    ensures
        num_chunks(0, b) == 0,
{
    vstd::arithmetic::div_mod::lemma_fundamental_div_mod_converse_div((b - 1) as int, b as int, 0, (b - 1) as int);
}

/// The powers `random_element^1 .. random_element^n` with `n` one more than
/// the largest argument index: the fingerprint of each channel.
pub fn generate_interaction_rlc_elements(
    sends: &[Interaction],
    receives: &[Interaction],
    random_element: ExtFelt,
) -> (r: Vec<ExtFelt>)
    requires
        forall|k: int|
            0 <= k < all_of(sends@, receives@).len() ==> (#[trigger] all_of(sends@, receives@)[k]).argument_index
                < usize::MAX,
    ensures
        r@.len() == alpha_count(all_of(sends@, receives@)),
        forall|i: int| 0 <= i < r@.len() ==> (#[trigger] r@[i])@ == epow(random_element@, (i + 1) as nat),
{
    let ghost all = all_of(sends@, receives@);
    let mut n: usize = 1;
    let mut k: usize = 0;
    while k < sends.len()
        invariant
            k <= sends@.len(),
            all == all_of(sends@, receives@),
            n == alpha_count(all.subrange(0, k as int)),
            forall|k: int| 0 <= k < all.len() ==> (#[trigger] all[k]).argument_index < usize::MAX,
        decreases sends@.len() - k,
    {
        assert(all[k as int] == sends@[k as int]);
        let here = sends[k].argument_index() + 1;
        if here > n {
            n = here;
        }
        assert(all.subrange(0, k + 1).drop_last() =~= all.subrange(0, k as int));
        k = k + 1;
    }
    let mut k: usize = 0;
    while k < receives.len()
        invariant
            k <= receives@.len(),
            all == all_of(sends@, receives@),
            n == alpha_count(all.subrange(0, sends@.len() + k)),
            forall|k: int| 0 <= k < all.len() ==> (#[trigger] all[k]).argument_index < usize::MAX,
        decreases receives@.len() - k,
    {
        assert(all[sends@.len() + k] == receives@[k as int]);
        let here = receives[k].argument_index() + 1;
        if here > n {
            n = here;
        }
        assert(all.subrange(0, sends@.len() + k + 1).drop_last() =~= all.subrange(
            0,
            sends@.len() + k,
        ));
        k = k + 1;
    }
    assert(all.subrange(0, sends@.len() + k) =~= all);
    let mut r: Vec<ExtFelt> = Vec::new();
    let mut pw = random_element;
    proof {
        lemma_ext_canon(random_element);
        lemma_emul_one(random_element@);
        assert(epow(random_element@, 1) == emul(epow(random_element@, 0), random_element@));
    }
    let mut i: usize = 0;
    while i < n
        invariant
            i <= n,
            r@.len() == i,
            pw@ == epow(random_element@, (i + 1) as nat),
            forall|j: int| 0 <= j < i ==> (#[trigger] r@[j])@ == epow(random_element@, (j + 1) as nat),
        decreases n - i,
    {
        r.push(pw);
        pw = pw.mul(random_element);
        i = i + 1;
    }
    r
}

/// The fingerprint of `interaction` on a row.
fn row_fingerprint(
    interaction: &Interaction,
    preprocessed_row: &[Felt],
    main_row: &[Felt],
    alphas: &[ExtFelt],
    beta: ExtFelt,
) -> (r: ExtFelt)
    requires
        interaction.in_range(preprocessed_row@.len(), main_row@.len()),
        interaction.argument_index < alphas@.len(),
    ensures
        r@ == fingerprint(*interaction, ext_views(alphas@), beta@, preprocessed_row@, main_row@),
{
    let ghost vals = interaction.eval_values(preprocessed_row@, main_row@);
    let mut denominator = alphas[interaction.argument_index];
    let mut pw = beta;
    proof {
        lemma_ext_canon(beta);
        lemma_emul_one(beta@);
        assert(epow(beta@, 1) == emul(epow(beta@, 0), beta@));
    }
    let mut k: usize = 0;
    while k < interaction.values.len()
        invariant
            k <= interaction.values@.len(),
            interaction.in_range(preprocessed_row@.len(), main_row@.len()),
            interaction.argument_index < alphas@.len(),
            vals == interaction.eval_values(preprocessed_row@, main_row@),
            pw@ == epow(beta@, (k + 1) as nat),
            denominator@ == fingerprint_prefix(
                ext_views(alphas@)[interaction.argument_index as int],
                beta@,
                vals,
                k as nat,
            ),
        decreases interaction.values@.len() - k,
    {
        assert(interaction.values@[k as int].in_range(preprocessed_row@.len(), main_row@.len()));
        let v = interaction.values[k].apply(preprocessed_row, main_row);
        denominator = denominator.add(pw.mul(ExtFelt::from_base(v)));
        pw = pw.mul(beta);
        k = k + 1;
    }
    denominator
}

/// The interaction at index `k` of the sends followed by the receives, and
/// whether it is a send.
fn interaction_at<'a>(sends: &'a [Interaction], receives: &'a [Interaction], k: usize) -> (r: (
    &'a Interaction,
    bool,
))
    requires
        k < sends@.len() + receives@.len(),
    ensures
        *r.0 == all_of(sends@, receives@)[k as int],
        r.1 == (k < sends@.len()),
{
    if k < sends.len() {
        (&sends[k], true)
    } else {
        (&receives[k - sends.len()], false)
    }
}

/// Fills the chunk cells of one permutation row: cell `j` is the sum of
/// `+-multiplicity / fingerprint` over the `j`-th chunk of `batch_size`
/// interactions, sends counted positive and receives negative. The last cell,
/// the running sum, is left as it is.
pub fn populate_permutation_row(
    row: &mut Vec<ExtFelt>,
    preprocessed_row: &[Felt],
    main_row: &[Felt],
    sends: &[Interaction],
    receives: &[Interaction],
    alphas: &[ExtFelt],
    beta: ExtFelt,
    batch_size: usize,
) -> (r: Result<(), PermutationError>)
    requires
        batch_size > 0,
        sends@.len() + receives@.len() <= usize::MAX,
        old(row)@.len() == num_chunks((sends@.len() + receives@.len()) as nat, batch_size as nat)
            + 1,
        interactions_fit(
            all_of(sends@, receives@),
            alphas@.len(),
            preprocessed_row@.len(),
            main_row@.len(),
        ),
    ensures
        final(row)@.len() == old(row)@.len(),
        ({
            let ms = row_mults(sends@, receives@, preprocessed_row@, main_row@);
            let dens = row_dens(sends@, receives@, ext_views(alphas@), beta@, preprocessed_row@, main_row@);
            match r {
                Ok(()) => {
                    &&& all_invertible(dens)
                    &&& forall|j: int|
                        0 <= j < old(row)@.len() - 1 ==> (#[trigger] final(row)@[j])@ == row_cells(
                            ms,
                            dens,
                            batch_size as nat,
                        )[j]
                    &&& final(row)@[old(row)@.len() - 1] == old(row)@[old(row)@.len() - 1]
                },
                Err(_) => !all_invertible(dens),
            }
        }),
{
    let n = sends.len() + receives.len();
    let ghost ms = row_mults(sends@, receives@, preprocessed_row@, main_row@);
    let ghost dens = row_dens(sends@, receives@, ext_views(alphas@), beta@, preprocessed_row@, main_row@);
    let ghost b = batch_size as nat;
    let ghost width = row@.len();
    let mut lo: usize = 0;
    let mut j: usize = 0;
    proof {
        lemma_no_chunks(b);
    }
    while lo < n
        invariant
            n == sends@.len() + receives@.len(),
            ms == row_mults(sends@, receives@, preprocessed_row@, main_row@),
            dens == row_dens(sends@, receives@, ext_views(alphas@), beta@, preprocessed_row@, main_row@),
            b == batch_size,
            batch_size > 0,
            width == old(row)@.len(),
            width == num_chunks(n as nat, b) + 1,
            row@.len() == width,
            row@[width - 1] == old(row)@[width - 1],
            interactions_fit(
                all_of(sends@, receives@),
                alphas@.len(),
                preprocessed_row@.len(),
                main_row@.len(),
            ),
            lo == n || lo == j * batch_size,
            lo <= n,
            lo == n ==> j == num_chunks(n as nat, b),
            j <= num_chunks(n as nat, b),
            forall|k: int| 0 <= k < lo ==> einvertible(#[trigger] dens[k]),
            forall|jj: int| 0 <= jj < j ==> (#[trigger] row@[jj])@ == row_cells(ms, dens, b)[jj],
        decreases n - lo,
    {
        proof {
            lemma_chunk_lt(n as nat, b, j as nat);
            assert(j <= j * b) by (nonlinear_arith)
                requires
                    b >= 1,
            ;
        }
        let hi = if batch_size >= n - lo {
            n
        } else {
            lo + batch_size
        };
        assert(hi == chunk_hi(j as nat, b, n as nat));
        let mut acc = ExtFelt::zero();
        let mut k: usize = lo;
        while k < hi
            invariant
                lo <= k <= hi,
                hi <= n,
                n == sends@.len() + receives@.len(),
                ms == row_mults(sends@, receives@, preprocessed_row@, main_row@),
                dens == row_dens(sends@, receives@, ext_views(alphas@), beta@, preprocessed_row@, main_row@),
                interactions_fit(
                    all_of(sends@, receives@),
                    alphas@.len(),
                    preprocessed_row@.len(),
                    main_row@.len(),
                ),
                forall|i: int| 0 <= i < k ==> einvertible(#[trigger] dens[i]),
                row@.len() == width,
                width == old(row)@.len(),
                acc@ == batch_sum(ms.subrange(lo as int, k as int), dens.subrange(lo as int, k as int)),
            decreases hi - k,
        {
            let (interaction, is_send) = interaction_at(sends, receives, k);
            assert(all_of(sends@, receives@)[k as int].in_range(
                preprocessed_row@.len(),
                main_row@.len(),
            ));
            let denominator = row_fingerprint(interaction, preprocessed_row, main_row, alphas, beta);
            let mut mult = interaction.multiplicity.apply(preprocessed_row, main_row);
            if !is_send {
                mult = mult.neg();
            }
            match denominator.inverse() {
                Some(inv) => {
                    acc = acc.add(ExtFelt::from_base(mult).mul(inv));
                },
                None => {
                    assert(!einvertible(dens[k as int]));
                    return Err(PermutationError::ZeroDenominator);
                },
            }
            assert(ms.subrange(lo as int, k + 1).drop_last() =~= ms.subrange(lo as int, k as int));
            assert(dens.subrange(lo as int, k + 1).drop_last() =~= dens.subrange(lo as int, k as int));
            k = k + 1;
        }
        proof {
            if hi == n {
                lemma_chunk_bounds(n as nat, b, j as nat);
            }
            assert((j + 1) * b == j * b + b) by (nonlinear_arith);
        }
        row[j] = acc;
        lo = hi;
        j = j + 1;
    }
    proof {
        if n == 0 {
            lemma_no_chunks(b);
        }
    }
    Ok(())
}

/// `alpha^1 .. alpha^n`.
pub open spec fn alpha_powers(alpha: ExtSpec, n: nat) -> Seq<ExtSpec> {
    Seq::new(n, |i: int| epow(alpha, (i + 1) as nat))
}

/// The sum of a sequence, accumulated from the left.
pub open spec fn seq_sum(xs: Seq<ExtSpec>) -> ExtSpec
    decreases xs.len(),
{
    if xs.len() == 0 {
        ezero()
    } else {
        eadd(seq_sum(xs.drop_last()), xs.last())
    }
}

/// The sum of a permutation row's chunk cells: every cell but the last.
pub open spec fn cells_sum(row: Seq<ExtFelt>) -> ExtSpec {
    seq_sum(ext_views(row.subrange(0, row.len() - 1)))
}

/// The sum of the chunk cells of rows `0..=r`.
pub open spec fn running_sum(t: Seq<Vec<ExtFelt>>, r: int) -> ExtSpec {
    seq_sum(Seq::new((r + 1) as nat, |i: int| cells_sum(t[i]@)))
}

/// The preprocessed row `r`, empty when there is no preprocessed trace.
pub open spec fn prep_row(preprocessed: Option<&Vec<Vec<Felt>>>, r: int) -> Seq<Felt> {
    match preprocessed {
        Some(pp) => pp@[r]@,
        None => Seq::empty(),
    }
}

pub open spec fn trace_mults(
    sends: Seq<Interaction>,
    receives: Seq<Interaction>,
    preprocessed: Option<&Vec<Vec<Felt>>>,
    main: Seq<Vec<Felt>>,
    r: int,
) -> Seq<int> {
    row_mults(sends, receives, prep_row(preprocessed, r), main[r]@)
}

pub open spec fn trace_dens(
    sends: Seq<Interaction>,
    receives: Seq<Interaction>,
    preprocessed: Option<&Vec<Vec<Felt>>>,
    main: Seq<Vec<Felt>>,
    alpha: ExtSpec,
    beta: ExtSpec,
    r: int,
) -> Seq<ExtSpec> {
    row_dens(
        sends,
        receives,
        alpha_powers(alpha, alpha_count(all_of(sends, receives))),
        beta,
        prep_row(preprocessed, r),
        main[r]@,
    )
}

/// Row `r` of the trace `t` is what the builder computes: its chunk cells,
/// whose fingerprints are all invertible, then the running sum.
pub open spec fn trace_row_ok(
    sends: Seq<Interaction>,
    receives: Seq<Interaction>,
    preprocessed: Option<&Vec<Vec<Felt>>>,
    main: Seq<Vec<Felt>>,
    alpha: ExtSpec,
    beta: ExtSpec,
    b: nat,
    t: Seq<Vec<ExtFelt>>,
    r: int,
) -> bool {
    let width = num_chunks(all_of(sends, receives).len(), b) + 1;
    let dens = trace_dens(sends, receives, preprocessed, main, alpha, beta, r);
    let ms = trace_mults(sends, receives, preprocessed, main, r);
    &&& t[r]@.len() == width
    &&& all_invertible(dens)
    &&& forall|j: int| 0 <= j < width - 1 ==> (#[trigger] t[r]@[j])@ == row_cells(ms, dens, b)[j]
    &&& t[r]@[width - 1]@ == running_sum(t, r)
}

/// `ceil(n / b)` without overflow.
fn chunk_count(n: usize, b: usize) -> (r: usize)
    requires
        b > 0,
    ensures
        r == num_chunks(n as nat, b as nat),
        r <= n,
{
    if n == 0 {
        proof {
            lemma_no_chunks(b as nat);
        }
        0
    } else {
        let q = (n - 1) / b;
        proof {
            let rr = ((n - 1) % b as int) as int;
            vstd::arithmetic::div_mod::lemma_fundamental_div_mod((n - 1) as int, b as int);
            assert(n + b - 1 == (q + 1) * b + rr) by (nonlinear_arith)
                requires
                    n - 1 == b * q + rr,
            ;
            vstd::arithmetic::div_mod::lemma_fundamental_div_mod_converse_div(
                (n + b - 1) as int,
                b as int,
                (q + 1) as int,
                rr,
            );
            assert(q < n) by (nonlinear_arith)
                requires
                    n - 1 == b * q + rr,
                    b >= 1,
                    rr >= 0,
            ;
        }
        q + 1
    }
}

/// The sum of the chunk cells of a row.
fn row_cells_sum(row: &Vec<ExtFelt>) -> (r: ExtFelt)
    requires
        row@.len() >= 1,
    ensures
        r@ == cells_sum(row@),
{
    let mut acc = ExtFelt::zero();
    let mut j: usize = 0;
    while j < row.len() - 1
        invariant
            row@.len() >= 1,
            j <= row@.len() - 1,
            acc@ == seq_sum(ext_views(row@.subrange(0, j as int))),
        decreases row@.len() - 1 - j,
    {
        acc = acc.add(row[j]);
        assert(ext_views(row@.subrange(0, j + 1)).drop_last() =~= ext_views(row@.subrange(0, j as int)));
        j = j + 1;
    }
    acc
}

/// The permutation trace of a chip: one row per main row, each holding the
/// chunk cells of `populate_permutation_row` and, last, the running sum of
/// all cells of this row and of the rows before it. Fails when a
/// fingerprint on some row has no inverse.
pub fn generate_permutation_trace(
    sends: &[Interaction],
    receives: &[Interaction],
    preprocessed: Option<&Vec<Vec<Felt>>>,
    main: &Vec<Vec<Felt>>,
    random_elements: &[ExtFelt],
    batch_size: usize,
) -> (r: Result<Vec<Vec<ExtFelt>>, PermutationError>)
    requires
        random_elements@.len() >= 2,
        batch_size > 0,
        sends@.len() + receives@.len() < usize::MAX,
        forall|k: int|
            0 <= k < all_of(sends@, receives@).len() ==> (#[trigger] all_of(sends@, receives@)[k]).argument_index
                < usize::MAX,
        preprocessed matches Some(pp) ==> pp@.len() == main@.len(),
        forall|r: int|
            0 <= r < main@.len() ==> interactions_fit(
                all_of(sends@, receives@),
                alpha_count(all_of(sends@, receives@)),
                #[trigger] prep_row(preprocessed, r).len(),
                main@[r]@.len(),
            ),
    ensures
        ({
            let alpha = random_elements@[0]@;
            let beta = random_elements@[1]@;
            let width = num_chunks((sends@.len() + receives@.len()) as nat, batch_size as nat) + 1;
            match r {
                Ok(t) => {
                    &&& t@.len() == main@.len()
                    &&& forall|r: int|
                        0 <= r < t@.len() ==> #[trigger] trace_row_ok(
                            sends@,
                            receives@,
                            preprocessed,
                            main@,
                            alpha,
                            beta,
                            batch_size as nat,
                            t@,
                            r,
                        )
                },
                Err(_) => exists|r: int|
                    0 <= r < main@.len() && !all_invertible(
                        #[trigger] trace_dens(sends@, receives@, preprocessed, main@, alpha, beta, r),
                    ),
            }
        }),
{
    let ghost all = all_of(sends@, receives@);
    let alphas = generate_interaction_rlc_elements(sends, receives, random_elements[0]);
    let beta = random_elements[1];
    let ghost alpha = random_elements@[0]@;
    proof {
        lemma_alpha_count_bounds(all);
        assert(ext_views(alphas@) =~= alpha_powers(alpha, alpha_count(all)));
    }
    let n = sends.len() + receives.len();
    let width = chunk_count(n, batch_size) + 1;
    let ghost b = batch_size as nat;
    let empty: Vec<Felt> = Vec::new();
    let mut t: Vec<Vec<ExtFelt>> = Vec::new();
    let mut acc = ExtFelt::zero();
    let mut r: usize = 0;
    while r < main.len()
        invariant
            all == all_of(sends@, receives@),
            n == all.len(),
            width == num_chunks(n as nat, b) + 1,
            b == batch_size,
            batch_size > 0,
            alpha == random_elements@[0]@,
            beta == random_elements@[1],
            ext_views(alphas@) == alpha_powers(alpha, alpha_count(all)),
            alphas@.len() == alpha_count(all),
            empty@.len() == 0,
            preprocessed matches Some(pp) ==> pp@.len() == main@.len(),
            forall|k: int| 0 <= k < all.len() ==> (#[trigger] all[k]).argument_index < alpha_count(all),
            forall|r: int|
                0 <= r < main@.len() ==> interactions_fit(
                    all,
                    alpha_count(all),
                    #[trigger] prep_row(preprocessed, r).len(),
                    main@[r]@.len(),
                ),
            r <= main@.len(),
            t@.len() == r,
            acc@ == seq_sum(Seq::new(r as nat, |i: int| cells_sum(t@[i]@))),
            forall|i: int|
                0 <= i < r ==> #[trigger] trace_row_ok(
                    sends@,
                    receives@,
                    preprocessed,
                    main@,
                    alpha,
                    beta@,
                    b,
                    t@,
                    i,
                ),
        decreases main@.len() - r,
    {
        let mut row: Vec<ExtFelt> = Vec::new();
        let mut j: usize = 0;
        while j < width
            invariant
                j <= width,
                row@.len() == j,
            decreases width - j,
        {
            row.push(ExtFelt::zero());
            j = j + 1;
        }
        let prep: &[Felt] = match preprocessed {
            Some(pp) => pp[r].as_slice(),
            None => empty.as_slice(),
        };
        assert(prep@ == prep_row(preprocessed, r as int));
        assert(interactions_fit(all, alphas@.len(), prep@.len(), main@[r as int]@.len()));
        let res = populate_permutation_row(
            &mut row,
            prep,
            main[r].as_slice(),
            sends,
            receives,
            &alphas,
            beta,
            batch_size,
        );
        proof {
            assert(row_dens(sends@, receives@, ext_views(alphas@), beta@, prep@, main@[r as int]@)
                == trace_dens(sends@, receives@, preprocessed, main@, alpha, beta@, r as int));
        }
        if res.is_err() {
            return Err(PermutationError::ZeroDenominator);
        }
        let sum = row_cells_sum(&row);
        let ghost before = row@;
        acc = acc.add(sum);
        row[width - 1] = acc;
        proof {
            assert(row@.subrange(0, width - 1) =~= before.subrange(0, width - 1));
        }
        let ghost old_t = t@;
        t.push(row);
        proof {
            let sums = Seq::new((r + 1) as nat, |i: int| cells_sum(t@[i]@));
            assert(sums.drop_last() =~= Seq::new(r as nat, |i: int| cells_sum(old_t[i]@)));
            assert forall|i: int| 0 <= i < r implies running_sum(t@, i) == running_sum(old_t, i) by {
                assert(Seq::new((i + 1) as nat, |k: int| cells_sum(t@[k]@)) =~= Seq::new(
                    (i + 1) as nat,
                    |k: int| cells_sum(old_t[k]@),
                ));
            }
            assert(t@[r as int]@.subrange(0, width - 1) =~= before.subrange(0, width - 1));
            assert forall|i: int| 0 <= i <= r implies #[trigger] trace_row_ok(
                sends@,
                receives@,
                preprocessed,
                main@,
                alpha,
                beta@,
                b,
                t@,
                i,
            ) by {
                if i < r {
                    assert(trace_row_ok(sends@, receives@, preprocessed, main@, alpha, beta@, b, old_t, i));
                    assert(t@[i] == old_t[i]);
                    assert(running_sum(t@, i) == running_sum(old_t, i));
                } else {
                    assert(t@[i] == row);
                    assert(row_dens(sends@, receives@, ext_views(alphas@), beta@, prep@, main@[r as int]@)
                        == trace_dens(sends@, receives@, preprocessed, main@, alpha, beta@, r as int));
                    assert(row_mults(sends@, receives@, prep@, main@[r as int]@)
                        == trace_mults(sends@, receives@, preprocessed, main@, r as int));
                    assert forall|j: int| 0 <= j < width - 1 implies (#[trigger] t@[i]@[j])@ == row_cells(
                        trace_mults(sends@, receives@, preprocessed, main@, i),
                        trace_dens(sends@, receives@, preprocessed, main@, alpha, beta@, i),
                        b,
                    )[j] by {
                        assert(t@[i]@[j] == before[j]);
                    }
                }
            }
        }
        r = r + 1;
    }
    Ok(t)
}

/// `prod_i dens[i]`, accumulated from the left.
pub open spec fn batch_prod(dens: Seq<ExtSpec>) -> ExtSpec
    decreases dens.len(),
{
    if dens.len() == 0 {
        eone()
    } else {
        emul(batch_prod(dens.drop_last()), dens.last())
    }
}

/// `prod_{l != i} dens[l]`, accumulated from the left.
pub open spec fn prod_except(dens: Seq<ExtSpec>, i: int) -> ExtSpec
    decreases dens.len(),
{
    if dens.len() == 0 {
        eone()
    } else if i == dens.len() - 1 {
        prod_except(dens.drop_last(), i)
    } else {
        emul(prod_except(dens.drop_last(), i), dens.last())
    }
}

/// `sum_{i < k} ms[i] * prod_{l != i} dens[l]`.
pub open spec fn numerator_prefix(ms: Seq<int>, dens: Seq<ExtSpec>, k: nat) -> ExtSpec
    decreases k,
{
    if k == 0 {
        ezero()
    } else {
        eadd(
            numerator_prefix(ms, dens, (k - 1) as nat),
            emul(ebase(ms[k - 1]), prod_except(dens, k - 1)),
        )
    }
}

/// The numerator of `sum_i ms[i] / dens[i]` over the common denominator.
pub open spec fn batch_numerator(ms: Seq<int>, dens: Seq<ExtSpec>) -> ExtSpec {
    numerator_prefix(ms, dens, ms.len())
}

/// The division-free form of `cell == sum_i ms[i] / dens[i]` for chunk `j`:
/// `(prod_i dens[i]) * cell == sum_i ms[i] * prod_{l != i} dens[l]`.
pub open spec fn chunk_identity(ms: Seq<int>, dens: Seq<ExtSpec>, b: nat, j: nat, cell: ExtSpec) -> bool {
    let lo = (j * b) as int;
    let hi = chunk_hi(j, b, ms.len()) as int;
    emul(batch_prod(dens.subrange(lo, hi)), cell) == batch_numerator(
        ms.subrange(lo, hi),
        dens.subrange(lo, hi),
    )
}

/// Skipping an index past the end skips nothing.
proof fn lemma_prod_except_full(dens: Seq<ExtSpec>, i: int)
    requires
        i >= dens.len(),
    ensures
        prod_except(dens, i) == batch_prod(dens),
    decreases dens.len(),
{
    if dens.len() > 0 {
        lemma_prod_except_full(dens.drop_last(), i);
    }
}

/// Appending a denominator multiplies the numerator of the earlier terms by it.
proof fn lemma_numerator_extend(ms: Seq<int>, dens: Seq<ExtSpec>, k: nat)
    requires
        ms.len() == dens.len(),
        dens.len() > 0,
        k < dens.len(),
    ensures
        numerator_prefix(ms, dens, k) == emul(
            numerator_prefix(ms.drop_last(), dens.drop_last(), k),
            dens.last(),
        ),
    decreases k,
{
    let d = dens.last();
    if k == 0 {
        lemma_emul_zero(d);
    } else {
        let k1 = (k - 1) as nat;
        lemma_numerator_extend(ms, dens, k1);
        let np = numerator_prefix(ms.drop_last(), dens.drop_last(), k1);
        let b = ebase(ms[k1 as int]);
        let pe = prod_except(dens.drop_last(), k1 as int);
        assert(ms.drop_last()[k1 as int] == ms[k1 as int]);
        assert(prod_except(dens, k1 as int) == emul(pe, d));
        lemma_emul_assoc(b, pe, d);
        lemma_emul_distrib(d, np, emul(b, pe));
    }
}

/// For invertible denominators, `(prod_i dens[i]) * sum_i ms[i] / dens[i]`
/// equals `sum_i ms[i] * prod_{l != i} dens[l]`: the cross-multiplied
/// identity holds for every batch of interactions.
pub proof fn lemma_batch_identity(ms: Seq<int>, dens: Seq<ExtSpec>)
    requires
        ms.len() == dens.len(),
        all_invertible(dens),
    ensures
        emul(batch_prod(dens), batch_sum(ms, dens)) == batch_numerator(ms, dens),
    decreases dens.len(),
{
    if dens.len() == 0 {
        lemma_emul_one(ezero());
        lemma_results_canon(ezero(), ezero());
    } else {
        let n = dens.len();
        let dd = dens.drop_last();
        let mm = ms.drop_last();
        assert(all_invertible(dd)) by {
            assert forall|k: int| 0 <= k < dd.len() implies einvertible(#[trigger] dd[k]) by {
                assert(dd[k] == dens[k]);
            }
        }
        lemma_batch_identity(mm, dd);
        let d = dens.last();
        let pp = batch_prod(dd);
        let ss = batch_sum(mm, dd);
        let b = ebase(ms.last());
        let inv = einv(d);
        let t = emul(b, inv);
        assert(einvertible(dens[n - 1]));
        lemma_einv(d);
        lemma_ebase_canon(ms.last());
        // (pp d)(ss + t) = (pp d) ss + (pp d) t
        lemma_emul_distrib(emul(pp, d), ss, t);
        // (pp d) ss = (pp ss) d
        lemma_emul_assoc(pp, d, ss);
        lemma_emul_comm(d, ss);
        lemma_emul_assoc(pp, ss, d);
        // (pp d) t = pp (d (b inv)) = pp (b (d inv)) = pp b
        lemma_emul_assoc(pp, d, t);
        lemma_emul_assoc(d, b, inv);
        lemma_emul_comm(d, b);
        lemma_emul_assoc(b, d, inv);
        lemma_emul_one(b);
        lemma_emul_comm(pp, b);
        // the right side
        lemma_prod_except_full(dd, n - 1);
        lemma_numerator_extend(ms, dens, (n - 1) as nat);
        assert(mm.len() == n - 1);
    }
}

/// On every row and for every batch size, each chunk cell that the builder
/// computes satisfies the evaluator's cross-multiplied identity, provided the
/// fingerprints are invertible.
pub proof fn lemma_row_cells_identity(ms: Seq<int>, dens: Seq<ExtSpec>, b: nat)
    requires
        b > 0,
        ms.len() == dens.len(),
        all_invertible(dens),
    ensures
        forall|j: int|
            0 <= j < num_chunks(ms.len(), b) ==> chunk_identity(
                ms,
                dens,
                b,
                j as nat,
                #[trigger] row_cells(ms, dens, b)[j],
            ),
{
    assert forall|j: int| 0 <= j < num_chunks(ms.len(), b) implies chunk_identity(
        ms,
        dens,
        b,
        j as nat,
        #[trigger] row_cells(ms, dens, b)[j],
    ) by {
        let lo = (j * b) as int;
        let hi = chunk_hi(j as nat, b, ms.len()) as int;
        assert(0 <= j * b) by (nonlinear_arith)
            requires
                j >= 0,
                b > 0,
        ;
        assert(lo <= hi) by {
            if j * b + b > ms.len() {
                lemma_chunk_start(ms.len(), b, j as nat);
            }
        }
        let sub = dens.subrange(lo, hi);
        assert(all_invertible(sub)) by {
            assert forall|k: int| 0 <= k < sub.len() implies einvertible(#[trigger] sub[k]) by {
                assert(sub[k] == dens[lo + k]);
            }
        }
        lemma_batch_identity(ms.subrange(lo, hi), sub);
    }
}

/// Chunk `j` of the count starts within the row.
proof fn lemma_chunk_start(n: nat, b: nat, j: nat)
    requires
        b > 0,
        j < num_chunks(n, b),
    ensures
        j * b <= n,
{
    vstd::arithmetic::div_mod::lemma_fundamental_div_mod((n + b - 1) as int, b as int);
    let c = num_chunks(n, b);
    assert(j * b <= n) by (nonlinear_arith)
        requires
            j < c,
            (n + b - 1) == b * c + (n + b - 1) % (b as int),
            0 <= (n + b - 1) % (b as int) < b,
            b > 0,
    ;
}

/// A send and a receive that carry the same values on the same channel with
/// the same multiplicity get the same fingerprint, and their contributions to
/// a cell cancel.
pub proof fn lemma_send_receive_cancel(
    send: Interaction,
    receive: Interaction,
    alphas: Seq<ExtSpec>,
    beta: ExtSpec,
    prep: Seq<Felt>,
    main: Seq<Felt>,
)
    requires
        send.argument_index == receive.argument_index,
        send.eval_values(prep, main) == receive.eval_values(prep, main),
        send.multiplicity.eval(prep, main) == receive.multiplicity.eval(prep, main),
    ensures
        fingerprint(send, alphas, beta, prep, main) == fingerprint(receive, alphas, beta, prep, main),
        eadd(
            emul(
                ebase(signed_mult(send, true, prep, main)),
                einv(fingerprint(send, alphas, beta, prep, main)),
            ),
            emul(
                ebase(signed_mult(receive, false, prep, main)),
                einv(fingerprint(receive, alphas, beta, prep, main)),
            ),
        ) == ezero(),
{
    assert(send.values@.len() == send.eval_values(prep, main).len());
    assert(receive.values@.len() == receive.eval_values(prep, main).len());
    let m = send.multiplicity.eval(prep, main);
    let inv = einv(fingerprint(send, alphas, beta, prep, main));
    lemma_ebase_neg(m);
    lemma_emul_distrib(inv, ebase(m), ebase(fneg(m)));
    lemma_emul_zero(inv);
}

/// A sum splits at any point into the sum of the two parts.
pub proof fn lemma_seq_sum_split(xs: Seq<ExtSpec>, k: int)
    requires
        0 <= k <= xs.len(),
    ensures
        seq_sum(xs) == eadd(seq_sum(xs.subrange(0, k)), seq_sum(xs.subrange(k, xs.len() as int))),
    decreases xs.len(),
{
    if k == xs.len() {
        assert(xs.subrange(0, k) =~= xs);
        lemma_seq_sum_canon(xs);
        lemma_eadd_zero(seq_sum(xs));
    } else {
        let xs1 = xs.drop_last();
        lemma_seq_sum_split(xs1, k);
        assert(xs1.subrange(0, k) =~= xs.subrange(0, k));
        assert(xs.subrange(k, xs.len() as int).drop_last() =~= xs1.subrange(k, xs1.len() as int));
        lemma_eadd_assoc(
            seq_sum(xs.subrange(0, k)),
            seq_sum(xs1.subrange(k, xs1.len() as int)),
            xs.last(),
        );
    }
}

pub proof fn lemma_seq_sum_canon(xs: Seq<ExtSpec>)
    ensures
        ecanon(seq_sum(xs)),
    decreases xs.len(),
{
    lemma_results_canon(ezero(), ezero());
    if xs.len() > 0 {
        lemma_results_canon(seq_sum(xs.drop_last()), xs.last());
    }
}

/// The running sum at row `r` is the sum of the chunk cells of rows `0..=r`
/// however the rows are split between two workers: rows `0..k` and rows
/// `k..=r` summed apart and then added give the same value.
pub proof fn lemma_running_sum_split(t: Seq<Vec<ExtFelt>>, r: int, k: int)
    requires
        0 <= k <= r + 1,
        0 <= r,
    ensures
        running_sum(t, r) == eadd(
            seq_sum(Seq::new(k as nat, |i: int| cells_sum(t[i]@))),
            seq_sum(Seq::new((r + 1 - k) as nat, |i: int| cells_sum(t[k + i]@))),
        ),
{
    let xs = Seq::new((r + 1) as nat, |i: int| cells_sum(t[i]@));
    lemma_seq_sum_split(xs, k);
    assert(xs.subrange(0, k) =~= Seq::new(k as nat, |i: int| cells_sum(t[i]@)));
    assert(xs.subrange(k, r + 1) =~= Seq::new((r + 1 - k) as nat, |i: int| cells_sum(t[k + i]@)));
}

/// What the constraint evaluator reads on one row: the local preprocessed
/// and main rows, the local and next permutation rows, the challenges
/// `(alpha, beta)`, the chip's declared total and the row's position.
#[derive(Clone, Debug)]
pub struct PermutationWindow {
    pub preprocessed_local: Vec<Felt>,
    pub main_local: Vec<Felt>,
    pub perm_local: Vec<ExtFelt>,
    pub perm_next: Vec<ExtFelt>,
    pub random_elements: Vec<ExtFelt>,
    pub cumulative_sum: ExtFelt,
    pub is_first_row: bool,
    pub is_last_row: bool,
    pub is_transition: bool,
}

/// The window has the shape the chip's interactions need.
pub open spec fn window_fits(
    sends: Seq<Interaction>,
    receives: Seq<Interaction>,
    batch_size: nat,
    w: PermutationWindow,
) -> bool {
    let all = all_of(sends, receives);
    let width = num_chunks(all.len(), batch_size) + 1;
    &&& batch_size > 0
    &&& all.len() < usize::MAX
    &&& w.random_elements@.len() >= 2
    &&& w.perm_local@.len() == width
    &&& w.perm_next@.len() == width
    &&& forall|k: int| 0 <= k < all.len() ==> (#[trigger] all[k]).argument_index < usize::MAX
    &&& interactions_fit(
        all,
        alpha_count(all),
        w.preprocessed_local@.len(),
        w.main_local@.len(),
    )
}

/// Every identity the evaluator asserts on the window holds: each chunk
/// cell in cross-multiplied form; on a transition, the running sum grows by
/// the next row's cells; on the first row, it equals the row's cells; on
/// the last row, it equals the declared total.
pub open spec fn constraints_hold(
    sends: Seq<Interaction>,
    receives: Seq<Interaction>,
    batch_size: nat,
    w: PermutationWindow,
) -> bool {
    let all = all_of(sends, receives);
    let alphas = alpha_powers(w.random_elements@[0]@, alpha_count(all));
    let beta = w.random_elements@[1]@;
    let ms = row_mults(sends, receives, w.preprocessed_local@, w.main_local@);
    let dens = row_dens(sends, receives, alphas, beta, w.preprocessed_local@, w.main_local@);
    let last = w.perm_local@.len() - 1;
    &&& forall|j: int|
        0 <= j < num_chunks(all.len(), batch_size) ==> chunk_identity(
            ms,
            dens,
            batch_size,
            j as nat,
            (#[trigger] w.perm_local@[j])@,
        )
    &&& w.is_transition ==> esub(w.perm_next@[last]@, w.perm_local@[last]@) == cells_sum(
        w.perm_next@,
    )
    &&& w.is_first_row ==> w.perm_local@[last]@ == cells_sum(w.perm_local@)
    &&& w.is_last_row ==> w.perm_local@[last]@ == w.cumulative_sum@
}

/// Checks the cross-multiplied identity of one chunk against its cell.
fn check_chunk(
    sends: &[Interaction],
    receives: &[Interaction],
    preprocessed_row: &[Felt],
    main_row: &[Felt],
    alphas: &Vec<ExtFelt>,
    beta: ExtFelt,
    lo: usize,
    hi: usize,
    entry: ExtFelt,
) -> (r: bool)
    requires
        lo <= hi <= sends@.len() + receives@.len(),
        interactions_fit(
            all_of(sends@, receives@),
            alphas@.len(),
            preprocessed_row@.len(),
            main_row@.len(),
        ),
    ensures
        ({
            let ms = row_mults(sends@, receives@, preprocessed_row@, main_row@).subrange(
                lo as int,
                hi as int,
            );
            let dens = row_dens(
                sends@,
                receives@,
                ext_views(alphas@),
                beta@,
                preprocessed_row@,
                main_row@,
            ).subrange(lo as int, hi as int);
            r == (emul(batch_prod(dens), entry@) == batch_numerator(ms, dens))
        }),
{
    let ghost ms = row_mults(sends@, receives@, preprocessed_row@, main_row@).subrange(
        lo as int,
        hi as int,
    );
    let ghost dens = row_dens(
        sends@,
        receives@,
        ext_views(alphas@),
        beta@,
        preprocessed_row@,
        main_row@,
    ).subrange(lo as int, hi as int);
    let mut rlcs: Vec<ExtFelt> = Vec::new();
    let mut multiplicities: Vec<Felt> = Vec::new();
    let mut k: usize = lo;
    while k < hi
        invariant
            lo <= k <= hi,
            hi <= sends@.len() + receives@.len(),
            interactions_fit(
                all_of(sends@, receives@),
                alphas@.len(),
                preprocessed_row@.len(),
                main_row@.len(),
            ),
            rlcs@.len() == k - lo,
            multiplicities@.len() == k - lo,
            forall|i: int| 0 <= i < k - lo ==> (#[trigger] rlcs@[i])@ == dens[i],
            forall|i: int| 0 <= i < k - lo ==> (#[trigger] multiplicities@[i])@ == ms[i],
            ms == row_mults(sends@, receives@, preprocessed_row@, main_row@).subrange(
                lo as int,
                hi as int,
            ),
            dens == row_dens(
                sends@,
                receives@,
                ext_views(alphas@),
                beta@,
                preprocessed_row@,
                main_row@,
            ).subrange(lo as int, hi as int),
        decreases hi - k,
    {
        let (interaction, is_send) = interaction_at(sends, receives, k);
        assert(all_of(sends@, receives@)[k as int].in_range(
            preprocessed_row@.len(),
            main_row@.len(),
        ));
        rlcs.push(row_fingerprint(interaction, preprocessed_row, main_row, alphas.as_slice(), beta));
        let mut mult = interaction.multiplicity.apply(preprocessed_row, main_row);
        if !is_send {
            mult = mult.neg();
        }
        multiplicities.push(mult);
        k = k + 1;
    }
    let len = hi - lo;
    let mut product = ExtFelt::one();
    let mut numerator = ExtFelt::zero();
    let mut i: usize = 0;
    while i < len
        invariant
            i <= len,
            len == hi - lo,
            rlcs@.len() == len,
            multiplicities@.len() == len,
            ms.len() == len,
            dens.len() == len,
            forall|i: int| 0 <= i < len ==> (#[trigger] rlcs@[i])@ == dens[i],
            forall|i: int| 0 <= i < len ==> (#[trigger] multiplicities@[i])@ == ms[i],
            product@ == batch_prod(dens.subrange(0, i as int)),
            numerator@ == numerator_prefix(ms, dens, i as nat),
        decreases len - i,
    {
        product = product.mul(rlcs[i]);
        assert(dens.subrange(0, i + 1).drop_last() =~= dens.subrange(0, i as int));
        let mut all_but_current = ExtFelt::one();
        let mut l: usize = 0;
        while l < len
            invariant
                l <= len,
                i < len,
                rlcs@.len() == len,
                dens.len() == len,
                forall|i: int| 0 <= i < len ==> (#[trigger] rlcs@[i])@ == dens[i],
                all_but_current@ == prod_except(dens.subrange(0, l as int), i as int),
            decreases len - l,
        {
            if l != i {
                all_but_current = all_but_current.mul(rlcs[l]);
            }
            assert(dens.subrange(0, l + 1).drop_last() =~= dens.subrange(0, l as int));
            l = l + 1;
        }
        assert(dens.subrange(0, len as int) =~= dens);
        numerator = numerator.add(ExtFelt::from_base(multiplicities[i]).mul(all_but_current));
        i = i + 1;
    }
    assert(dens.subrange(0, len as int) =~= dens);
    product.mul(entry).equals(&numerator)
}

/// Evaluates the permutation constraints of a chip on one window of rows:
/// true exactly when every identity of `constraints_hold` holds.
pub fn eval_permutation_constraints(
    sends: &[Interaction],
    receives: &[Interaction],
    batch_size: usize,
    builder: &PermutationWindow,
) -> (r: bool)
    requires
        window_fits(sends@, receives@, batch_size as nat, *builder),
    ensures
        r == constraints_hold(sends@, receives@, batch_size as nat, *builder),
{
    let ghost all = all_of(sends@, receives@);
    let alpha = builder.random_elements[0];
    let beta = builder.random_elements[1];
    let alphas = generate_interaction_rlc_elements(sends, receives, alpha);
    proof {
        lemma_alpha_count_bounds(all);
        assert(ext_views(alphas@) =~= alpha_powers(alpha@, alpha_count(all)));
    }
    let ghost ms = row_mults(sends@, receives@, builder.preprocessed_local@, builder.main_local@);
    let ghost dens = row_dens(
        sends@,
        receives@,
        ext_views(alphas@),
        beta@,
        builder.preprocessed_local@,
        builder.main_local@,
    );
    let n = sends.len() + receives.len();
    let ghost b = batch_size as nat;
    let num = chunk_count(n, batch_size);
    let mut ok = true;
    let mut lo: usize = 0;
    let mut j: usize = 0;
    proof {
        lemma_no_chunks(b);
    }
    while lo < n
        invariant
            n == sends@.len() + receives@.len(),
            num == num_chunks(n as nat, b),
            b == batch_size,
            batch_size > 0,
            window_fits(sends@, receives@, b, *builder),
            all == all_of(sends@, receives@),
            alphas@.len() == alpha_count(all),
            forall|k: int| 0 <= k < all.len() ==> (#[trigger] all[k]).argument_index < alpha_count(all),
            ms == row_mults(sends@, receives@, builder.preprocessed_local@, builder.main_local@),
            dens == row_dens(
                sends@,
                receives@,
                ext_views(alphas@),
                beta@,
                builder.preprocessed_local@,
                builder.main_local@,
            ),
            lo == n || lo == j * batch_size,
            lo <= n,
            lo == n ==> j == num,
            j <= num,
            ok == forall|jj: int|
                0 <= jj < j ==> chunk_identity(ms, dens, b, jj as nat, (#[trigger] builder.perm_local@[jj])@),
        decreases n - lo,
    {
        proof {
            lemma_chunk_lt(n as nat, b, j as nat);
            assert(j <= j * b) by (nonlinear_arith)
                requires
                    b >= 1,
            ;
        }
        let hi = if batch_size >= n - lo {
            n
        } else {
            lo + batch_size
        };
        assert(hi == chunk_hi(j as nat, b, n as nat));
        let c = check_chunk(
            sends,
            receives,
            builder.preprocessed_local.as_slice(),
            builder.main_local.as_slice(),
            &alphas,
            beta,
            lo,
            hi,
            builder.perm_local[j],
        );
        ok = ok && c;
        proof {
            if hi == n {
                lemma_chunk_bounds(n as nat, b, j as nat);
            }
            assert((j + 1) * b == j * b + b) by (nonlinear_arith);
        }
        lo = hi;
        j = j + 1;
    }
    let last = builder.perm_local.len() - 1;
    let phi_local = builder.perm_local[last];
    let phi_next = builder.perm_next[last];
    let sum_local = row_cells_sum(&builder.perm_local);
    let sum_next = row_cells_sum(&builder.perm_next);
    let transition_ok = !builder.is_transition || phi_next.sub(phi_local).equals(&sum_next);
    let first_ok = !builder.is_first_row || phi_local.equals(&sum_local);
    let last_ok = !builder.is_last_row || phi_local.equals(&builder.cumulative_sum);
    ok && transition_ok && first_ok && last_ok
}

/// The trace that `generate_permutation_trace` returns satisfies the
/// evaluator on every row: a window that shows row `r` (and, on a
/// transition, row `r + 1`) with the challenges used to build it, and that
/// declares the trace's final running sum as the chip's total, passes every
/// identity of `constraints_hold`.
pub proof fn lemma_generated_trace_satisfies(
    sends: Seq<Interaction>,
    receives: Seq<Interaction>,
    preprocessed: Option<&Vec<Vec<Felt>>>,
    main: Seq<Vec<Felt>>,
    b: nat,
    t: Seq<Vec<ExtFelt>>,
    r: int,
    w: PermutationWindow,
)
    requires
        window_fits(sends, receives, b, w),
        0 <= r < t.len(),
        forall|i: int|
            0 <= i < t.len() ==> #[trigger] trace_row_ok(
                sends,
                receives,
                preprocessed,
                main,
                w.random_elements@[0]@,
                w.random_elements@[1]@,
                b,
                t,
                i,
            ),
        w.preprocessed_local@ == prep_row(preprocessed, r),
        w.main_local@ == main[r]@,
        w.perm_local@ == t[r]@,
        w.is_transition ==> r + 1 < t.len() && w.perm_next@ == t[r + 1]@,
        w.is_first_row ==> r == 0,
        w.is_last_row ==> r == t.len() - 1 && w.cumulative_sum@ == t[r]@[t[r]@.len() - 1]@,
    ensures
        constraints_hold(sends, receives, b, w),
{
    let all = all_of(sends, receives);
    let alpha = w.random_elements@[0]@;
    let beta = w.random_elements@[1]@;
    let width = num_chunks(all.len(), b) + 1;
    assert(trace_row_ok(sends, receives, preprocessed, main, alpha, beta, b, t, r));
    let ms = trace_mults(sends, receives, preprocessed, main, r);
    let dens = trace_dens(sends, receives, preprocessed, main, alpha, beta, r);
    lemma_row_cells_identity(ms, dens, b);
    assert forall|j: int| 0 <= j < num_chunks(all.len(), b) implies chunk_identity(
        ms,
        dens,
        b,
        j as nat,
        (#[trigger] w.perm_local@[j])@,
    ) by {
        assert(w.perm_local@[j] == t[r]@[j]);
        assert(t[r]@[j]@ == row_cells(ms, dens, b)[j]);
    }
    let last = width - 1;
    if w.is_transition {
        assert(trace_row_ok(sends, receives, preprocessed, main, alpha, beta, b, t, r + 1));
        let sums = Seq::new((r + 2) as nat, |i: int| cells_sum(t[i]@));
        assert(sums.drop_last() =~= Seq::new((r + 1) as nat, |i: int| cells_sum(t[i]@)));
        lemma_seq_sum_canon(ext_views(t[r + 1]@.subrange(0, t[r + 1]@.len() - 1)));
        lemma_esub_eadd(running_sum(t, r), cells_sum(t[r + 1]@));
    }
    if w.is_first_row {
        let sums = Seq::new(1, |i: int| cells_sum(t[i]@));
        assert(sums.drop_last() =~= Seq::<ExtSpec>::empty());
        assert(seq_sum(Seq::<ExtSpec>::empty()) == ezero());
        assert(seq_sum(sums) == eadd(seq_sum(sums.drop_last()), sums.last()));
        assert(running_sum(t, 0) == seq_sum(sums));
        assert(sums.last() == cells_sum(t[0]@));
        lemma_seq_sum_canon(ext_views(t[0]@.subrange(0, t[0]@.len() - 1)));
        lemma_eadd_zero(cells_sum(t[0]@));
        assert(w.perm_local@[last]@ == cells_sum(w.perm_local@));
    }
}

} // verus!
