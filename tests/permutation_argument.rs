use sp1_core::field::{ExtFelt, Felt, MODULUS};
use sp1_core::interaction::{Interaction, PairCol, VirtualPairCol};
use sp1_core::permutation::{
    eval_permutation_constraints, generate_interaction_rlc_elements, generate_permutation_trace,
    populate_permutation_row, PermutationError, PermutationWindow,
};

fn f(x: u32) -> Felt {
    Felt::new(x)
}

fn ext_base(x: u32) -> ExtFelt {
    ExtFelt::from_base(Felt::new(x))
}

fn alpha0() -> ExtFelt {
    ExtFelt::new(3, 7)
}

fn beta0() -> ExtFelt {
    ExtFelt::new(11, 2)
}

/// An interaction over main columns `cols` with multiplicity column `m`.
fn over_cols(cols: &[usize], m: usize, index: usize) -> Interaction {
    Interaction::new(
        cols.iter().map(|&c| VirtualPairCol::single_main(c)).collect(),
        VirtualPairCol::single_main(m),
        index,
    )
}

fn scenario(send_mult: u32, send_value: u32, recv_mult: u32, recv_value: u32) -> (Vec<Interaction>, Vec<Interaction>, Vec<Vec<Felt>>) {
    // main row: [send value, send multiplicity, receive value, receive multiplicity]
    let sends = vec![over_cols(&[0], 1, 0)];
    let receives = vec![over_cols(&[2], 3, 0)];
    let main = vec![vec![f(send_value), f(send_mult), f(recv_value), f(recv_mult)]];
    (sends, receives, main)
}

fn window_for(
    trace: &[Vec<ExtFelt>],
    main: &[Vec<Felt>],
    r: usize,
    random: &[ExtFelt],
) -> PermutationWindow {
    let h = trace.len();
    let width = trace[0].len();
    PermutationWindow {
        preprocessed_local: Vec::new(),
        main_local: main[r].clone(),
        perm_local: trace[r].clone(),
        perm_next: trace[(r + 1) % h].clone(),
        random_elements: random.to_vec(),
        cumulative_sum: trace[h - 1][width - 1],
        is_first_row: r == 0,
        is_last_row: r + 1 == h,
        is_transition: r + 1 < h,
    }
}

#[test]
fn single_send_and_receive_cancel() {
    let (sends, receives, main) = scenario(1, 5, 1, 5);
    let random = vec![alpha0(), beta0()];
    let trace = generate_permutation_trace(&sends, &receives, None, &main, &random, 1).unwrap();
    assert_eq!(trace.len(), 1);
    assert_eq!(trace[0].len(), 3);
    let den = alpha0().add(beta0().mul(ext_base(5)));
    // the send's cell is 1/den and the receive's is -1/den
    assert!(trace[0][0].mul(den).equals(&ExtFelt::one()));
    assert!(trace[0][1].mul(den).equals(&ExtFelt::one().sub(ext_base(2))));
    assert!(trace[0][0].add(trace[0][1]).equals(&ExtFelt::zero()));
    assert!(trace[0][2].equals(&ExtFelt::zero()));

    let trace = generate_permutation_trace(&sends, &receives, None, &main, &random, 2).unwrap();
    assert_eq!(trace[0].len(), 2);
    assert!(trace[0][0].equals(&ExtFelt::zero()));
    assert!(trace[0][1].equals(&ExtFelt::zero()));
    let w = window_for(&trace, &main, 0, &random);
    assert!(eval_permutation_constraints(&sends, &receives, 2, &w));
}

#[test]
fn corrupted_multiplicity_or_value_fails() {
    let random = vec![alpha0(), beta0()];
    let (sends, receives, main) = scenario(1, 5, 1, 5);
    let trace = generate_permutation_trace(&sends, &receives, None, &main, &random, 1).unwrap();
    let good = window_for(&trace, &main, 0, &random);
    assert!(eval_permutation_constraints(&sends, &receives, 1, &good));
    for k in 0..4 {
        let mut bad = good.clone();
        let old = bad.main_local[k].value();
        bad.main_local[k] = f(old + 1);
        assert!(!eval_permutation_constraints(&sends, &receives, 1, &bad), "column {}", k);
    }
    // a permutation row computed from corrupted inputs does not balance
    let (sends, receives, main) = scenario(2, 5, 1, 5);
    let trace = generate_permutation_trace(&sends, &receives, None, &main, &random, 1).unwrap();
    assert!(!trace[0][2].equals(&ExtFelt::zero()));
    let (sends, receives, main) = scenario(1, 5, 1, 6);
    let trace = generate_permutation_trace(&sends, &receives, None, &main, &random, 2).unwrap();
    assert!(!trace[0][1].equals(&ExtFelt::zero()));
}

fn sample_chip() -> (Vec<Interaction>, Vec<Interaction>, Vec<Vec<Felt>>) {
    let sends = vec![
        over_cols(&[0, 1], 4, 0),
        over_cols(&[2], 5, 2),
        Interaction::new(
            vec![VirtualPairCol::new(vec![(PairCol::Main(0), f(3))], f(9))],
            VirtualPairCol::constant(f(1)),
            1,
        ),
    ];
    let receives = vec![over_cols(&[1, 0], 5, 0), over_cols(&[3], 4, 2)];
    let main: Vec<Vec<Felt>> = (0..6u32)
        .map(|r| vec![f(r + 1), f(2 * r + 7), f(r * r), f(40 + r), f(r % 3), f(1)])
        .collect();
    (sends, receives, main)
}

fn cells_sum(row: &[ExtFelt]) -> ExtFelt {
    let mut s = ExtFelt::zero();
    for c in &row[..row.len() - 1] {
        s = s.add(*c);
    }
    s
}

#[test]
fn every_row_satisfies_constraints() {
    let (sends, receives, main) = sample_chip();
    let random = vec![ExtFelt::new(123456, 789), ExtFelt::new(98765, 4321)];
    for b in 1..=6 {
        let trace = generate_permutation_trace(&sends, &receives, None, &main, &random, b).unwrap();
        assert_eq!(trace[0].len(), (5 + b - 1) / b + 1);
        for r in 0..trace.len() {
            let w = window_for(&trace, &main, r, &random);
            assert!(eval_permutation_constraints(&sends, &receives, b, &w), "b {} row {}", b, r);
        }
        let mut w = window_for(&trace, &main, 2, &random);
        w.perm_local[0] = w.perm_local[0].add(ExtFelt::one());
        assert!(!eval_permutation_constraints(&sends, &receives, b, &w));
    }
}

#[test]
fn cumulative_column_is_total_of_cells() {
    let (sends, receives, main) = sample_chip();
    let random = vec![ExtFelt::new(5, 17), ExtFelt::new(29, 31)];
    for b in [1usize, 2, 4] {
        let trace = generate_permutation_trace(&sends, &receives, None, &main, &random, b).unwrap();
        let mut total = ExtFelt::zero();
        for row in &trace {
            total = total.add(cells_sum(row));
            assert!(row[row.len() - 1].equals(&total));
        }
        // two halves summed apart give the same total
        let mut first = ExtFelt::zero();
        let mut second = ExtFelt::zero();
        for (r, row) in trace.iter().enumerate() {
            if r < 4 {
                first = first.add(cells_sum(row));
            } else {
                second = second.add(cells_sum(row));
            }
        }
        let last = &trace[trace.len() - 1];
        assert!(first.add(second).equals(&last[last.len() - 1]));
    }
}

#[test]
fn matching_send_and_receive_in_one_chunk_is_zero() {
    // send (x, y) with multiplicity m and receive (x, y) with the same m
    let sends = vec![over_cols(&[0, 1], 2, 3)];
    let receives = vec![over_cols(&[0, 1], 2, 3)];
    let main = vec![vec![f(10), f(20), f(4)], vec![f(MODULUS as u32 - 1), f(0), f(1)]];
    let random = vec![ExtFelt::new(1000, 3), ExtFelt::new(77, 5)];
    let trace = generate_permutation_trace(&sends, &receives, None, &main, &random, 2).unwrap();
    for row in &trace {
        assert!(row[0].equals(&ExtFelt::zero()));
        assert!(row[1].equals(&ExtFelt::zero()));
    }
}

#[test]
fn preprocessed_columns_are_read() {
    let sends = vec![Interaction::new(
        vec![VirtualPairCol::new(vec![(PairCol::Preprocessed(0), f(1))], f(0))],
        VirtualPairCol::single_main(0),
        0,
    )];
    let receives = vec![over_cols(&[1], 0, 0)];
    let prep = vec![vec![f(8)], vec![f(9)]];
    let main = vec![vec![f(1), f(8)], vec![f(1), f(9)]];
    let random = vec![ExtFelt::new(4, 4), ExtFelt::new(6, 1)];
    let trace = generate_permutation_trace(&sends, &receives, Some(&prep), &main, &random, 2).unwrap();
    assert!(trace[0][0].equals(&ExtFelt::zero()));
    assert!(trace[1][1].equals(&ExtFelt::zero()));
}

#[test]
fn zero_denominator_is_an_error() {
    // alpha + beta * 5 == 0 when beta = 1 and alpha = -5
    let (sends, receives, main) = scenario(1, 5, 1, 5);
    let random = vec![ExtFelt::new(MODULUS as u32 - 5, 0), ExtFelt::one()];
    let r = generate_permutation_trace(&sends, &receives, None, &main, &random, 1);
    assert_eq!(r, Err(PermutationError::ZeroDenominator));
    let mut row = vec![ExtFelt::zero(); 3];
    let alphas = generate_interaction_rlc_elements(&sends, &receives, random[0]);
    let r = populate_permutation_row(&mut row, &[], &main[0], &sends, &receives, &alphas, random[1], 1);
    assert_eq!(r, Err(PermutationError::ZeroDenominator));
}

#[test]
fn rlc_elements_are_powers() {
    let sends = vec![over_cols(&[0], 0, 0), over_cols(&[0], 0, 3)];
    let receives = vec![over_cols(&[0], 0, 1)];
    let a = ExtFelt::new(2, 3);
    let alphas = generate_interaction_rlc_elements(&sends, &receives, a);
    assert_eq!(alphas.len(), 4);
    assert!(alphas[0].equals(&a));
    assert!(alphas[1].equals(&a.mul(a)));
    assert!(alphas[3].equals(&a.mul(a).mul(a).mul(a)));
    // (2 + 3X)^2 = 4 + 12X + 9 * 11 = 103 + 12X
    assert!(alphas[1].equals(&ExtFelt::new(103, 12)));
    let none = generate_interaction_rlc_elements(&[], &[], a);
    assert_eq!(none.len(), 1);
}

#[test]
fn row_cells_and_running_cell_kept() {
    let (sends, receives, main) = scenario(3, 5, 1, 5);
    let random = vec![alpha0(), beta0()];
    let alphas = generate_interaction_rlc_elements(&sends, &receives, random[0]);
    let marker = ExtFelt::new(42, 43);
    let mut row = vec![ExtFelt::zero(), marker];
    populate_permutation_row(&mut row, &[], &main[0], &sends, &receives, &alphas, random[1], 2).unwrap();
    let den = alpha0().add(beta0().mul(ext_base(5)));
    // (3 - 1) / den
    assert!(row[0].mul(den).equals(&ext_base(2)));
    assert!(row[1].equals(&marker));
}
