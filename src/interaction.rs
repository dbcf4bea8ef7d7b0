//! Interactions: value tuples that one table sends and another receives.
use vstd::prelude::*;
use crate::field::{Felt, fadd, fmul};

verus! {

/// A column of the preprocessed or of the main trace.
#[derive(Clone, Copy, Debug, PartialEq, Eq)]
pub enum PairCol {
    Preprocessed(usize),
    Main(usize),
}

pub open spec fn col_in_range(c: PairCol, prep_len: nat, main_len: nat) -> bool {
    match c {
        PairCol::Preprocessed(i) => i < prep_len,
        PairCol::Main(i) => i < main_len,
    }
}

pub open spec fn col_value(c: PairCol, prep: Seq<Felt>, main: Seq<Felt>) -> int {
    match c {
        PairCol::Preprocessed(i) => prep[i as int]@,
        PairCol::Main(i) => main[i as int]@,
    }
}

/// `constant + sum_j weight_j * column_j` over the first `terms.len()` terms,
/// accumulated from the left.
pub open spec fn terms_value(
    terms: Seq<(PairCol, Felt)>,
    constant: int,
    prep: Seq<Felt>,
    main: Seq<Felt>,
) -> int
    decreases terms.len(),
{
    if terms.len() == 0 {
        constant
    } else {
        fadd(
            terms_value(terms.drop_last(), constant, prep, main),
            fmul(terms.last().1@, col_value(terms.last().0, prep, main)),
        )
    }
}

/// A column expression: an affine combination of preprocessed and main
/// columns of the current row.
#[derive(Clone, Debug)]
pub struct VirtualPairCol {
    pub column_weights: Vec<(PairCol, Felt)>,
    pub constant: Felt,
}

impl VirtualPairCol {
    pub open spec fn in_range(&self, prep_len: nat, main_len: nat) -> bool {
        forall|j: int|
            0 <= j < self.column_weights@.len() ==> col_in_range(
                #[trigger] self.column_weights@[j].0,
                prep_len,
                main_len,
            )
    }

    pub open spec fn eval(&self, prep: Seq<Felt>, main: Seq<Felt>) -> int {
        terms_value(self.column_weights@, self.constant@, prep, main)
    }

    pub fn new(column_weights: Vec<(PairCol, Felt)>, constant: Felt) -> (r: Self)
        ensures
            r.column_weights@ == column_weights@,
            r.constant == constant,
    {
        VirtualPairCol { column_weights, constant }
    }

    /// The main column `i` alone.
    pub fn single_main(i: usize) -> (r: Self)
        ensures
            r.column_weights@ == seq![(PairCol::Main(i), Felt { val: 1 })],
            r.constant@ == 0,
    {
        let r = VirtualPairCol {
            column_weights: vec![(PairCol::Main(i), Felt::one())],
            constant: Felt::zero(),
        };
        assert(r.column_weights@ =~= seq![(PairCol::Main(i), Felt { val: 1 })]);
        r
    }

    /// The constant `c`.
    pub fn constant(c: Felt) -> (r: Self)
        ensures
            r.column_weights@.len() == 0,
            r.constant == c,
    {
        VirtualPairCol { column_weights: Vec::new(), constant: c }
    }

    /// Evaluates the expression on a row.
    pub fn apply(&self, preprocessed: &[Felt], main: &[Felt]) -> (r: Felt)
        requires
            self.in_range(preprocessed@.len(), main@.len()),
        ensures
            r@ == self.eval(preprocessed@, main@),
    {
        let mut acc = self.constant;
        let mut j: usize = 0;
        while j < self.column_weights.len()
            invariant
                j <= self.column_weights@.len(),
                self.in_range(preprocessed@.len(), main@.len()),
                acc@ == terms_value(
                    self.column_weights@.subrange(0, j as int),
                    self.constant@,
                    preprocessed@,
                    main@,
                ),
            decreases self.column_weights@.len() - j,
        {
            let (col, weight) = self.column_weights[j];
            assert(col_in_range(self.column_weights@[j as int].0, preprocessed@.len(), main@.len()));
            let v = match col {
                PairCol::Preprocessed(i) => preprocessed[i],
                PairCol::Main(i) => main[i],
            };
            acc = acc.add(weight.mul(v));
            assert(self.column_weights@.subrange(0, j + 1).drop_last() =~= self.column_weights@.subrange(
                0,
                j as int,
            ));
            j = j + 1;
        }
        assert(self.column_weights@.subrange(0, j as int) =~= self.column_weights@);
        acc
    }
}

/// A value tuple sent or received on the channel `argument_index`, with a
/// multiplicity. Whether it is a send or a receive is given by the list of
/// the chip that holds it.
#[derive(Clone, Debug)]
pub struct Interaction {
    pub values: Vec<VirtualPairCol>,
    pub multiplicity: VirtualPairCol,
    pub argument_index: usize,
}

impl Interaction {
    pub open spec fn in_range(&self, prep_len: nat, main_len: nat) -> bool {
        &&& self.multiplicity.in_range(prep_len, main_len)
        &&& forall|k: int|
            0 <= k < self.values@.len() ==> #[trigger] self.values@[k].in_range(
                prep_len,
                main_len,
            )
    }

    /// The values of the tuple on a row.
    pub open spec fn eval_values(&self, prep: Seq<Felt>, main: Seq<Felt>) -> Seq<int> {
        self.values@.map_values(|e: VirtualPairCol| e.eval(prep, main))
    }

    pub fn new(values: Vec<VirtualPairCol>, multiplicity: VirtualPairCol, argument_index: usize) -> (r: Self)
        ensures
            r.values@ == values@,
            r.multiplicity == multiplicity,
            r.argument_index == argument_index,
    {
        Interaction { values, multiplicity, argument_index }
    }

    pub fn argument_index(&self) -> (r: usize)
        ensures
            r == self.argument_index,
    {
        self.argument_index
    }
}

} // verus!
