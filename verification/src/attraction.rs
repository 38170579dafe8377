//! The table of attraction factors between particle types.

use vstd::prelude::*;
use crate::fixed::ONE;
use crate::random::random_in_range;

verus! {

/// Number of particle types of the default table.
pub const NUMBER_OF_TYPES: usize = 5;

/// Whether `matrix` is a table for `number_of_types` types: one factor in
/// `[-ONE, ONE]` for every ordered pair of types, row by row.
pub open spec fn table_valid(number_of_types: nat, matrix: Seq<i64>) -> bool {
    &&& matrix.len() == number_of_types * number_of_types
    &&& forall|k: int| 0 <= k < matrix.len() ==> -ONE <= #[trigger] matrix[k] <= ONE
}

/// How strongly a particle of one type is drawn to a particle of another:
/// a square table that need not be symmetric.
pub struct AttractionFactors {
    number_of_types: usize,
    matrix: Vec<i64>,
}

impl AttractionFactors {
    /// Number of types that the table covers.
    pub closed spec fn types(&self) -> nat {
        self.number_of_types as nat
    }

    /// The factors, row by row: the row is the type of the particle that is
    /// acted on, the column the type of the other particle.
    pub closed spec fn coefficients(&self) -> Seq<i64> {
        self.matrix@
    }

    /// Well-formedness: the factors form a valid table for the types.
    pub open spec fn wf(&self) -> bool {
        table_valid(self.types(), self.coefficients())
    }

    /// The factor by which a particle of type `type1` is drawn to one of
    /// type `type2`.
    pub open spec fn factor(&self, type1: int, type2: int) -> int {
        self.coefficients()[type1 * self.types() + type2] as int
    }

    /// Builds a table from its factors, given row by row. Fails unless there
    /// is exactly one factor in `[-ONE, ONE]` for every ordered pair of types.
    pub fn new(number_of_types: usize, matrix: Vec<i64>) -> (table: Option<AttractionFactors>)
        ensures
            table is Some <==> table_valid(number_of_types as nat, matrix@),
            table matches Some(t) ==> t.wf() && t.types() == number_of_types && t.coefficients()
                == matrix@,
    {
        let given = matrix.len();
        let expected = match number_of_types.checked_mul(number_of_types) {
            Some(cells) => cells,
            None => {
                return None;
            },
        };
        if given != expected {
            return None;
        }
        let mut k: usize = 0;
        while k < matrix.len()
            invariant
                k <= matrix.len(),
                forall|j: int| 0 <= j < k ==> -ONE <= #[trigger] matrix@[j] <= ONE,
            decreases matrix.len() - k,
        {
            if matrix[k] < -ONE || matrix[k] > ONE {
                return None;
            }
            k += 1;
        }
        Some(AttractionFactors { number_of_types, matrix })
    }

    /// Number of types that the table covers.
    pub fn number_of_types(&self) -> (n: usize)
        ensures
            n == self.types(),
    {
        self.number_of_types
    }

    /// Looks up the factor by which a particle of type `type1` is drawn to
    /// one of type `type2`.
    pub fn get_factor(&self, type1: usize, type2: usize) -> (f: i64)
        requires
            self.wf(),
            type1 < self.types(),
            type2 < self.types(),
        ensures
            f == self.factor(type1 as int, type2 as int),
            -ONE <= f <= ONE,
    {
        proof {
            lemma_cell_in_table(self.number_of_types as int, type1 as int, type2 as int);
            assert(self.matrix@.len() == self.matrix.len());
        }
        self.matrix[type1 * self.number_of_types + type2]
    }
}

impl Default for AttractionFactors {
    /// A table for [`NUMBER_OF_TYPES`] types whose factors are drawn
    /// independently from `[-ONE, ONE)`.
    fn default() -> (table: AttractionFactors)
        ensures
            table.wf(),
            table.types() == NUMBER_OF_TYPES,
            forall|k: int|
                0 <= k < table.coefficients().len() ==> #[trigger] table.coefficients()[k] < ONE,
    {
        let mut matrix: Vec<i64> = Vec::new();
        let mut k: usize = 0;
        while k < NUMBER_OF_TYPES * NUMBER_OF_TYPES
            invariant
                k <= NUMBER_OF_TYPES * NUMBER_OF_TYPES,
                matrix@.len() == k,
                forall|j: int| 0 <= j < k ==> -ONE <= #[trigger] matrix@[j] < ONE,
            decreases NUMBER_OF_TYPES * NUMBER_OF_TYPES - k,
        {
            matrix.push(random_in_range(-ONE, ONE));
            k += 1;
        }
        AttractionFactors { number_of_types: NUMBER_OF_TYPES, matrix }
    }
}

/// The cell of an ordered pair of types lies inside the table.
pub proof fn lemma_cell_in_table(n: int, row: int, column: int)
    requires
        0 <= row < n,
        0 <= column < n,
    ensures
        0 <= row * n <= row * n + column < n * n,
{
    assert(0 <= row * n && row * n + n <= n * n) by (nonlinear_arith)
        requires
            0 <= row < n,
    ;
}

} // verus!
