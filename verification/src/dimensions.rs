use vstd::prelude::*;

use crate::error::ErrorKind;

verus! {

/// The shape of a matrix: either explicitly square, or a general
/// rows-by-columns rectangle.
///
/// Two shapes are compared semantically: `Square(n)` and
/// `Rectangle { rows: n, columns: n }` describe the same shape and are
/// equal under `==`. Construction from a (rows, columns) pair collapses
/// to the square variant whenever the two sides agree, so normalized
/// values never represent one shape two ways.
#[derive(Debug, Clone, Copy)]
pub enum Dimensions {
    Square(usize),
    Rectangle { rows: usize, columns: usize },
}

impl Dimensions {
    /// Number of rows, as a mathematical value.
    pub open spec fn spec_rows(self) -> nat {
        match self {
            Dimensions::Square(len) => len as nat,
            Dimensions::Rectangle { rows, .. } => rows as nat,
        }
    }

    /// Number of columns, as a mathematical value.
    pub open spec fn spec_columns(self) -> nat {
        match self {
            Dimensions::Square(len) => len as nat,
            Dimensions::Rectangle { columns, .. } => columns as nat,
        }
    }

    /// Number of entries a matrix of this shape holds.
    pub open spec fn spec_count(self) -> nat {
        self.spec_rows() * self.spec_columns()
    }

    /// The shape with rows and columns exchanged.
    pub open spec fn spec_transposed(self) -> Dimensions {
        match self {
            Dimensions::Rectangle { rows, columns } => Dimensions::Rectangle {
                rows: columns,
                columns: rows,
            },
            Dimensions::Square(_) => self,
        }
    }

    /// Shapes agree when they have the same rows and the same columns,
    /// whichever variant carries them.
    pub open spec fn same_shape(self, other: Dimensions) -> bool {
        self.spec_rows() == other.spec_rows() && self.spec_columns() == other.spec_columns()
    }

    /// The normalized shape for a (rows, columns) pair: the square
    /// variant when the sides agree, the rectangular one otherwise.
    pub open spec fn spec_of_pair(rows: usize, columns: usize) -> Dimensions {
        if rows == columns {
            Dimensions::Square(rows)
        } else {
            Dimensions::Rectangle { rows, columns }
        }
    }

    /// Returns the number of rows.
    pub fn rows(&self) -> (r: usize)
        ensures
            r == self.spec_rows(),
    {
        match self {
            Dimensions::Square(len) => *len,
            Dimensions::Rectangle { rows, .. } => *rows,
        }
    }

    /// Returns the number of columns.
    pub fn columns(&self) -> (r: usize)
        ensures
            r == self.spec_columns(),
    {
        match self {
            Dimensions::Square(len) => *len,
            Dimensions::Rectangle { columns, .. } => *columns,
        }
    }

    /// Returns the total number of entries, rows times columns. The
    /// product must fit in `usize`; every shape that a live matrix
    /// carries satisfies that, since its buffer holds that many entries.
    pub fn count(&self) -> (r: usize)
        requires
            self.spec_count() <= usize::MAX,
        ensures
            r == self.spec_count(),
    {
        self.rows() * self.columns()
    }

    /// Returns this shape with rows and columns exchanged. The square
    /// variant is its own transpose.
    pub fn transposed(&self) -> (r: Dimensions)
        ensures
            r == self.spec_transposed(),
            r.spec_rows() == self.spec_columns(),
            r.spec_columns() == self.spec_rows(),
    {
        match self {
            Dimensions::Rectangle { rows, columns } => Dimensions::Rectangle {
                rows: *columns,
                columns: *rows,
            },
            Dimensions::Square(_) => *self,
        }
    }

    /// Builds the normalized shape for a rows-by-columns matrix. A side
    /// of zero is a caller error and is reported, not accepted.
    pub fn from_pair(rows: usize, columns: usize) -> (r: Result<Dimensions, ErrorKind>)
        ensures
            match r {
                Ok(d) => rows > 0 && columns > 0 && d == Dimensions::spec_of_pair(rows, columns),
                Err(e) => (rows == 0 || columns == 0) && e is DimensionsIncorrct,
            },
    {
        if rows == 0 || columns == 0 {
            Err(ErrorKind::DimensionsIncorrct("Rows and columns should be positive.".to_string()))
        } else {
            Ok(Dimensions::from((rows, columns)))
        }
    }
}

impl From<(usize, usize)> for Dimensions {
    /// The normalized shape for a (rows, columns) pair.
    fn from(pair: (usize, usize)) -> (r: Self) {
        if pair.0 == pair.1 {
            Dimensions::Square(pair.0)
        } else {
            Dimensions::Rectangle { rows: pair.0, columns: pair.1 }
        }
    }
}

impl vstd::std_specs::convert::FromSpecImpl<(usize, usize)> for Dimensions {
    open spec fn obeys_from_spec() -> bool {
        true
    }

    open spec fn from_spec(pair: (usize, usize)) -> Dimensions {
        Dimensions::spec_of_pair(pair.0, pair.1)
    }
}

impl From<usize> for Dimensions {
    /// The square shape of the given side.
    fn from(len: usize) -> (r: Self) {
        Dimensions::Square(len)
    }
}

impl vstd::std_specs::convert::FromSpecImpl<usize> for Dimensions {
    open spec fn obeys_from_spec() -> bool {
        true
    }

    open spec fn from_spec(len: usize) -> Dimensions {
        Dimensions::Square(len)
    }
}

impl PartialEq for Dimensions {
    /// Semantic shape equality: the variants need not match, only the
    /// rows and columns they describe.
    fn eq(&self, other: &Self) -> (r: bool) {
        self.rows() == other.rows() && self.columns() == other.columns()
    }
}

impl vstd::std_specs::cmp::PartialEqSpecImpl for Dimensions {
    open spec fn obeys_eq_spec() -> bool {
        true
    }

    open spec fn eq_spec(&self, other: &Dimensions) -> bool {
        self.same_shape(*other)
    }
}

/// Exchanging rows and columns twice gives back the original shape,
/// the same variant included.
pub proof fn lemma_transposed_involution(d: Dimensions)
    ensures
        d.spec_transposed().spec_transposed() == d,
{
}

} // verus!
