//! Rows, columns and positions of the board.
use crate::bits::{in_board, single, square_index};
use vstd::prelude::*;
use vstd::std_specs::convert::FromSpecImpl;

verus! {

/// A row of the board, from the top.
#[derive(Copy, Clone, PartialEq, Eq, Structural, Debug)]
pub enum Row {
    One,
    Two,
    Three,
    Four,
    Five,
    Six,
    Seven,
    Eight,
}

/// A column of the board, from the left.
#[derive(Copy, Clone, PartialEq, Eq, Structural, Debug)]
pub enum Column {
    A,
    B,
    C,
    D,
    E,
    F,
    G,
    H,
}

/// The number of a row, counted from 0 at the top.
pub open spec fn row_index(row: Row) -> int {
    match row {
        Row::One => 0,
        Row::Two => 1,
        Row::Three => 2,
        Row::Four => 3,
        Row::Five => 4,
        Row::Six => 5,
        Row::Seven => 6,
        Row::Eight => 7,
    }
}

/// The number of a column, counted from 0 at the left.
pub open spec fn column_index(column: Column) -> int {
    match column {
        Column::A => 0,
        Column::B => 1,
        Column::C => 2,
        Column::D => 3,
        Column::E => 4,
        Column::F => 5,
        Column::G => 6,
        Column::H => 7,
    }
}

/// Rows with the same number are the same row.
pub proof fn lemma_row_index_injective(a: Row, b: Row)
    ensures
        0 <= row_index(a) < 8,
        row_index(a) == row_index(b) ==> a == b,
{
}

/// Columns with the same number are the same column.
pub proof fn lemma_column_index_injective(a: Column, b: Column)
    ensures
        0 <= column_index(a) < 8,
        column_index(a) == column_index(b) ==> a == b,
{
}

impl Row {
    /// Returns the number of this row, counted from 0 at the top.
    pub fn index(&self) -> (res: u8)
        ensures
            res == row_index(*self),
    {
        match self {
            Row::One => 0,
            Row::Two => 1,
            Row::Three => 2,
            Row::Four => 3,
            Row::Five => 4,
            Row::Six => 5,
            Row::Seven => 6,
            Row::Eight => 7,
        }
    }

    /// Returns the row with number `value`, or `None` if there is none.
    pub fn from_u8(value: u8) -> (res: Option<Row>)
        ensures
            value < 8 ==> (res matches Some(row) && row_index(row) == value),
            value >= 8 ==> res is None,
    {
        match value {
            0 => Some(Row::One),
            1 => Some(Row::Two),
            2 => Some(Row::Three),
            3 => Some(Row::Four),
            4 => Some(Row::Five),
            5 => Some(Row::Six),
            6 => Some(Row::Seven),
            7 => Some(Row::Eight),
            _ => None,
        }
    }
}

impl Column {
    /// Returns the number of this column, counted from 0 at the left.
    pub fn index(&self) -> (res: u8)
        ensures
            res == column_index(*self),
    {
        match self {
            Column::A => 0,
            Column::B => 1,
            Column::C => 2,
            Column::D => 3,
            Column::E => 4,
            Column::F => 5,
            Column::G => 6,
            Column::H => 7,
        }
    }

    /// Returns the column with number `value`, or `None` if there is none.
    pub fn from_u8(value: u8) -> (res: Option<Column>)
        ensures
            value < 8 ==> (res matches Some(column) && column_index(column) == value),
            value >= 8 ==> res is None,
    {
        match value {
            0 => Some(Column::A),
            1 => Some(Column::B),
            2 => Some(Column::C),
            3 => Some(Column::D),
            4 => Some(Column::E),
            5 => Some(Column::F),
            6 => Some(Column::G),
            7 => Some(Column::H),
            _ => None,
        }
    }
}

/// A position of the square in the board.
#[derive(PartialEq, Eq, Structural, Debug, Copy, Clone)]
pub struct Position {
    /// A row of the board.
    row: Row,
    /// A column of the board.
    column: Column,
}

impl Position {
    /// The row of this position.
    pub closed spec fn row_of(self) -> Row {
        self.row
    }

    /// The column of this position.
    pub closed spec fn column_of(self) -> Column {
        self.column
    }

    /// The number of the row of this position.
    pub open spec fn r(self) -> int {
        row_index(self.row_of())
    }

    /// The number of the column of this position.
    pub open spec fn c(self) -> int {
        column_index(self.column_of())
    }

    /// Creates a new [`Position`].
    pub fn new(row: Row, column: Column) -> (res: Self)
        ensures
            res.row_of() == row,
            res.column_of() == column,
    {
        Self { row, column }
    }

    /// Returns the row of this [`Position`].
    pub fn row(&self) -> (res: Row)
        ensures
            res == self.row_of(),
    {
        self.row
    }

    /// Returns the column of this [`Position`].
    pub fn column(&self) -> (res: Column)
        ensures
            res == self.column_of(),
    {
        self.column
    }

    /// Returns the index of this position counted row by row from the
    /// top-left square (`0`) to the bottom-right square (`63`).
    pub fn index(&self) -> (res: usize)
        ensures
            res == square_index(self.r(), self.c()),
    {
        (self.row.index() as usize) * 8 + (self.column.index() as usize)
    }

    /// Returns the position with the given index, or `None` if `index >= 64`.
    pub fn from_index(index: usize) -> (res: Option<Position>)
        ensures
            index < 64 ==> (res matches Some(p) && square_index(p.r(), p.c()) == index),
            index >= 64 ==> res is None,
    {
        if index >= 64 {
            return None;
        }
        let row = Row::from_u8((index / 8) as u8).unwrap();
        let column = Column::from_u8((index % 8) as u8).unwrap();
        Some(Position::new(row, column))
    }
}

/// Every position lies on the board.
pub proof fn lemma_position_in_board(p: Position)
    ensures
        in_board(p.r(), p.c()),
        0 <= square_index(p.r(), p.c()) < 64,
{
    lemma_row_index_injective(p.row_of(), p.row_of());
    lemma_column_index_injective(p.column_of(), p.column_of());
}

impl From<(Row, Column)> for Position {
    fn from(value: (Row, Column)) -> (res: Self)
        ensures
            res.row_of() == value.0,
            res.column_of() == value.1,
    {
        Self::new(value.0, value.1)
    }
}

impl FromSpecImpl<(Row, Column)> for Position {
    open spec fn obeys_from_spec() -> bool {
        true
    }

    open spec fn from_spec(v: (Row, Column)) -> Self {
        choose|p: Position| p.row_of() == v.0 && p.column_of() == v.1
    }
}

impl From<Position> for usize {
    fn from(value: Position) -> (res: Self)
        ensures
            res == square_index(value.r(), value.c()),
    {
        value.index()
    }
}

impl FromSpecImpl<Position> for usize {
    open spec fn obeys_from_spec() -> bool {
        true
    }

    open spec fn from_spec(v: Position) -> usize {
        square_index(v.r(), v.c()) as usize
    }
}

/// A position as a plane with a single bit set.
#[derive(Copy, Clone, PartialEq, Eq, Structural, Debug)]
pub struct BitPosition(pub u64);

impl BitPosition {
    /// Whether this value stands for exactly the square `(r, c)`.
    pub open spec fn is_square(self, r: int, c: int) -> bool {
        in_board(r, c) && self.0 == single(r, c)
    }

    /// Whether this value stands for exactly one square of the board.
    pub open spec fn wf(self) -> bool {
        exists|r: int, c: int| #[trigger] self.is_square(r, c)
    }
}

impl From<Position> for BitPosition {
    fn from(value: Position) -> (res: Self)
        ensures
            res.is_square(value.r(), value.c()),
    {
        proof {
            lemma_position_in_board(value);
        }
        BitPosition(1u64 << (63 - value.index()) as u64)
    }
}

impl FromSpecImpl<Position> for BitPosition {
    open spec fn obeys_from_spec() -> bool {
        true
    }

    open spec fn from_spec(v: Position) -> BitPosition {
        BitPosition(single(v.r(), v.c()))
    }
}

} // verus!
