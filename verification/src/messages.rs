//! The texts of the errors that refused actions are answered with.
use crate::disk::DiskColor;
use crate::position::{Column, Position, Row};
use vstd::prelude::*;
use vstd::string::StringExecFns;

verus! {

/// The name of a color, as it is printed.
pub open spec fn color_text(color: DiskColor) -> Seq<char> {
    match color {
        DiskColor::Light => "Light"@,
        DiskColor::Dark => "Dark"@,
    }
}

/// The name of a row, as it is printed.
pub open spec fn row_text(row: Row) -> Seq<char> {
    match row {
        Row::One => "One"@,
        Row::Two => "Two"@,
        Row::Three => "Three"@,
        Row::Four => "Four"@,
        Row::Five => "Five"@,
        Row::Six => "Six"@,
        Row::Seven => "Seven"@,
        Row::Eight => "Eight"@,
    }
}

/// The name of a column, as it is printed.
pub open spec fn column_text(column: Column) -> Seq<char> {
    match column {
        Column::A => "A"@,
        Column::B => "B"@,
        Column::C => "C"@,
        Column::D => "D"@,
        Column::E => "E"@,
        Column::F => "F"@,
        Column::G => "G"@,
        Column::H => "H"@,
    }
}

/// A position, as it is printed.
pub open spec fn position_text(position: Position) -> Seq<char> {
    "Position { row: "@ + row_text(position.row_of()) + ", column: "@ + column_text(
        position.column_of(),
    ) + " }"@
}

/// The error for a disk put by the player whose turn it is not.
pub open spec fn wrong_turn_put_text(turn: DiskColor, color: DiskColor) -> Seq<char> {
    "Current turn is "@ + color_text(turn) + ", but tried to put a disk with the wrong turn: "@
        + color_text(color)
}

/// The error for a disk put on a square that holds a disk.
pub open spec fn non_empty_square_text(position: Position) -> Seq<char> {
    "Tried to put a disk on a non-empty square: "@ + position_text(position)
}

/// The error for a disk put on a square where it flips nothing.
pub open spec fn cannot_put_text(position: Position) -> Seq<char> {
    "Tried to put a disk on a square that cannot be put: "@ + position_text(position)
}

/// The error for a pass by the player whose turn it is not.
pub open spec fn wrong_turn_pass_text(turn: DiskColor, color: DiskColor) -> Seq<char> {
    "Current turn is "@ + color_text(turn) + ", but tried to pass turn with the wrong turn: "@
        + color_text(color)
}

/// The error for a pass while the player could put a disk.
pub open spec fn pass_with_moves_text() -> Seq<char> {
    "Tried to pass turn but there are puttable positions"@
}

fn color_name(color: DiskColor) -> (res: &'static str)
    ensures
        res@ == color_text(color),
{
    match color {
        DiskColor::Light => "Light",
        DiskColor::Dark => "Dark",
    }
}

fn row_name(row: Row) -> (res: &'static str)
    ensures
        res@ == row_text(row),
{
    match row {
        Row::One => "One",
        Row::Two => "Two",
        Row::Three => "Three",
        Row::Four => "Four",
        Row::Five => "Five",
        Row::Six => "Six",
        Row::Seven => "Seven",
        Row::Eight => "Eight",
    }
}

fn column_name(column: Column) -> (res: &'static str)
    ensures
        res@ == column_text(column),
{
    match column {
        Column::A => "A",
        Column::B => "B",
        Column::C => "C",
        Column::D => "D",
        Column::E => "E",
        Column::F => "F",
        Column::G => "G",
        Column::H => "H",
    }
}

fn push_position(text: &mut String, position: &Position)
    ensures
        final(text)@ == old(text)@ + position_text(*position),
{
    text.append("Position { row: ");
    text.append(row_name(position.row()));
    text.append(", column: ");
    text.append(column_name(position.column()));
    text.append(" }");
    proof {
        assert(final(text)@ =~= old(text)@ + position_text(*position));
    }
}

/// Builds the error for a disk put by the player whose turn it is not.
pub fn wrong_turn_put_message(turn: DiskColor, color: DiskColor) -> (res: String)
    ensures
        res@ == wrong_turn_put_text(turn, color),
{
    let mut text = String::from_str("Current turn is ");
    text.append(color_name(turn));
    text.append(", but tried to put a disk with the wrong turn: ");
    text.append(color_name(color));
    proof {
        assert(text@ =~= wrong_turn_put_text(turn, color));
    }
    text
}

/// Builds the error for a disk put on a square that holds a disk.
pub fn non_empty_square_message(position: &Position) -> (res: String)
    ensures
        res@ == non_empty_square_text(*position),
{
    let mut text = String::from_str("Tried to put a disk on a non-empty square: ");
    push_position(&mut text, position);
    text
}

/// Builds the error for a disk put on a square where it flips nothing.
pub fn cannot_put_message(position: &Position) -> (res: String)
    ensures
        res@ == cannot_put_text(*position),
{
    let mut text = String::from_str("Tried to put a disk on a square that cannot be put: ");
    push_position(&mut text, position);
    text
}

/// Builds the error for a pass by the player whose turn it is not.
pub fn wrong_turn_pass_message(turn: DiskColor, color: DiskColor) -> (res: String)
    ensures
        res@ == wrong_turn_pass_text(turn, color),
{
    let mut text = String::from_str("Current turn is ");
    text.append(color_name(turn));
    text.append(", but tried to pass turn with the wrong turn: ");
    text.append(color_name(color));
    proof {
        assert(text@ =~= wrong_turn_pass_text(turn, color));
    }
    text
}

/// Builds the error for a pass while the player could put a disk.
pub fn pass_with_moves_message() -> (res: String)
    ensures
        res@ == pass_with_moves_text(),
{
    String::from_str("Tried to pass turn but there are puttable positions")
}

} // verus!
