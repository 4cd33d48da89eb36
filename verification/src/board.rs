//! A compact representation of a Reversi board.
use crate::bits::{at, in_board, lemma_at_ops_all, lemma_single, single, step_c, step_r};
use crate::disk::DiskColor;
use crate::position::{lemma_position_in_board, Column, Position, Row};
use vstd::prelude::*;

verus! {

/// A compact representation of a Reversi board.
///
/// Each bit represents a disk at the position. The most significant bit
/// represents the disk at the top-left. The least significant bit represents
/// the disk at the bottom-right.
///
/// For each disk color, if the bit is set to `1`, it means there is a disk of
/// the corresponding color at the corresponding position. If the bit is set to
/// `0`, it means there is no disk of the corresponding color at the
/// corresponding position.
#[derive(Clone, Copy, PartialEq, Eq, Structural, Debug, Hash)]
pub struct Bitboard {
    /// A bit representation of dark disks.
    dark_plane: u64,
    /// A bit representation of light disks.
    light_plane: u64,
}

/// The dark plane of the initial board: disks on E4 and D5.
pub open spec fn initial_dark() -> u64 {
    0x0000_0008_1000_0000u64
}

/// The light plane of the initial board: disks on D4 and E5.
pub open spec fn initial_light() -> u64 {
    0x0000_0010_0800_0000u64
}

impl Bitboard {
    /// The dark plane of this board.
    pub closed spec fn dark(self) -> u64 {
        self.dark_plane
    }

    /// The light plane of this board.
    pub closed spec fn light(self) -> u64 {
        self.light_plane
    }

    /// The plane of the disks of `color`.
    pub open spec fn plane(self, color: DiskColor) -> u64 {
        match color {
            DiskColor::Dark => self.dark(),
            DiskColor::Light => self.light(),
        }
    }

    /// Whether no square holds disks of both colors.
    pub open spec fn valid(self) -> bool {
        self.dark() & self.light() == 0
    }

    /// Creates a new [`Bitboard`].
    pub fn new(dark_plane: u64, light_plane: u64) -> (res: Self)
        ensures
            res.dark() == dark_plane,
            res.light() == light_plane,
    {
        Self { dark_plane, light_plane }
    }

    /// Returns the dark plane of this [`Bitboard`].
    pub fn dark_plane(&self) -> (res: u64)
        ensures
            res == self.dark(),
    {
        self.dark_plane
    }

    /// Returns the light plane of this [`Bitboard`].
    pub fn light_plane(&self) -> (res: u64)
        ensures
            res == self.light(),
    {
        self.light_plane
    }
}

/// Boards with the same planes are equal.
pub proof fn lemma_bitboard_ext(a: Bitboard, b: Bitboard)
    requires
        a.dark() == b.dark(),
        a.light() == b.light(),
    ensures
        a == b,
{
}

impl Default for Bitboard {
    fn default() -> (res: Self)
        ensures
            res.dark() == initial_dark(),
            res.light() == initial_light(),
    {
        let idx_4d: usize = Position::new(Row::Four, Column::D).index();
        let idx_4e: usize = Position::new(Row::Four, Column::E).index();
        let idx_5d: usize = Position::new(Row::Five, Column::D).index();
        let idx_5e: usize = Position::new(Row::Five, Column::E).index();
        assert(idx_4d == 27 && idx_4e == 28 && idx_5d == 35 && idx_5e == 36);
        let dark_plane = (1u64 << idx_4e as u64) | (1u64 << idx_5d as u64);
        let light_plane = (1u64 << idx_4d as u64) | (1u64 << idx_5e as u64);
        assert(dark_plane == 0x0000_0008_1000_0000u64) by (bit_vector)
            requires
                dark_plane == (1u64 << 28u64) | (1u64 << 35u64),
        ;
        assert(light_plane == 0x0000_0010_0800_0000u64) by (bit_vector)
            requires
                light_plane == (1u64 << 27u64) | (1u64 << 36u64),
        ;
        Self::new(dark_plane, light_plane)
    }
}

/// The disk on square `(r, c)` of `board`: dark if the dark plane has one
/// there, else light if the light plane has one, else none.
pub open spec fn disk_at(board: Bitboard, r: int, c: int) -> Option<DiskColor> {
    if at(board.dark(), r, c) {
        Some(DiskColor::Dark)
    } else if at(board.light(), r, c) {
        Some(DiskColor::Light)
    } else {
        None
    }
}

/// `after` is `before` once a disk of `color` has been set on `position`: the
/// square holds a disk of `color` and none of the other color, and every
/// other square is unchanged.
pub open spec fn disk_set(before: Bitboard, after: Bitboard, position: Position, color: DiskColor) -> bool {
    &&& forall|r: int, c: int|
        in_board(r, c) ==> #[trigger] disk_at(after, r, c) == if r == position.r() && c
            == position.c() {
            Some(color)
        } else {
            disk_at(before, r, c)
        }
    &&& forall|r: int, c: int|
        !(r == position.r() && c == position.c()) ==> (#[trigger] at(after.dark(), r, c) == at(
            before.dark(),
            r,
            c,
        ) && at(after.light(), r, c) == at(before.light(), r, c))
    &&& at(after.plane(color), position.r(), position.c())
    &&& !at(after.plane(crate::disk::opposite_color(color)), position.r(), position.c())
}

/// A trait which provides an extension method for the [`Bitboard`].
pub trait BoardExt: Sized {
    /// Sets a disk to the specified position. This operation does not consider reversi rules.
    fn set_disk(&mut self, position: Position, color: DiskColor);

    /// Gets a disk from the specified position.
    fn get_disk(&self, position: &Position) -> Option<DiskColor>;

    /// Gets all the rays from the specified position.
    fn get_rays(&self, position: &Position) -> [Vec<(Option<DiskColor>, Position)>; 8];
}

/// The direction (numbered as in [`crate::bits::step_r`]) that ray `i` of
/// [`BoardExt::get_rays`] follows. Rays are numbered right, right up, up,
/// left up, left, left down, down, right down.
pub open spec fn ray_direction(i: int) -> int {
    if i == 0 {
        0
    } else if i == 1 {
        6
    } else if i == 2 {
        3
    } else if i == 3 {
        7
    } else if i == 4 {
        1
    } else if i == 5 {
        5
    } else if i == 6 {
        2
    } else {
        4
    }
}

/// The number of squares between `(r, c)` and the edge of the board in
/// direction `d`.
pub open spec fn ray_len(d: int, r: int, c: int) -> int {
    let rows = if step_r(d, r, 1) > r {
        7 - r
    } else if step_r(d, r, 1) < r {
        r
    } else {
        8
    };
    let columns = if step_c(d, c, 1) > c {
        7 - c
    } else if step_c(d, c, 1) < c {
        c
    } else {
        8
    };
    if rows < columns {
        rows
    } else {
        columns
    }
}

/// `ray` lists, in order, each square met walking from `(r, c)` in direction
/// `d` up to the edge of the board, with the disk on it.
pub open spec fn is_ray(
    board: Bitboard,
    ray: Seq<(Option<DiskColor>, Position)>,
    d: int,
    r: int,
    c: int,
) -> bool {
    &&& ray.len() == ray_len(d, r, c)
    &&& forall|j: int|
        #![trigger ray[j]]
        0 <= j < ray.len() ==> {
            &&& ray[j].1.r() == step_r(d, r, j + 1)
            &&& ray[j].1.c() == step_c(d, c, j + 1)
            &&& ray[j].0 == disk_at(board, step_r(d, r, j + 1), step_c(d, c, j + 1))
        }
}

/// A walk from a square stays on the board exactly for the first
/// `ray_len` steps.
proof fn lemma_ray_len(d: int, r: int, c: int, k: int)
    requires
        0 <= d < 8,
        in_board(r, c),
        k >= 1,
    ensures
        in_board(step_r(d, r, k), step_c(d, c, k)) <==> k <= ray_len(d, r, c),
{
}

/// The squares met walking from `position` along ray `i`, with their disks.
fn ray(board: &Bitboard, position: &Position, i: u8) -> (res: Vec<(Option<DiskColor>, Position)>)
    requires
        i < 8,
    ensures
        is_ray(*board, res@, ray_direction(i as int), position.r(), position.c()),
{
    let ghost d = ray_direction(i as int);
    let ghost r = position.r();
    let ghost c = position.c();
    proof {
        lemma_position_in_board(*position);
    }
    let (dc, dr): (i8, i8) = match i {
        0 => (1, 0),
        1 => (1, -1),
        2 => (0, -1),
        3 => (-1, -1),
        4 => (-1, 0),
        5 => (-1, 1),
        6 => (0, 1),
        _ => (1, 1),
    };
    let mut column: i8 = position.column().index() as i8 + dc;
    let mut row: i8 = position.row().index() as i8 + dr;
    let mut rays: Vec<(Option<DiskColor>, Position)> = Vec::new();
    while 0 <= column && column < 8 && 0 <= row && row < 8
        invariant
            0 <= d < 8,
            in_board(r, c),
            forall|k: int| #[trigger] step_r(d, r, k + 1) == step_r(d, r, k) + dr,
            forall|k: int| #[trigger] step_c(d, c, k + 1) == step_c(d, c, k) + dc,
            row == step_r(d, r, rays@.len() as int + 1),
            column == step_c(d, c, rays@.len() as int + 1),
            rays@.len() <= ray_len(d, r, c),
            forall|j: int|
                #![trigger rays@[j]]
                0 <= j < rays@.len() ==> {
                    &&& rays@[j].1.r() == step_r(d, r, j + 1)
                    &&& rays@[j].1.c() == step_c(d, c, j + 1)
                    &&& rays@[j].0 == disk_at(*board, step_r(d, r, j + 1), step_c(d, c, j + 1))
                },
        decreases ray_len(d, r, c) - rays@.len(),
    {
        proof {
            lemma_ray_len(d, r, c, rays@.len() as int + 1);
        }
        let square = Position::new(Row::from_u8(row as u8).unwrap(), Column::from_u8(column as u8).unwrap());
        let disk = board.get_disk(&square);
        rays.push((disk, square));
        column = column + dc;
        row = row + dr;
    }
    proof {
        lemma_ray_len(d, r, c, rays@.len() as int + 1);
    }
    rays
}

impl BoardExt for Bitboard {
    fn set_disk(&mut self, position: Position, color: DiskColor)
        ensures
            disk_set(*old(self), *final(self), position, color),
    {
        proof {
            lemma_position_in_board(position);
        }
        let bit = 1u64 << (63 - position.index()) as u64;
        let old_dark = self.dark_plane;
        let old_light = self.light_plane;
        match color {
            DiskColor::Dark => {
                self.dark_plane = old_dark | bit;
                self.light_plane = old_light & !bit;
            },
            DiskColor::Light => {
                self.dark_plane = old_dark & !bit;
                self.light_plane = old_light | bit;
            },
        }
        proof {
            assert(bit == single(position.r(), position.c()));
            lemma_single(position.r(), position.c());
            lemma_at_ops_all(old_dark, bit);
            lemma_at_ops_all(old_light, bit);
            lemma_at_ops_all(old_dark, !bit);
            lemma_at_ops_all(old_light, !bit);
            lemma_at_ops_all(bit, bit);
        }
    }

    fn get_rays(&self, position: &Position) -> (res: [Vec<(Option<DiskColor>, Position)>; 8])
        ensures
            forall|i: int|
                0 <= i < 8 ==> is_ray(
                    *self,
                    #[trigger] res@[i]@,
                    ray_direction(i),
                    position.r(),
                    position.c(),
                ),
    {
        [
            ray(self, position, 0),
            ray(self, position, 1),
            ray(self, position, 2),
            ray(self, position, 3),
            ray(self, position, 4),
            ray(self, position, 5),
            ray(self, position, 6),
            ray(self, position, 7),
        ]
    }

    fn get_disk(&self, position: &Position) -> (res: Option<DiskColor>)
        ensures
            res == disk_at(*self, position.r(), position.c()),
    {
        proof {
            lemma_position_in_board(*position);
        }
        let i = (63 - position.index()) as u64;
        if (self.dark_plane >> i) & 1 == 1 {
            Some(DiskColor::Dark)
        } else if (self.light_plane >> i) & 1 == 1 {
            Some(DiskColor::Light)
        } else {
            None
        }
    }
}

} // verus!
