//! The puzzle board and its move algebra.

use vstd::prelude::*;

use crate::perm::appears;
use crate::perm::blank_of;
use crate::perm::is_permutation;
use crate::perm::lemma_blank_of_valid;
use crate::perm::lemma_solved_is_permutation;
use crate::perm::lemma_swap_preserves_permutation;
use crate::perm::solved_seq;
use crate::perm::swap_seq;

verus! {

/// A direction in which a tile can slide. Moving `Up` slides the tile below
/// the blank up into the blank, so the blank itself steps down, and so on
/// for the other directions.
#[derive(Debug, Clone, Copy, PartialEq, Eq, Structural)]
pub enum Direction {
    Up,
    Down,
    Left,
    Right,
}

/// The index of the cell whose tile would slide into a blank at `blank`,
/// or `None` when that cell would lie outside the 3x3 grid.
pub open spec fn move_target(blank: int, dir: Direction) -> Option<int> {
    match dir {
        Direction::Up => if blank + 3 < 9 {
            Some(blank + 3)
        } else {
            None
        },
        Direction::Down => if blank >= 3 {
            Some(blank - 3)
        } else {
            None
        },
        Direction::Left => if blank % 3 != 2 {
            Some(blank + 1)
        } else {
            None
        },
        Direction::Right => if blank % 3 != 0 {
            Some(blank - 1)
        } else {
            None
        },
    }
}

/// The layout after one move: the blank swaps with the target cell, or the
/// layout is unchanged when the move runs into a wall.
pub open spec fn move_spec(s: Seq<u8>, dir: Direction) -> Seq<u8>
    recommends
        is_permutation(s),
{
    match move_target(blank_of(s), dir) {
        Some(t) => swap_seq(s, blank_of(s), t),
        None => s,
    }
}

/// The 3x3 sliding puzzle: nine cells in row-major order, `0` for the blank.
#[derive(Debug, Clone, PartialEq, Eq, Hash)]
pub struct Board {
    pub tiles: Vec<u8>,
}

impl Board {
    /// The board invariant: the tiles are a permutation of `0..=8`.
    pub open spec fn wf(&self) -> bool {
        is_permutation(self.tiles@)
    }

    /// A board in the solved layout `[1, 2, 3, 4, 5, 6, 7, 8, 0]`.
    pub fn new() -> (b: Board)
        ensures
            b.wf(),
            b.tiles@ == solved_seq(),
    {
        let mut tiles: Vec<u8> = Vec::new();
        tiles.push(1);
        tiles.push(2);
        tiles.push(3);
        tiles.push(4);
        tiles.push(5);
        tiles.push(6);
        tiles.push(7);
        tiles.push(8);
        tiles.push(0);
        proof {
            assert(tiles@ =~= solved_seq());
            lemma_solved_is_permutation();
        }
        Board { tiles }
    }

    /// The index of the blank: the unique cell holding `0`.
    pub fn get_blank_position(&self) -> (r: usize)
        requires
            self.wf(),
        ensures
            r < 9,
            self.tiles@[r as int] == 0,
            forall|j: int| 0 <= j < 9 && self.tiles@[j] == 0 ==> j == r,
    {
        let mut i: usize = 0;
        while i < 8
            invariant
                i <= 8,
                self.wf(),
                forall|j: int| 0 <= j < i ==> self.tiles@[j] != 0,
            decreases 8 - i,
        {
            if self.tiles[i] == 0 {
                return i;
            }
            i = i + 1;
        }
        proof {
            lemma_blank_of_valid(self.tiles@);
            assert(blank_of(self.tiles@) == 8);
        }
        i
    }

    /// True exactly when the tiles stand in the solved layout.
    pub fn is_solved(&self) -> (r: bool)
        ensures
            r <==> self.tiles@ == solved_seq(),
    {
        let solved = self.tiles.len() == 9 && self.tiles[0] == 1 && self.tiles[1] == 2
            && self.tiles[2] == 3 && self.tiles[3] == 4 && self.tiles[4] == 5
            && self.tiles[5] == 6 && self.tiles[6] == 7 && self.tiles[7] == 8
            && self.tiles[8] == 0;
        proof {
            if solved {
                assert(self.tiles@ =~= solved_seq());
            } else if self.tiles@ == solved_seq() {
                assert(self.tiles@[0] == 1);
                assert(self.tiles@[1] == 2);
                assert(self.tiles@[2] == 3);
                assert(self.tiles@[3] == 4);
                assert(self.tiles@[4] == 5);
                assert(self.tiles@[5] == 6);
                assert(self.tiles@[6] == 7);
                assert(self.tiles@[7] == 8);
                assert(self.tiles@[8] == 0);
                assert(false);
            }
        }
        solved
    }

    /// Slide one tile in `direction`, or leave the board unchanged when the
    /// move runs into a wall.
    pub fn move_tile(&mut self, direction: Direction)
        requires
            old(self).wf(),
        ensures
            final(self).wf(),
            final(self).tiles@ == move_spec(old(self).tiles@, direction),
    {
        let blank_pos = self.get_blank_position();
        proof {
            lemma_blank_of_valid(self.tiles@);
            assert(blank_of(self.tiles@) == blank_pos as int);
        }
        let target: Option<usize> = match direction {
            Direction::Up => if blank_pos + 3 < 9 {
                Some(blank_pos + 3)
            } else {
                None
            },
            Direction::Down => if blank_pos >= 3 {
                Some(blank_pos - 3)
            } else {
                None
            },
            Direction::Left => if blank_pos % 3 != 2 {
                Some(blank_pos + 1)
            } else {
                None
            },
            Direction::Right => if blank_pos % 3 != 0 {
                Some(blank_pos - 1)
            } else {
                None
            },
        };
        match target {
            Some(t) => {
                proof {
                    lemma_swap_preserves_permutation(self.tiles@, blank_pos as int, t as int);
                }
                let blank_tile = self.tiles[blank_pos];
                let moved_tile = self.tiles[t];
                self.tiles.set(blank_pos, moved_tile);
                self.tiles.set(t, blank_tile);
            },
            None => {},
        }
    }

    /// Scramble the board with one hundred random moves, never repeating the
    /// direction just attempted. Every step is a legal slide or a wall bump,
    /// so the result stays a permutation and is reachable from the starting
    /// layout.
    pub fn shuffle(&mut self)
        requires
            old(self).wf(),
        ensures
            final(self).wf(),
            exists|dirs: Seq<Direction>|
                dirs.len() == 100 && final(self).tiles@ == apply_moves(old(self).tiles@, dirs),
    {
        let mut previous_move: Option<Direction> = None;
        let ghost mut played: Seq<Direction> = Seq::empty();
        let mut i: usize = 0;
        while i < 100
            invariant
                i <= 100,
                self.wf(),
                played.len() == i,
                self.tiles@ == apply_moves(old(self).tiles@, played),
            decreases 100 - i,
        {
            let mut moves: Vec<Direction> = Vec::new();
            match previous_move {
                None => {
                    moves.push(Direction::Up);
                    moves.push(Direction::Down);
                    moves.push(Direction::Left);
                    moves.push(Direction::Right);
                },
                Some(prev) => {
                    if prev != Direction::Up {
                        moves.push(Direction::Up);
                    }
                    if prev != Direction::Down {
                        moves.push(Direction::Down);
                    }
                    if prev != Direction::Left {
                        moves.push(Direction::Left);
                    }
                    if prev != Direction::Right {
                        moves.push(Direction::Right);
                    }
                },
            }
            let direction = random_direction(&moves);
            proof {
                lemma_apply_moves_push(old(self).tiles@, played, direction);
            }
            self.move_tile(direction);
            previous_move = Some(direction);
            proof {
                played = played.push(direction);
            }
            i = i + 1;
        }
        proof {
            assert(played.len() == 100 && self.tiles@ == apply_moves(old(self).tiles@, played));
        }
    }

    /// Decide the board invariant at run time: true exactly when the tiles
    /// are a permutation of `0..=8`.
    pub fn is_well_formed(&self) -> (r: bool)
        ensures
            r == self.wf(),
    {
        if self.tiles.len() != 9 {
            return false;
        }
        let mut i: usize = 0;
        while i < 9
            invariant
                self.tiles@.len() == 9,
                i <= 9,
                forall|k: int| 0 <= k < i ==> self.tiles@[k] < 9,
                forall|k: int, l: int|
                    0 <= k < i && 0 <= l < 9 && k != l ==> self.tiles@[k] != self.tiles@[l],
            decreases 9 - i,
        {
            if self.tiles[i] >= 9 {
                return false;
            }
            let mut j: usize = i + 1;
            while j < 9
                invariant
                    self.tiles@.len() == 9,
                    i < 9,
                    i < j <= 9,
                    forall|l: int| i < l < j ==> self.tiles@[i as int] != self.tiles@[l],
                decreases 9 - j,
            {
                if self.tiles[j] == self.tiles[i] {
                    return false;
                }
                j = j + 1;
            }
            i = i + 1;
        }
        let mut v: u8 = 0;
        while v < 9
            invariant
                self.tiles@.len() == 9,
                v <= 9,
                forall|w: u8| w < v ==> #[trigger] appears(self.tiles@, w),
            decreases 9 - v,
        {
            let mut j: usize = 0;
            let mut found = false;
            while j < 9
                invariant
                    self.tiles@.len() == 9,
                    j <= 9,
                    found == exists|k: int| 0 <= k < j && self.tiles@[k] == v,
                decreases 9 - j,
            {
                if self.tiles[j] == v {
                    found = true;
                }
                j = j + 1;
            }
            if !found {
                assert(!appears(self.tiles@, v));
                return false;
            }
            assert(appears(self.tiles@, v));
            v = v + 1;
        }
        true
    }
}

/// Relies on rand::seq::SliceRandom::choose with rand::thread_rng(): on a
/// non-empty slice it returns `Some` of a uniformly random element, so the
/// result is one of the slice's elements.
#[verifier::external_body]
fn random_direction(moves: &Vec<Direction>) -> (r: Direction)
    requires
        moves@.len() > 0,
    ensures
        moves@.contains(r),
{
    *rand::seq::SliceRandom::choose(moves.as_slice(), &mut rand::thread_rng()).unwrap()
}

/// The blank stands at the edge over which `dir` would push it: a move in
/// that direction runs into a wall.
pub open spec fn blank_at_wall(s: Seq<u8>, dir: Direction) -> bool {
    let b = blank_of(s);
    match dir {
        Direction::Up => b / 3 == 2,
        Direction::Down => b / 3 == 0,
        Direction::Left => b % 3 == 2,
        Direction::Right => b % 3 == 0,
    }
}

/// Law: a move against a wall leaves the board unchanged.
pub proof fn lemma_wall_move_is_noop(s: Seq<u8>, dir: Direction)
    requires
        is_permutation(s),
        blank_at_wall(s, dir),
    ensures
        move_spec(s, dir) == s,
{
    lemma_blank_of_valid(s);
}

/// One move keeps a permutation a permutation.
pub proof fn lemma_move_preserves_permutation(s: Seq<u8>, dir: Direction)
    requires
        is_permutation(s),
    ensures
        is_permutation(move_spec(s, dir)),
{
    lemma_blank_of_valid(s);
    let b = blank_of(s);
    match move_target(b, dir) {
        Some(t) => {
            assert(0 <= t < 9);
            lemma_swap_preserves_permutation(s, b, t);
        },
        None => {},
    }
}

/// The layout after playing the moves of `dirs` in order, starting from `s`.
pub open spec fn apply_moves(s: Seq<u8>, dirs: Seq<Direction>) -> Seq<u8>
    decreases dirs.len(),
{
    if dirs.len() == 0 {
        s
    } else {
        apply_moves(move_spec(s, dirs[0]), dirs.subrange(1, dirs.len() as int))
    }
}

/// Law: every sequence of moves keeps a permutation a permutation.
pub proof fn lemma_moves_preserve_permutation(s: Seq<u8>, dirs: Seq<Direction>)
    requires
        is_permutation(s),
    ensures
        is_permutation(apply_moves(s, dirs)),
    decreases dirs.len(),
{
    if dirs.len() > 0 {
        lemma_move_preserves_permutation(s, dirs[0]);
        lemma_moves_preserve_permutation(
            move_spec(s, dirs[0]),
            dirs.subrange(1, dirs.len() as int),
        );
    }
}

/// Law: any sequence of moves played from the solved state keeps the cells
/// a permutation of `0..=8` at every step.
pub proof fn lemma_moves_from_solved_keep_permutation(dirs: Seq<Direction>)
    ensures
        is_permutation(apply_moves(solved_seq(), dirs)),
{
    lemma_solved_is_permutation();
    lemma_moves_preserve_permutation(solved_seq(), dirs);
}

/// Playing one more move after `dirs` is one move applied to the layout
/// that `dirs` reaches.
proof fn lemma_apply_moves_push(s: Seq<u8>, dirs: Seq<Direction>, d: Direction)
    ensures
        apply_moves(s, dirs.push(d)) == move_spec(apply_moves(s, dirs), d),
    decreases dirs.len(),
{
    let whole = dirs.push(d);
    if dirs.len() == 0 {
        assert(whole[0] == d);
        assert(whole.subrange(1, 1) =~= Seq::<Direction>::empty());
        assert(apply_moves(s, whole) == apply_moves(move_spec(s, d), whole.subrange(1, 1)));
        assert(apply_moves(move_spec(s, d), whole.subrange(1, 1)) == move_spec(s, d));
        assert(apply_moves(s, dirs) == s);
    } else {
        let tail = dirs.subrange(1, dirs.len() as int);
        let stepped = move_spec(s, dirs[0]);
        assert(whole[0] == dirs[0]);
        assert(whole.subrange(1, whole.len() as int) =~= tail.push(d));
        lemma_apply_moves_push(stepped, tail, d);
        assert(apply_moves(s, whole) == apply_moves(stepped, tail.push(d)));
        assert(apply_moves(s, dirs) == apply_moves(stepped, tail));
    }
}

} // verus!
