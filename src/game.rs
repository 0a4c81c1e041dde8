//! One round of the puzzle as a state machine: the caller presents the grid,
//! asks for the status, and hands in each move the player makes.

use vstd::prelude::*;
use crate::rng::Rng;
use crate::grid::{
    WIDTH, HEIGHT, PALETTE_SIZE, MOVE_BUDGET, dims_ok, in_palette, all_same, flooded, generated,
    generate, is_solved,
};
use crate::flood::{flood, lemma_flood_in_palette};

verus! {

/// Where a round stands after a presentation.
#[derive(PartialEq, Eq, Structural, Debug, Clone, Copy)]
pub enum Status {
    /// Every cell has one colour: the round is won.
    Won,
    /// The move budget is spent without a win.
    Exhausted,
    /// The round goes on; the next move is awaited.
    AwaitingMove,
}

/// The status of a grid `g` after `step` moves.
pub open spec fn status_of(g: Seq<u8>, step: int) -> Status {
    if all_same(g) {
        Status::Won
    } else if step >= MOVE_BUDGET {
        Status::Exhausted
    } else {
        Status::AwaitingMove
    }
}

/// The grid and step count at which a round that starts from grid `g` at
/// `step` ends when the moves of `moves` are played in order.
pub open spec fn round_end(g: Seq<u8>, w: int, h: int, step: nat, moves: Seq<u8>) -> (Seq<u8>, nat)
    decreases MOVE_BUDGET - step,
{
    if status_of(g, step as int) != Status::AwaitingMove || moves.len() == 0 {
        (g, step)
    } else {
        round_end(flooded(g, w, h, moves[0]), w, h, step + 1, moves.drop_first())
    }
}

/// One round: the grid it is played on and the moves made so far.
pub struct Round {
    pub grid: Vec<u8>,
    pub width: usize,
    pub height: usize,
    pub step: u8,
}

impl Round {
    /// The grid has the round's dimensions and palette colours, and the
    /// step count is within the budget.
    pub open spec fn wf(&self) -> bool {
        &&& dims_ok(self.grid@, self.width as int, self.height as int)
        &&& in_palette(self.grid@)
        &&& self.step <= MOVE_BUDGET
    }

    /// A fresh round on a full-size grid generated from `seed`; the same seed
    /// always gives the same grid.
    pub fn new(seed: u64) -> (r: Round)
        ensures
            r.wf(),
            r.grid@ == generated(seed, (WIDTH * HEIGHT) as nat),
            r.width == WIDTH,
            r.height == HEIGHT,
            r.step == 0,
    {
        let mut rng = Rng::new(seed);
        let grid = generate(&mut rng, WIDTH, HEIGHT);
        Round { grid, width: WIDTH, height: HEIGHT, step: 0 }
    }

    /// A fresh round on a given grid.
    pub fn from_grid(grid: Vec<u8>, width: usize, height: usize) -> (r: Round)
        requires
            dims_ok(grid@, width as int, height as int),
            in_palette(grid@),
        ensures
            r.wf(),
            r.grid == grid,
            r.width == width,
            r.height == height,
            r.step == 0,
    {
        Round { grid, width, height, step: 0 }
    }

    /// Won when the grid is one colour, whatever is left of the budget;
    /// otherwise exhausted once the budget is spent; otherwise a move is due.
    pub fn status(&self) -> (r: Status)
        ensures
            r == status_of(self.grid@, self.step as int),
    {
        if is_solved(&self.grid) {
            Status::Won
        } else if self.step >= MOVE_BUDGET {
            Status::Exhausted
        } else {
            Status::AwaitingMove
        }
    }

    /// Floods the origin's region with colour `mv` and counts the move.
    pub fn apply(&mut self, mv: u8)
        requires
            old(self).wf(),
            old(self).step < MOVE_BUDGET,
            mv < PALETTE_SIZE,
        ensures
            final(self).wf(),
            final(self).grid@ == flooded(
                old(self).grid@,
                old(self).width as int,
                old(self).height as int,
                mv,
            ),
            final(self).width == old(self).width,
            final(self).height == old(self).height,
            final(self).step == old(self).step + 1,
    {
        proof {
            lemma_flood_in_palette(self.grid@, self.width as int, self.height as int, mv);
        }
        flood(&mut self.grid, self.width, self.height, mv);
        self.step = self.step + 1;
    }

    /// Plays the round to its end with the moves of `moves`, in order,
    /// presenting the grid before each move and once at the end. Returns
    /// whether the round was won and how many presentations it took, which
    /// is never more than one over the budget.
    pub fn replay(&mut self, moves: &Vec<u8>) -> (r: (bool, u8))
        requires
            old(self).wf(),
            old(self).step + moves.len() >= MOVE_BUDGET,
            forall|k: int| 0 <= k < moves.len() ==> #[trigger] moves@[k] < PALETTE_SIZE,
        ensures
            final(self).wf(),
            final(self).width == old(self).width,
            final(self).height == old(self).height,
            (final(self).grid@, final(self).step as nat) == round_end(
                old(self).grid@,
                old(self).width as int,
                old(self).height as int,
                old(self).step as nat,
                moves@,
            ),
            r.0 == all_same(final(self).grid@),
            r.0 || final(self).step == MOVE_BUDGET,
            r.1 == final(self).step - old(self).step + 1,
            r.1 <= MOVE_BUDGET + 1,
    {
        let ghost g0 = self.grid@;
        let ghost s0 = self.step as nat;
        let ghost w = self.width as int;
        let ghost h = self.height as int;
        let mut k: usize = 0;
        let mut shown: u8 = 0;
        assert(moves@.skip(0) =~= moves@);
        loop
            invariant
                self.wf(),
                self.width == w,
                self.height == h,
                w == old(self).width,
                h == old(self).height,
                g0 == old(self).grid@,
                s0 == old(self).step,
                s0 <= self.step,
                k == self.step - s0,
                shown == k,
                s0 + moves.len() >= MOVE_BUDGET,
                forall|t: int| 0 <= t < moves.len() ==> #[trigger] moves@[t] < PALETTE_SIZE,
                round_end(self.grid@, w, h, self.step as nat, moves@.skip(k as int))
                    == round_end(g0, w, h, s0, moves@),
            decreases MOVE_BUDGET - self.step,
        {
            shown = shown + 1;
            match self.status() {
                Status::Won => {
                    return (true, shown);
                },
                Status::Exhausted => {
                    return (false, shown);
                },
                Status::AwaitingMove => {
                    let ghost ms = moves@.skip(k as int);
                    proof {
                        assert(ms.drop_first() =~= moves@.skip(k + 1));
                    }
                    self.apply(moves[k]);
                    k = k + 1;
                },
            }
        }
    }
}

} // verus!
