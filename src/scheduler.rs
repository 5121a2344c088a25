use vstd::prelude::*;

use crate::tile::Tile;

verus! {

/// What the rendering loop is to do next.
#[derive(Clone, Copy, PartialEq, Eq, Structural, Debug)]
pub enum Action {
    /// Start a worker on this tile.
    Dispatch(Tile),
    /// Wait for the oldest running worker, which renders this tile, and write
    /// its pixels into the image.
    Merge(Tile),
    /// Every tile has been rendered and written.
    Done,
}

/// Hands tiles out to at most `limit` workers at a time, and has finished
/// tiles merged in the order in which they went out.
///
/// Tiles `tiles[..merged]` are written, `tiles[merged..next]` are being
/// rendered, and `tiles[next..]` wait.
pub struct Scheduler {
    pub tiles: Vec<Tile>,
    pub next: usize,
    pub merged: usize,
    pub limit: usize,
}

/// The action that `step` takes in state `s`.
pub open spec fn action_of(s: Scheduler) -> Action {
    if s.next < s.tiles@.len() && s.next - s.merged < s.limit {
        Action::Dispatch(s.tiles@[s.next as int])
    } else if s.merged < s.next {
        Action::Merge(s.tiles@[s.merged as int])
    } else {
        Action::Done
    }
}

/// The state that `step` leaves behind from state `s`.
pub open spec fn after_step(s: Scheduler) -> Scheduler {
    match action_of(s) {
        Action::Dispatch(_) => Scheduler {
            tiles: s.tiles,
            next: (s.next + 1) as usize,
            merged: s.merged,
            limit: s.limit,
        },
        Action::Merge(_) => Scheduler {
            tiles: s.tiles,
            next: s.next,
            merged: (s.merged + 1) as usize,
            limit: s.limit,
        },
        Action::Done => s,
    }
}

/// The state after `k` steps from `s`.
pub open spec fn after_steps(s: Scheduler, k: nat) -> Scheduler
    decreases k,
{
    if k == 0 {
        s
    } else {
        after_steps(after_step(s), (k - 1) as nat)
    }
}

/// The tiles merged, in order, during `k` steps from `s`.
pub open spec fn merges(s: Scheduler, k: nat) -> Seq<Tile>
    decreases k,
{
    if k == 0 {
        Seq::empty()
    } else {
        let rest = merges(after_step(s), (k - 1) as nat);
        match action_of(s) {
            Action::Merge(t) => seq![t] + rest,
            _ => rest,
        }
    }
}

/// Steps left before every tile is merged.
pub open spec fn steps_left(s: Scheduler) -> nat {
    (2 * s.tiles@.len() - s.next - s.merged) as nat
}

/// From any well-formed state, the steps that remain merge each tile not yet
/// merged exactly once, in the order in which the tiles went out, and then
/// the scheduler reports that it is done.
pub proof fn lemma_each_tile_merged_once(s: Scheduler)
    requires
        s.wf(),
    ensures
        merges(s, steps_left(s)) == s.tiles@.subrange(s.merged as int, s.tiles@.len() as int),
        after_steps(s, steps_left(s)).merged == s.tiles@.len(),
        action_of(after_steps(s, steps_left(s))) == Action::Done,
    decreases steps_left(s),
{
    let n = s.tiles@.len();
    if steps_left(s) == 0 {
        assert(s.tiles@.subrange(s.merged as int, n as int) =~= Seq::<Tile>::empty());
    } else {
        let s2 = after_step(s);
        assert(s2.wf());
        assert(steps_left(s2) + 1 == steps_left(s));
        lemma_each_tile_merged_once(s2);
        if let Action::Merge(t) = action_of(s) {
            assert(s.tiles@.subrange(s.merged as int, n as int) =~= seq![t] + s.tiles@.subrange(
                s2.merged as int,
                n as int,
            ));
        }
    }
}

impl Scheduler {
    pub open spec fn wf(&self) -> bool {
        &&& self.merged <= self.next <= self.tiles@.len()
        &&& self.next - self.merged <= self.limit
        &&& self.limit > 0
        &&& self.tiles@.len() <= usize::MAX
    }

    /// Number of workers running.
    pub open spec fn running(&self) -> nat {
        (self.next - self.merged) as nat
    }

    /// A scheduler with every tile waiting.
    pub fn new(tiles: Vec<Tile>, limit: usize) -> (r: Self)
        requires
            limit > 0,
        ensures
            r.wf(),
            r.tiles@ == tiles@,
            r.next == 0,
            r.merged == 0,
            r.limit == limit,
    {
        let count: usize = tiles.len();
        assert(tiles@.len() == count);
        Scheduler { tiles, next: 0, merged: 0, limit }
    }

    /// Decides the next action. A waiting tile goes out while fewer than
    /// `limit` workers run; else the oldest running worker is merged; when no
    /// tile waits or runs, the work is done.
    pub fn step(&mut self) -> (a: Action)
        requires
            old(self).wf(),
        ensures
            final(self).wf(),
            a == action_of(*old(self)),
            *final(self) == after_step(*old(self)),
    {
        if self.next < self.tiles.len() && self.next - self.merged < self.limit {
            let t = self.tiles[self.next];
            self.next = self.next + 1;
            Action::Dispatch(t)
        } else if self.merged < self.next {
            let t = self.tiles[self.merged];
            self.merged = self.merged + 1;
            Action::Merge(t)
        } else {
            Action::Done
        }
    }

    /// Whether every tile has been merged.
    pub fn finished(&self) -> (r: bool)
        requires
            self.wf(),
        ensures
            r == (self.merged == self.tiles@.len()),
    {
        self.merged == self.tiles.len()
    }
}

} // verus!
