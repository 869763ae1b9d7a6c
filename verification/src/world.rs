//! Cells, the rounding that finds the chunk of a coordinate, and what every
//! store of cells offers.

use vstd::prelude::*;
use vstd::arithmetic::div_mod::*;
use crate::utils::Pos;

pub mod hashed_world;

pub use hashed_world::HashedWorld;

verus! {

/// The state of one cell: alive or dead.
#[derive(Debug, Clone, Copy, PartialEq, Eq, Structural)]
pub struct Cell {
    active: bool,
}

impl Cell {
    /// Whether the cell is alive, for use in contracts.
    pub closed spec fn alive(self) -> bool {
        self.active
    }

    /// An alive cell.
    pub fn active() -> (c: Cell)
        ensures
            c.alive(),
    {
        Cell { active: true }
    }

    /// A dead cell.
    pub fn inactive() -> (c: Cell)
        ensures
            !c.alive(),
    {
        Cell { active: false }
    }

    /// Whether the cell is alive.
    pub fn is_active(&self) -> (b: bool)
        ensures
            b == self.alive(),
    {
        self.active
    }
}

impl Default for Cell {
    /// A dead cell.
    fn default() -> (c: Cell)
        ensures
            !c.alive(),
    {
        Cell { active: false }
    }
}

/// The largest multiple of `step` that is not above `n`: rounding is toward
/// negative infinity, so `snap_to(-1, 16) == -16`.
pub open spec fn snap_to(n: int, step: int) -> int {
    n - n % step
}

/// Snapping moves a number down by less than one step, and lands on a
/// multiple of the step.
pub proof fn lemma_snap_to(n: int, step: int)
    requires
        step > 0,
    ensures
        0 <= n - snap_to(n, step) < step,
        snap_to(n, step) % step == 0,
        snap_to(n, step) == step * (n / step),
{
    lemma_fundamental_div_mod(n, step);
    lemma_mod_bound(n, step);
    lemma_mod_multiples_basic(n / step, step);
    assert(step * (n / step) == (n / step) * step) by (nonlinear_arith);
}

/// The remainder of a division that rounds toward zero, as machine integers
/// have it: it has the sign of `n`.
pub open spec fn rem_toward_zero(n: int, step: int) -> int {
    if n >= 0 {
        n % step
    } else {
        -((-n) % step)
    }
}

/// Snapping can be computed with remainders that round toward zero, if the
/// remainder is taken twice: below zero the first one alone is off.
pub proof fn lemma_snap_by_double_remainder(n: int, step: int)
    requires
        step > 0,
    ensures
        snap_to(n, step) == n - (rem_toward_zero(n, step) + step) % step,
{
    lemma_mod_bound(n, step);
    if n >= 0 {
        lemma_mod_add_multiples_vanish(n % step, step);
        lemma_small_mod((n % step) as nat, step as nat);
    } else {
        let back = (-n) % step;
        let q = (-n) / step;
        lemma_mod_bound(-n, step);
        lemma_fundamental_div_mod(-n, step);
        if back == 0 {
            assert(n == (-q) * step + 0) by (nonlinear_arith)
                requires
                    -n == step * q + back,
                    back == 0,
            ;
            lemma_fundamental_div_mod_converse(n, step, -q, 0);
            lemma_mod_self_0(step);
        } else {
            assert(n == (-q - 1) * step + (step - back)) by (nonlinear_arith)
                requires
                    -n == step * q + back,
            ;
            lemma_fundamental_div_mod_converse(n, step, -q - 1, step - back);
            lemma_small_mod((step - back) as nat, step as nat);
        }
    }
}

/// Snapping is idempotent, and every number between a multiple of the step and
/// the next one snaps to that multiple.
pub proof fn lemma_snap_to_unique(n: int, m: int, step: int)
    requires
        step > 0,
        m % step == 0,
        m <= n < m + step,
    ensures
        snap_to(n, step) == m,
{
    lemma_fundamental_div_mod(m, step);
    let q = m / step;
    assert(m == q * step) by (nonlinear_arith)
        requires
            m == step * q + m % step,
            m % step == 0,
    ;
    lemma_fundamental_div_mod_converse(n, step, q, n - m);
}

/// Rounds `n` down to a multiple of `step`.
pub fn snap(n: i32, step: i32) -> (r: i32)
    requires
        step > 0,
        snap_to(n as int, step as int) >= i32::MIN,
    ensures
        r == snap_to(n as int, step as int),
{
    proof {
        lemma_snap_to(n as int, step as int);
    }
    if n >= 0 {
        n - n % step
    } else {
        let below: i32 = -(n + 1);
        let back: i32 = below % step;
        let rem: i32 = step - 1 - back;
        proof {
            let q = below as int / step as int;
            lemma_fundamental_div_mod(below as int, step as int);
            lemma_mod_pos_bound(below as int, step as int);
            assert((-q - 1) * step + rem == n) by (nonlinear_arith)
                requires
                    below == step * q + back,
                    rem == step - 1 - back,
                    below == -(n + 1),
            ;
            lemma_fundamental_div_mod_converse(n as int, step as int, -q - 1, rem as int);
        }
        n - rem
    }
}

/// The alive cells after the cell at `pos` was written, where `live` were
/// alive before.
pub open spec fn written(live: Set<Pos>, pos: Pos, cell: Cell) -> Set<Pos> {
    if cell.alive() {
        live.insert(pos)
    } else {
        live.remove(pos)
    }
}

/// The alive cells after the given writes were made, in their order, to a
/// world in which every cell was dead.
pub open spec fn replay(writes: Seq<(Pos, Cell)>) -> Set<Pos>
    decreases writes.len(),
{
    if writes.len() == 0 {
        Set::empty()
    } else {
        written(replay(writes.drop_last()), writes.last().0, writes.last().1)
    }
}

/// Whether write number `i` is the last that was made to the cell at `pos`.
pub open spec fn is_last_write(writes: Seq<(Pos, Cell)>, pos: Pos, i: int) -> bool {
    &&& 0 <= i < writes.len()
    &&& writes[i].0 == pos
    &&& forall|j: int| i < j < writes.len() ==> (#[trigger] writes[j]).0 != pos
}

/// Reading a cell gives what was last written to it: after a write the cell
/// holds the written state and every other cell holds what it held, and in a
/// world that was never written to every cell is dead.
pub proof fn lemma_write_then_read(live: Set<Pos>, pos: Pos, cell: Cell, other: Pos)
    ensures
        written(live, pos, cell).contains(pos) == cell.alive(),
        other != pos ==> written(live, pos, cell).contains(other) == live.contains(other),
        !replay(Seq::empty()).contains(other),
{
}

/// After any writes, the alive cells are exactly those whose last write was
/// of an alive cell.
pub proof fn lemma_replay_keeps_last_write(writes: Seq<(Pos, Cell)>, pos: Pos)
    ensures
        replay(writes).contains(pos) <==> exists|i: int|
            #[trigger] is_last_write(writes, pos, i) && writes[i].1.alive(),
    decreases writes.len(),
{
    if writes.len() > 0 {
        let init = writes.drop_last();
        let n = writes.len() - 1;
        lemma_replay_keeps_last_write(init, pos);
        assert forall|j: int| 0 <= j < n implies init[j] == writes[j] by {}
        if writes[n].0 == pos {
            assert(is_last_write(writes, pos, n));
            if exists|i: int| #[trigger] is_last_write(writes, pos, i) && writes[i].1.alive() {
                let i = choose|i: int| #[trigger] is_last_write(writes, pos, i) && writes[i].1.alive();
                assert(i == n);
            }
        } else {
            if replay(init).contains(pos) {
                let i = choose|i: int| #[trigger] is_last_write(init, pos, i) && init[i].1.alive();
                assert(is_last_write(writes, pos, i));
            }
            if exists|i: int| #[trigger] is_last_write(writes, pos, i) && writes[i].1.alive() {
                let i = choose|i: int| #[trigger] is_last_write(writes, pos, i) && writes[i].1.alive();
                assert(is_last_write(init, pos, i));
            }
        }
    }
}

/// A cell that was never written to is dead, whatever was written elsewhere.
pub proof fn lemma_unwritten_is_dead(writes: Seq<(Pos, Cell)>, pos: Pos)
    requires
        forall|i: int| 0 <= i < writes.len() ==> (#[trigger] writes[i]).0 != pos,
    ensures
        !replay(writes).contains(pos),
{
    lemma_replay_keeps_last_write(writes, pos);
}

/// A store of cells over the unbounded plane.
///
/// A world is described by two sets of coordinates: the cells that are alive,
/// and the cells for which storage has been set aside. A write sets storage
/// aside for a whole region around the written cell, `extent`; which region
/// that is depends on the store.
///
/// `empty` and `duplicate` do what `Default` and `Clone` do, with a contract
/// that holds of every world.
pub trait World: Default + Clone + Send + 'static {
    /// The store's internal invariant.
    spec fn wf(&self) -> bool;

    /// The coordinates of the cells that are alive.
    spec fn live(&self) -> Set<Pos>;

    /// The coordinates for which storage has been set aside.
    spec fn loaded(&self) -> Set<Pos>;

    /// The coordinates for which a write at `pos` sets storage aside.
    spec fn extent(pos: Pos) -> Set<Pos>;

    /// A cell covers itself, and an alive cell has storage.
    proof fn lemma_live_is_loaded(&self, pos: Pos)
        requires
            self.wf(),
        ensures
            Self::extent(pos).contains(pos),
            self.live().contains(pos) ==> self.loaded().contains(pos),
    ;

    /// A world in which every cell is dead and nothing is stored.
    fn empty() -> (w: Self)
        ensures
            w.wf(),
            w.live() == Set::<Pos>::empty(),
            w.loaded() == Set::<Pos>::empty(),
    ;

    /// The state of the cell at `pos`; dead where nothing was ever written.
    fn get(&self, pos: Pos) -> (c: Cell)
        requires
            self.wf(),
        ensures
            c.alive() == self.live().contains(pos),
    ;

    /// Writes the state of the cell at `pos`, and leaves every other cell as
    /// it was.
    fn set(&mut self, pos: Pos, cell: Cell)
        requires
            old(self).wf(),
        ensures
            final(self).wf(),
            final(self).live() == written(old(self).live(), pos, cell),
            final(self).loaded() == old(self).loaded().union(Self::extent(pos)),
    ;

    /// Every alive cell, once each, in no particular order.
    fn actives(&self) -> (v: Vec<Pos>)
        requires
            self.wf(),
        ensures
            v@.no_duplicates(),
            v@.to_set() == self.live(),
    ;

    /// Whether storage has been set aside for the cell at `pos`.
    fn dbg_is_loaded(&self, pos: Pos) -> (b: bool)
        requires
            self.wf(),
        ensures
            b == self.loaded().contains(pos),
    ;

    /// An independent copy of the world.
    fn duplicate(&self) -> (w: Self)
        requires
            self.wf(),
        ensures
            w.wf(),
            w.live() == self.live(),
            w.loaded() == self.loaded(),
    ;
}

} // verus!
