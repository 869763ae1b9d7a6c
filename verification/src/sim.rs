//! The rule of the automaton, the step from one generation to the next, and
//! the engine that serves commands between two steps.

use vstd::prelude::*;
use crate::utils::Pos;
use crate::world::{written, Cell, World};
use std::sync::mpsc::{Receiver, Sender};

verus! {

/// The cell in place `i` of the three by three block around `pos`, counted row
/// by row from the corner with the smallest coordinates; place 4 is `pos`
/// itself. There is none where the coordinate type ends: such a cell cannot
/// be stored, and counts as dead.
pub open spec fn nth_near(pos: Pos, i: int) -> Option<Pos> {
    let x = pos.x + i / 3 - 1;
    let y = pos.y + i % 3 - 1;
    if Pos::representable((x, y)) {
        Some(Pos { x: x as i32, y: y as i32 })
    } else {
        None
    }
}

/// Whether `q` lies in the three by three block around `p`.
pub open spec fn near(p: Pos, q: Pos) -> bool {
    -1 <= q.x - p.x <= 1 && -1 <= q.y - p.y <= 1
}

/// 1 if the cell in place `i` of the block around `pos` is alive, else 0.
pub open spec fn lives(live: Set<Pos>, pos: Pos, i: int) -> int {
    match nth_near(pos, i) {
        Some(q) => if live.contains(q) {
            1
        } else {
            0
        },
        None => 0,
    }
}

/// How many of the eight cells that surround `pos` are alive. The cell itself
/// is not counted.
pub open spec fn neighbor_count(live: Set<Pos>, pos: Pos) -> int {
    lives(live, pos, 0) + lives(live, pos, 1) + lives(live, pos, 2) + lives(live, pos, 3) + lives(
        live,
        pos,
        5,
    ) + lives(live, pos, 6) + lives(live, pos, 7) + lives(live, pos, 8)
}

/// The rule of the automaton: an alive cell stays alive with three or four
/// alive neighbours, a dead cell becomes alive with exactly three.
pub open spec fn rule(alive: bool, neighbors: int) -> bool {
    if alive {
        3 <= neighbors <= 4
    } else {
        neighbors == 3
    }
}

/// Whether the cell at `pos` is alive one generation after `live`.
pub open spec fn alive_next(live: Set<Pos>, pos: Pos) -> bool {
    rule(live.contains(pos), neighbor_count(live, pos))
}

/// The alive cells one generation after `live`.
pub open spec fn next_live(live: Set<Pos>) -> Set<Pos> {
    Set::new(|pos: Pos| alive_next(live, pos))
}

/// The cells that a generation has to look at: those in the block around some
/// alive cell.
pub open spec fn is_candidate(live: Set<Pos>, pos: Pos) -> bool {
    exists|q: Pos| live.contains(q) && #[trigger] near(q, pos)
}

/// The cells in the first `n` places of the block around `pos`, in the order
/// of their places.
pub open spec fn block_upto(pos: Pos, n: int) -> Seq<Pos>
    decreases n,
{
    if n <= 0 {
        Seq::empty()
    } else {
        match nth_near(pos, n - 1) {
            Some(q) => block_upto(pos, n - 1).push(q),
            None => block_upto(pos, n - 1),
        }
    }
}

/// The neighbours that the count adds up, up to place `n` of the block.
pub open spec fn tally(live: Set<Pos>, pos: Pos, n: int) -> int
    decreases n,
{
    if n <= 0 {
        0
    } else if n == 5 {
        tally(live, pos, n - 1)
    } else {
        tally(live, pos, n - 1) + lives(live, pos, n - 1)
    }
}

/// The places of the block around a cell are the cells near it.
pub proof fn lemma_nth_near(pos: Pos, q: Pos)
    ensures
        near(pos, q) <==> exists|i: int| 0 <= i < 9 && #[trigger] nth_near(pos, i) == Some(q),
        near(pos, q) ==> nth_near(pos, (q.x - pos.x + 1) * 3 + (q.y - pos.y + 1)) == Some(q),
        near(pos, q) <==> near(q, pos),
{
    if near(pos, q) {
        let i = (q.x - pos.x + 1) * 3 + (q.y - pos.y + 1);
        assert(nth_near(pos, i) == Some(q));
    }
}

/// A cell that is alive in the next generation is a candidate: no cell comes
/// alive far from every alive cell.
pub proof fn lemma_next_is_candidate(live: Set<Pos>, pos: Pos)
    requires
        alive_next(live, pos),
    ensures
        is_candidate(live, pos),
{
    if live.contains(pos) {
        assert(near(pos, pos));
    } else {
        let i = if lives(live, pos, 0) > 0 {
            0int
        } else if lives(live, pos, 1) > 0 {
            1
        } else if lives(live, pos, 2) > 0 {
            2
        } else if lives(live, pos, 3) > 0 {
            3
        } else if lives(live, pos, 5) > 0 {
            5
        } else if lives(live, pos, 6) > 0 {
            6
        } else if lives(live, pos, 7) > 0 {
            7
        } else {
            8
        };
        assert(lives(live, pos, i) > 0);
        let q = nth_near(pos, i)->0;
        lemma_nth_near(pos, q);
        assert(near(q, pos));
    }
}

/// Whether `pos` is among the first `n` of `cands`.
pub open spec fn listed(cands: Seq<Pos>, n: int, pos: Pos) -> bool {
    exists|j: int| 0 <= j < n && #[trigger] cands[j] == pos
}

/// The cells whose storage the next generation sets aside: those covered by
/// the write of a cell that is alive in it.
pub open spec fn next_loaded<W: World>(live: Set<Pos>) -> Set<Pos> {
    Set::new(|q: Pos| exists|p: Pos| alive_next(live, p) && #[trigger] W::extent(p).contains(q))
}

/// The cells for which writes at the first `n` of `cells` set storage aside.
pub open spec fn extent_of<W: World>(cells: Seq<Pos>, n: int) -> Set<Pos> {
    Set::new(|q: Pos| exists|j: int| 0 <= j < n && #[trigger] W::extent(cells[j]).contains(q))
}

/// The cell in place `i` of the block around `pos`, where there is one.
fn near_at(pos: Pos, i: usize) -> (r: Option<Pos>)
    requires
        i < 9,
    ensures
        r == nth_near(pos, i as int),
{
    let x: i64 = pos.x as i64 + (i / 3) as i64 - 1;
    let y: i64 = pos.y as i64 + (i % 3) as i64 - 1;
    if x < -0x8000_0000 || x > 0x7fff_ffff || y < -0x8000_0000 || y > 0x7fff_ffff {
        None
    } else {
        Some(Pos { x: x as i32, y: y as i32 })
    }
}

/// Decides by the rule whether a cell is alive in the next generation.
pub fn next_cell(is_active: bool, neighbor_count: usize) -> (alive: bool)
    ensures
        alive == rule(is_active, neighbor_count as int),
{
    if is_active {
        3 <= neighbor_count && neighbor_count <= 4
    } else {
        neighbor_count == 3
    }
}

/// One generation of the automaton, held in a world.
#[derive(Debug)]
pub struct State<W: World> {
    world: W,
}

impl<W: World> Default for State<W> {
    /// The state in which every cell is dead.
    fn default() -> (state: Self)
        ensures
            state.wf(),
            state.live() == Set::<Pos>::empty(),
            state.loaded() == Set::<Pos>::empty(),
    {
        State::new()
    }
}

impl<W: World> State<W> {
    /// The invariant of the world that holds the generation.
    pub closed spec fn wf(&self) -> bool {
        self.world.wf()
    }

    /// The cells that are alive.
    pub closed spec fn live(&self) -> Set<Pos> {
        self.world.live()
    }

    /// The cells for which the world has set storage aside.
    pub closed spec fn loaded(&self) -> Set<Pos> {
        self.world.loaded()
    }

    /// A state in which every cell is dead.
    pub fn new() -> (state: Self)
        ensures
            state.wf(),
            state.live() == Set::<Pos>::empty(),
            state.loaded() == Set::<Pos>::empty(),
    {
        State { world: W::empty() }
    }

    /// Every alive cell, once each.
    pub fn actives(&self) -> (v: Vec<Pos>)
        requires
            self.wf(),
        ensures
            v@.no_duplicates(),
            v@.to_set() == self.live(),
    {
        self.world.actives()
    }

    /// The state of the cell at `pos`.
    pub fn get(&self, pos: Pos) -> (c: Cell)
        requires
            self.wf(),
        ensures
            c.alive() == self.live().contains(pos),
    {
        self.world.get(pos)
    }

    /// Writes the state of the cell at `pos`.
    pub fn set(&mut self, pos: Pos, cell: Cell)
        requires
            old(self).wf(),
        ensures
            final(self).wf(),
            final(self).live() == written(old(self).live(), pos, cell),
            final(self).loaded() == old(self).loaded().union(W::extent(pos)),
    {
        self.world.set(pos, cell)
    }

    /// The cells of the three by three block around `pos`, itself included,
    /// each once, row by row from the corner with the smallest coordinates.
    pub fn get_neighbors(&self, pos: Pos) -> (v: Vec<Pos>)
        ensures
            v@ == block_upto(pos, 9),
            v@.no_duplicates(),
            forall|q: Pos| #[trigger] v@.contains(q) <==> near(pos, q),
    {
        let mut v: Vec<Pos> = Vec::new();
        let mut i: usize = 0;
        while i < 9
            invariant
                i <= 9,
                v@ == block_upto(pos, i as int),
                v@.no_duplicates(),
                forall|q: Pos|
                    #[trigger] v@.contains(q) <==> exists|j: int|
                        0 <= j < i && #[trigger] nth_near(pos, j) == Some(q),
            decreases 9 - i,
        {
            if let Some(q) = near_at(pos, i) {
                let ghost before = v@;
                proof {
                    if before.contains(q) {
                        let j = choose|j: int| 0 <= j < i && #[trigger] nth_near(pos, j) == Some(q);
                        assert(j / 3 == i as int / 3 && j % 3 == i as int % 3);
                    }
                }
                v.push(q);
                proof {
                    assert forall|p: Pos| #[trigger] v@.contains(p) <==> before.contains(p) || p == q by {
                        if before.contains(p) {
                            let n = choose|n: int| 0 <= n < before.len() && before[n] == p;
                            assert(v@[n] == p);
                        }
                        if p == q {
                            assert(v@[before.len() as int] == p);
                        }
                    }
                    assert(nth_near(pos, i as int) == Some(q));
                }
            }
            i = i + 1;
        }
        proof {
            assert forall|q: Pos| #[trigger] v@.contains(q) <==> near(pos, q) by {
                lemma_nth_near(pos, q);
            }
        }
        v
    }

    /// Whether the cell at `pos` is alive.
    pub fn is_cell_alive(&self, pos: Pos) -> (alive: bool)
        requires
            self.wf(),
        ensures
            alive == self.live().contains(pos),
    {
        self.get(pos).is_active()
    }

    /// How many of the eight cells around `pos` are alive.
    pub fn get_neighbor_count(&self, pos: Pos) -> (count: usize)
        requires
            self.wf(),
        ensures
            count == neighbor_count(self.live(), pos),
    {
        let mut count: usize = 0;
        let mut i: usize = 0;
        while i < 9
            invariant
                i <= 9,
                self.wf(),
                0 <= count <= i,
                count == tally(self.live(), pos, i as int),
            decreases 9 - i,
        {
            if i != 4 {
                if let Some(q) = near_at(pos, i) {
                    if self.is_cell_alive(q) {
                        count = count + 1;
                    }
                }
            }
            i = i + 1;
        }
        proof {
            reveal_with_fuel(tally, 10);
        }
        count
    }

    /// An independent copy of the world of this generation.
    pub fn snapshot(&self) -> (w: W)
        requires
            self.wf(),
        ensures
            w.wf(),
            w.live() == self.live(),
            w.loaded() == self.loaded(),
    {
        self.world.duplicate()
    }

    /// The cells that the next generation has to decide: every cell in the
    /// block around an alive cell. A cell may be listed more than once.
    pub fn possible_change_pos(&self) -> (v: Vec<Pos>)
        requires
            self.wf(),
        ensures
            forall|pos: Pos| #[trigger] v@.contains(pos) <==> is_candidate(self.live(), pos),
    {
        let actives = self.actives();
        let mut v: Vec<Pos> = Vec::new();
        let mut i: usize = 0;
        while i < actives.len()
            invariant
                i <= actives.len(),
                actives@.to_set() == self.live(),
                forall|pos: Pos|
                    #[trigger] v@.contains(pos) <==> exists|j: int|
                        0 <= j < i && #[trigger] near(actives@[j], pos),
            decreases actives.len() - i,
        {
            let mut block = self.get_neighbors(actives[i]);
            let ghost before = v@;
            let ghost added = block@;
            v.append(&mut block);
            proof {
                assert forall|pos: Pos|
                    #[trigger] v@.contains(pos) <==> exists|j: int|
                        0 <= j < i + 1 && #[trigger] near(actives@[j], pos) by {
                    assert(v@ == before + added);
                    if v@.contains(pos) {
                        let n = choose|n: int| 0 <= n < v@.len() && v@[n] == pos;
                        if n < before.len() {
                            assert(before[n] == pos);
                            assert(before.contains(pos));
                        } else {
                            assert(added[n - before.len()] == pos);
                            assert(added.contains(pos));
                            assert(near(actives@[i as int], pos));
                        }
                    }
                    if before.contains(pos) {
                        let n = choose|n: int| 0 <= n < before.len() && before[n] == pos;
                        assert(v@[n] == pos);
                    }
                    if near(actives@[i as int], pos) {
                        assert(added.contains(pos));
                        let n = choose|n: int| 0 <= n < added.len() && added[n] == pos;
                        assert(v@[before.len() + n] == pos);
                    }
                }
            }
            i = i + 1;
        }
        proof {
            assert forall|pos: Pos| #[trigger] v@.contains(pos) <==> is_candidate(self.live(), pos) by {
                if v@.contains(pos) {
                    let j = choose|j: int| 0 <= j < actives@.len() && #[trigger] near(actives@[j], pos);
                    assert(actives@.to_set().contains(actives@[j]));
                }
                if is_candidate(self.live(), pos) {
                    let q = choose|q: Pos| self.live().contains(q) && #[trigger] near(q, pos);
                    assert(actives@.to_set().contains(q));
                    assert(actives@.contains(q));
                    let j = choose|j: int| 0 <= j < actives@.len() && actives@[j] == q;
                    assert(near(actives@[j], pos));
                }
            }
        }
        v
    }

    /// The state in which exactly the given cells are alive.
    pub fn seeded(actives: &Vec<Pos>) -> (state: Self)
        ensures
            state.wf(),
            state.live() == actives@.to_set(),
            state.loaded() == extent_of::<W>(actives@, actives@.len() as int),
    {
        let mut state: State<W> = State::new();
        let mut i: usize = 0;
        while i < actives.len()
            invariant
                i <= actives.len(),
                state.wf(),
                forall|pos: Pos| #[trigger] state.live().contains(pos) <==> listed(actives@, i as int, pos),
                state.loaded() == extent_of::<W>(actives@, i as int),
            decreases actives.len() - i,
        {
            let ghost before = state;
            state.set(actives[i], Cell::active());
            proof {
                assert forall|pos: Pos| #[trigger]
                    state.live().contains(pos) <==> listed(actives@, i + 1, pos) by {
                    if listed(actives@, i as int, pos) {
                        let j = choose|j: int| 0 <= j < i && #[trigger] actives@[j] == pos;
                        assert(0 <= j < i + 1);
                    }
                    if pos == actives@[i as int] {
                        assert(listed(actives@, i + 1, pos));
                    }
                }
                assert(state.loaded() =~= extent_of::<W>(actives@, i + 1)) by {
                    assert forall|q: Pos| #[trigger]
                        state.loaded().contains(q) <==> extent_of::<W>(actives@, i + 1).contains(q) by {
                        if extent_of::<W>(actives@, i as int).contains(q) {
                            let j = choose|j: int|
                                0 <= j < i && #[trigger] W::extent(actives@[j]).contains(q);
                            assert(0 <= j < i + 1);
                        }
                    }
                }
            }
            i = i + 1;
        }
        proof {
            assert(state.live() =~= actives@.to_set()) by {
                assert forall|pos: Pos| #[trigger]
                    state.live().contains(pos) <==> actives@.to_set().contains(pos) by {
                    if actives@.contains(pos) {
                        let j = choose|j: int| 0 <= j < actives@.len() && actives@[j] == pos;
                        assert(listed(actives@, actives@.len() as int, pos));
                    }
                    if listed(actives@, actives@.len() as int, pos) {
                        let j = choose|j: int| 0 <= j < actives@.len() && #[trigger] actives@[j] == pos;
                        assert(actives@.contains(pos));
                    }
                }
            }
        }
        state
    }

    /// The generation that follows this one, built as a fresh state: a cell is
    /// alive in it exactly where the rule says so, and storage is set aside
    /// exactly for the cells written, which are the alive ones.
    pub fn next_generation(&self) -> (next: Self)
        requires
            self.wf(),
        ensures
            next.wf(),
            next.live() == next_live(self.live()),
            next.loaded() == next_loaded::<W>(self.live()),
    {
        let cands = self.possible_change_pos();
        let mut next: State<W> = State::new();
        let ghost live = self.live();
        let mut i: usize = 0;
        while i < cands.len()
            invariant
                i <= cands.len(),
                self.wf(),
                next.wf(),
                live == self.live(),
                forall|pos: Pos| #[trigger]
                    next.live().contains(pos) <==> alive_next(live, pos) && listed(
                        cands@,
                        i as int,
                        pos,
                    ),
                forall|q: Pos| #[trigger]
                    next.loaded().contains(q) <==> exists|j: int|
                        0 <= j < i && alive_next(live, cands@[j]) && #[trigger] W::extent(
                            cands@[j],
                        ).contains(q),
            decreases cands.len() - i,
        {
            let pos = cands[i];
            let is_active = self.is_cell_alive(pos);
            let count = self.get_neighbor_count(pos);
            let ghost before = next;
            if next_cell(is_active, count) {
                next.set(pos, Cell::active());
            }
            proof {
                assert(alive_next(live, pos) == rule(is_active, count as int));
                assert forall|p: Pos| #[trigger]
                    next.live().contains(p) <==> alive_next(live, p) && listed(cands@, i + 1, p) by {
                    if listed(cands@, i as int, p) {
                        let j = choose|j: int| 0 <= j < i && #[trigger] cands@[j] == p;
                        assert(0 <= j < i + 1);
                    }
                    if p == pos {
                        assert(cands@[i as int] == p);
                    }
                    if listed(cands@, i + 1, p) && p != pos {
                        let j = choose|j: int| 0 <= j < i + 1 && #[trigger] cands@[j] == p;
                        assert(0 <= j < i);
                    }
                }
                assert forall|q: Pos| #[trigger]
                    next.loaded().contains(q) <==> exists|j: int|
                        0 <= j < i + 1 && alive_next(live, cands@[j]) && #[trigger] W::extent(
                            cands@[j],
                        ).contains(q) by {
                    if before.loaded().contains(q) {
                        let j = choose|j: int|
                            0 <= j < i && alive_next(live, cands@[j]) && #[trigger] W::extent(
                                cands@[j],
                            ).contains(q);
                        assert(0 <= j < i + 1);
                    }
                    if alive_next(live, pos) && W::extent(pos).contains(q) {
                        assert(W::extent(cands@[i as int]).contains(q));
                    }
                }
            }
            i = i + 1;
        }
        proof {
            assert(next.live() =~= next_live(live)) by {
                assert forall|p: Pos| #[trigger] next.live().contains(p) <==> alive_next(live, p) by {
                    if alive_next(live, p) {
                        lemma_next_is_candidate(live, p);
                        assert(cands@.contains(p));
                        let j = choose|j: int| 0 <= j < cands@.len() && cands@[j] == p;
                        assert(listed(cands@, cands@.len() as int, p));
                    }
                }
            }
            assert(next.loaded() =~= next_loaded::<W>(live)) by {
                assert forall|q: Pos| #[trigger]
                    next.loaded().contains(q) <==> next_loaded::<W>(live).contains(q) by {
                    if next_loaded::<W>(live).contains(q) {
                        let p = choose|p: Pos| alive_next(live, p) && #[trigger] W::extent(p).contains(q);
                        lemma_next_is_candidate(live, p);
                        assert(cands@.contains(p));
                        let j = choose|j: int| 0 <= j < cands@.len() && cands@[j] == p;
                        assert(W::extent(cands@[j]).contains(q));
                    }
                }
            }
        }
        next
    }
}

/// How long the engine waits between two looks at its command queue, in
/// milliseconds.
pub const EVT_CHECK_TIMEOUT_MS: u64 = 10;

/// The time between two generations with which an engine starts, in
/// milliseconds.
pub const DEFAULT_TICK_INTERVAL_MS: u64 = 200;

/// The sending end of a channel of std's `mpsc`. Nothing is known of a
/// value of it.
#[verifier::external_type_specification]
#[verifier::external_body]
#[verifier::reject_recursive_types(T)]
pub struct ExSender<T>(std::sync::mpsc::Sender<T>);

/// The receiving end of a channel of std's `mpsc`. Nothing is known of a
/// value of it.
#[verifier::external_type_specification]
#[verifier::external_body]
#[verifier::reject_recursive_types(T)]
pub struct ExReceiver<T>(std::sync::mpsc::Receiver<T>);

/// Opens a channel with std's `mpsc::channel`. Nothing is claimed of it.
#[verifier::external_body]
pub(crate) fn open_channel<T>() -> (ends: (Sender<T>, Receiver<T>)) {
    std::sync::mpsc::channel()
}

/// Sends a value with std's `Sender::send`, and says whether it was taken:
/// it is not when the receiving end is gone. Nothing is claimed of the
/// result.
#[verifier::external_body]
pub(crate) fn send_to<T>(sender: &Sender<T>, value: T) -> (sent: bool) {
    sender.send(value).is_ok()
}

/// Waits for a value with std's `Receiver::recv`. There is none when every
/// sending end is gone. Nothing is claimed of the result.
#[verifier::external_body]
pub(crate) fn receive_from<T>(receiver: &Receiver<T>) -> (got: Option<T>) {
    receiver.recv().ok()
}

/// A command to the engine. One that asks for something carries the channel
/// on which the answer is to be sent.
#[verifier::reject_recursive_types(W)]
pub enum SimCmd<W: World> {
    /// Asks for a copy of the world as of the last finished generation.
    Snapshot(Sender<W>),
    /// Sets the time between two generations, in milliseconds.
    SetDelay(u64),
    /// Asks for the time between two generations, in milliseconds.
    Delay(Sender<usize>),
}

/// The end of the command channel that the engine's users hold.
#[verifier::reject_recursive_types(W)]
pub struct SimHandle<W: World> {
    sender: Sender<SimCmd<W>>,
}

impl<W: World> SimHandle<W> {
    /// A handle that sends its commands on `sender`.
    pub fn new(sender: Sender<SimCmd<W>>) -> (handle: Self)
        ensures
            handle.channel() == sender,
    {
        Self { sender }
    }

    /// Asks the engine for a copy of its world and waits for it. There is
    /// none when the engine is gone.
    pub fn snapshot(&self) -> Option<W> {
        let (sender, receiver) = open_channel::<W>();
        if send_to(&self.sender, SimCmd::Snapshot(sender)) {
            receive_from(&receiver)
        } else {
            None
        }
    }

    /// Asks the engine for the time between two generations and waits for
    /// it. There is none when the engine is gone.
    pub fn delay(&self) -> Option<usize> {
        let (sender, receiver) = open_channel::<usize>();
        if send_to(&self.sender, SimCmd::Delay(sender)) {
            receive_from(&receiver)
        } else {
            None
        }
    }

    /// Tells the engine the time to let pass between two generations, and
    /// says whether the engine was there to hear it.
    pub fn set_delay(&self, delay_ms: u64) -> bool {
        send_to(&self.sender, SimCmd::SetDelay(delay_ms))
    }

    /// The sending end on which the handle sends its commands.
    pub closed spec fn channel(&self) -> Sender<SimCmd<W>> {
        self.sender
    }
}

/// The engine between two events: the generation it holds and the time that
/// it lets pass between two generations.
pub struct Engine<W: World> {
    state: State<W>,
    tick_interval: u64,
    seed: Ghost<Set<Pos>>,
    age: Ghost<nat>,
}

/// The alive cells `age` generations after `seed`.
pub open spec fn generation(seed: Set<Pos>, age: nat) -> Set<Pos>
    decreases age,
{
    if age == 0 {
        seed
    } else {
        next_live(generation(seed, (age - 1) as nat))
    }
}

impl<W: World> Engine<W> {
    /// The engine always holds one whole generation of its seed.
    pub closed spec fn wf(&self) -> bool {
        &&& self.state.wf()
        &&& self.state.live() == generation(self.seed@, self.age@)
    }

    /// The alive cells with which the engine began.
    pub closed spec fn seed(&self) -> Set<Pos> {
        self.seed@
    }

    /// How many generations the engine has computed.
    pub closed spec fn age(&self) -> nat {
        self.age@
    }

    /// What the engine holds is always generation `age` of its seed, whole.
    pub proof fn lemma_holds_whole_generation(&self)
        requires
            self.wf(),
        ensures
            self.live() == generation(self.seed(), self.age()),
    {
    }

    /// The alive cells of the generation that the engine holds.
    pub closed spec fn live(&self) -> Set<Pos> {
        self.state.live()
    }

    /// The cells for which the engine's world has set storage aside.
    pub closed spec fn loaded(&self) -> Set<Pos> {
        self.state.loaded()
    }

    /// The time between two generations, in milliseconds.
    pub closed spec fn interval(&self) -> u64 {
        self.tick_interval
    }

    /// Whether a generation is due once `elapsed_nanos` nanoseconds have
    /// passed since the last one: when more than the interval has passed.
    pub open spec fn due(&self, elapsed_nanos: u128) -> bool {
        elapsed_nanos > self.interval() * 1_000_000
    }

    /// An engine that holds the generation in which exactly the given cells
    /// are alive, with the default interval.
    pub fn new(actives: &Vec<Pos>) -> (engine: Self)
        ensures
            engine.wf(),
            engine.live() == actives@.to_set(),
            engine.loaded() == extent_of::<W>(actives@, actives@.len() as int),
            engine.interval() == DEFAULT_TICK_INTERVAL_MS,
            engine.seed() == actives@.to_set(),
            engine.age() == 0,
    {
        Engine {
            state: State::seeded(actives),
            tick_interval: DEFAULT_TICK_INTERVAL_MS,
            seed: Ghost(actives@.to_set()),
            age: Ghost(0),
        }
    }

    /// The generation that the engine holds.
    pub fn state(&self) -> (state: &State<W>)
        requires
            self.wf(),
        ensures
            state.wf(),
            state.live() == self.live(),
            state.loaded() == self.loaded(),
    {
        &self.state
    }

    /// The time between two generations, in milliseconds.
    pub fn tick_interval(&self) -> (ms: u64)
        ensures
            ms == self.interval(),
    {
        self.tick_interval
    }

    /// An independent copy of the world of the generation that the engine
    /// holds: the whole of it, as the last tick left it.
    pub fn snapshot(&self) -> (w: W)
        requires
            self.wf(),
        ensures
            w.wf(),
            w.live() == self.live(),
            w.live() == generation(self.seed(), self.age()),
            w.loaded() == self.loaded(),
    {
        self.state.snapshot()
    }

    /// The time between two generations as it is reported, in milliseconds.
    pub fn delay(&self) -> (ms: usize)
        ensures
            ms == self.interval() as usize,
    {
        self.tick_interval as usize
    }

    /// Sets the time between two generations, in milliseconds. The
    /// generation is not touched.
    pub fn set_delay(&mut self, delay_ms: u64)
        requires
            old(self).wf(),
        ensures
            final(self).wf(),
            final(self).interval() == delay_ms,
            final(self).live() == old(self).live(),
            final(self).loaded() == old(self).loaded(),
            final(self).seed() == old(self).seed(),
            final(self).age() == old(self).age(),
    {
        self.tick_interval = delay_ms;
    }

    /// Serves one command, and says whether its answer, if it asks for one,
    /// could be sent. The generation is never touched, whether or not the
    /// one who asked is still there: a snapshot is a copy of the whole of it,
    /// and only `SetDelay` changes the interval.
    pub fn serve(&mut self, cmd: SimCmd<W>) -> (delivered: bool)
        requires
            old(self).wf(),
        ensures
            final(self).wf(),
            final(self).live() == old(self).live(),
            final(self).loaded() == old(self).loaded(),
            final(self).seed() == old(self).seed(),
            final(self).age() == old(self).age(),
            final(self).interval() == match cmd {
                SimCmd::SetDelay(delay) => delay,
                _ => old(self).interval(),
            },
            cmd is SetDelay ==> delivered,
    {
        match cmd {
            SimCmd::Snapshot(sender) => send_to(&sender, self.snapshot()),
            SimCmd::SetDelay(delay) => {
                self.set_delay(delay);
                true
            },
            SimCmd::Delay(sender) => send_to(&sender, self.delay()),
        }
    }

    /// Moves on to the next generation if one is due, and says whether it did.
    /// The new generation replaces the old one as a whole.
    pub fn tick(&mut self, elapsed_nanos: u128) -> (advanced: bool)
        requires
            old(self).wf(),
        ensures
            final(self).wf(),
            final(self).interval() == old(self).interval(),
            final(self).seed() == old(self).seed(),
            final(self).age() == old(self).age() + if advanced {
                1nat
            } else {
                0nat
            },
            advanced == old(self).due(elapsed_nanos),
            final(self).live() == if advanced {
                next_live(old(self).live())
            } else {
                old(self).live()
            },
            final(self).loaded() == if advanced {
                next_loaded::<W>(old(self).live())
            } else {
                old(self).loaded()
            },
    {
        let interval: u128 = self.tick_interval as u128;
        if elapsed_nanos > interval * 1_000_000 {
            self.state = self.state.next_generation();
            proof {
                self.age@ = self.age@ + 1;
            }
            true
        } else {
            false
        }
    }
}

} // verus!
