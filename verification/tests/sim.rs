use golrs::sim::next_cell;
use golrs::{Cell, Engine, HashedWorld, Pos, SimCmd, SimHandle, State, World};
use std::sync::mpsc;

fn sorted(mut cells: Vec<Pos>) -> Vec<Pos> {
    cells.sort_by_key(|p| (p.x, p.y));
    cells
}

fn at(x: i32, y: i32) -> Pos {
    Pos { x, y }
}

fn seeded(cells: &[Pos]) -> State<HashedWorld> {
    State::seeded(&cells.to_vec())
}

#[test]
fn the_rule_keeps_three_or_four_and_bears_three() {
    for n in 0..=8usize {
        assert_eq!(next_cell(true, n), n == 3 || n == 4);
        assert_eq!(next_cell(false, n), n == 3);
    }
}

#[test]
fn a_new_state_is_dead() {
    let s: State<HashedWorld> = State::new();
    assert!(s.actives().is_empty());
    assert!(!s.is_cell_alive(at(0, 0)));
    assert_eq!(s.get_neighbor_count(at(0, 0)), 0);
    assert!(s.possible_change_pos().is_empty());
}

#[test]
fn a_seeded_state_holds_the_seed() {
    let s = seeded(&[at(1, 0), at(1, 1), at(1, 2), at(1, 1)]);
    assert_eq!(sorted(s.actives()), vec![at(1, 0), at(1, 1), at(1, 2)]);
    assert!(s.get(at(1, 1)).is_active());
    assert!(!s.get(at(0, 1)).is_active());
}

#[test]
fn state_set_and_get() {
    let mut s: State<HashedWorld> = State::new();
    s.set(at(-3, 9), Cell::active());
    assert!(s.get(at(-3, 9)).is_active());
    assert!(s.is_cell_alive(at(-3, 9)));
    s.set(at(-3, 9), Cell::inactive());
    assert!(!s.is_cell_alive(at(-3, 9)));
}

#[test]
fn neighbors_are_the_block_around_a_cell() {
    let s: State<HashedWorld> = State::new();
    assert_eq!(
        sorted(s.get_neighbors(at(5, -5))),
        vec![
            at(4, -6),
            at(4, -5),
            at(4, -4),
            at(5, -6),
            at(5, -5),
            at(5, -4),
            at(6, -6),
            at(6, -5),
            at(6, -4)
        ]
    );
}

#[test]
fn neighbors_stop_where_coordinates_end() {
    let s: State<HashedWorld> = State::new();
    assert_eq!(
        sorted(s.get_neighbors(at(i32::MAX, i32::MIN))),
        vec![
            at(i32::MAX - 1, i32::MIN),
            at(i32::MAX - 1, i32::MIN + 1),
            at(i32::MAX, i32::MIN),
            at(i32::MAX, i32::MIN + 1)
        ]
    );
}

#[test]
fn the_neighbor_count_leaves_the_cell_out() {
    let s = seeded(&[at(1, 0), at(1, 1), at(1, 2)]);
    assert_eq!(s.get_neighbor_count(at(1, 1)), 2);
    assert_eq!(s.get_neighbor_count(at(1, 0)), 1);
    assert_eq!(s.get_neighbor_count(at(1, 2)), 1);
    assert_eq!(s.get_neighbor_count(at(0, 1)), 3);
    assert_eq!(s.get_neighbor_count(at(2, 1)), 3);
    assert_eq!(s.get_neighbor_count(at(0, 0)), 2);
    assert_eq!(s.get_neighbor_count(at(3, 1)), 0);
    let full = seeded(&[
        at(0, 0),
        at(0, 1),
        at(0, 2),
        at(1, 0),
        at(1, 1),
        at(1, 2),
        at(2, 0),
        at(2, 1),
        at(2, 2),
    ]);
    assert_eq!(full.get_neighbor_count(at(1, 1)), 8);
    assert_eq!(full.get_neighbor_count(at(0, 0)), 3);
}

#[test]
fn candidates_are_the_blocks_around_alive_cells() {
    let s = seeded(&[at(0, 0), at(10, 10)]);
    let mut cands = sorted(s.possible_change_pos());
    cands.dedup();
    assert_eq!(cands.len(), 18);
    assert!(cands.contains(&at(-1, -1)));
    assert!(cands.contains(&at(0, 0)));
    assert!(cands.contains(&at(11, 9)));
    assert!(!cands.contains(&at(2, 0)));
}

#[test]
fn a_bar_of_three_does_not_survive() {
    let s = seeded(&[at(1, 0), at(1, 1), at(1, 2)]);
    let next = s.next_generation();
    assert!(!next.is_cell_alive(at(1, 0)));
    assert!(!next.is_cell_alive(at(1, 1)));
    assert!(!next.is_cell_alive(at(1, 2)));
    assert_eq!(sorted(next.actives()), vec![at(0, 1), at(2, 1)]);
    let after = next.next_generation();
    assert!(after.actives().is_empty());
}

#[test]
fn a_dead_cell_with_three_neighbors_is_born() {
    let s = seeded(&[at(0, 0), at(1, 0), at(0, 1)]);
    let next = s.next_generation();
    assert!(next.is_cell_alive(at(1, 1)));
    assert_eq!(next.actives(), vec![at(1, 1)]);
}

#[test]
fn a_block_of_four_stays() {
    let block = [at(0, 0), at(0, 1), at(1, 0), at(1, 1)];
    let s = seeded(&block);
    let next = s.next_generation();
    assert_eq!(sorted(next.actives()), block.to_vec());
}

#[test]
fn a_cell_with_five_neighbors_dies() {
    let s = seeded(&[at(0, 0), at(1, 0), at(2, 0), at(0, 1), at(1, 1), at(2, 1)]);
    let next = s.next_generation();
    assert!(!next.is_cell_alive(at(1, 0)));
    assert!(!next.is_cell_alive(at(1, 1)));
    assert!(next.is_cell_alive(at(0, 0)));
    assert!(next.is_cell_alive(at(1, -1)));
    assert!(next.is_cell_alive(at(1, 2)));
}

#[test]
fn a_generation_far_out_follows_the_same_rule() {
    let o = at(1_000_000, -1_000_000);
    let s = seeded(&[o, at(o.x + 1, o.y), at(o.x, o.y + 1)]);
    let next = s.next_generation();
    assert_eq!(next.actives(), vec![at(o.x + 1, o.y + 1)]);
}

#[test]
fn a_generation_at_the_edge_of_the_plane() {
    let s = seeded(&[
        at(i32::MAX, i32::MAX),
        at(i32::MAX - 1, i32::MAX),
        at(i32::MAX, i32::MAX - 1),
    ]);
    let next = s.next_generation();
    assert_eq!(next.actives(), vec![at(i32::MAX - 1, i32::MAX - 1)]);
}

#[test]
fn a_new_generation_keeps_only_the_chunks_it_wrote() {
    let s = seeded(&[at(0, 0), at(1, 0), at(0, 1), at(100, 100)]);
    let w = s.snapshot();
    assert!(w.dbg_is_loaded(at(100, 100)));
    let next = s.next_generation().snapshot();
    assert!(next.dbg_is_loaded(at(1, 1)));
    assert!(!next.dbg_is_loaded(at(100, 100)));
}

#[test]
fn the_old_generation_is_left_as_it_was() {
    let s = seeded(&[at(1, 0), at(1, 1), at(1, 2)]);
    let _next = s.next_generation();
    assert_eq!(sorted(s.actives()), vec![at(1, 0), at(1, 1), at(1, 2)]);
}

#[test]
fn the_engine_ticks_only_when_the_interval_has_passed() {
    let mut e: Engine<HashedWorld> = Engine::new(&vec![at(0, 0), at(1, 0), at(0, 1)]);
    assert_eq!(e.tick_interval(), 200);
    assert_eq!(e.delay(), 200);
    assert!(!e.tick(0));
    assert!(!e.tick(200_000_000));
    assert_eq!(sorted(e.state().actives()), vec![at(0, 0), at(0, 1), at(1, 0)]);
    assert!(e.tick(200_000_001));
    assert_eq!(e.state().actives(), vec![at(1, 1)]);
    assert!(e.tick(u128::MAX));
    assert!(e.state().actives().is_empty());
}

#[test]
fn the_engine_serves_commands() {
    let mut e: Engine<HashedWorld> = Engine::new(&vec![at(0, 0), at(1, 0), at(0, 1)]);
    assert!(e.serve(SimCmd::SetDelay(50)));
    assert_eq!(e.tick_interval(), 50);
    let (tx, rx) = mpsc::channel();
    assert!(e.serve(SimCmd::Delay(tx)));
    assert_eq!(rx.try_recv().ok(), Some(50usize));
    let (tx, rx) = mpsc::channel();
    assert!(e.serve(SimCmd::Snapshot(tx)));
    let w: HashedWorld = rx.try_recv().ok().unwrap();
    assert_eq!(sorted(w.actives()), vec![at(0, 0), at(0, 1), at(1, 0)]);
    assert_eq!(e.tick_interval(), 50);
    assert!(!e.tick(50_000_000));
    assert!(e.tick(50_000_001));
    e.set_delay(0);
    assert_eq!(e.delay(), 0);
    assert!(!e.tick(0));
    assert!(e.tick(1));
}

#[test]
fn a_command_from_someone_gone_leaves_the_engine_running() {
    let mut e: Engine<HashedWorld> = Engine::new(&vec![at(0, 0)]);
    let (tx, rx) = mpsc::channel::<HashedWorld>();
    drop(rx);
    assert!(!e.serve(SimCmd::Snapshot(tx)));
    let (tx, rx) = mpsc::channel::<usize>();
    drop(rx);
    assert!(!e.serve(SimCmd::Delay(tx)));
    assert_eq!(e.state().actives(), vec![at(0, 0)]);
    assert_eq!(e.tick_interval(), 200);
}

#[test]
fn snapshots_are_whole_generations_and_independent() {
    let seed = vec![at(0, 0), at(1, 0), at(0, 1)];
    let mut e: Engine<HashedWorld> = Engine::new(&seed);
    e.set_delay(1);
    let mut first = e.snapshot();
    assert_eq!(sorted(first.actives()), vec![at(0, 0), at(0, 1), at(1, 0)]);
    assert!(e.tick(2_000_000));
    let second = e.snapshot();
    assert_eq!(second.actives(), vec![at(1, 1)]);
    assert_eq!(sorted(first.actives()), vec![at(0, 0), at(0, 1), at(1, 0)]);
    first.set(at(9, 9), Cell::active());
    assert!(!e.state().is_cell_alive(at(9, 9)));
    assert!(!second.get(at(9, 9)).is_active());
    assert!(e.tick(2_000_000));
    assert!(e.snapshot().actives().is_empty());
    assert_eq!(second.actives(), vec![at(1, 1)]);
}

#[test]
fn the_handle_sends_commands() {
    let (tx, rx) = mpsc::channel::<SimCmd<HashedWorld>>();
    let handle = SimHandle::new(tx);
    assert!(handle.set_delay(75));
    match rx.try_recv().ok() {
        Some(SimCmd::SetDelay(ms)) => assert_eq!(ms, 75),
        _ => panic!("no command came"),
    }
    drop(rx);
    assert!(!handle.set_delay(5));
    assert!(handle.snapshot().is_none());
    assert_eq!(handle.delay(), None);
}

#[test]
fn a_command_from_the_handle_reaches_the_engine() {
    let (tx, rx) = mpsc::channel::<SimCmd<HashedWorld>>();
    let handle = SimHandle::new(tx);
    let mut e: Engine<HashedWorld> = Engine::new(&vec![at(4, 4)]);
    assert!(handle.set_delay(30));
    let cmd = rx.try_recv().ok().unwrap();
    assert!(e.serve(cmd));
    assert_eq!(e.delay(), 30);
}
