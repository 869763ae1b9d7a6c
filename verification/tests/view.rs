use golrs::view::{
    can_handle, can_show, dbg_layer, delay_text, dmod, draw_frame, grid_layer, handle_inputs,
    initial_origin, key_command, screen_canvas, screen_pos_to_world, title_layer, title_table,
    world_layer,
};
use golrs::{
    deserialize, Canvas, Cell, Dir, HashedWorld, InputCmd, KeyPress, Pos, ViewCmd, ViewRemote,
    World,
};
use std::sync::mpsc;

fn at(x: i32, y: i32) -> Pos {
    Pos { x, y }
}

fn row(canvas: &Canvas, y: usize) -> String {
    canvas.line(y).iter().collect()
}

#[test]
fn a_seed_marks_cells_by_row_and_column() {
    assert_eq!(deserialize(""), vec![]);
    assert_eq!(deserialize("#"), vec![at(0, 0)]);
    assert_eq!(
        deserialize("#.#\n.#\n\n  #"),
        vec![at(0, 0), at(2, 0), at(1, 1), at(2, 3)]
    );
    assert_eq!(deserialize("é#\n#"), vec![at(1, 0), at(0, 1)]);
    assert_eq!(deserialize(".#.\n.#.\n.#.\n"), vec![at(1, 0), at(1, 1), at(1, 2)]);
}

#[test]
fn dmod_is_never_negative() {
    assert_eq!(dmod(0, 16), 0);
    assert_eq!(dmod(17, 16), 1);
    assert_eq!(dmod(-1, 16), 15);
    assert_eq!(dmod(-16, 16), 0);
    assert_eq!(dmod(-17, 16), 15);
    assert_eq!(dmod(i32::MIN, 16), 0);
    assert_eq!(dmod(i32::MAX, 16), 15);
    assert_eq!(dmod(-5, i32::MAX), i32::MAX - 5);
}

#[test]
fn a_screen_place_shows_two_rows() {
    assert_eq!(screen_pos_to_world(at(3, 4), at(-10, 100)), at(-7, 108));
    assert_eq!(screen_pos_to_world(at(0, 0), at(5, 6)), at(5, 6));
}

#[test]
fn keys_move_the_view() {
    let mut origin = at(0, 0);
    let mut debug = false;
    let mut delay = 200u64;
    assert!(!handle_inputs(Some(InputCmd::Move(Dir::Up)), &mut origin, &mut debug, &mut delay));
    assert_eq!(origin, at(0, -3));
    assert!(!handle_inputs(Some(InputCmd::Move(Dir::Left)), &mut origin, &mut debug, &mut delay));
    assert_eq!(origin, at(-6, -3));
    assert!(!handle_inputs(Some(InputCmd::Move(Dir::Down)), &mut origin, &mut debug, &mut delay));
    assert!(!handle_inputs(Some(InputCmd::Move(Dir::Down)), &mut origin, &mut debug, &mut delay));
    assert_eq!(origin, at(-6, 3));
    assert!(!handle_inputs(Some(InputCmd::Move(Dir::Right)), &mut origin, &mut debug, &mut delay));
    assert_eq!(origin, at(0, 3));
    assert_eq!((debug, delay), (false, 200));
}

#[test]
fn keys_change_speed_and_debug() {
    let mut origin = at(1, 2);
    let mut debug = false;
    let mut delay = 200u64;
    assert!(!handle_inputs(Some(InputCmd::Accelerate), &mut origin, &mut debug, &mut delay));
    assert_eq!(delay, 100);
    assert!(!handle_inputs(Some(InputCmd::Accelerate), &mut origin, &mut debug, &mut delay));
    assert_eq!(delay, 0);
    assert!(!handle_inputs(Some(InputCmd::Accelerate), &mut origin, &mut debug, &mut delay));
    assert_eq!(delay, 0);
    assert!(!handle_inputs(Some(InputCmd::Decelerate), &mut origin, &mut debug, &mut delay));
    assert_eq!(delay, 100);
    assert!(!handle_inputs(Some(InputCmd::ToggleDebug), &mut origin, &mut debug, &mut delay));
    assert!(debug);
    assert!(!handle_inputs(Some(InputCmd::ToggleDebug), &mut origin, &mut debug, &mut delay));
    assert!(!debug);
    assert!(!handle_inputs(None, &mut origin, &mut debug, &mut delay));
    assert!(handle_inputs(Some(InputCmd::Exit), &mut origin, &mut debug, &mut delay));
    assert_eq!((origin, debug, delay), (at(1, 2), false, 100));
}

#[test]
fn commands_that_would_overflow_are_told_apart() {
    assert!(can_handle(InputCmd::Move(Dir::Up), at(0, i32::MIN + 3), 0));
    assert!(!can_handle(InputCmd::Move(Dir::Up), at(0, i32::MIN + 2), 0));
    assert!(!can_handle(InputCmd::Move(Dir::Down), at(0, i32::MAX - 2), 0));
    assert!(can_handle(InputCmd::Move(Dir::Left), at(i32::MIN + 6, 0), 0));
    assert!(!can_handle(InputCmd::Move(Dir::Left), at(i32::MIN + 5, 0), 0));
    assert!(!can_handle(InputCmd::Move(Dir::Right), at(i32::MAX - 5, 0), 0));
    assert!(can_handle(InputCmd::Accelerate, at(0, 0), 0));
    assert!(can_handle(InputCmd::Accelerate, at(0, 0), 100));
    assert!(!can_handle(InputCmd::Accelerate, at(0, 0), 99));
    assert!(can_handle(InputCmd::Decelerate, at(0, 0), u64::MAX - 100));
    assert!(!can_handle(InputCmd::Decelerate, at(0, 0), u64::MAX - 99));
    assert!(can_handle(InputCmd::Exit, at(i32::MAX, i32::MAX), 5));
    assert!(can_handle(InputCmd::ToggleDebug, at(i32::MAX, i32::MAX), 5));
}

#[test]
fn a_new_canvas_is_blank() {
    let c = Canvas::new(4, 2);
    assert_eq!(c.width(), 4);
    assert_eq!(c.height(), 2);
    assert_eq!(row(&c, 0), "    ");
    assert_eq!(row(&c, 1), "    ");
    let none = Canvas::new(0, 0);
    assert_eq!((none.width(), none.height()), (0, 0));
}

#[test]
fn a_layer_covers_only_where_it_draws() {
    let mut c = Canvas::new(4, 3);
    c.layer(|p: Pos| if p.x == p.y { Some('x') } else { None });
    assert_eq!(row(&c, 0), "x   ");
    assert_eq!(row(&c, 1), " x  ");
    assert_eq!(row(&c, 2), "  x ");
    c.layer(|p: Pos| if p.y == 1 { Some('é') } else { None });
    assert_eq!(row(&c, 0), "x   ");
    assert_eq!(row(&c, 1), "éééé");
    assert_eq!(row(&c, 2), "  x ");
}

#[test]
fn the_grid_layer_draws_chunk_borders() {
    let mut c = Canvas::new(18, 9);
    assert!(can_show(&c, at(0, 0)));
    grid_layer(&mut c, at(0, 0));
    assert_eq!(row(&c, 0), "┼───────────────┼─");
    assert_eq!(row(&c, 1), "│               │ ");
    assert_eq!(row(&c, 7), "│               │ ");
    assert_eq!(row(&c, 8), "┼───────────────┼─");
    let mut moved = Canvas::new(4, 2);
    grid_layer(&mut moved, at(-2, -1));
    assert_eq!(row(&moved, 0), "  │ ");
    assert_eq!(row(&moved, 1), "──┼─");
}

#[test]
fn the_world_layer_draws_two_cells_to_a_place() {
    let mut w = HashedWorld::empty();
    for p in [at(0, 0), at(1, 1), at(2, 0), at(2, 1), at(-1, -1)] {
        w.set(p, Cell::active());
    }
    let mut c = Canvas::new(4, 1);
    world_layer(&mut c, &w, at(0, 0));
    assert_eq!(row(&c, 0), "▀▄█ ");
    let mut moved = Canvas::new(4, 2);
    world_layer(&mut moved, &w, at(-1, -2));
    assert_eq!(row(&moved, 0), "▄   ");
    assert_eq!(row(&moved, 1), " ▀▄█");
}

#[test]
fn the_debug_layer_marks_loaded_chunks() {
    let mut w = HashedWorld::empty();
    w.set(at(0, 0), Cell::inactive());
    let mut c = Canvas::new(18, 9);
    dbg_layer(&mut c, &w, at(-1, 0));
    assert_eq!(row(&c, 0), " ................ ");
    assert_eq!(row(&c, 7), " ................ ");
    assert_eq!(row(&c, 8), "                  ");
}

#[test]
fn the_title_shows_the_delay() {
    let mut c = Canvas::new(34, 6);
    title_layer(&mut c, 200);
    assert_eq!(row(&c, 0), "│   <golrs>   | [+]: speed up  │  ");
    assert_eq!(row(&c, 1), "│             | [-]: slow down │  ");
    assert_eq!(row(&c, 2), "│ tick delay: | [d]: debug     │  ");
    assert_eq!(row(&c, 3), "│      200 ms | [q]: quit      │  ");
    assert_eq!(row(&c, 4), "└──────────────────────────────┘  ");
    assert_eq!(row(&c, 5), "                                  ");
    let mut narrow = Canvas::new(5, 4);
    title_layer(&mut narrow, 12345678);
    assert_eq!(row(&narrow, 3), "│  12");
}

#[test]
fn the_title_is_built_around_its_text() {
    let text: Vec<char> = "  ab".chars().collect();
    let table = title_table(&text);
    assert_eq!(table.len(), 5);
    let third: String = table[3].iter().collect();
    assert_eq!(third, "│    ab ms | [q]: quit      │");
}

#[test]
fn a_delay_is_right_aligned_in_seven_columns() {
    let text = |de: usize| -> String { delay_text(de).iter().collect() };
    assert_eq!(text(0), "      0");
    assert_eq!(text(7), "      7");
    assert_eq!(text(10), "     10");
    assert_eq!(text(200), "    200");
    assert_eq!(text(999_999), " 999999");
    assert_eq!(text(1_000_000), "1000000");
    assert_eq!(text(9_999_999), "9999999");
    assert_eq!(text(12_345_678), "12345678");
    for de in [0usize, 5, 42, 100, 65_535, 1_234_567, 4_000_000_000] {
        assert_eq!(text(de), format!("{de:>7}"));
    }
}

#[test]
fn a_canvas_must_fit_the_plane() {
    let c = Canvas::new(10, 10);
    assert!(can_show(&c, at(i32::MAX - 10, i32::MAX - 20)));
    assert!(!can_show(&c, at(i32::MAX - 9, 0)));
    assert!(!can_show(&c, at(0, i32::MAX - 19)));
    assert!(can_show(&c, at(i32::MIN, i32::MIN)));
}

#[test]
fn the_remote_sends_commands() {
    let (tx, rx) = mpsc::channel::<ViewCmd<HashedWorld>>();
    let remote = ViewRemote::new(tx);
    assert!(remote.refresh());
    assert!(matches!(rx.try_recv().ok(), Some(ViewCmd::Refresh)));
    let mut w = HashedWorld::empty();
    w.set(at(2, 3), Cell::active());
    assert!(remote.set_world(w));
    match rx.try_recv().ok() {
        Some(ViewCmd::UpdateWorld(world)) => assert_eq!(world.actives(), vec![at(2, 3)]),
        _ => panic!("no world came"),
    }
    drop(rx);
    assert!(!remote.refresh());
}

#[test]
fn keys_map_to_commands() {
    assert_eq!(key_command(KeyPress::Char('q')), Some(InputCmd::Exit));
    assert_eq!(key_command(KeyPress::Char('d')), Some(InputCmd::ToggleDebug));
    assert_eq!(key_command(KeyPress::Char('+')), Some(InputCmd::Accelerate));
    assert_eq!(key_command(KeyPress::Char('-')), Some(InputCmd::Decelerate));
    assert_eq!(key_command(KeyPress::Up), Some(InputCmd::Move(Dir::Up)));
    assert_eq!(key_command(KeyPress::Down), Some(InputCmd::Move(Dir::Down)));
    assert_eq!(key_command(KeyPress::Left), Some(InputCmd::Move(Dir::Left)));
    assert_eq!(key_command(KeyPress::Right), Some(InputCmd::Move(Dir::Right)));
    assert_eq!(key_command(KeyPress::Char('x')), None);
    assert_eq!(key_command(KeyPress::Char('Q')), None);
    assert_eq!(key_command(KeyPress::Other), None);
}

#[test]
fn a_frame_stacks_its_layers() {
    let mut w = HashedWorld::empty();
    w.set(at(40, 0), Cell::active());
    w.set(at(48, 1), Cell::active());
    w.set(at(2, 2), Cell::active());
    let mut plain = Canvas::new(52, 6);
    draw_frame(&mut plain, &w, at(0, 0), false, 200);
    assert_eq!(row(&plain, 0), "│   <golrs>   | [+]: speed up  │┼───────▀───────▄───");
    assert_eq!(row(&plain, 1), "│             | [-]: slow down ││               │   ");
    assert_eq!(row(&plain, 3), "│      200 ms | [q]: quit      ││               │   ");
    assert_eq!(row(&plain, 4), "└──────────────────────────────┘│               │   ");
    assert_eq!(row(&plain, 5), "│               │               │               │   ");
    let mut marked = Canvas::new(52, 9);
    draw_frame(&mut marked, &w, at(0, 0), true, 200);
    assert_eq!(row(&marked, 0), "│   <golrs>   | [+]: speed up  │┼───────▀───────▄───");
    assert_eq!(row(&marked, 1), "│             | [-]: slow down ││...............│...");
    assert_eq!(row(&marked, 5), "│...............│               │...............│...");
    assert_eq!(row(&marked, 7), "│...............│               │...............│...");
    assert_eq!(row(&marked, 8), "┼───────────────┼───────────────┼───────────────┼───");
}

#[test]
fn the_view_begins_above_and_left_of_the_origin() {
    assert_eq!(initial_origin(80, 24), at(-40, -24));
    assert_eq!(initial_origin(81, 25), at(-40, -25));
    assert_eq!(initial_origin(0, 0), at(0, 0));
    assert_eq!(initial_origin(u16::MAX, u16::MAX), at(-32767, -65535));
}

#[test]
fn the_canvas_leaves_the_last_row_of_the_screen_free() {
    let c = screen_canvas(80, 24);
    assert_eq!((c.width(), c.height()), (80, 23));
    assert_eq!(row(&c, 22), " ".repeat(80));
    let flat = screen_canvas(3, 1);
    assert_eq!((flat.width(), flat.height()), (3, 0));
}
