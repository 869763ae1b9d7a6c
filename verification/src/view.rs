//! What the terminal view decides: what a key does, and what each layer
//! draws where.

use vstd::prelude::*;
use crate::utils::Pos;
use crate::sim::send_to;
use crate::world::World;
use std::sync::mpsc::Sender;

pub mod canvas;

pub use canvas::Canvas;

verus! {

/// A command to the view.
pub enum ViewCmd<W: World> {
    /// Draw again.
    Refresh,
    /// Show this world from now on.
    UpdateWorld(W),
}

/// The end of the view's command channel that its users hold.
#[verifier::reject_recursive_types(W)]
pub struct ViewRemote<W: World> {
    sender: Sender<ViewCmd<W>>,
}

impl<W: World> ViewRemote<W> {
    /// A remote that sends its commands on `sender`.
    pub fn new(sender: Sender<ViewCmd<W>>) -> (remote: Self)
        ensures
            remote.channel() == sender,
    {
        Self { sender }
    }

    /// Asks the view to draw again, and says whether the view was there to
    /// hear it.
    pub fn refresh(&self) -> bool {
        send_to(&self.sender, ViewCmd::Refresh)
    }

    /// Hands the view the world to show, and says whether the view was there
    /// to take it.
    pub fn set_world(&self, world: W) -> bool {
        send_to(&self.sender, ViewCmd::UpdateWorld(world))
    }

    /// The sending end on which the remote sends its commands.
    pub closed spec fn channel(&self) -> Sender<ViewCmd<W>> {
        self.sender
    }
}

/// A direction in which the view can be moved.
#[derive(Debug, Clone, Copy, PartialEq, Eq, Structural)]
pub enum Dir {
    Up,
    Down,
    Left,
    Right,
}

/// What a key asks of the view.
#[derive(Debug, Clone, Copy, PartialEq, Eq, Structural)]
pub enum InputCmd {
    Exit,
    ToggleDebug,
    Move(Dir),
    Accelerate,
    Decelerate,
}

/// A key as the view tells keys apart.
#[derive(Debug, Clone, Copy, PartialEq, Eq, Structural)]
pub enum KeyPress {
    Char(char),
    Up,
    Down,
    Left,
    Right,
    Other,
}

/// What a key asks of the view, for use in contracts: `q` ends it, `d` flips
/// the debug layer, the arrows move it, `+` and `-` change the speed, and no
/// other key asks anything.
pub open spec fn command_of(key: KeyPress) -> Option<InputCmd> {
    match key {
        KeyPress::Char(c) => if c == 'q' {
            Some(InputCmd::Exit)
        } else if c == 'd' {
            Some(InputCmd::ToggleDebug)
        } else if c == '+' {
            Some(InputCmd::Accelerate)
        } else if c == '-' {
            Some(InputCmd::Decelerate)
        } else {
            None
        },
        KeyPress::Up => Some(InputCmd::Move(Dir::Up)),
        KeyPress::Down => Some(InputCmd::Move(Dir::Down)),
        KeyPress::Left => Some(InputCmd::Move(Dir::Left)),
        KeyPress::Right => Some(InputCmd::Move(Dir::Right)),
        KeyPress::Other => None,
    }
}

/// What a key asks of the view, if anything.
pub fn key_command(key: KeyPress) -> (cmd: Option<InputCmd>)
    ensures
        cmd == command_of(key),
{
    match key {
        KeyPress::Char('q') => Some(InputCmd::Exit),
        KeyPress::Char('d') => Some(InputCmd::ToggleDebug),
        KeyPress::Up => Some(InputCmd::Move(Dir::Up)),
        KeyPress::Down => Some(InputCmd::Move(Dir::Down)),
        KeyPress::Left => Some(InputCmd::Move(Dir::Left)),
        KeyPress::Right => Some(InputCmd::Move(Dir::Right)),
        KeyPress::Char('+') => Some(InputCmd::Accelerate),
        KeyPress::Char('-') => Some(InputCmd::Decelerate),
        _ => None,
    }
}

/// How long the view waits for a key before it draws again, in milliseconds.
pub const VIEW_REFRESH_INTERVAL_MS: u64 = 100;

/// How far one key press moves the view, in rows.
pub const MOVEMENT_STEP: i32 = 3;

/// By how much one key press changes the time between two generations, in
/// milliseconds.
pub const DELAY_STEP: u64 = 100;

/// How far a move in the given direction shifts the view: three rows up or
/// down, six columns left or right.
pub open spec fn shift_of(direction: Dir) -> (int, int) {
    match direction {
        Dir::Up => (0, -3),
        Dir::Down => (0, 3),
        Dir::Left => (-6, 0),
        Dir::Right => (6, 0),
    }
}

/// Whether a command can be carried out: a move must stay within the
/// coordinate type, and the delay within its own.
pub open spec fn can_apply(cmd: InputCmd, view_origin: Pos, delay: u64) -> bool {
    match cmd {
        InputCmd::Move(direction) => Pos::representable(
            (view_origin.x + shift_of(direction).0, view_origin.y + shift_of(direction).1),
        ),
        InputCmd::Accelerate => delay == 0 || delay >= 100,
        InputCmd::Decelerate => delay + 100 <= u64::MAX,
        _ => true,
    }
}

/// Carries out what a key asked for, if one was pressed, and says whether the
/// view is to end. A move shifts the origin, `ToggleDebug` flips the flag,
/// and the delay goes down by a step unless it is 0, or up by a step.
pub fn handle_inputs(
    cmd: Option<InputCmd>,
    view_origin: &mut Pos,
    debug: &mut bool,
    delay: &mut u64,
) -> (exit: bool)
    requires
        cmd matches Some(c) ==> can_apply(c, *old(view_origin), *old(delay)),
    ensures
        exit == (cmd == Some(InputCmd::Exit)),
        *final(debug) == if cmd == Some(InputCmd::ToggleDebug) {
            !*old(debug)
        } else {
            *old(debug)
        },
        final(view_origin).x == old(view_origin).x + match cmd {
            Some(InputCmd::Move(direction)) => shift_of(direction).0,
            _ => 0,
        },
        final(view_origin).y == old(view_origin).y + match cmd {
            Some(InputCmd::Move(direction)) => shift_of(direction).1,
            _ => 0,
        },
        *final(delay) == match cmd {
            Some(InputCmd::Accelerate) => if *old(delay) > 0 {
                *old(delay) - 100
            } else {
                0
            },
            Some(InputCmd::Decelerate) => *old(delay) + 100,
            _ => *old(delay) as int,
        },
{
    match cmd {
        Some(InputCmd::Exit) => true,
        Some(InputCmd::ToggleDebug) => {
            *debug = !*debug;
            false
        },
        Some(InputCmd::Move(direction)) => {
            let shift = match direction {
                Dir::Up => Pos { x: 0, y: -MOVEMENT_STEP },
                Dir::Down => Pos { x: 0, y: MOVEMENT_STEP },
                Dir::Left => Pos { x: -2 * MOVEMENT_STEP, y: 0 },
                Dir::Right => Pos { x: 2 * MOVEMENT_STEP, y: 0 },
            };
            *view_origin = *view_origin + shift;
            false
        },
        Some(InputCmd::Accelerate) => {
            if *delay > 0 {
                *delay = *delay - DELAY_STEP;
            }
            false
        },
        Some(InputCmd::Decelerate) => {
            *delay = *delay + DELAY_STEP;
            false
        },
        None => false,
    }
}

/// Whether a command can be carried out on the given view without leaving
/// the range of its numbers.
pub fn can_handle(cmd: InputCmd, view_origin: Pos, delay: u64) -> (ok: bool)
    ensures
        ok == can_apply(cmd, view_origin, delay),
{
    match cmd {
        InputCmd::Move(Dir::Up) => view_origin.y >= i32::MIN + 3,
        InputCmd::Move(Dir::Down) => view_origin.y <= i32::MAX - 3,
        InputCmd::Move(Dir::Left) => view_origin.x >= i32::MIN + 6,
        InputCmd::Move(Dir::Right) => view_origin.x <= i32::MAX - 6,
        InputCmd::Accelerate => delay == 0 || delay >= 100,
        InputCmd::Decelerate => delay <= u64::MAX - 100,
        _ => true,
    }
}

/// The remainder of `a` by `module` that is never negative.
pub fn dmod(a: i32, module: i32) -> (r: i32)
    requires
        module > 0,
    ensures
        r == a as int % module as int,
{
    if a >= 0 {
        a % module
    } else {
        let below: i32 = -(a + 1);
        let back: i32 = below % module;
        proof {
            let q = below as int / module as int;
            vstd::arithmetic::div_mod::lemma_fundamental_div_mod(below as int, module as int);
            vstd::arithmetic::div_mod::lemma_mod_bound(below as int, module as int);
            assert((-q - 1) * module + (module - 1 - back) == a) by (nonlinear_arith)
                requires
                    below == module * q + back,
                    below == -(a + 1),
            ;
            vstd::arithmetic::div_mod::lemma_fundamental_div_mod_converse(
                a as int,
                module as int,
                -q - 1,
                module - 1 - back,
            );
        }
        module - 1 - back
    }
}

/// The world coordinate that the upper half of a place on the screen shows:
/// one place shows two cells, one above the other.
pub open spec fn world_spot(pos: Pos, view_origin: Pos) -> (int, int) {
    (pos.x + view_origin.x, 2 * pos.y + view_origin.y)
}

/// The cell that the upper half of the place `pos` on the screen shows, when
/// the top left corner of the screen shows the cell at `view_origin`.
pub fn screen_pos_to_world(pos: Pos, view_origin: Pos) -> (at: Pos)
    requires
        Pos::representable((pos.x as int, 2 * pos.y)),
        Pos::representable(world_spot(pos, view_origin)),
    ensures
        (at.x as int, at.y as int) == world_spot(pos, view_origin),
{
    let doubled = Pos { x: pos.x, y: pos.y * 2 };
    doubled + view_origin
}

/// Whether a canvas of the given size, with its top left corner at
/// `view_origin`, shows only cells that the coordinate type can name.
pub open spec fn fits_view(columns: int, rows: int, view_origin: Pos) -> bool {
    &&& columns <= i32::MAX
    &&& 2 * rows <= i32::MAX
    &&& view_origin.x + columns <= i32::MAX
    &&& view_origin.y + 2 * rows <= i32::MAX
}

/// Whether `local_pos` is a place on a canvas of the given size.
pub open spec fn on_canvas(local_pos: Pos, columns: int, rows: int) -> bool {
    0 <= local_pos.x < columns && 0 <= local_pos.y < rows
}

/// Whether `after` is `before` with a layer drawn over it that puts
/// `mark(x, y)` in column `x` of row `y`, and nothing where that is `None`.
pub open spec fn layered(before: Canvas, after: Canvas, mark: spec_fn(int, int) -> Option<char>) -> bool {
    &&& after.wf()
    &&& after.columns() == before.columns()
    &&& after.rows() == before.rows()
    &&& forall|x: int, y: int|
        0 <= x < before.columns() && 0 <= y < before.rows() ==> #[trigger] after.at(x, y) == match mark(
            x,
            y,
        ) {
            Some(ch) => ch,
            None => before.at(x, y),
        }
}

/// Whether a canvas can show the plane with its top left corner at
/// `view_origin`.
pub fn can_show(canvas: &Canvas, view_origin: Pos) -> (ok: bool)
    ensures
        ok == fits_view(canvas.columns(), canvas.rows(), view_origin),
{
    let columns = canvas.width();
    let rows = canvas.height();
    if columns > 0x7fff_ffff || rows > 0x3fff_ffff {
        return false;
    }
    view_origin.x as i64 + columns as i64 <= 0x7fff_ffff && view_origin.y as i64 + 2 * (rows as i64)
        <= 0x7fff_ffff
}

/// The line of the chunk grid that passes through the cell at `(x, y)`: chunk
/// borders run along every sixteenth column, and along the first two of every
/// sixteen rows, which share one row of the screen.
pub open spec fn grid_mark(x: int, y: int) -> Option<char> {
    let on_column = x % 16 == 0;
    let on_row = y % 16 <= 1;
    if on_column && on_row {
        Some('\u{253c}')
    } else if on_column {
        Some('\u{2502}')
    } else if on_row {
        Some('\u{2500}')
    } else {
        None
    }
}

/// The block that shows the two cells at `(x, y)` and below it: full where
/// both are alive, a half where one is, none where neither is.
pub open spec fn world_mark(live: Set<Pos>, x: int, y: int) -> Option<char> {
    let top = live.contains(Pos { x: x as i32, y: y as i32 });
    let bottom = live.contains(Pos { x: x as i32, y: (y + 1) as i32 });
    if top && bottom {
        Some('\u{2588}')
    } else if top {
        Some('\u{2580}')
    } else if bottom {
        Some('\u{2584}')
    } else {
        None
    }
}

/// A dot where storage is set aside for the cell at `(x, y)`.
pub open spec fn dbg_mark(loaded: Set<Pos>, x: int, y: int) -> Option<char> {
    if loaded.contains(Pos { x: x as i32, y: y as i32 }) {
        Some('.')
    } else {
        None
    }
}

/// Draws the borders of the chunks.
pub fn grid_layer(canvas: &mut Canvas, view_origin: Pos)
    requires
        old(canvas).wf(),
        fits_view(old(canvas).columns(), old(canvas).rows(), view_origin),
    ensures
        layered(
            *old(canvas),
            *final(canvas),
            |x: int, y: int| grid_mark(x + view_origin.x, 2 * y + view_origin.y),
        ),
{
    let ghost columns = canvas.columns();
    let ghost rows = canvas.rows();
    canvas.layer(
        |local_pos: Pos| -> (mark: Option<char>)
            requires
                on_canvas(local_pos, columns, rows),
            ensures
                mark == grid_mark(local_pos.x + view_origin.x, 2 * local_pos.y + view_origin.y)
            {
                let at = screen_pos_to_world(local_pos, view_origin);
                let on_column = dmod(at.x, 16) == 0;
                let on_row = dmod(at.y, 16) <= 1;
                if on_column && on_row {
                    Some('\u{253c}')
                } else if on_column {
                    Some('\u{2502}')
                } else if on_row {
                    Some('\u{2500}')
                } else {
                    None
                }
            },
    );
}

/// Draws the alive cells of `world`, two to a place.
pub fn world_layer<W: World>(canvas: &mut Canvas, world: &W, view_origin: Pos)
    requires
        old(canvas).wf(),
        world.wf(),
        fits_view(old(canvas).columns(), old(canvas).rows(), view_origin),
    ensures
        layered(
            *old(canvas),
            *final(canvas),
            |x: int, y: int| world_mark(world.live(), x + view_origin.x, 2 * y + view_origin.y),
        ),
{
    let ghost columns = canvas.columns();
    let ghost rows = canvas.rows();
    canvas.layer(
        |local_pos: Pos| -> (mark: Option<char>)
            requires
                on_canvas(local_pos, columns, rows),
            ensures
                mark == world_mark(
                    world.live(),
                    local_pos.x + view_origin.x,
                    2 * local_pos.y + view_origin.y,
                )
            {
                let pos_top = screen_pos_to_world(local_pos, view_origin);
                let top = world.get(pos_top).is_active();
                let pos_bottom = pos_top + Pos { x: 0, y: 1 };
                let bottom = world.get(pos_bottom).is_active();
                if top && bottom {
                    Some('\u{2588}')
                } else if top {
                    Some('\u{2580}')
                } else if bottom {
                    Some('\u{2584}')
                } else {
                    None
                }
            },
    );
}

/// Marks the cells for which `world` has set storage aside.
pub fn dbg_layer<W: World>(canvas: &mut Canvas, world: &W, view_origin: Pos)
    requires
        old(canvas).wf(),
        world.wf(),
        fits_view(old(canvas).columns(), old(canvas).rows(), view_origin),
    ensures
        layered(
            *old(canvas),
            *final(canvas),
            |x: int, y: int| dbg_mark(world.loaded(), x + view_origin.x, 2 * y + view_origin.y),
        ),
{
    let ghost columns = canvas.columns();
    let ghost rows = canvas.rows();
    canvas.layer(
        |local_pos: Pos| -> (mark: Option<char>)
            requires
                on_canvas(local_pos, columns, rows),
            ensures
                mark == dbg_mark(
                    world.loaded(),
                    local_pos.x + view_origin.x,
                    2 * local_pos.y + view_origin.y,
                )
            {
                let pos = screen_pos_to_world(local_pos, view_origin);
                if world.dbg_is_loaded(pos) {
                    Some('.')
                } else {
                    None
                }
            },
    );
}

/// The character for the digit `d`.
pub open spec fn digit_of(d: int) -> char {
    ((48 + d) as u8) as char
}

/// The digits of `n` in decimal, the most significant one first.
pub open spec fn decimal(n: nat) -> Seq<char>
    decreases n,
{
    if n < 10 {
        seq![digit_of(n as int)]
    } else {
        decimal(n / 10).push(digit_of(n as int % 10))
    }
}

/// The digits of `n`, with as many spaces before them as it takes to fill
/// seven columns; none where `n` has seven digits or more.
pub open spec fn padded_decimal(n: nat) -> Seq<char> {
    let digits = decimal(n);
    if digits.len() >= 7 {
        digits
    } else {
        Seq::new((7 - digits.len()) as nat, |i: int| ' ') + digits
    }
}

/// Writes `de` in decimal, right-aligned in seven columns.
pub fn delay_text(de: usize) -> (text: Vec<char>)
    ensures
        text@ == padded_decimal(de as nat),
{
    let mut text: Vec<char> = Vec::new();
    let mut rest: usize = de;
    loop
        invariant_except_break
            text@.len() == 0 ==> rest == de,
            text@.len() > 0 ==> rest > 0 && decimal(de as nat) == decimal(rest as nat) + text@,
        ensures
            text@ == decimal(de as nat),
        decreases rest,
    {
        let digit: u8 = (rest % 10) as u8;
        let ghost before = text@;
        let ghost whole = rest;
        text.insert(0, (48u8 + digit) as char);
        rest = rest / 10;
        proof {
            assert(text@ == seq![digit_of(whole as int % 10)] + before);
            if whole < 10 {
                assert(decimal(whole as nat) == seq![digit_of(whole as int)]);
            } else {
                assert(decimal(whole as nat) == decimal(rest as nat).push(digit_of(whole as int % 10)));
                assert(decimal(rest as nat).push(digit_of(whole as int % 10)) + before == decimal(
                    rest as nat,
                ) + text@);
            }
            if before.len() == 0 {
                assert(decimal(whole as nat) + before == decimal(whole as nat));
            }
        }
        if rest == 0 {
            break ;
        }
    }
    let ghost digits = text@;
    let mut pad: usize = 0;
    while text.len() < 7
        invariant
            digits == decimal(de as nat),
            text@ == Seq::new(pad as nat, |i: int| ' ') + digits,
            text@.len() == pad + digits.len(),
            pad == 0 || text@.len() <= 7,
        decreases 7 - text@.len(),
    {
        text.insert(0, ' ');
        pad = pad + 1;
        assert(text@ == Seq::new(pad as nat, |i: int| ' ') + digits);
    }
    assert(Seq::new(0nat, |i: int| ' ') + digits == digits);
    text
}

/// The characters of a string, in their order.
fn chars_of(s: &str) -> (v: Vec<char>)
    ensures
        v@ == s@,
{
    let mut v: Vec<char> = Vec::new();
    for c in it: s.chars()
        invariant
            it.seq() == s@,
            v@ == s@.take(it.index()),
    {
        assert(s@.take(it.index() + 1) == s@.take(it.index()).push(c));
        v.push(c);
    }
    assert(s@.take(s@.len() as int) == s@);
    v
}

/// The rows of the title box, which shows the keys and, in `text`, the time
/// between two generations.
pub open spec fn title_rows(text: Seq<char>) -> Seq<Seq<char>> {
    seq![
        "│   <golrs>   | [+]: speed up  │"@,
        "│             | [-]: slow down │"@,
        "│ tick delay: | [d]: debug     │"@,
        "│  "@ + text + " ms | [q]: quit      │"@,
        "└──────────────────────────────┘"@,
    ]
}

/// The character of the title box in column `x` of row `y`, where the box
/// reaches.
pub open spec fn title_mark(text: Seq<char>, x: int, y: int) -> Option<char> {
    if 0 <= y < 5 && 0 <= x < title_rows(text)[y].len() {
        Some(title_rows(text)[y][x])
    } else {
        None
    }
}

/// Builds the rows of the title box around `text`.
pub fn title_table(text: &Vec<char>) -> (table: Vec<Vec<char>>)
    ensures
        table@.len() == 5,
        forall|y: int| 0 <= y < 5 ==> (#[trigger] table@[y])@ == title_rows(text@)[y],
{
    let mut table: Vec<Vec<char>> = Vec::new();
    table.push(chars_of("│   <golrs>   | [+]: speed up  │"));
    table.push(chars_of("│             | [-]: slow down │"));
    table.push(chars_of("│ tick delay: | [d]: debug     │"));
    let mut row = chars_of("│  ");
    let mut i: usize = 0;
    while i < text.len()
        invariant
            i <= text.len(),
            row@ == "│  "@ + text@.take(i as int),
        decreases text.len() - i,
    {
        assert(text@.take(i + 1) == text@.take(i as int).push(text@[i as int]));
        row.push(text[i]);
        i = i + 1;
    }
    assert(text@.take(text@.len() as int) == text@);
    let mut tail = chars_of(" ms | [q]: quit      │");
    row.append(&mut tail);
    table.push(row);
    table.push(chars_of("└──────────────────────────────┘"));
    table
}

/// Draws the title box in the top left corner. It shows the time `de`
/// between two generations, in milliseconds.
pub fn title_layer(canvas: &mut Canvas, de: usize)
    requires
        old(canvas).wf(),
        old(canvas).columns() <= i32::MAX,
        old(canvas).rows() <= i32::MAX,
    ensures
        layered(
            *old(canvas),
            *final(canvas),
            |x: int, y: int| title_mark(padded_decimal(de as nat), x, y),
        ),
{
    let text = delay_text(de);
    let table = title_table(&text);
    let ghost columns = canvas.columns();
    let ghost rows = canvas.rows();
    canvas.layer(
        |local_pos: Pos| -> (mark: Option<char>)
            requires
                on_canvas(local_pos, columns, rows),
            ensures
                mark == title_mark(text@, local_pos.x as int, local_pos.y as int)
            {
                if local_pos.y < 5 {
                    let line = &table[local_pos.y as usize];
                    if (local_pos.x as usize) < line.len() {
                        Some(line[local_pos.x as usize])
                    } else {
                        None
                    }
                } else {
                    None
                }
            },
    );
}

/// What a frame shows in column `x` of row `y`: the title box lies over the
/// alive cells, those over the chunk borders, and those over the debug
/// marks, which are drawn only while `debug` is on.
pub open spec fn frame_mark(
    live: Set<Pos>,
    loaded: Set<Pos>,
    view_origin: Pos,
    debug: bool,
    de: usize,
    x: int,
    y: int,
) -> Option<char> {
    let title = title_mark(padded_decimal(de as nat), x, y);
    let world = world_mark(live, x + view_origin.x, 2 * y + view_origin.y);
    let grid = grid_mark(x + view_origin.x, 2 * y + view_origin.y);
    if title is Some {
        title
    } else if world is Some {
        world
    } else if grid is Some {
        grid
    } else if debug {
        dbg_mark(loaded, x + view_origin.x, 2 * y + view_origin.y)
    } else {
        None
    }
}

/// Draws one frame: the debug marks if `debug` is on, then the chunk borders,
/// the alive cells of `world` and the title box with the delay `de`, each
/// over what was drawn before.
pub fn draw_frame<W: World>(
    canvas: &mut Canvas,
    world: &W,
    view_origin: Pos,
    debug: bool,
    de: usize,
)
    requires
        old(canvas).wf(),
        world.wf(),
        fits_view(old(canvas).columns(), old(canvas).rows(), view_origin),
    ensures
        layered(
            *old(canvas),
            *final(canvas),
            |x: int, y: int|
                frame_mark(world.live(), world.loaded(), view_origin, debug, de, x, y),
        ),
{
    if debug {
        dbg_layer(canvas, world, view_origin);
    }
    let ghost marked = *canvas;
    grid_layer(canvas, view_origin);
    let ghost ruled = *canvas;
    world_layer(canvas, world, view_origin);
    let ghost filled = *canvas;
    title_layer(canvas, de);
    proof {
        assert forall|x: int, y: int|
            0 <= x < old(canvas).columns() && 0 <= y < old(canvas).rows() implies #[trigger] canvas.at(
            x,
            y,
        ) == match frame_mark(world.live(), world.loaded(), view_origin, debug, de, x, y) {
            Some(ch) => ch,
            None => old(canvas).at(x, y),
        } by {
            let _ = marked.at(x, y);
            let _ = ruled.at(x, y);
            let _ = filled.at(x, y);
        }
    }
}

/// Where the view begins: the cell that the top left corner of a screen of
/// the given size shows at first, half the width to the left of the plane's
/// origin and the whole height above it.
pub fn initial_origin(width: u16, height: u16) -> (origin: Pos)
    ensures
        origin.x == -(width as int / 2),
        origin.y == -(height as int),
{
    Pos { x: -((width / 2) as i32), y: -(height as i32) }
}

/// The canvas for a screen of the given size: the last row of the screen is
/// left free.
pub fn screen_canvas(width: u16, height: u16) -> (canvas: Canvas)
    requires
        height > 0,
    ensures
        canvas.wf(),
        canvas.columns() == width,
        canvas.rows() == height - 1,
        forall|x: int, y: int|
            0 <= x < width && 0 <= y < height - 1 ==> #[trigger] canvas.at(x, y) == ' ',
{
    Canvas::new(width as usize, (height - 1) as usize)
}

} // verus!
