//! The key bindings, the panes, and the mouse.

use gridterm::ai_ui::ChatState;
use gridterm::grid::{cell_within, parse_grid, GridLayout};
use gridterm::keys::{key_to_bytes, Key, Modifiers, NamedKey};
use gridterm::ui::{
    drag_to, free_tag, number_after_closing, place_of, startup_grid, Effect, GridCommand, PaneGrid,
    PaneStep, Ui,
};

fn ui(cols: usize, rows: usize, panes: usize) -> Ui {
    Ui {
        chat: ChatState::new(true),
        grid_cmd: GridCommand { active: false, input: String::new() },
        grid: PaneGrid { layout: GridLayout::new(cols, rows), panes, active: 0 },
    }
}

const NONE: Modifiers = Modifiers { ctrl: false, alt: false, cmd: false, shift: false };
const CMD: Modifiers = Modifiers { ctrl: false, alt: false, cmd: true, shift: false };
const CMD_SHIFT: Modifiers = Modifiers { ctrl: false, alt: false, cmd: true, shift: true };
const ALT: Modifiers = Modifiers { ctrl: false, alt: true, cmd: false, shift: false };
const CTRL: Modifiers = Modifiers { ctrl: true, alt: false, cmd: false, shift: false };
const SHIFT: Modifiers = Modifiers { ctrl: false, alt: false, cmd: false, shift: true };

fn ch(s: &str) -> Key {
    Key::Character(s.to_string())
}

fn shown(e: Effect) -> String {
    match e {
        Effect::Nothing => "nothing".to_string(),
        Effect::Redraw => "redraw".to_string(),
        Effect::CancelTurn => "cancel".to_string(),
        Effect::Rebuild { cols, rows } => format!("rebuild {cols}x{rows}"),
        Effect::CloseColumn { cols, rows } => format!("close to {cols}x{rows}"),
        Effect::Send(s) => format!("send {s}"),
        Effect::PasteIntoChat => "paste chat".to_string(),
        Effect::CopySelection => "copy".to_string(),
        Effect::PasteIntoPane => "paste pane".to_string(),
        Effect::WriteToPane(b) => format!("write {b:?}"),
        Effect::TypeInPane(b) => format!("type {b:?}"),
    }
}

fn press(u: &mut Ui, mods: Modifiers, key: Key, text: Option<&str>) -> String {
    shown(u.handle_key(mods, &key, text))
}

#[test]
fn square_presets() {
    let mut u = ui(1, 1, 1);
    for n in 1..=9 {
        let d = n.to_string();
        assert_eq!(press(&mut u, CMD, ch(&d), Some(&d)), format!("rebuild {n}x{n}"));
    }
    assert_eq!(press(&mut u, CMD, ch("0"), None), "rebuild 1x1");
}

#[test]
fn custom_grids() {
    let mut u = ui(1, 1, 1);
    assert_eq!(press(&mut u, CMD, ch("g"), None), "redraw");
    assert!(u.grid_cmd.active);
    for c in ["3", "y", "2"] {
        assert_eq!(press(&mut u, NONE, ch(c), Some(c)), "nothing");
    }
    press(&mut u, NONE, Key::Named(NamedKey::Backspace), None);
    press(&mut u, NONE, Key::Named(NamedKey::Backspace), None);
    press(&mut u, NONE, ch("x"), Some("x"));
    press(&mut u, NONE, ch("4"), Some("4"));
    assert_eq!(u.grid_cmd.input, "3x4");
    assert_eq!(press(&mut u, NONE, Key::Named(NamedKey::Enter), None), "rebuild 3x4");
    assert!(!u.grid_cmd.active);
    press(&mut u, CMD, ch("g"), None);
    press(&mut u, NONE, ch("9"), Some("9"));
    assert_eq!(press(&mut u, NONE, Key::Named(NamedKey::Escape), None), "nothing");
    assert!(!u.grid_cmd.active);
    press(&mut u, CMD, ch("g"), None);
    press(&mut u, NONE, ch("99"), Some("99"));
    assert_eq!(press(&mut u, NONE, Key::Named(NamedKey::Enter), None), "nothing");
}

#[test]
fn lines_of_panes_are_added_and_removed() {
    let mut u = ui(2, 3, 6);
    let arrow = |k| Key::Named(k);
    assert_eq!(press(&mut u, CMD_SHIFT, arrow(NamedKey::ArrowRight), None), "rebuild 3x3");
    assert_eq!(press(&mut u, CMD_SHIFT, arrow(NamedKey::ArrowLeft), None), "close to 1x3");
    assert_eq!(press(&mut u, CMD_SHIFT, arrow(NamedKey::ArrowDown), None), "rebuild 2x4");
    assert_eq!(press(&mut u, CMD_SHIFT, arrow(NamedKey::ArrowUp), None), "rebuild 2x2");
    let mut one = ui(1, 1, 1);
    assert_eq!(press(&mut one, CMD_SHIFT, arrow(NamedKey::ArrowLeft), None), "nothing");
    assert_eq!(press(&mut one, CMD_SHIFT, arrow(NamedKey::ArrowUp), None), "nothing");
    let mut full = ui(8, 8, 64);
    assert_eq!(press(&mut full, CMD_SHIFT, arrow(NamedKey::ArrowRight), None), "nothing");
    assert_eq!(press(&mut full, CMD_SHIFT, arrow(NamedKey::ArrowDown), None), "nothing");
}

/// The panes that stay, by their numbers before, and the number of the active
/// one, once the last column is removed and the grid rebuilt.
fn without_last_column(cols: usize, rows: usize, panes: usize, active: usize) -> (Vec<usize>, usize) {
    let mut grid = PaneGrid { layout: GridLayout::new(cols, rows), panes, active };
    let mut left: Vec<usize> = (0..panes).collect();
    let (c, r) = grid.remove_column().unwrap();
    for p in grid.last_column().into_iter().rev() {
        left.remove(p);
    }
    grid.close_last_column();
    let count = grid.begin_rebuild(c, r);
    left.truncate(count);
    for i in 0..left.len() {
        assert!(grid.step(i) == PaneStep::Resize);
    }
    grid.finish_rebuild();
    assert_eq!(grid.panes, left.len());
    (left, grid.active)
}

#[test]
fn a_removed_column_closes_its_shells() {
    assert_eq!(without_last_column(2, 2, 4, 0), (vec![0, 2], 0));
    assert_eq!(without_last_column(2, 2, 4, 2), (vec![0, 2], 1));
    assert_eq!(without_last_column(2, 2, 4, 1), (vec![0, 2], 1));
    assert_eq!(without_last_column(2, 2, 4, 3), (vec![0, 2], 1));
    assert_eq!(without_last_column(3, 2, 6, 4), (vec![0, 1, 3, 4], 3));
    assert_eq!(without_last_column(3, 2, 4, 3), (vec![0, 1, 3], 2));
    assert_eq!(without_last_column(3, 1, 0, 0), (vec![], 0));
}

#[test]
fn a_removed_row_closes_its_shells() {
    let mut grid = PaneGrid { layout: GridLayout::new(2, 2), panes: 4, active: 3 };
    let (c, r) = grid.remove_row().unwrap();
    assert_eq!((c, r), (2, 1));
    grid.begin_rebuild(c, r);
    grid.finish_rebuild();
    assert_eq!((grid.panes, grid.active), (2, 1));
}

#[test]
fn closed_panes_are_numbered_behind_the_others() {
    let numbers = |panes, cols| -> Vec<usize> {
        (0..panes + 1).map(|p| number_after_closing(p, panes, cols)).collect()
    };
    assert_eq!(numbers(4, 2), vec![0, 2, 1, 3, 4]);
    assert_eq!(numbers(6, 3), vec![0, 1, 4, 2, 3, 5, 6]);
    assert_eq!(numbers(5, 3), vec![0, 1, 4, 2, 3, 5]);
    assert_eq!(place_of(&vec![0, 2], 2), 1);
    assert_eq!(place_of(&vec![0, 2], 1), 2);
    assert_eq!(place_of(&vec![0, 2], 5), 5);
    assert_eq!(place_of(&vec![], 0), 0);
}

#[test]
fn agents_name_panes_by_free_numbers() {
    assert_eq!(free_tag(&vec![], 3), 3);
    assert_eq!(free_tag(&vec![0, 1], 2), 2);
    assert_eq!(free_tag(&vec![0, 2], 2), 1);
    assert_eq!(free_tag(&vec![2, 0, 1], 1), 3);
}

#[test]
fn panes_are_cycled() {
    let mut u = ui(3, 1, 3);
    let mut seen = vec![];
    for _ in 0..4 {
        assert_eq!(press(&mut u, CTRL, ch("]"), Some("\u{1d}")), "redraw");
        seen.push(u.grid.active);
    }
    assert_eq!(seen, vec![1, 2, 0, 1]);
    assert_eq!(press(&mut ui(1, 1, 0), CTRL, ch("]"), None), "nothing");
}

#[test]
fn the_chat_is_toggled() {
    let mut u = ui(2, 2, 4);
    assert_eq!(press(&mut u, CMD, ch("j"), None), "rebuild 2x2");
    assert!(u.chat.open && u.chat.input_focused);
    assert_eq!(press(&mut u, CMD, ch("j"), None), "rebuild 2x2");
    assert!(!u.chat.open && !u.chat.input_focused);
    u.chat.available = false;
    assert_eq!(press(&mut u, CMD, ch("j"), None), "nothing");
    assert!(!u.chat.open);
}

#[test]
fn keys_in_the_chat() {
    let mut u = ui(1, 1, 1);
    press(&mut u, CMD, ch("j"), None);
    press(&mut u, NONE, ch("h"), Some("h"));
    press(&mut u, NONE, Key::Named(NamedKey::Space), Some(" "));
    press(&mut u, SHIFT, Key::Named(NamedKey::Enter), None);
    press(&mut u, NONE, ch("i"), Some("i"));
    assert_eq!(u.chat.input, "h \ni");
    assert_eq!(press(&mut u, NONE, ch("x"), Some("\u{7}")), "nothing");
    assert_eq!(press(&mut u, CMD, ch("v"), None), "paste chat");
    assert_eq!(press(&mut u, NONE, Key::Named(NamedKey::Enter), None), "send h \ni");
    assert!(u.chat.streaming);
    assert_eq!(press(&mut u, NONE, Key::Named(NamedKey::Escape), None), "cancel");
    u.chat.streaming = false;
    press(&mut u, NONE, ch("a b"), Some("a b"));
    press(&mut u, ALT, Key::Named(NamedKey::Backspace), None);
    assert_eq!(u.chat.input, "a ");
    press(&mut u, CMD, Key::Named(NamedKey::Backspace), None);
    assert_eq!(u.chat.input, "");
    assert_eq!(press(&mut u, NONE, Key::Named(NamedKey::Escape), None), "redraw");
    assert!(u.chat.open && !u.chat.input_focused);
}

#[test]
fn keys_for_the_shell() {
    let mut u = ui(1, 1, 1);
    assert_eq!(press(&mut u, NONE, ch("a"), Some("a")), "type [97]");
    assert_eq!(press(&mut u, CMD, ch("c"), None), "copy");
    assert_eq!(press(&mut u, CMD, ch("v"), None), "paste pane");
    assert_eq!(press(&mut u, CMD, Key::Named(NamedKey::Backspace), None), "write [21]");
    assert_eq!(press(&mut u, ALT, Key::Named(NamedKey::Backspace), None), "type [23]");
    assert_eq!(press(&mut u, CMD, Key::Named(NamedKey::ArrowLeft), None), "write [1]");
    assert_eq!(press(&mut u, CMD, Key::Named(NamedKey::ArrowRight), None), "write [5]");
    assert_eq!(press(&mut u, NONE, Key::Named(NamedKey::Enter), Some("\r")), "type [13]");
}

#[test]
fn bytes_of_keys() {
    let named = |k, alt| key_to_bytes(&Key::Named(k), None, false, alt);
    assert_eq!(named(NamedKey::Enter, false), b"\r");
    assert_eq!(named(NamedKey::Tab, false), b"\t");
    assert_eq!(named(NamedKey::Escape, false), b"\x1b");
    assert_eq!(named(NamedKey::Backspace, false), b"\x7f");
    assert_eq!(named(NamedKey::ArrowUp, false), b"\x1b[A");
    assert_eq!(named(NamedKey::ArrowDown, false), b"\x1b[B");
    assert_eq!(named(NamedKey::ArrowRight, false), b"\x1b[C");
    assert_eq!(named(NamedKey::ArrowLeft, false), b"\x1b[D");
    assert_eq!(named(NamedKey::ArrowLeft, true), b"\x1bb");
    assert_eq!(named(NamedKey::ArrowRight, true), b"\x1bf");
    assert_eq!(named(NamedKey::Home, false), b"\x1b[H");
    assert_eq!(named(NamedKey::End, false), b"\x1b[F");
    assert_eq!(named(NamedKey::Delete, false), b"\x1b[3~");
    assert_eq!(named(NamedKey::Space, false), b" ");
    assert_eq!(key_to_bytes(&ch("c"), Some("c"), true, false), vec![3]);
    assert_eq!(key_to_bytes(&ch("C"), None, true, false), vec![3]);
    assert_eq!(key_to_bytes(&ch("é"), None, false, false), "é".as_bytes());
    assert_eq!(key_to_bytes(&ch("a"), Some("â"), false, false), "â".as_bytes());
    assert_eq!(key_to_bytes(&Key::Unknown, Some("ü"), false, false), "ü".as_bytes());
    assert_eq!(key_to_bytes(&Key::Unknown, None, false, false), b"");
}

#[test]
fn grid_sizes_are_read() {
    assert_eq!(parse_grid("4x4"), Some((4, 4)));
    assert_eq!(parse_grid("3x2"), Some((3, 2)));
    assert_eq!(parse_grid("4 2"), Some((4, 2)));
    assert_eq!(parse_grid("2,3"), Some((2, 3)));
    assert_eq!(parse_grid(" 5 "), Some((5, 5)));
    assert_eq!(parse_grid("12x12"), Some((12, 12)));
    for bad in ["", "x", "0x2", "13x1", "1x2x3", "99999999999999999999"] {
        assert_eq!(parse_grid(bad), None, "{bad}");
    }
    assert_eq!(parse_grid("99999999999999999999x3"), Some((3, 3)));
    assert_eq!(startup_grid(Some("4x2")), (4, 2));
    assert_eq!(startup_grid(Some("?")), (1, 1));
    assert_eq!(startup_grid(None), (1, 1));
}

#[test]
fn grids_are_rebuilt() {
    let mut g = PaneGrid { layout: GridLayout::new(3, 1), panes: 3, active: 2 };
    assert_eq!(g.begin_rebuild(2, 1), 2);
    assert_eq!(g.panes, 2);
    assert_eq!(g.step(1), PaneStep::Resize);
    g.finish_rebuild();
    assert_eq!(g.active, 1);
    assert_eq!(g.begin_rebuild(2, 2), 4);
    assert_eq!(g.step(2), PaneStep::Spawn);
    g.spawned();
    g.spawned();
    g.finish_rebuild();
    assert_eq!((g.panes, g.active), (4, 1));
    assert_eq!(g.begin_rebuild(0, 0), 1);
    assert_eq!(GridLayout::new(3, 2).count(), 6);
    assert_eq!(GridLayout::new(3, 2).cell_of(4), (1, 1));
    assert_eq!(cell_within(9, 0, 4, 4), (3, 0));
    assert_eq!(cell_within(1, 7, 4, 4), (1, 3));
}

#[test]
fn text_is_selected_with_the_mouse() {
    let mut u = ui(2, 1, 2);
    u.chat.input_focused = true;
    let mut drag = u.press_in_panes(Some((1, 4, 5)));
    assert_eq!(u.grid.active, 1);
    assert!(!u.chat.input_focused);
    assert_eq!(drag_to(&mut drag, Some((1, 4, 5))), None);
    assert_eq!(drag_to(&mut drag, Some((1, 5, 5))), Some((1, 5, 5)));
    assert_eq!(drag_to(&mut drag, Some((1, 5, 5))), None);
    assert_eq!(drag_to(&mut drag, Some((0, 6, 5))), None);
    assert_eq!(drag_to(&mut drag, None), None);
    let mut nothing = u.press_in_panes(None);
    assert_eq!(u.grid.active, 1);
    assert_eq!(drag_to(&mut nothing, Some((1, 0, 0))), None);
    u.press_in_panel();
    assert!(u.chat.input_focused);
}
