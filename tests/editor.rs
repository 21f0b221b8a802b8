use mimic::editor::{Editor, Effect, RenderAction};
use mimic::geometry::{Pos, Size};
use mimic::instructions::{Instruction, Value};
use mimic::timer::{Random, Timer};

fn run_all(ed: &mut Editor) {
    for _ in 0..10_000 {
        if let (RenderAction::Skip, _) = ed.apply() {
            return;
        }
    }
}

#[test]
fn typing_goes_character_by_character() {
    let mut ed = Editor::new(vec![Instruction::LoadTypeBuffer("ab\nc".to_string())], 1000);
    assert!(matches!(ed.apply(), (RenderAction::Render, Effect::Nothing)));
    assert!(matches!(ed.apply(), (RenderAction::Render, Effect::Play('a'))));
    assert_eq!(ed.doc.text(), "a");
    assert_eq!(ed.cursor, Pos::new(1, 0));
    run_all(&mut ed);
    assert_eq!(ed.doc.text(), "ab\nc");
    assert_eq!(ed.cursor, Pos::new(1, 1));
}

#[test]
fn typed_markers_are_registered_after_the_text() {
    let mut ed = Editor::new(
        vec![Instruction::LoadTypeBuffer("x\n// @m\ny".to_string()), Instruction::JumpToMarker("m".to_string())],
        1000,
    );
    run_all(&mut ed);
    assert_eq!(ed.doc.text(), "x\ny");
    assert_eq!(ed.doc.lookup_marker("m").map(|m| m.row), Some(1));
    assert_eq!(ed.cursor, Pos::new(0, 1));
    assert_eq!(ed.state.error, "");
}

#[test]
fn unknown_marker_stops_the_run() {
    let mut ed = Editor::new(
        vec![Instruction::JumpToMarker("nowhere".to_string()), Instruction::Insert("late".to_string())],
        1000,
    );
    run_all(&mut ed);
    assert_eq!(ed.state.error, "marker \"nowhere\" does not exist");
    assert_eq!(ed.doc.text(), "");
    assert_eq!(ed.instructions.len(), 0);
}

#[test]
fn jumps_stop_at_zero() {
    let mut ed = Editor::new(
        vec![Instruction::Jump { col: 3, row: 2 }, Instruction::Jump { col: -5, row: -1 }],
        1000,
    );
    ed.apply();
    assert_eq!(ed.cursor, Pos::new(3, 2));
    ed.apply();
    assert_eq!(ed.cursor, Pos::new(0, 1));
}

#[test]
fn zero_select_leaves_the_state() {
    let mut ed = Editor::new(
        vec![
            Instruction::Insert("abc".to_string()),
            Instruction::Jump { col: 1, row: 0 },
            Instruction::Select(Size::new(0, 0)),
        ],
        1000,
    );
    run_all(&mut ed);
    assert_eq!(ed.cursor, Pos::new(1, 0));
    assert_eq!(ed.selected_range.map(|r| r.size), Some(Size::new(0, 0)));
    assert_eq!(ed.doc.text(), "abc");
}

#[test]
fn zero_select_then_delete_keeps_the_cell_under_the_cursor() {
    let mut ed = Editor::new(
        vec![
            Instruction::Insert("abc".to_string()),
            Instruction::Jump { col: 1, row: 0 },
            Instruction::Select(Size::new(0, 0)),
            Instruction::Delete,
        ],
        1000,
    );
    run_all(&mut ed);
    assert_eq!(ed.doc.text(), "abc");
    assert_eq!(ed.cursor, Pos::new(1, 0));
    assert!(ed.selected_range.is_none());
}

#[test]
fn select_then_delete_removes_the_region() {
    let mut ed = Editor::new(
        vec![
            Instruction::Insert("abcdefg\n1234567\n".to_string()),
            Instruction::Jump { col: 2, row: 0 },
            Instruction::Select(Size::new(3, 2)),
            Instruction::Delete,
        ],
        1000,
    );
    ed.apply();
    ed.apply();
    ed.apply();
    assert_eq!(ed.cursor, Pos::new(4, 1));
    ed.apply();
    assert_eq!(ed.doc.text(), "abfg\n1267\n");
    assert_eq!(ed.cursor, Pos::new(2, 0));
    assert!(ed.selected_range.is_none());
}

#[test]
fn find_moves_to_the_match() {
    let mut ed = Editor::new(
        vec![
            Instruction::Insert("let x = \u{4e16}word;".to_string()),
            Instruction::FindInCurrentLine { needle: "\u{4e16}word".to_string(), end_of_word: false, count: 1 },
            Instruction::Jump { col: -100, row: 0 },
            Instruction::FindInCurrentLine { needle: "\u{4e16}word".to_string(), end_of_word: true, count: 1 },
            Instruction::FindInCurrentLine { needle: "missing".to_string(), end_of_word: true, count: 1 },
        ],
        1000,
    );
    ed.apply();
    ed.apply();
    assert_eq!(ed.cursor, Pos::new(8, 0));
    ed.apply();
    ed.apply();
    // the needle is six columns wide
    assert_eq!(ed.cursor, Pos::new(13, 0));
    ed.apply();
    assert_eq!(ed.cursor, Pos::new(13, 0));
}

#[test]
fn existing_file_is_never_overwritten() {
    let mut ed = Editor::new(
        vec![Instruction::WriteBuffer("out.txt".to_string()), Instruction::Insert("x".to_string())],
        1000,
    );
    match ed.apply() {
        (_, Effect::WriteBuffer(path)) => {
            assert_eq!(path, "out.txt");
            assert!(!ed.may_write(&path, true));
        }
        other => panic!("unexpected {:?}", other),
    }
    assert_eq!(ed.state.error, "can't write to \"out.txt\", file already exists");
    assert_eq!(ed.instructions.len(), 0);
    let mut fresh = Editor::new(vec![], 1000);
    assert!(fresh.may_write("new.txt", false));
    assert_eq!(fresh.state.error, "");
}

#[test]
fn command_line_types_before_the_document() {
    let mut ed = Editor::new(
        vec![
            Instruction::LoadCommandBuffer("ls".to_string()),
            Instruction::ClearCommandWait,
            Instruction::ClearCommandBuffer,
        ],
        1000,
    );
    ed.apply();
    assert!(!ed.state.show_cursor);
    ed.apply();
    ed.apply();
    assert_eq!(ed.state.command_buffer, vec!['l', 's']);
    assert!(matches!(ed.apply(), (RenderAction::Render, Effect::Nothing)));
    assert!(matches!(ed.apply(), (RenderAction::NextFrame, Effect::Nothing)));
    assert_eq!(ed.frame_timer.wait, 1_000_000);
    ed.apply();
    assert!(ed.state.command_buffer.is_empty());
    assert!(ed.state.show_cursor);
}

#[test]
fn line_pause_holds_after_a_newline() {
    let mut ed = Editor::new(
        vec![Instruction::LinePause(300_000), Instruction::LoadTypeBuffer("a\nb".to_string())],
        1000,
    );
    ed.apply();
    ed.apply();
    ed.apply();
    assert!(matches!(ed.apply(), (RenderAction::NextFrame, Effect::Play('\n'))));
    assert_eq!(ed.frame_timer.wait, 300_000);
}

#[test]
fn timer_counts_frames_and_waits() {
    let mut t = Timer::new(10);
    assert_eq!(t.tick(35, 7), 3);
    assert_eq!(t.accumulator, 5);
    assert_eq!(t.jitter, 7_000);
    assert_eq!(t.wait, 0);
    // the jitter drawn last tick is waited out now
    assert_eq!(t.tick(5, 0), 1);
    assert_eq!(t.wait, 7_000);
    assert_eq!(t.tick(6_000, 0), 0);
    assert_eq!(t.wait, 1_000);
    // the wait takes 1 000 of these 1 005 microseconds
    assert_eq!(t.tick(1_005, 0), 0);
    assert_eq!(t.wait, 0);
    assert_eq!(t.accumulator, 5);
    assert_eq!(t.tick(15, 0), 2);
    t.wait(50);
    assert_eq!(t.tick(50, 0), 0);
}

#[test]
fn partly_spent_wait_counts_only_the_rest() {
    let mut t = Timer::new(1);
    t.wait(5);
    assert_eq!(t.tick(8, 0), 3);
    assert_eq!(t.wait, 0);
}

#[test]
fn random_is_xorshift() {
    let mut r = Random::new(1);
    // 1 ^ 1 << 13 = 8193; ^ (8193 >> 7) = 8193 ^ 64 = 8257; ^ (8257 << 17)
    let expected: u64 = 8257 ^ (8257u64 << 17);
    assert_eq!(r.next(u64::MAX), expected);
    let mut s = Random::new(1);
    assert_eq!(s.next(9), expected % 10);
}

#[test]
fn random_stays_within_bound() {
    let mut r = Random::new(42);
    for _ in 0..1000 {
        assert!(r.next(20) <= 20);
    }
}

#[test]
fn view_scrolls_to_keep_the_cursor() {
    let mut ed = Editor::new(vec![Instruction::Jump { col: 150, row: 60 }], 1000);
    ed.apply();
    ed.update_cursor(100, 40);
    // 40 rows, less one, less the padding of seven
    assert_eq!(ed.offset.y, 32 - 60);
    assert_eq!(ed.offset.x, 99 - 150);
    assert_eq!(ed.state.screen_cursor_y, 32);
    assert_eq!(ed.state.screen_cursor_x, 99);
    assert_eq!(ed.state.height, 40);
    ed.cursor = Pos::new(0, 0);
    ed.update_cursor(100, 40);
    assert_eq!(ed.offset.y, 0);
    assert_eq!(ed.offset.x, 0);
}

#[test]
fn variables_are_bound_for_the_renderer() {
    let mut ed = Editor::new(
        vec![
            Instruction::SetVariable("dark".to_string(), Value::Bool(true)),
            Instruction::SetTitle("demo".to_string()),
            Instruction::Popup("hi".to_string()),
            Instruction::ClosePopup,
        ],
        1000,
    );
    run_all(&mut ed);
    assert_eq!(ed.state.ctx.len(), 1);
    assert_eq!(ed.state.ctx[0].0, "dark");
    assert!(matches!(ed.state.ctx[0].1, Value::Bool(true)));
    assert_eq!(ed.state.title, "demo");
    assert_eq!(ed.state.popup, "");
}

#[test]
fn script_plays_end_to_end() {
    let script = "insert \"fn main() {\\n}\"\nfind \"main\"\nreplace \"main\" \"start\"\n";
    // a quoted string holds its characters as written
    let parsed = mimic::parse(script).unwrap();
    let compiled = mimic::compile(&parsed, &vec![]).unwrap();
    let mut ed = Editor::new(compiled, 1000);
    run_all(&mut ed);
    assert_eq!(ed.doc.text(), "fn start() {\\n}");
}
