use cube_timer::app::{App, Intent};
use cube_timer::navigate::{ActiveBlock, Dir, FocusClass};
use cube_timer::stats::Time;

fn fresh_app() -> App {
    App::new(100, String::new())
}

// At the top-left cell in the Home state, moving left or up changes
// nothing.
#[test]
fn boundary_moves_are_noops() {
    let mut app = fresh_app();
    app.pos = (0, 0);
    app.mv(Dir::Left);
    assert_eq!(app.pos, (0, 0));
    app.mv(Dir::Up);
    assert_eq!(app.pos, (0, 0));
}

// Movement clamps at the far edges too, and never leaves the layout.
#[test]
fn moves_stay_inside_layout() {
    let mut app = fresh_app();
    let dirs = [
        Dir::Down,
        Dir::Down,
        Dir::Down,
        Dir::Right,
        Dir::Right,
        Dir::Down,
        Dir::Up,
        Dir::Left,
        Dir::Left,
        Dir::Up,
        Dir::Up,
    ];
    for d in dirs {
        app.mv(d);
        assert!(app.pos.0 < 2);
        assert!(app.pos.1 < 3);
    }
}

// A successful move selects the panel at the new cell.
#[test]
fn move_updates_selection() {
    let mut app = fresh_app();
    assert_eq!(app.pos, (0, 2));
    assert_eq!(app.route.selected_block, ActiveBlock::Times);
    app.mv(Dir::Up);
    assert_eq!(app.pos, (0, 1));
    assert_eq!(app.route.selected_block, ActiveBlock::Timer);
    app.mv(Dir::Right);
    assert_eq!(app.pos, (1, 1));
    assert_eq!(app.route.selected_block, ActiveBlock::Stats);
    app.mv(Dir::Left);
    assert_eq!(app.pos, (0, 1));
    assert_eq!(app.route.selected_block, ActiveBlock::Timer);
}

// While the Times panel is entered, Move(Down) drives the list cursor,
// not the grid position; horizontal moves are ignored.
#[test]
fn times_panel_redirects_movement() {
    let mut app = fresh_app();
    for t in [5_000u64, 4_000, 3_000] {
        app.times.insert(Time::from(t));
    }
    app.route.active_block = ActiveBlock::Times;
    let pos = app.pos;
    app.mv(Dir::Down);
    assert_eq!(app.pos, pos);
    assert_eq!(app.times_state, Some(0));
    app.mv(Dir::Down);
    assert_eq!(app.times_state, Some(1));
    app.mv(Dir::Right);
    assert_eq!(app.times_state, Some(1));
    app.mv(Dir::Up);
    assert_eq!(app.times_state, Some(0));
}

// The list cursor wraps at both ends and does nothing on an empty
// history.
#[test]
fn cursor_wraps_at_both_ends() {
    let mut app = fresh_app();
    app.route.active_block = ActiveBlock::Times;
    // Empty history: both directions are no-ops.
    app.mv(Dir::Down);
    assert_eq!(app.times_state, None);
    app.mv(Dir::Up);
    assert_eq!(app.times_state, None);

    for t in [5_000u64, 4_000, 3_000] {
        app.times.insert(Time::from(t));
    }
    app.next_time();
    assert_eq!(app.times_state, Some(0));
    app.next_time();
    app.next_time();
    assert_eq!(app.times_state, Some(2));
    app.next_time();
    assert_eq!(app.times_state, Some(0));
    // Wrap backwards from the first row to the last.
    app.mv(Dir::Up);
    assert_eq!(app.times_state, Some(2));
}

// History [5.0, 4.0, 3.0], cursor at display row 2 (the oldest, storage
// index 0): deleting it leaves [4.0, 3.0], moves the cursor to display
// row 1, and leaves the other records' stored averages untouched.
#[test]
fn delete_oldest_moves_cursor_up() {
    let mut app = fresh_app();
    for t in [5_000u64, 4_000, 3_000] {
        app.times.insert(Time::from(t));
    }
    app.route.active_block = ActiveBlock::Times;
    app.times_state = Some(2);
    let kept_ao5: Vec<Option<u64>> = app.times.times[1..].iter().map(|r| r.ao5).collect();
    app.del();
    let stored: Vec<u64> = app.times.times.iter().map(|r| r.time).collect();
    assert_eq!(stored, vec![4_000, 3_000]);
    assert_eq!(app.times_state, Some(1));
    let after_ao5: Vec<Option<u64>> = app.times.times.iter().map(|r| r.ao5).collect();
    assert_eq!(after_ao5, kept_ao5);
    // Aggregates are not recomputed by deletion.
    assert_eq!(app.times.sum, 12_000);
    assert_eq!(app.times.rollingavg, Some(4_000));
    assert_eq!(app.times.pbsingle, Some(3_000));
}

// Deleting with an out-of-range cursor or outside the Times panel is a
// no-op; deleting the last record clears the cursor.
#[test]
fn delete_edge_cases() {
    let mut app = fresh_app();
    app.del();
    assert!(app.times.times.is_empty());

    app.times.insert(Time::from(6_000));
    app.times_state = Some(0);
    // Not in the Times panel: nothing happens.
    app.del();
    assert_eq!(app.times.times.len(), 1);

    app.route.active_block = ActiveBlock::Times;
    app.del();
    assert!(app.times.times.is_empty());
    assert_eq!(app.times_state, None);
}

// Enter focuses the selected panel; Escape returns to Home and is
// idempotent.
#[test]
fn enter_and_escape() {
    let mut app = fresh_app();
    assert_eq!(app.route.active_block, ActiveBlock::Home);
    app.route.enter();
    assert_eq!(app.route.active_block, ActiveBlock::Times);
    app.esc();
    assert_eq!(app.route.active_block, ActiveBlock::Home);
    app.esc();
    assert_eq!(app.route.active_block, ActiveBlock::Home);
    assert_eq!(app.route.selected_block, ActiveBlock::Times);
}

// The two style queries classify a panel as active, selected or normal.
#[test]
fn focus_classes() {
    let app = fresh_app();
    assert_eq!(app.get_border_style_from_id(ActiveBlock::Home), FocusClass::Active);
    assert_eq!(app.get_border_style_from_id(ActiveBlock::Times), FocusClass::Selected);
    assert_eq!(app.get_border_style_from_id(ActiveBlock::Stats), FocusClass::Normal);
    assert_eq!(app.get_highlight_style_from_id(ActiveBlock::Times), FocusClass::Selected);
}

// One full intent round through the dispatcher: start the stopwatch, stop
// it, and fold the solve into the history.
#[test]
fn intents_drive_the_core() {
    let mut app = fresh_app();
    let quit = app.apply_intent(Intent::ToggleTimer, 1_000);
    assert!(!quit);
    assert!(app.timer.on);
    let quit = app.apply_intent(Intent::ToggleTimer, 13_500);
    assert!(!quit);
    assert!(!app.timer.on);
    assert_eq!(app.timer.lasttime, 12_500);
    assert_eq!(app.times.times.len(), 1);
    assert_eq!(app.times.times[0].time, 12_500);

    assert!(app.apply_intent(Intent::Quit, 14_000));

    app.apply_intent(Intent::NewScramble("R U R'".to_string()), 14_000);
    assert_eq!(app.scramble, "R U R'");

    app.apply_intent(Intent::Confirm, 14_000);
    assert_eq!(app.route.active_block, ActiveBlock::Times);
    app.apply_intent(Intent::Escape, 14_000);
    assert_eq!(app.route.active_block, ActiveBlock::Home);
}

// The bounded wait is the tick interval less the elapsed time, clamped to
// zero.
#[test]
fn tick_timeout_clamps() {
    let app = fresh_app();
    assert_eq!(app.tick_timeout(0), 100);
    assert_eq!(app.tick_timeout(40), 60);
    assert_eq!(app.tick_timeout(100), 0);
    assert_eq!(app.tick_timeout(250), 0);
}
