use fuzzy_finder::dictionary::keep_nonempty;
use fuzzy_finder::distance::distance;
use fuzzy_finder::input::Action;
use fuzzy_finder::input::InputEvent;
use fuzzy_finder::input::KeyCode;
use fuzzy_finder::input::interpret;
use fuzzy_finder::ranking::rank;
use fuzzy_finder::selection::Selection;
use fuzzy_finder::session::Outcome;
use fuzzy_finder::session::Session;

fn words(v: &[&str]) -> Vec<String> {
    v.iter().map(|s| s.to_string()).collect()
}

fn key(code: KeyCode) -> InputEvent {
    InputEvent::Key { code, ctrl: false }
}

fn ctrl(c: char) -> InputEvent {
    InputEvent::Key { code: KeyCode::Char(c), ctrl: true }
}

#[test]
fn distance_exact_values() {
    assert_eq!(distance("kitten", "sitting"), 3);
    assert_eq!(distance("cat", "car"), 1);
    assert_eq!(distance("car", "car"), 0);
    assert_eq!(distance("cot", "car"), 2);
    assert_eq!(distance("", "abc"), 3);
    assert_eq!(distance("abc", ""), 3);
    assert_eq!(distance("", ""), 0);
}

#[test]
fn rank_empty_query_keeps_load_order() {
    let cs = words(&["cat", "car", "bar", "cot"]);
    let r = rank("", &cs);
    assert_eq!(r, words(&["cat", "car", "bar", "cot"]));
}

#[test]
fn rank_orders_by_distance_ties_stable() {
    let cs = words(&["cat", "car", "bar", "cot"]);
    let r = rank("car", &cs);
    assert_eq!(r, words(&["car", "cat", "bar", "cot"]));
}

#[test]
fn rank_ties_keep_load_order() {
    let cs = words(&["aa", "bb", "ab"]);
    let r = rank("ab", &cs);
    assert_eq!(r, words(&["ab", "aa", "bb"]));
}

#[test]
fn rank_keeps_duplicates() {
    let cs = words(&["aa", "aa", "b"]);
    let r = rank("b", &cs);
    assert_eq!(r, words(&["b", "aa", "aa"]));
}

#[test]
fn rank_empty_candidates() {
    let cs: Vec<String> = Vec::new();
    let r = rank("anything", &cs);
    assert!(r.is_empty());
}

#[test]
fn selection_move_down_clamped_at_end() {
    let mut s = Selection::new();
    s.move_down(3);
    s.move_down(3);
    assert_eq!(s.index, 2);
    s.move_down(3);
    assert_eq!(s.index, 2);
}

#[test]
fn selection_move_down_empty_list() {
    let mut s = Selection::new();
    s.move_down(0);
    assert_eq!(s.index, 0);
}

#[test]
fn selection_move_up_at_zero() {
    let mut s = Selection::new();
    s.move_up();
    assert_eq!(s.index, 0);
}

#[test]
fn clamp_twice_equals_clamp_once() {
    let mut a = Selection::new();
    a.move_down(100);
    a.move_down(100);
    a.move_down(100);
    let mut b = Selection { index: a.index };
    a.clamp(2);
    b.clamp(2);
    b.clamp(2);
    assert_eq!(a.index, 1);
    assert_eq!(a.index, b.index);
}

#[test]
fn clamp_empty_list_resets_to_zero() {
    let mut s = Selection { index: 7 };
    s.clamp(0);
    assert_eq!(s.index, 0);
}

#[test]
fn selection_current_entry() {
    let cs = words(&["cat", "car"]);
    let s = Selection { index: 1 };
    assert_eq!(s.current(&cs), Some("car".to_string()));
    let none = Selection::new();
    let empty: Vec<String> = Vec::new();
    assert_eq!(none.current(&empty), None);
}

#[test]
fn interpret_mapping() {
    assert_eq!(interpret(&key(KeyCode::Esc)), Action::Quit);
    assert_eq!(interpret(&ctrl('c')), Action::Quit);
    assert_eq!(interpret(&ctrl('d')), Action::Quit);
    assert_eq!(interpret(&ctrl('z')), Action::Quit);
    assert_eq!(interpret(&key(KeyCode::Up)), Action::NavigateUp);
    assert_eq!(interpret(&ctrl('p')), Action::NavigateUp);
    assert_eq!(interpret(&key(KeyCode::Down)), Action::NavigateDown);
    assert_eq!(interpret(&ctrl('n')), Action::NavigateDown);
    assert_eq!(interpret(&key(KeyCode::Enter)), Action::Confirm);
    assert_eq!(interpret(&key(KeyCode::Char('a'))), Action::Append('a'));
    assert_eq!(interpret(&key(KeyCode::Backspace)), Action::DeleteLast);
    assert_eq!(interpret(&InputEvent::Resize), Action::NoOp);
    assert_eq!(interpret(&InputEvent::Timeout), Action::NoOp);
    assert_eq!(interpret(&InputEvent::Other), Action::NoOp);
    assert_eq!(interpret(&key(KeyCode::Other)), Action::NoOp);
}

#[test]
fn session_edit_keeps_selection_index() {
    let cs = words(&["cat", "car", "bar", "cot"]);
    let mut s = Session::new();
    let r1 = s.on_cycle(&key(KeyCode::Down), &cs, true);
    let r2 = s.on_cycle(&key(KeyCode::Down), &cs, true);
    assert!(matches!(r1.outcome, Outcome::Continue));
    assert!(matches!(r2.outcome, Outcome::Continue));
    assert_eq!(s.selection.index, 2);
    let r3 = s.on_cycle(&key(KeyCode::Char('c')), &cs, true);
    assert_eq!(r3.ranked.len(), 4);
    assert_eq!(s.selection.index, 2);
}

#[test]
fn session_confirm_emits_top_candidate() {
    let cs = words(&["cat", "car", "bar", "cot"]);
    let mut s = Session::new();
    let r = s.on_cycle(&key(KeyCode::Enter), &cs, true);
    match r.outcome {
        Outcome::Confirmed(w) => assert_eq!(w, "cat"),
        _ => panic!("confirm on a non-empty list must end the session"),
    }
}

#[test]
fn session_confirm_after_query_and_navigation() {
    let cs = words(&["cat", "car", "bar", "cot"]);
    let mut s = Session::new();
    s.on_cycle(&key(KeyCode::Char('c')), &cs, true);
    s.on_cycle(&key(KeyCode::Char('a')), &cs, true);
    s.on_cycle(&key(KeyCode::Char('r')), &cs, true);
    assert_eq!(s.query, "car");
    s.on_cycle(&key(KeyCode::Down), &cs, true);
    let r = s.on_cycle(&key(KeyCode::Enter), &cs, true);
    match r.outcome {
        Outcome::Confirmed(w) => assert_eq!(w, "cat"),
        _ => panic!("confirm on a non-empty list must end the session"),
    }
}

#[test]
fn session_backspace_edits_query() {
    let cs = words(&["cat"]);
    let mut s = Session::new();
    s.on_cycle(&key(KeyCode::Char('c')), &cs, true);
    s.on_cycle(&key(KeyCode::Char('a')), &cs, true);
    s.on_cycle(&key(KeyCode::Backspace), &cs, true);
    assert_eq!(s.query, "c");
    s.on_cycle(&key(KeyCode::Backspace), &cs, true);
    s.on_cycle(&key(KeyCode::Backspace), &cs, true);
    assert_eq!(s.query, "");
}

#[test]
fn session_escape_cancels() {
    let cs = words(&["cat", "car"]);
    let mut s = Session::new();
    let r = s.on_cycle(&key(KeyCode::Esc), &cs, true);
    assert!(matches!(r.outcome, Outcome::Cancelled));
}

#[test]
fn session_interrupt_flag_cancels() {
    let cs = words(&["cat", "car"]);
    let mut s = Session::new();
    let r = s.on_cycle(&InputEvent::Timeout, &cs, false);
    assert!(matches!(r.outcome, Outcome::Cancelled));
}

#[test]
fn session_confirm_on_empty_list_continues() {
    let cs: Vec<String> = Vec::new();
    let mut s = Session::new();
    let r = s.on_cycle(&key(KeyCode::Enter), &cs, true);
    assert!(matches!(r.outcome, Outcome::Continue));
    assert_eq!(s.selection.index, 0);
}

#[test]
fn session_resize_is_ignored() {
    let cs = words(&["cat", "car"]);
    let mut s = Session::new();
    let r = s.on_cycle(&InputEvent::Resize, &cs, true);
    assert!(matches!(r.outcome, Outcome::Continue));
    assert_eq!(s.query, "");
    assert_eq!(s.selection.index, 0);
}

#[test]
fn keep_nonempty_drops_empty_lines() {
    let lines = words(&["cat", "", "dog", ""]);
    assert_eq!(keep_nonempty(&lines), words(&["cat", "dog"]));
}
