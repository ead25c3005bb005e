use mdedit::editor_file::{MDFileState, ViewOptions};
use mdedit::split_tab::SplitTabState;

fn opts() -> ViewOptions {
    ViewOptions { show_ctrl: false, show_break: false, wrap_text: true, show_linenr: true }
}

fn view(path: &str, text: &str) -> MDFileState {
    MDFileState::open_file(path, text, &opts())
}

fn paths(ws: &mut SplitTabState) -> Vec<Vec<String>> {
    let mut out = Vec::new();
    for s in 0..ws.split_count() {
        let mut row = Vec::new();
        for t in 0..ws.tab_count(s) {
            row.push(ws.editor_at(s, t).unwrap().path.clone());
        }
        out.push(row);
    }
    out
}

fn sync(ws: &mut SplitTabState) -> usize {
    ws.sync_edit().len()
}

fn insert_at_start(ws: &mut SplitTabState, s: usize, t: usize, text: &str) {
    let v = ws.editor_at(s, t).unwrap();
    v.edit.set_cursor((0, 0), false);
    v.edit.insert_str(text);
    v.text_changed();
}

#[test]
fn open_then_close_leaves_empty_workspace() {
    let mut ws = SplitTabState::new();
    ws.open((0, 0), view("a.md", "a"));
    assert_eq!(ws.split_count(), 1);
    assert_eq!(ws.tab_count(0), 1);
    ws.close((0, 0));
    assert_eq!(ws.split_count(), 0);
    assert_eq!(ws.selected_pos(), None);
}

#[test]
fn open_shifts_active_tab() {
    let mut ws = SplitTabState::new();
    ws.open((0, 0), view("a.md", ""));
    ws.open((0, 1), view("b.md", ""));
    ws.open((0, 2), view("c.md", ""));
    ws.select((0, 1));
    assert_eq!(ws.active(0), Some(1));
    ws.open((0, 1), view("d.md", ""));
    assert_eq!(ws.tab_count(0), 4);
    assert_eq!(ws.active(0), Some(2));
    assert_eq!(ws.selected_pos(), Some((0, 2)));
    ws.open((0, 4), view("e.md", ""));
    assert_eq!(ws.tab_count(0), 5);
    assert_eq!(ws.active(0), Some(2));
    assert_eq!(paths(&mut ws)[0], vec!["a.md", "d.md", "b.md", "c.md", "e.md"]);
}

#[test]
fn new_split_shows_first_tab() {
    let mut ws = SplitTabState::new();
    ws.open((0, 0), view("a.md", ""));
    ws.open((1, 0), view("b.md", ""));
    assert_eq!(ws.split_count(), 2);
    assert_eq!(ws.active(1), Some(0));
    assert_eq!(ws.selected_pos(), None);
}

#[test]
fn replication_reaches_other_split() {
    let mut ws = SplitTabState::new();
    ws.open_in((0, 0), view("doc.md", "hello"));
    let copy = ws.share_view((0, 0));
    ws.open((1, 0), copy);
    ws.open((1, 1), view("other.md", "hello"));
    ws.select((0, 0));
    insert_at_start(&mut ws, 0, 0, "abc ");
    assert_eq!(sync(&mut ws), 1);
    let t0 = ws.editor_at(0, 0).unwrap().text();
    let t1 = ws.editor_at(1, 0).unwrap().text();
    assert_eq!(t0, "abc hello");
    assert_eq!(t1, t0);
    assert_eq!(ws.editor_at(1, 1).unwrap().text(), "hello");
}

#[test]
fn sync_without_edits_has_no_plan() {
    let mut ws = SplitTabState::new();
    ws.open_in((0, 0), view("doc.md", "hello"));
    assert!(ws.roll_forward_edit().is_none());
    let mut empty = SplitTabState::new();
    assert!(empty.roll_forward_edit().is_none());
}

#[test]
fn replay_targets_lists_other_views_of_the_path() {
    let mut ws = SplitTabState::new();
    ws.open((0, 0), view("x.md", ""));
    ws.open((0, 1), view("y.md", ""));
    ws.open((1, 0), view("x.md", ""));
    ws.open((1, 1), view("x.md", ""));
    let t = ws.replay_targets((0, 0), &"x.md".to_string());
    assert_eq!(t, vec![(1, 0), (1, 1)]);
    let t = ws.replay_targets((1, 0), &"x.md".to_string());
    assert_eq!(t, vec![(0, 0), (1, 1)]);
    assert!(ws.replay_targets((0, 1), &"y.md".to_string()).is_empty());
}

#[test]
fn selection_stays_valid_through_commands() {
    let mut ws = SplitTabState::new();
    ws.open_in((0, 0), view("a.md", ""));
    ws.open_in((0, 1), view("b.md", ""));
    assert!(ws.split());
    assert_eq!(ws.selected_pos(), Some((0, 1)));
    assert!(ws.select_next());
    assert_eq!(ws.selected_pos(), Some((1, 0)));
    assert!(!ws.select_next());
    ws.close((1, 0));
    assert_eq!(ws.split_count(), 1);
    assert_eq!(ws.selected_pos(), Some((0, 0)));
    ws.close((0, 0));
    assert_eq!(ws.selected_pos(), Some((0, 0)));
    ws.close((0, 0));
    assert_eq!(ws.selected_pos(), None);
    assert_eq!(ws.split_count(), 0);
}

#[test]
fn split_copy_does_not_alias() {
    let mut ws = SplitTabState::new();
    ws.open_in((0, 0), view("a.md", "first draft"));
    assert!(ws.split());
    assert_eq!(ws.split_count(), 2);
    assert_eq!(ws.selected_pos(), Some((0, 0)));
    ws.editor_at(1, 0).unwrap().set_text("changed");
    assert_eq!(ws.editor_at(0, 0).unwrap().text(), "first draft");
    assert_eq!(ws.editor_at(1, 0).unwrap().text(), "changed");
}

#[test]
fn split_appends_to_existing_next_split() {
    let mut ws = SplitTabState::new();
    ws.open_in((0, 0), view("a.md", "a"));
    ws.open((1, 0), view("b.md", "b"));
    ws.select((0, 0));
    assert!(ws.split());
    assert_eq!(paths(&mut ws)[1], vec!["b.md", "a.md"]);
    assert_eq!(ws.selected_pos(), Some((0, 0)));
    let mut empty = SplitTabState::new();
    assert!(!empty.split());
}

#[test]
fn edit_in_first_tab_reaches_second() {
    let mut ws = SplitTabState::new();
    ws.open((0, 0), view("fileA.md", "content"));
    let copy = ws.share_view((0, 0));
    ws.open((0, 1), copy);
    ws.select((0, 0));
    insert_at_start(&mut ws, 0, 0, "X");
    sync(&mut ws);
    assert!(ws.editor_at(0, 1).unwrap().text().starts_with("X"));
}

#[test]
fn close_moves_active_to_last_tab() {
    let mut ws = SplitTabState::new();
    ws.open((0, 0), view("a.md", ""));
    ws.open((0, 1), view("b.md", ""));
    ws.open((0, 2), view("c.md", ""));
    ws.select((0, 2));
    ws.close((0, 2));
    assert_eq!(ws.active(0), Some(1));
    assert_eq!(ws.selected_pos(), Some((0, 1)));
    ws.select((0, 0));
    ws.close((0, 1));
    assert_eq!(ws.active(0), Some(0));
}

#[test]
fn close_of_invalid_position_changes_nothing() {
    let mut ws = SplitTabState::new();
    ws.open_in((0, 0), view("a.md", ""));
    ws.close((0, 5));
    ws.close((3, 0));
    assert_eq!(ws.split_count(), 1);
    assert_eq!(ws.selected_pos(), Some((0, 0)));
}

#[test]
fn closing_other_split_moves_selection_to_first_tab() {
    let mut ws = SplitTabState::new();
    ws.open((0, 0), view("a.md", ""));
    ws.open((0, 1), view("b.md", ""));
    ws.open((1, 0), view("c.md", ""));
    ws.select((0, 1));
    ws.close((1, 0));
    assert_eq!(ws.split_count(), 1);
    assert_eq!(ws.selected_pos(), Some((0, 0)));
}

#[test]
fn select_ignores_invalid_position() {
    let mut ws = SplitTabState::new();
    ws.open((0, 0), view("a.md", ""));
    ws.select((0, 1));
    assert_eq!(ws.selected_pos(), None);
    ws.select((0, 0));
    assert_eq!(ws.selected_pos(), Some((0, 0)));
}

#[test]
fn select_prev_keeps_tab_of_neighbour() {
    let mut ws = SplitTabState::new();
    ws.open((0, 0), view("a.md", ""));
    ws.open((0, 1), view("b.md", ""));
    ws.open((1, 0), view("c.md", ""));
    ws.select((0, 1));
    ws.select((1, 0));
    assert!(ws.select_prev());
    assert_eq!(ws.selected_pos(), Some((0, 1)));
    assert!(!ws.select_prev());
    let mut empty = SplitTabState::new();
    assert!(!empty.select_prev());
    assert!(!empty.select_next());
}

#[test]
fn close_all_removes_selected_split() {
    let mut ws = SplitTabState::new();
    ws.open((0, 0), view("a.md", ""));
    ws.open((1, 0), view("b.md", ""));
    ws.open((1, 1), view("c.md", ""));
    ws.select((1, 1));
    assert!(ws.close_all());
    assert_eq!(ws.split_count(), 1);
    assert_eq!(ws.selected_pos(), Some((0, 0)));
    assert!(ws.close_all());
    assert_eq!(ws.split_count(), 0);
    assert!(!ws.close_all());
}

#[test]
fn for_path_finds_first_view() {
    let mut ws = SplitTabState::new();
    ws.open((0, 0), view("a.md", ""));
    ws.open((1, 0), view("b.md", ""));
    ws.open((1, 1), view("a.md", ""));
    assert_eq!(ws.for_path(&"a.md".to_string()), Some((0, 0)));
    assert_eq!(ws.for_path(&"b.md".to_string()), Some((1, 0)));
    assert_eq!(ws.for_path(&"c.md".to_string()), None);
}

#[test]
fn insert_positions_follow_selection() {
    let mut ws = SplitTabState::new();
    assert_eq!(ws.next_tab_pos(), (0, 0));
    assert_eq!(ws.next_split_pos(), (0, 0));
    ws.open_in((0, 0), view("a.md", ""));
    assert_eq!(ws.next_tab_pos(), (0, 1));
    assert_eq!(ws.next_split_pos(), (1, 0));
    ws.open((1, 0), view("b.md", ""));
    assert_eq!(ws.next_split_pos(), (1, 1));
}

#[test]
fn selection_agrees_with_focus() {
    let mut ws = SplitTabState::new();
    ws.open((0, 0), view("a.md", ""));
    ws.open((1, 0), view("b.md", ""));
    ws.select((1, 0));
    assert!(ws.selection_agrees(&vec![false, true]));
    assert!(ws.selection_agrees(&vec![false, false]));
    assert!(!ws.selection_agrees(&vec![true, false]));
    assert!(!ws.selection_agrees(&vec![true, true]));
}

#[test]
fn file_state_records_every_tab() {
    let mut ws = SplitTabState::new();
    ws.open((0, 0), view("a.md", "one\ntwo"));
    ws.open((0, 1), view("b.md", ""));
    ws.open((1, 0), view("c.md", ""));
    ws.editor_at(0, 0).unwrap().edit.set_cursor((1, 1), false);
    let st = ws.file_state();
    assert_eq!(st.len(), 3);
    assert_eq!(st[0].pos, (0, 0));
    assert_eq!(st[0].path, "a.md");
    assert_eq!(st[0].cursor, (1, 1));
    assert_eq!(st[1].pos, (0, 1));
    assert_eq!(st[2].pos, (1, 0));
    assert_eq!(st[2].path, "c.md");
    assert_eq!(st[2].cursor, (0, 0));
}

#[test]
fn can_open_at_checks_positions() {
    let mut ws = SplitTabState::new();
    assert!(ws.can_open_at((0, 0)));
    assert!(!ws.can_open_at((0, 1)));
    assert!(!ws.can_open_at((1, 0)));
    ws.open((0, 0), view("a.md", ""));
    assert!(ws.can_open_at((0, 1)));
    assert!(ws.can_open_at((1, 0)));
    assert!(!ws.can_open_at((0, 2)));
    assert!(!ws.can_open_at((2, 0)));
}

#[test]
fn focus_gain_selects_first_flagged_view() {
    let mut ws = SplitTabState::new();
    ws.open((0, 0), view("a.md", ""));
    ws.open((0, 1), view("b.md", ""));
    ws.open((1, 0), view("c.md", ""));
    assert_eq!(ws.establish_focus(&vec![vec![false, false], vec![false]]), None);
    assert_eq!(ws.selected_pos(), None);
    assert_eq!(ws.establish_focus(&vec![vec![false, true], vec![true]]), Some((0, 1)));
    assert_eq!(ws.selected_pos(), Some((0, 1)));
    assert_eq!(ws.active(0), Some(1));
}

#[test]
fn selected_gives_the_selected_view() {
    let mut ws = SplitTabState::new();
    assert!(ws.selected().is_none());
    assert!(ws.selected_mut().is_none());
    ws.open_in((0, 0), view("a.md", "aaa"));
    ws.open_in((0, 1), view("b.md", "bbb"));
    let (pos, v) = ws.selected().unwrap();
    assert_eq!(pos, (0, 1));
    assert_eq!(v.path, "b.md");
    let (_, v) = ws.selected_mut().unwrap();
    v.set_text("ccc");
    assert_eq!(ws.editor_at(0, 1).unwrap().text(), "ccc");
    assert_eq!(ws.editor_at(0, 0).unwrap().text(), "aaa");
}

#[test]
fn default_workspace_is_empty() {
    let mut ws = SplitTabState::default();
    assert_eq!(ws.split_count(), 0);
    assert_eq!(ws.selected_pos(), None);
    assert!(ws.editor_at(0, 0).is_none());
    assert_eq!(ws.tab_count(0), 0);
}

#[test]
fn sync_replays_once() {
    let mut ws = SplitTabState::new();
    ws.open_in((0, 0), view("doc.md", "hello"));
    let copy = ws.share_view((0, 0));
    ws.open((1, 0), copy);
    ws.select((0, 0));
    insert_at_start(&mut ws, 0, 0, "ab");
    assert_eq!(ws.sync_edit(), vec![(1, 0)]);
    assert_eq!(ws.editor_at(0, 0).unwrap().text(), "abhello");
    assert_eq!(ws.editor_at(1, 0).unwrap().text(), "abhello");
    assert!(ws.sync_edit().is_empty());
}

#[test]
fn replay_changes_only_targets() {
    let mut ws = SplitTabState::new();
    ws.open_in((0, 0), view("doc.md", "abc"));
    let copy = ws.share_view((0, 0));
    ws.open((0, 1), copy);
    ws.open((1, 0), view("other.md", "abc"));
    ws.select((0, 0));
    insert_at_start(&mut ws, 0, 0, "Z");
    let plan = ws.roll_forward_edit().unwrap();
    ws.replay(plan.source, &"doc.md".to_string(), &plan.log);
    assert_eq!(ws.editor_at(0, 1).unwrap().text(), "Zabc");
    assert_eq!(ws.editor_at(1, 0).unwrap().text(), "abc");
    assert_eq!(ws.editor_at(0, 0).unwrap().text(), "Zabc");
}

#[test]
fn select_path_selects_open_view() {
    let mut ws = SplitTabState::new();
    ws.open((0, 0), view("a.md", ""));
    ws.open((1, 0), view("b.md", ""));
    assert!(ws.select_path(&"b.md".to_string()));
    assert_eq!(ws.selected_pos(), Some((1, 0)));
    assert!(!ws.select_path(&"c.md".to_string()));
    assert_eq!(ws.selected_pos(), Some((1, 0)));
}

#[test]
fn open_copy_at_copies_open_view() {
    let mut ws = SplitTabState::new();
    ws.open_in((0, 0), view("a.md", "text"));
    assert!(ws.open_copy_at((1, 0), &"a.md".to_string()));
    assert_eq!(ws.selected_pos(), Some((1, 0)));
    assert_eq!(ws.editor_at(1, 0).unwrap().text(), "text");
    assert!(!ws.open_copy_at((1, 1), &"z.md".to_string()));
    assert_eq!(ws.tab_count(1), 1);
    insert_at_start(&mut ws, 1, 0, "new ");
    ws.sync_edit();
    assert_eq!(ws.editor_at(0, 0).unwrap().text(), "new text");
}

#[test]
fn paths_compare_by_components() {
    let mut ws = SplitTabState::new();
    ws.open((0, 0), view("a/b.md", ""));
    ws.open((1, 0), view("a//b.md", ""));
    assert_eq!(ws.for_path(&"a//b.md".to_string()), Some((0, 0)));
    assert_eq!(ws.replay_targets((0, 0), &"a/b.md".to_string()), vec![(1, 0)]);
}
