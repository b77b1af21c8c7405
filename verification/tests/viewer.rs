use herdr_agent_diff::app::{App, ChangesMode, EditorCursor, Focus, GitState, Mode};
use herdr_agent_diff::cache::{Cache, CACHE_LIMIT};
use herdr_agent_diff::diff::{DiffLine, DiffLineKind};
use herdr_agent_diff::git::{GitChange, GitComparison, GitFileState};
use herdr_agent_diff::keys::{KeyCode, KeyEvent};
use herdr_agent_diff::layout::{
    body_columns, bordered_inner, content_areas, screen_rows, Axis, Rect,
};
use herdr_agent_diff::model::{Change, ChangeKind, CurrentFile, TextEligibility};
use herdr_agent_diff::navigation::NavigationRow;
use herdr_agent_diff::pointer::{tab_at, MouseEvent, MouseEventKind};
use herdr_agent_diff::queue::{
    git_diff_result, git_scan_result, overtaken, scan_result, Task, TaskQueue, WorkResult,
};
use herdr_agent_diff::error::Error;
use herdr_agent_diff::scene::{Scene, Widget};
use herdr_agent_diff::scrollbar::{
    compact_horizontal_scrollbar_viewport, drag_thumb, grab_thumb, saturating_u16,
    scrollbar_geometry, scrollbar_render_position, scrollbar_thumb_parts,
};
use herdr_agent_diff::sets::{GroupSet, Tab};
use herdr_agent_diff::source::ColoredSpan;
use herdr_agent_diff::style::Color;

fn press(code: KeyCode) -> KeyEvent {
    KeyEvent {
        code,
        control: false,
        command: false,
    }
}

fn file(path: &str) -> CurrentFile {
    CurrentFile {
        relative: path.as_bytes().to_vec(),
        absolute: path.as_bytes().to_vec(),
        size: 0,
        modified_unix_ns: None,
        text: TextEligibility::Text,
    }
}

fn change(path: &str) -> Change {
    Change {
        kind: ChangeKind::Modified,
        path: path.as_bytes().to_vec(),
        old_path: None,
        baseline: None,
        current: None,
    }
}

fn source(lines: &[&str]) -> Vec<Vec<ColoredSpan>> {
    lines
        .iter()
        .map(|text| {
            vec![ColoredSpan {
                text: (*text).to_owned(),
                foreground: Color::White,
            }]
        })
        .collect()
}

/// A viewer that has read three files.
fn browsing() -> (App, u64, TaskQueue) {
    let mut app = App::new(None, false, "w1:p1".to_owned());
    app.loading = false;
    app.tab = Tab::Files;
    app.files = vec![file("README.md"), file("src/app.rs"), file("src/lib.rs")];
    app.viewport = Rect::new(0, 0, 100, 20);
    (app, 1, TaskQueue::new(8))
}

fn status(scene: &Scene) -> String {
    match &scene.elements.last().expect("status").widget {
        Widget::Text { text, .. } => text.clone(),
        widget => panic!("{widget:?}"),
    }
}

#[test]
fn an_area_is_cut_for_a_scrollbar_below_it() {
    for height in (0..1_000).chain((1_000..=u16::MAX - 5).step_by(61)) {
        let (content, bar) = content_areas(Rect::new(3, 5, 40, height));
        let upper = if height <= 1 { height } else { height - 1 };
        assert_eq!(content, Rect::new(3, 5, 40, upper));
        assert_eq!(bar, Rect::new(3, 5 + upper, 40, height - upper));
    }
}

#[test]
fn a_screen_is_cut_into_tabs_body_and_status() {
    for height in (0..1_000).chain((1_000..=u16::MAX - 2).step_by(61)) {
        let (tabs, body, status) = screen_rows(Rect::new(1, 2, 30, height));
        assert_eq!((tabs.x, body.x, status.x), (1, 1, 1));
        assert_eq!((tabs.width, body.width, status.width), (30, 30, 30));
        assert_eq!(tabs.y, 2);
        assert_eq!(body.y, tabs.y + tabs.height);
        assert_eq!(status.y, body.y + body.height);
        assert_eq!(tabs.height + body.height + status.height, height);
        if height >= 4 {
            assert_eq!((tabs.height, status.height), (1, 1));
        } else if height <= 2 {
            assert_eq!(body.height, height);
        } else {
            assert_eq!(body.height, 2);
        }
    }
}

#[test]
fn a_body_is_cut_for_the_sidebar() {
    for width in (0..1_000).chain((1_000..=u16::MAX - 7).step_by(61)) {
        let (left, right) = body_columns(Rect::new(7, 1, width, 9));
        let share = ((u32::from(width) * 36 + 50) / 100) as u16;
        assert_eq!(left, Rect::new(7, 1, share, 9));
        assert_eq!(right, Rect::new(7 + share, 1, width - share, 9));
    }
}

#[test]
fn a_border_takes_a_cell_on_every_side() {
    assert_eq!(
        bordered_inner(Rect::new(2, 3, 10, 5)),
        Rect::new(3, 4, 8, 3)
    );
    for width in 0..4 {
        for height in 0..4 {
            for start in [0, 9, u16::MAX - 4] {
                let inner = bordered_inner(Rect::new(start, start, width, height));
                assert_eq!(inner.width, width.saturating_sub(2));
                assert_eq!(inner.height, height.saturating_sub(2));
                assert_eq!(inner.x, start + width.min(1));
                assert_eq!(inner.y, start + height.min(1));
            }
        }
    }
}

#[test]
fn a_cache_gives_back_what_it_holds() {
    let mut cache = Cache::new();
    cache.insert(1, "one", 10);
    cache.insert(2, "two", 10);
    cache.insert(1, "uno", CACHE_LIMIT - 10);
    assert_eq!(cache.get(&1), Some(&"uno"));
    assert_eq!(cache.get(&2), Some(&"two"));
    cache.insert(3, "three", CACHE_LIMIT + 1);
    assert_eq!(cache.get(&3), None);
    cache.insert(4, "four", 1);
    assert_eq!(cache.get(&4), Some(&"four"));
    cache.clear();
    assert_eq!(cache.get(&4), None);
}

#[test]
fn a_folder_toggled_twice_is_as_before() {
    let mut groups = GroupSet::new();
    groups.toggle(Tab::Files, b"src/");
    assert!(groups.contains(Tab::Files, b"src"));
    assert!(!groups.contains(Tab::Changes, b"src"));
    groups.toggle(Tab::Files, b"./src".strip_prefix(b"./").expect("prefix"));
    assert!(!groups.contains(Tab::Files, b"src"));
}

#[test]
fn a_thumb_is_placed_and_dragged() {
    assert_eq!(saturating_u16(70_000), u16::MAX);
    assert_eq!(compact_horizontal_scrollbar_viewport(2), 1);
    assert_eq!(compact_horizontal_scrollbar_viewport(90), 30);
    assert_eq!(scrollbar_render_position(0, 0, 9), 0);
    assert_eq!(scrollbar_render_position(50, 90, 100), 55);
    assert_eq!(scrollbar_render_position(500, 90, 100), 99);
    assert_eq!(scrollbar_thumb_parts(100, 10, 20, 0), (0, 2));
    let bar = scrollbar_geometry(Axis::Vertical, Rect::new(0, 0, 40, 12), 100, 12, 12, 0)
        .expect("scrollbar");
    assert_eq!((bar.track_start, bar.track_length), (1, 10));
    assert_eq!(bar.max_scroll, 88);
    assert_eq!(grab_thumb(&bar, 1), Some(0));
    assert_eq!(grab_thumb(&bar, 0), None);
    assert_eq!(drag_thumb(&bar, 0, 0), 0);
    assert_eq!(drag_thumb(&bar, 0, 99), 88);
    assert!(drag_thumb(&bar, 0, 4) <= drag_thumb(&bar, 0, 5));
    assert!(
        scrollbar_geometry(Axis::Vertical, Rect::new(0, 0, 40, 12), 12, 12, 12, 0).is_none()
    );
}

#[test]
fn titles_are_clicked_where_they_stand() {
    let tabs = Rect::new(0, 0, 80, 1);
    assert_eq!(tab_at(tabs, 0, 0), Some(Tab::Changes));
    assert_eq!(tab_at(tabs, 11, 0), Some(Tab::Changes));
    assert_eq!(tab_at(tabs, 12, 0), Some(Tab::Files));
    assert_eq!(tab_at(tabs, 20, 0), Some(Tab::Files));
    assert_eq!(tab_at(tabs, 21, 0), None);
    assert_eq!(tab_at(tabs, 3, 1), None);
}

#[test]
fn a_queue_takes_so_many_tasks() {
    let mut queue = TaskQueue::new(1);
    assert!(queue.try_send(Task::Scan(1)));
    assert!(!queue.try_send(Task::Scan(2)));
    assert!(matches!(queue.try_recv(), Some(Task::Scan(1))));
    assert!(queue.try_recv().is_none());
    queue.close();
    assert!(!queue.try_send(Task::Scan(3)));
    assert!(overtaken(2, 1));
    assert!(!overtaken(2, 2));
}

#[test]
fn what_is_selected_is_asked_for_once_and_shown() {
    let (mut app, _, mut tasks) = browsing();
    app.files_state.selected = 1;
    app.request_selected(&mut tasks);
    app.request_selected(&mut tasks);
    let (generation, index) = match tasks.try_recv() {
        Some(Task::Highlight {
            generation,
            index,
            file,
        }) => {
            assert_eq!(file.relative, b"src/app.rs");
            (generation, index)
        }
        task => panic!("{task:?}"),
    };
    assert!(tasks.try_recv().is_none());
    app.apply_result(WorkResult::Highlight {
        generation: generation + 1,
        index,
        lines: source(&["other"]),
        notice: None,
    });
    assert!(app.source_cache.get(&index).is_none());
    app.apply_result(WorkResult::Highlight {
        generation,
        index,
        lines: source(&["fn main() {}"]),
        notice: None,
    });
    assert!(app.source_cache.get(&index).is_some());
    app.request_selected(&mut tasks);
    assert!(tasks.try_recv().is_none());
}

#[test]
fn a_scan_that_failed_keeps_what_was_read() {
    let (mut app, _, _) = browsing();
    let failed = scan_result(1, None, false, Err(Error::Io("denied".to_owned())));
    app.apply_result(WorkResult::Scan(Box::new(failed)));
    assert_eq!(app.files.len(), 3);
    assert_eq!(app.scan_error.as_deref(), Some("denied"));
    let scene = app.draw(Rect::new(0, 0, 100, 20));
    assert_eq!(
        status(&scene),
        "Refresh failed: denied  r retry  ? help  q close"
    );
    let good = scan_result(
        1,
        None,
        false,
        Ok((vec![file("a")], Vec::new(), vec!["note".to_owned()])),
    );
    app.files_state.selected = 2;
    app.apply_result(WorkResult::Scan(Box::new(good)));
    assert_eq!(app.files.len(), 1);
    assert_eq!(app.files_state.selected, 0);
    let scene = app.draw(Rect::new(0, 0, 100, 20));
    assert!(status(&scene).starts_with("1 notice(s): note  click"));
}

#[test]
fn git_changes_are_read_when_they_are_first_shown() {
    let mut app = App::new(None, false, "w1:p1".to_owned());
    app.loading = false;
    let mut newest = 1;
    let mut tasks = TaskQueue::new(8);
    app.handle_key(press(KeyCode::Char('g')), &mut newest, &mut tasks);
    let generation = match tasks.try_recv() {
        Some(Task::GitScan { generation }) => generation,
        task => panic!("{task:?}"),
    };
    app.apply_result(git_scan_result(generation, Err("no repository".to_owned())));
    assert_eq!(app.git_state, GitState::Loaded);
    assert_eq!(app.git_error.as_deref(), Some("no repository"));
    app.handle_key(press(KeyCode::Char('g')), &mut newest, &mut tasks);
    assert_eq!(app.changes_mode, ChangesMode::Agent);
    match git_diff_result(3, 4, Err("broken".to_owned())) {
        WorkResult::GitDiff {
            generation: 3,
            index: 4,
            lines,
        } => {
            assert_eq!(lines.len(), 1);
            assert_eq!(lines[0].text, "broken");
        }
        result => panic!("{result:?}"),
    }
}

#[test]
fn escape_dismisses_before_it_closes() {
    let (mut app, mut newest, mut tasks) = browsing();
    app.handle_key(press(KeyCode::Char('?')), &mut newest, &mut tasks);
    assert_eq!(app.mode, Mode::Help);
    let scene = app.draw(Rect::new(0, 0, 100, 20));
    assert!(scene
        .elements
        .iter()
        .any(|element| element.widget == Widget::Help));
    assert!(!app.handle_key(press(KeyCode::Esc), &mut newest, &mut tasks));
    assert_eq!(app.mode, Mode::Normal);
    app.handle_key(press(KeyCode::Char('/')), &mut newest, &mut tasks);
    assert!(!app.handle_key(press(KeyCode::Char('q')), &mut newest, &mut tasks));
    assert_eq!(app.files_state.filter, "q");
    assert!(!app.handle_key(press(KeyCode::Esc), &mut newest, &mut tasks));
    assert!(app.handle_key(press(KeyCode::Esc), &mut newest, &mut tasks));
    assert!(app.handle_key(press(KeyCode::Char('q')), &mut newest, &mut tasks));
}

#[test]
fn the_sidebar_is_hidden_and_shown_again() {
    let (mut app, mut newest, mut tasks) = browsing();
    app.handle_key(press(KeyCode::Char('b')), &mut newest, &mut tasks);
    let layout = app.ui_layout(app.viewport);
    assert_eq!(layout.navigation, None);
    assert_eq!(layout.content, Some(layout.body));
    app.handle_key(press(KeyCode::Char('b')), &mut newest, &mut tasks);
    assert!(app.ui_layout(app.viewport).navigation.is_some());
}

/// The row of the sidebar that is lit, and the beginning of its text.
fn lit(app: &mut App) -> Option<(usize, String)> {
    let scene = app.draw(app.viewport);
    scene.elements.iter().find_map(|element| match &element.widget {
        Widget::List {
            items, selected, ..
        } => selected.map(|row| {
            let text = items[row].spans.iter().map(|span| span.text.as_str());
            (row, text.collect::<String>().trim_end().to_owned())
        }),
        _ => None,
    })
}

#[test]
fn enter_toggles_the_folder_under_the_cursor() {
    let (mut app, mut newest, mut tasks) = browsing();
    app.handle_key(press(KeyCode::Down), &mut newest, &mut tasks);
    app.handle_key(press(KeyCode::Down), &mut newest, &mut tasks);
    assert_eq!(app.navigation_cursor_folder(), None);
    assert_eq!(lit(&mut app).map(|(row, _)| row), Some(3));
    app.handle_key(press(KeyCode::Left), &mut newest, &mut tasks);
    assert_eq!(app.navigation_cursor_folder(), Some(b"src".to_vec()));
    assert_eq!(lit(&mut app), Some((1, "▎ ▾ src/".to_owned())));
    app.handle_key(press(KeyCode::Enter), &mut newest, &mut tasks);
    assert_eq!(app.navigation_rows().len(), 2);
    assert_eq!(lit(&mut app), Some((1, "▎ ▸ src/".to_owned())));
    app.handle_key(press(KeyCode::Enter), &mut newest, &mut tasks);
    assert_eq!(app.navigation_rows().len(), 4);
    assert_eq!(app.files_state.selected, 2);
    assert_eq!(app.focus, Focus::Navigation);
    app.handle_key(press(KeyCode::Char('l')), &mut newest, &mut tasks);
    assert_eq!(lit(&mut app).map(|(row, _)| row), Some(3));
    app.handle_key(press(KeyCode::Enter), &mut newest, &mut tasks);
    assert_eq!(app.focus, Focus::Content);
    assert_eq!(app.navigation_rows().len(), 4);
}

#[test]
fn enter_opens_the_folder_that_hides_the_selected_file() {
    let (mut app, mut newest, mut tasks) = browsing();
    app.files_state.selected = 1;
    app.toggle_group(b"src");
    assert_eq!(app.navigation_rows().len(), 2);
    assert_eq!(lit(&mut app), Some((1, "▎ ▸ src/".to_owned())));
    app.handle_key(press(KeyCode::Enter), &mut newest, &mut tasks);
    assert_eq!(app.navigation_rows().len(), 4);
    assert_eq!(app.focus, Focus::Navigation);
    app.handle_key(press(KeyCode::Enter), &mut newest, &mut tasks);
    assert_eq!(app.navigation_rows().len(), 2);
    app.handle_key(press(KeyCode::Up), &mut newest, &mut tasks);
    assert_eq!(app.files_state.selected, 0);
    app.handle_key(press(KeyCode::Left), &mut newest, &mut tasks);
    assert_eq!(app.navigation_cursor_folder(), None);
    app.handle_key(press(KeyCode::Enter), &mut newest, &mut tasks);
    assert_eq!(app.focus, Focus::Content);
}

#[test]
fn a_click_puts_the_cursor_on_a_folder() {
    let (mut app, mut newest, mut tasks) = browsing();
    let area = app.ui_layout(app.viewport).navigation.expect("sidebar");
    let at = |row| MouseEvent {
        kind: MouseEventKind::LeftDown,
        column: area.x + 4,
        row: area.y + 1 + row,
    };
    app.handle_mouse(at(1), &mut tasks);
    assert_eq!(app.files_state.selected, 0);
    assert_eq!(app.navigation_cursor_folder(), Some(b"src".to_vec()));
    assert_eq!(lit(&mut app), Some((1, "▎ ▸ src/".to_owned())));
    app.handle_key(press(KeyCode::Enter), &mut newest, &mut tasks);
    assert_eq!(lit(&mut app), Some((1, "▎ ▾ src/".to_owned())));
    app.handle_mouse(at(2), &mut tasks);
    assert_eq!(app.files_state.selected, 1);
    assert_eq!(app.navigation_cursor_folder(), None);
    app.files_state.folder = Some(b"gone".to_vec());
    assert_eq!(app.navigation_cursor_folder(), None);
    assert_eq!(lit(&mut app).map(|(row, _)| row), Some(2));
}

#[test]
fn counts_end_at_the_right_of_their_row() {
    let mut app = App::new(None, false, "w1:p1".to_owned());
    app.loading = false;
    app.changes = vec![
        change("src/core/a.rs"),
        change("src/core/文字.rs"),
        change("src/core/a-name-that-is-much-too-long-for-the-row.rs"),
    ];
    app.viewport = Rect::new(0, 0, 100, 20);
    for index in 0..app.changes.len() {
        let added = DiffLine {
            kind: DiffLineKind::Addition,
            text: "+added".to_owned(),
            old_line: None,
            new_line: Some(1),
        };
        app.diff_cache.insert(index, vec![added], 6);
    }
    for selected in 0..app.changes.len() {
        app.changes_state.selected = selected;
        let scene = app.draw(app.viewport);
        let items = scene.elements.iter().find_map(|element| match &element.widget {
            Widget::List { items, .. } => Some(items),
            _ => None,
        });
        for item in items.expect("list").iter().skip(1) {
            let text: String = item.spans.iter().map(|span| span.text.as_str()).collect();
            assert!(text.ends_with(" +1 -0"), "{text}");
            let wide = text.chars().filter(|c| matches!(c, '文' | '字')).count();
            assert_eq!(text.chars().count() + wide, 34, "{text}");
        }
    }
}

/// A viewer with more files than its sidebar can show.
fn crowded() -> App {
    let mut app = App::new(None, false, "w1:p1".to_owned());
    app.loading = false;
    app.tab = Tab::Files;
    app.files = (0..60).map(|n| file(&format!("file-{n:02}.rs"))).collect();
    app.viewport = Rect::new(0, 0, 100, 20);
    app
}

#[test]
fn a_long_sidebar_has_a_scrollbar_on_its_border() {
    let (mut short, _, _) = browsing();
    let mut long = crowded();
    let bars = |app: &mut App| -> Vec<(Rect, usize, usize, usize)> {
        app.draw(app.viewport)
            .elements
            .into_iter()
            .filter_map(|element| match element.widget {
                Widget::Scrollbar {
                    axis: Axis::Vertical,
                    content_length,
                    position,
                    viewport_length,
                    ..
                } => Some((element.area, content_length, position, viewport_length)),
                _ => None,
            })
            .collect()
    };
    assert_eq!(bars(&mut short), []);
    let area = long.ui_layout(long.viewport).navigation.expect("sidebar");
    let edge = Rect::new(area.x, area.y + 1, area.width, area.height - 2);
    assert_eq!(bars(&mut long), [(edge, 60, 0, 16)]);
    long.files_state.list_scroll_y = 44;
    assert_eq!(bars(&mut long), [(edge, 60, 59, 16)]);
}

#[test]
fn the_sidebar_is_dragged_by_its_scrollbar() {
    let mut app = crowded();
    let mut tasks = TaskQueue::new(8);
    let area = app.ui_layout(app.viewport).navigation.expect("sidebar");
    let bar = app.navigation_scrollbar(area).expect("scrollbar");
    assert_eq!(bar.bar, Rect::new(area.x + area.width - 1, area.y + 1, 1, 16));
    assert_eq!(bar.max_scroll, 44);
    let column = bar.bar.x;
    let event = |kind, row| MouseEvent { kind, column, row };
    app.focus = Focus::Content;
    app.handle_mouse(event(MouseEventKind::LeftDown, bar.track_start), &mut tasks);
    assert!(app.scrollbar_drag.is_some());
    assert_eq!(app.focus, Focus::Navigation);
    app.handle_mouse(event(MouseEventKind::LeftDrag, area.y + 40), &mut tasks);
    assert_eq!(app.files_state.list_scroll_y, 44);
    assert_eq!(app.navigation_scroll_offset(area), 44);
    app.handle_mouse(event(MouseEventKind::LeftDrag, 0), &mut tasks);
    assert_eq!(app.files_state.list_scroll_y, 0);
    app.handle_mouse(event(MouseEventKind::LeftUp, 0), &mut tasks);
    assert_eq!(app.scrollbar_drag, None);
    assert_eq!((app.files_state.scroll_y, app.files_state.scroll_x), (0, 0));
    assert_eq!(app.files_state.selected, 0);

    app.handle_mouse(event(MouseEventKind::LeftDown, area.y + 14), &mut tasks);
    assert_eq!(app.scrollbar_drag, None);
    assert_eq!(app.files_state.selected, 0);
    let inside = MouseEvent {
        kind: MouseEventKind::LeftDown,
        column: column - 1,
        row: area.y + 4,
    };
    app.handle_mouse(inside, &mut tasks);
    assert_eq!(app.files_state.selected, 3);
}

#[test]
fn keys_move_and_scroll() {
    let (mut app, mut newest, mut tasks) = browsing();
    app.handle_key(press(KeyCode::Down), &mut newest, &mut tasks);
    app.handle_key(press(KeyCode::Char('j')), &mut newest, &mut tasks);
    app.handle_key(press(KeyCode::Down), &mut newest, &mut tasks);
    assert_eq!(app.files_state.selected, 2);
    app.handle_key(press(KeyCode::Up), &mut newest, &mut tasks);
    assert_eq!(app.files_state.selected, 1);
    app.handle_key(press(KeyCode::Tab), &mut newest, &mut tasks);
    assert_eq!(app.focus, Focus::Content);
    app.handle_key(press(KeyCode::Char('l')), &mut newest, &mut tasks);
    assert_eq!(app.files_state.scroll_x, 4);
    app.handle_key(press(KeyCode::PageDown), &mut newest, &mut tasks);
    app.handle_key(press(KeyCode::Char('k')), &mut newest, &mut tasks);
    assert_eq!(app.files_state.scroll_y, 9);
    app.handle_key(press(KeyCode::Home), &mut newest, &mut tasks);
    assert_eq!(app.files_state.scroll_y, 0);
    app.handle_key(press(KeyCode::Char('1')), &mut newest, &mut tasks);
    assert_eq!(app.tab, Tab::Changes);
}

#[test]
fn a_filter_finds_names_in_either_case() {
    let (mut app, mut newest, mut tasks) = browsing();
    for c in ['/', 'A', 'P', 'P'] {
        app.handle_key(press(KeyCode::Char(c)), &mut newest, &mut tasks);
    }
    assert_eq!(app.filtered_indices(), [1]);
    app.handle_key(press(KeyCode::Backspace), &mut newest, &mut tasks);
    app.handle_key(press(KeyCode::Backspace), &mut newest, &mut tasks);
    assert_eq!(app.filtered_indices(), [0, 1]);
    let scene = app.draw(Rect::new(0, 0, 100, 20));
    assert_eq!(status(&scene), "filter: A_");
    app.handle_key(press(KeyCode::Enter), &mut newest, &mut tasks);
    assert_eq!(app.mode, Mode::Normal);
}

#[test]
fn selected_text_waits_for_the_clipboard() {
    let (mut app, mut newest, mut tasks) = browsing();
    app.focus = Focus::Content;
    app.source_cache.insert(0, source(&["abc", "def"]), 6);
    let content = app.ui_layout(app.viewport).content.expect("content");
    app.begin_selection_at(content, content.x + 6, content.y + 1);
    app.extend_selection_at(content, content.x + 7, content.y + 2);
    let copy = KeyEvent {
        code: KeyCode::Char('c'),
        control: false,
        command: true,
    };
    app.handle_key(copy, &mut newest, &mut tasks);
    assert_eq!(app.take_clipboard().as_deref(), Some("bc\ndef"));
    assert_eq!(app.take_clipboard(), None);
}

#[test]
fn a_source_is_drawn_no_further_than_its_end() {
    let (mut app, _, _) = browsing();
    app.focus = Focus::Content;
    app.source_cache.insert(0, source(&["line"; 40]), 160);
    app.files_state.scroll_y = 900;
    app.files_state.scroll_x = 900;
    let scene = app.draw(Rect::new(0, 0, 100, 20));
    let content = app.ui_layout(app.viewport).content.expect("content");
    let (area, _) = content_areas(bordered_inner(content));
    assert_eq!(app.files_state.scroll_y, 40 - usize::from(area.height));
    assert_eq!(app.files_state.scroll_x, 0);
    assert_eq!(app.draw(Rect::new(0, 0, 100, 20)), scene);
}

#[test]
fn the_cursor_blinks_where_the_text_is_seen() {
    let (mut app, _, _) = browsing();
    app.focus = Focus::Content;
    app.source_cache.insert(0, source(&["abc"]), 3);
    app.cursor = Some(EditorCursor {
        tab: Tab::Files,
        line: 0,
        column: 5,
    });
    app.cursor_blink_started = 1_000;
    app.now_millis = 1_599;
    let (area, _) = content_areas(bordered_inner(
        app.ui_layout(app.viewport).content.expect("content"),
    ));
    let scene = app.draw(Rect::new(0, 0, 100, 20));
    assert_eq!(scene.cursor, Some((area.x + 5, area.y)));
    app.now_millis = 1_600;
    assert_eq!(app.draw(Rect::new(0, 0, 100, 20)).cursor, None);
    app.now_millis = 2_000;
    assert!(app.draw(Rect::new(0, 0, 100, 20)).cursor.is_some());
    app.focus = Focus::Navigation;
    assert_eq!(app.draw(Rect::new(0, 0, 100, 20)).cursor, None);
}

#[test]
fn the_mouse_leaves_what_was_read_alone() {
    let (mut app, _, mut tasks) = browsing();
    app.changes = vec![change("src/app.rs")];
    for kind in [
        MouseEventKind::LeftDown,
        MouseEventKind::LeftDrag,
        MouseEventKind::LeftUp,
        MouseEventKind::Moved,
        MouseEventKind::ScrollDown,
        MouseEventKind::ScrollUp,
        MouseEventKind::ScrollLeft,
        MouseEventKind::ScrollRight,
        MouseEventKind::Other,
    ] {
        for row in 0..20 {
            for column in (0..100).step_by(7) {
                app.handle_mouse(MouseEvent { kind, column, row }, &mut tasks);
            }
        }
    }
    assert_eq!(app.files.len(), 3);
    assert_eq!(app.changes, vec![change("src/app.rs")]);
}

#[test]
fn a_watcher_that_fails_is_noted() {
    let (mut app, _, _) = browsing();
    app.watcher_unavailable("no inotify");
    app.watcher_failed("overflow");
    assert_eq!(
        app.notices,
        [
            "watcher unavailable: no inotify; press r to refresh",
            "watcher error: overflow; press r to recover"
        ]
    );
}

#[test]
fn git_changes_are_listed_by_status() {
    let git_change = |path: &str, state: GitFileState| GitChange {
        kind: ChangeKind::Modified,
        path: path.as_bytes().to_vec(),
        old_path: None,
        untracked: state == GitFileState::Untracked,
        comparison: GitComparison::WorkingTree,
        state,
    };
    let mut app = App::new(None, false, "w1:p1".to_owned());
    app.loading = false;
    let mut newest = 1;
    let mut tasks = TaskQueue::new(8);
    app.handle_key(press(KeyCode::Char('g')), &mut newest, &mut tasks);
    let found = vec![
        git_change("a.txt", GitFileState::Untracked),
        git_change("src/b.txt", GitFileState::Staged),
        git_change("src/c.txt", GitFileState::StagedAndUnstaged),
        git_change("src/d.txt", GitFileState::Staged),
    ];
    app.apply_result(git_scan_result(app.render_generation, Ok(found)));
    let labels = |app: &App| -> Vec<String> {
        app.navigation_rows()
            .into_iter()
            .map(|row| match row {
                NavigationRow::Status { label }
                | NavigationRow::Group { label, .. }
                | NavigationRow::File { label, .. } => label,
            })
            .collect()
    };
    assert_eq!(
        labels(&app),
        [
            "staged", "src/", "b.txt", "d.txt", "mixed", "src/", "c.txt", "untracked", "a.txt"
        ]
    );
    app.toggle_group(b"src");
    assert_eq!(
        labels(&app),
        ["staged", "src/", "mixed", "src/", "untracked", "a.txt"]
    );
    app.toggle_group(b"src");
    let mut moved = Vec::new();
    for _ in 0..4 {
        let selected = app.actual_selected().expect("selected");
        moved.push(String::from_utf8(app.git_changes[selected].path.clone()).expect("path"));
        app.handle_key(press(KeyCode::Down), &mut newest, &mut tasks);
    }
    assert_eq!(moved, ["src/b.txt", "src/d.txt", "src/c.txt", "a.txt"]);
}
