use herdr_agent_diff::app::{
    App, ChangesMode, EditorCursor, EditorSelection, Focus, GitState,
};
use herdr_agent_diff::cache::{Cache, CACHE_LIMIT};
use herdr_agent_diff::diff::{DiffLine, DiffLineKind};
use herdr_agent_diff::keys::{KeyCode, KeyEvent};
use herdr_agent_diff::layout::bordered_inner;
use herdr_agent_diff::model::{Change, ChangeKind, CurrentFile, TextEligibility};
use herdr_agent_diff::navigation::NavigationRow;
use herdr_agent_diff::pointer::{MouseEvent, MouseEventKind};
use herdr_agent_diff::queue::{ScanResult, Task, TaskQueue, WorkResult};
use herdr_agent_diff::scrollbar::saturating_u16;
use herdr_agent_diff::sets::Tab;
use herdr_agent_diff::source::{highlight_file, ColoredSpan, HighlightStep};
use herdr_agent_diff::style::brighten_code_component;
use ratatui::backend::TestBackend;
use ratatui::Terminal;
use herdr_agent_diff::layout::{Axis, Rect};
use herdr_agent_diff::scene::{Scene, Widget, CHANGES_TITLE, FILES_TITLE, HELP_TEXT};
use herdr_agent_diff::style::{
    panel_style, Color, TextLine, TextStyle, PANEL_FOREGROUND, PANEL_SELECTION,
};
use ratatui::style::{Color as TermColor, Modifier, Style};
use ratatui::text::{Line, Span};
use ratatui::widgets::{
    Block, Borders, List, ListItem, ListState, Paragraph, Scrollbar, ScrollbarOrientation,
    ScrollbarState, Tabs, Wrap,
};
use ratatui::Frame;

fn area_of(area: ratatui::layout::Rect) -> Rect {
    Rect::new(area.x, area.y, area.width, area.height)
}

fn screen_area(area: Rect) -> ratatui::layout::Rect {
    ratatui::layout::Rect::new(area.x, area.y, area.width, area.height)
}

fn color(color: Color) -> TermColor {
    if let Some((red, green, blue)) = color.rgb() {
        return TermColor::Rgb(red, green, blue);
    }
    match color {
        Color::White => TermColor::White,
        Color::Cyan => TermColor::Cyan,
        Color::DarkGray => TermColor::DarkGray,
        Color::Green => TermColor::Green,
        Color::Magenta => TermColor::Magenta,
        Color::Red => TermColor::Red,
        Color::Yellow => TermColor::Yellow,
        Color::Indexed(index) => TermColor::Indexed(index),
        _ => TermColor::Reset,
    }
}

fn style(text: TextStyle) -> Style {
    let mut style = Style::default();
    if let Some(foreground) = text.foreground {
        style = style.fg(color(foreground));
    }
    if let Some(background) = text.background {
        style = style.bg(color(background));
    }
    if text.bold {
        style = style.add_modifier(Modifier::BOLD);
    }
    style
}

fn line(text: &TextLine) -> Line<'_> {
    let spans: Vec<Span<'_>> = text
        .spans
        .iter()
        .map(|span| Span::styled(span.text.as_str(), style(span.style)))
        .collect();
    Line::from(spans).style(style(text.style))
}

fn panel(title: &str) -> Block<'_> {
    Block::default()
        .title(title)
        .borders(Borders::ALL)
        .style(style(panel_style()))
        .border_style(Style::default().fg(TermColor::Cyan))
}

fn paint(frame: &mut Frame<'_>, scene: &Scene) {
    for element in &scene.elements {
        let area = screen_area(element.area);
        match &element.widget {
            Widget::Tabs { selected } => frame.render_widget(
                Tabs::new([CHANGES_TITLE, FILES_TITLE])
                    .select(*selected)
                    .highlight_style(
                        Style::default()
                            .fg(TermColor::Cyan)
                            .add_modifier(Modifier::BOLD),
                    ),
                area,
            ),
            Widget::Help => frame.render_widget(
                Paragraph::new(HELP_TEXT)
                    .block(Block::default().borders(Borders::ALL).title(" Help "))
                    .wrap(Wrap { trim: false }),
                area,
            ),
            Widget::Panel { title } => frame.render_widget(panel(title), area),
            Widget::List {
                title,
                items,
                offset,
                selected,
            } => {
                let rows: Vec<ListItem<'_>> =
                    items.iter().map(|item| ListItem::new(line(item))).collect();
                let list = List::new(rows)
                    .style(style(panel_style()))
                    .block(panel(title))
                    .highlight_style(
                        Style::default()
                            .fg(color(PANEL_FOREGROUND))
                            .bg(color(PANEL_SELECTION))
                            .add_modifier(Modifier::BOLD),
                    )
                    .highlight_symbol("");
                let mut state = ListState::default()
                    .with_offset(*offset)
                    .with_selected(*selected);
                frame.render_stateful_widget(list, area, &mut state);
            }
            Widget::Text {
                text,
                style: text_style,
                wrap,
            } => {
                let mut paragraph = Paragraph::new(text.as_str()).style(style(*text_style));
                if *wrap {
                    paragraph = paragraph.wrap(Wrap { trim: false });
                }
                frame.render_widget(paragraph, area);
            }
            Widget::Lines {
                lines,
                style: text_style,
                scroll_y,
                scroll_x,
            } => {
                let rows: Vec<Line<'_>> = lines.iter().map(line).collect();
                frame.render_widget(
                    Paragraph::new(rows)
                        .style(style(*text_style))
                        .scroll((*scroll_y, *scroll_x)),
                    area,
                );
            }
            Widget::Scrollbar {
                axis,
                content_length,
                position,
                viewport_length,
                thumb,
                track,
            } => {
                let bar = match axis {
                    Axis::Vertical => Scrollbar::new(ScrollbarOrientation::VerticalRight),
                    Axis::Horizontal => Scrollbar::new(ScrollbarOrientation::HorizontalBottom)
                        .thumb_symbol("▬")
                        .track_symbol(Some("─")),
                };
                let mut state = ScrollbarState::new(*content_length)
                    .position(*position)
                    .viewport_content_length(*viewport_length);
                frame.render_stateful_widget(
                    bar.thumb_style(Style::default().fg(color(*thumb)))
                        .track_style(Style::default().fg(color(*track))),
                    area,
                    &mut state,
                );
            }
        }
    }
    if let Some(cursor) = scene.cursor {
        frame.set_cursor_position(cursor);
    }
}

fn render(app: &mut App, width: u16, height: u16) -> String {
    let backend = TestBackend::new(width, height);
    let mut terminal = Terminal::new(backend).expect("terminal");
    terminal
        .draw(|frame| {
            let scene = app.draw(area_of(frame.area()));
            paint(frame, &scene);
        })
        .expect("draw");
    let buffer = terminal.backend().buffer();
    (0..buffer.area.height)
        .map(|y| {
            (0..buffer.area.width)
                .map(|x| buffer[(x, y)].symbol())
                .collect::<String>()
        })
        .collect::<Vec<_>>()
        .join("\n")
}

fn mouse(kind: MouseEventKind, column: u16, row: u16) -> MouseEvent {
    MouseEvent { kind, column, row }
}

fn press(code: KeyCode) -> KeyEvent {
    KeyEvent {
        code,
        control: false,
        command: false,
    }
}

fn file(path: &str) -> CurrentFile {
    CurrentFile {
        relative: path.as_bytes().to_vec(),
        absolute: path.as_bytes().to_vec(),
        size: 0,
        modified_unix_ns: None,
        text: TextEligibility::Text,
    }
}

fn change(path: &str, kind: ChangeKind) -> Change {
    Change {
        kind,
        path: path.as_bytes().to_vec(),
        old_path: None,
        baseline: None,
        current: None,
    }
}

#[test]
fn missing_baseline_keeps_files_tab_available() {
    let mut app = App::new(None, false, "w1:p1".into());
    app.apply_result(WorkResult::Scan(Box::new(ScanResult {
        generation: 1,
        baseline: None,
        capturing: false,
        files: Vec::new(),
        changes: Vec::new(),
        notices: Vec::new(),
        error: None,
    })));
    app.focus = Focus::Content;
    let changes = render(&mut app, 80, 18);
    assert!(changes.contains("Restart this agent"));
    app.tab = Tab::Files;
    let files = render(&mut app, 80, 18);
    assert!(files.contains("No readable files."));
}

#[test]
fn capture_in_progress_has_a_distinct_nonfatal_view() {
    let mut app = App::new(None, true, "w1:p1".into());
    app.loading = false;
    app.focus = Focus::Content;
    let output = render(&mut app, 80, 14);
    assert!(output.contains("Capturing baseline"));
}

#[test]
fn g_switches_changes_between_agent_and_git_modes() {
    let mut app = App::new(None, false, "w1:p1".into());
    app.loading = false;
    let mut tasks = TaskQueue::new(8);
    let mut newest = 1;

    app.handle_key(
        press(KeyCode::Char('g')),
        &mut newest,
        &mut tasks,
    );

    assert_eq!(app.changes_mode, ChangesMode::Git);
    assert_eq!(app.git_state, GitState::Loading);
    assert!(matches!(tasks.try_recv(), Some(Task::GitScan { .. })));
}

#[test]
fn scan_invalidates_in_flight_render_results() {
    let mut app = App::new(None, false, "w1:p1".into());
    app.render_generation = 7;
    app.apply_result(WorkResult::Scan(Box::new(ScanResult {
        generation: 1,
        baseline: None,
        capturing: false,
        files: Vec::new(),
        changes: Vec::new(),
        notices: Vec::new(),
        error: None,
    })));

    assert_eq!(app.render_generation, 8);
    app.apply_result(WorkResult::Diff {
        generation: 7,
        index: 0,
        lines: Vec::new(),
    });
    assert!(app.diff_cache.get(&0).is_none());
}

#[test]
fn refresh_invalidates_render_results_before_the_scan_finishes() {
    let mut app = App::new(None, false, "w1:p1".into());
    app.loading = false;
    app.render_generation = 7;
    let mut tasks = TaskQueue::new(8);
    let mut newest = 1;

    app.refresh(&mut newest, &mut tasks);

    assert_eq!(app.render_generation, 8);
    assert!(app.loading);
    app.apply_result(WorkResult::Diff {
        generation: 7,
        index: 0,
        lines: Vec::new(),
    });
    assert!(app.diff_cache.get(&0).is_none());
}

#[test]
fn refresh_does_not_queue_a_second_scan_while_one_is_in_flight() {
    let mut app = App::new(None, true, "w1:p1".into());
    let mut tasks = TaskQueue::new(8);
    let mut newest = 1;

    app.refresh(&mut newest, &mut tasks);

    assert!(tasks.try_recv().is_none());
    assert_eq!(app.generation, 1);
    assert!(app.loading);
}

#[test]
fn narrow_layout_switches_between_navigation_and_content() {
    let mut app = App::new(None, false, "w1:p1".into());
    app.loading = false;
    let navigation = render(&mut app, 42, 12);
    assert!(navigation.contains("Changes"));
    app.focus = Focus::Content;
    let content = render(&mut app, 42, 12);
    assert!(content.contains("No baseline exists."));
}

#[test]
fn changes_navigation_groups_files_and_keeps_file_clicks_mapped() {
    let mut app = App::new(None, false, "w1:p1".into());
    app.loading = false;
    app.changes = vec![
        change("src/core/types.ts", ChangeKind::Modified),
        change("src/core/config.ts", ChangeKind::Added),
        change("src/ui/App.tsx", ChangeKind::Modified),
    ];
    app.diff_cache.insert(
        0,
        vec![DiffLine {
            kind: DiffLineKind::Addition,
            text: "+added".into(),
            old_line: None,
            new_line: Some(1),
        }],
        6,
    );
    app.viewport = Rect::new(0, 0, 100, 20);

    let rows = app.navigation_rows();
    assert!(
        matches!(rows[0], NavigationRow::Group { ref label, .. } if label == "src/core/")
    );
    assert!(matches!(
        rows[1],
        NavigationRow::File { index: 0, .. }
    ));
    assert!(matches!(
        rows[2],
        NavigationRow::File { index: 1, .. }
    ));
    assert!(
        matches!(rows[3], NavigationRow::Group { ref label, .. } if label == "src/ui/")
    );
    assert!(matches!(
        rows[4],
        NavigationRow::File { index: 2, .. }
    ));

    let layout = app.ui_layout(app.viewport);
    let navigation = layout.navigation.expect("wide layout has navigation");
    assert!(matches!(
        app.navigation_row_at(navigation, navigation.x + 2, navigation.y + 3),
        Some(NavigationRow::File { index: 1, .. })
    ));
    let output = render(&mut app, 100, 20);
    assert!(output.contains("src/core/"));
    assert!(output.contains("+1 -0"));
}

#[test]
fn files_navigation_uses_the_same_grouped_tree_style() {
    let mut app = App::new(None, false, "w1:p1".into());
    app.loading = false;
    app.tab = Tab::Files;
    app.files = vec![file("src/app.rs"), file("src/lib.rs"), file("README.md")];
    app.diff_cache.insert(0, Vec::new(), 0);

    let rows = app.navigation_rows();
    assert!(
        matches!(rows[0], NavigationRow::Group { ref label, .. } if label == "src/")
    );
    assert!(matches!(
        rows[1],
        NavigationRow::File { index: 0, ref label, depth: 1 } if label == "app.rs"
    ));
    assert!(matches!(
        rows[2],
        NavigationRow::File { index: 1, ref label, depth: 1 } if label == "lib.rs"
    ));
    assert!(matches!(
        rows[3],
        NavigationRow::File { index: 2, ref label, depth: 0 } if label == "README.md"
    ));
    assert_eq!(app.navigation_stats(0), None);

    let output = render(&mut app, 100, 20);
    assert!(output.contains("▾ src/"));
    assert!(output.contains("app.rs"));
    assert!(!output.contains("src/app.rs"));
}

#[test]
fn clicking_a_folder_collapses_and_reopens_its_files() {
    let mut app = App::new(None, false, "w1:p1".into());
    app.loading = false;
    app.tab = Tab::Files;
    app.files = vec![file("README.md"), file("src/app.rs"), file("src/lib.rs")];
    app.viewport = Rect::new(0, 0, 100, 20);
    let mut tasks = TaskQueue::new(8);
    tasks.close();
    let navigation = app.ui_layout(app.viewport).navigation.expect("navigation");

    app.handle_mouse(
        mouse(
            MouseEventKind::LeftDown,
            navigation.x + 2,
            navigation.y + 2,
        ),
        &mut tasks,
    );
    assert_eq!(app.navigation_rows().len(), 2);
    assert!(matches!(
        app.navigation_rows()[1],
        NavigationRow::Group { ref label, .. } if label == "src/"
    ));

    app.handle_mouse(
        mouse(
            MouseEventKind::LeftDown,
            navigation.x + 2,
            navigation.y + 2,
        ),
        &mut tasks,
    );
    assert_eq!(app.navigation_rows().len(), 4);
}

#[test]
fn each_tab_preserves_filter_selection_and_scroll() {
    let mut app = App::new(None, false, "w1:p1".into());
    app.changes_state.filter = "src".into();
    app.changes_state.selected = 3;
    app.changes_state.scroll_y = 9;
    app.tab = Tab::Files;
    app.files_state.filter = "test".into();
    app.files_state.selected = 1;
    app.files_state.scroll_y = 4;
    app.tab = Tab::Changes;
    assert_eq!(app.active_state().filter, "src");
    assert_eq!(app.active_state().selected, 3);
    assert_eq!(app.active_state().scroll_y, 9);
    app.tab = Tab::Files;
    assert_eq!(app.active_state().filter, "test");
    assert_eq!(app.active_state().selected, 1);
    assert_eq!(app.active_state().scroll_y, 4);
}

#[test]
fn mouse_click_switches_tabs_and_selects_list_items() {
    let mut app = App::new(None, false, "w1:p1".into());
    app.loading = false;
    app.viewport = Rect::new(0, 0, 80, 18);
    app.files = (0..30)
        .map(|index| file(&format!("file{index}.rs")))
        .collect();
    let mut tasks = TaskQueue::new(8);
    tasks.close();

    app.handle_mouse(
        mouse(MouseEventKind::LeftDown, 16, 0),
        &mut tasks,
    );
    assert_eq!(app.tab, Tab::Files);
    assert_eq!(app.focus, Focus::Navigation);

    app.handle_mouse(
        mouse(MouseEventKind::LeftDown, 4, 3),
        &mut tasks,
    );
    assert_eq!(app.files_state.selected, 1);

    app.handle_mouse(mouse(MouseEventKind::ScrollDown, 4, 3), &mut tasks);
    assert_eq!(app.files_state.selected, 1);
    assert_eq!(app.files_state.list_scroll_y, 1);
    app.handle_mouse(mouse(MouseEventKind::ScrollUp, 4, 3), &mut tasks);
    assert_eq!(app.files_state.selected, 1);
    assert_eq!(app.files_state.list_scroll_y, 0);
}

#[test]
fn file_list_scrolls_without_changing_the_selected_file() {
    let mut app = App::new(None, false, "w1:p1".into());
    app.loading = false;
    app.files = (0..30)
        .map(|index| file(&format!("file{index}.rs")))
        .collect();
    app.tab = Tab::Files;
    app.files_state.selected = 0;
    app.files_state.list_scroll_y = 1;

    let output = render(&mut app, 80, 18);

    assert!(output.contains("file1.rs"));
    assert!(!output.contains("file0.rs"));
    assert_eq!(app.files_state.selected, 0);
}

#[test]
fn read_only_source_shows_a_vertical_scrollbar_when_needed() {
    let mut app = App::new(None, false, "w1:p1".into());
    app.loading = false;
    app.tab = Tab::Files;
    app.files = vec![file("main.rs")];
    app.source_cache.insert(
        0,
        (0..30)
            .map(|index| {
                vec![ColoredSpan {
                    text: format!("line {index}"),
                    foreground: Color::White,
                }]
            })
            .collect(),
        30,
    );

    let output = render(&mut app, 80, 18);

    assert!(output.contains('▲'));
    assert!(output.contains('▼'));
}

#[test]
fn selected_read_only_source_text_excludes_line_numbers() {
    let mut app = App::new(None, false, "w1:p1".into());
    app.loading = false;
    app.tab = Tab::Files;
    app.files = vec![file("main.rs")];
    app.source_cache.insert(
        0,
        vec![
            vec![ColoredSpan {
                text: "fn main() {".into(),
                foreground: Color::White,
            }],
            vec![ColoredSpan {
                text: "    println!(\"hi\");".into(),
                foreground: Color::White,
            }],
            vec![ColoredSpan {
                text: "}".into(),
                foreground: Color::White,
            }],
        ],
        32,
    );
    app.selection = Some(EditorSelection {
        tab: Tab::Files,
        anchor: EditorCursor {
            tab: Tab::Files,
            line: 0,
            column: 7,
        },
        active: EditorCursor {
            tab: Tab::Files,
            line: 2,
            column: 5,
        },
    });

    assert_eq!(
        app.selected_source_text().as_deref(),
        Some("main() {\n    println!(\"hi\");\n}")
    );
}

#[test]
fn dragging_past_source_text_clamps_to_the_line_end() {
    let mut app = App::new(None, false, "w1:p1".into());
    app.loading = false;
    app.tab = Tab::Files;
    app.files = vec![file("main.rs")];
    app.source_cache.insert(
        0,
        vec![vec![ColoredSpan {
            text: "abc".into(),
            foreground: Color::White,
        }]],
        3,
    );
    app.viewport = Rect::new(0, 0, 80, 18);
    let content = app.ui_layout(app.viewport).content.expect("content pane");
    let inner = screen_area(bordered_inner(content));
    let [source_area, _] = ratatui::layout::Layout::vertical([
        ratatui::layout::Constraint::Min(1),
        ratatui::layout::Constraint::Length(1),
    ])
    .areas(inner);

    assert_eq!(
        app.cursor_at_text(content, source_area.x.saturating_add(20), source_area.y,),
        Some(EditorCursor {
            tab: Tab::Files,
            line: 0,
            column: 7,
        })
    );
}

#[test]
fn mouse_click_places_editor_cursor_and_wheel_scrolls_content() {
    let mut app = App::new(None, false, "w1:p1".into());
    app.loading = false;
    app.tab = Tab::Files;
    app.focus = Focus::Content;
    app.viewport = Rect::new(0, 0, 80, 18);
    app.files = vec![file("main.rs"), file("lib.rs"), file("tests.rs")];
    app.source_cache.insert(
        0,
        vec![
            vec![ColoredSpan {
                text: "fn main() {}".into(),
                foreground: Color::White,
            }],
            vec![ColoredSpan {
                text: "fn main() {}".into(),
                foreground: Color::White,
            }],
        ],
        24,
    );
    let mut tasks = TaskQueue::new(8);
    tasks.close();

    app.handle_mouse(
        mouse(MouseEventKind::LeftDown, 35, 3),
        &mut tasks,
    );
    assert_eq!(app.files_state.selected, 0);
    assert_eq!(
        app.cursor,
        Some(EditorCursor {
            tab: Tab::Files,
            line: 1,
            column: 5,
        })
    );
    app.handle_mouse(mouse(MouseEventKind::Moved, 40, 3), &mut tasks);
    assert_eq!(
        app.cursor,
        Some(EditorCursor {
            tab: Tab::Files,
            line: 1,
            column: 5,
        })
    );

    app.handle_mouse(
        mouse(MouseEventKind::LeftDrag, 40, 3),
        &mut tasks,
    );
    app.handle_mouse(
        mouse(MouseEventKind::LeftUp, 40, 3),
        &mut tasks,
    );
    assert_eq!(
        app.selection,
        Some(EditorSelection {
            tab: Tab::Files,
            anchor: EditorCursor {
                tab: Tab::Files,
                line: 1,
                column: 5,
            },
            active: EditorCursor {
                tab: Tab::Files,
                line: 1,
                column: 10,
            },
        })
    );
    assert_eq!(
        app.selection_bounds()
            .map(|(start, end)| (start.column, end.column)),
        Some((5, 10))
    );

    app.handle_mouse(
        mouse(MouseEventKind::LeftDown, 30, 3),
        &mut tasks,
    );
    assert_eq!(app.cursor, None);
    assert_eq!(app.selection, None);

    app.handle_mouse(mouse(MouseEventKind::ScrollDown, 35, 3), &mut tasks);
    assert_eq!(app.files_state.scroll_y, 3);
}

#[test]
fn diff_scrollbars_drag_both_axes() {
    let mut app = App::new(None, false, "w1:p1".into());
    app.loading = false;
    app.focus = Focus::Content;
    app.viewport = Rect::new(0, 0, 100, 20);
    app.changes = vec![change("src/main.rs", ChangeKind::Modified)];
    let mut lines = (0..80)
        .map(|line| DiffLine {
            kind: DiffLineKind::Context,
            text: format!(" line {line}"),
            old_line: Some(line + 1),
            new_line: Some(line + 1),
        })
        .collect::<Vec<_>>();
    lines.push(DiffLine {
        kind: DiffLineKind::Addition,
        text: format!("+{}", "x".repeat(180)),
        old_line: None,
        new_line: Some(81),
    });
    app.diff_cache.insert(0, lines, 10_000);

    let mut tasks = TaskQueue::new(8);
    tasks.close();
    let content = app
        .ui_layout(app.viewport)
        .content
        .expect("wide layout has content");
    let metrics = app
        .content_scrollbar_metrics(content, 0)
        .expect("diff metrics");
    let vertical = metrics.vertical.expect("vertical scrollbar");
    let vertical_thumb = vertical
        .track_start
        .saturating_add(saturating_u16(vertical.thumb_start));
    app.handle_mouse(
        mouse(
            MouseEventKind::LeftDown,
            vertical.bar.x,
            vertical_thumb,
        ),
        &mut tasks,
    );
    app.handle_mouse(
        mouse(
            MouseEventKind::LeftDrag,
            vertical.bar.x,
            vertical.track_start.saturating_add(saturating_u16(
                vertical.track_length.saturating_sub(vertical.thumb_length),
            )),
        ),
        &mut tasks,
    );
    assert_eq!(app.changes_state.scroll_y, vertical.max_scroll);
    app.handle_mouse(
        mouse(
            MouseEventKind::LeftUp,
            vertical.bar.x,
            vertical_thumb,
        ),
        &mut tasks,
    );

    let horizontal = metrics.horizontal.expect("horizontal scrollbar");
    assert!(horizontal.thumb_length.saturating_mul(2) < horizontal.track_length);
    let horizontal_thumb = horizontal
        .track_start
        .saturating_add(saturating_u16(horizontal.thumb_start));
    app.handle_mouse(
        mouse(
            MouseEventKind::LeftDown,
            horizontal_thumb,
            horizontal.bar.y,
        ),
        &mut tasks,
    );
    app.handle_mouse(
        mouse(
            MouseEventKind::LeftDrag,
            horizontal.track_start.saturating_add(saturating_u16(
                horizontal
                    .track_length
                    .saturating_sub(horizontal.thumb_length),
            )),
            horizontal.bar.y,
        ),
        &mut tasks,
    );
    assert_eq!(app.changes_state.scroll_x, horizontal.max_scroll);
    app.handle_mouse(
        mouse(
            MouseEventKind::LeftUp,
            horizontal_thumb,
            horizontal.bar.y,
        ),
        &mut tasks,
    );
    assert_eq!(app.scrollbar_drag, None);
}

#[test]
fn source_scrollbars_drag_both_axes() {
    let mut app = App::new(None, false, "w1:p1".into());
    app.loading = false;
    app.focus = Focus::Content;
    app.tab = Tab::Files;
    app.viewport = Rect::new(0, 0, 100, 20);
    app.files = vec![file("src/main.rs")];
    app.source_cache.insert(
        0,
        (0..80)
            .map(|line| {
                vec![ColoredSpan {
                    text: format!("fn line_{line}() {{ {} }}", "x".repeat(170)),
                    foreground: Color::White,
                }]
            })
            .collect(),
        20_000,
    );
    let output = render(&mut app, 100, 20);
    assert!(output.contains('◄'));

    let mut tasks = TaskQueue::new(8);
    tasks.close();
    let content = app
        .ui_layout(app.viewport)
        .content
        .expect("wide layout has content");
    let metrics = app
        .content_scrollbar_metrics(content, 0)
        .expect("source metrics");
    let vertical = metrics.vertical.expect("vertical scrollbar");
    let vertical_thumb = vertical
        .track_start
        .saturating_add(saturating_u16(vertical.thumb_start));
    app.handle_mouse(
        mouse(
            MouseEventKind::LeftDown,
            vertical.bar.x,
            vertical_thumb,
        ),
        &mut tasks,
    );
    app.handle_mouse(
        mouse(
            MouseEventKind::LeftDrag,
            vertical.bar.x,
            vertical.track_start.saturating_add(saturating_u16(
                vertical.track_length.saturating_sub(vertical.thumb_length),
            )),
        ),
        &mut tasks,
    );
    assert_eq!(app.files_state.scroll_y, vertical.max_scroll);
    app.handle_mouse(
        mouse(
            MouseEventKind::LeftUp,
            vertical.bar.x,
            vertical_thumb,
        ),
        &mut tasks,
    );

    let horizontal = metrics.horizontal.expect("horizontal scrollbar");
    assert!(horizontal.thumb_length.saturating_mul(2) < horizontal.track_length);
    let horizontal_thumb = horizontal
        .track_start
        .saturating_add(saturating_u16(horizontal.thumb_start));
    app.handle_mouse(
        mouse(
            MouseEventKind::LeftDown,
            horizontal_thumb,
            horizontal.bar.y,
        ),
        &mut tasks,
    );
    app.handle_mouse(
        mouse(
            MouseEventKind::LeftDrag,
            horizontal.track_start.saturating_add(saturating_u16(
                horizontal
                    .track_length
                    .saturating_sub(horizontal.thumb_length),
            )),
            horizontal.bar.y,
        ),
        &mut tasks,
    );
    assert_eq!(app.files_state.scroll_x, horizontal.max_scroll);
    app.handle_mouse(
        mouse(
            MouseEventKind::LeftUp,
            horizontal_thumb,
            horizontal.bar.y,
        ),
        &mut tasks,
    );
    assert_eq!(app.scrollbar_drag, None);
}

#[test]
fn retained_byte_cache_evicts_old_entries() {
    let mut cache = Cache::new();
    cache.insert(1, "old", CACHE_LIMIT);
    cache.insert(2, "new", 1);
    assert!(cache.get(&1).is_none());
    assert_eq!(cache.get(&2), Some(&"new"));
}

#[test]
fn rust_source_is_syntax_highlighted_with_line_content() {
    let main = file("main.rs");
    let source = b"fn main() { println!(\"hi\"); }\n".to_vec();
    assert!(matches!(
        highlight_file(&main, &None, &None, true),
        HighlightStep::Read
    ));
    assert!(matches!(
        highlight_file(&main, &Some(Ok(source.clone())), &None, true),
        HighlightStep::FindSyntax
    ));
    let syntaxes = syntect::parsing::SyntaxSet::load_defaults_newlines();
    let syntax = syntaxes.find_syntax_by_extension("rs").expect("syntax");
    let step = highlight_file(&main, &Some(Ok(source)), &Some(syntax.name.clone()), true);
    let (lines, notice) = match step {
        HighlightStep::Finished(lines, notice) => (lines, notice),
        other => panic!("{other:?}"),
    };
    assert!(notice.is_none());
    assert_eq!(lines.len(), 1);
    assert!(lines[0].iter().any(|span| span.text.contains("fn")));
    assert!(lines[0].iter().any(|span| span.text.contains("main")));
    assert!(lines[0].iter().any(|span| span.foreground == Color::White));
    assert!(lines[0].iter().any(|span| span.foreground != Color::White));
    let shown: String = lines[0].iter().map(|span| span.text.as_str()).collect();
    assert_eq!(shown, "fn main() { println!(\"hi\"); }");
}

#[test]
fn syntax_colors_are_brightened_without_changing_background() {
    assert_eq!(brighten_code_component(100), 125);
    assert_eq!(brighten_code_component(255), 255);
}
