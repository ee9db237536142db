//! The interactive interface.

use rewind::diff::{ChangeStatus, FileChange};
use rewind::investigate::{Investigation, LikelyCause};
use rewind::models::{Event, Restore, Snapshot, TestRun};
use rewind::objects::Loaded;
use rewind::restore::{RestorePlan, RestoreStats};
use rewind::tui::app::{handle_key, handle_paste, Action, App, Focus, Mode, Overlay};
use rewind::tui::capture::{
    captured_command, captured_event, command_log, screen_size, setup_integration, snapshot_after,
    Hook, BASH_SCRIPT, ZSH_SCRIPT,
};
use rewind::tui::detail::{
    detail_for_command, detail_for_snapshot, detail_for_test, DetailRequest,
};
use rewind::tui::keys::{key_to_bytes, Key, KeyPress};
use rewind::tui::ui::{
    centered, confirm_lines, cursor_at, found_lines, glyph_for, header, help_lines, inner, layout,
    shell_border, status_line, style_for, timeline, timeline_border, Area, Tint,
};

fn key(key: Key) -> KeyPress {
    KeyPress { key, ctrl: false, alt: false }
}

fn ctrl(c: char) -> KeyPress {
    KeyPress { key: Key::Char(c), ctrl: true, alt: false }
}

fn press(app: &mut App, k: Key) -> Action {
    handle_key(app, &key(k), true)
}

fn event(id: i64, kind: &str, ref_id: Option<i64>, summary: &str) -> Event {
    Event { id, kind: kind.to_string(), ref_id, summary: summary.to_string(), created_at: 0 }
}

/// An interface in navigation mode with three events.
fn nav() -> App {
    let mut app = App::new("repo".to_string());
    app.refresh(
        vec![
            event(3, "test", Some(1), "test passed"),
            event(2, "snapshot", Some(7), "snapshot"),
            event(1, "session_start", None, "started"),
        ],
        None,
    );
    handle_key(&mut app, &ctrl('g'), true);
    app
}

fn plan(path: &str) -> RestorePlan {
    RestorePlan {
        snapshot_id: 7,
        create: Vec::new(),
        overwrite: Vec::new(),
        delete: vec![path.to_string()],
    }
}

fn run(passed: Option<bool>) -> TestRun {
    TestRun {
        id: 1,
        repo_id: 1,
        command: "t".to_string(),
        exit_code: Some(1),
        passed,
        cancelled: false,
        duration_ms: Some(20),
        started_at: 0,
        finished_at: Some(1),
        pre_snapshot_id: None,
        post_snapshot_id: None,
        log_object: None,
    }
}

#[test]
fn plain_char_maps_to_utf8() {
    assert_eq!(key_to_bytes(&key(Key::Char('a'))), Some(vec![b'a']));
    assert_eq!(key_to_bytes(&key(Key::Char('é'))), Some("é".as_bytes().to_vec()));
}

#[test]
fn ctrl_c_maps_to_etx() {
    assert_eq!(key_to_bytes(&ctrl('c')), Some(vec![3]));
    assert_eq!(key_to_bytes(&ctrl('Z')), Some(vec![26]));
    assert_eq!(key_to_bytes(&ctrl(' ')), Some(vec![0]));
    assert_eq!(key_to_bytes(&ctrl('_')), Some(vec![31]));
    assert_eq!(key_to_bytes(&ctrl('1')), None);
}

#[test]
fn arrows_map_to_csi() {
    assert_eq!(key_to_bytes(&key(Key::Up)), Some(b"\x1b[A".to_vec()));
    assert_eq!(key_to_bytes(&key(Key::Left)), Some(b"\x1b[D".to_vec()));
}

#[test]
fn alt_prefixes_escape() {
    let k = KeyPress { key: Key::Char('b'), ctrl: false, alt: true };
    assert_eq!(key_to_bytes(&k), Some(vec![0x1b, b'b']));
}

#[test]
fn enter_and_backspace() {
    assert_eq!(key_to_bytes(&key(Key::Enter)), Some(vec![b'\r']));
    assert_eq!(key_to_bytes(&key(Key::Backspace)), Some(vec![0x7f]));
}

#[test]
fn other_keys() {
    for (k, want) in [
        (Key::Tab, &b"\t"[..]),
        (Key::BackTab, b"\x1b[Z"),
        (Key::Esc, b"\x1b"),
        (Key::Right, b"\x1b[C"),
        (Key::Down, b"\x1b[B"),
        (Key::Home, b"\x1b[H"),
        (Key::End, b"\x1b[F"),
        (Key::PageUp, b"\x1b[5~"),
        (Key::PageDown, b"\x1b[6~"),
        (Key::Delete, b"\x1b[3~"),
        (Key::Insert, b"\x1b[2~"),
        (Key::Function(1), b"\x1bOP"),
        (Key::Function(4), b"\x1bOS"),
        (Key::Function(5), b"\x1b[15~"),
        (Key::Function(11), b"\x1b[23~"),
        (Key::Function(12), b"\x1b[24~"),
    ] {
        assert_eq!(key_to_bytes(&key(k)), Some(want.to_vec()), "{k:?}");
    }
    assert_eq!(key_to_bytes(&key(Key::Function(13))), None);
    assert_eq!(key_to_bytes(&key(Key::Other)), None);
}

#[test]
fn ctrl_g_toggles_the_mode() {
    let mut app = App::new("r".to_string());
    assert_eq!(app.mode, Mode::Shell);
    assert_eq!(handle_key(&mut app, &ctrl('g'), true), Action::Nothing);
    assert_eq!(app.mode, Mode::Nav);
    handle_key(&mut app, &ctrl('g'), true);
    assert_eq!(app.mode, Mode::Shell);
}

#[test]
fn keys_go_to_the_shell() {
    let mut app = App::new("r".to_string());
    assert_eq!(press(&mut app, Key::Char('q')), Action::Send(vec![b'q']));
    assert!(!app.should_quit);
    assert_eq!(press(&mut app, Key::Other), Action::Nothing);
    assert_eq!(handle_paste(&mut app, "é"), Action::Send("é".as_bytes().to_vec()));
}

#[test]
fn selection_moves_among_the_events() {
    let mut app = nav();
    assert_eq!(press(&mut app, Key::Char('j')), Action::ShowDetail);
    assert_eq!(app.selected, 1);
    press(&mut app, Key::Down);
    press(&mut app, Key::Down);
    assert_eq!(app.selected, 2);
    press(&mut app, Key::Char('k'));
    assert_eq!(app.selected, 1);
    press(&mut app, Key::Char('g'));
    press(&mut app, Key::Up);
    assert_eq!(app.selected, 0);
    press(&mut app, Key::Char('G'));
    assert_eq!(app.selected, 2);
    app.refresh(vec![event(1, "test", None, "x")], Some(&run(Some(false))));
    assert_eq!(app.selected, 0);
    assert_eq!(app.last_test_status, "failed");
    app.refresh(Vec::new(), Some(&run(None)));
    assert_eq!(app.last_test_status, "incomplete");
    assert!(app.selected_event().is_none());
    press(&mut app, Key::Char('G'));
    assert_eq!(app.selected, 0);
}

#[test]
fn detail_scrolls_when_it_has_the_focus() {
    let mut app = nav();
    press(&mut app, Key::Tab);
    assert_eq!(app.focus, Focus::Detail);
    assert_eq!(press(&mut app, Key::Char('j')), Action::Nothing);
    assert_eq!((app.detail.scroll, app.selected), (1, 0));
    press(&mut app, Key::Up);
    press(&mut app, Key::Up);
    assert_eq!(app.detail.scroll, 0);
    press(&mut app, Key::Tab);
    assert_eq!(app.focus, Focus::Timeline);
    assert_eq!(press(&mut app, Key::Enter), Action::ShowDetail);
    assert_eq!(app.focus, Focus::Detail);
}

#[test]
fn restore_waits_for_confirmation() {
    let mut app = nav();
    // A test run cannot be restored.
    assert_eq!(press(&mut app, Key::Char('r')), Action::Nothing);
    assert!(app.status.starts_with("Select a snapshot"));
    press(&mut app, Key::Char('j'));
    assert_eq!(press(&mut app, Key::Char('r')), Action::PlanRestore(7));
    assert!(app.begin_restore_selected(7, plan("a")));
    assert_eq!(app.overlay, Overlay::ConfirmRestore);
    assert_eq!(press(&mut app, Key::Char('n')), Action::Nothing);
    assert_eq!(app.status, "Restore cancelled.");
    assert!(app.pending_restore.is_none());
    assert!(app.begin_restore_selected(7, plan("a")));
    assert_eq!(press(&mut app, Key::Char('Y')), Action::Restore(7, plan("a")));
    assert!(app.pending_restore.is_none());
    assert_eq!(app.overlay, Overlay::Closed);
    app.confirm_restore(7, &RestoreStats { written: 0, deleted: 1 });
    assert_eq!(app.status, "Restored snapshot #7: 0 written, 1 deleted. `u`ndo available.");
    let mut empty = plan("a");
    empty.delete.clear();
    assert!(!app.begin_restore_selected(7, empty));
    assert_eq!(app.status, "Working tree already matches that snapshot.");
}

#[test]
fn search_follows_the_typing() {
    let mut app = nav();
    press(&mut app, Key::Char('/'));
    assert_eq!(app.overlay, Overlay::Search);
    assert_eq!(press(&mut app, Key::Char(' ')), Action::Nothing);
    assert_eq!(press(&mut app, Key::Char('q')), Action::Search("q".to_string()));
    assert_eq!(handle_paste(&mut app, "ue"), Action::Search("que".to_string()));
    assert_eq!(press(&mut app, Key::Backspace), Action::Search("qu".to_string()));
    assert_eq!(press(&mut app, Key::Enter), Action::Search("qu".to_string()));
    app.found(vec![event(1, "test", None, "que")]);
    assert_eq!(found_lines(&app.search_results)[0].text, "00:00:00 ✓ que");
    assert_eq!(press(&mut app, Key::Left), Action::Nothing);
    assert_eq!(app.overlay, Overlay::Search);
    press(&mut app, Key::Esc);
    assert_eq!(app.overlay, Overlay::Closed);
    assert!(app.search_input.is_empty() && app.search_results.is_empty());
    assert_eq!(found_lines(&app.search_results)[0].tint, Tint::Gray);
}

#[test]
fn help_and_messages() {
    let mut app = nav();
    press(&mut app, Key::Char('?'));
    assert_eq!(app.overlay, Overlay::Help);
    press(&mut app, Key::Char('x'));
    assert_eq!(app.overlay, Overlay::Help);
    press(&mut app, Key::Char('q'));
    assert_eq!(app.overlay, Overlay::Closed);
    assert!(!app.should_quit);
    assert_eq!(handle_key(&mut app, &key(Key::Char('t')), false), Action::Nothing);
    assert!(matches!(app.overlay, Overlay::Message(_)));
    press(&mut app, Key::Char('x'));
    assert_eq!(app.overlay, Overlay::Closed);
    assert_eq!(press(&mut app, Key::Char('t')), Action::Test);
    app.tested(true, 20);
    assert_eq!(app.status, "test passed in 20ms");
    assert_eq!(press(&mut app, Key::Char('c')), Action::Checkpoint);
    assert_eq!(press(&mut app, Key::Char('u')), Action::Undo);
    app.undo_last_restore(None);
    assert_eq!(app.status, "No restore to undo.");
    let record = Restore {
        id: 3,
        source_snapshot_id: 1,
        safety_snapshot_id: 2,
        scope: "full".to_string(),
        files_written: 0,
        files_deleted: 0,
        undone: false,
        created_at: 0,
    };
    app.undo_last_restore(Some((&record, &RestoreStats { written: 2, deleted: 0 })));
    assert_eq!(app.status, "Undid restore #3: 2 written, 0 deleted.");
    press(&mut app, Key::Char('q'));
    assert!(app.should_quit);
    assert_eq!(help_lines()[16].0, "  q            quit Rewind");
}

#[test]
fn details_of_events() {
    let mut app = nav();
    assert_eq!(app.recompute_detail(), DetailRequest::Test(1));
    app.select_next();
    assert_eq!(app.recompute_detail(), DetailRequest::Snapshot(7));
    app.select_last();
    match app.recompute_detail() {
        DetailRequest::Ready(d) => {
            assert_eq!(d.title, "Session start");
            assert_eq!(d.lines, vec!["started"]);
            app.show_detail(d);
        }
        _ => panic!("not ready"),
    }
    assert_eq!(app.detail.title, "Session start");
    app.refresh(vec![event(1, "investigation", None, "a; b ;c")], None);
    match app.recompute_detail() {
        DetailRequest::Ready(d) => assert_eq!(d.lines, vec!["a", "b", "c"]),
        _ => panic!("not ready"),
    }
    app.refresh(vec![event(1, "command", Some(4), "$ x")], None);
    assert_eq!(
        app.recompute_detail(),
        DetailRequest::Command { id: 4, summary: "$ x".to_string() }
    );
    app.refresh(Vec::new(), None);
    match app.recompute_detail() {
        DetailRequest::Ready(d) => assert!(d.lines[0].starts_with("No events yet")),
        _ => panic!("not ready"),
    }
}

#[test]
fn detail_of_a_command() {
    let output: String = (0..50).map(|i| format!("l{i}\n")).collect();
    let d = detail_for_command("$ x", Some(&output.into_bytes()));
    assert_eq!(d.lines[..4], ["$ x", "", "output:", "  l10"]);
    assert_eq!(d.lines.len(), 43);
    assert_eq!(detail_for_command("$ x", None).lines, vec!["$ x", ""]);
}

#[test]
fn detail_of_a_snapshot() {
    let mut snap = Snapshot {
        id: 7,
        repo_id: 1,
        session_id: None,
        parent_id: Some(6),
        kind: "manual".to_string(),
        label: "l".to_string(),
        created_at: 0,
        git_branch: Some("main".to_string()),
        git_head: None,
        git_dirty: false,
        file_count: 2,
        total_bytes: 3,
    };
    let mut o = Loaded::new();
    o.insert("h".to_string(), b"one\n".to_vec());
    let changes = vec![FileChange {
        path: "a".to_string(),
        status: ChangeStatus::Added,
        old_hash: None,
        new_hash: Some("h".to_string()),
        old_size: 0,
        new_size: 4,
    }];
    assert_eq!(
        detail_for_snapshot(Some(&snap), &o, &changes).lines,
        vec![
            "snapshot #7  (manual)",
            "label:  l",
            "files:  2",
            "time:   1970-01-01T00:00:00Z",
            "branch: main",
            "",
            "changes vs snapshot #6:",
            "  A a (+1 -0)",
            "",
            "Press `r` to restore this snapshot.",
        ]
    );
    assert_eq!(detail_for_snapshot(Some(&snap), &o, &Vec::new()).lines[7], "  (no changes)");
    snap.parent_id = None;
    snap.git_branch = None;
    assert_eq!(detail_for_snapshot(Some(&snap), &o, &changes).lines.len(), 6);
    assert_eq!(detail_for_snapshot(None, &o, &changes).lines, vec!["(snapshot not found)"]);
}

#[test]
fn detail_of_a_test_run() {
    let d = detail_for_test(Some(&run(Some(true))), None);
    assert_eq!(d.lines, vec!["command: t", "result:  passed", "exit:    1", "time:    20ms"]);
    let d = detail_for_test(Some(&run(Some(false))), None);
    assert_eq!(d.lines[6], "  no prior passing run to compare against");
    let inv = Investigation {
        failing_test_run_id: 1,
        passing_test_run_id: None,
        summary: String::new(),
        causes: vec![LikelyCause {
            path: "a".to_string(),
            score: 3,
            status: ChangeStatus::Modified,
            evidence: vec!["e".to_string()],
            changed_lines: (1..9).collect(),
            relevant_output: Vec::new(),
            dependency_changes: Vec::new(),
        }],
        dependency_changes: Vec::new(),
        failing_output_excerpt: "x\ny".to_string(),
        related_command: None,
    };
    let d = detail_for_test(Some(&run(Some(false))), Some(&inv));
    assert_eq!(d.lines[6], "  1. a — relevance 3");
    assert_eq!(d.lines[7], "       - e");
    assert_eq!(d.lines[13], "       changed line 6");
    assert_eq!(d.lines[14..], ["", "Failing output (tail):", "  x", "  y"]);
    let mut negative = run(Some(true));
    negative.duration_ms = Some(-1);
    let told = detail_for_test(Some(&negative), None).lines[3].clone();
    let ms = u64::MAX;
    assert_eq!(told, format!("time:    {}", rewind::util::format_duration_ms(ms)));
    assert_eq!(detail_for_test(None, None).lines, vec!["(test run not found)"]);
}

#[test]
fn header_and_status_line() {
    let mut app = nav();
    let text = |v: &Vec<rewind::tui::ui::Piece>| -> String {
        v.iter().map(|p| p.text.as_str()).collect()
    };
    assert_eq!(text(&header(&app)), " Rewind ─ repo ─ recording ─ last test: none");
    app.mark_dirty(vec!["a".to_string(), "b".to_string(), "a".to_string()]);
    assert!(text(&header(&app)).ends_with(" ─ 2 changed"));
    app.all_clean();
    assert!(app.dirty.is_empty());
    let line = status_line(&app, 34);
    assert_eq!(line[0].text, " NAV ");
    assert_eq!(line[2].text, "Navigatio…");
    app.mode = Mode::Shell;
    assert_eq!(status_line(&app, 10)[2].text, "");
}

#[test]
fn timeline_rows_and_borders() {
    let mut app = nav();
    let rows = timeline(&app);
    assert_eq!(rows[0].text, "00:00:00 ✓ test passed");
    assert_eq!(rows[0].tint, Tint::Green);
    assert_eq!(rows[2].text, "00:00:00 ▶ started");
    assert_eq!(timeline_border(&app), Tint::Cyan);
    app.mode = Mode::Shell;
    assert_eq!(timeline_border(&app), Tint::Gray);
    app.shell_alive = false;
    assert_eq!(shell_border(&app), (Tint::Green, " Embedded Shell (exited) "));
    for (kind, glyph) in [
        ("session_end", "■"),
        ("command", "$"),
        ("snapshot", "◆"),
        ("checkpoint", "⚑"),
        ("restore", "↺"),
        ("investigation", "?"),
        ("other", "·"),
    ] {
        assert_eq!(glyph_for(kind), glyph);
    }
    assert_eq!(style_for("restore"), Tint::Magenta);
}

#[test]
fn panels_share_the_screen() {
    let p = layout(Area { x: 0, y: 0, width: 120, height: 40 });
    assert_eq!(p.header, Area { x: 0, y: 0, width: 120, height: 1 });
    assert_eq!(p.status, Area { x: 0, y: 39, width: 120, height: 1 });
    assert_eq!(p.timeline, Area { x: 0, y: 1, width: 30, height: 38 });
    assert_eq!(p.shell, Area { x: 30, y: 1, width: 48, height: 38 });
    assert_eq!(p.detail, Area { x: 78, y: 1, width: 42, height: 38 });
    assert_eq!(p.shell_inner, inner(p.shell));
    assert_eq!(p.shell_inner, Area { x: 31, y: 2, width: 46, height: 36 });
    let tiny = layout(Area { x: 0, y: 0, width: 0, height: 0 });
    assert_eq!(tiny.header.width, 0);
    let narrow = layout(Area { x: 0, y: 0, width: 80, height: 4 });
    assert_eq!((narrow.shell.width, narrow.shell.height), (30, 3));
    let least = layout(Area { x: 3, y: 2, width: 102, height: 5 });
    assert_eq!(least.header, Area { x: 3, y: 2, width: 102, height: 1 });
    assert_eq!(least.shell, Area { x: 33, y: 3, width: 30, height: 3 });
    assert_eq!(least.detail, Area { x: 63, y: 3, width: 42, height: 3 });
    assert_eq!(least.status, Area { x: 3, y: 6, width: 102, height: 1 });
}

#[test]
fn panels_fill_every_screen() {
    let ends =
        [0u16, 1, 2, 3, 4, 5, 29, 30, 31, 45, 59, 60, 61, 71, 72, 73, 80, 101, 102, 500, u16::MAX];
    for width in ends {
        for height in ends {
            for from in [0u16, 7, u16::MAX - 40, u16::MAX] {
                let area = Area { x: from, y: from, width, height };
                let p = layout(area);
                let right = from.saturating_add(width);
                let bottom = from.saturating_add(height);
                assert_eq!(p.header.y, from);
                assert_eq!(p.timeline.y, p.header.y + p.header.height);
                assert_eq!(p.status.y, p.timeline.y + p.timeline.height);
                assert_eq!(p.status.y + p.status.height, bottom);
                assert_eq!(p.timeline.x, from);
                assert_eq!(p.shell.x, p.timeline.x + p.timeline.width);
                assert_eq!(p.detail.x, p.shell.x + p.shell.width);
                assert_eq!(p.detail.x + p.detail.width, right);
                assert_eq!((p.header.x, p.header.width), (from, width));
                assert_eq!((p.status.x, p.status.width), (from, width));
                let middle = |room: u16, first: u16, middle: u16, last: u16| -> u16 {
                    if room <= middle {
                        room
                    } else if room <= first + middle + last {
                        middle
                    } else {
                        room - first - last
                    }
                };
                assert_eq!(p.shell.height, middle(bottom - from, 1, 3, 1));
                assert_eq!(p.shell.width, middle(right - from, 30, 30, 42));
                assert!(p.header.height <= 1 && p.status.height <= 1);
                assert!(p.timeline.width <= 30 && p.detail.width <= 42);
                if bottom - from >= 5 {
                    assert_eq!((p.header.height, p.status.height), (1, 1));
                }
                if right - from >= 102 {
                    assert_eq!((p.timeline.width, p.detail.width), (30, 42));
                }
            }
        }
    }
}

#[test]
fn areas_inside_others() {
    let a = Area { x: 10, y: 20, width: 100, height: 11 };
    assert_eq!(centered(a, 60, 7), Area { x: 30, y: 22, width: 60, height: 7 });
    assert_eq!(centered(a, 600, 70), a);
    let edge = Area { x: u16::MAX, y: 0, width: 1, height: 2 };
    assert_eq!(inner(edge), Area { x: u16::MAX, y: 1, width: 0, height: 0 });
}

#[test]
fn cursor_stands_in_the_shell() {
    let mut app = App::new("r".to_string());
    let shell = Area { x: 5, y: 6, width: 10, height: 4 };
    assert_eq!(cursor_at(&app, shell, false, 3, 9), Some((14, 9)));
    assert_eq!(cursor_at(&app, shell, false, 4, 0), None);
    assert_eq!(cursor_at(&app, shell, true, 0, 0), None);
    app.overlay = Overlay::Help;
    assert_eq!(cursor_at(&app, shell, false, 0, 0), None);
}

#[test]
fn confirmation_shows_some_files() {
    let mut p = plan("x");
    p.delete = (0..6).map(|i| format!("f{i}")).collect();
    assert_eq!(
        confirm_lines(7, &p),
        vec![
            "Snapshot #7",
            "  0 to write, 6 to delete",
            "",
            "  - f0",
            "  - f1",
            "  - f2",
            "  - f3",
            "",
        ]
    );
}

#[test]
fn commands_are_captured() {
    assert_eq!(captured_command(" ls -l\r\n"), Some("ls -l".to_string()));
    assert_eq!(captured_command(" \n"), None);
    assert_eq!(snapshot_after("ls").label, "after `ls`");
    assert_eq!(snapshot_after("ls").kind, "post_command");
    assert_eq!(captured_event("ls").summary, "$ ls");
    assert_eq!(command_log("/logs", 42), "/logs/commands-42.log");
    assert_eq!(
        setup_integration("/bin/bash", "/logs"),
        Hook::Bash { script_path: "/logs/rewind-init.bash".to_string() }
    );
    assert_eq!(
        setup_integration("zsh", "/logs"),
        Hook::Zsh { script_path: "/logs/.zshrc".to_string() }
    );
    assert_eq!(setup_integration("/usr/bin/fish", "/logs"), Hook::Absent);
    assert!(BASH_SCRIPT.contains("printf '%s\\n' \"$BASH_COMMAND\" >> \"$REWIND_CMD_LOG\""));
    assert!(ZSH_SCRIPT.contains("add-zsh-hook preexec __rewind_preexec\n"));
    assert_eq!(screen_size(0, 80), (1, 80));
    assert_eq!(screen_size(24, 0), (24, 1));
}
