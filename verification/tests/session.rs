use sapf_as_plain_text::app::{
    completed_text, export_file_name, record_command, AppState, Buffer, SapfAsPlainText,
};
use sapf_as_plain_text::bridge::{
    after_poll, after_read, after_write, append_output, reader_step, send_line, BridgeState,
    ReadOutcome, ReaderStep, SendDecision,
};
use sapf_as_plain_text::completions_and_hints::CategoryData;
use sapf_as_plain_text::lines::{current_logical_line, text_lines};

fn table() -> Vec<(String, CategoryData)> {
    vec![(
        "osc".to_string(),
        CategoryData {
            description: "oscillators".to_string(),
            items: vec![
                ("sine".to_string(), "sine generator".to_string()),
                ("saw".to_string(), "sawtooth".to_string()),
            ],
        },
    )]
}

fn session_with(content: &str, cursor: usize) -> SapfAsPlainText {
    let mut app = SapfAsPlainText::new(None, table());
    let b = app.get_current_buffer_mut();
    b.content = content.to_string();
    b.cursor_pos = cursor;
    app
}

#[test]
fn logical_line_by_cursor() {
    assert_eq!(current_logical_line("a\nb\nc", 2), "b");
    assert_eq!(current_logical_line("a\nb\nc", 5), "c");
    assert_eq!(current_logical_line("", 0), "");
}

#[test]
fn logical_line_at_boundaries() {
    // A cursor on a line feed belongs to the line before it.
    assert_eq!(current_logical_line("a\nb\nc", 0), "a");
    assert_eq!(current_logical_line("a\nb\nc", 1), "a");
    assert_eq!(current_logical_line("a\nb\nc", 3), "b");
    assert_eq!(current_logical_line("a\nb\nc", 4), "c");
    assert_eq!(current_logical_line("ab\ncd", 2), "ab");
    assert_eq!(current_logical_line("ab\ncd", 3), "cd");
    assert_eq!(current_logical_line("ab\ncd", 5), "cd");
}

#[test]
fn logical_line_falls_back_to_last_line() {
    assert_eq!(current_logical_line("a\nb\nc", 100), "c");
    assert_eq!(current_logical_line("one", 50), "one");
    assert_eq!(current_logical_line("a\nb\n", 9), "b");
    assert_eq!(current_logical_line("a\nb\n", 4), "b");
    assert_eq!(current_logical_line("", 7), "");
    assert_eq!(current_logical_line("\n", 5), "");
}

#[test]
fn logical_line_without_line_endings() {
    assert_eq!(current_logical_line("x\r\ny", 0), "x");
    assert_eq!(current_logical_line("x\r\ny", 1), "x");
    // The carriage return is not part of the line, and is not counted.
    assert_eq!(current_logical_line("x\r\ny", 2), "y");
    assert_eq!(current_logical_line("x\r\ny\r", 6), "y\r");
    assert_eq!(current_logical_line("\n\nz", 0), "");
    assert_eq!(current_logical_line("\n\nz", 1), "");
    assert_eq!(current_logical_line("\n\nz", 2), "z");
    assert_eq!(current_logical_line("\n\nz", 3), "z");
}

#[test]
fn logical_line_counts_bytes() {
    assert_eq!(current_logical_line("éé\nb", 4), "éé");
    assert_eq!(current_logical_line("éé\nb", 5), "b");
    assert_eq!(current_logical_line("éé\nb", 6), "b");
}

#[test]
fn completion_replaces_query() {
    // The query that is replaced takes in the dots before the cursor.
    assert_eq!(completed_text("foo.ba", 6, "bar"), ("bar".to_string(), 3));
    assert_eq!(completed_text("foo.ba", 6, "foo.bar"), ("foo.bar".to_string(), 7));
    assert_eq!(completed_text("foo ba", 6, "bar"), ("foo bar".to_string(), 7));
    assert_eq!(completed_text("x os y", 4, "osc."), ("x osc. y".to_string(), 6));
    assert_eq!(completed_text("", 0, "sine"), ("sine".to_string(), 4));
    assert_eq!(completed_text("a b", 2, "sine"), ("a sineb".to_string(), 6));
    assert_eq!(completed_text("é sa", 5, "saw"), ("é saw".to_string(), 6));
    assert_eq!(completed_text("osc.si rest", 6, ""), (" rest".to_string(), 0));
}

#[test]
fn apply_completion_moves_cursor() {
    let mut app = session_with("foo.ba", 6);
    app.apply_completion("bar");
    assert_eq!(app.get_current_buffer().content, "bar");
    assert_eq!(app.get_current_buffer().cursor_pos, 3);
    let mut app = session_with("x foo ba y", 8);
    app.apply_completion("bar");
    assert_eq!(app.get_current_buffer().content, "x foo bar y");
    assert_eq!(app.get_current_buffer().cursor_pos, 9);
    assert_eq!(app.get_current_buffer().name, "Untitled 1");
}

#[test]
fn default_session() {
    let app = SapfAsPlainText::new(None, table());
    assert_eq!(app.buffers.len(), 1);
    assert_eq!(app.buffers[0].name, "Untitled 1");
    assert_eq!(app.buffers[0].content, "");
    assert_eq!(app.buffers[0].cursor_pos, 0);
    assert!(!app.buffers[0].is_modified);
    assert_eq!(app.buffers[0].file_path, None);
    assert_eq!(app.current_buffer_idx, 0);
    assert_eq!(app.next_buffer_id, 2);
    assert_eq!(app.from_sapf, "");
    assert!(app.completions.is_empty());
    assert_eq!(app.hover_info, None);
    assert!(!app.show_completions);
    assert!(app.has_current_buffer());
}

#[test]
fn saved_session_is_brought_into_range() {
    let state = AppState {
        buffers: vec![Buffer::new("one".to_string()), Buffer::new("two".to_string())],
        current_buffer_idx: 7,
        next_buffer_id: 12,
    };
    let app = SapfAsPlainText::new(Some(state), table());
    assert_eq!(app.current_buffer_idx, 1);
    assert_eq!(app.next_buffer_id, 12);
    assert_eq!(app.buffers.len(), 2);
    assert_eq!(app.get_current_buffer().name, "two");

    let empty = AppState { buffers: Vec::new(), current_buffer_idx: 3, next_buffer_id: 1 };
    let app = SapfAsPlainText::from_saved_state(empty, table());
    assert_eq!(app.current_buffer_idx, 0);
    assert!(!app.has_current_buffer());
}

#[test]
fn new_buffers_are_numbered() {
    let state = AppState {
        buffers: vec![Buffer::new("one".to_string())],
        current_buffer_idx: 0,
        next_buffer_id: 409,
    };
    let mut app = SapfAsPlainText::new(Some(state), table());
    app.create_new_buffer();
    app.create_new_buffer();
    assert_eq!(app.buffers.len(), 3);
    assert_eq!(app.buffers[1].name, "Untitled 409");
    assert_eq!(app.buffers[2].name, "Untitled 410");
    assert_eq!(app.current_buffer_idx, 2);
    assert_eq!(app.next_buffer_id, 411);
    assert!(app.should_focus_text_edit);
}

#[test]
fn closing_and_switching_buffers() {
    let mut app = SapfAsPlainText::with_default_state(table());
    assert!(!app.close_current_buffer());
    assert!(!app.next_buffer());
    assert!(!app.prev_buffer());
    assert!(!app.should_focus_text_edit);
    app.create_new_buffer();
    app.create_new_buffer();
    assert_eq!(app.current_buffer_idx, 2);
    assert!(app.next_buffer());
    assert_eq!(app.current_buffer_idx, 0);
    assert!(app.prev_buffer());
    assert_eq!(app.current_buffer_idx, 2);
    assert!(app.prev_buffer());
    assert_eq!(app.current_buffer_idx, 1);
    assert!(app.switch_to_buffer(0));
    assert_eq!(app.current_buffer_idx, 0);
    assert!(!app.switch_to_buffer(3));
    assert_eq!(app.current_buffer_idx, 0);
    assert!(app.switch_to_buffer(2));
    assert!(app.close_current_buffer());
    assert_eq!(app.current_buffer_idx, 1);
    assert_eq!(app.buffers.len(), 2);
    assert!(app.switch_to_buffer(0));
    assert!(app.close_current_buffer());
    assert_eq!(app.current_buffer_idx, 0);
    assert_eq!(app.buffers[0].name, "Untitled 2");
}

#[test]
fn snapshot_keeps_buffers() {
    let mut app = session_with("text", 2);
    app.create_new_buffer();
    app.get_current_buffer_mut().file_path = Some("/tmp/x.sapf".to_string());
    let state = app.snapshot();
    assert_eq!(state.buffers.len(), 2);
    assert_eq!(state.buffers[0].content, "text");
    assert_eq!(state.buffers[0].cursor_pos, 2);
    assert_eq!(state.buffers[1].name, "Untitled 2");
    assert_eq!(state.buffers[1].file_path, Some("/tmp/x.sapf".to_string()));
    assert_eq!(state.current_buffer_idx, 1);
    assert_eq!(state.next_buffer_id, 3);
}

#[test]
fn current_line_of_session() {
    let app = session_with("1 2 +\nosc.sine play\n", 8);
    assert_eq!(app.get_current_line(), "osc.sine play");
    assert_eq!(app.line_to_run(), Some("osc.sine play".to_string()));
    let app = session_with("a\n  \nb", 3);
    assert_eq!(app.get_current_line(), "  ");
    assert_eq!(app.line_to_run(), None);
}

#[test]
fn completions_at_cursor() {
    let mut app = session_with("x osc.s", 7);
    app.trigger_completions();
    let labels: Vec<&str> = app.completions.iter().map(|c| c.label.as_str()).collect();
    assert_eq!(labels, vec!["sine", "saw"]);
    assert!(app.show_completions);

    let mut app = session_with("x zz", 4);
    app.trigger_completions();
    assert!(app.completions.is_empty());
    assert!(!app.show_completions);

    // Without a query everything is listed.
    let mut app = session_with("x ", 2);
    app.trigger_completions();
    let labels: Vec<&str> = app.completions.iter().map(|c| c.label.as_str()).collect();
    assert_eq!(labels, vec!["osc.", "sine", "saw"]);
    let mut app = session_with("x", 9);
    app.trigger_completions();
    assert_eq!(app.completions.len(), 3);
}

#[test]
fn hover_at_cursor() {
    let mut app = session_with("osc.sine", 2);
    app.update_completions_and_hints();
    assert_eq!(app.hover_info, Some("oscillators".to_string()));
    app.get_current_buffer_mut().cursor_pos = 6;
    app.update_completions_and_hints();
    assert_eq!(app.hover_info, Some("sine generator".to_string()));
    let mut app = session_with("osc sin ", 6);
    app.update_completions_and_hints();
    assert_eq!(app.hover_info, None);
    app.hover_info = Some("stale".to_string());
    app.get_current_buffer_mut().cursor_pos = 8;
    app.update_completions_and_hints();
    assert_eq!(app.hover_info, None);
}

#[test]
fn output_is_appended_in_order() {
    let mut app = SapfAsPlainText::new(None, table());
    app.update_output(&vec!["one".to_string(), "  ".to_string(), "two".to_string()]);
    assert_eq!(app.from_sapf, "one\ntwo\n");
    app.update_output(&Vec::new());
    assert_eq!(app.from_sapf, "one\ntwo\n");
    app.update_output(&vec!["".to_string(), " three ".to_string()]);
    assert_eq!(app.from_sapf, "one\ntwo\n three \n");
}

#[test]
fn polls_may_fall_anywhere() {
    let lines: Vec<String> =
        ["a", "", "b", " ", "c", "d"].iter().map(|s| s.to_string()).collect();
    let mut whole = String::new();
    append_output(&mut whole, &lines);
    assert_eq!(whole, "a\nb\nc\nd\n");
    for cut in 0..=lines.len() {
        let mut log = String::new();
        append_output(&mut log, &lines[..cut].to_vec());
        append_output(&mut log, &lines[cut..].to_vec());
        assert_eq!(log, whole);
    }
}

#[test]
fn reader_publishes_trimmed_lines() {
    assert!(matches!(reader_step(ReadOutcome::EndOfStream), ReaderStep::Stop));
    assert!(matches!(reader_step(ReadOutcome::Failed), ReaderStep::Stop));
    assert!(matches!(reader_step(ReadOutcome::Line("\r\n".to_string())), ReaderStep::Skip));
    assert!(matches!(reader_step(ReadOutcome::Line("  \t".to_string())), ReaderStep::Skip));
    match reader_step(ReadOutcome::Line("  hello \r\n".to_string())) {
        ReaderStep::Publish(line) => assert_eq!(line, "  hello"),
        other => panic!("{:?}", other),
    }
}

#[test]
fn bridge_closes_for_good() {
    let running = BridgeState::Running;
    assert_eq!(after_read(running, &ReaderStep::Skip), BridgeState::Running);
    assert_eq!(after_read(running, &ReaderStep::Publish("x".to_string())), BridgeState::Running);
    let closed = after_read(running, &ReaderStep::Stop);
    assert_eq!(closed, BridgeState::Closed);
    assert_eq!(after_read(closed, &ReaderStep::Skip), BridgeState::Closed);
    assert_eq!(after_write(closed, true), BridgeState::Closed);
    assert_eq!(after_poll(closed, false), BridgeState::Closed);
    assert_eq!(after_poll(running, false), BridgeState::Running);
    assert_eq!(after_poll(running, true), BridgeState::Closed);
    assert_eq!(after_poll(BridgeState::Uninitialized, true), BridgeState::Uninitialized);
    assert!(matches!(send_line(closed, "1 2 +"), SendDecision::NotConnected));
    assert!(matches!(send_line(BridgeState::Uninitialized, "1 2 +"), SendDecision::NotConnected));
    assert_eq!(after_write(BridgeState::Uninitialized, false), BridgeState::Uninitialized);
}

#[test]
fn sending_writes_line_and_line_feed() {
    match send_line(BridgeState::Running, "1 2 +") {
        SendDecision::Write(payload) => assert_eq!(payload, "1 2 +\n"),
        other => panic!("{:?}", other),
    }
    assert_eq!(after_write(BridgeState::Running, true), BridgeState::Running);
    assert_eq!(after_write(BridgeState::Running, false), BridgeState::Closed);
}

#[test]
fn export_name_gets_extension_once() {
    assert_eq!(export_file_name("Untitled 1"), "Untitled 1.sapf");
    assert_eq!(export_file_name("drone.sapf"), "drone.sapf");
    assert_eq!(export_file_name(".sapf"), ".sapf");
    assert_eq!(export_file_name("sapf"), "sapf.sapf");
    assert_eq!(export_file_name(""), ".sapf");
    assert_eq!(export_file_name("a.sapf.txt"), "a.sapf.txt.sapf");
}

#[test]
fn record_command_quotes_file_name() {
    assert_eq!(
        record_command("440 0 sinosc play", "Untitled 1", "2024-05-06_07-08-09"),
        "440 0 sinosc play \"Untitled 1-2024-05-06_07-08-09\" record"
    );
    assert_eq!(record_command("", "", ""), " \"-\" record");
}

#[test]
fn opened_file_becomes_current_buffer() {
    let mut app = SapfAsPlainText::new(None, table());
    app.open_buffer("1 2 +".to_string(), "sum.sapf".to_string(), "/home/u/sum.sapf".to_string());
    assert_eq!(app.buffers.len(), 2);
    assert_eq!(app.current_buffer_idx, 1);
    assert_eq!(app.next_buffer_id, 2);
    assert!(app.should_focus_text_edit);
    let b = app.get_current_buffer();
    assert_eq!(b.content, "1 2 +");
    assert_eq!(b.cursor_pos, 0);
    assert_eq!(b.name, "sum.sapf");
    assert!(!b.is_modified);
    assert_eq!(b.file_path, Some("/home/u/sum.sapf".to_string()));
}

#[test]
fn exported_buffer_takes_file_name_if_unnamed() {
    let mut app = session_with("x", 1);
    app.set_cursor(0);
    assert!(app.get_current_buffer().is_modified);
    assert_eq!(app.get_current_buffer().cursor_pos, 0);
    app.mark_exported("/home/u/drone.sapf".to_string(), Some("drone.sapf".to_string()));
    assert_eq!(app.get_current_buffer().name, "drone.sapf");
    assert_eq!(app.get_current_buffer().file_path, Some("/home/u/drone.sapf".to_string()));
    assert!(!app.get_current_buffer().is_modified);
    assert_eq!(app.get_current_buffer().content, "x");
    // A buffer that has a name keeps it.
    app.mark_exported("/home/u/other.sapf".to_string(), Some("other.sapf".to_string()));
    assert_eq!(app.get_current_buffer().name, "drone.sapf");
    assert_eq!(app.get_current_buffer().file_path, Some("/home/u/other.sapf".to_string()));
    // Without a file name the buffer keeps its name too.
    let mut app = session_with("x", 1);
    app.mark_exported("/".to_string(), None);
    assert_eq!(app.get_current_buffer().name, "Untitled 1");
}

#[test]
fn lines_are_split_at_line_feeds() {
    assert_eq!(text_lines("a\nb\nc"), vec!["a", "b", "c"]);
    assert_eq!(text_lines("a\nb\n"), vec!["a", "b"]);
    assert_eq!(text_lines("a\r\nb\r"), vec!["a", "b\r"]);
    assert_eq!(text_lines("\n\n"), vec!["", ""]);
    assert_eq!(text_lines("\r\n\r"), vec!["", "\r"]);
    assert_eq!(text_lines("a\r\r\nb"), vec!["a\r", "b"]);
    assert!(text_lines("").is_empty());
    for text in
        ["", "\n", "x", "x\n", "\nx", "é\r\nü\n\n", "a\rb\nc\r", "\r", "\r\n", "a\n\r\nb\r\n\r"]
    {
        let expected: Vec<&str> = text.lines().collect();
        assert_eq!(text_lines(text), expected);
    }
}

#[test]
fn recording_is_named_after_buffer_and_moment() {
    let app = session_with("1 2 +\n440 0 sinosc play\n", 9);
    let command = app.record_current_line();
    let head = "440 0 sinosc play \"Untitled 1-";
    let tail = "\" record";
    assert!(command.starts_with(head));
    assert!(command.ends_with(tail));
    let stamp = &command[head.len()..command.len() - tail.len()];
    assert_ne!(stamp, "%Y-%m-%d_%H-%M-%S");
    // year-month-day_hour-minute-second
    let shape: String =
        stamp.chars().map(|c| if c.is_ascii_digit() { '9' } else { c }).collect();
    assert_eq!(shape, "9999-99-99_99-99-99");
}
