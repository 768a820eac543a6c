use winmosh::protocol::proto::{UserInstruction, UserMessage};
use winmosh::protocol::statesync::StateObject;
use winmosh::terminal::cell::Cell;
use winmosh::terminal::diff::diff_framebuffers;
use winmosh::terminal::framebuffer::Framebuffer;
use winmosh::terminal::renderer::render_framebuffer;
use winmosh::terminal::rendition::Rendition;
use winmosh::terminal::terminal_status;
use winmosh::terminal::user_input::{UserEvent, UserInput, UserStream};

#[test]
fn reports_changed_cells() {
    let old = Framebuffer::new(2, 1);
    let mut new = old.clone();
    new.put("x".to_owned());
    let diff = diff_framebuffers(&old, &new);
    assert_eq!(diff.changed_cells, 1);
    assert_eq!(diff.updates[0].cell.text, "x");
}

#[test]
fn identical_framebuffers_have_no_changes() {
    let mut framebuffer = Framebuffer::new(4, 2);
    framebuffer.put("q".to_owned());
    let diff = diff_framebuffers(&framebuffer, &framebuffer.clone());
    assert_eq!(diff.changed_cells, 0);
    assert!(diff.updates.is_empty());
}

#[test]
fn scrolls_and_preserves_dimensions() {
    let mut framebuffer = Framebuffer::new(3, 2);
    for text in ["a", "b", "c", "d", "e", "f", "g"] {
        framebuffer.put(text.to_owned());
    }
    assert_eq!(framebuffer.size.columns, 3);
    assert_eq!(framebuffer.size.rows, 2);
    assert_eq!(framebuffer.cell(0, 0).map(|cell| cell.text.as_str()), Some("d"));
    assert_eq!(framebuffer.cell(0, 1).map(|cell| cell.text.as_str()), Some("g"));
}

#[test]
fn editing_keeps_the_size() {
    let mut framebuffer = Framebuffer::new(5, 3);
    framebuffer.put("a".to_owned());
    framebuffer.line_feed();
    framebuffer.insert_lines(2);
    framebuffer.delete_lines(1);
    framebuffer.erase_characters(3);
    framebuffer.clear_screen_from_cursor();
    framebuffer.scroll_up(1);
    assert_eq!(framebuffer.size.columns, 5);
    assert_eq!(framebuffer.size.rows, 3);
    assert!(framebuffer.cell(4, 2).is_some());
    assert!(framebuffer.cell(5, 0).is_none());
    framebuffer.resize(2, 2);
    assert_eq!(framebuffer.size.columns, 2);
    assert!(framebuffer.row(1).map(|row| row.len()) == Some(2));
}

#[test]
fn blank_cell_is_a_space() {
    assert_eq!(Cell::blank(Rendition::default()).text, " ");
}

#[test]
fn renders_cursor_and_text() {
    let mut framebuffer = Framebuffer::new(3, 1);
    framebuffer.put("x".to_owned());
    let rendered = render_framebuffer(&framebuffer);
    assert!(rendered.contains('x'));
    assert!(rendered.contains("[1;2H"));
}

#[test]
fn coalesces_keystrokes_and_round_trips_wire_diff() {
    let mut source = UserStream::default();
    source.push_input(UserInput::from_text("l"));
    source.push_input(UserInput::from_text("s\n"));
    source.push_resize(80, 24);
    let diff = source.diff_from(&UserStream::default()).unwrap();
    let mut target = UserStream::default();
    target.apply_diff(&diff).unwrap();
    assert_eq!(target.events(), source.events());
    assert!(matches!(target.events()[0], UserEvent::Bytes(_)));
}

#[test]
fn allows_extending_the_last_keystroke_event() {
    let mut existing = UserStream::default();
    existing.push_input(UserInput::from_text("l"));
    let mut current = existing.clone();
    current.push_input(UserInput::from_text("s"));
    let diff = current.diff_from(&existing).unwrap();
    let message = UserMessage::decode(&diff).unwrap();
    assert_eq!(message.instructions, vec![UserInstruction::Keystroke(b"s".to_vec())]);
}

#[test]
fn allows_bytes_extension_followed_by_new_events() {
    let mut existing = UserStream::default();
    existing.push_input(UserInput::from_text("a"));
    let mut current = existing.clone();
    current.push_input(UserInput::from_text("b"));
    current.push_resize(100, 40);
    let diff = current.diff_from(&existing).unwrap();
    let message = UserMessage::decode(&diff).unwrap();
    assert_eq!(message.instructions.len(), 2);
    assert_eq!(message.instructions[0], UserInstruction::Keystroke(b"b".to_vec()));
    assert_eq!(message.instructions[1], UserInstruction::Resize { width: 100, height: 40 });
}

#[test]
fn diff_falls_back_to_empty_base_on_bad_prefix() {
    let mut existing = UserStream::default();
    existing.push_input(UserInput::from_text("x"));
    let mut current = UserStream::default();
    current.push_resize(80, 24);
    current.push_input(UserInput::from_text("y"));
    let diff = current.diff_from(&existing).unwrap();
    let message = UserMessage::decode(&diff).unwrap();
    assert!(!message.instructions.is_empty());
}

#[test]
fn empty_input_is_not_recorded() {
    let mut stream = UserStream::default();
    stream.push_input(UserInput::new(Vec::new()));
    assert!(stream.is_empty());
    assert_eq!(stream.len(), 0);
    assert!(terminal_status().contains("terminal"));
}

#[test]
fn diff_converges_past_a_zero_size_resize_in_the_shared_part() {
    let mut existing = UserStream::default();
    existing.push_resize(0, 0);
    existing.push_input(UserInput::new(b"l".to_vec()));
    let mut current = existing.clone();
    current.push_input(UserInput::new(b"s".to_vec()));
    current.push_resize(80, 24);
    let diff = current.diff_from(&existing).unwrap();
    let mut target = existing.clone();
    target.apply_diff(&diff).unwrap();
    assert_eq!(target, current);
}
