use chatbot::dialogue::is_exit_command;
use chatbot::graph::{ConversationGraph, Style};
use chatbot::layout::{auto_offset, layout_messages, total_content_height, wrap_text};
use chatbot::message::ChatMessage;
use chatbot::session::{format_log_line, InputEvent, Session};

fn words(s: &str) -> Vec<String> {
    s.split_whitespace().map(|w| w.to_string()).collect()
}

#[test]
fn wrap_keeps_a_short_text_on_one_line() {
    assert_eq!(wrap_text("hello world", 20), vec!["hello world".to_string()]);
}

#[test]
fn wrap_flushes_when_the_next_word_would_not_fit() {
    assert_eq!(
        wrap_text("hello world", 10),
        vec!["hello".to_string(), "world".to_string()]
    );
}

#[test]
fn wrap_of_empty_text_is_one_empty_line() {
    assert_eq!(wrap_text("", 10), vec![String::new()]);
    assert_eq!(wrap_text("   ", 10), vec![String::new()]);
}

#[test]
fn wrap_never_splits_a_word() {
    let text = "the quick brown fox jumps over the lazy dog";
    for width in 1..20 {
        let lines = wrap_text(text, width);
        let mut got: Vec<String> = Vec::new();
        for l in &lines {
            got.extend(words(l));
        }
        assert_eq!(got, words(text), "width {} lost or split a word", width);
    }
}

#[test]
fn wrap_leaves_an_overlong_word_alone_on_its_line() {
    assert_eq!(
        wrap_text("a extraordinarily b", 6),
        vec!["a".to_string(), "extraordinarily".to_string(), "b".to_string()]
    );
}

#[test]
fn typing_reveals_one_character_per_gated_tick() {
    let mut m = ChatMessage::new("abc".to_string(), true);
    assert!(m.update_typing(0));
    assert_eq!(m.displayed_chars, 1);
    assert!(!m.update_typing(3), "the base delay has not yet elapsed");
    assert!(m.update_typing(5));
    assert!(m.update_typing(10));
    assert_eq!(m.displayed_chars, 3);
    assert!(m.complete);
    // Once complete, further ticks are no-ops.
    assert!(!m.update_typing(1000));
    assert_eq!(m.displayed_chars, 3);
}

#[test]
fn typing_needs_exactly_n_ticks_for_n_characters() {
    let mut m = ChatMessage::new("abcde".to_string(), true);
    let mut ticks = 0;
    let mut t: u64 = 0;
    while !m.complete {
        if m.update_typing(t) {
            ticks += 1;
        }
        t += 5;
    }
    assert_eq!(ticks, 5);
}

#[test]
fn pause_after_space_is_strictly_longer() {
    let mut m = ChatMessage::new("a b".to_string(), true);
    assert!(m.update_typing(0)); // 'a'
    assert!(m.update_typing(5)); // ' '  (after a non-space: base delay)
    assert!(
        !m.update_typing(49),
        "after a revealed space only the longer word-boundary delay suffices"
    );
    assert!(m.update_typing(50)); // 'b'
    assert!(m.complete);
}

#[test]
fn displayed_text_is_the_revealed_prefix() {
    let mut m = ChatMessage::new("hi there".to_string(), true);
    assert_eq!(m.get_displayed_text(), String::new());
    m.update_typing(0);
    m.update_typing(10);
    assert_eq!(m.get_displayed_text(), "hi".to_string());
}

#[test]
fn user_messages_are_born_complete() {
    let m = ChatMessage::new_complete("hello".to_string(), false);
    assert!(m.complete);
    assert_eq!(m.displayed_chars, 5);
    assert_eq!(m.get_displayed_text(), "hello".to_string());
}

fn complete_bot(text: &str) -> ChatMessage {
    ChatMessage::new_complete(text.to_string(), true)
}

fn complete_user(text: &str) -> ChatMessage {
    ChatMessage::new_complete(text.to_string(), false)
}

#[test]
fn total_height_sums_lines_and_sender_gaps() {
    let msgs = vec![complete_bot("one"), complete_user("two"), complete_user("three")];
    // Three one-line messages; one gap where bot switches to user.
    assert_eq!(total_content_height(&msgs, 20), 4);
}

#[test]
fn auto_offset_shows_the_excess_plus_buffer() {
    assert_eq!(auto_offset(8, 10), 0);
    assert_eq!(auto_offset(20, 10), 13);
    assert_eq!(auto_offset(12, 10), 4);
    assert_eq!(auto_offset(5, 2), 3, "tiny viewports get no extra buffer");
}

#[test]
fn auto_scroll_keeps_newest_message_visible() {
    let mut msgs: Vec<ChatMessage> = Vec::new();
    for i in 0..12 {
        if i % 2 == 0 {
            msgs.push(complete_bot("bot line"));
        } else {
            msgs.push(complete_user("user line"));
        }
    }
    let area_width = 30;
    let viewport = 8;
    let total = total_content_height(&msgs, area_width - 10);
    assert!(total > viewport);
    let offset = auto_offset(total, viewport);
    let blocks = layout_messages(&msgs, area_width, viewport, offset);
    assert_eq!(blocks.len(), msgs.len());
    let last = blocks.last().unwrap().as_ref().expect("the newest message must be visible");
    assert!((last.y as usize) + last.lines.len() <= viewport);
    assert!(!last.is_bot);
}

#[test]
fn clipped_messages_are_skipped_not_errors() {
    let msgs = vec![complete_bot("aaa"), complete_user("bbb"), complete_bot("ccc")];
    // A viewport of one line at offset zero shows only the first message.
    let blocks = layout_messages(&msgs, 30, 1, 0);
    assert!(blocks[0].is_some());
    assert!(blocks[1].is_none());
    assert!(blocks[2].is_none());
}

#[test]
fn user_boxes_sit_right_bot_boxes_sit_left() {
    let msgs = vec![complete_bot("hi"), complete_user("yo")];
    let blocks = layout_messages(&msgs, 40, 10, 0);
    let bot = blocks[0].as_ref().unwrap();
    let user = blocks[1].as_ref().unwrap();
    assert_eq!(bot.x, 2);
    assert_eq!(user.width, 6); // two characters plus padding
    assert_eq!(user.x, 40 - 6 - 2);
}

fn tiny_graph() -> ConversationGraph {
    ConversationGraph { nodes: vec![] }
}

#[test]
fn manual_scroll_disables_auto_scroll_and_pins_viewport() {
    let mut s = Session::new(tiny_graph(), Style::Base);
    for i in 0..15 {
        let text = format!("message number {}", i);
        s.add_bot_message(text);
    }
    // Complete all reveals so heights are final.
    let mut t = 0;
    while s.typing_in_progress() {
        t += 50;
        s.animate(t);
    }
    s.update_scroll(5, 30);
    let auto = s.scroll_offset;
    assert!(auto > 0);
    s.handle_event(InputEvent::ScrollUp);
    assert!(!s.auto_scroll);
    let pinned = s.scroll_offset;
    // A new user message does not move the viewport: the user turn
    // leaves auto-scroll off, and recomputing respects that.
    s.push_user_message("hello".to_string());
    assert!(!s.auto_scroll);
    s.update_scroll(5, 30);
    assert_eq!(s.scroll_offset, pinned);
    // Nor does a new bot message: appending never re-enables
    // auto-scroll by itself.
    s.add_bot_message("and another thing".to_string());
    assert!(!s.auto_scroll);
    s.update_scroll(5, 30);
    assert_eq!(s.scroll_offset, pinned);
    // Only the explicit re-enable lets the viewport follow the tail
    // again.
    s.enable_auto_scroll();
    assert!(s.auto_scroll);
    s.update_scroll(5, 30);
    assert!(s.scroll_offset >= auto);
}

#[test]
fn scroll_bounds_are_clamped() {
    let mut s = Session::new(tiny_graph(), Style::Base);
    s.handle_event(InputEvent::ScrollDown);
    assert_eq!(s.scroll_offset, 0, "scrolling down at the bottom stays at zero");
    s.handle_event(InputEvent::ScrollUp);
    assert_eq!(s.scroll_offset, 0, "few messages leave nothing to scroll");
}

#[test]
fn log_line_is_timestamp_sender_text() {
    assert_eq!(format_log_line(9, 5, true, "hi"), "09:05 <Bot>: hi\n".to_string());
    assert_eq!(
        format_log_line(23, 59, false, "bye now"),
        "23:59 <User>: bye now\n".to_string()
    );
}

#[test]
fn backspace_edits_the_buffer() {
    let mut s = Session::new(
        ConversationGraph {
            nodes: vec![chatbot::graph::Node {
                id: "start".to_string(),
                kind: chatbot::graph::NodeKind::Ordinary,
                messages: vec![(Style::Base, "hi".to_string())],
                options: vec![],
                default_next: None,
            }],
        },
        Style::Base,
    );
    s.tick_emit();
    s.handle_event(InputEvent::CharTyped('h'));
    s.handle_event(InputEvent::CharTyped('i'));
    assert_eq!(s.input, "hi".to_string());
    s.handle_event(InputEvent::Backspace);
    assert_eq!(s.input, "h".to_string());
    s.handle_event(InputEvent::Backspace);
    s.handle_event(InputEvent::Backspace);
    assert_eq!(s.input, String::new());
}

#[test]
fn normalization_trims_and_lowercases() {
    let u = chatbot::text::normalize_chars("  YES Please ");
    let got: String = u.into_iter().collect();
    assert_eq!(got, "yes please".to_string());
}

#[test]
fn exit_words_are_recognized_exactly() {
    for w in ["no", "bye", "quit", "exit"] {
        let v: Vec<char> = w.chars().collect();
        assert!(is_exit_command(&v));
    }
    for w in ["nope", "no thanks", "goodbye", ""] {
        let v: Vec<char> = w.chars().collect();
        assert!(!is_exit_command(&v));
    }
}

#[test]
fn log_line_pads_midnight_with_zeros() {
    assert_eq!(format_log_line(0, 0, false, ""), "00:00 <User>: \n".to_string());
}

#[test]
fn bot_turn_log_line_carries_a_valid_timestamp() {
    let mut s = Session::new(tiny_graph(), Style::Base);
    let log = s.add_bot_message("hello there".to_string());
    assert!(log.ends_with(" <Bot>: hello there\n"));
    let bytes = log.as_bytes();
    assert_eq!(bytes[2], b':');
    let hour: u32 = log[0..2].parse().expect("two hour digits");
    let minute: u32 = log[3..5].parse().expect("two minute digits");
    assert!(hour < 24);
    assert!(minute < 60);
}
