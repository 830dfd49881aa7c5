use chatbot::dialogue::{options_list, DialogueEngine, Phase, SubmitOutcome};
use chatbot::graph::style_from_index;
use chatbot::graph::{ConversationGraph, Node, NodeKind, Style};
use chatbot::session::{InputEvent, Session};

fn node(
    id: &str,
    kind: NodeKind,
    msg: &str,
    options: Vec<(&str, &str)>,
    default_next: Option<&str>,
) -> Node {
    Node {
        id: id.to_string(),
        kind,
        messages: vec![(Style::Base, msg.to_string())],
        options: options
            .into_iter()
            .map(|(k, v)| (k.to_string(), v.to_string()))
            .collect(),
        default_next: default_next.map(|s| s.to_string()),
    }
}

fn demo_graph() -> ConversationGraph {
    ConversationGraph {
        nodes: vec![
            node(
                "start",
                NodeKind::Ordinary,
                "Hello! Want to learn more?",
                vec![("yes", "about"), ("maybe", "about")],
                None,
            ),
            node("about", NodeKind::Ordinary, "We teach code.", vec![], Some("start")),
            node("exit_conversation", NodeKind::End, "Goodbye!", vec![], None),
        ],
    }
}

fn engine_awaiting(graph: ConversationGraph) -> DialogueEngine {
    let mut e = DialogueEngine::new(graph, Style::Base);
    let first = e.emit_step();
    assert!(first.is_some());
    e
}

#[test]
fn starts_at_start_node() {
    let e = DialogueEngine::new(demo_graph(), Style::Base);
    assert_eq!(e.current, "start".to_string());
    assert!(matches!(e.phase, Phase::Emitting));
}

#[test]
fn emit_step_shows_message_and_awaits_input() {
    let mut e = DialogueEngine::new(demo_graph(), Style::Base);
    let text = e.emit_step().unwrap();
    assert_eq!(text, "Hello! Want to learn more?".to_string());
    assert!(matches!(e.phase, Phase::AwaitingInput));
}

#[test]
fn emit_step_missing_node_reports_and_ends() {
    let mut e = DialogueEngine::new(demo_graph(), Style::Base);
    e.current = "nowhere".to_string();
    let text = e.emit_step().unwrap();
    assert_eq!(text, "ERROR: Invalid node ID 'nowhere' found. Exiting.".to_string());
    assert!(matches!(e.phase, Phase::Ended));
}

#[test]
fn emit_step_end_node_ends_conversation() {
    let mut e = DialogueEngine::new(demo_graph(), Style::Base);
    e.current = "exit_conversation".to_string();
    let text = e.emit_step().unwrap();
    assert_eq!(text, "Goodbye!".to_string());
    assert!(matches!(e.phase, Phase::Ended));
}

#[test]
fn missing_style_falls_back_to_apology() {
    let mut e = DialogueEngine::new(demo_graph(), Style::Formal);
    let text = e.emit_step().unwrap();
    assert_eq!(
        text,
        "I apologize, but I seem to have encountered a conversational glitch.".to_string()
    );
}

#[test]
fn prefix_match_is_case_insensitive() {
    let mut e = engine_awaiting(demo_graph());
    let out = e.submit(&"YES please".to_string());
    assert!(matches!(out, SubmitOutcome::Routed));
    assert_eq!(e.current, "about".to_string());
}

#[test]
fn exit_word_must_match_exactly() {
    // "no thanks" is no exit word: exit matching is exact, not prefix.
    let mut e = engine_awaiting(demo_graph());
    let out = e.submit(&"no thanks".to_string());
    match out {
        SubmitOutcome::Help(_) => {}
        _ => panic!("a longer phrase must not trigger the exit rule"),
    }
    assert_eq!(e.current, "start".to_string());

    let out2 = e.submit(&"no".to_string());
    assert!(matches!(out2, SubmitOutcome::Routed));
    assert_eq!(e.current, "exit_conversation".to_string());
}

#[test]
fn keyword_match_beats_exit_word() {
    let g = ConversationGraph {
        nodes: vec![
            node("start", NodeKind::Ordinary, "hi", vec![("no", "about")], None),
            node("about", NodeKind::Ordinary, "ok", vec![], None),
        ],
    };
    let mut e = engine_awaiting(g);
    let out = e.submit(&"no".to_string());
    assert!(matches!(out, SubmitOutcome::Routed));
    assert_eq!(e.current, "about".to_string());
}

#[test]
fn default_next_when_nothing_matches() {
    let mut e = engine_awaiting(demo_graph());
    let out = e.submit(&"yes".to_string());
    assert!(matches!(out, SubmitOutcome::Routed));
    e.emit_step();
    // "about" has no options but a default successor.
    let out2 = e.submit(&"whatever".to_string());
    assert!(matches!(out2, SubmitOutcome::Routed));
    assert_eq!(e.current, "start".to_string());
}

#[test]
fn unrecognized_keeps_node_and_lists_options() {
    let mut e = engine_awaiting(demo_graph());
    let out = e.submit(&"xyz".to_string());
    match out {
        SubmitOutcome::Help(h) => {
            assert_eq!(
                h,
                "I'm sorry, I didn't understand that. Please choose from: 'yes' or 'maybe'"
                    .to_string()
            );
        }
        _ => panic!("expected a help message"),
    }
    assert_eq!(e.current, "start".to_string());
    assert!(matches!(e.phase, Phase::AwaitingInput));
}

#[test]
fn help_punctuation_zero_one_many() {
    let none: Vec<(String, String)> = vec![];
    assert_eq!(options_list(&none), "No options available.".to_string());
    let one = vec![("x".to_string(), "n".to_string())];
    assert_eq!(options_list(&one), "'x'".to_string());
    let three = vec![
        ("a".to_string(), "n".to_string()),
        ("b".to_string(), "n".to_string()),
        ("c".to_string(), "n".to_string()),
    ];
    assert_eq!(options_list(&three), "'a', 'b' or 'c'".to_string());
}

#[test]
fn blank_line_is_ignored() {
    let mut e = engine_awaiting(demo_graph());
    let out = e.submit(&"   ".to_string());
    assert!(matches!(out, SubmitOutcome::Ignored));
    assert_eq!(e.current, "start".to_string());
    assert!(matches!(e.phase, Phase::AwaitingInput));
}

#[test]
fn routing_is_deterministic_for_equal_inputs() {
    for _ in 0..3 {
        let mut e = engine_awaiting(demo_graph());
        let out = e.submit(&"maybe later".to_string());
        assert!(matches!(out, SubmitOutcome::Routed));
        assert_eq!(e.current, "about".to_string());
    }
}

#[test]
fn end_to_end_no_routes_to_exit_and_ends() {
    let mut s = Session::new(demo_graph(), Style::Base);
    s.tick_emit().expect("a bot turn is owed at the start");
    // Let the greeting finish its reveal.
    let mut t: u64 = 0;
    while s.typing_in_progress() {
        t += 50;
        s.animate(t);
    }
    for c in ['n', 'o'] {
        s.handle_event(InputEvent::CharTyped(c));
    }
    let (quit, logs) = s.handle_event(InputEvent::Submit);
    assert!(!quit);
    assert_eq!(logs.len(), 1);
    assert_eq!(s.engine.current, "exit_conversation".to_string());
    s.tick_emit().expect("the exit node owes a farewell turn");
    assert!(matches!(s.engine.phase, Phase::Ended));
    let (quit2, _) = s.handle_event(InputEvent::Submit);
    assert!(quit2, "a submit after the end quits the session");
}

#[test]
fn submit_ignored_while_bot_is_typing() {
    let mut s = Session::new(demo_graph(), Style::Base);
    s.tick_emit().unwrap();
    assert!(s.typing_in_progress());
    for c in ['n', 'o'] {
        s.handle_event(InputEvent::CharTyped(c));
    }
    let before = s.engine.current.clone();
    s.handle_event(InputEvent::Submit);
    assert_eq!(s.engine.current, before);
    assert_eq!(s.input, "no".to_string(), "the buffer is kept for later");
}

#[test]
fn style_from_index_covers_all_styles() {
    let styles = [
        Style::Base,
        Style::Formal,
        Style::Casual,
        Style::Humorous,
        Style::Inquisitive,
        Style::Narrative,
        Style::Concise,
        Style::Encouraging,
        Style::Playful,
    ];
    for (i, st) in styles.iter().enumerate() {
        assert_eq!(style_from_index(i as u64), *st);
        assert_eq!(style_from_index(i as u64 + 9), *st);
    }
}

#[test]
fn random_style_is_some_style() {
    // Nothing is promised of the draw beyond being one of the styles.
    let _ = chatbot::graph::random_style();
}

#[test]
fn first_stored_option_wins_on_overlapping_keywords() {
    let g = ConversationGraph {
        nodes: vec![
            node("start", NodeKind::Ordinary, "hi", vec![("a", "n1"), ("ab", "n2")], None),
            node("n1", NodeKind::Ordinary, "one", vec![], None),
            node("n2", NodeKind::Ordinary, "two", vec![], None),
        ],
    };
    let mut e = engine_awaiting(g);
    let out = e.submit(&"abc".to_string());
    assert!(matches!(out, SubmitOutcome::Routed));
    assert_eq!(e.current, "n1".to_string());
}

#[test]
fn option_keywords_are_matched_lowercased() {
    let g = ConversationGraph {
        nodes: vec![
            node("start", NodeKind::Ordinary, "hi", vec![("YES", "about")], None),
            node("about", NodeKind::Ordinary, "ok", vec![], None),
        ],
    };
    let mut e = engine_awaiting(g);
    let out = e.submit(&"yes".to_string());
    assert!(matches!(out, SubmitOutcome::Routed));
    assert_eq!(e.current, "about".to_string());
}
