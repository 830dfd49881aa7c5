//! The dialogue state machine: emitting bot turns, routing submitted
//! user lines by keyword prefix, exit word or default successor, and
//! the help message for unrecognized input.
use crate::graph::{spec_find_node, ConversationGraph, Node, NodeKind, Style};
use crate::text::{
    chars_eq, chars_of, lower_chars, lower_seq, normal_form, normalize_chars, starts_with,
    string_from_chars,
};
use vstd::prelude::*;
use vstd::string::StringExecFns;

verus! {

/// Where the engine stands: a bot turn is owed, user text is awaited,
/// or the conversation has ended.
#[derive(Clone, Copy, PartialEq, Eq, Structural, Debug)]
pub enum Phase {
    Emitting,
    AwaitingInput,
    Ended,
}

/// What a submitted line led to.
pub enum SubmitOutcome {
    /// Nothing happened: not awaiting input, or the line was blank.
    Ignored,
    /// The engine routed to a new node; a bot turn is now owed.
    Routed,
    /// No rule matched: the node is unchanged and this help message
    /// lists its option keywords.
    Help(String),
}

/// The id every session starts at.
pub open spec fn start_node_id() -> Seq<char> {
    "start"@
}

/// The reserved id an exit word routes to.
pub open spec fn exit_node_id() -> Seq<char> {
    "exit_conversation"@
}

/// The words that end the conversation when a whole normalized line
/// equals one of them.
pub open spec fn is_exit_word(u: Seq<char>) -> bool {
    u == "no"@ || u == "bye"@ || u == "quit"@ || u == "exit"@
}

/// Whether the whole normalized line is one of the exit words.
pub fn is_exit_command(u: &Vec<char>) -> (r: bool)
    ensures
        r == is_exit_word(u@),
{
    let no = chars_of("no");
    let bye = chars_of("bye");
    let quit = chars_of("quit");
    let exit_w = chars_of("exit");
    chars_eq(u, &no) || chars_eq(u, &bye) || chars_eq(u, &quit) || chars_eq(u, &exit_w)
}

/// The target of the first option whose lower-cased keyword is a prefix
/// of the normalized input; options are scanned in their stored order.
pub open spec fn spec_first_option(opts: Seq<(String, String)>, u: Seq<char>) -> Option<Seq<char>>
    decreases opts.len(),
{
    if opts.len() == 0 {
        None
    } else if lower_seq(opts[0].0@).is_prefix_of(u) {
        Some(opts[0].1@)
    } else {
        spec_first_option(opts.drop_first(), u)
    }
}

/// Where a normalized, non-blank line routes from a node: the first
/// matching option keyword wins; otherwise an exact exit word routes to
/// the reserved exit node; otherwise the node's default successor;
/// otherwise nothing (the input is unrecognized).
pub open spec fn spec_route_target(node: Node, u: Seq<char>) -> Option<Seq<char>> {
    match spec_first_option(node.options@, u) {
        Some(t) => Some(t),
        None => if is_exit_word(u) {
            Some(exit_node_id())
        } else {
            match node.default_next {
                Some(d) => Some(d@),
                None => None,
            }
        },
    }
}

/// Routing is deterministic: the route is a function of the node and
/// the normalized input alone, so equal inputs at equal nodes always
/// give the same next node.
pub proof fn lemma_routing_deterministic(
    node: Node,
    u: Seq<char>,
    t1: Option<Seq<char>>,
    t2: Option<Seq<char>>,
)
    requires
        t1 == spec_route_target(node, u),
        t2 == spec_route_target(node, u),
    ensures
        t1 == t2,
{
}

/// Routing ignores letter case: two raw lines equal up to ASCII case
/// route identically.
pub proof fn lemma_routing_case_insensitive(node: Node, raw1: Seq<char>, raw2: Seq<char>)
    requires
        lower_seq(raw1) == lower_seq(raw2),
    ensures
        spec_route_target(node, normal_form(raw1)) == spec_route_target(node, normal_form(raw2)),
{
    crate::text::lemma_normal_form_case_insensitive(raw1, raw2);
}

/// The exit rule is exact and comes after keyword matching: an option
/// match always wins, and the exit node is chosen by rule only when no
/// option matches and the whole line equals an exit word.
pub proof fn lemma_exit_exact(node: Node, u: Seq<char>)
    ensures
        spec_first_option(node.options@, u) is Some ==> spec_route_target(node, u)
            == spec_first_option(node.options@, u),
        (spec_first_option(node.options@, u) is None && is_exit_word(u)) ==> spec_route_target(
            node,
            u,
        ) == Some(exit_node_id()),
        (spec_first_option(node.options@, u) is None && !is_exit_word(u)
            && node.default_next is None) ==> spec_route_target(node, u) is None,
{
}

// ---------------------------------------------------------------------
// The help message for unrecognized input.
// ---------------------------------------------------------------------
/// A keyword in single quotes.
pub open spec fn quoted(k: Seq<char>) -> Seq<char> {
    seq!['\''] + k + seq!['\'']
}

/// The quoted keywords joined with commas.
pub open spec fn quoted_join(keys: Seq<Seq<char>>) -> Seq<char>
    decreases keys.len(),
{
    if keys.len() == 0 {
        Seq::empty()
    } else if keys.len() == 1 {
        quoted(keys[0])
    } else {
        quoted_join(keys.drop_last()) + ", "@ + quoted(keys.last())
    }
}

/// The punctuated list of option keywords: none, one quoted, or a
/// comma-joined list with "or" before the last.
pub open spec fn spec_options_list(keys: Seq<Seq<char>>) -> Seq<char> {
    if keys.len() == 0 {
        "No options available."@
    } else if keys.len() == 1 {
        quoted(keys[0])
    } else {
        quoted_join(keys.drop_last()) + " or "@ + quoted(keys.last())
    }
}

/// The whole help message for a node's options.
pub open spec fn spec_help_message(node: Node) -> Seq<char> {
    "I'm sorry, I didn't understand that. Please choose from: "@ + spec_options_list(
        node.options@.map_values(|p: (String, String)| p.0@),
    )
}

fn push_quoted(out: &mut Vec<char>, k: &String)
    ensures
        final(out)@ == old(out)@ + quoted(k@),
{
    out.push('\'');
    let cs = chars_of(k.as_str());
    let mut i: usize = 0;
    while i < cs.len()
        invariant
            i <= cs@.len(),
            cs@ == k@,
            out@ == old(out)@ + seq!['\''] + k@.take(i as int),
        decreases cs@.len() - i,
    {
        out.push(cs[i]);
        proof {
            assert(out@ =~= old(out)@ + seq!['\''] + k@.take(i + 1 as int));
        }
        i = i + 1;
    }
    out.push('\'');
    proof {
        assert(out@ =~= old(out)@ + quoted(k@));
    }
}

/// The punctuated option list for a node's stored options.
pub fn options_list(options: &Vec<(String, String)>) -> (r: String)
    ensures
        r@ == spec_options_list(options@.map_values(|p: (String, String)| p.0@)),
{
    let ghost keys = options@.map_values(|p: (String, String)| p.0@);
    let n = options.len();
    if n == 0 {
        return "No options available.".to_owned();
    }
    let mut out: Vec<char> = Vec::new();
    if n == 1 {
        push_quoted(&mut out, &options[0].0);
        proof {
            assert(out@ =~= quoted(keys[0]));
        }
        return string_from_chars(&out);
    }
    push_quoted(&mut out, &options[0].0);
    proof {
        assert(keys.take(1).drop_last() =~= Seq::<Seq<char>>::empty());
        assert(keys.take(1)[0] == keys[0]);
        assert(out@ =~= quoted_join(keys.take(1)));
    }
    let mut i: usize = 1;
    while i < n - 1
        invariant
            1 <= i <= n - 1,
            n == options@.len(),
            n >= 2,
            keys == options@.map_values(|p: (String, String)| p.0@),
            out@ == quoted_join(keys.take(i as int)),
        decreases n - i,
    {
        out.push(',');
        out.push(' ');
        let ghost before = out@;
        push_quoted(&mut out, &options[i].0);
        proof {
            reveal_strlit(", ");
            assert(keys.take(i + 1 as int).drop_last() =~= keys.take(i as int));
            assert(keys.take(i + 1 as int).last() == keys[i as int]);
            assert(before =~= quoted_join(keys.take(i as int)) + ", "@);
            assert(out@ =~= quoted_join(keys.take(i as int)) + ", "@ + quoted(keys[i as int]));
        }
        i = i + 1;
    }
    out.push(' ');
    out.push('o');
    out.push('r');
    out.push(' ');
    let ghost before_last = out@;
    push_quoted(&mut out, &options[n - 1].0);
    proof {
        reveal_strlit(" or ");
        assert(keys.take(n - 1 as int) =~= keys.drop_last());
        assert(keys.last() == keys[n - 1]);
        assert(before_last =~= quoted_join(keys.drop_last()) + " or "@);
        assert(out@ =~= quoted_join(keys.drop_last()) + " or "@ + quoted(keys.last()));
    }
    string_from_chars(&out)
}

/// The visible error text for a node id that is not in the graph.
pub open spec fn invalid_node_text(id: Seq<char>) -> Seq<char> {
    "ERROR: Invalid node ID '"@ + id + "' found. Exiting."@
}

// ---------------------------------------------------------------------
// The engine.
// ---------------------------------------------------------------------
/// The dialogue state machine: the graph, the session's style, the
/// phase and the current node id.
pub struct DialogueEngine {
    pub graph: ConversationGraph,
    pub style: Style,
    pub phase: Phase,
    pub current: String,
}

impl DialogueEngine {
    /// While input is awaited, the current node id resolves: a bot turn
    /// for it was emitted before.
    pub open spec fn wf(self) -> bool {
        self.phase == Phase::AwaitingInput ==> spec_find_node(self.graph.nodes@, self.current@)
            is Some
    }

    /// A fresh engine: a bot turn for the start node is owed.
    pub fn new(graph: ConversationGraph, style: Style) -> (r: DialogueEngine)
        ensures
            r.graph == graph,
            r.style == style,
            r.phase == Phase::Emitting,
            r.current@ == start_node_id(),
            r.wf(),
    {
        DialogueEngine { graph, style, phase: Phase::Emitting, current: "start".to_owned() }
    }

    /// Emits the owed bot turn: the current node's text for the
    /// session's style, or a visible error when the id does not
    /// resolve, in which case the conversation ends. An end node also
    /// ends the conversation; otherwise input is awaited.
    pub fn emit_step(&mut self) -> (r: Option<String>)
        requires
            old(self).wf(),
        ensures
            final(self).wf(),
            final(self).graph == old(self).graph,
            final(self).style == old(self).style,
            final(self).current == old(self).current,
            old(self).phase != Phase::Emitting ==> *final(self) == *old(self) && r is None,
            old(self).phase == Phase::Emitting ==> match spec_find_node(
                old(self).graph.nodes@,
                old(self).current@,
            ) {
                None => final(self).phase == Phase::Ended && match r {
                    Some(t) => t@ == invalid_node_text(old(self).current@),
                    None => false,
                },
                Some(node) => final(self).phase == (if node.kind == NodeKind::End {
                    Phase::Ended
                } else {
                    Phase::AwaitingInput
                }) && match r {
                    Some(t) => t@ == node.spec_text_for(old(self).style),
                    None => false,
                },
            },
    {
        if self.phase != Phase::Emitting {
            return None;
        }
        let found = self.graph.find_node(&self.current);
        match found {
            None => {
                let msg = String::from_str("ERROR: Invalid node ID '").concat(
                    self.current.as_str(),
                ).concat("' found. Exiting.");
                self.phase = Phase::Ended;
                Some(msg)
            },
            Some(node) => {
                let text = node.text_for_style(self.style);
                let ends = node.kind == NodeKind::End;
                if ends {
                    self.phase = Phase::Ended;
                } else {
                    self.phase = Phase::AwaitingInput;
                }
                Some(text)
            },
        }
    }

    /// Routes a submitted raw line. A blank line is ignored; the first
    /// matching option keyword, an exact exit word, or the default
    /// successor routes to a new node; otherwise the node is unchanged
    /// and the punctuated help message comes back.
    pub fn submit(&mut self, raw: &String) -> (r: SubmitOutcome)
        requires
            old(self).wf(),
        ensures
            final(self).wf(),
            final(self).graph == old(self).graph,
            final(self).style == old(self).style,
            old(self).phase != Phase::AwaitingInput ==> *final(self) == *old(self) && r is Ignored,
            old(self).phase == Phase::AwaitingInput && normal_form(raw@).len() == 0 ==> *final(self)
                == *old(self) && r is Ignored,
            old(self).phase == Phase::AwaitingInput && normal_form(raw@).len() > 0 ==> match
                spec_find_node(old(self).graph.nodes@, old(self).current@) {
                Some(node) => match spec_route_target(node, normal_form(raw@)) {
                    Some(t) => final(self).phase == Phase::Emitting && final(self).current@ == t
                        && r is Routed,
                    None => final(self).phase == Phase::AwaitingInput
                        && final(self).current == old(self).current && match r {
                        SubmitOutcome::Help(h) => h@ == spec_help_message(node),
                        _ => false,
                    },
                },
                None => false,
            },
    {
        if self.phase != Phase::AwaitingInput {
            return SubmitOutcome::Ignored;
        }
        let u = normalize_chars(raw.as_str());
        if u.len() == 0 {
            return SubmitOutcome::Ignored;
        }
        let target: Option<String>;
        let help: Option<String>;
        {
            let found = self.graph.find_node(&self.current);
            let node = match found {
                Some(n) => n,
                None => {
                    proof {
                        assert(false);
                    }
                    return SubmitOutcome::Ignored;
                },
            };
            let n = node.options.len();
            let mut hit: Option<String> = None;
            let mut i: usize = 0;
            proof {
                assert(node.options@.skip(0) =~= node.options@);
            }
            while i < n
                invariant
                    i <= n,
                    n == node.options@.len(),
                    hit is None ==> spec_first_option(node.options@.skip(i as int), u@)
                        == spec_first_option(node.options@, u@),
                    match hit {
                        Some(t) => spec_first_option(node.options@, u@) == Some(t@),
                        None => true,
                    },
                decreases n - i,
            {
                if hit.is_none() {
                    proof {
                        assert(node.options@.skip(i as int)[0] == node.options@[i as int]);
                        assert(node.options@.skip(i as int).drop_first() =~= node.options@.skip(
                            i + 1 as int,
                        ));
                    }
                    let key = chars_of(node.options[i].0.as_str());
                    let lk = lower_chars(&key);
                    if starts_with(&u, &lk) {
                        hit = Some(node.options[i].1.clone());
                    }
                }
                i = i + 1;
            }
            proof {
                if hit is None {
                    assert(node.options@.skip(n as int) =~= Seq::<(String, String)>::empty());
                }
            }
            if hit.is_some() {
                target = hit;
                help = None;
            } else if is_exit_command(&u) {
                target = Some("exit_conversation".to_owned());
                help = None;
            } else {
                match &node.default_next {
                    Some(d) => {
                        target = Some(d.clone());
                        help = None;
                    },
                    None => {
                        let list = options_list(&node.options);
                        let msg = String::from_str(
                            "I'm sorry, I didn't understand that. Please choose from: ",
                        ).concat(list.as_str());
                        target = None;
                        help = Some(msg);
                    },
                }
            }
        }
        match target {
            Some(t) => {
                self.current = t;
                self.phase = Phase::Emitting;
                SubmitOutcome::Routed
            },
            None => {
                match help {
                    Some(h) => SubmitOutcome::Help(h),
                    None => {
                        proof {
                            assert(false);
                        }
                        SubmitOutcome::Ignored
                    },
                }
            },
        }
    }
}

} // verus!
