//! The conversation graph: nodes with per-style message variants,
//! keyword options and an optional default successor, plus the random
//! choice of the session's style.
use vstd::prelude::*;

verus! {

/// The tones a session can be held in; one is chosen per session.
#[derive(Clone, Copy, PartialEq, Eq, Structural, Debug)]
pub enum Style {
    Base,
    Formal,
    Casual,
    Humorous,
    Inquisitive,
    Narrative,
    Concise,
    Encouraging,
    Playful,
}

/// How many styles there are.
pub const STYLE_COUNT: u64 = 9;

/// Whether a node ends the conversation.
#[derive(Clone, Copy, PartialEq, Eq, Structural, Debug)]
pub enum NodeKind {
    Ordinary,
    End,
}

/// One node of the conversation graph.
pub struct Node {
    pub id: String,
    pub kind: NodeKind,
    pub messages: Vec<(Style, String)>,
    pub options: Vec<(String, String)>,
    pub default_next: Option<String>,
}

/// The whole conversation graph, built once and then read-only.
pub struct ConversationGraph {
    pub nodes: Vec<Node>,
}

/// The style chosen when `i` came from the random source.
pub open spec fn style_of_index(i: int) -> Style {
    if i == 0 {
        Style::Base
    } else if i == 1 {
        Style::Formal
    } else if i == 2 {
        Style::Casual
    } else if i == 3 {
        Style::Humorous
    } else if i == 4 {
        Style::Inquisitive
    } else if i == 5 {
        Style::Narrative
    } else if i == 6 {
        Style::Concise
    } else if i == 7 {
        Style::Encouraging
    } else {
        Style::Playful
    }
}

/// The style for one draw of the random source.
pub fn style_from_index(i: u64) -> (r: Style)
    ensures
        r == style_of_index(i as int % STYLE_COUNT as int),
{
    let k = i % STYLE_COUNT;
    if k == 0 {
        Style::Base
    } else if k == 1 {
        Style::Formal
    } else if k == 2 {
        Style::Casual
    } else if k == 3 {
        Style::Humorous
    } else if k == 4 {
        Style::Inquisitive
    } else if k == 5 {
        Style::Narrative
    } else if k == 6 {
        Style::Concise
    } else if k == 7 {
        Style::Encouraging
    } else {
        Style::Playful
    }
}

/// Relies on rand::random: a machine-random value about which nothing
/// further is promised.
pub assume_specification<T>[ rand::random::<T> ]() -> (r: T)
    where
        rand::distributions::Standard: rand::distributions::Distribution<T>,
;

/// One style chosen at random for the whole session.
pub fn random_style() -> Style {
    let i: u64 = rand::random::<u64>();
    style_from_index(i)
}

/// The text a node offers for a style, if the node carries that style.
pub open spec fn spec_message_for(msgs: Seq<(Style, String)>, style: Style) -> Option<Seq<char>>
    decreases msgs.len(),
{
    if msgs.len() == 0 {
        None
    } else if msgs[0].0 == style {
        Some(msgs[0].1@)
    } else {
        spec_message_for(msgs.drop_first(), style)
    }
}

/// The fixed apology shown when a node lacks text for the chosen style.
pub open spec fn apology_text() -> Seq<char> {
    "I apologize, but I seem to have encountered a conversational glitch."@
}

impl Node {
    /// The text this node shows under the given style: its own variant,
    /// or the apology when the style is missing.
    pub open spec fn spec_text_for(self, style: Style) -> Seq<char> {
        match spec_message_for(self.messages@, style) {
            Some(t) => t,
            None => apology_text(),
        }
    }

    /// Looks the style's text up, falling back to the apology.
    pub fn text_for_style(&self, style: Style) -> (r: String)
        ensures
            r@ == self.spec_text_for(style),
    {
        let n = self.messages.len();
        let mut i: usize = 0;
        proof {
            assert(self.messages@.skip(0) =~= self.messages@);
        }
        while i < n
            invariant
                i <= n,
                n == self.messages@.len(),
                spec_message_for(self.messages@.skip(i as int), style) == spec_message_for(
                    self.messages@,
                    style,
                ),
            decreases n - i,
        {
            proof {
                assert(self.messages@.skip(i as int)[0] == self.messages@[i as int]);
                assert(self.messages@.skip(i as int).drop_first() =~= self.messages@.skip(
                    i + 1 as int,
                ));
            }
            if self.messages[i].0 == style {
                return self.messages[i].1.clone();
            }
            i = i + 1;
        }
        proof {
            assert(self.messages@.skip(n as int) =~= Seq::<(Style, String)>::empty());
        }
        "I apologize, but I seem to have encountered a conversational glitch.".to_owned()
    }
}

/// The first node of the sequence carrying the given id.
pub open spec fn spec_find_node(nodes: Seq<Node>, id: Seq<char>) -> Option<Node>
    decreases nodes.len(),
{
    if nodes.len() == 0 {
        None
    } else if nodes[0].id@ == id {
        Some(nodes[0])
    } else {
        spec_find_node(nodes.drop_first(), id)
    }
}

impl ConversationGraph {
    /// The node with the given id, if the graph holds one.
    pub fn find_node(&self, id: &String) -> (r: Option<&Node>)
        ensures
            match r {
                Some(n) => spec_find_node(self.nodes@, id@) == Some(*n),
                None => spec_find_node(self.nodes@, id@) is None,
            },
    {
        let n = self.nodes.len();
        let mut i: usize = 0;
        proof {
            assert(self.nodes@.skip(0) =~= self.nodes@);
        }
        while i < n
            invariant
                i <= n,
                n == self.nodes@.len(),
                spec_find_node(self.nodes@.skip(i as int), id@) == spec_find_node(
                    self.nodes@,
                    id@,
                ),
            decreases n - i,
        {
            proof {
                assert(self.nodes@.skip(i as int)[0] == self.nodes@[i as int]);
                assert(self.nodes@.skip(i as int).drop_first() =~= self.nodes@.skip(i + 1 as int));
            }
            if self.nodes[i].id == *id {
                return Some(&self.nodes[i]);
            }
            i = i + 1;
        }
        proof {
            assert(self.nodes@.skip(n as int) =~= Seq::<Node>::empty());
        }
        None
    }
}

} // verus!
