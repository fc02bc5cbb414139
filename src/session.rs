//! The session's channel state and the transitions that local commands make.
use vstd::prelude::*;
use crate::codec::{ProtocolMessage, MessageModel};
use crate::command::{UserCommand, CommandModel};
use crate::text::same_text;

verus! {

/// A condition reported to the local user only.
#[derive(Clone, Copy, Debug, PartialEq, Eq, Structural)]
pub enum Notice {
    /// A message was to be sent while no channel is focused.
    NoChannelSelected,
    /// The input was no command.
    UnrecognizedCommand,
}

/// The effect of one routed event: at most one outbound message and at most
/// one local notice.
#[derive(Clone, Debug, PartialEq, Eq)]
pub struct Outcome {
    pub outbound: Option<ProtocolMessage>,
    pub notice: Option<Notice>,
}

pub open spec fn opt_msg(o: Option<ProtocolMessage>) -> Option<MessageModel> {
    match o {
        Some(m) => Some(m@),
        None => None,
    }
}

/// The mathematical value of a `SessionState`.
pub struct SessionModel {
    pub joined: Set<Seq<char>>,
    pub current: Option<Seq<char>>,
}

impl SessionModel {
    /// The focused channel, when there is one, has been joined.
    pub open spec fn focus_joined(self) -> bool {
        match self.current {
            Some(c) => self.joined.contains(c),
            None => true,
        }
    }

    pub open spec fn empty() -> SessionModel {
        SessionModel { joined: Set::empty(), current: None }
    }
}

/// What a command does to the session: the state after it, the message
/// it sends and the notice it reports. A channel name must not be empty:
/// a join or a switch to the empty name is reported like an unknown command.
pub open spec fn step(
    s: SessionModel,
    c: CommandModel,
) -> (SessionModel, Option<MessageModel>, Option<Notice>) {
    match c {
        CommandModel::JoinChannel(x) => if x.len() == 0 {
            (s, None, Some(Notice::UnrecognizedCommand))
        } else {
            (
                SessionModel { joined: s.joined.insert(x), current: Some(x) },
                Some(MessageModel::Join(x)),
                None,
            )
        },
        CommandModel::SwitchChannel(x) => if x.len() == 0 {
            (s, None, Some(Notice::UnrecognizedCommand))
        } else if s.joined.contains(x) {
            (SessionModel { joined: s.joined, current: Some(x) }, None, None)
        } else {
            (
                SessionModel { joined: s.joined.insert(x), current: Some(x) },
                Some(MessageModel::Join(x)),
                None,
            )
        },
        CommandModel::SendMessage(t) => match s.current {
            Some(ch) => (s, Some(MessageModel::Privmsg(ch, t)), None),
            None => (s, None, Some(Notice::NoChannelSelected)),
        },
        CommandModel::Unknown => (s, None, Some(Notice::UnrecognizedCommand)),
    }
}

/// The session after a sequence of commands, applied in order.
pub open spec fn run(s: SessionModel, cs: Seq<CommandModel>) -> SessionModel
    decreases cs.len(),
{
    if cs.len() == 0 {
        s
    } else {
        step(run(s, cs.drop_last()), cs.last()).0
    }
}

/// From a session whose focus is a joined channel, any sequence of
/// commands leads to a session whose focus, if any, is a joined channel.
pub proof fn lemma_focus_stays_joined(s: SessionModel, cs: Seq<CommandModel>)
    requires
        s.focus_joined(),
    ensures
        run(s, cs).focus_joined(),
    decreases cs.len(),
{
    if cs.len() > 0 {
        lemma_focus_stays_joined(s, cs.drop_last());
    }
}

/// Switching to a channel that has not been joined does what joining it
/// does: one `JOIN` goes out, the channel is joined and in focus.
pub proof fn lemma_switch_to_new_channel_joins(s: SessionModel, c: Seq<char>)
    requires
        c.len() > 0,
        !s.joined.contains(c),
    ensures
        step(s, CommandModel::SwitchChannel(c)) == step(s, CommandModel::JoinChannel(c)),
        step(s, CommandModel::SwitchChannel(c)).1 == Some(MessageModel::Join(c)),
        step(s, CommandModel::SwitchChannel(c)).0.current == Some(c),
        step(s, CommandModel::SwitchChannel(c)).0.joined.contains(c),
{
}

/// Sending with no channel in focus sends nothing, leaves the session as it
/// was and reports that no channel is selected.
pub proof fn lemma_send_without_focus(s: SessionModel, t: Seq<char>)
    requires
        s.current is None,
    ensures
        step(s, CommandModel::SendMessage(t)) == (s, None::<MessageModel>, Some(
            Notice::NoChannelSelected,
        )),
{
}

/// The channels joined and the channel in focus.
pub struct SessionState {
    joined: Vec<String>,
    current: Option<String>,
}

impl View for SessionState {
    type V = SessionModel;

    closed spec fn view(&self) -> SessionModel {
        SessionModel {
            joined: self.names().to_set(),
            current: match self.current {
                Some(c) => Some(c@),
                None => None,
            },
        }
    }
}

impl SessionState {
    pub closed spec fn names(&self) -> Seq<Seq<char>> {
        self.joined@.map_values(|s: String| s@)
    }

    /// Joined channels are listed once each, and the focus is among them.
    pub closed spec fn wf(&self) -> bool {
        &&& self.names().no_duplicates()
        &&& self@.focus_joined()
    }

    /// A session with no channel.
    pub fn new() -> (r: SessionState)
        ensures
            r.wf(),
            r@.focus_joined(),
            r@ == SessionModel::empty(),
    {
        let r = SessionState { joined: Vec::new(), current: None };
        assert(r.names().to_set() =~= Set::empty());
        r
    }

    /// Whether `c` has been joined.
    pub fn is_joined(&self, c: &String) -> (r: bool)
        ensures
            r == self@.joined.contains(c@),
    {
        let mut i: usize = 0;
        while i < self.joined.len()
            invariant
                i <= self.joined@.len(),
                forall|j: int| 0 <= j < i ==> self.joined@[j]@ != c@,
            decreases self.joined@.len() - i,
        {
            if same_text(&self.joined[i], c.as_str()) {
                assert(self.names()[i as int] == c@);
                return true;
            }
            i += 1;
        }
        assert(!self.names().contains(c@));
        false
    }

    /// The channel in focus.
    pub fn current_channel(&self) -> (r: Option<String>)
        ensures
            match r {
                Some(c) => self@.current == Some(c@),
                None => self@.current is None,
            },
    {
        match &self.current {
            Some(c) => Some(c.clone()),
            None => None,
        }
    }

    /// The joined channels, each once, in the order they were joined.
    pub fn joined_channels(&self) -> (r: Vec<String>)
        ensures
            r@.map_values(|s: String| s@) == self.names(),
            r@.map_values(|s: String| s@).to_set() == self@.joined,
    {
        let r = self.joined.clone();
        assert(r@.map_values(|s: String| s@) =~= self.names());
        r
    }

    /// Adds `c` to the joined channels, if it is not there yet, and focuses it.
    fn enter(&mut self, c: String)
        requires
            old(self).wf(),
        ensures
            final(self).wf(),
            final(self)@ == (SessionModel {
                joined: old(self)@.joined.insert(c@),
                current: Some(c@),
            }),
    {
        let ghost x = c@;
        if !self.is_joined(&c) {
            let ghost before = self.names();
            self.joined.push(c.clone());
            assert(self.names() =~= before.push(x));
            assert(self.names().to_set() =~= before.to_set().insert(x)) by {
                assert forall|y: Seq<char>| self.names().contains(y) <==> (before.contains(y)
                    || y == x) by {
                    if before.contains(y) {
                        let i = choose|i: int| 0 <= i < before.len() && before[i] == y;
                        assert(self.names()[i] == y);
                    }
                    if y == x {
                        assert(self.names()[before.len() as int] == y);
                    }
                    if self.names().contains(y) {
                        let i = choose|i: int| 0 <= i < self.names().len() && self.names()[i] == y;
                        if i < before.len() {
                            assert(before[i] == y);
                        }
                    }
                }
            }
        } else {
            assert(self@.joined.insert(x) =~= self@.joined);
        }
        self.current = Some(c);
    }

    /// Routes one local command: updates the session and says what to send
    /// and what to report.
    pub fn apply(&mut self, cmd: UserCommand) -> (o: Outcome)
        requires
            old(self).wf(),
        ensures
            final(self).wf(),
            final(self)@.focus_joined(),
            (final(self)@, opt_msg(o.outbound), o.notice) == step(old(self)@, cmd@),
    {
        match cmd {
            UserCommand::JoinChannel(c) => {
                if c.as_str().is_empty() {
                    return Outcome { outbound: None, notice: Some(Notice::UnrecognizedCommand) };
                }
                let m = ProtocolMessage::Join(c.clone());
                self.enter(c);
                Outcome { outbound: Some(m), notice: None }
            },
            UserCommand::SwitchChannel(c) => {
                if c.as_str().is_empty() {
                    Outcome { outbound: None, notice: Some(Notice::UnrecognizedCommand) }
                } else if self.is_joined(&c) {
                    self.current = Some(c);
                    Outcome { outbound: None, notice: None }
                } else {
                    let m = ProtocolMessage::Join(c.clone());
                    self.enter(c);
                    Outcome { outbound: Some(m), notice: None }
                }
            },
            UserCommand::SendMessage(t) => match &self.current {
                Some(ch) => Outcome {
                    outbound: Some(ProtocolMessage::Privmsg(ch.clone(), t)),
                    notice: None,
                },
                None => Outcome { outbound: None, notice: Some(Notice::NoChannelSelected) },
            },
            UserCommand::Unknown => Outcome {
                outbound: None,
                notice: Some(Notice::UnrecognizedCommand),
            },
        }
    }
}

} // verus!
