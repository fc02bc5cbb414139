//! The router: the single consumer of the event queue, which owns the
//! session and decides every outbound line.
use vstd::prelude::*;
use vstd::string::*;
use crate::codec::{ProtocolMessage, MessageModel, format_spec, format_line};
use crate::command::{UserCommand, CommandModel};
use crate::session::{SessionState, SessionModel, Outcome, Notice, step, run, opt_msg};

verus! {

/// One item on the router's queue.
#[derive(Clone, Debug, PartialEq, Eq)]
pub enum Event {
    /// A command typed by the local user.
    Local(UserCommand),
    /// A line read from the server, parsed.
    Inbound(ProtocolMessage),
    /// The server connection is gone: the session ends.
    Closed,
}

/// The keep-alive answer that a server message calls for: a `PONG` that
/// echoes the token of a `PING`, and nothing for any other message.
pub open spec fn pong_for(m: MessageModel) -> Option<MessageModel> {
    match m {
        MessageModel::Ping(t) => Some(MessageModel::Pong(t)),
        _ => None,
    }
}

/// Whether the session has ended, the session after the event, the message
/// sent and the notice reported.
pub open spec fn route(ended: bool, s: SessionModel, ev: Event) -> (
    bool,
    SessionModel,
    Option<MessageModel>,
    Option<Notice>,
) {
    if ended {
        (true, s, None, None)
    } else {
        match ev {
            Event::Local(c) => {
                let r = step(s, c@);
                (false, r.0, r.1, r.2)
            },
            Event::Inbound(m) => (false, s, pong_for(m@), None),
            Event::Closed => (true, s, None, None),
        }
    }
}

/// The handshake and the joins sent when a session starts.
pub open spec fn startup_spec(nick: Seq<char>, channels: Seq<Seq<char>>) -> Seq<MessageModel> {
    seq![MessageModel::Nick(nick), MessageModel::User(nick)] + channels.map_values(
        |c: Seq<char>| MessageModel::Join(c),
    )
}

/// The names of `channels` that are not empty, in order.
pub open spec fn named(channels: Seq<Seq<char>>) -> Seq<Seq<char>>
    decreases channels.len(),
{
    if channels.len() == 0 {
        seq![]
    } else if channels.last().len() == 0 {
        named(channels.drop_last())
    } else {
        named(channels.drop_last()).push(channels.last())
    }
}

/// The commands that joining each of `channels` in turn amounts to.
pub open spec fn join_all(channels: Seq<Seq<char>>) -> Seq<CommandModel> {
    channels.map_values(|c: Seq<char>| CommandModel::JoinChannel(c))
}

pub open spec fn views(ms: Seq<ProtocolMessage>) -> Seq<MessageModel> {
    ms.map_values(|m: ProtocolMessage| m@)
}

pub open spec fn texts(cs: Seq<String>) -> Seq<Seq<char>> {
    cs.map_values(|c: String| c@)
}

/// The answer to a server message: a `PONG` for a `PING`, else nothing.
pub fn keepalive_reply(m: &ProtocolMessage) -> (r: Option<ProtocolMessage>)
    ensures
        opt_msg(r) == pong_for(m@),
{
    match m {
        ProtocolMessage::Ping(t) => Some(ProtocolMessage::Pong(t.clone())),
        _ => None,
    }
}

/// A message as written on the connection: its wire form and CRLF.
pub fn wire_line(m: &ProtocolMessage) -> (r: String)
    ensures
        r@ == format_spec(m@) + "\r\n"@,
{
    format_line(m).concat("\r\n")
}

/// The two lines that identify a client: `NICK` and `USER`.
pub fn handshake(nickname: &String) -> (r: Vec<ProtocolMessage>)
    ensures
        views(r@) == seq![MessageModel::Nick(nickname@), MessageModel::User(nickname@)],
{
    let mut r: Vec<ProtocolMessage> = Vec::new();
    r.push(ProtocolMessage::Nick(nickname.clone()));
    r.push(ProtocolMessage::User(nickname.clone()));
    assert(views(r@) =~= seq![MessageModel::Nick(nickname@), MessageModel::User(nickname@)]);
    r
}

/// A running router answers a server `PING` with exactly one `PONG` that
/// echoes its token, reports nothing and leaves the session as it was.
pub proof fn lemma_ping_answered(s: SessionModel, m: ProtocolMessage, t: Seq<char>)
    requires
        m@ == MessageModel::Ping(t),
    ensures
        route(false, s, Event::Inbound(m)) == (false, s, Some(MessageModel::Pong(t)), None::<
            Notice,
        >),
{
}

/// In a running router, switching to a channel that is not joined sends
/// one `JOIN` for it, joins it and focuses it, as joining it does.
pub proof fn lemma_route_switch_to_new_channel(s: SessionModel, c: String)
    requires
        c@.len() > 0,
        !s.joined.contains(c@),
    ensures
        route(false, s, Event::Local(UserCommand::SwitchChannel(c))) == route(
            false,
            s,
            Event::Local(UserCommand::JoinChannel(c)),
        ),
        route(false, s, Event::Local(UserCommand::SwitchChannel(c))) == (
            false,
            SessionModel { joined: s.joined.insert(c@), current: Some(c@) },
            Some(MessageModel::Join(c@)),
            None::<Notice>,
        ),
{
}

/// In a running router with no channel in focus, sending writes nothing,
/// leaves the session as it was and reports that no channel is selected.
pub proof fn lemma_route_send_without_focus(s: SessionModel, t: String)
    requires
        s.current is None,
    ensures
        route(false, s, Event::Local(UserCommand::SendMessage(t))) == (
            false,
            s,
            None::<MessageModel>,
            Some(Notice::NoChannelSelected),
        ),
{
}

/// The router's state: the session it owns and whether it has ended.
pub struct Router {
    session: SessionState,
    ended: bool,
}

impl Router {
    pub closed spec fn model(&self) -> SessionModel {
        self.session@
    }

    pub closed spec fn is_ended(&self) -> bool {
        self.ended
    }

    pub closed spec fn wf(&self) -> bool {
        self.session.wf() && self.session@.focus_joined()
    }

    /// A running router over a fresh, empty session.
    pub fn new() -> (r: Router)
        ensures
            r.wf(),
            !r.is_ended(),
            r.model().focus_joined(),
            r.model() == SessionModel::empty(),
    {
        Router { session: SessionState::new(), ended: false }
    }

    /// Starts a session: identifies as `nickname` and joins each channel in
    /// turn, the last one ending in focus. Empty names are passed over.
    pub fn start(nickname: &String, channels: &Vec<String>) -> (r: (Router, Vec<ProtocolMessage>))
        ensures
            r.0.wf(),
            !r.0.is_ended(),
            r.0.model().focus_joined(),
            r.0.model() == run(SessionModel::empty(), join_all(texts(channels@))),
            views(r.1@) == startup_spec(nickname@, named(texts(channels@))),
    {
        let mut router = Router::new();
        let mut out = handshake(nickname);
        let ghost cs = texts(channels@);
        let mut i: usize = 0;
        assert(join_all(cs).subrange(0, 0) =~= Seq::<CommandModel>::empty());
        assert(cs.subrange(0, 0) =~= Seq::<Seq<char>>::empty());
        assert(views(out@) =~= startup_spec(nickname@, named(cs.subrange(0, 0))));
        while i < channels.len()
            invariant
                i <= channels@.len(),
                cs == texts(channels@),
                router.wf(),
                !router.is_ended(),
                router.model() == run(SessionModel::empty(), join_all(cs).subrange(0, i as int)),
                views(out@) == startup_spec(nickname@, named(cs.subrange(0, i as int))),
            decreases channels@.len() - i,
        {
            let c = channels[i].clone();
            let o = router.handle(Event::Local(UserCommand::JoinChannel(c)));
            proof {
                let js = join_all(cs).subrange(0, i + 1);
                assert(js.drop_last() =~= join_all(cs).subrange(0, i as int));
                assert(cs.subrange(0, i + 1).drop_last() =~= cs.subrange(0, i as int));
            }
            match o.outbound {
                Some(m) => {
                    proof {
                        let p = named(cs.subrange(0, i as int));
                        assert(named(cs.subrange(0, i + 1)) == p.push(cs[i as int]));
                        assert(views(out@.push(m)) =~= views(out@).push(m@));
                        assert(startup_spec(nickname@, p.push(cs[i as int])) =~= startup_spec(
                            nickname@,
                            p,
                        ).push(MessageModel::Join(cs[i as int])));
                    }
                    out.push(m);
                },
                None => {},
            }
            i += 1;
        }
        assert(cs.subrange(0, i as int) =~= cs);
        assert(texts(channels@) == cs);
        assert(join_all(cs).subrange(0, i as int) =~= join_all(cs));
        (router, out)
    }

    /// Takes the next event off the queue. Local commands change the session
    /// as `step` says; a server `PING` is answered with its `PONG` and any
    /// other server message leaves everything as it is; `Closed` ends the
    /// session, after which no event has any effect.
    pub fn handle(&mut self, ev: Event) -> (o: Outcome)
        requires
            old(self).wf(),
        ensures
            final(self).wf(),
            final(self).model().focus_joined(),
            (final(self).is_ended(), final(self).model(), opt_msg(o.outbound), o.notice) == route(
                old(self).is_ended(),
                old(self).model(),
                ev,
            ),
    {
        if self.ended {
            return Outcome { outbound: None, notice: None };
        }
        match ev {
            Event::Local(c) => self.session.apply(c),
            Event::Inbound(m) => Outcome { outbound: keepalive_reply(&m), notice: None },
            Event::Closed => {
                self.ended = true;
                Outcome { outbound: None, notice: None }
            },
        }
    }

    /// The session the router owns.
    pub fn session(&self) -> (r: &SessionState)
        ensures
            r@ == self.model(),
    {
        &self.session
    }

    /// Whether the connection has closed.
    pub fn has_ended(&self) -> (r: bool)
        ensures
            r == self.is_ended(),
    {
        self.ended
    }
}

} // verus!
