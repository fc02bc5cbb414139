//! Commands typed by the local user.
use vstd::prelude::*;
use vstd::string::*;
use crate::text::{
    is_space, is_word, words, words_from, join_spaced, split_words, join_words, same_text,
    lemma_words_from_word, lemma_words_from_space, lemma_words_of_spaced, lemma_join_spaced_start,
};

verus! {

/// One line of local input, classified.
#[derive(Clone, Debug, PartialEq, Eq)]
pub enum UserCommand {
    /// Join a channel and focus it.
    JoinChannel(String),
    /// Send a text to the focused channel.
    SendMessage(String),
    /// Focus a channel, joining it first if needed.
    SwitchChannel(String),
    /// Anything else.
    Unknown,
}

/// The mathematical value of a `UserCommand`.
pub enum CommandModel {
    JoinChannel(Seq<char>),
    SendMessage(Seq<char>),
    SwitchChannel(Seq<char>),
    Unknown,
}

impl View for UserCommand {
    type V = CommandModel;

    open spec fn view(&self) -> CommandModel {
        match self {
            UserCommand::JoinChannel(c) => CommandModel::JoinChannel(c@),
            UserCommand::SendMessage(t) => CommandModel::SendMessage(t@),
            UserCommand::SwitchChannel(c) => CommandModel::SwitchChannel(c@),
            UserCommand::Unknown => CommandModel::Unknown,
        }
    }
}

/// What a line of input means: its first word picks the command and needs
/// at least one more word; `/join` and `/switch` take the
/// second word as the channel, `/msg` takes all further words joined by
/// single spaces. Anything else is `Unknown`.
pub open spec fn command_spec(line: Seq<char>) -> CommandModel {
    let w = words(line);
    if w.len() < 2 {
        CommandModel::Unknown
    } else if w[0] == "/join"@ {
        CommandModel::JoinChannel(w[1])
    } else if w[0] == "/msg"@ {
        CommandModel::SendMessage(join_spaced(w.subrange(1, w.len() as int)))
    } else if w[0] == "/switch"@ {
        CommandModel::SwitchChannel(w[1])
    } else {
        CommandModel::Unknown
    }
}

impl CommandModel {
    /// The commands that read back as themselves once typed: a channel name
    /// is one non-empty word, and a message text is one or more non-empty
    /// words joined by single spaces.
    pub open spec fn well_formed(self) -> bool {
        match self {
            CommandModel::JoinChannel(x) => x.len() > 0 && is_word(x),
            CommandModel::SwitchChannel(x) => x.len() > 0 && is_word(x),
            CommandModel::SendMessage(t) => exists|ws: Seq<Seq<char>>|
                ws.len() > 0 && (forall|k: int|
                    0 <= k < ws.len() ==> (#[trigger] ws[k]).len() > 0 && is_word(ws[k])) && t
                    == join_spaced(ws),
            CommandModel::Unknown => false,
        }
    }
}

/// The line a user types for a command.
pub open spec fn render_spec(c: CommandModel) -> Seq<char> {
    match c {
        CommandModel::JoinChannel(x) => "/join "@ + x,
        CommandModel::SwitchChannel(x) => "/switch "@ + x,
        CommandModel::SendMessage(t) => "/msg "@ + t,
        CommandModel::Unknown => seq![],
    }
}

/// The words of `kw + " " + rest`, for a one-word keyword `kw` and
/// a `rest` that starts with no whitespace.
proof fn lemma_after_keyword(s: Seq<char>, kw: Seq<char>)
    requires
        kw.len() > 0,
        is_word(kw),
        kw.len() + 1 < s.len(),
        s.subrange(0, kw.len() as int) == kw,
        s[kw.len() as int] == ' ',
        !is_space(s[kw.len() as int + 1]),
    ensures
        words(s) == seq![kw] + words_from(s, kw.len() as int + 1),
{
    assert(is_space(' '));
    lemma_words_from_word(s, 0, kw);
    lemma_words_from_space(s, kw.len() as int);
}

/// A command typed as its line reads back as the same command.
pub proof fn lemma_command_round_trip(c: CommandModel)
    requires
        c.well_formed(),
    ensures
        command_spec(render_spec(c)) == c,
{
    reveal_strlit("/join");
    reveal_strlit("/join ");
    reveal_strlit("/switch");
    reveal_strlit("/switch ");
    reveal_strlit("/msg");
    reveal_strlit("/msg ");
    assert("/switch"@[1] != "/join"@[1]);
    assert("/switch"@[1] != "/msg"@[1]);
    assert("/msg"@[1] != "/join"@[1]);
    let s = render_spec(c);
    match c {
        CommandModel::JoinChannel(x) => {
            let kw = "/join"@;
            assert(s.subrange(0, 5) =~= kw);
            assert(s[6] == x[0]);
            lemma_after_keyword(s, kw);
            assert(s.subrange(6, s.len() as int) =~= x);
            lemma_words_from_word(s, 6, x);
            assert(words_from(s, s.len() as int) =~= seq![]);
            assert(words(s) =~= seq![kw, x]);
        },
        CommandModel::SwitchChannel(x) => {
            let kw = "/switch"@;
            assert(s.subrange(0, 7) =~= kw);
            assert(s[8] == x[0]);
            lemma_after_keyword(s, kw);
            assert(s.subrange(8, s.len() as int) =~= x);
            lemma_words_from_word(s, 8, x);
            assert(words_from(s, s.len() as int) =~= seq![]);
            assert(words(s) =~= seq![kw, x]);
        },
        CommandModel::SendMessage(t) => {
            let ws = choose|ws: Seq<Seq<char>>|
                ws.len() > 0 && (forall|k: int|
                    0 <= k < ws.len() ==> (#[trigger] ws[k]).len() > 0 && is_word(ws[k])) && t
                    == join_spaced(ws);
            let kw = "/msg"@;
            lemma_join_spaced_start(ws);
            assert(s.subrange(0, 4) =~= kw);
            assert(s[5] == t[0]);
            assert(!is_space(ws[0][0]));
            lemma_after_keyword(s, kw);
            assert(s.subrange(5, s.len() as int) =~= t);
            lemma_words_of_spaced(s, 5, ws);
            assert(words_from(s, s.len() as int) =~= seq![]);
            let w = words(s);
            assert(w =~= seq![kw] + ws);
            assert(w.subrange(1, w.len() as int) =~= ws);
        },
        CommandModel::Unknown => {},
    }
}

/// Classifies one line of local input.
pub fn parse_user_input(line: &str) -> (c: UserCommand)
    ensures
        c@ == command_spec(line@),
{
    let ws = split_words(line);
    let ghost w = words(line@);
    if ws.len() < 2 {
        return UserCommand::Unknown;
    }
    if same_text(&ws[0], "/join") {
        UserCommand::JoinChannel(ws[1].clone())
    } else if same_text(&ws[0], "/msg") {
        let text = join_words(&ws, 1);
        assert(ws@.subrange(1, ws@.len() as int).map_values(|s: String| s@) =~= w.subrange(
            1,
            w.len() as int,
        ));
        UserCommand::SendMessage(text)
    } else if same_text(&ws[0], "/switch") {
        UserCommand::SwitchChannel(ws[1].clone())
    } else {
        UserCommand::Unknown
    }
}

} // verus!
