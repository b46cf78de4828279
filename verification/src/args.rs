//! The program's arguments.
use crate::text;
use crate::text::same;
use vstd::prelude::*;
use vstd::string::*;

verus! {

broadcast use crate::text::group_views;

/// What the program is asked to do.
#[derive(Debug)]
pub enum Command<T> {
    /// Chat, in a saved session where one is named.
    Chat(Option<T>),
    Help,
    Version,
}

impl View for Command<String> {
    type V = Command<Seq<char>>;

    open spec fn view(&self) -> Command<Seq<char>> {
        match self {
            Command::Chat(id) => Command::Chat(text::opt_view(*id)),
            Command::Help => Command::Help,
            Command::Version => Command::Version,
        }
    }
}

/// How the program is used, where the arguments say nothing it knows.
#[derive(Clone, Copy, Debug, PartialEq, Eq, Structural)]
pub enum Usage {
    Resume,
    All,
}

impl Usage {
    /// What the user reads.
    pub fn message(self) -> (r: &'static str)
        ensures
            r@ == match self {
                Usage::Resume => "usage: kamui -r <session-id>"@,
                Usage::All => "usage: kamui [-r <session-id>]"@,
            },
    {
        match self {
            Usage::Resume => "usage: kamui -r <session-id>",
            Usage::All => "usage: kamui [-r <session-id>]",
        }
    }
}

/// What the arguments, without the program's name, ask for.
pub open spec fn asked(arguments: Seq<Seq<char>>) -> Result<Command<Seq<char>>, Usage> {
    if arguments.len() == 0 {
        Ok(Command::Chat(None))
    } else if arguments[0] == "-r"@ || arguments[0] == "--resume"@ {
        if arguments.len() == 2 {
            Ok(Command::Chat(Some(arguments[1])))
        } else {
            Err(Usage::Resume)
        }
    } else if arguments[0] == "-h"@ || arguments[0] == "--help"@ {
        Ok(Command::Help)
    } else if arguments[0] == "-V"@ || arguments[0] == "--version"@ {
        Ok(Command::Version)
    } else {
        Err(Usage::All)
    }
}

/// What the arguments, without the program's name, ask for.
pub fn parse_command(arguments: &[String]) -> (r: Result<Command<String>, Usage>)
    ensures
        match r {
            Ok(command) => asked(text::views(arguments@)) == Ok::<Command<Seq<char>>, Usage>(
                command@,
            ),
            Err(usage) => asked(text::views(arguments@)) == Err::<Command<Seq<char>>, Usage>(usage),
        },
{
    if arguments.len() == 0 {
        return Ok(Command::Chat(None));
    }
    let first = arguments[0].as_str();
    if same(first, "-r") || same(first, "--resume") {
        if arguments.len() == 2 {
            Ok(Command::Chat(Some(arguments[1].clone())))
        } else {
            Err(Usage::Resume)
        }
    } else if same(first, "-h") || same(first, "--help") {
        Ok(Command::Help)
    } else if same(first, "-V") || same(first, "--version") {
        Ok(Command::Version)
    } else {
        Err(Usage::All)
    }
}

/// The session to resume is the one that was named, whichever way it was asked for; a name that is
/// missing, or more than one, is refused, and so is anything unknown.
pub proof fn law_the_named_session_is_resumed(id: Seq<char>, more: Seq<char>)
    ensures
        asked(seq!["-r"@, id]) == Ok::<Command<Seq<char>>, Usage>(Command::Chat(Some(id))),
        asked(seq!["--resume"@, id]) == Ok::<Command<Seq<char>>, Usage>(Command::Chat(Some(id))),
        asked(seq!["-r"@]) is Err,
        asked(seq!["-r"@, id, more]) is Err,
        asked(seq![]) == Ok::<Command<Seq<char>>, Usage>(Command::Chat(None)),
        more.len() > 0 && more[0] != '-' ==> asked(seq![more]) is Err && asked(seq![more, id]) is Err,
{
    reveal_strlit("-r");
    reveal_strlit("--resume");
    reveal_strlit("-h");
    reveal_strlit("--help");
    reveal_strlit("-V");
    reveal_strlit("--version");
    assert("-r"@[0] == '-' && "--resume"@[0] == '-' && "-h"@[0] == '-' && "--help"@[0] == '-'
        && "-V"@[0] == '-' && "--version"@[0] == '-');
}

} // verus!
