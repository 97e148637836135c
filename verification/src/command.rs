use vstd::prelude::*;

use crate::text::string_views;

verus! {

/// Which commands a front end accepts besides `load <path>` and
/// `ask <question>`.
#[derive(Clone, Copy, Debug, PartialEq, Eq)]
pub enum CommandSet {
    /// `load <path>` and `ask <question>` only.
    Pages,
    /// Also `load <path> <strategy>`; a bare `load <path>` means the `fixed`
    /// strategy.
    Strategies,
    /// Also `init_db`.
    Documents,
}

/// What the command line asks for.
#[derive(Debug)]
pub enum Command {
    Load { path: String, strategy: Option<String> },
    Ask { question: String },
    InitDb,
    Usage,
}

/// What the command line asks for, over character sequences.
pub enum CommandView {
    Load { path: Seq<char>, strategy: Option<Seq<char>> },
    Ask { question: Seq<char> },
    InitDb,
    Usage,
}

impl View for Command {
    type V = CommandView;

    open spec fn view(&self) -> CommandView {
        match self {
            Command::Load { path, strategy } => CommandView::Load {
                path: path@,
                strategy: match strategy {
                    Some(s) => Some(s@),
                    None => None,
                },
            },
            Command::Ask { question } => CommandView::Ask { question: question@ },
            Command::InitDb => CommandView::InitDb,
            Command::Usage => CommandView::Usage,
        }
    }
}

/// The command that the arguments (the program name first) ask for.
pub open spec fn command_for(args: Seq<Seq<char>>, set: CommandSet) -> CommandView {
    if args.len() == 3 && args[1] == "load"@ {
        CommandView::Load {
            path: args[2],
            strategy: if set == CommandSet::Strategies {
                Some("fixed"@)
            } else {
                None
            },
        }
    } else if set == CommandSet::Strategies && args.len() == 4 && args[1] == "load"@ {
        CommandView::Load { path: args[2], strategy: Some(args[3]) }
    } else if set == CommandSet::Documents && args.len() == 2 && args[1] == "init_db"@ {
        CommandView::InitDb
    } else if args.len() == 3 && args[1] == "ask"@ {
        CommandView::Ask { question: args[2] }
    } else {
        CommandView::Usage
    }
}

/// What each command line asks for, whatever the front end: `ask <question>`
/// always asks the question; `load <path>` always loads the file (with the
/// `fixed` strategy where strategies are known); `load <path> <strategy>`
/// loads with that strategy where strategies are known and asks for the
/// usage text elsewhere; `init_db` initialises where documents are known and
/// asks for the usage text elsewhere; any other line asks for the usage text.
pub proof fn lemma_command_lines(args: Seq<Seq<char>>, set: CommandSet)
    ensures
        args.len() == 3 && args[1] == "ask"@ ==> command_for(args, set) == (CommandView::Ask {
            question: args[2],
        }),
        args.len() == 3 && args[1] == "load"@ && set == CommandSet::Strategies ==> command_for(
            args,
            set,
        ) == (CommandView::Load { path: args[2], strategy: Some("fixed"@) }),
        args.len() == 3 && args[1] == "load"@ && set != CommandSet::Strategies ==> command_for(
            args,
            set,
        ) == (CommandView::Load { path: args[2], strategy: None }),
        args.len() == 4 && args[1] == "load"@ && set == CommandSet::Strategies ==> command_for(
            args,
            set,
        ) == (CommandView::Load { path: args[2], strategy: Some(args[3]) }),
        args.len() == 4 && args[1] == "load"@ && set != CommandSet::Strategies ==> command_for(
            args,
            set,
        ) == CommandView::Usage,
        args.len() == 2 && args[1] == "init_db"@ && set == CommandSet::Documents ==> command_for(
            args,
            set,
        ) == CommandView::InitDb,
        args.len() == 2 && args[1] == "init_db"@ && set != CommandSet::Documents ==> command_for(
            args,
            set,
        ) == CommandView::Usage,
        !(args.len() == 3 && (args[1] == "ask"@ || args[1] == "load"@)) && !(args.len() == 4
            && args[1] == "load"@) && !(args.len() == 2 && args[1] == "init_db"@) ==> command_for(
            args,
            set,
        ) == CommandView::Usage,
{
    reveal_strlit("ask");
    reveal_strlit("load");
    reveal_strlit("init_db");
    assert("ask"@ != "load"@) by {
        assert("ask"@[0] != "load"@[0]);
    }
}

fn is_word(s: &String, word: &str) -> (b: bool)
    ensures
        b == (s@ == word@),
{
    let w = word.to_owned();
    *s == w
}

/// Reads the command from the arguments, the program name first; anything
/// it does not know asks for the usage text.
pub fn parse_command(args: &Vec<String>, set: CommandSet) -> (c: Command)
    ensures
        c@ == command_for(string_views(args@), set),
{
    let ghost views = string_views(args@);
    let n = args.len();
    let strategies = match set {
        CommandSet::Strategies => true,
        _ => false,
    };
    let documents = match set {
        CommandSet::Documents => true,
        _ => false,
    };
    if n >= 2 {
        assert(views[1] == args@[1]@);
    }
    if n >= 3 {
        assert(views[2] == args@[2]@);
    }
    if n >= 4 {
        assert(views[3] == args@[3]@);
    }
    if n == 3 && is_word(&args[1], "load") {
        let strategy = if strategies {
            Some("fixed".to_owned())
        } else {
            None
        };
        Command::Load { path: args[2].clone(), strategy }
    } else if strategies && n == 4 && is_word(&args[1], "load") {
        Command::Load { path: args[2].clone(), strategy: Some(args[3].clone()) }
    } else if documents && n == 2 && is_word(&args[1], "init_db") {
        Command::InitDb
    } else if n == 3 && is_word(&args[1], "ask") {
        Command::Ask { question: args[2].clone() }
    } else {
        Command::Usage
    }
}

} // verus!
