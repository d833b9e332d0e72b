//! What a command line asks for: the two documents and the action.
use vstd::prelude::*;
use vstd::string::StringExecFns;

use crate::text::texts;

verus! {

/// What to do with the outcome of the comparison.
#[derive(Debug, Clone, Copy, PartialEq, Eq, Structural)]
pub enum Action {
    /// Report only.
    Check,
    /// Report, and write the merged document over the target.
    Merge,
}

/// The request that a command line makes.
#[derive(Debug, PartialEq, Eq)]
pub struct Config {
    pub base_path: String,
    pub target_path: String,
    pub action: Action,
}

/// The mathematical value of a [`Config`].
pub struct Request {
    pub base_path: Seq<char>,
    pub target_path: Seq<char>,
    pub action: Action,
}

impl View for Config {
    type V = Request;

    open spec fn view(&self) -> Request {
        Request { base_path: self.base_path@, target_path: self.target_path@, action: self.action }
    }
}

/// Whether `arg` is one of the two flags, `--check` and `--merge`.
pub open spec fn is_flag(arg: Seq<char>) -> bool {
    arg == "--check"@ || arg == "--merge"@
}

/// The arguments among the first `n` that are not flags, in order.
pub open spec fn positionals(args: Seq<Seq<char>>, n: int) -> Seq<Seq<char>>
    decreases n,
{
    if n <= 0 {
        Seq::empty()
    } else if is_flag(args[n - 1]) {
        positionals(args, n - 1)
    } else {
        positionals(args, n - 1).push(args[n - 1])
    }
}

/// The action that the first `n` arguments ask for: that of the last flag
/// among them, `Check` where there is none.
pub open spec fn action_of(args: Seq<Seq<char>>, n: int) -> Action
    decreases n,
{
    if n <= 0 {
        Action::Check
    } else if args[n - 1] == "--merge"@ {
        Action::Merge
    } else if args[n - 1] == "--check"@ {
        Action::Check
    } else {
        action_of(args, n - 1)
    }
}

/// What the command line `line` asks for. Its first word is the program's
/// name and is passed over.
///
/// The first argument that is not a flag names the base document, the second
/// the target document. A third is an error, as is the lack of either.
pub open spec fn request_of(line: Seq<Seq<char>>) -> Result<Request, Seq<char>> {
    let args = if line.len() > 0 {
        line.skip(1)
    } else {
        line
    };
    let named = positionals(args, args.len() as int);
    if named.len() > 2 {
        Err("Unexpected argument: "@ + named[2])
    } else if named.len() == 0 {
        Err("Missing base_file argument"@)
    } else if named.len() == 1 {
        Err("Missing target_file argument"@)
    } else {
        Ok(
            Request {
                base_path: named[0],
                target_path: named[1],
                action: action_of(args, args.len() as int),
            },
        )
    }
}

/// The view of an outcome of [`Config::from_args`].
pub open spec fn outcome_view(outcome: Result<Config, String>) -> Result<Request, Seq<char>> {
    match outcome {
        Ok(config) => Ok(config@),
        Err(message) => Err(message@),
    }
}

impl Config {
    /// Reads the command line `line`, whose first word is the program's name.
    pub fn from_args(line: &Vec<String>) -> (outcome: Result<Config, String>)
        ensures
            outcome_view(outcome) == request_of(texts(line@)),
    {
        if line.len() == 0 {
            return Err("Missing base_file argument".to_string());
        }
        let ghost args = texts(line@).skip(1);
        let mut base_path: Option<String> = None;
        let mut target_path: Option<String> = None;
        let mut action = Action::Check;
        let mut i: usize = 1;
        while i < line.len()
            invariant
                1 <= i <= line.len(),
                args == texts(line@).skip(1),
                action == action_of(args, i - 1),
                positionals(args, i - 1).len() <= 2,
                base_path is Some <==> positionals(args, i - 1).len() >= 1,
                target_path is Some <==> positionals(args, i - 1).len() >= 2,
                base_path matches Some(path) ==> path@ == positionals(args, i - 1)[0],
                target_path matches Some(path) ==> path@ == positionals(args, i - 1)[1],
            decreases line.len() - i,
        {
            let arg = &line[i];
            if *arg.as_str() == *"--merge" {
                action = Action::Merge;
            } else if *arg.as_str() == *"--check" {
                action = Action::Check;
            } else if base_path.is_none() {
                base_path = Some(arg.clone());
            } else if target_path.is_none() {
                target_path = Some(arg.clone());
            } else {
                let mut message = "Unexpected argument: ".to_string();
                message.append(arg.as_str());
                proof {
                    lemma_positionals_grow(args, i as int, args.len() as int);
                }
                return Err(message);
            }
            i += 1;
        }
        match base_path {
            None => Err("Missing base_file argument".to_string()),
            Some(base_path) => match target_path {
                None => Err("Missing target_file argument".to_string()),
                Some(target_path) => Ok(Config { base_path, target_path, action }),
            },
        }
    }
}

/// More arguments never take a positional argument away: the first `n` keep
/// their places among those of the first `m`.
proof fn lemma_positionals_grow(args: Seq<Seq<char>>, n: int, m: int)
    requires
        0 <= n <= m,
    ensures
        positionals(args, n).len() <= positionals(args, m).len(),
        forall|k: int|
            0 <= k < positionals(args, n).len() ==> positionals(args, m)[k] == positionals(
                args,
                n,
            )[k],
    decreases m - n,
{
    if n < m {
        lemma_positionals_grow(args, n, m - 1);
    }
}

} // verus!
