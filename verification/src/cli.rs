//! What the program is asked to do, decided from the options on its command
//! line once they are parsed.

use vstd::prelude::*;

verus! {

/// What the program is to do.
#[derive(Debug)]
pub enum Command {
    /// Print how the program is used, and nothing else.
    Help,
    /// Scan `target`, a file or a directory, against the rules in `rules`.
    Scan { rules: String, target: String },
    /// Stop: no rule source was named.
    MissingRules,
    /// Stop: nothing to scan was named.
    MissingTarget,
}

/// What is scanned when a target, a directory and a file may each be named:
/// the target if there is one, else the directory, else the file.
pub open spec fn chosen_target(
    target: Option<String>,
    dir: Option<String>,
    file: Option<String>,
) -> Option<String> {
    if target is Some {
        target
    } else if dir is Some {
        dir
    } else {
        file
    }
}

/// What the options ask for. A request for help wins over everything else;
/// the rule source is looked for before the target.
pub open spec fn planned(
    help: bool,
    rules: Option<String>,
    target: Option<String>,
    dir: Option<String>,
    file: Option<String>,
) -> Command {
    if help {
        Command::Help
    } else if rules is None {
        Command::MissingRules
    } else if chosen_target(target, dir, file) is None {
        Command::MissingTarget
    } else {
        Command::Scan { rules: rules->0, target: chosen_target(target, dir, file)->0 }
    }
}

/// Decides what to do from the parsed options: whether help was asked for,
/// the rule source, and the target, directory and file to scan, each as far
/// as it was given.
pub fn plan(
    help: bool,
    rules: Option<String>,
    target: Option<String>,
    dir: Option<String>,
    file: Option<String>,
) -> (command: Command)
    ensures
        command == planned(help, rules, target, dir, file),
{
    if help {
        return Command::Help;
    }
    let rules = match rules {
        Some(rules) => rules,
        None => {
            return Command::MissingRules;
        },
    };
    let chosen = match target {
        Some(target) => Some(target),
        None => match dir {
            Some(dir) => Some(dir),
            None => file,
        },
    };
    match chosen {
        Some(target) => Command::Scan { rules, target },
        None => Command::MissingTarget,
    }
}

} // verus!
