//! The command dispatch: from a parsed command line to the one action the
//! host process should take. The host performs the action; the decision
//! itself lives here.

use vstd::prelude::*;

use crate::walker::Merjong;

verus! {

/// The commands the executable accepts.
pub enum Command {
    /// No subcommand: act as the host's preprocessor over its protocol.
    Preprocess,
    /// The capability probe: does this preprocessor serve `renderer`?
    Supports { renderer: String },
    /// Provision the host configuration and the renderer assets.
    Install,
}

/// The action the host process should take for a command.
pub enum Directive {
    /// Read the collection from the host, transform it, write it back.
    RunPreprocessor,
    /// Exit with the given status code.
    Exit { code: i32 },
    /// Run the install pathway.
    RunInstall,
}

/// Decides what each command asks for. The capability probe always
/// reports support, so it always exits with status zero.
pub fn run(cmd: Command) -> (r: Directive)
    ensures
        cmd is Preprocess ==> r == Directive::RunPreprocessor,
        cmd is Supports ==> r == (Directive::Exit { code: 0 }),
        cmd is Install ==> r == Directive::RunInstall,
{
    match cmd {
        Command::Preprocess => Directive::RunPreprocessor,
        Command::Supports { renderer } => {
            let supported = Merjong.supports_renderer(renderer.as_str());
            if supported {
                Directive::Exit { code: 0 }
            } else {
                Directive::Exit { code: 1 }
            }
        },
        Command::Install => Directive::RunInstall,
    }
}

} // verus!
