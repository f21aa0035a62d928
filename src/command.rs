use vstd::prelude::*;

verus! {

/// A command that the command line can run.
#[derive(Clone, Copy, Debug, PartialEq, Eq, Structural)]
pub enum Command {
    Check,
    Generate,
}

/// Picks the command that a command-line word names; any other word is refused and
/// handed back.
pub fn select_command(command: &str) -> (r: Result<Command, String>)
    ensures
        command@ == "check"@ ==> r == Ok::<Command, String>(Command::Check),
        command@ == "generate"@ ==> r == Ok::<Command, String>(Command::Generate),
        command@ != "check"@ && command@ != "generate"@ ==> r is Err && r->Err_0@ == command@,
{
    proof {
        reveal_strlit("check");
        reveal_strlit("generate");
        assert("check"@.len() != "generate"@.len());
    }
    let word = command.to_owned();
    if word.eq(&"check".to_owned()) {
        Ok(Command::Check)
    } else if word.eq(&"generate".to_owned()) {
        Ok(Command::Generate)
    } else {
        Err(word)
    }
}

} // verus!
