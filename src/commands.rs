pub mod help;
pub mod support;
pub mod support_channel;

use vstd::prelude::*;

verus! {

/// The slash commands this bot answers.
#[derive(Clone, Copy, Debug, PartialEq, Eq, Structural)]
pub enum ApplicationCommand {
    Support,
    SupportChannel,
    Help,
}

/// The command registered under `name`.
pub open spec fn command_named(name: Seq<char>) -> Option<ApplicationCommand> {
    if name == "support"@ {
        Some(ApplicationCommand::Support)
    } else if name == "support_channel"@ {
        Some(ApplicationCommand::SupportChannel)
    } else if name == "help"@ {
        Some(ApplicationCommand::Help)
    } else {
        None
    }
}

/// Whether two texts hold the same characters.
pub fn same_text(a: &str, b: &str) -> (r: bool)
    ensures
        r == (a@ == b@),
{
    let n = a.unicode_len();
    if n != b.unicode_len() {
        return false;
    }
    let mut i: usize = 0;
    while i < n
        invariant
            n == a@.len() == b@.len(),
            i <= n,
            forall|j: int| 0 <= j < i ==> a@[j] == b@[j],
        decreases n - i,
    {
        if a.get_char(i) != b.get_char(i) {
            return false;
        }
        i = i + 1;
    }
    assert(a@ =~= b@);
    true
}

/// The command that an interaction names, if this bot has one by that name.
pub fn command_from_name(name: &str) -> (r: Option<ApplicationCommand>)
    ensures
        r == command_named(name@),
{
    if same_text(name, "support") {
        Some(ApplicationCommand::Support)
    } else if same_text(name, "support_channel") {
        Some(ApplicationCommand::SupportChannel)
    } else if same_text(name, "help") {
        Some(ApplicationCommand::Help)
    } else {
        None
    }
}

} // verus!
