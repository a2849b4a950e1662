use vstd::prelude::*;
use vstd::string::*;
use crate::commands::{support, support_channel};

verus! {

pub const HELP_INTRO: &'static str =
    "Hi! My job is to connect you with the administrators of this server!\nI can create a _support thread_ that is _private_: only you and the admins can see it it.\nY'all can explicitly invite someone else to the thread by pinging them there.\n\nI support one command for everyone, and one command for administrators\n\n**Everyone commands**:\n";

pub const HELP_ADMIN_HEADING: &'static str = "\n\n**Admin commands**:\n";

/// The usage lines for every user.
pub open spec fn everyone_commands_docs() -> Seq<char> {
    "\t"@ + support::HELP_USAGE@ + "\t"@ + support::HELP_EXPLANATION_EXTENDED@
}

/// The usage lines for administrators.
pub open spec fn admin_commands_docs() -> Seq<char> {
    "\t"@ + support_channel::HELP_USAGE@ + "\t"@ + support_channel::HELP_EXPLANATION@
}

/// The help text: an introduction, then the commands for everyone and for administrators.
pub open spec fn help_message() -> Seq<char> {
    HELP_INTRO@ + everyone_commands_docs() + HELP_ADMIN_HEADING@ + admin_commands_docs() + "\n"@
}

/// Answers `/help`.
pub fn handle() -> (r: String)
    ensures
        r@ == help_message(),
{
    let mut s = String::from_str(HELP_INTRO);
    s.append("\t");
    s.append(support::HELP_USAGE);
    s.append("\t");
    s.append(support::HELP_EXPLANATION_EXTENDED);
    s.append(HELP_ADMIN_HEADING);
    s.append("\t");
    s.append(support_channel::HELP_USAGE);
    s.append("\t");
    s.append(support_channel::HELP_EXPLANATION);
    s.append("\n");
    assert(s@ =~= help_message());
    s
}

} // verus!
