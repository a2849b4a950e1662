use vstd::prelude::*;
use vstd::string::*;
use crate::ids::ChannelId;

verus! {

pub const HELP_USAGE: &'static str = "`/support <thread-title>`";

/// At most 100 characters, as the platform requires of command descriptions.
pub const HELP_EXPLANATION: &'static str = "I will create a support thread with your supplied title.";

pub const HELP_EXPLANATION_EXTENDED: &'static str =
    "I will create a support thread with your supplied title.\n\t\t(appended to your nickname here, i.e. `your-nick | thread-title`, and truncated to 100 characters)";

/// Why `/support` could not open a thread.
#[derive(Clone, Copy, Debug, PartialEq, Eq, Structural)]
pub enum SupportThreadError {
    /// The guild has no support channel.
    UnconfiguredGuild,
}

impl SupportThreadError {
    /// The text shown to the user.
    pub fn message(&self) -> (r: String)
        ensures
            r@ == "This server has not been configured with /support_channel. Please advise an admin there to run this command."@,
    {
        match self {
            SupportThreadError::UnconfiguredGuild => String::from_str(
                "This server has not been configured with /support_channel. Please advise an admin there to run this command.",
            ),
        }
    }
}

/// The channel to open the support thread under: the guild's support channel, which must
/// have been set.
pub fn support_thread_channel(support_channel_id: Option<ChannelId>) -> (r: Result<
    ChannelId,
    SupportThreadError,
>)
    ensures
        match support_channel_id {
            Some(c) => r == Ok::<ChannelId, SupportThreadError>(c),
            None => r == Err::<ChannelId, SupportThreadError>(
                SupportThreadError::UnconfiguredGuild,
            ),
        },
{
    match support_channel_id {
        None => Err(SupportThreadError::UnconfiguredGuild),
        Some(c) => Ok(c),
    }
}

} // verus!
