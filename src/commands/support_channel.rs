use vstd::prelude::*;
use vstd::string::*;
use crate::ids::ChannelId;
use crate::text::{decimal, decimal_string};

verus! {

pub const HELP_USAGE: &'static str = "`/support_channel <channel>`";

pub const HELP_EXPLANATION: &'static str =
    "I will start using this channel as the location where I open support threads.";

/// The reply once the support channel is stored: by name when the channel has one, else as
/// a channel mention.
pub open spec fn confirmation_text(channel_name: Option<Seq<char>>, channel_id: ChannelId) -> Seq<
    char,
> {
    match channel_name {
        Some(name) => "Successfully set support channel to #"@ + name,
        None => "Successfully set support channel to <#"@ + decimal(channel_id.0 as nat) + ">"@,
    }
}

pub fn confirmation_reply(channel_name: Option<String>, channel_id: ChannelId) -> (r: String)
    ensures
        r@ == confirmation_text(
            match channel_name {
                Some(n) => Some(n@),
                None => None,
            },
            channel_id,
        ),
{
    match channel_name {
        Some(name) => {
            let mut s = String::from_str("Successfully set support channel to #");
            s.append(name.as_str());
            s
        },
        None => {
            let mut s = String::from_str("Successfully set support channel to <#");
            let id = decimal_string(channel_id.0);
            s.append(id.as_str());
            s.append(">");
            s
        },
    }
}

} // verus!
