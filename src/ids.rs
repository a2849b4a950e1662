use vstd::prelude::*;

verus! {

/// Identifier of a guild (a server or community on the chat platform).
#[derive(Clone, Copy, Debug, PartialEq, Eq, Structural)]
pub struct GuildId(pub u64);

/// Identifier of a channel, meaningful inside one guild.
#[derive(Clone, Copy, Debug, PartialEq, Eq, Structural)]
pub struct ChannelId(pub u64);

impl From<u64> for GuildId {
    fn from(v: u64) -> (r: GuildId)
        ensures
            r.0 == v,
    {
        GuildId(v)
    }
}

impl vstd::std_specs::convert::FromSpecImpl<u64> for GuildId {
    open spec fn obeys_from_spec() -> bool {
        true
    }

    open spec fn from_spec(v: u64) -> GuildId {
        GuildId(v)
    }
}

impl From<u64> for ChannelId {
    fn from(v: u64) -> (r: ChannelId)
        ensures
            r.0 == v,
    {
        ChannelId(v)
    }
}

impl vstd::std_specs::convert::FromSpecImpl<u64> for ChannelId {
    open spec fn obeys_from_spec() -> bool {
        true
    }

    open spec fn from_spec(v: u64) -> ChannelId {
        ChannelId(v)
    }
}

} // verus!
