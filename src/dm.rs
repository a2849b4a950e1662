use vstd::prelude::*;
use vstd::string::*;
use crate::graphemes::{clusters_nonempty, MessageGraphemes};
use crate::ids::{ChannelId, GuildId};
pub use crate::thread_name::generate_thread_name;
use crate::text::{
    all_digits, decimal, decimal_string, digits_value, is_digit, is_digit_spec, is_whitespace,
    is_whitespace_spec, parse_digits,
};

verus! {

/// Minutes of inactivity after which a support thread is archived (three days).
pub const SUPPORT_THREAD_AUTO_ARCHIVE_MINUTES: u16 = 4320;

/// Why a direct message could not be tied to one configured guild.
#[derive(Debug)]
pub enum DmError {
    /// None of the guilds shared with the author has a support channel.
    NoConfiguredGuilds,
    /// The named guild is shared with the author but has no support channel.
    UnconfiguredGuild { guild_id: GuildId },
    /// The named guild is not one of the author's guilds that use this bot.
    WrongGuildId { guild_id: GuildId },
    /// Several configured guilds are shared and the message named none of them.
    UnspecifiedGuildId { formatted_configured_guild_ids: String },
    /// The guild identifier at the start of the message holds a stray character.
    WrongCharInGuildId { wrong_char: char },
    /// The guild identifier does not fit in 64 bits.
    GuildIdOutOfRange,
}

/// The mathematical value of a `DmError`.
pub ghost enum DmFailure {
    NoConfiguredGuilds,
    UnconfiguredGuild { guild_id: GuildId },
    WrongGuildId { guild_id: GuildId },
    UnspecifiedGuildId { formatted_configured_guild_ids: Seq<char> },
    WrongCharInGuildId { wrong_char: char },
    GuildIdOutOfRange,
}

impl View for DmError {
    type V = DmFailure;

    open spec fn view(&self) -> DmFailure {
        match self {
            DmError::NoConfiguredGuilds => DmFailure::NoConfiguredGuilds,
            DmError::UnconfiguredGuild { guild_id } => DmFailure::UnconfiguredGuild {
                guild_id: *guild_id,
            },
            DmError::WrongGuildId { guild_id } => DmFailure::WrongGuildId { guild_id: *guild_id },
            DmError::UnspecifiedGuildId { formatted_configured_guild_ids } =>
                DmFailure::UnspecifiedGuildId {
                formatted_configured_guild_ids: formatted_configured_guild_ids@,
            },
            DmError::WrongCharInGuildId { wrong_char } => DmFailure::WrongCharInGuildId {
                wrong_char: *wrong_char,
            },
            DmError::GuildIdOutOfRange => DmFailure::GuildIdOutOfRange,
        }
    }
}

pub const NO_CONFIGURED_GUILDS_TEXT: &'static str =
    "None of your common guilds has been configured. Please advise someone with the Manage Server permission there to run the set_support_channel command.";

pub const GUILD_ID_PREFIX_TEXT: &'static str = "Guild with ID ";

pub const UNCONFIGURED_GUILD_TEXT: &'static str =
    " has not been configured. Please advise someone with the Manage Server permission there to run the set_support_channel command.";

pub const WRONG_GUILD_ID_TEXT: &'static str =
    " either does not use this bot, or is not one of your guilds. Please double check that this Guild ID is correct.";

pub const UNSPECIFIED_GUILD_ID_TEXT: &'static str =
    "Since you are in multiple servers that use me, you must write as the first part of your message the ID of the server in which you would like to open a support thread.\nIf you don't know how to find this ID, please consult this support article: https://support.discord.com/hc/en-us/articles/206346498-Where-can-I-find-my-User-Server-Message-ID-\nUsage example with this bot: `91238421834712347 my thread title`\nHere are the IDs of servers you share with me that have been properly configured for its use:\n";

pub const WRONG_CHAR_TEXT: &'static str = "The Guild ID you supplied contained a wrong character: `";

pub const OUT_OF_RANGE_TEXT: &'static str = "number too large to fit in target type";

/// The sentence shown to the user for each failure.
pub open spec fn failure_text(f: DmFailure) -> Seq<char> {
    match f {
        DmFailure::NoConfiguredGuilds => NO_CONFIGURED_GUILDS_TEXT@,
        DmFailure::UnconfiguredGuild { guild_id } => GUILD_ID_PREFIX_TEXT@ + decimal(
            guild_id.0 as nat,
        ) + UNCONFIGURED_GUILD_TEXT@,
        DmFailure::WrongGuildId { guild_id } => GUILD_ID_PREFIX_TEXT@ + decimal(guild_id.0 as nat)
            + WRONG_GUILD_ID_TEXT@,
        DmFailure::UnspecifiedGuildId { formatted_configured_guild_ids } =>
            UNSPECIFIED_GUILD_ID_TEXT@ + formatted_configured_guild_ids,
        DmFailure::WrongCharInGuildId { wrong_char } => WRONG_CHAR_TEXT@ + seq![wrong_char]
            + "`"@,
        DmFailure::GuildIdOutOfRange => OUT_OF_RANGE_TEXT@,
    }
}

/// Relies on `char::to_string` (std): the string of that one character.
#[verifier::external_body]
fn char_string(c: char) -> (r: String)
    ensures
        r@ == seq![c],
{
    c.to_string()
}

impl DmError {
    /// The text shown to the user.
    pub fn message(&self) -> (r: String)
        ensures
            r@ == failure_text(self@),
    {
        match self {
            DmError::NoConfiguredGuilds => String::from_str(NO_CONFIGURED_GUILDS_TEXT),
            DmError::UnconfiguredGuild { guild_id } => {
                let mut s = String::from_str(GUILD_ID_PREFIX_TEXT);
                let id = decimal_string(guild_id.0);
                s.append(id.as_str());
                s.append(UNCONFIGURED_GUILD_TEXT);
                s
            },
            DmError::WrongGuildId { guild_id } => {
                let mut s = String::from_str(GUILD_ID_PREFIX_TEXT);
                let id = decimal_string(guild_id.0);
                s.append(id.as_str());
                s.append(WRONG_GUILD_ID_TEXT);
                s
            },
            DmError::UnspecifiedGuildId { formatted_configured_guild_ids } => {
                let mut s = String::from_str(UNSPECIFIED_GUILD_ID_TEXT);
                s.append(formatted_configured_guild_ids.as_str());
                s
            },
            DmError::WrongCharInGuildId { wrong_char } => {
                let mut s = String::from_str(WRONG_CHAR_TEXT);
                let c = char_string(*wrong_char);
                s.append(c.as_str());
                s.append("`");
                s
            },
            DmError::GuildIdOutOfRange => String::from_str(OUT_OF_RANGE_TEXT),
        }
    }
}

/// What a scan of the leading guild identifier token finds.
pub ghost enum TokenScan {
    /// The digits of the token and how many clusters it took (its terminating space included).
    Token { digits: Seq<char>, consumed: nat },
    /// A character that may not stand in the token.
    Stray { c: char },
    /// No digit came first.
    Missing,
}

/// Scans the clusters `gs`, the digits `digits` having been read already.
/// Single-character digit clusters are taken; a single whitespace character ends the token
/// and is taken with it; the end of the message ends it too. Any other cluster, or a
/// missing digit, stops the scan with an error.
pub open spec fn scan_token(gs: Seq<Seq<char>>, digits: Seq<char>) -> TokenScan
    decreases gs.len(),
{
    if gs.len() == 0 {
        if digits.len() == 0 {
            TokenScan::Missing
        } else {
            TokenScan::Token { digits, consumed: digits.len() }
        }
    } else if gs[0].len() == 1 && is_digit_spec(gs[0][0]) {
        scan_token(gs.drop_first(), digits.push(gs[0][0]))
    } else if digits.len() == 0 {
        TokenScan::Missing
    } else if gs[0].len() == 1 && is_whitespace_spec(gs[0][0]) {
        TokenScan::Token { digits, consumed: digits.len() + 1 }
    } else {
        TokenScan::Stray { c: gs[0][0] }
    }
}

/// Number of clusters that a successful token scan of `msg` takes.
pub open spec fn scan_consumed(msg: Seq<Seq<char>>) -> int {
    match scan_token(msg, Seq::empty()) {
        TokenScan::Token { consumed, .. } => consumed as int,
        _ => 0,
    }
}

/// The configured guild identifiers in decimal, one per line.
pub open spec fn joined_ids(c: Seq<(GuildId, ChannelId)>) -> Seq<char>
    decreases c.len(),
{
    if c.len() == 0 {
        Seq::empty()
    } else if c.len() == 1 {
        decimal(c[0].0.0 as nat)
    } else {
        joined_ids(c.drop_last()) + seq!['\n'] + decimal(c.last().0.0 as nat)
    }
}

/// The guild identifier that a message names at its start.
pub open spec fn parse_spec(msg: Seq<Seq<char>>, configured: Seq<(GuildId, ChannelId)>) -> Result<
    GuildId,
    DmFailure,
> {
    match scan_token(msg, Seq::empty()) {
        TokenScan::Missing => Err(
            DmFailure::UnspecifiedGuildId { formatted_configured_guild_ids: joined_ids(configured) },
        ),
        TokenScan::Stray { c } => Err(DmFailure::WrongCharInGuildId { wrong_char: c }),
        TokenScan::Token { digits, .. } => if digits_value(digits) <= u64::MAX {
            Ok(GuildId(digits_value(digits) as u64))
        } else {
            Err(DmFailure::GuildIdOutOfRange)
        },
    }
}

pub open spec fn parse_view(r: Result<GuildId, DmError>) -> Result<GuildId, DmFailure> {
    match r {
        Ok(g) => Ok(g),
        Err(e) => Err(e@),
    }
}

/// Strictly ascending by guild identifier.
pub open spec fn sorted_configured(c: Seq<(GuildId, ChannelId)>) -> bool {
    forall|i: int, j: int| 0 <= i < j < c.len() ==> c[i].0.0 < c[j].0.0
}

/// Strictly ascending.
pub open spec fn sorted_guilds(u: Seq<GuildId>) -> bool {
    forall|i: int, j: int| 0 <= i < j < u.len() ==> u[i].0 < u[j].0
}

/// Strictly ascending by guild identifier.
pub open spec fn sorted_directory(d: Seq<(GuildId, Option<ChannelId>)>) -> bool {
    forall|i: int, j: int| 0 <= i < j < d.len() ==> d[i].0.0 < d[j].0.0
}

/// The configured guilds, one per line, in decimal.
pub fn format_guild_ids(configured: &Vec<(GuildId, ChannelId)>) -> (r: String)
    ensures
        r@ == joined_ids(configured@),
{
    let mut s = String::new();
    let mut i: usize = 0;
    while i < configured.len()
        invariant
            i <= configured@.len(),
            s@ == joined_ids(configured@.take(i as int)),
        decreases configured@.len() - i,
    {
        proof {
            reveal_strlit("\n");
        }
        assert(configured@.take(i as int + 1).drop_last() =~= configured@.take(i as int));
        if i > 0 {
            s.append("\n");
        } else {
            assert(configured@.take(0) =~= Seq::<(GuildId, ChannelId)>::empty());
            assert(s@ =~= Seq::<char>::empty());
        }
        let d = decimal_string(configured[i].0.0);
        s.append(d.as_str());
        proof {
            if i == 0 {
                assert(s@ =~= decimal(configured@[0].0.0 as nat));
            } else {
                assert(s@ =~= joined_ids(configured@.take(i as int)) + seq!['\n'] + decimal(
                    configured@[i as int].0.0 as nat,
                ));
            }
        }
        i = i + 1;
    }
    assert(configured@.take(i as int) =~= configured@);
    s
}

/// Reads the guild identifier that starts the message, taking its clusters (and the space
/// that ends it) off the front of `msg_graphemes`.
pub fn parse_guild_id_from_message(
    msg_graphemes: &mut MessageGraphemes,
    ordered_mutual_guilds_configured: &Vec<(GuildId, ChannelId)>,
) -> (r: Result<GuildId, DmError>)
    requires
        old(msg_graphemes).wf(),
    ensures
        final(msg_graphemes).wf(),
        parse_view(r) == parse_spec(old(msg_graphemes)@, ordered_mutual_guilds_configured@),
        r is Ok ==> final(msg_graphemes)@ == old(msg_graphemes)@.skip(
            scan_consumed(old(msg_graphemes)@),
        ),
{
    let ghost start = msg_graphemes@;
    let ghost mut consumed: int = 0;
    let mut digits: Vec<char> = Vec::new();
    let mut ended = false;
    while !ended
        invariant
            start == old(msg_graphemes)@,
            msg_graphemes.wf(),
            all_digits(digits@),
            !ended ==> scan_token(start, Seq::empty()) == scan_token(msg_graphemes@, digits@)
                && msg_graphemes@ == start.skip(digits@.len() as int)
                && digits@.len() <= start.len(),
            ended ==> scan_token(start, Seq::empty()) == (TokenScan::Token {
                digits: digits@,
                consumed: consumed as nat,
            }) && 0 <= consumed <= start.len() && msg_graphemes@ == start.skip(consumed),
        decreases msg_graphemes@.len() + (if ended { 0int } else { 1int }),
    {
        let ghost before = msg_graphemes@;
        match msg_graphemes.next() {
            None => {
                assert(before.len() == 0);
                if digits.len() == 0 {
                    assert(scan_token(before, digits@) == TokenScan::Missing);
                    return Err(
                        DmError::UnspecifiedGuildId {
                            formatted_configured_guild_ids: format_guild_ids(
                                ordered_mutual_guilds_configured,
                            ),
                        },
                    );
                }
                proof {
                    consumed = digits@.len() as int;
                }
                ended = true;
            },
            Some(g) => {
                assert(start.skip(digits@.len() as int).drop_first() =~= start.skip(
                    digits@.len() as int + 1,
                ));
                assert(before[0] == g@);
                assert(clusters_nonempty(before));
                assert(before[0].len() > 0);
                let n = g.as_str().unicode_len();
                let c = g.as_str().get_char(0);
                if n == 1 && is_digit(c) {
                    digits.push(c);
                } else if digits.len() == 0 {
                    return Err(
                        DmError::UnspecifiedGuildId {
                            formatted_configured_guild_ids: format_guild_ids(
                                ordered_mutual_guilds_configured,
                            ),
                        },
                    );
                } else if n == 1 && is_whitespace(c) {
                    proof {
                        consumed = digits@.len() as int + 1;
                    }
                    ended = true;
                } else {
                    assert(c == before[0][0]);
                    assert(scan_token(before, digits@) == TokenScan::Stray { c });
                    return Err(DmError::WrongCharInGuildId { wrong_char: c });
                }
            },
        }
    }
    match parse_digits(&digits) {
        Some(v) => Ok(GuildId(v)),
        None => Err(DmError::GuildIdOutOfRange),
    }
}

/// Looks up `target` among configured guilds sorted by identifier.
pub fn find_configured(configured: &Vec<(GuildId, ChannelId)>, target: u64) -> (r: Option<usize>)
    requires
        sorted_configured(configured@),
    ensures
        match r {
            Some(i) => i < configured@.len() && configured@[i as int].0.0 == target,
            None => forall|i: int|
                0 <= i < configured@.len() ==> #[trigger] configured@[i].0.0 != target,
        },
{
    let mut lo: usize = 0;
    let mut hi: usize = configured.len();
    while lo < hi
        invariant
            lo <= hi <= configured@.len(),
            sorted_configured(configured@),
            forall|i: int| 0 <= i < lo ==> #[trigger] configured@[i].0.0 < target,
            forall|i: int| hi <= i < configured@.len() ==> #[trigger] configured@[i].0.0 > target,
        decreases hi - lo,
    {
        let mid = lo + (hi - lo) / 2;
        let k = configured[mid].0.0;
        if k == target {
            return Some(mid);
        } else if k < target {
            lo = mid + 1;
        } else {
            hi = mid;
        }
    }
    None
}

/// Whether `target` is among guilds sorted by identifier.
pub fn contains_guild(guilds: &Vec<GuildId>, target: u64) -> (r: bool)
    requires
        sorted_guilds(guilds@),
    ensures
        r == exists|i: int| 0 <= i < guilds@.len() && #[trigger] guilds@[i].0 == target,
{
    let mut lo: usize = 0;
    let mut hi: usize = guilds.len();
    while lo < hi
        invariant
            lo <= hi <= guilds@.len(),
            sorted_guilds(guilds@),
            forall|i: int| 0 <= i < lo ==> #[trigger] guilds@[i].0 < target,
            forall|i: int| hi <= i < guilds@.len() ==> #[trigger] guilds@[i].0 > target,
        decreases hi - lo,
    {
        let mid = lo + (hi - lo) / 2;
        let k = guilds[mid].0;
        if k == target {
            return true;
        } else if k < target {
            lo = mid + 1;
        } else {
            hi = mid;
        }
    }
    false
}

/// The outcome of discernment: the target guild, its support channel and the clusters of the
/// message left for the thread title.
pub open spec fn discern_spec(
    configured: Seq<(GuildId, ChannelId)>,
    unconfigured: Seq<GuildId>,
    msg: Seq<Seq<char>>,
) -> Result<(GuildId, ChannelId, Seq<Seq<char>>), DmFailure> {
    if configured.len() == 0 {
        Err(DmFailure::NoConfiguredGuilds)
    } else if configured.len() == 1 {
        Ok((configured[0].0, configured[0].1, msg))
    } else {
        match parse_spec(msg, configured) {
            Err(e) => Err(e),
            Ok(g) => if exists|i: int| 0 <= i < configured.len() && #[trigger] configured[i].0 == g {
                let i = choose|i: int| 0 <= i < configured.len() && #[trigger] configured[i].0 == g;
                Ok((configured[i].0, configured[i].1, msg.skip(scan_consumed(msg))))
            } else if exists|i: int| 0 <= i < unconfigured.len() && #[trigger] unconfigured[i] == g {
                Err(DmFailure::UnconfiguredGuild { guild_id: g })
            } else {
                Err(DmFailure::WrongGuildId { guild_id: g })
            },
        }
    }
}

pub open spec fn discern_view(r: Result<(GuildId, ChannelId, MessageGraphemes), DmError>) -> Result<
    (GuildId, ChannelId, Seq<Seq<char>>),
    DmFailure,
> {
    match r {
        Ok((g, c, m)) => Ok((g, c, m@)),
        Err(e) => Err(e@),
    }
}

/// Decides which configured guild a direct message targets. With one configured mutual guild
/// it is that one and the whole message is left; with several, the message must start with
/// the guild's identifier, which is taken off.
pub fn discern_guild(
    ordered_mutual_guilds_configured: &Vec<(GuildId, ChannelId)>,
    ordered_mutual_guilds_unconfigured: &Vec<GuildId>,
    msg_graphemes: MessageGraphemes,
) -> (r: Result<(GuildId, ChannelId, MessageGraphemes), DmError>)
    requires
        sorted_configured(ordered_mutual_guilds_configured@),
        sorted_guilds(ordered_mutual_guilds_unconfigured@),
        msg_graphemes.wf(),
    ensures
        discern_view(r) == discern_spec(
            ordered_mutual_guilds_configured@,
            ordered_mutual_guilds_unconfigured@,
            msg_graphemes@,
        ),
        ordered_mutual_guilds_configured@.len() == 0 ==> r is Err && r->Err_0 is NoConfiguredGuilds,
        ordered_mutual_guilds_configured@.len() == 1 ==> r is Ok && r->Ok_0.0
            == ordered_mutual_guilds_configured@[0].0 && r->Ok_0.1
            == ordered_mutual_guilds_configured@[0].1 && r->Ok_0.2@ == msg_graphemes@,
        r is Ok ==> r->Ok_0.2.wf(),
{
    let configured = ordered_mutual_guilds_configured;
    let mut msg_graphemes = msg_graphemes;
    if configured.len() == 0 {
        return Err(DmError::NoConfiguredGuilds);
    }
    if configured.len() == 1 {
        let (guild_id, channel_id) = configured[0];
        return Ok((guild_id, channel_id, msg_graphemes));
    }
    let ghost msg = msg_graphemes@;
    let target_guild = match parse_guild_id_from_message(&mut msg_graphemes, configured) {
        Ok(g) => g,
        Err(e) => {
            return Err(e);
        },
    };
    match find_configured(configured, target_guild.0) {
        Some(idx) => {
            let (guild_id, channel_id) = configured[idx];
            proof {
                let i = choose|i: int|
                    0 <= i < configured@.len() && #[trigger] configured@[i].0 == target_guild;
                if i != idx as int {
                    if i < idx as int {
                        assert(configured@[i].0.0 < configured@[idx as int].0.0);
                    } else {
                        assert(configured@[idx as int].0.0 < configured@[i].0.0);
                    }
                }
            }
            Ok((guild_id, channel_id, msg_graphemes))
        },
        None => {
            assert(!exists|i: int|
                0 <= i < configured@.len() && #[trigger] configured@[i].0 == target_guild) by {
                assert forall|i: int| 0 <= i < configured@.len() implies #[trigger] configured@[i].0
                    != target_guild by {
                    assert(configured@[i].0.0 != target_guild.0);
                }
            }
            if contains_guild(ordered_mutual_guilds_unconfigured, target_guild.0) {
                Err(DmError::UnconfiguredGuild { guild_id: target_guild })
            } else {
                assert(!exists|i: int|
                    0 <= i < ordered_mutual_guilds_unconfigured@.len()
                        && #[trigger] ordered_mutual_guilds_unconfigured@[i] == target_guild);
                Err(DmError::WrongGuildId { guild_id: target_guild })
            }
        },
    }
}

/// The mutual guilds that have a support channel, in directory order.
pub open spec fn configured_of(dir: Seq<(GuildId, Option<ChannelId>)>, member: Seq<bool>) -> Seq<
    (GuildId, ChannelId),
>
    decreases dir.len(),
{
    if dir.len() == 0 || member.len() == 0 {
        Seq::empty()
    } else {
        let rest = configured_of(dir.drop_last(), member.drop_last());
        if member.last() && dir.last().1 is Some {
            rest.push((dir.last().0, dir.last().1->0))
        } else {
            rest
        }
    }
}

/// The mutual guilds without a support channel, in directory order.
pub open spec fn unconfigured_of(dir: Seq<(GuildId, Option<ChannelId>)>, member: Seq<bool>) -> Seq<
    GuildId,
>
    decreases dir.len(),
{
    if dir.len() == 0 || member.len() == 0 {
        Seq::empty()
    } else {
        let rest = unconfigured_of(dir.drop_last(), member.drop_last());
        if member.last() && dir.last().1 is None {
            rest.push(dir.last().0)
        } else {
            rest
        }
    }
}

/// Splits the guild directory into the mutual guilds with and without a support channel;
/// `membership[i]` tells whether the author is a member of the `i`-th guild.
pub fn partition_mutual_guilds(
    directory: &Vec<(GuildId, Option<ChannelId>)>,
    membership: &Vec<bool>,
) -> (r: (Vec<(GuildId, ChannelId)>, Vec<GuildId>))
    requires
        directory@.len() == membership@.len(),
    ensures
        r.0@ == configured_of(directory@, membership@),
        r.1@ == unconfigured_of(directory@, membership@),
        sorted_directory(directory@) ==> sorted_configured(r.0@) && sorted_guilds(r.1@),
        sorted_directory(directory@) ==> forall|a: int, b: int|
            0 <= a < r.0@.len() && 0 <= b < r.1@.len() ==> #[trigger] r.0@[a].0 != #[trigger] r.1@[b],
{
    let mut configured: Vec<(GuildId, ChannelId)> = Vec::new();
    let mut unconfigured: Vec<GuildId> = Vec::new();
    let mut i: usize = 0;
    while i < directory.len()
        invariant
            i <= directory@.len() == membership@.len(),
            configured@ == configured_of(directory@.take(i as int), membership@.take(i as int)),
            unconfigured@ == unconfigured_of(directory@.take(i as int), membership@.take(i as int)),
        decreases directory@.len() - i,
    {
        assert(directory@.take(i as int + 1).drop_last() =~= directory@.take(i as int));
        assert(membership@.take(i as int + 1).drop_last() =~= membership@.take(i as int));
        let (guild_id, optional_channel_id) = directory[i];
        if membership[i] {
            match optional_channel_id {
                Some(support_channel_id) => configured.push((guild_id, support_channel_id)),
                None => unconfigured.push(guild_id),
            }
        }
        i = i + 1;
    }
    assert(directory@.take(i as int) =~= directory@);
    assert(membership@.take(i as int) =~= membership@);
    proof {
        lemma_partition_sorted(directory@, membership@);
        if sorted_directory(directory@) {
            lemma_partition_disjoint(directory@, membership@);
        }
    }
    (configured, unconfigured)
}

/// Each guild of the partition is a mutual guild of the directory, with the support channel
/// the directory gives it; the partition of a sorted directory is sorted.
pub proof fn lemma_partition_sorted(dir: Seq<(GuildId, Option<ChannelId>)>, member: Seq<bool>)
    requires
        dir.len() == member.len(),
    ensures
        forall|k: int|
            0 <= k < configured_of(dir, member).len() ==> exists|j: int|
                0 <= j < dir.len() && member[j] && #[trigger] configured_of(dir, member)[k].0
                    == dir[j].0 && dir[j].1 == Some(configured_of(dir, member)[k].1),
        forall|k: int|
            0 <= k < unconfigured_of(dir, member).len() ==> exists|j: int|
                0 <= j < dir.len() && member[j] && #[trigger] unconfigured_of(dir, member)[k]
                    == dir[j].0 && dir[j].1 is None,
        sorted_directory(dir) ==> sorted_configured(configured_of(dir, member)) && sorted_guilds(
            unconfigured_of(dir, member),
        ),
    decreases dir.len(),
{
    if dir.len() > 0 {
        let d = dir.drop_last();
        let m = member.drop_last();
        lemma_partition_sorted(d, m);
        let c = configured_of(dir, member);
        let u = unconfigured_of(dir, member);
        let n = dir.len() - 1;
        assert forall|k: int| 0 <= k < c.len() implies exists|j: int|
            0 <= j < dir.len() && member[j] && #[trigger] c[k].0 == dir[j].0 && dir[j].1 == Some(
                c[k].1,
            ) by {
            if k < configured_of(d, m).len() {
                let j = choose|j: int|
                    0 <= j < d.len() && m[j] && #[trigger] configured_of(d, m)[k].0 == d[j].0
                        && d[j].1 == Some(configured_of(d, m)[k].1);
                assert(c[k].0 == dir[j].0 && member[j]);
            } else {
                assert(c[k].0 == dir[n].0 && member[n]);
            }
        }
        assert forall|k: int| 0 <= k < u.len() implies exists|j: int|
            0 <= j < dir.len() && member[j] && #[trigger] u[k] == dir[j].0 && dir[j].1 is None by {
            if k < unconfigured_of(d, m).len() {
                let j = choose|j: int|
                    0 <= j < d.len() && m[j] && #[trigger] unconfigured_of(d, m)[k] == d[j].0
                        && d[j].1 is None;
                assert(u[k] == dir[j].0 && member[j]);
            } else {
                assert(u[k] == dir[n].0 && member[n]);
            }
        }
        if sorted_directory(dir) {
            assert(sorted_directory(d));
            assert forall|a: int, b: int| 0 <= a < b < c.len() implies c[a].0.0 < c[b].0.0 by {
                if b >= configured_of(d, m).len() {
                    let j = choose|j: int|
                        0 <= j < d.len() && m[j] && #[trigger] configured_of(d, m)[a].0 == d[j].0
                            && d[j].1 == Some(configured_of(d, m)[a].1);
                    assert(dir[j].0.0 < dir[n].0.0);
                }
            }
            assert forall|a: int, b: int| 0 <= a < b < u.len() implies u[a].0 < u[b].0 by {
                if b >= unconfigured_of(d, m).len() {
                    let j = choose|j: int|
                        0 <= j < d.len() && m[j] && #[trigger] unconfigured_of(d, m)[a] == d[j].0
                            && d[j].1 is None;
                    assert(dir[j].0.0 < dir[n].0.0);
                }
            }
        }
    }
}

/// Every mutual guild of the directory lands in the partition: with its support channel among
/// the configured guilds, or among the unconfigured ones when it has none.
pub proof fn lemma_partition_covers(dir: Seq<(GuildId, Option<ChannelId>)>, member: Seq<bool>)
    requires
        dir.len() == member.len(),
    ensures
        forall|j: int|
            0 <= j < dir.len() && #[trigger] member[j] && dir[j].1 is Some ==> exists|k: int|
                0 <= k < configured_of(dir, member).len() && configured_of(dir, member)[k] == (
                dir[j].0,
                dir[j].1->0,
            ),
        forall|j: int|
            0 <= j < dir.len() && #[trigger] member[j] && dir[j].1 is None ==> exists|k: int|
                0 <= k < unconfigured_of(dir, member).len() && unconfigured_of(dir, member)[k]
                    == dir[j].0,
    decreases dir.len(),
{
    if dir.len() > 0 {
        let d = dir.drop_last();
        let m = member.drop_last();
        lemma_partition_covers(d, m);
        let c = configured_of(dir, member);
        let u = unconfigured_of(dir, member);
        let n = dir.len() - 1;
        assert forall|j: int|
            0 <= j < dir.len() && #[trigger] member[j] && dir[j].1 is Some implies exists|k: int|
                0 <= k < c.len() && c[k] == (dir[j].0, dir[j].1->0) by {
            if j < n {
                assert(m[j] && d[j] == dir[j]);
                let k = choose|k: int|
                    0 <= k < configured_of(d, m).len() && configured_of(d, m)[k] == (
                        d[j].0,
                        d[j].1->0,
                    );
                assert(c[k] == (dir[j].0, dir[j].1->0));
            } else {
                assert(c[c.len() - 1] == (dir[j].0, dir[j].1->0));
            }
        }
        assert forall|j: int|
            0 <= j < dir.len() && #[trigger] member[j] && dir[j].1 is None implies exists|k: int|
                0 <= k < u.len() && u[k] == dir[j].0 by {
            if j < n {
                assert(m[j] && d[j] == dir[j]);
                let k = choose|k: int|
                    0 <= k < unconfigured_of(d, m).len() && unconfigured_of(d, m)[k] == d[j].0;
                assert(u[k] == dir[j].0);
            } else {
                assert(u[u.len() - 1] == dir[j].0);
            }
        }
    }
}

/// In the partition of a sorted directory no guild is both configured and unconfigured.
pub proof fn lemma_partition_disjoint(dir: Seq<(GuildId, Option<ChannelId>)>, member: Seq<bool>)
    requires
        dir.len() == member.len(),
        sorted_directory(dir),
    ensures
        forall|a: int, b: int|
            0 <= a < configured_of(dir, member).len() && 0 <= b < unconfigured_of(dir, member).len()
                ==> #[trigger] configured_of(dir, member)[a].0 != #[trigger] unconfigured_of(
                dir,
                member,
            )[b],
{
    lemma_partition_sorted(dir, member);
    let c = configured_of(dir, member);
    let u = unconfigured_of(dir, member);
    assert forall|a: int, b: int| 0 <= a < c.len() && 0 <= b < u.len() implies #[trigger] c[a].0
        != #[trigger] u[b] by {
        let i = choose|j: int|
            0 <= j < dir.len() && member[j] && #[trigger] c[a].0 == dir[j].0 && dir[j].1 == Some(
                c[a].1,
            );
        let l = choose|j: int|
            0 <= j < dir.len() && member[j] && #[trigger] u[b] == dir[j].0 && dir[j].1 is None;
        if i < l {
            assert(dir[i].0.0 < dir[l].0.0);
        } else if l < i {
            assert(dir[l].0.0 < dir[i].0.0);
        }
    }
}

/// The text of a user's handle before its first `#`.
pub open spec fn before_hash(s: Seq<char>) -> Seq<char>
    decreases s.len(),
{
    if s.len() == 0 {
        s
    } else if s[0] == '#' {
        Seq::empty()
    } else {
        seq![s[0]] + before_hash(s.drop_first())
    }
}

proof fn lemma_before_hash(s: Seq<char>, i: int)
    requires
        0 <= i <= s.len(),
        forall|j: int| 0 <= j < i ==> s[j] != '#',
        i == s.len() || s[i] == '#',
    ensures
        before_hash(s) == s.take(i),
    decreases s.len(),
{
    if s.len() > 0 && s[0] != '#' {
        lemma_before_hash(s.drop_first(), i - 1);
        assert(seq![s[0]] + s.drop_first().take(i - 1) =~= s.take(i));
    } else if s.len() > 0 {
        assert(s.take(i) =~= Seq::<char>::empty());
    } else {
        assert(s.take(i) =~= s);
    }
}

/// The name shown for a requester: the guild nickname when there is one, else the handle
/// `tag` up to its first `#` (the discriminator dropped).
pub fn requester_display_name(nickname: Option<String>, tag: &str) -> (r: String)
    ensures
        nickname is Some ==> r@ == nickname->0@,
        nickname is None ==> r@ == before_hash(tag@),
{
    match nickname {
        Some(nick) => nick,
        None => {
            let n = tag.unicode_len();
            let mut i: usize = 0;
            while i < n && tag.get_char(i) != '#'
                invariant
                    n == tag@.len(),
                    i <= n,
                    forall|j: int| 0 <= j < i ==> tag@[j] != '#',
                decreases n - i,
            {
                i = i + 1;
            }
            proof {
                lemma_before_hash(tag@, i as int);
            }
            String::from_str(tag.substring_char(0, i))
        },
    }
}

} // verus!
