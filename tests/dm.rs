use support_bot::dm::{
    discern_guild, format_guild_ids, parse_guild_id_from_message, partition_mutual_guilds,
    requester_display_name, DmError,
};
use support_bot::dm::{contains_guild, find_configured};
use support_bot::graphemes::MessageGraphemes;
use support_bot::ids::{ChannelId, GuildId};

fn configured(pairs: &[(u64, u64)]) -> Vec<(GuildId, ChannelId)> {
    pairs.iter().map(|&(g, c)| (GuildId(g), ChannelId(c))).collect()
}

#[test]
fn guild_id_parsing_well_formed() {
    let msg = "1234 test".to_string();
    let mut msg_graphemes = MessageGraphemes::new(&msg);
    let guild_id =
        parse_guild_id_from_message(&mut msg_graphemes, &vec![(1234u64.into(), 5678u64.into())]);
    assert!(guild_id.is_ok());
    let target: GuildId = 1234u64.into();
    assert_eq!(guild_id.unwrap(), target);
}

#[test]
fn guild_id_parsing_bad_char() {
    let msg = "1234a test".to_string();
    let mut msg_graphemes = MessageGraphemes::new(&msg);
    let guild_id =
        parse_guild_id_from_message(&mut msg_graphemes, &vec![(1234u64.into(), 5678u64.into())]);
    assert!(guild_id.is_err());
}

#[test]
fn guild_id_parsing_no_guild_id() {
    let msg = "a test".to_string();
    let mut msg_graphemes = MessageGraphemes::new(&msg);
    let guild_id =
        parse_guild_id_from_message(&mut msg_graphemes, &vec![(1234u64.into(), 5678u64.into())]);
    assert!(guild_id.is_err());
}

#[test]
fn parsing_leaves_the_remainder() {
    let mut g = MessageGraphemes::new("1234 test");
    let r = parse_guild_id_from_message(&mut g, &configured(&[(1234, 5678)]));
    assert_eq!(r.unwrap(), GuildId(1234));
    assert_eq!(g.as_string(), "test");
}

#[test]
fn parsing_reports_the_stray_character() {
    let mut g = MessageGraphemes::new("1234a test");
    let r = parse_guild_id_from_message(&mut g, &configured(&[(1234, 5678)]));
    assert!(matches!(r, Err(DmError::WrongCharInGuildId { wrong_char: 'a' })));
}

#[test]
fn parsing_without_digits_lists_configured_guilds() {
    let mut g = MessageGraphemes::new("a test");
    let r = parse_guild_id_from_message(&mut g, &configured(&[(1234, 5678)]));
    match r {
        Err(DmError::UnspecifiedGuildId { formatted_configured_guild_ids }) => {
            assert_eq!(formatted_configured_guild_ids, "1234")
        }
        _ => panic!("expected an unspecified guild id"),
    }
}

#[test]
fn parsing_empty_message_is_unspecified() {
    let mut g = MessageGraphemes::new("");
    let r = parse_guild_id_from_message(&mut g, &configured(&[(1, 2), (3, 4)]));
    assert!(matches!(r, Err(DmError::UnspecifiedGuildId { .. })));
}

#[test]
fn parsing_digits_only_message() {
    let mut g = MessageGraphemes::new("42");
    let r = parse_guild_id_from_message(&mut g, &configured(&[(1, 2)]));
    assert_eq!(r.unwrap(), GuildId(42));
    assert_eq!(g.len(), 0);
}

#[test]
fn parsing_overflowing_id() {
    let mut g = MessageGraphemes::new("18446744073709551616 hi");
    let r = parse_guild_id_from_message(&mut g, &configured(&[(1, 2)]));
    assert!(matches!(r, Err(DmError::GuildIdOutOfRange)));
    let mut g = MessageGraphemes::new("18446744073709551615 hi");
    let r = parse_guild_id_from_message(&mut g, &configured(&[(1, 2)]));
    assert_eq!(r.unwrap(), GuildId(u64::MAX));
}

#[test]
fn parsing_stops_at_a_combined_cluster() {
    // "5" followed by a combining accent is one cluster of two characters
    let mut g = MessageGraphemes::new("12 5\u{301}");
    let r = parse_guild_id_from_message(&mut g, &configured(&[(1, 2)]));
    assert_eq!(r.unwrap(), GuildId(12));
    let mut g = MessageGraphemes::new("125\u{301} x");
    let r = parse_guild_id_from_message(&mut g, &configured(&[(1, 2)]));
    assert!(matches!(r, Err(DmError::WrongCharInGuildId { wrong_char: '5' })));
    let mut g = MessageGraphemes::new("e\u{301}12 x");
    let r = parse_guild_id_from_message(&mut g, &configured(&[(1, 2)]));
    assert!(matches!(r, Err(DmError::UnspecifiedGuildId { .. })));
}

#[test]
fn parsing_ends_at_unicode_whitespace() {
    let mut g = MessageGraphemes::new("77\u{3000}rest");
    let r = parse_guild_id_from_message(&mut g, &configured(&[(1, 2)]));
    assert_eq!(r.unwrap(), GuildId(77));
    assert_eq!(g.as_string(), "rest");
}

#[test]
fn discern_with_no_configured_guild() {
    let r = discern_guild(&configured(&[]), &vec![GuildId(5)], MessageGraphemes::new("5 hi"));
    assert!(matches!(r, Err(DmError::NoConfiguredGuilds)));
}

#[test]
fn discern_with_one_configured_guild_keeps_message() {
    let r = discern_guild(&configured(&[(10, 20)]), &vec![], MessageGraphemes::new("99 hi"));
    let (g, c, rest) = r.unwrap();
    assert_eq!((g, c), (GuildId(10), ChannelId(20)));
    assert_eq!(rest.as_string(), "99 hi");
}

#[test]
fn discern_among_several_configured_guilds() {
    let conf = configured(&[(10, 20), (30, 40), (50, 60)]);
    let r = discern_guild(&conf, &vec![GuildId(35)], MessageGraphemes::new("30 my title"));
    let (g, c, rest) = r.unwrap();
    assert_eq!((g, c), (GuildId(30), ChannelId(40)));
    assert_eq!(rest.as_string(), "my title");
}

#[test]
fn discern_names_an_unconfigured_guild() {
    let conf = configured(&[(10, 20), (30, 40)]);
    let r = discern_guild(&conf, &vec![GuildId(5), GuildId(35)], MessageGraphemes::new("35 x"));
    assert!(matches!(r, Err(DmError::UnconfiguredGuild { guild_id: GuildId(35) })));
}

#[test]
fn discern_names_an_unknown_guild() {
    let conf = configured(&[(10, 20), (30, 40)]);
    let r = discern_guild(&conf, &vec![GuildId(35)], MessageGraphemes::new("36 x"));
    assert!(matches!(r, Err(DmError::WrongGuildId { guild_id: GuildId(36) })));
}

#[test]
fn discern_without_a_guild_id() {
    let conf = configured(&[(10, 20), (30, 40)]);
    let r = discern_guild(&conf, &vec![], MessageGraphemes::new("help me"));
    match r {
        Err(DmError::UnspecifiedGuildId { formatted_configured_guild_ids }) => {
            assert_eq!(formatted_configured_guild_ids, "10\n30")
        }
        _ => panic!("expected an unspecified guild id"),
    }
}

#[test]
fn partition_by_membership_and_channel() {
    let dir = vec![
        (GuildId(1), Some(ChannelId(11))),
        (GuildId(2), None),
        (GuildId(3), Some(ChannelId(33))),
        (GuildId(4), None),
        (GuildId(5), Some(ChannelId(55))),
    ];
    let (c, u) = partition_mutual_guilds(&dir, &vec![true, true, false, false, true]);
    assert_eq!(c, configured(&[(1, 11), (5, 55)]));
    assert_eq!(u, vec![GuildId(2)]);
}

#[test]
fn binary_search_matches_linear_scan() {
    let conf = configured(&[(2, 0), (3, 0), (5, 0), (8, 0), (13, 0), (21, 0)]);
    let guilds: Vec<GuildId> = conf.iter().map(|p| p.0).collect();
    for target in 0..25u64 {
        let linear = conf.iter().position(|p| p.0 .0 == target);
        assert_eq!(find_configured(&conf, target), linear);
        assert_eq!(contains_guild(&guilds, target), linear.is_some());
    }
    assert_eq!(find_configured(&configured(&[]), 1), None);
    assert!(!contains_guild(&vec![], 1));
}

#[test]
fn formats_ids_one_per_line() {
    assert_eq!(format_guild_ids(&configured(&[])), "");
    assert_eq!(format_guild_ids(&configured(&[(0, 1)])), "0");
    assert_eq!(
        format_guild_ids(&configured(&[(7, 1), (91238421834712347, 2), (u64::MAX, 3)])),
        "7\n91238421834712347\n18446744073709551615"
    );
}

#[test]
fn display_name_prefers_nickname() {
    assert_eq!(requester_display_name(Some("Nick".to_string()), "user#1234"), "Nick");
    assert_eq!(requester_display_name(None, "user#1234"), "user");
    assert_eq!(requester_display_name(None, "plain"), "plain");
    assert_eq!(requester_display_name(None, "a#b#c"), "a");
    assert_eq!(requester_display_name(None, "#x"), "");
}

#[test]
fn error_messages() {
    assert_eq!(
        DmError::UnconfiguredGuild { guild_id: GuildId(42) }.message(),
        "Guild with ID 42 has not been configured. Please advise someone with the Manage Server permission there to run the set_support_channel command."
    );
    assert_eq!(
        DmError::WrongGuildId { guild_id: GuildId(7) }.message(),
        "Guild with ID 7 either does not use this bot, or is not one of your guilds. Please double check that this Guild ID is correct."
    );
    assert_eq!(
        DmError::WrongCharInGuildId { wrong_char: 'a' }.message(),
        "The Guild ID you supplied contained a wrong character: `a`"
    );
    assert!(DmError::UnspecifiedGuildId { formatted_configured_guild_ids: "1\n2".to_string() }
        .message()
        .ends_with("properly configured for its use:\n1\n2"));
    assert!(DmError::NoConfiguredGuilds.message().starts_with("None of your common guilds"));
    assert_eq!(DmError::GuildIdOutOfRange.message(), "number too large to fit in target type");
}
