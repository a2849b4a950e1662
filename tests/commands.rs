use support_bot::commands::support::{support_thread_channel, SupportThreadError};
use support_bot::commands::support_channel::confirmation_reply;
use support_bot::commands::{command_from_name, help, ApplicationCommand};
use support_bot::ids::ChannelId;

#[test]
fn help_lists_both_commands() {
    let text = help::handle();
    assert!(text.starts_with("Hi! My job is to connect you"));
    assert!(text.contains("**Everyone commands**:\n\t`/support <thread-title>`\tI will create"));
    assert!(text.contains("**Admin commands**:\n\t`/support_channel <channel>`\tI will start"));
    assert!(text.ends_with("open support threads.\n"));
}

#[test]
fn command_names() {
    assert_eq!(command_from_name("support"), Some(ApplicationCommand::Support));
    assert_eq!(command_from_name("support_channel"), Some(ApplicationCommand::SupportChannel));
    assert_eq!(command_from_name("help"), Some(ApplicationCommand::Help));
    assert_eq!(command_from_name("supports"), None);
    assert_eq!(command_from_name(""), None);
}

#[test]
fn support_needs_a_channel() {
    assert_eq!(support_thread_channel(Some(ChannelId(9))), Ok(ChannelId(9)));
    assert_eq!(support_thread_channel(None), Err(SupportThreadError::UnconfiguredGuild));
    assert_eq!(
        SupportThreadError::UnconfiguredGuild.message(),
        "This server has not been configured with /support_channel. Please advise an admin there to run this command."
    );
}

#[test]
fn support_channel_confirmation() {
    assert_eq!(
        confirmation_reply(Some("help-desk".to_string()), ChannelId(5)),
        "Successfully set support channel to #help-desk"
    );
    assert_eq!(confirmation_reply(None, ChannelId(5)), "Successfully set support channel to <#5>");
}
