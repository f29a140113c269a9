use aoirecord::bot::{event_guild, Bot, ChannelAction, VoiceMember};

fn member(user_id: u64, channel_id: Option<u64>) -> VoiceMember {
    VoiceMember { user_id, channel_id }
}

#[test]
fn counts_only_others_in_target_channel() {
    let bot = Bot { target_channel_id: 7 };
    let states = vec![
        member(1, Some(7)),
        member(2, Some(8)),
        member(3, None),
        member(99, Some(7)),
        member(4, Some(7)),
    ];
    assert_eq!(bot.count_listeners(&states, 99), 2);
}

#[test]
fn starts_when_someone_listens() {
    let bot = Bot { target_channel_id: 7 };
    let states = vec![member(1, Some(7))];
    assert_eq!(bot.on_update_channel(Some(&states), 99), ChannelAction::StartRecording);
}

#[test]
fn ends_when_only_the_bot_is_left() {
    let bot = Bot { target_channel_id: 7 };
    let states = vec![member(99, Some(7)), member(1, Some(8))];
    assert_eq!(bot.on_update_channel(Some(&states), 99), ChannelAction::EndRecording);
}

#[test]
fn ends_when_guild_unknown() {
    let bot = Bot { target_channel_id: 7 };
    assert_eq!(bot.on_update_channel(None, 99), ChannelAction::EndRecording);
}

#[test]
fn ends_when_channel_empty() {
    let bot = Bot { target_channel_id: 7 };
    assert_eq!(bot.on_update_channel(Some(&Vec::new()), 99), ChannelAction::EndRecording);
}

#[test]
fn event_guild_prefers_new_state() {
    assert_eq!(event_guild(Some(1), Some(2)), Some(1));
    assert_eq!(event_guild(None, Some(2)), Some(2));
    assert_eq!(event_guild(None, None), None);
    assert_eq!(event_guild(Some(3), None), Some(3));
}
