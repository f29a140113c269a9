//! When a recording runs: as long as somebody other than the bot is in the
//! target voice channel.
use vstd::prelude::*;

verus! {

/// One member's voice state in a guild.
pub struct VoiceMember {
    pub user_id: u64,
    /// The voice channel the member is in, if any.
    pub channel_id: Option<u64>,
}

/// What to do after the occupancy of the target channel may have changed.
#[derive(Clone, Copy, Debug, PartialEq, Eq, Structural)]
pub enum ChannelAction {
    /// Somebody listens: make sure a recording runs.
    StartRecording,
    /// Nobody is left: end the recording, if one runs.
    EndRecording,
}

/// Whether a member counts as a listener of the target channel.
pub open spec fn is_listener(m: VoiceMember, target_channel_id: u64, bot_user_id: u64) -> bool {
    m.channel_id == Some(target_channel_id) && m.user_id != bot_user_id
}

/// The number of listeners among the voice states.
pub open spec fn listener_count(states: Seq<VoiceMember>, target_channel_id: u64, bot_user_id: u64) -> nat
    decreases states.len(),
{
    if states.len() == 0 {
        0
    } else {
        listener_count(states.drop_last(), target_channel_id, bot_user_id) + if is_listener(
            states.last(),
            target_channel_id,
            bot_user_id,
        ) {
            1nat
        } else {
            0nat
        }
    }
}

/// Adding a member's voice state raises the count by one exactly when the
/// member is in the target channel and is not the bot.
pub proof fn lemma_listener_added(
    states: Seq<VoiceMember>,
    m: VoiceMember,
    target_channel_id: u64,
    bot_user_id: u64,
)
    ensures
        listener_count(states.push(m), target_channel_id, bot_user_id) == listener_count(
            states,
            target_channel_id,
            bot_user_id,
        ) + if m.channel_id == Some(target_channel_id) && m.user_id != bot_user_id {
            1nat
        } else {
            0nat
        },
{
    assert(states.push(m).drop_last() =~= states);
}

/// A single member, other than the bot, in the target channel counts as one
/// listener: the recording starts.
pub proof fn lemma_single_listener(m: VoiceMember, target_channel_id: u64, bot_user_id: u64)
    requires
        m.channel_id == Some(target_channel_id),
        m.user_id != bot_user_id,
    ensures
        listener_count(seq![m], target_channel_id, bot_user_id) == 1,
{
    lemma_listener_added(Seq::empty(), m, target_channel_id, bot_user_id);
    assert(Seq::<VoiceMember>::empty().push(m) =~= seq![m]);
}

/// The listener count is the number of listeners among the voice states.
pub proof fn lemma_listener_count_filter(states: Seq<VoiceMember>, target_channel_id: u64, bot_user_id: u64)
    ensures
        listener_count(states, target_channel_id, bot_user_id) == states.filter(
            |m: VoiceMember| is_listener(m, target_channel_id, bot_user_id),
        ).len(),
    decreases states.len(),
{
    reveal(Seq::filter);
    if states.len() > 0 {
        lemma_listener_count_filter(states.drop_last(), target_channel_id, bot_user_id);
    }
}

/// Only the listeners decide: two guilds whose voice states hold the same
/// listeners of the target channel, in whatever order and whatever else they
/// hold (the bot's own state, members of other channels or of none), lead to
/// the same decision.
pub proof fn lemma_only_listeners_decide(
    bot: Bot,
    a: Seq<VoiceMember>,
    b: Seq<VoiceMember>,
    bot_user_id: u64,
)
    requires
        a.filter(|m: VoiceMember| is_listener(m, bot.target_channel_id, bot_user_id)).to_multiset()
            == b.filter(|m: VoiceMember| is_listener(m, bot.target_channel_id, bot_user_id)).to_multiset(),
    ensures
        listener_count(a, bot.target_channel_id, bot_user_id) == listener_count(b, bot.target_channel_id, bot_user_id),
        (listener_count(a, bot.target_channel_id, bot_user_id) > 0) == (listener_count(b, bot.target_channel_id, bot_user_id) > 0),
{
    let pred = |m: VoiceMember| is_listener(m, bot.target_channel_id, bot_user_id);
    lemma_listener_count_filter(a, bot.target_channel_id, bot_user_id);
    lemma_listener_count_filter(b, bot.target_channel_id, bot_user_id);
    vstd::seq_lib::to_multiset_len(a.filter(pred));
    vstd::seq_lib::to_multiset_len(b.filter(pred));
}

/// The bot's own voice state never counts as a listener, whichever channel it
/// is in.
pub proof fn lemma_bot_not_counted(
    states: Seq<VoiceMember>,
    target_channel_id: u64,
    bot_user_id: u64,
    channel_id: Option<u64>,
)
    ensures
        listener_count(
            states.push(VoiceMember { user_id: bot_user_id, channel_id }),
            target_channel_id,
            bot_user_id,
        ) == listener_count(states, target_channel_id, bot_user_id),
{
    let s2 = states.push(VoiceMember { user_id: bot_user_id, channel_id });
    assert(s2.drop_last() =~= states);
}

/// The guild a voice-state update belongs to: the new state's, else the old
/// state's.
pub fn event_guild(new_guild: Option<u64>, old_guild: Option<u64>) -> (guild: Option<u64>)
    ensures
        guild == match new_guild {
            Some(g) => Some(g),
            None => old_guild,
        },
{
    match new_guild {
        Some(g) => Some(g),
        None => old_guild,
    }
}

/// The handler's settings that its decisions depend on.
pub struct Bot {
    /// The voice channel that is recorded.
    pub target_channel_id: u64,
}

impl Bot {
    /// Counts the members, other than the bot itself, that are in the target
    /// channel.
    pub fn count_listeners(&self, states: &Vec<VoiceMember>, bot_user_id: u64) -> (n: usize)
        ensures
            n == listener_count(states@, self.target_channel_id, bot_user_id),
    {
        let mut n: usize = 0;
        let mut i: usize = 0;
        while i < states.len()
            invariant
                i <= states@.len(),
                n == listener_count(states@.take(i as int), self.target_channel_id, bot_user_id),
                n <= i,
            decreases states@.len() - i,
        {
            assert(states@.take(i + 1).drop_last() == states@.take(i as int));
            let m = &states[i];
            if m.channel_id == Some(self.target_channel_id) && m.user_id != bot_user_id {
                n = n + 1;
            }
            i = i + 1;
        }
        assert(states@.take(i as int) == states@);
        n
    }

    /// Decides after a guild became available or a voice state changed: a
    /// recording runs when the target channel has at least one listener; a
    /// guild missing from the cache counts as an empty channel.
    pub fn on_update_channel(&self, states: Option<&Vec<VoiceMember>>, bot_user_id: u64) -> (action:
        ChannelAction)
        ensures
            action == (match states {
                Some(s) => if listener_count(s@, self.target_channel_id, bot_user_id) > 0 {
                    ChannelAction::StartRecording
                } else {
                    ChannelAction::EndRecording
                },
                None => ChannelAction::EndRecording,
            }),
    {
        let current_users = match states {
            Some(s) => self.count_listeners(s, bot_user_id),
            None => 0,
        };
        if current_users > 0 {
            ChannelAction::StartRecording
        } else {
            ChannelAction::EndRecording
        }
    }
}

} // verus!
