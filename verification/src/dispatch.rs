//! The dispatch core: one normalized protocol event goes in, exactly one
//! state mutation (or none, for informational events) is applied to the
//! session, and the outcome tells the enclosing loop what else to do:
//! nothing, perform one outbound action, or hand a user message to the
//! reaction handlers together with its reply target.
use vstd::prelude::*;

use crate::channel::ChannelModel;
use crate::channel::add_user_model;
use crate::channel::add_users_model;
use crate::channel::add_op_model;
use crate::channel::remove_op_model;
use crate::channel::remove_user_model;
use crate::channel::rename_user_model;
use crate::client::Client;
use crate::client::ClientModel;
use crate::client::channel_index;
use crate::client::channels_wf;
use crate::client::find_or_create_model;
use crate::client::has_channel;

verus! {

/// A normalized protocol event, as handed over by the event normalizer.
pub enum Event {
    /// A member joined a channel.
    Join { channel: String, nick: String },
    /// A member left one channel.
    Part { channel: String, nick: String },
    /// A member disconnected: it leaves every channel.
    Quit { nick: String },
    /// A member changed its name, in every channel where it is present.
    NickChange { old_nick: String, new_nick: String },
    /// A channel's topic was replaced.
    TopicSet { channel: String, topic: String },
    /// A member's operator flag was granted (`add`) or revoked.
    RoleChange { channel: String, nick: String, add: bool },
    /// A bulk listing of member names, possibly carrying role markers.
    NameListBulk { channel: String, names: Vec<String> },
    /// A user-authored message, routed to the reaction handlers.
    UserMessage { sender: String, target: String, body: String },
    /// The server finished its startup sequence.
    EndOfStartup,
    /// Anything else: ignored.
    Other,
}

/// The mathematical value of an [`Event`].
#[verifier::ext_equal]
pub ghost enum EventModel {
    Join { channel: Seq<char>, nick: Seq<char> },
    Part { channel: Seq<char>, nick: Seq<char> },
    Quit { nick: Seq<char> },
    NickChange { old_nick: Seq<char>, new_nick: Seq<char> },
    TopicSet { channel: Seq<char>, topic: Seq<char> },
    RoleChange { channel: Seq<char>, nick: Seq<char>, add: bool },
    NameListBulk { channel: Seq<char>, names: Seq<Seq<char>> },
    UserMessage { sender: Seq<char>, target: Seq<char>, body: Seq<char> },
    EndOfStartup,
    Other,
}

impl View for Event {
    type V = EventModel;

    open spec fn view(&self) -> EventModel {
        match self {
            Event::Join { channel, nick } => EventModel::Join { channel: channel@, nick: nick@ },
            Event::Part { channel, nick } => EventModel::Part { channel: channel@, nick: nick@ },
            Event::Quit { nick } => EventModel::Quit { nick: nick@ },
            Event::NickChange { old_nick, new_nick } => EventModel::NickChange {
                old_nick: old_nick@,
                new_nick: new_nick@,
            },
            Event::TopicSet { channel, topic } => EventModel::TopicSet {
                channel: channel@,
                topic: topic@,
            },
            Event::RoleChange { channel, nick, add } => EventModel::RoleChange {
                channel: channel@,
                nick: nick@,
                add: *add,
            },
            Event::NameListBulk { channel, names } => EventModel::NameListBulk {
                channel: channel@,
                names: names@.map_values(|t: String| t@),
            },
            Event::UserMessage { sender, target, body } => EventModel::UserMessage {
                sender: sender@,
                target: target@,
                body: body@,
            },
            Event::EndOfStartup => EventModel::EndOfStartup,
            Event::Other => EventModel::Other,
        }
    }
}

/// One outbound protocol action. Performing it is the enclosing loop's
/// business; failures there are logged and swallowed, never propagated.
pub enum Action {
    /// Send `text` to `target` (a channel or a nickname).
    SendMessage { target: String, text: String },
    /// Replace `target`'s topic with `text`.
    SetTopic { target: String, text: String },
}

/// The mathematical value of an [`Action`].
#[verifier::ext_equal]
pub ghost enum ActionModel {
    SendMessage { target: Seq<char>, text: Seq<char> },
    SetTopic { target: Seq<char>, text: Seq<char> },
}

impl View for Action {
    type V = ActionModel;

    open spec fn view(&self) -> ActionModel {
        match self {
            Action::SendMessage { target, text } => ActionModel::SendMessage {
                target: target@,
                text: text@,
            },
            Action::SetTopic { target, text } => ActionModel::SetTopic {
                target: target@,
                text: text@,
            },
        }
    }
}

/// What the dispatch loop must do after an event was applied.
pub enum DispatchOutcome {
    /// Nothing further.
    Nothing,
    /// Perform one outbound action.
    Act { action: Action },
    /// Hand the user message to every reaction handler, replying to
    /// `reply_to`: the target channel when the session knows it, else the
    /// sender (private reply fallback). `channel` is the position of the
    /// known target channel, when there is one.
    Deliver { reply_to: String, channel: Option<usize> },
}

/// The mathematical value of a [`DispatchOutcome`].
#[verifier::ext_equal]
pub ghost enum OutcomeModel {
    Nothing,
    Act { action: ActionModel },
    Deliver { reply_to: Seq<char>, channel: Option<int> },
}

impl View for DispatchOutcome {
    type V = OutcomeModel;

    open spec fn view(&self) -> OutcomeModel {
        match self {
            DispatchOutcome::Nothing => OutcomeModel::Nothing,
            DispatchOutcome::Act { action } => OutcomeModel::Act { action: action@ },
            DispatchOutcome::Deliver { reply_to, channel } => OutcomeModel::Deliver {
                reply_to: reply_to@,
                channel: match channel {
                    Some(i) => Some(*i as int),
                    None => None,
                },
            },
        }
    }
}

/// `m` with its channel sequence replaced.
pub open spec fn client_with_channels(m: ClientModel, channels: Seq<ChannelModel>) -> ClientModel {
    ClientModel {
        running: m.running,
        channels,
        config: m.config,
        server_host: m.server_host,
    }
}

/// `m` after find-or-create of `name`, with the channel of that name
/// replaced by `f` applied at its position.
pub open spec fn step_on_channel(
    m: ClientModel,
    name: Seq<char>,
    f: spec_fn(ChannelModel) -> ChannelModel,
) -> ClientModel {
    let m1 = find_or_create_model(m, name);
    let i = channel_index(m1.channels, name);
    client_with_channels(m1, m1.channels.update(i, f(m1.channels[i])))
}

/// The one state mutation of each event, exactly as the dispatch table
/// prescribes it.
pub open spec fn step_model(m: ClientModel, e: EventModel) -> ClientModel {
    match e {
        EventModel::Join { channel, nick } => step_on_channel(
            m,
            channel,
            |ch: ChannelModel| add_user_model(ch, nick),
        ),
        EventModel::Part { channel, nick } => {
            let i = channel_index(m.channels, channel);
            if i >= 0 {
                client_with_channels(
                    m,
                    m.channels.update(i, remove_user_model(m.channels[i], nick)),
                )
            } else {
                m
            }
        },
        EventModel::Quit { nick } => client_with_channels(
            m,
            m.channels.map_values(|ch: ChannelModel| remove_user_model(ch, nick)),
        ),
        EventModel::NickChange { old_nick, new_nick } => client_with_channels(
            m,
            m.channels.map_values(
                |ch: ChannelModel| rename_user_model(ch, old_nick, new_nick),
            ),
        ),
        EventModel::TopicSet { channel, topic } => step_on_channel(
            m,
            channel,
            |ch: ChannelModel| ChannelModel { name: ch.name, topic, users: ch.users },
        ),
        EventModel::RoleChange { channel, nick, add } => step_on_channel(
            m,
            channel,
            |ch: ChannelModel|
                if add {
                    add_op_model(ch, nick)
                } else {
                    remove_op_model(ch, nick)
                },
        ),
        EventModel::NameListBulk { channel, names } => step_on_channel(
            m,
            channel,
            |ch: ChannelModel| add_users_model(ch, names),
        ),
        EventModel::UserMessage { .. } => m,
        EventModel::EndOfStartup => m,
        EventModel::Other => m,
    }
}

/// What the loop is told to do for each event: deliver user messages with
/// the reply-target rule, identify once startup ends (when a credential is
/// configured), and otherwise nothing.
pub open spec fn outcome_model(m: ClientModel, e: EventModel) -> OutcomeModel {
    match e {
        EventModel::UserMessage { sender, target, .. } => {
            if has_channel(m.channels, target) {
                OutcomeModel::Deliver {
                    reply_to: target,
                    channel: Some(channel_index(m.channels, target)),
                }
            } else {
                OutcomeModel::Deliver { reply_to: sender, channel: None }
            }
        },
        EventModel::EndOfStartup => {
            match m.server_config().password {
                Some(pw) => OutcomeModel::Act {
                    action: ActionModel::SendMessage {
                        target: "NickServ"@,
                        text: "identify TrangarBot "@ + pw,
                    },
                },
                None => OutcomeModel::Nothing,
            }
        },
        _ => OutcomeModel::Nothing,
    }
}

/// Updating one channel in place, without changing its name, keeps the
/// session's channel sequence well-formed.
pub proof fn lemma_update_channel_wf(pre: Seq<ChannelModel>, i: int, ch: ChannelModel)
    requires
        channels_wf(pre),
        0 <= i < pre.len(),
        ch.wf(),
        ch.name == pre[i].name,
    ensures
        channels_wf(pre.update(i, ch)),
{
    let upd = pre.update(i, ch);
    assert forall|a: int, b: int|
        0 <= a < b < upd.len() implies #[trigger] upd[a].name != #[trigger] upd[b].name by {
        assert(pre[a].name != pre[b].name);
    }
    assert forall|a: int| 0 <= a < upd.len() implies (#[trigger] upd[a]).wf() by {
        if a != i {
            assert(upd[a] == pre[a]);
        }
    }
}

/// Apply one normalized event to the session: the mutation prescribed by
/// the dispatch table, and the outcome the loop acts on.
pub fn apply_event(client: &mut Client, event: &Event) -> (out: DispatchOutcome)
    requires
        old(client)@.wf(),
    ensures
        final(client)@ == step_model(old(client)@, event@),
        final(client)@.wf(),
        out@ == outcome_model(old(client)@, event@),
{
    match event {
        Event::Join { channel, nick } => {
            let i = client.find_or_create_channel(channel.clone());
            let ghost m1 = client@;
            proof {
                assert(m1.channels[i as int].wf());
            }
            let ch = &mut client.channels[i];
            ch.add_user(nick.clone());
            proof {
                assert(client@.channels =~~= m1.channels.update(
                    i as int,
                    add_user_model(m1.channels[i as int], nick@),
                ));
                assert(client@ =~~= step_model(old(client)@, event@));
                lemma_update_channel_wf(
                    m1.channels,
                    i as int,
                    add_user_model(m1.channels[i as int], nick@),
                );
            }
            DispatchOutcome::Nothing
        },
        Event::Part { channel, nick } => {
            match client.find_channel(channel.as_str()) {
                Some(i) => {
                    let ghost m0 = client@;
                    proof {
                        crate::client::lemma_channel_index(m0.channels, channel@);
                        assert(m0.channels[i as int].wf());
                    }
                    let ch = &mut client.channels[i];
                    ch.remove_user(nick.as_str());
                    proof {
                        assert(client@.channels =~~= m0.channels.update(
                            i as int,
                            remove_user_model(m0.channels[i as int], nick@),
                        ));
                        assert(client@ =~~= step_model(old(client)@, event@));
                        crate::channel::lemma_remove_user_model_wf(
                            m0.channels[i as int],
                            nick@,
                        );
                        lemma_update_channel_wf(
                            m0.channels,
                            i as int,
                            remove_user_model(m0.channels[i as int], nick@),
                        );
                    }
                },
                None => {
                    proof {
                        assert(client@ =~~= step_model(old(client)@, event@));
                    }
                },
            }
            DispatchOutcome::Nothing
        },
        Event::Quit { nick } => {
            client.remove_user_all(nick.as_str());
            proof {
                assert(client@ =~~= step_model(old(client)@, event@));
            }
            DispatchOutcome::Nothing
        },
        Event::NickChange { old_nick, new_nick } => {
            client.rename_user_all(old_nick.as_str(), new_nick.as_str());
            proof {
                assert(client@ =~~= step_model(old(client)@, event@));
            }
            DispatchOutcome::Nothing
        },
        Event::TopicSet { channel, topic } => {
            let i = client.find_or_create_channel(channel.clone());
            let ghost m1 = client@;
            let ch = &mut client.channels[i];
            ch.set_topic(topic.clone());
            proof {
                assert(client@.channels =~~= m1.channels.update(
                    i as int,
                    ChannelModel {
                        name: m1.channels[i as int].name,
                        topic: topic@,
                        users: m1.channels[i as int].users,
                    },
                ));
                assert(client@ =~~= step_model(old(client)@, event@));
                assert(m1.channels[i as int].wf());
                lemma_update_channel_wf(
                    m1.channels,
                    i as int,
                    ChannelModel {
                        name: m1.channels[i as int].name,
                        topic: topic@,
                        users: m1.channels[i as int].users,
                    },
                );
            }
            DispatchOutcome::Nothing
        },
        Event::RoleChange { channel, nick, add } => {
            let i = client.find_or_create_channel(channel.clone());
            let ghost m1 = client@;
            proof {
                assert(m1.channels[i as int].wf());
            }
            let ch = &mut client.channels[i];
            if *add {
                ch.add_op(nick.as_str());
            } else {
                ch.remove_op(nick.as_str());
            }
            proof {
                let ghost newch = if *add {
                    add_op_model(m1.channels[i as int], nick@)
                } else {
                    remove_op_model(m1.channels[i as int], nick@)
                };
                assert(client@.channels =~~= m1.channels.update(i as int, newch));
                assert(client@ =~~= step_model(old(client)@, event@));
                lemma_update_channel_wf(m1.channels, i as int, newch);
            }
            DispatchOutcome::Nothing
        },
        Event::NameListBulk { channel, names } => {
            let i = client.find_or_create_channel(channel.clone());
            let ghost m1 = client@;
            proof {
                assert(m1.channels[i as int].wf());
            }
            let ch = &mut client.channels[i];
            ch.add_users(names);
            proof {
                let ghost newch = add_users_model(
                    m1.channels[i as int],
                    names@.map_values(|t: String| t@),
                );
                assert(client@.channels =~~= m1.channels.update(i as int, newch));
                assert(client@ =~~= step_model(old(client)@, event@));
                lemma_add_users_model_keeps(
                    m1.channels[i as int],
                    names@.map_values(|t: String| t@),
                );
                lemma_update_channel_wf(m1.channels, i as int, newch);
            }
            DispatchOutcome::Nothing
        },
        Event::UserMessage { sender, target, .. } => {
            let out = match client.find_channel(target.as_str()) {
                Some(i) => DispatchOutcome::Deliver {
                    reply_to: target.clone(),
                    channel: Some(i),
                },
                None => DispatchOutcome::Deliver { reply_to: sender.clone(), channel: None },
            };
            proof {
                assert(client@ =~~= step_model(old(client)@, event@));
            }
            out
        },
        Event::EndOfStartup => {
            let sc = client.server_config();
            let out = match &sc.password {
                Some(pw) => DispatchOutcome::Act {
                    action: Action::SendMessage {
                        target: String::from_str("NickServ"),
                        text: String::from_str("identify TrangarBot ").concat(pw.as_str()),
                    },
                },
                None => DispatchOutcome::Nothing,
            };
            proof {
                assert(client@ =~~= step_model(old(client)@, event@));
            }
            out
        },
        Event::Other => {
            proof {
                assert(client@ =~~= step_model(old(client)@, event@));
            }
            DispatchOutcome::Nothing
        },
    }
}

/// A bulk listing only ever touches the member sequence: the channel's
/// name and topic stay, and well-formedness is preserved.
pub proof fn lemma_add_users_model_keeps(ch: ChannelModel, raws: Seq<Seq<char>>)
    requires
        ch.wf(),
    ensures
        add_users_model(ch, raws).name == ch.name,
        add_users_model(ch, raws).topic == ch.topic,
        add_users_model(ch, raws).wf(),
    decreases raws.len(),
{
    if raws.len() > 0 {
        lemma_add_user_model_keeps(ch, raws[0]);
        lemma_add_users_model_keeps(add_user_model(ch, raws[0]), raws.drop_first());
    }
}

/// Adding one listing entry keeps the channel's name and topic and
/// preserves well-formedness.
pub proof fn lemma_add_user_model_keeps(ch: ChannelModel, raw: Seq<char>)
    requires
        ch.wf(),
    ensures
        add_user_model(ch, raw).name == ch.name,
        add_user_model(ch, raw).topic == ch.topic,
        add_user_model(ch, raw).wf(),
{
    if !crate::channel::has_user(ch.users, crate::channel::bare_name(raw)) {
        crate::channel::lemma_user_index(ch.users, crate::channel::bare_name(raw));
        let pushed = add_user_model(ch, raw).users;
        assert forall|a: int, b: int|
            0 <= a < b < pushed.len() implies #[trigger] pushed[a].name
            != #[trigger] pushed[b].name by {
            if b == pushed.len() - 1 {
                assert(pushed[a] == ch.users[a]);
            } else {
                assert(pushed[a] == ch.users[a]);
                assert(pushed[b] == ch.users[b]);
            }
        }
    }
}

} // verus!
