//! The library's laws: properties that relate several operations, proved
//! over the same models that the executable functions' contracts use.
use vstd::prelude::*;

use crate::channel::ChannelModel;
use crate::channel::UserModel;
use crate::channel::add_user_model;
use crate::channel::add_users_model;
use crate::channel::add_op_model;
use crate::channel::bare_name;
use crate::channel::has_user;
use crate::channel::lemma_add_op_model_keeps;
use crate::channel::lemma_remove_op_model_keeps;
use crate::channel::lemma_remove_user_model_wf;
use crate::channel::lemma_rename_user_model_wf;
use crate::channel::lemma_user_index;
use crate::channel::remove_op_model;
use crate::channel::remove_user_model;
use crate::channel::rename_user_model;
use crate::channel::user_index;
use crate::channel::users_wf;
use crate::client::ClientModel;
use crate::client::channel_index;
use crate::client::channels_wf;
use crate::client::find_or_create_model;
use crate::client::has_channel;
use crate::client::lemma_channel_index;
use crate::client::lemma_channel_index_push_absent;
use crate::commands::COMMAND_TIMEOUT_SECONDS;
use crate::commands::CommandModel;
use crate::commands::CommandsModel;
use crate::commands::can_invoke_again_spec;
use crate::commands::cmd_step;
use crate::commands::lemma_scan_index;
use crate::commands::scan_index;
use crate::dispatch::EventModel;
use crate::dispatch::lemma_add_user_model_keeps;
use crate::dispatch::lemma_add_users_model_keeps;
use crate::dispatch::lemma_update_channel_wf;
use crate::dispatch::step_model;

verus! {

/// The session after a whole sequence of events, applied in order.
pub open spec fn steps_model(m: ClientModel, events: Seq<EventModel>) -> ClientModel
    decreases events.len(),
{
    if events.len() == 0 {
        m
    } else {
        steps_model(step_model(m, events[0]), events.drop_first())
    }
}

/// The set of member names the session holds for channel `c`: empty when
/// the session does not know the channel.
pub open spec fn channel_members(m: ClientModel, c: Seq<char>) -> Set<Seq<char>> {
    if has_channel(m.channels, c) {
        m.channels[channel_index(m.channels, c)].member_names()
    } else {
        Set::<Seq<char>>::empty()
    }
}

/// The topic the session holds for channel `c`: empty when the session
/// does not know the channel.
pub open spec fn channel_topic(m: ClientModel, c: Seq<char>) -> Seq<char> {
    if has_channel(m.channels, c) {
        m.channels[channel_index(m.channels, c)].topic
    } else {
        Seq::<char>::empty()
    }
}

/// A name is present among the members exactly when some entry carries it.
pub proof fn lemma_has_user_iff(users: Seq<UserModel>, name: Seq<char>)
    ensures
        has_user(users, name) <==> exists|i: int|
            0 <= i < users.len() && #[trigger] users[i].name == name,
{
    lemma_user_index(users, name);
    if user_index(users, name) >= 0 {
        assert(users[user_index(users, name)].name == name);
    }
}

/// Adding one listing entry makes the member set exactly the old set with
/// the entry's bare name inserted.
pub proof fn lemma_add_user_members(ch: ChannelModel, raw: Seq<char>)
    ensures
        add_user_model(ch, raw).member_names() == ch.member_names().insert(bare_name(raw)),
{
    let bare = bare_name(raw);
    if has_user(ch.users, bare) {
        assert(ch.member_names().contains(bare));
        assert(add_user_model(ch, raw).member_names() =~= ch.member_names().insert(bare));
    } else {
        let users2 = add_user_model(ch, raw).users;
        assert forall|n: Seq<char>|
            #[trigger] add_user_model(ch, raw).member_names().contains(n)
                == ch.member_names().insert(bare).contains(n) by {
            lemma_has_user_iff(ch.users, n);
            lemma_has_user_iff(users2, n);
            if has_user(users2, n) {
                let t = choose|t: int| 0 <= t < users2.len() && users2[t].name == n;
                if t < users2.len() - 1 {
                    assert(users2[t] == ch.users[t]);
                } else {
                    assert(users2[t].name == bare);
                }
            }
            if has_user(ch.users, n) {
                let t = choose|t: int| 0 <= t < ch.users.len() && ch.users[t].name == n;
                assert(users2[t] == ch.users[t]);
            }
            if n == bare {
                assert(users2[users2.len() - 1].name == bare);
            }
        }
        assert(add_user_model(ch, raw).member_names() =~= ch.member_names().insert(bare));
    }
}

/// Removing a member makes the member set exactly the old set with the
/// name removed.
pub proof fn lemma_remove_user_members(ch: ChannelModel, name: Seq<char>)
    requires
        ch.wf(),
    ensures
        remove_user_model(ch, name).member_names() == ch.member_names().remove(name),
{
    let i = user_index(ch.users, name);
    lemma_user_index(ch.users, name);
    if i >= 0 {
        let users2 = ch.users.remove(i);
        assert forall|n: Seq<char>|
            #[trigger] remove_user_model(ch, name).member_names().contains(n)
                == ch.member_names().remove(name).contains(n) by {
            lemma_has_user_iff(ch.users, n);
            lemma_has_user_iff(users2, n);
            if has_user(users2, n) {
                let t = choose|t: int| 0 <= t < users2.len() && users2[t].name == n;
                if t < i {
                    assert(users2[t] == ch.users[t]);
                } else {
                    assert(users2[t] == ch.users[t + 1]);
                }
                if n == name {
                    assert(false);
                }
            }
            if has_user(ch.users, n) && n != name {
                let t = choose|t: int| 0 <= t < ch.users.len() && ch.users[t].name == n;
                assert(t != i);
                if t < i {
                    assert(users2[t] == ch.users[t]);
                } else {
                    assert(users2[t - 1] == ch.users[t]);
                }
            }
        }
        assert(remove_user_model(ch, name).member_names() =~= ch.member_names().remove(name));
    } else {
        assert forall|n: Seq<char>|
            #[trigger] remove_user_model(ch, name).member_names().contains(n)
                == ch.member_names().remove(name).contains(n) by {
            lemma_has_user_iff(ch.users, n);
        }
        assert(remove_user_model(ch, name).member_names() =~= ch.member_names().remove(name));
    }
}

/// Two channel sequences of the same names have the same lookup results.
pub proof fn lemma_channel_index_same_names(a: Seq<ChannelModel>, b: Seq<ChannelModel>)
    requires
        a.len() == b.len(),
        forall|j: int| 0 <= j < a.len() ==> #[trigger] a[j].name == #[trigger] b[j].name,
    ensures
        forall|x: Seq<char>| #[trigger] channel_index(a, x) == channel_index(b, x),
    decreases a.len(),
{
    if a.len() > 0 {
        lemma_channel_index_same_names(a.drop_first(), b.drop_first());
        assert forall|x: Seq<char>| #[trigger] channel_index(a, x) == channel_index(b, x) by {
            assert(a[0].name == b[0].name);
            assert(channel_index(a.drop_first(), x) == channel_index(b.drop_first(), x));
        }
    }
}

/// Find-or-create: afterwards the channel exists, the session is still
/// well-formed, lookups of other names are unchanged, and every channel's
/// member set and topic (old or freshly created) is unchanged.
pub proof fn lemma_find_or_create_props(m: ClientModel, name: Seq<char>)
    requires
        m.wf(),
    ensures
        find_or_create_model(m, name).wf(),
        0 <= channel_index(find_or_create_model(m, name).channels, name) < find_or_create_model(
            m,
            name,
        ).channels.len(),
        find_or_create_model(m, name).channels[channel_index(
            find_or_create_model(m, name).channels,
            name,
        )].name == name,
        forall|c: Seq<char>|
            #[trigger] channel_members(find_or_create_model(m, name), c) == channel_members(m, c),
        forall|c: Seq<char>|
            c != name ==> #[trigger] channel_topic(find_or_create_model(m, name), c)
                == channel_topic(m, c),
{
    let m1 = find_or_create_model(m, name);
    lemma_channel_index(m.channels, name);
    if has_channel(m.channels, name) {
        assert(m1 == m);
    } else {
        let fresh = ChannelModel {
            name,
            topic: Seq::<char>::empty(),
            users: Seq::<UserModel>::empty(),
        };
        lemma_channel_index_push_absent(m.channels, fresh);
        assert(users_wf(fresh.users));
        assert forall|a: int, b: int|
            0 <= a < b < m1.channels.len() implies #[trigger] m1.channels[a].name
            != #[trigger] m1.channels[b].name by {
            if b < m1.channels.len() - 1 {
                assert(m1.channels[a] == m.channels[a]);
                assert(m1.channels[b] == m.channels[b]);
            } else {
                assert(m1.channels[a] == m.channels[a]);
                assert(m1.channels[b] == fresh);
                lemma_channel_index(m.channels, name);
                assert(m.channels[a].name != name);
            }
        }
        assert forall|a: int| 0 <= a < m1.channels.len() implies (
        #[trigger] m1.channels[a]).wf() by {
            if a < m1.channels.len() - 1 {
                assert(m1.channels[a] == m.channels[a]);
            } else {
                assert(m1.channels[a] == fresh);
            }
        }
        assert forall|c: Seq<char>| #[trigger] channel_members(m1, c) == channel_members(
            m,
            c,
        ) by {
            if c == name {
                assert(channel_index(m1.channels, c) == m.channels.len());
                assert(m1.channels[channel_index(m1.channels, c)] == fresh);
                assert forall|n: Seq<char>| !(#[trigger] fresh.member_names().contains(n)) by {
                    lemma_has_user_iff(fresh.users, n);
                }
                assert(fresh.member_names() =~= Set::<Seq<char>>::empty());
                assert(!has_channel(m.channels, c));
            } else {
                assert(channel_index(m1.channels, c) == channel_index(m.channels, c));
                lemma_channel_index(m.channels, c);
                if has_channel(m.channels, c) {
                    let k = channel_index(m.channels, c);
                    assert(0 <= k < m.channels.len());
                    assert(m1.channels[k] == m.channels[k]);
                }
            }
        }
        assert forall|c: Seq<char>| c != name implies #[trigger] channel_topic(m1, c)
            == channel_topic(m, c) by {
            assert(channel_index(m1.channels, c) == channel_index(m.channels, c));
            lemma_channel_index(m.channels, c);
            if has_channel(m.channels, c) {
                let k = channel_index(m.channels, c);
                assert(0 <= k < m.channels.len());
                assert(m1.channels[k] == m.channels[k]);
            }
        }
    }
}

/// Every event keeps the session well-formed, at the model level.
pub proof fn lemma_step_model_wf(m: ClientModel, e: EventModel)
    requires
        m.wf(),
    ensures
        step_model(m, e).wf(),
        step_model(m, e).config == m.config,
        step_model(m, e).server_host == m.server_host,
        step_model(m, e).running == m.running,
{
    match e {
        EventModel::Join { channel, nick } => {
            lemma_find_or_create_props(m, channel);
            let m1 = find_or_create_model(m, channel);
            let i = channel_index(m1.channels, channel);
            lemma_add_user_model_keeps(m1.channels[i], nick);
            lemma_update_channel_wf(m1.channels, i, add_user_model(m1.channels[i], nick));
        },
        EventModel::Part { channel, nick } => {
            let i = channel_index(m.channels, channel);
            if i >= 0 {
                lemma_channel_index(m.channels, channel);
                lemma_remove_user_model_wf(m.channels[i], nick);
                lemma_update_channel_wf(m.channels, i, remove_user_model(m.channels[i], nick));
            }
        },
        EventModel::Quit { nick } => {
            crate::client::lemma_remove_keeps_name(m.channels, nick);
            let mapped = m.channels.map_values(
                |ch: ChannelModel| remove_user_model(ch, nick),
            );
            assert forall|a: int, b: int|
                0 <= a < b < mapped.len() implies #[trigger] mapped[a].name
                != #[trigger] mapped[b].name by {
                assert(m.channels[a].name != m.channels[b].name);
            }
        },
        EventModel::NickChange { old_nick, new_nick } => {
            crate::client::lemma_rename_keeps_name(m.channels, old_nick, new_nick);
            let mapped = m.channels.map_values(
                |ch: ChannelModel| rename_user_model(ch, old_nick, new_nick),
            );
            assert forall|a: int, b: int|
                0 <= a < b < mapped.len() implies #[trigger] mapped[a].name
                != #[trigger] mapped[b].name by {
                assert(m.channels[a].name != m.channels[b].name);
            }
        },
        EventModel::TopicSet { channel, topic } => {
            lemma_find_or_create_props(m, channel);
            let m1 = find_or_create_model(m, channel);
            let i = channel_index(m1.channels, channel);
            lemma_update_channel_wf(
                m1.channels,
                i,
                ChannelModel { name: m1.channels[i].name, topic, users: m1.channels[i].users },
            );
        },
        EventModel::RoleChange { channel, nick, add } => {
            lemma_find_or_create_props(m, channel);
            let m1 = find_or_create_model(m, channel);
            let i = channel_index(m1.channels, channel);
            if add {
                lemma_add_op_model_keeps(m1.channels[i], nick);
                lemma_update_channel_wf(m1.channels, i, add_op_model(m1.channels[i], nick));
            } else {
                lemma_remove_op_model_keeps(m1.channels[i], nick);
                lemma_update_channel_wf(m1.channels, i, remove_op_model(m1.channels[i], nick));
            }
        },
        EventModel::NameListBulk { channel, names } => {
            lemma_find_or_create_props(m, channel);
            let m1 = find_or_create_model(m, channel);
            let i = channel_index(m1.channels, channel);
            lemma_add_users_model_keeps(m1.channels[i], names);
            lemma_update_channel_wf(m1.channels, i, add_users_model(m1.channels[i], names));
        },
        EventModel::UserMessage { .. } => {},
        EventModel::EndOfStartup => {},
        EventModel::Other => {},
    }
}

/// Is the event a join or a part?
pub open spec fn is_join_part(e: EventModel) -> bool {
    match e {
        EventModel::Join { .. } => true,
        EventModel::Part { .. } => true,
        _ => false,
    }
}

/// The names joined to channel `c` and not parted again, folded from an
/// initial member set: a join inserts the entry's bare name, a part
/// removes the parted name, events of other channels leave `c` alone.
pub open spec fn expected_members(
    init: Set<Seq<char>>,
    events: Seq<EventModel>,
    c: Seq<char>,
) -> Set<Seq<char>>
    decreases events.len(),
{
    if events.len() == 0 {
        init
    } else {
        expected_members(member_step(init, events[0], c), events.drop_first(), c)
    }
}

/// The one-step effect of a join or part event on channel `c`'s member
/// set.
pub open spec fn member_step(init: Set<Seq<char>>, e: EventModel, c: Seq<char>) -> Set<
    Seq<char>,
> {
    match e {
        EventModel::Join { channel, nick } => if channel == c {
            init.insert(bare_name(nick))
        } else {
            init
        },
        EventModel::Part { channel, nick } => if channel == c {
            init.remove(nick)
        } else {
            init
        },
        _ => init,
    }
}

/// One join or part event changes channel `c`'s member set exactly as
/// [`member_step`] prescribes.
pub proof fn lemma_single_join_part(m: ClientModel, e: EventModel, c: Seq<char>)
    requires
        m.wf(),
        is_join_part(e),
    ensures
        channel_members(step_model(m, e), c) == member_step(channel_members(m, c), e, c),
{
    match e {
        EventModel::Join { channel, nick } => {
            lemma_find_or_create_props(m, channel);
            let m1 = find_or_create_model(m, channel);
            let i = channel_index(m1.channels, channel);
            let updated = add_user_model(m1.channels[i], nick);
            let m2 = step_model(m, e);
            lemma_add_user_model_keeps(m1.channels[i], nick);
            assert forall|j: int|
                0 <= j < m1.channels.len() implies #[trigger] m2.channels[j].name
                == m1.channels[j].name by {
                if j != i {
                    assert(m2.channels[j] == m1.channels[j]);
                }
            }
            lemma_channel_index_same_names(m2.channels, m1.channels);
            lemma_add_user_members(m1.channels[i], nick);
            if channel == c {
                assert(channel_index(m2.channels, c) == i);
                assert(m2.channels[i] == updated);
                assert(channel_members(m2, c) == m1.channels[i].member_names().insert(
                    bare_name(nick),
                ));
                assert(channel_members(m1, c) == m1.channels[i].member_names());
                assert(channel_members(m1, c) == channel_members(m, c));
            } else {
                let k = channel_index(m1.channels, c);
                assert(channel_index(m2.channels, c) == k);
                lemma_channel_index(m1.channels, c);
                if k >= 0 {
                    assert(k != i) by {
                        assert(m1.channels[i].name == channel);
                        assert(m1.channels[k].name == c);
                    }
                    assert(m2.channels[k] == m1.channels[k]);
                }
                assert(channel_members(m2, c) == channel_members(m1, c));
                assert(channel_members(m1, c) == channel_members(m, c));
            }
        },
        EventModel::Part { channel, nick } => {
            let i = channel_index(m.channels, channel);
            lemma_channel_index(m.channels, channel);
            let m2 = step_model(m, e);
            if i >= 0 {
                lemma_remove_user_model_wf(m.channels[i], nick);
                assert forall|j: int|
                    0 <= j < m.channels.len() implies #[trigger] m2.channels[j].name
                    == m.channels[j].name by {
                    if j != i {
                        assert(m2.channels[j] == m.channels[j]);
                    }
                }
                lemma_channel_index_same_names(m2.channels, m.channels);
                assert(m.channels[i].wf());
                lemma_remove_user_members(m.channels[i], nick);
                if channel == c {
                    assert(channel_index(m2.channels, c) == i);
                    assert(m2.channels[i] == remove_user_model(m.channels[i], nick));
                    assert(channel_members(m2, c) == m.channels[i].member_names().remove(nick));
                    assert(channel_members(m, c) == m.channels[i].member_names());
                } else {
                    let k = channel_index(m.channels, c);
                    assert(channel_index(m2.channels, c) == k);
                    lemma_channel_index(m.channels, c);
                    if k >= 0 {
                        assert(k != i) by {
                            assert(m.channels[i].name == channel);
                            assert(m.channels[k].name == c);
                        }
                        assert(m2.channels[k] == m.channels[k]);
                    }
                    assert(channel_members(m2, c) == channel_members(m, c));
                }
            } else {
                assert(m2 == m);
                if channel == c {
                    assert(channel_members(m, c) =~= Set::<Seq<char>>::empty());
                    assert(channel_members(m, c).remove(nick) =~= Set::<Seq<char>>::empty());
                }
            }
        },
        _ => {},
    }
}

/// For every sequence of join and part events, the members the session
/// then holds for a channel are exactly the names joined to it and not
/// parted again, however the sequence interleaves several channels.
pub proof fn lemma_join_part_membership(m: ClientModel, events: Seq<EventModel>, c: Seq<char>)
    requires
        m.wf(),
        forall|k: int| 0 <= k < events.len() ==> is_join_part(#[trigger] events[k]),
    ensures
        steps_model(m, events).wf(),
        channel_members(steps_model(m, events), c) == expected_members(
            channel_members(m, c),
            events,
            c,
        ),
    decreases events.len(),
{
    if events.len() > 0 {
        let e = events[0];
        lemma_step_model_wf(m, e);
        lemma_single_join_part(m, e, c);
        assert(forall|k: int|
            0 <= k < events.drop_first().len() ==> is_join_part(
                #[trigger] events.drop_first()[k],
            ));
        lemma_join_part_membership(step_model(m, e), events.drop_first(), c);
        assert(channel_members(step_model(m, e), c) == member_step(
            channel_members(m, c),
            e,
            c,
        ));
        assert(expected_members(channel_members(m, c), events, c) == expected_members(
            member_step(channel_members(m, c), e, c),
            events.drop_first(),
            c,
        ));
    }
}

/// Adding an entry whose bare name is already present changes nothing.
pub proof fn lemma_add_user_noop(ch: ChannelModel, raw: Seq<char>)
    requires
        has_user(ch.users, bare_name(raw)),
    ensures
        add_user_model(ch, raw) == ch,
{
}

/// Adding an entry never removes a present member.
pub proof fn lemma_add_user_preserves(ch: ChannelModel, raw: Seq<char>, n: Seq<char>)
    requires
        has_user(ch.users, n),
    ensures
        has_user(add_user_model(ch, raw).users, n),
{
    lemma_has_user_iff(ch.users, n);
    lemma_has_user_iff(add_user_model(ch, raw).users, n);
    if !has_user(ch.users, bare_name(raw)) {
        let t = choose|t: int| 0 <= t < ch.users.len() && ch.users[t].name == n;
        assert(add_user_model(ch, raw).users[t] == ch.users[t]);
    }
}

/// After adding an entry its bare name is present.
pub proof fn lemma_add_user_adds(ch: ChannelModel, raw: Seq<char>)
    ensures
        has_user(add_user_model(ch, raw).users, bare_name(raw)),
{
    lemma_has_user_iff(add_user_model(ch, raw).users, bare_name(raw));
    if !has_user(ch.users, bare_name(raw)) {
        let users2 = add_user_model(ch, raw).users;
        assert(users2[users2.len() - 1].name == bare_name(raw));
    }
}

/// A bulk listing never removes a present member.
pub proof fn lemma_add_users_preserves(ch: ChannelModel, raws: Seq<Seq<char>>, n: Seq<char>)
    requires
        has_user(ch.users, n),
    ensures
        has_user(add_users_model(ch, raws).users, n),
    decreases raws.len(),
{
    if raws.len() > 0 {
        lemma_add_user_preserves(ch, raws[0], n);
        lemma_add_users_preserves(add_user_model(ch, raws[0]), raws.drop_first(), n);
    }
}

/// After a bulk listing every listed bare name is present.
pub proof fn lemma_add_users_all_present(ch: ChannelModel, raws: Seq<Seq<char>>)
    ensures
        forall|k: int|
            0 <= k < raws.len() ==> has_user(
                add_users_model(ch, raws).users,
                bare_name(#[trigger] raws[k]),
            ),
    decreases raws.len(),
{
    if raws.len() > 0 {
        let ch1 = add_user_model(ch, raws[0]);
        lemma_add_user_adds(ch, raws[0]);
        lemma_add_users_preserves(ch1, raws.drop_first(), bare_name(raws[0]));
        lemma_add_users_all_present(ch1, raws.drop_first());
        assert forall|k: int|
            0 <= k < raws.len() implies has_user(
            add_users_model(ch, raws).users,
            bare_name(#[trigger] raws[k]),
        ) by {
            if k >= 1 {
                assert(raws.drop_first()[k - 1] == raws[k]);
            }
        }
    }
}

/// A bulk listing whose bare names are all present changes nothing.
pub proof fn lemma_add_users_noop(ch: ChannelModel, raws: Seq<Seq<char>>)
    requires
        forall|k: int|
            0 <= k < raws.len() ==> has_user(ch.users, bare_name(#[trigger] raws[k])),
    ensures
        add_users_model(ch, raws) == ch,
    decreases raws.len(),
{
    if raws.len() > 0 {
        lemma_add_user_noop(ch, raws[0]);
        assert(forall|k: int|
            0 <= k < raws.drop_first().len() ==> has_user(
                ch.users,
                bare_name(#[trigger] raws.drop_first()[k]),
            ));
        lemma_add_users_noop(ch, raws.drop_first());
    }
}

/// A bulk listing is idempotent on a channel: applying it twice gives the
/// members and roles of applying it once.
pub proof fn lemma_bulk_idempotent_channel(ch: ChannelModel, raws: Seq<Seq<char>>)
    ensures
        add_users_model(add_users_model(ch, raws), raws) == add_users_model(ch, raws),
{
    lemma_add_users_all_present(ch, raws);
    lemma_add_users_noop(add_users_model(ch, raws), raws);
}

/// A bulk name listing is idempotent on the session: applying the same
/// listing twice yields exactly the session of applying it once.
pub proof fn lemma_name_list_idempotent(
    m: ClientModel,
    channel: Seq<char>,
    names: Seq<Seq<char>>,
)
    requires
        m.wf(),
    ensures
        step_model(
            step_model(m, EventModel::NameListBulk { channel, names }),
            EventModel::NameListBulk { channel, names },
        ) == step_model(m, EventModel::NameListBulk { channel, names }),
{
    let e = EventModel::NameListBulk { channel, names };
    lemma_find_or_create_props(m, channel);
    let m1 = find_or_create_model(m, channel);
    let i = channel_index(m1.channels, channel);
    let m2 = step_model(m, e);
    lemma_add_users_model_keeps(m1.channels[i], names);
    assert forall|j: int|
        0 <= j < m1.channels.len() implies #[trigger] m2.channels[j].name
        == m1.channels[j].name by {
        if j != i {
            assert(m2.channels[j] == m1.channels[j]);
        }
    }
    lemma_channel_index_same_names(m2.channels, m1.channels);
    assert(channel_index(m2.channels, channel) == i);
    assert(has_channel(m2.channels, channel));
    assert(find_or_create_model(m2, channel) == m2);
    let m3 = step_model(m2, e);
    assert(m2.channels[i] == add_users_model(m1.channels[i], names));
    lemma_bulk_idempotent_channel(m1.channels[i], names);
    assert(add_users_model(m2.channels[i], names) == m2.channels[i]);
    assert(m2.channels.update(i, m2.channels[i]) =~~= m2.channels);
    assert(m3 =~~= m2);
}

/// A rename moves the member: afterwards the new name is present with the
/// member's flags and the old name is gone.
pub proof fn lemma_rename_moves_member(
    ch: ChannelModel,
    old_name: Seq<char>,
    new_name: Seq<char>,
)
    requires
        ch.wf(),
        old_name != new_name,
        has_user(ch.users, old_name),
    ensures
        has_user(rename_user_model(ch, old_name, new_name).users, new_name),
        !has_user(rename_user_model(ch, old_name, new_name).users, old_name),
        rename_user_model(ch, old_name, new_name).users[user_index(
            rename_user_model(ch, old_name, new_name).users,
            new_name,
        )].flags == ch.users[user_index(ch.users, old_name)].flags,
{
    lemma_user_index(ch.users, old_name);
    lemma_user_index(ch.users, new_name);
    let i = user_index(ch.users, old_name);
    let j = user_index(ch.users, new_name);
    let pruned = if j >= 0 {
        ch.users.remove(j)
    } else {
        ch.users
    };
    if j >= 0 {
        crate::channel::lemma_users_wf_remove(ch.users, j);
    }
    let iprime = if j >= 0 && i > j {
        i - 1
    } else {
        i
    };
    assert(pruned[iprime] == ch.users[i]);
    lemma_user_index(pruned, old_name);
    let k = user_index(pruned, old_name);
    assert(k >= 0) by {
        if k == -1 {
            assert(pruned[iprime].name != old_name);
        }
    }
    assert(pruned[k].name == old_name);
    assert(k == iprime) by {
        if k != iprime {
            let a = if k < iprime {
                k
            } else {
                iprime
            };
            let b = if k < iprime {
                iprime
            } else {
                k
            };
            assert(pruned[a].name != pruned[b].name);
        }
    }
    let result = rename_user_model(ch, old_name, new_name).users;
    assert(result == pruned.update(k, UserModel { name: new_name, flags: pruned[k].flags }));
    lemma_has_user_iff(result, new_name);
    assert(result[k].name == new_name);
    assert(has_user(result, new_name));
    lemma_user_index(result, new_name);
    let r = user_index(result, new_name);
    assert(r >= 0);
    assert forall|t: int|
        0 <= t < result.len() && t != k implies #[trigger] result[t].name != new_name by {
        assert(result[t] == pruned[t]);
        if j >= 0 {
            lemma_user_index(ch.users, new_name);
            if t < j {
                assert(pruned[t] == ch.users[t]);
                if ch.users[t].name == new_name {
                    let a = if t < j {
                        t
                    } else {
                        j
                    };
                    assert(ch.users[t].name != ch.users[j].name || t == j);
                }
            } else {
                assert(pruned[t] == ch.users[t + 1]);
                assert(ch.users[t + 1].name != ch.users[j].name);
            }
        }
    }
    assert(r == k);
    assert(result[k].flags == ch.users[i].flags);
    lemma_has_user_iff(result, old_name);
    assert forall|t: int| 0 <= t < result.len() implies #[trigger] result[t].name
        != old_name by {
        if t != k {
            assert(result[t] == pruned[t]);
            if pruned[t].name == old_name {
                let a = if t < k {
                    t
                } else {
                    k
                };
                let b = if t < k {
                    k
                } else {
                    t
                };
                assert(pruned[a].name != pruned[b].name);
            }
        }
    }
}

/// A global nick change moves the member in every channel where the old
/// name is present: the new name is there with the member's flags, and no
/// entry of the old name remains.
pub proof fn lemma_nick_change_moves_member(
    m: ClientModel,
    old_nick: Seq<char>,
    new_nick: Seq<char>,
)
    requires
        m.wf(),
        old_nick != new_nick,
    ensures
        forall|j: int|
            0 <= j < m.channels.len() && has_user(
                (#[trigger] m.channels[j]).users,
                old_nick,
            ) ==> {
                let ch2 = step_model(
                    m,
                    EventModel::NickChange { old_nick, new_nick },
                ).channels[j];
                has_user(ch2.users, new_nick) && !has_user(ch2.users, old_nick)
                    && ch2.users[user_index(ch2.users, new_nick)].flags == m.channels[j].users[
                user_index(m.channels[j].users, old_nick)].flags
            },
{
    let m2 = step_model(m, EventModel::NickChange { old_nick, new_nick });
    assert forall|j: int|
        0 <= j < m.channels.len() && has_user(
            (#[trigger] m.channels[j]).users,
            old_nick,
        ) implies {
        let ch2 = step_model(m, EventModel::NickChange { old_nick, new_nick }).channels[j];
        has_user(ch2.users, new_nick) && !has_user(ch2.users, old_nick) && ch2.users[user_index(
            ch2.users,
            new_nick,
        )].flags == m.channels[j].users[user_index(m.channels[j].users, old_nick)].flags
    } by {
        assert(m.channels[j].wf());
        lemma_rename_moves_member(m.channels[j], old_nick, new_nick);
        assert(m2.channels[j] == rename_user_model(m.channels[j], old_nick, new_nick));
    }
}

/// Setting the topic twice leaves exactly the second text: a topic set is
/// a full overwrite, never a merge.
pub proof fn lemma_topic_overwrite(m: ClientModel, c: Seq<char>, t1: Seq<char>, t2: Seq<char>)
    requires
        m.wf(),
    ensures
        channel_topic(
            step_model(
                step_model(m, EventModel::TopicSet { channel: c, topic: t1 }),
                EventModel::TopicSet { channel: c, topic: t2 },
            ),
            c,
        ) == t2,
{
    lemma_step_model_wf(m, EventModel::TopicSet { channel: c, topic: t1 });
    let m2 = step_model(m, EventModel::TopicSet { channel: c, topic: t1 });
    lemma_topic_set_sets(m, c, t1);
    lemma_topic_set_sets(m2, c, t2);
}

/// The hypotheses under which a `!`-message at `body` is answered by the
/// command at position `i` and by no other: the body is an ordinary
/// command invocation, exactly one trigger matches it, and that command's
/// cooldown has elapsed.
pub open spec fn sole_match(m: CommandsModel, body: Seq<char>, is_op: bool, i: int) -> bool {
    &&& body.len() > 0
    &&& body[0] == '!'
    &&& crate::strutil::trim_spec(body) != "!help"@
    &&& !("!learn"@.is_prefix_of(crate::strutil::trim_spec(body)) && is_op)
    &&& 0 <= i < m.commands.len()
    &&& m.commands[i].trigger.is_prefix_of(body.skip(1))
    &&& forall|t: int|
        0 <= t < m.commands.len() && t != i ==> !(
        #[trigger] m.commands[t].trigger).is_prefix_of(body.skip(1))
}

/// When exactly one command matches and its cooldown has elapsed, the
/// message replays exactly that command's responses and stamps its
/// invocation time.
pub proof fn lemma_command_fires(
    m: CommandsModel,
    body: Seq<char>,
    is_op: bool,
    now: u64,
    i: int,
)
    requires
        sole_match(m, body, is_op, i),
        can_invoke_again_spec(m.commands[i].last_invoke, now),
    ensures
        cmd_step(m, body, is_op, now).replies == m.commands[i].response,
        cmd_step(m, body, is_op, now).state.commands == m.commands.update(
            i,
            CommandModel {
                trigger: m.commands[i].trigger,
                response: m.commands[i].response,
                last_invoke: Some(now),
            },
        ),
        cmd_step(m, body, is_op, now).state.last_help == m.last_help,
{
    let text = body.skip(1);
    lemma_scan_index(m.commands, text, now);
    let s = scan_index(m.commands, text, now);
    if s == -1 {
        assert(!(m.commands[i].trigger.is_prefix_of(text) && can_invoke_again_spec(
            m.commands[i].last_invoke,
            now,
        )));
        assert(false);
    } else if s != i {
        assert(m.commands[s].trigger.is_prefix_of(text));
        assert(false);
    }
}

/// Two invocations of the same sole-matching command within the cooldown
/// window produce exactly one set of responses: the first replays them,
/// the second is silent.
pub proof fn lemma_cooldown_silences_second(
    m: CommandsModel,
    body: Seq<char>,
    is_op: bool,
    now1: u64,
    now2: u64,
    i: int,
)
    requires
        sole_match(m, body, is_op, i),
        can_invoke_again_spec(m.commands[i].last_invoke, now1),
        now2 <= now1 + COMMAND_TIMEOUT_SECONDS,
    ensures
        cmd_step(m, body, is_op, now1).replies == m.commands[i].response,
        cmd_step(cmd_step(m, body, is_op, now1).state, body, is_op, now2).replies == Seq::<
            Seq<char>,
        >::empty(),
{
    lemma_command_fires(m, body, is_op, now1, i);
    let m1 = cmd_step(m, body, is_op, now1).state;
    let text = body.skip(1);
    lemma_scan_index(m1.commands, text, now2);
    let s = scan_index(m1.commands, text, now2);
    if s >= 0 {
        if s == i {
            assert(m1.commands[i].last_invoke == Some(now1));
            assert(!can_invoke_again_spec(m1.commands[i].last_invoke, now2));
            assert(false);
        } else {
            assert(m1.commands[s] == m.commands[s]);
            assert(m.commands[s].trigger.is_prefix_of(text));
            assert(false);
        }
    }
}

/// Once the cooldown has fully elapsed, the same message replays the
/// responses again.
pub proof fn lemma_cooldown_elapses(
    m: CommandsModel,
    body: Seq<char>,
    is_op: bool,
    now1: u64,
    now2: u64,
    i: int,
)
    requires
        sole_match(m, body, is_op, i),
        can_invoke_again_spec(m.commands[i].last_invoke, now1),
        now2 > now1 + COMMAND_TIMEOUT_SECONDS,
    ensures
        cmd_step(m, body, is_op, now1).replies == m.commands[i].response,
        cmd_step(cmd_step(m, body, is_op, now1).state, body, is_op, now2).replies
            == m.commands[i].response,
{
    lemma_command_fires(m, body, is_op, now1, i);
    let m1 = cmd_step(m, body, is_op, now1).state;
    assert(m1.commands[i].trigger == m.commands[i].trigger);
    assert(m1.commands[i].response == m.commands[i].response);
    assert(m1.commands[i].last_invoke == Some(now1));
    assert forall|t: int|
        0 <= t < m1.commands.len() && t != i implies !(
        #[trigger] m1.commands[t].trigger).is_prefix_of(body.skip(1)) by {
        assert(m1.commands[t] == m.commands[t]);
    }
    assert(sole_match(m1, body, is_op, i));
    lemma_command_fires(m1, body, is_op, now2, i);
}

/// One topic-set event leaves exactly the given text as the topic.
pub proof fn lemma_topic_set_sets(m: ClientModel, c: Seq<char>, t: Seq<char>)
    requires
        m.wf(),
    ensures
        channel_topic(step_model(m, EventModel::TopicSet { channel: c, topic: t }), c) == t,
        has_channel(
            step_model(m, EventModel::TopicSet { channel: c, topic: t }).channels,
            c,
        ),
{
    lemma_find_or_create_props(m, c);
    let m1 = find_or_create_model(m, c);
    let i = channel_index(m1.channels, c);
    let m2 = step_model(m, EventModel::TopicSet { channel: c, topic: t });
    assert forall|j: int|
        0 <= j < m1.channels.len() implies #[trigger] m2.channels[j].name
        == m1.channels[j].name by {
        if j != i {
            assert(m2.channels[j] == m1.channels[j]);
        }
    }
    lemma_channel_index_same_names(m2.channels, m1.channels);
    assert(channel_index(m2.channels, c) == i);
}

} // verus!
