//! The session: one server connection's running flag, its channels and a
//! read-only snapshot of the configuration. Channels are created lazily the
//! first time any event references an unknown channel name and are never
//! destroyed; channel names are unique for the session's lifetime.
use vstd::prelude::*;

use vstd::pervasive::unreached;

use crate::channel::Channel;
use crate::channel::ChannelModel;
use crate::channel::rename_user_model;
use crate::channel::remove_user_model;
use crate::strutil::str_eq;

verus! {

/// Static configuration for one server connection.
pub struct ConfigServer {
    pub nickname: String,
    pub host: String,
    pub channels: Vec<String>,
    pub factorio_channel: Option<String>,
    pub password: Option<String>,
}

/// The mathematical value of a [`ConfigServer`].
#[verifier::ext_equal]
pub ghost struct ConfigServerModel {
    pub nickname: Seq<char>,
    pub host: Seq<char>,
    pub channels: Seq<Seq<char>>,
    pub factorio_channel: Option<Seq<char>>,
    pub password: Option<Seq<char>>,
}

impl View for ConfigServer {
    type V = ConfigServerModel;

    open spec fn view(&self) -> ConfigServerModel {
        ConfigServerModel {
            nickname: self.nickname@,
            host: self.host@,
            channels: self.channels@.map_values(|t: String| t@),
            factorio_channel: match self.factorio_channel {
                Some(ref s) => Some(s@),
                None => None,
            },
            password: match self.password {
                Some(ref s) => Some(s@),
                None => None,
            },
        }
    }
}

/// Static configuration of the whole process: feature keys for the
/// reactive handlers and the servers to connect to.
pub struct Config {
    pub youtube_key: String,
    pub factorio_username: String,
    pub factorio_key: String,
    pub wolframalpha: String,
    pub servers: Vec<ConfigServer>,
}

/// The mathematical value of a [`Config`].
#[verifier::ext_equal]
pub ghost struct ConfigModel {
    pub youtube_key: Seq<char>,
    pub factorio_username: Seq<char>,
    pub factorio_key: Seq<char>,
    pub wolframalpha: Seq<char>,
    pub servers: Seq<ConfigServerModel>,
}

impl View for Config {
    type V = ConfigModel;

    open spec fn view(&self) -> ConfigModel {
        ConfigModel {
            youtube_key: self.youtube_key@,
            factorio_username: self.factorio_username@,
            factorio_key: self.factorio_key@,
            wolframalpha: self.wolframalpha@,
            servers: self.servers@.map_values(|s: ConfigServer| s@),
        }
    }
}

/// The index of the first server entry for `host`, or `-1` when absent.
pub open spec fn server_index(servers: Seq<ConfigServerModel>, host: Seq<char>) -> int
    decreases servers.len(),
{
    if servers.len() == 0 {
        -1
    } else if servers[0].host == host {
        0
    } else {
        let r = server_index(servers.drop_first(), host);
        if r < 0 {
            -1
        } else {
            r + 1
        }
    }
}

pub proof fn lemma_server_index(servers: Seq<ConfigServerModel>, host: Seq<char>)
    ensures
        server_index(servers, host) == -1 || (0 <= server_index(servers, host) < servers.len()),
        server_index(servers, host) == -1 ==> forall|i: int|
            0 <= i < servers.len() ==> servers[i].host != host,
        server_index(servers, host) >= 0 ==> servers[server_index(servers, host)].host == host,
        server_index(servers, host) >= 0 ==> forall|i: int|
            0 <= i < server_index(servers, host) ==> servers[i].host != host,
    decreases servers.len(),
{
    if servers.len() > 0 && servers[0].host != host {
        lemma_server_index(servers.drop_first(), host);
        if server_index(servers, host) == -1 {
            assert forall|i: int| 0 <= i < servers.len() implies #[trigger] servers[i].host
                != host by {
                if i >= 1 {
                    assert(servers.drop_first()[i - 1] == servers[i]);
                }
            }
        } else {
            assert forall|i: int|
                0 <= i < server_index(servers, host) implies #[trigger] servers[i].host != host by {
                if i >= 1 {
                    assert(servers.drop_first()[i - 1] == servers[i]);
                }
            }
            assert(servers[server_index(servers, host)] == servers.drop_first()[server_index(
                servers.drop_first(),
                host,
            )]);
        }
    }
}

/// The index of the first channel named `name`, or `-1` when absent.
pub open spec fn channel_index(channels: Seq<ChannelModel>, name: Seq<char>) -> int
    decreases channels.len(),
{
    if channels.len() == 0 {
        -1
    } else if channels[0].name == name {
        0
    } else {
        let r = channel_index(channels.drop_first(), name);
        if r < 0 {
            -1
        } else {
            r + 1
        }
    }
}

/// Is some channel named `name` known to the session?
pub open spec fn has_channel(channels: Seq<ChannelModel>, name: Seq<char>) -> bool {
    channel_index(channels, name) >= 0
}

pub proof fn lemma_channel_index(channels: Seq<ChannelModel>, name: Seq<char>)
    ensures
        channel_index(channels, name) == -1 || (0 <= channel_index(channels, name)
            < channels.len()),
        channel_index(channels, name) == -1 ==> forall|i: int|
            0 <= i < channels.len() ==> channels[i].name != name,
        channel_index(channels, name) >= 0 ==> channels[channel_index(channels, name)].name
            == name,
        channel_index(channels, name) >= 0 ==> forall|i: int|
            0 <= i < channel_index(channels, name) ==> channels[i].name != name,
    decreases channels.len(),
{
    if channels.len() > 0 && channels[0].name != name {
        lemma_channel_index(channels.drop_first(), name);
        if channel_index(channels, name) == -1 {
            assert forall|i: int| 0 <= i < channels.len() implies #[trigger] channels[i].name
                != name by {
                if i >= 1 {
                    assert(channels.drop_first()[i - 1] == channels[i]);
                }
            }
        } else {
            assert forall|i: int|
                0 <= i < channel_index(channels, name) implies #[trigger] channels[i].name
                != name by {
                if i >= 1 {
                    assert(channels.drop_first()[i - 1] == channels[i]);
                }
            }
            assert(channels[channel_index(channels, name)] == channels.drop_first()[channel_index(
                channels.drop_first(),
                name,
            )]);
        }
    }
}

/// No two channels of the session share a name.
pub open spec fn channels_wf(channels: Seq<ChannelModel>) -> bool {
    (forall|i: int, j: int|
        0 <= i < j < channels.len() ==> #[trigger] channels[i].name
            != #[trigger] channels[j].name) && (forall|i: int|
        0 <= i < channels.len() ==> (#[trigger] channels[i]).wf())
}

/// The mathematical value of a [`Client`].
#[verifier::ext_equal]
pub ghost struct ClientModel {
    pub running: bool,
    pub channels: Seq<ChannelModel>,
    pub config: ConfigModel,
    pub server_host: Seq<char>,
}

impl ClientModel {
    /// Well-formedness: channel names unique, every channel well-formed,
    /// and the configuration holds an entry for this connection's host.
    pub open spec fn wf(self) -> bool {
        channels_wf(self.channels) && server_index(self.config.servers, self.server_host) >= 0
    }

    /// The configuration entry of this connection.
    pub open spec fn server_config(self) -> ConfigServerModel {
        self.config.servers[server_index(self.config.servers, self.server_host)]
    }
}

/// Effect of referencing a channel name: the existing channel is found, or
/// an empty one is registered (never an error).
pub open spec fn find_or_create_model(m: ClientModel, name: Seq<char>) -> ClientModel {
    if has_channel(m.channels, name) {
        m
    } else {
        ClientModel {
            running: m.running,
            channels: m.channels.push(
                ChannelModel {
                    name,
                    topic: Seq::<char>::empty(),
                    users: Seq::<crate::channel::UserModel>::empty(),
                },
            ),
            config: m.config,
            server_host: m.server_host,
        }
    }
}

/// One server connection's shared state: the running flag, the channels
/// seen so far, and the configuration snapshot.
pub struct Client {
    pub running: bool,
    pub channels: Vec<Channel>,
    pub config: Config,
    pub server_host: String,
}

impl View for Client {
    type V = ClientModel;

    open spec fn view(&self) -> ClientModel {
        ClientModel {
            running: self.running,
            channels: self.channels@.map_values(|c: Channel| c@),
            config: self.config@,
            server_host: self.server_host@,
        }
    }
}

impl Client {
    /// A fresh session: running, with no channels yet.
    pub fn new(config: Config, server_host: String) -> (r: Client)
        requires
            server_index(config@.servers, server_host@) >= 0,
        ensures
            r@ == (ClientModel {
                running: true,
                channels: Seq::<ChannelModel>::empty(),
                config: config@,
                server_host: server_host@,
            }),
            r@.wf(),
    {
        let r = Client { running: true, channels: Vec::new(), config, server_host };
        proof {
            assert(r@.channels =~= Seq::<ChannelModel>::empty());
        }
        r
    }

    /// The configuration entry of this connection's host.
    pub fn server_config(&self) -> (r: &ConfigServer)
        requires
            self@.wf(),
        ensures
            r@ == self@.server_config(),
    {
        proof {
            lemma_server_index(self@.config.servers, self@.server_host);
        }
        let n = self.config.servers.len();
        let mut i: usize = 0;
        while i < n
            invariant
                i <= n,
                n == self@.config.servers.len(),
                self@.config.servers.len() == self.config.servers@.len(),
                0 <= server_index(self@.config.servers, self@.server_host)
                    < self@.config.servers.len(),
                self@.config.servers[server_index(
                    self@.config.servers,
                    self@.server_host,
                )].host == self@.server_host,
                forall|j: int|
                    0 <= j < server_index(self@.config.servers, self@.server_host)
                        ==> self@.config.servers[j].host != self@.server_host,
                forall|j: int| 0 <= j < i ==> self@.config.servers[j].host != self@.server_host,
            decreases n - i,
        {
            if str_eq(self.config.servers[i].host.as_str(), self.server_host.as_str()) {
                proof {
                    let si = server_index(self@.config.servers, self@.server_host);
                    if si < i {
                        assert(self@.config.servers[si].host != self@.server_host);
                    } else if si > i {
                        assert(self@.config.servers[i as int].host != self@.server_host);
                    }
                }
                return &self.config.servers[i];
            }
            i += 1;
        }
        proof {
            let si = server_index(self@.config.servers, self@.server_host);
            assert(self@.config.servers[si].host != self@.server_host);
            assert(false);
        }
        unreached()
    }

    /// Is the connection still live? Background tasks poll this flag
    /// between work units (cooperative cancellation).
    pub fn running(&self) -> (r: bool)
        ensures
            r == self@.running,
    {
        self.running
    }

    /// Flip the running flag; flipped to false once the connection ends.
    pub fn set_running(&mut self, is_running: bool)
        ensures
            final(self)@ == (ClientModel {
                running: is_running,
                channels: old(self)@.channels,
                config: old(self)@.config,
                server_host: old(self)@.server_host,
            }),
    {
        self.running = is_running;
        proof {
            assert(self@ =~~= (ClientModel {
                running: is_running,
                channels: old(self)@.channels,
                config: old(self)@.config,
                server_host: old(self)@.server_host,
            }));
        }
    }

    /// The position of the channel named `name`, if the session knows it.
    pub fn find_channel(&self, name: &str) -> (r: Option<usize>)
        ensures
            match r {
                Some(i) => i == channel_index(self@.channels, name@),
                None => channel_index(self@.channels, name@) == -1,
            },
    {
        proof {
            lemma_channel_index(self@.channels, name@);
        }
        let n = self.channels.len();
        let mut i: usize = 0;
        while i < n
            invariant
                i <= n,
                n == self@.channels.len(),
                self@.channels.len() == self.channels@.len(),
                forall|j: int| 0 <= j < i ==> self@.channels[j].name != name@,
                channel_index(self@.channels, name@) == -1 ==> forall|j: int|
                    0 <= j < self@.channels.len() ==> self@.channels[j].name != name@,
                channel_index(self@.channels, name@) == -1 || (0 <= channel_index(
                    self@.channels,
                    name@,
                ) < self@.channels.len() && self@.channels[channel_index(
                    self@.channels,
                    name@,
                )].name == name@ && forall|j: int|
                    0 <= j < channel_index(self@.channels, name@) ==> self@.channels[j].name
                        != name@),
            decreases n - i,
        {
            if str_eq(self.channels[i].name.as_str(), name) {
                proof {
                    let ci = channel_index(self@.channels, name@);
                    assert(self@.channels[i as int].name == name@);
                    if ci == -1 {
                        assert(self@.channels[i as int].name != name@);
                    } else if ci < i {
                        assert(self@.channels[ci].name != name@);
                    } else if ci > i {
                        assert(forall|j: int|
                            0 <= j < ci ==> self@.channels[j].name != name@);
                        assert(self@.channels[i as int].name != name@);
                    }
                }
                return Some(i);
            }
            i += 1;
        }
        None
    }

    /// Find the channel named `name`, or register an empty one: the
    /// returned position holds a channel of that name either way.
    pub fn find_or_create_channel(&mut self, name: String) -> (r: usize)
        requires
            old(self)@.wf(),
        ensures
            final(self)@ == find_or_create_model(old(self)@, name@),
            final(self)@.wf(),
            r < final(self)@.channels.len(),
            final(self)@.channels[r as int].name == name@,
            r == channel_index(final(self)@.channels, name@),
    {
        proof {
            lemma_channel_index(self@.channels, name@);
        }
        match self.find_channel(name.as_str()) {
            Some(i) => {
                proof {
                    assert(self@ =~~= find_or_create_model(old(self)@, name@));
                }
                i
            },
            None => {
                let ghost nv = name@;
                let ghost fresh = ChannelModel {
                    name: nv,
                    topic: Seq::<char>::empty(),
                    users: Seq::<crate::channel::UserModel>::empty(),
                };
                let i = self.channels.len();
                let ch = Channel::new(name);
                self.channels.push(ch);
                proof {
                    assert(self@.channels =~~= old(self)@.channels.push(fresh));
                    assert(self@ =~~= find_or_create_model(old(self)@, nv));
                    assert(forall|t: int|
                        0 <= t < old(self)@.channels.len() ==> old(self)@.channels[t]
                            == #[trigger] self@.channels[t]);
                    lemma_channel_index(old(self)@.channels, nv);
                    lemma_channel_index_push_absent(old(self)@.channels, fresh);
                    assert(crate::channel::users_wf(fresh.users));
                }
                i
            },
        }
    }

    /// Rename a member in every channel where the old name is present
    /// (global nick change).
    pub fn rename_user_all(&mut self, old_name: &str, new_name: &str)
        requires
            old(self)@.wf(),
        ensures
            final(self)@ == (ClientModel {
                running: old(self)@.running,
                channels: old(self)@.channels.map_values(
                    |c: ChannelModel| rename_user_model(c, old_name@, new_name@),
                ),
                config: old(self)@.config,
                server_host: old(self)@.server_host,
            }),
            final(self)@.wf(),
    {
        let n = self.channels.len();
        let mut i: usize = 0;
        while i < n
            invariant
                i <= n,
                n == self@.channels.len(),
                self@.channels.len() == old(self)@.channels.len(),
                self@.running == old(self)@.running,
                self@.config == old(self)@.config,
                self@.server_host == old(self)@.server_host,
                old(self)@.wf(),
                forall|j: int|
                    0 <= j < i ==> self@.channels[j] == rename_user_model(
                        #[trigger] old(self)@.channels[j],
                        old_name@,
                        new_name@,
                    ),
                forall|j: int|
                    i <= j < n ==> #[trigger] self@.channels[j] == old(self)@.channels[j],
            decreases n - i,
        {
            proof {
                assert(self@.channels[i as int] == old(self)@.channels[i as int]);
                assert((old(self)@.channels[i as int]).wf());
            }
            let ghost snap = self@.channels;
            let ch = &mut self.channels[i];
            ch.rename_user(old_name, new_name);
            proof {
                assert(forall|j: int|
                    0 <= j < n && j != i ==> #[trigger] self@.channels[j] == snap[j]);
                assert(self@.channels[i as int] == rename_user_model(
                    old(self)@.channels[i as int],
                    old_name@,
                    new_name@,
                ));
            }
            i += 1;
        }
        proof {
            lemma_rename_keeps_name(old(self)@.channels, old_name@, new_name@);
            assert(self@.channels =~~= old(self)@.channels.map_values(
                |c: ChannelModel| rename_user_model(c, old_name@, new_name@),
            ));
            assert(self@ =~~= (ClientModel {
                running: old(self)@.running,
                channels: old(self)@.channels.map_values(
                    |c: ChannelModel| rename_user_model(c, old_name@, new_name@),
                ),
                config: old(self)@.config,
                server_host: old(self)@.server_host,
            }));
        }
    }

    /// Remove a member from every channel (global quit).
    pub fn remove_user_all(&mut self, name: &str)
        requires
            old(self)@.wf(),
        ensures
            final(self)@ == (ClientModel {
                running: old(self)@.running,
                channels: old(self)@.channels.map_values(
                    |c: ChannelModel| remove_user_model(c, name@),
                ),
                config: old(self)@.config,
                server_host: old(self)@.server_host,
            }),
            final(self)@.wf(),
    {
        let n = self.channels.len();
        let mut i: usize = 0;
        while i < n
            invariant
                i <= n,
                n == self@.channels.len(),
                self@.channels.len() == old(self)@.channels.len(),
                self@.running == old(self)@.running,
                self@.config == old(self)@.config,
                self@.server_host == old(self)@.server_host,
                old(self)@.wf(),
                forall|j: int|
                    0 <= j < i ==> self@.channels[j] == remove_user_model(
                        #[trigger] old(self)@.channels[j],
                        name@,
                    ),
                forall|j: int|
                    i <= j < n ==> #[trigger] self@.channels[j] == old(self)@.channels[j],
            decreases n - i,
        {
            proof {
                assert(self@.channels[i as int] == old(self)@.channels[i as int]);
                assert((old(self)@.channels[i as int]).wf());
            }
            let ghost snap = self@.channels;
            let ch = &mut self.channels[i];
            ch.remove_user(name);
            proof {
                assert(forall|j: int|
                    0 <= j < n && j != i ==> #[trigger] self@.channels[j] == snap[j]);
                assert(self@.channels[i as int] == remove_user_model(
                    old(self)@.channels[i as int],
                    name@,
                ));
            }
            i += 1;
        }
        proof {
            lemma_remove_keeps_name(old(self)@.channels, name@);
            assert(self@.channels =~~= old(self)@.channels.map_values(
                |c: ChannelModel| remove_user_model(c, name@),
            ));
            assert(self@ =~~= (ClientModel {
                running: old(self)@.running,
                channels: old(self)@.channels.map_values(
                    |c: ChannelModel| remove_user_model(c, name@),
                ),
                config: old(self)@.config,
                server_host: old(self)@.server_host,
            }));
        }
    }
}

/// Appending a channel of a fresh name puts it at the end, where
/// `channel_index` finds it.
pub proof fn lemma_channel_index_push_absent(channels: Seq<ChannelModel>, ch: ChannelModel)
    requires
        channel_index(channels, ch.name) == -1,
    ensures
        channel_index(channels.push(ch), ch.name) == channels.len(),
        forall|n: Seq<char>|
            n != ch.name ==> #[trigger] channel_index(channels.push(ch), n) == channel_index(
                channels,
                n,
            ),
    decreases channels.len(),
{
    if channels.len() == 0 {
        assert forall|n: Seq<char>| n != ch.name implies #[trigger] channel_index(
            channels.push(ch),
            n,
        ) == channel_index(channels, n) by {
            assert(channels.push(ch)[0] == ch);
            assert(channels.push(ch).drop_first() =~~= Seq::<ChannelModel>::empty());
            assert(channel_index(Seq::<ChannelModel>::empty(), n) == -1);
            assert(channel_index(channels.push(ch), n) == -1);
        }
        assert(channels.push(ch)[0] == ch);
    } else {
        lemma_channel_index_push_absent(channels.drop_first(), ch);
        assert(channels.push(ch).drop_first() =~~= channels.drop_first().push(ch));
        assert(channels.push(ch)[0] == channels[0]);
        assert forall|n: Seq<char>| n != ch.name implies #[trigger] channel_index(
            channels.push(ch),
            n,
        ) == channel_index(channels, n) by {
            assert(channel_index(channels.drop_first().push(ch), n) == channel_index(
                channels.drop_first(),
                n,
            ));
        }
        assert(channel_index(channels.push(ch), ch.name) == channels.len());
    }
}

/// A rename never changes a channel's name or topic.
pub proof fn lemma_rename_keeps_name(
    channels: Seq<ChannelModel>,
    old_name: Seq<char>,
    new_name: Seq<char>,
)
    requires
        channels_wf(channels),
    ensures
        forall|j: int|
            0 <= j < channels.len() ==> (#[trigger] rename_user_model(
                channels[j],
                old_name,
                new_name,
            )).name == channels[j].name && rename_user_model(
                channels[j],
                old_name,
                new_name,
            ).wf(),
{
    assert forall|j: int| 0 <= j < channels.len() implies (#[trigger] rename_user_model(
        channels[j],
        old_name,
        new_name,
    )).name == channels[j].name && rename_user_model(channels[j], old_name, new_name).wf() by {
        crate::channel::lemma_rename_user_model_wf(channels[j], old_name, new_name);
    }
}

/// Removing a member never changes a channel's name or topic.
pub proof fn lemma_remove_keeps_name(channels: Seq<ChannelModel>, name: Seq<char>)
    requires
        channels_wf(channels),
    ensures
        forall|j: int|
            0 <= j < channels.len() ==> (#[trigger] remove_user_model(channels[j], name)).name
                == channels[j].name && remove_user_model(channels[j], name).wf(),
{
    assert forall|j: int| 0 <= j < channels.len() implies (#[trigger] remove_user_model(
        channels[j],
        name,
    )).name == channels[j].name && remove_user_model(channels[j], name).wf() by {
        crate::channel::lemma_remove_user_model_wf(channels[j], name);
    }
}

} // verus!
