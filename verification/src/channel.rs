//! A chat channel: a name, a free-text topic and the members currently
//! present, each member carrying a set of role flags. Member names are
//! unique within a channel; every mutation below preserves that invariant
//! and is specified by a model-level function on [`ChannelModel`].
use vstd::prelude::*;

use crate::is_role_marker;
use crate::role_marker;
use crate::strutil::str_eq;

verus! {

/// A participant in a channel: a name and its role flags.
pub struct User {
    pub name: String,
    pub flags: Vec<char>,
}

/// The mathematical value of a [`User`].
#[verifier::ext_equal]
pub ghost struct UserModel {
    pub name: Seq<char>,
    pub flags: Seq<char>,
}

impl View for User {
    type V = UserModel;

    open spec fn view(&self) -> UserModel {
        UserModel { name: self.name@, flags: self.flags@ }
    }
}

/// A channel: immutable name, replaceable topic, members in insertion order.
pub struct Channel {
    pub name: String,
    pub topic: String,
    pub users: Vec<User>,
}

/// The mathematical value of a [`Channel`].
#[verifier::ext_equal]
pub ghost struct ChannelModel {
    pub name: Seq<char>,
    pub topic: Seq<char>,
    pub users: Seq<UserModel>,
}

impl View for Channel {
    type V = ChannelModel;

    open spec fn view(&self) -> ChannelModel {
        ChannelModel {
            name: self.name@,
            topic: self.topic@,
            users: self.users@.map_values(|u: User| u@),
        }
    }
}

/// The index of the first member named `name`, or `-1` when absent.
pub open spec fn user_index(users: Seq<UserModel>, name: Seq<char>) -> int
    decreases users.len(),
{
    if users.len() == 0 {
        -1
    } else if users[0].name == name {
        0
    } else {
        let r = user_index(users.drop_first(), name);
        if r < 0 {
            -1
        } else {
            r + 1
        }
    }
}

/// Is some member named `name` present?
pub open spec fn has_user(users: Seq<UserModel>, name: Seq<char>) -> bool {
    user_index(users, name) >= 0
}

/// `user_index` returns `-1` exactly when the name is absent, and otherwise
/// the position of the first member carrying it.
pub proof fn lemma_user_index(users: Seq<UserModel>, name: Seq<char>)
    ensures
        user_index(users, name) == -1 || (0 <= user_index(users, name) < users.len()),
        user_index(users, name) == -1 ==> forall|i: int|
            0 <= i < users.len() ==> users[i].name != name,
        user_index(users, name) >= 0 ==> users[user_index(users, name)].name == name,
        user_index(users, name) >= 0 ==> forall|i: int|
            0 <= i < user_index(users, name) ==> users[i].name != name,
    decreases users.len(),
{
    if users.len() > 0 && users[0].name != name {
        lemma_user_index(users.drop_first(), name);
        if user_index(users, name) == -1 {
            assert forall|i: int| 0 <= i < users.len() implies #[trigger] users[i].name
                != name by {
                if i >= 1 {
                    assert(users.drop_first()[i - 1] == users[i]);
                }
            }
        } else {
            assert forall|i: int| 0 <= i < user_index(users, name) implies #[trigger] users[i].name
                != name by {
                if i >= 1 {
                    assert(users.drop_first()[i - 1] == users[i]);
                }
            }
            assert(users[user_index(users, name)] == users.drop_first()[user_index(
                users.drop_first(),
                name,
            )]);
        }
    }
}

/// No two members of the sequence share a name.
pub open spec fn users_wf(users: Seq<UserModel>) -> bool {
    forall|i: int, j: int|
        0 <= i < j < users.len() ==> #[trigger] users[i].name != #[trigger] users[j].name
}

impl ChannelModel {
    /// Well-formedness: member names are unique.
    pub open spec fn wf(self) -> bool {
        users_wf(self.users)
    }

    /// The set of member names present in the channel.
    pub open spec fn member_names(self) -> Set<Seq<char>> {
        Set::new(|n: Seq<char>| has_user(self.users, n))
    }
}

/// The number of leading role-indicator characters of `s`.
pub open spec fn marker_prefix_len(s: Seq<char>) -> nat
    decreases s.len(),
{
    if s.len() > 0 && is_role_marker(s[0]) {
        1 + marker_prefix_len(s.drop_first())
    } else {
        0
    }
}

pub proof fn lemma_marker_prefix_len(s: Seq<char>)
    ensures
        marker_prefix_len(s) <= s.len(),
    decreases s.len(),
{
    if s.len() > 0 && is_role_marker(s[0]) {
        lemma_marker_prefix_len(s.drop_first());
    }
}

/// The bare member name of a bulk-listing entry: the entry with every
/// leading role marker removed.
pub open spec fn bare_name(s: Seq<char>) -> Seq<char> {
    s.skip(marker_prefix_len(s) as int)
}

/// The role flags of a bulk-listing entry: its leading role markers.
pub open spec fn marker_flags(s: Seq<char>) -> Seq<char> {
    s.take(marker_prefix_len(s) as int)
}

/// Effect of observing `raw` in a join or bulk listing: strip the leading
/// role markers, then add the member if no member of that bare name is
/// present; an existing member is left untouched.
pub open spec fn add_user_model(ch: ChannelModel, raw: Seq<char>) -> ChannelModel {
    if has_user(ch.users, bare_name(raw)) {
        ch
    } else {
        ChannelModel {
            name: ch.name,
            topic: ch.topic,
            users: ch.users.push(UserModel { name: bare_name(raw), flags: marker_flags(raw) }),
        }
    }
}

/// Effect of observing a whole bulk listing, entry by entry.
pub open spec fn add_users_model(ch: ChannelModel, raws: Seq<Seq<char>>) -> ChannelModel
    decreases raws.len(),
{
    if raws.len() == 0 {
        ch
    } else {
        add_users_model(add_user_model(ch, raws[0]), raws.drop_first())
    }
}

/// Effect of granting the operator flag: the member (created with empty
/// flags when absent) gets `'@'` appended to its flags.
pub open spec fn add_op_model(ch: ChannelModel, name: Seq<char>) -> ChannelModel {
    let i = user_index(ch.users, name);
    if i >= 0 {
        ChannelModel {
            name: ch.name,
            topic: ch.topic,
            users: ch.users.update(
                i,
                UserModel { name, flags: ch.users[i].flags.push('@') },
            ),
        }
    } else {
        ChannelModel {
            name: ch.name,
            topic: ch.topic,
            users: ch.users.push(UserModel { name, flags: seq!['@'] }),
        }
    }
}

/// `flags` with every occurrence of `r` removed.
pub open spec fn without_flag(flags: Seq<char>, r: char) -> Seq<char>
    decreases flags.len(),
{
    if flags.len() == 0 {
        Seq::<char>::empty()
    } else if flags[0] == r {
        without_flag(flags.drop_first(), r)
    } else {
        seq![flags[0]] + without_flag(flags.drop_first(), r)
    }
}

/// Effect of revoking the operator flag: every `'@'` flag of the member is
/// removed; an absent member is created with empty flags.
pub open spec fn remove_op_model(ch: ChannelModel, name: Seq<char>) -> ChannelModel {
    let i = user_index(ch.users, name);
    if i >= 0 {
        ChannelModel {
            name: ch.name,
            topic: ch.topic,
            users: ch.users.update(
                i,
                UserModel { name, flags: without_flag(ch.users[i].flags, '@') },
            ),
        }
    } else {
        ChannelModel {
            name: ch.name,
            topic: ch.topic,
            users: ch.users.push(UserModel { name, flags: Seq::<char>::empty() }),
        }
    }
}

/// Effect of a nick change. When a member named `old_name` is present and
/// the names differ, any member already named `new_name` is dropped and the
/// renamed member keeps its own flags (last write wins).
pub open spec fn rename_user_model(
    ch: ChannelModel,
    old_name: Seq<char>,
    new_name: Seq<char>,
) -> ChannelModel {
    let i = user_index(ch.users, old_name);
    if i < 0 || old_name == new_name {
        ch
    } else {
        let j = user_index(ch.users, new_name);
        let pruned = if j >= 0 {
            ch.users.remove(j)
        } else {
            ch.users
        };
        let k = user_index(pruned, old_name);
        ChannelModel {
            name: ch.name,
            topic: ch.topic,
            users: pruned.update(k, UserModel { name: new_name, flags: pruned[k].flags }),
        }
    }
}

/// Effect of a part or quit: the member of that name leaves; an absent
/// member leaves the channel unchanged.
pub open spec fn remove_user_model(ch: ChannelModel, name: Seq<char>) -> ChannelModel {
    let i = user_index(ch.users, name);
    if i >= 0 {
        ChannelModel { name: ch.name, topic: ch.topic, users: ch.users.remove(i) }
    } else {
        ch
    }
}

/// Does the member named `name` currently carry the operator flag?
pub open spec fn user_is_op_spec(ch: ChannelModel, name: Seq<char>) -> bool {
    let i = user_index(ch.users, name);
    i >= 0 && ch.users[i].flags.contains('@')
}

impl Channel {
    /// A fresh channel with the given name, an empty topic and no members.
    pub fn new(name: String) -> (r: Channel)
        ensures
            r@ == (ChannelModel {
                name: name@,
                topic: Seq::<char>::empty(),
                users: Seq::<UserModel>::empty(),
            }),
            r@.wf(),
    {
        let r = Channel { name, topic: String::new(), users: Vec::new() };
        proof {
            assert(r@.users =~= Seq::<UserModel>::empty());
        }
        r
    }

    /// The channel's name.
    pub fn name(&self) -> (r: String)
        ensures
            r@ == self@.name,
    {
        self.name.clone()
    }

    /// The channel's current topic.
    pub fn topic(&self) -> (r: String)
        ensures
            r@ == self@.topic,
    {
        self.topic.clone()
    }

    /// The position of the member named `name`, if present.
    pub fn find_user(&self, name: &str) -> (r: Option<usize>)
        ensures
            match r {
                Some(i) => i == user_index(self@.users, name@),
                None => user_index(self@.users, name@) == -1,
            },
    {
        proof {
            lemma_user_index(self@.users, name@);
        }
        let n = self.users.len();
        let mut i: usize = 0;
        while i < n
            invariant
                i <= n,
                n == self@.users.len(),
                self@.users.len() == self.users@.len(),
                forall|j: int| 0 <= j < i ==> self@.users[j].name != name@,
                user_index(self@.users, name@) == -1 ==> forall|j: int|
                    0 <= j < self@.users.len() ==> self@.users[j].name != name@,
                user_index(self@.users, name@) == -1 || (0 <= user_index(self@.users, name@)
                    < self@.users.len() && self@.users[user_index(self@.users, name@)].name
                    == name@ && forall|j: int|
                    0 <= j < user_index(self@.users, name@) ==> self@.users[j].name != name@),
            decreases n - i,
        {
            if str_eq(self.users[i].name.as_str(), name) {
                proof {
                    let ui = user_index(self@.users, name@);
                    assert(self@.users[i as int].name == name@);
                    if ui == -1 {
                        assert(self@.users[i as int].name != name@);
                    } else if ui < i {
                        assert(self@.users[ui].name != name@);
                    } else if ui > i {
                        assert(0 <= i < ui);
                        assert(forall|j: int| 0 <= j < ui ==> self@.users[j].name != name@);
                        assert(self@.users[i as int].name != name@);
                    }
                }
                return Some(i);
            }
            i += 1;
        }
        None
    }

    /// Add a member observed under the raw listing entry `raw`: leading
    /// role markers become its flags, and the addition is skipped when a
    /// member of the bare name is already present (idempotent).
    pub fn add_user(&mut self, raw: String)
        requires
            old(self)@.wf(),
        ensures
            final(self)@ == add_user_model(old(self)@, raw@),
            final(self)@.wf(),
    {
        proof {
            lemma_marker_prefix_len(raw@);
        }
        let s = raw.as_str();
        let len = s.unicode_len();
        proof {
            assert(raw@.subrange(0, len as int) =~= raw@);
        }
        let mut k: usize = 0;
        while k < len && role_marker(s.get_char(k))
            invariant
                k <= len,
                len == raw@.len(),
                s@ == raw@,
                marker_prefix_len(raw@) == k + marker_prefix_len(
                    raw@.subrange(k as int, len as int),
                ),
            decreases len - k,
        {
            proof {
                assert(raw@.subrange(k as int, len as int).drop_first() =~= raw@.subrange(
                    k as int + 1,
                    len as int,
                ));
            }
            k += 1;
        }
        proof {
            assert(marker_prefix_len(raw@) == k);
            assert(raw@.subrange(k as int, len as int) =~= bare_name(raw@));
        }
        let mut flags: Vec<char> = Vec::new();
        let mut j: usize = 0;
        while j < k
            invariant
                j <= k <= len,
                len == raw@.len(),
                s@ == raw@,
                flags@ =~= raw@.subrange(0, j as int),
            decreases k - j,
        {
            flags.push(s.get_char(j));
            proof {
                assert(flags@ =~= raw@.subrange(0, j as int + 1));
            }
            j += 1;
        }
        proof {
            assert(flags@ =~= marker_flags(raw@));
        }
        let bare = s.substring_char(k, len).to_owned();
        match self.find_user(bare.as_str()) {
            Some(_) => {
                proof {
                    assert(self@ =~~= add_user_model(old(self)@, raw@));
                }
            },
            None => {
                let u = User { name: bare, flags };
                self.users.push(u);
                proof {
                    assert(self@.users =~= old(self)@.users.push(
                        UserModel { name: bare_name(raw@), flags: marker_flags(raw@) },
                    ));
                    assert(self@ =~~= add_user_model(old(self)@, raw@));
                    lemma_user_index(old(self)@.users, bare_name(raw@));
                    assert(forall|i: int|
                        0 <= i < old(self)@.users.len() ==> old(self)@.users[i]
                            == #[trigger] self@.users[i]);
                    assert(self@.wf());
                }
            },
        }
    }

    /// Add every entry of a bulk name listing in order.
    pub fn add_users(&mut self, raws: &Vec<String>)
        requires
            old(self)@.wf(),
        ensures
            final(self)@ == add_users_model(old(self)@, raws@.map_values(|t: String| t@)),
            final(self)@.wf(),
    {
        let n = raws.len();
        proof {
            assert(raws@.map_values(|t: String| t@).skip(0) =~= raws@.map_values(|t: String| t@));
        }
        let mut i: usize = 0;
        while i < n
            invariant
                i <= n,
                n == raws@.len(),
                self@.wf(),
                add_users_model(old(self)@, raws@.map_values(|t: String| t@))
                    == add_users_model(
                    self@,
                    raws@.map_values(|t: String| t@).skip(i as int),
                ),
            decreases n - i,
        {
            let ghost pre = self@;
            let ghost entries = raws@.map_values(|t: String| t@);
            self.add_user(raws[i].clone());
            proof {
                assert(entries.skip(i as int).drop_first() =~= entries.skip(i as int + 1));
                assert(entries.skip(i as int)[0] == raws@[i as int]@);
                assert(add_users_model(pre, entries.skip(i as int)) == add_users_model(
                    self@,
                    entries.skip(i as int + 1),
                ));
            }
            i += 1;
        }
        proof {
            assert(raws@.map_values(|t: String| t@).skip(n as int) =~= Seq::<Seq<char>>::empty());
        }
    }

    /// Grant the operator flag to `name`, creating the member when absent.
    pub fn add_op(&mut self, name: &str)
        requires
            old(self)@.wf(),
        ensures
            final(self)@ == add_op_model(old(self)@, name@),
            final(self)@.wf(),
    {
        proof {
            lemma_user_index(self@.users, name@);
        }
        match self.find_user(name) {
            Some(i) => {
                let u = &mut self.users[i];
                u.flags.push('@');
                proof {
                    assert(self@.users =~= old(self)@.users.update(
                        i as int,
                        UserModel { name: name@, flags: old(self)@.users[i as int].flags.push('@') },
                    ));
                    assert(self@ =~~= add_op_model(old(self)@, name@));
                }
            },
            None => {
                let mut op_flags: Vec<char> = Vec::new();
                op_flags.push('@');
                proof {
                    assert(op_flags@ =~= seq!['@']);
                }
                let u = User { name: name.to_owned(), flags: op_flags };
                self.users.push(u);
                proof {
                    assert(self@.users =~= old(self)@.users.push(
                        UserModel { name: name@, flags: seq!['@'] },
                    ));
                    assert(self@ =~~= add_op_model(old(self)@, name@));
                    assert(forall|i: int|
                        0 <= i < old(self)@.users.len() ==> old(self)@.users[i]
                            == #[trigger] self@.users[i]);
                }
            },
        }
    }

    /// Revoke the operator flag of `name`, creating the member (with empty
    /// flags) when absent.
    pub fn remove_op(&mut self, name: &str)
        requires
            old(self)@.wf(),
        ensures
            final(self)@ == remove_op_model(old(self)@, name@),
            final(self)@.wf(),
    {
        proof {
            lemma_user_index(self@.users, name@);
        }
        match self.find_user(name) {
            Some(i) => {
                let u = &mut self.users[i];
                let n = u.flags.len();
                let mut kept: Vec<char> = Vec::new();
                proof {
                    assert(u.flags@.subrange(0, n as int) =~= u.flags@);
                    assert(kept@ + without_flag(u.flags@, '@') =~= without_flag(u.flags@, '@'));
                }
                let mut j: usize = 0;
                while j < n
                    invariant
                        j <= n,
                        n == u.flags@.len(),
                        without_flag(u.flags@, '@') == kept@ + without_flag(
                            u.flags@.subrange(j as int, n as int),
                            '@',
                        ),
                    decreases n - j,
                {
                    proof {
                        assert(u.flags@.subrange(j as int, n as int).drop_first() =~= u.flags@
                            .subrange(j as int + 1, n as int));
                    }
                    let c = u.flags[j];
                    let ghost pre = kept@;
                    let ghost rest = u.flags@.subrange(j as int + 1, n as int);
                    if c != '@' {
                        kept.push(c);
                        proof {
                            assert(pre + (seq![c] + without_flag(rest, '@')) =~= kept@
                                + without_flag(rest, '@'));
                        }
                    }
                    j += 1;
                }
                proof {
                    assert(u.flags@.subrange(n as int, n as int) =~= Seq::<char>::empty());
                    assert(kept@ + Seq::<char>::empty() =~= kept@);
                }
                u.flags = kept;
                proof {
                    assert(self@.users =~= old(self)@.users.update(
                        i as int,
                        UserModel {
                            name: name@,
                            flags: without_flag(old(self)@.users[i as int].flags, '@'),
                        },
                    ));
                    assert(self@ =~~= remove_op_model(old(self)@, name@));
                }
            },
            None => {
                let u = User { name: name.to_owned(), flags: Vec::new() };
                self.users.push(u);
                proof {
                    assert(self@.users =~= old(self)@.users.push(
                        UserModel { name: name@, flags: Seq::<char>::empty() },
                    ));
                    assert(self@ =~~= remove_op_model(old(self)@, name@));
                    assert(forall|i: int|
                        0 <= i < old(self)@.users.len() ==> old(self)@.users[i]
                            == #[trigger] self@.users[i]);
                }
            },
        }
    }

    /// Rename the member `old_name` to `new_name`, keeping its flags. When
    /// `new_name` is already taken by another member, that member is
    /// dropped and the renamed one stands (last write wins).
    pub fn rename_user(&mut self, old_name: &str, new_name: &str)
        requires
            old(self)@.wf(),
        ensures
            final(self)@ == rename_user_model(old(self)@, old_name@, new_name@),
            final(self)@.wf(),
    {
        proof {
            lemma_user_index(self@.users, old_name@);
            lemma_user_index(self@.users, new_name@);
        }
        let has_old = match self.find_user(old_name) {
            Some(_) => true,
            None => false,
        };
        if !has_old || str_eq(old_name, new_name) {
            proof {
                assert(self@ =~~= rename_user_model(old(self)@, old_name@, new_name@));
            }
            return;
        }
        let ghost j = user_index(old(self)@.users, new_name@);
        let ghost pruned = if j >= 0 {
            old(self)@.users.remove(j)
        } else {
            old(self)@.users
        };
        match self.find_user(new_name) {
            Some(jj) => {
                self.users.remove(jj);
                proof {
                    lemma_users_wf_remove(old(self)@.users, j);
                    assert(self@.users =~= pruned);
                }
            },
            None => {},
        }
        proof {
            assert(users_wf(pruned));
            assert(self@.users == pruned);
            lemma_user_index(pruned, old_name@);
            lemma_user_index(pruned, new_name@);
        }
        match self.find_user(old_name) {
            Some(k) => {
                let u = &mut self.users[k];
                u.name = new_name.to_owned();
                proof {
                    assert(self@.users =~= pruned.update(
                        k as int,
                        UserModel { name: new_name@, flags: pruned[k as int].flags },
                    ));
                    assert(self@ =~~= rename_user_model(old(self)@, old_name@, new_name@));
                    assert forall|t: int| 0 <= t < pruned.len() implies #[trigger] pruned[t].name
                        != new_name@ by {
                        if j >= 0 {
                            lemma_user_index(old(self)@.users, new_name@);
                            if t < j {
                                assert(pruned[t] == old(self)@.users[t]);
                            } else {
                                assert(pruned[t] == old(self)@.users[t + 1]);
                            }
                        } else {
                            lemma_user_index(old(self)@.users, new_name@);
                        }
                    }
                    lemma_rename_wf(pruned, k as int, new_name@);
                }
            },
            None => {
                proof {
                    // The member named `old_name` cannot vanish by removing a
                    // member of a different name.
                    lemma_user_index(old(self)@.users, old_name@);
                    let i = user_index(old(self)@.users, old_name@);
                    if j >= 0 {
                        let i2 = if i < j {
                            i
                        } else {
                            i - 1
                        };
                        assert(pruned[i2].name == old_name@);
                        assert(false);
                    } else {
                        assert(false);
                    }
                }
            },
        }
    }

    /// Remove the member named `name`; absent members are ignored.
    pub fn remove_user(&mut self, name: &str)
        requires
            old(self)@.wf(),
        ensures
            final(self)@ == remove_user_model(old(self)@, name@),
            final(self)@.wf(),
    {
        match self.find_user(name) {
            Some(i) => {
                proof {
                    lemma_user_index(self@.users, name@);
                }
                self.users.remove(i);
                proof {
                    assert(self@.users =~= old(self)@.users.remove(i as int));
                    assert(self@ =~~= remove_user_model(old(self)@, name@));
                    lemma_users_wf_remove(old(self)@.users, i as int);
                }
            },
            None => {
                proof {
                    assert(self@ =~~= remove_user_model(old(self)@, name@));
                }
            },
        }
    }

    /// Replace the whole topic: a full overwrite, never a merge.
    pub fn set_topic(&mut self, new_topic: String)
        ensures
            final(self)@ == (ChannelModel {
                name: old(self)@.name,
                topic: new_topic@,
                users: old(self)@.users,
            }),
            old(self)@.wf() ==> final(self)@.wf(),
    {
        self.topic = new_topic;
        proof {
            assert(self@ =~~= (ChannelModel {
                name: old(self)@.name,
                topic: self.topic@,
                users: old(self)@.users,
            }));
        }
    }

    /// Does the member named `name` carry the operator flag? Absent members
    /// are reported as not operators.
    pub fn user_is_op(&self, name: &str) -> (r: bool)
        ensures
            r == user_is_op_spec(self@, name@),
    {
        match self.find_user(name) {
            Some(i) => {
                proof {
                    lemma_user_index(self@.users, name@);
                }
                let u = &self.users[i];
                let n = u.flags.len();
                let mut j: usize = 0;
                while j < n
                    invariant
                        j <= n,
                        n == u.flags@.len(),
                        u@ == self@.users[user_index(self@.users, name@)],
                        user_is_op_spec(self@, name@) == u.flags@.contains('@'),
                        forall|t: int| 0 <= t < j ==> u.flags@[t] != '@',
                    decreases n - j,
                {
                    if u.flags[j] == '@' {
                        proof {
                            assert(u.flags@[j as int] == '@');
                            assert(u.flags@.contains('@'));
                        }
                        return true;
                    }
                    j += 1;
                }
                proof {
                    assert(!u.flags@.contains('@'));
                }
                false
            },
            None => false,
        }
    }
}

/// Granting the operator flag keeps the channel's name and topic and
/// preserves well-formedness, at the model level.
pub proof fn lemma_add_op_model_keeps(ch: ChannelModel, name: Seq<char>)
    requires
        ch.wf(),
    ensures
        add_op_model(ch, name).name == ch.name,
        add_op_model(ch, name).topic == ch.topic,
        add_op_model(ch, name).wf(),
{
    lemma_user_index(ch.users, name);
    let i = user_index(ch.users, name);
    let users2 = add_op_model(ch, name).users;
    if i >= 0 {
        assert forall|a: int, b: int|
            0 <= a < b < users2.len() implies #[trigger] users2[a].name
            != #[trigger] users2[b].name by {
            assert(users2[a].name == ch.users[a].name);
            assert(users2[b].name == ch.users[b].name);
        }
    } else {
        assert forall|a: int, b: int|
            0 <= a < b < users2.len() implies #[trigger] users2[a].name
            != #[trigger] users2[b].name by {
            if b == users2.len() - 1 {
                assert(users2[a] == ch.users[a]);
            } else {
                assert(users2[a] == ch.users[a]);
                assert(users2[b] == ch.users[b]);
            }
        }
    }
}

/// Revoking the operator flag keeps the channel's name and topic and
/// preserves well-formedness, at the model level.
pub proof fn lemma_remove_op_model_keeps(ch: ChannelModel, name: Seq<char>)
    requires
        ch.wf(),
    ensures
        remove_op_model(ch, name).name == ch.name,
        remove_op_model(ch, name).topic == ch.topic,
        remove_op_model(ch, name).wf(),
{
    lemma_user_index(ch.users, name);
    let i = user_index(ch.users, name);
    let users2 = remove_op_model(ch, name).users;
    if i >= 0 {
        assert forall|a: int, b: int|
            0 <= a < b < users2.len() implies #[trigger] users2[a].name
            != #[trigger] users2[b].name by {
            assert(users2[a].name == ch.users[a].name);
            assert(users2[b].name == ch.users[b].name);
        }
    } else {
        assert forall|a: int, b: int|
            0 <= a < b < users2.len() implies #[trigger] users2[a].name
            != #[trigger] users2[b].name by {
            if b == users2.len() - 1 {
                assert(users2[a] == ch.users[a]);
            } else {
                assert(users2[a] == ch.users[a]);
                assert(users2[b] == ch.users[b]);
            }
        }
    }
}

/// A removal keeps the channel's name and topic and preserves
/// well-formedness, at the model level.
pub proof fn lemma_remove_user_model_wf(ch: ChannelModel, name: Seq<char>)
    requires
        ch.wf(),
    ensures
        remove_user_model(ch, name).name == ch.name,
        remove_user_model(ch, name).topic == ch.topic,
        remove_user_model(ch, name).wf(),
{
    lemma_user_index(ch.users, name);
    let i = user_index(ch.users, name);
    if i >= 0 {
        lemma_users_wf_remove(ch.users, i);
    }
}

/// A rename keeps the channel's name and topic and preserves
/// well-formedness, at the model level.
pub proof fn lemma_rename_user_model_wf(
    ch: ChannelModel,
    old_name: Seq<char>,
    new_name: Seq<char>,
)
    requires
        ch.wf(),
    ensures
        rename_user_model(ch, old_name, new_name).name == ch.name,
        rename_user_model(ch, old_name, new_name).topic == ch.topic,
        rename_user_model(ch, old_name, new_name).wf(),
{
    lemma_user_index(ch.users, old_name);
    lemma_user_index(ch.users, new_name);
    let i = user_index(ch.users, old_name);
    if i < 0 || old_name == new_name {
    } else {
        let j = user_index(ch.users, new_name);
        let pruned = if j >= 0 {
            ch.users.remove(j)
        } else {
            ch.users
        };
        if j >= 0 {
            lemma_users_wf_remove(ch.users, j);
            if i < j {
                assert(pruned[i] == ch.users[i]);
            } else {
                assert(pruned[i - 1] == ch.users[i]);
            }
        }
        lemma_user_index(pruned, old_name);
        let k = user_index(pruned, old_name);
        assert(k >= 0) by {
            if k == -1 {
                if j >= 0 {
                    if i < j {
                        assert(pruned[i].name != old_name);
                    } else {
                        assert(pruned[i - 1].name != old_name);
                    }
                } else {
                    assert(pruned[i].name != old_name);
                }
            }
        }
        assert forall|t: int| 0 <= t < pruned.len() implies #[trigger] pruned[t].name
            != new_name by {
            if j >= 0 {
                if t < j {
                    assert(pruned[t] == ch.users[t]);
                } else {
                    assert(pruned[t] == ch.users[t + 1]);
                }
            }
        }
        lemma_rename_wf(pruned, k, new_name);
    }
}

/// Removing any element preserves uniqueness of names.
pub proof fn lemma_users_wf_remove(users: Seq<UserModel>, i: int)
    requires
        users_wf(users),
        0 <= i < users.len(),
    ensures
        users_wf(users.remove(i)),
{
    assert forall|a: int, b: int|
        0 <= a < b < users.remove(i).len() implies #[trigger] users.remove(i)[a].name
        != #[trigger] users.remove(i)[b].name by {
        let a0 = if a < i {
            a
        } else {
            a + 1
        };
        let b0 = if b < i {
            b
        } else {
            b + 1
        };
        assert(users.remove(i)[a] == users[a0]);
        assert(users.remove(i)[b] == users[b0]);
    }
}

/// Renaming the member at `k` to a name no other member carries preserves
/// uniqueness of names.
pub proof fn lemma_rename_wf(users: Seq<UserModel>, k: int, new_name: Seq<char>)
    requires
        users_wf(users),
        0 <= k < users.len(),
        forall|i: int| 0 <= i < users.len() ==> users[i].name != new_name,
    ensures
        users_wf(users.update(k, UserModel { name: new_name, flags: users[k].flags })),
{
    let updated = users.update(k, UserModel { name: new_name, flags: users[k].flags });
    assert forall|a: int, b: int|
        0 <= a < b < updated.len() implies #[trigger] updated[a].name
        != #[trigger] updated[b].name by {
        if a != k && b != k {
            assert(updated[a] == users[a]);
            assert(updated[b] == users[b]);
        }
    }
}

} // verus!
