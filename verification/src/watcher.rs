//! The pure decision logic of the background watchers: the baseline rule
//! (the first successful poll never notifies; later polls notify exactly
//! when the value changed), and the construction of the topic rewrite and
//! announcement texts for the version and blog watchers.
use vstd::prelude::*;
use vstd::pervasive::VecAdditionalExecFns;

use crate::strutil::join_spec;
use crate::strutil::join_with;
use crate::strutil::split_char;
use crate::strutil::split_spec;
use crate::strutil::starts_with;
use crate::strutil::str_eq;
use crate::strutil::trim;
use crate::strutil::trim_spec;

verus! {

/// A watcher's memory between polls: the last value it observed, if any.
pub struct WatcherState {
    pub last: Option<String>,
}

/// The mathematical value of a [`WatcherState`].
#[verifier::ext_equal]
pub ghost struct WatcherModel {
    pub last: Option<Seq<char>>,
}

impl View for WatcherState {
    type V = WatcherModel;

    open spec fn view(&self) -> WatcherModel {
        WatcherModel {
            last: match self.last {
                Some(ref s) => Some(s@),
                None => None,
            },
        }
    }
}

/// Does a poll that fetched `v` notify, given the last observed value?
/// Never on the first observation; afterwards exactly when `v` differs
/// from the immediately prior value.
pub open spec fn notifies(last: Option<Seq<char>>, v: Seq<char>) -> bool {
    match last {
        None => false,
        Some(prev) => prev != v,
    }
}

impl WatcherState {
    /// A fresh watcher that has not observed anything yet.
    pub fn new() -> (r: WatcherState)
        ensures
            r@.last is None,
    {
        WatcherState { last: None }
    }

    /// Record one successful poll; the result says whether to notify.
    pub fn observe(&mut self, fetched: String) -> (notify: bool)
        ensures
            final(self)@.last == Some(fetched@),
            notify == notifies(old(self)@.last, fetched@),
    {
        let notify = match &self.last {
            Some(prev) => !str_eq(prev.as_str(), fetched.as_str()),
            None => false,
        };
        self.last = Some(fetched);
        notify
    }
}

/// A watcher's first successful poll never notifies, whatever it fetched.
pub proof fn lemma_first_poll_is_baseline(v: Seq<char>)
    ensures
        !notifies(None, v),
{
}

/// After the baseline, a poll notifies exactly when the fetched value
/// differs from the immediately prior one: a repeat stays silent, a
/// change notifies.
pub proof fn lemma_later_poll_notifies_on_change(prev: Seq<char>, v: Seq<char>)
    ensures
        notifies(Some(prev), v) == (prev != v),
{
}

/// The forum URL of a version post: the site root with any leading `./`
/// of the scraped link removed.
pub open spec fn version_url_spec(url: Seq<char>) -> Seq<char> {
    "https://forums.factorio.com/"@ + (if "./"@.is_prefix_of(url) {
        url.skip(2)
    } else {
        url
    })
}

/// The parts of a topic: split on `'|'`, each part trimmed.
pub open spec fn topic_parts(topic: Seq<char>) -> Seq<Seq<char>> {
    split_spec(topic, '|').map_values(|p: Seq<char>| trim_spec(p))
}

/// The rewritten topic: the part at `idx` replaced by `entry`, the parts
/// joined back with `" | "`.
pub open spec fn rebuilt_topic(topic: Seq<char>, idx: int, entry: Seq<char>) -> Seq<char> {
    join_spec(topic_parts(topic).update(idx, entry), " | "@)
}

/// Split a topic on `'|'` and trim each part.
pub fn split_topic(topic: &str) -> (r: Vec<String>)
    ensures
        r@.map_values(|t: String| t@) == topic_parts(topic@),
{
    let raw = split_char(topic, '|');
    let n = raw.len();
    let mut parts: Vec<String> = Vec::new();
    let mut i: usize = 0;
    while i < n
        invariant
            i <= n,
            n == raw@.len(),
            parts@.len() == i,
            forall|j: int|
                0 <= j < i ==> #[trigger] parts@[j]@ == trim_spec(split_spec(topic@, '|')[j]),
            raw@.map_values(|t: String| t@) == split_spec(topic@, '|'),
        decreases n - i,
    {
        let p = trim(raw[i].as_str()).to_owned();
        parts.push(p);
        i += 1;
    }
    proof {
        assert(parts@.map_values(|t: String| t@) =~~= topic_parts(topic@));
    }
    parts
}

/// The texts produced by a watcher that noticed a change: the topic to
/// set (when there is one) and the message to send.
pub struct Notification {
    pub new_topic: Option<String>,
    pub message: String,
}

/// What the version watcher does on a new version `version` linked at
/// `url`: when the channel topic has at least three `'|'`-separated parts,
/// the second part is replaced by a `Latest version` entry and an
/// announcement message is produced; a malformed topic produces nothing.
pub fn version_notification(topic: &str, version: &str, url: &str) -> (r: Option<Notification>)
    ensures
        match r {
            Some(n) => topic_parts(topic@).len() >= 3 && (match n.new_topic {
                Some(ref t) => t@ == rebuilt_topic(
                    topic@,
                    1,
                    "Latest version: "@ + version@ + " "@ + version_url_spec(url@),
                ),
                None => false,
            }) && n.message@ == "Version "@ + version@ + " released. "@ + version_url_spec(
                url@,
            ),
            None => topic_parts(topic@).len() < 3,
        },
{
    let mut parts = split_topic(topic);
    if parts.len() < 3 {
        return None;
    }
    let full_url = if starts_with(url, "./") {
        let len = url.unicode_len();
        proof {
            reveal_strlit("./");
        }
        String::from_str("https://forums.factorio.com/").concat(url.substring_char(2, len))
    } else {
        String::from_str("https://forums.factorio.com/").concat(url)
    };
    let entry = String::from_str("Latest version: ").concat(version).concat(" ").concat(
        full_url.as_str(),
    );
    let message = String::from_str("Version ").concat(version).concat(" released. ").concat(
        full_url.as_str(),
    );
    proof {
        assert(full_url@ == version_url_spec(url@));
    }
    let ghost pre = parts@.map_values(|t: String| t@);
    parts.set(1, entry);
    proof {
        assert(parts@.map_values(|t: String| t@) =~~= pre.update(
            1,
            "Latest version: "@ + version@ + " "@ + version_url_spec(url@),
        ));
    }
    let new_topic = join_with(&parts, " | ");
    Some(Notification { new_topic: Some(new_topic), message })
}

/// What the Friday-facts watcher does on a new post number `facts`: when
/// the topic has at least three parts, the third part becomes a
/// `Friday facts` entry and an announcement message is produced.
pub fn facts_notification(topic: &str, facts: &str) -> (r: Option<Notification>)
    ensures
        match r {
            Some(n) => topic_parts(topic@).len() >= 3 && (match n.new_topic {
                Some(ref t) => t@ == rebuilt_topic(
                    topic@,
                    2,
                    "Friday facts #"@ + facts@ + ": "@ + "http://factorio.com/blog/post/fff-"@
                        + facts@,
                ),
                None => false,
            }) && n.message@ == "New factorio farts: "@ + facts@ + " "@
                + "http://factorio.com/blog/post/fff-"@ + facts@,
            None => topic_parts(topic@).len() < 3,
        },
{
    let mut parts = split_topic(topic);
    if parts.len() < 3 {
        return None;
    }
    let url = String::from_str("http://factorio.com/blog/post/fff-").concat(facts);
    let entry = String::from_str("Friday facts #").concat(facts).concat(": ").concat(
        url.as_str(),
    );
    let message = String::from_str("New factorio farts: ").concat(facts).concat(" ").concat(
        url.as_str(),
    );
    let ghost pre = parts@.map_values(|t: String| t@);
    parts.set(2, entry);
    proof {
        assert(parts@.map_values(|t: String| t@) =~~= pre.update(
            2,
            "Friday facts #"@ + facts@ + ": "@ + "http://factorio.com/blog/post/fff-"@ + facts@,
        ));
    }
    let new_topic = join_with(&parts, " | ");
    Some(Notification { new_topic: Some(new_topic), message })
}

/// What the alternative-blog watcher announces on a new post number: no
/// topic rewrite, one message naming the post and its URL.
pub fn alt_blog_notification(facts: &str) -> (r: Notification)
    ensures
        r.new_topic is None,
        r.message@ == "New Alt-f4 facts: #"@ + facts@ + " "@ + "https://alt-f4.blog/ALTF4-"@
            + facts@ + "/"@,
{
    let url = String::from_str("https://alt-f4.blog/ALTF4-").concat(facts).concat("/");
    let message = String::from_str("New Alt-f4 facts: #").concat(facts).concat(" ").concat(
        url.as_str(),
    );
    Notification { new_topic: None, message }
}

} // verus!
