//! The learned-command responder: an ordered collection of
//! `{trigger, responses, last invocation time}` records. A channel
//! operator teaches new commands with `!learn <trigger> = <response>`
//! (replacing any record of the same trigger), `!<trigger>` replays the
//! responses subject to a 60-second cooldown, and `!help` lists the
//! triggers under its own shared cooldown. Time is a monotone count of
//! seconds supplied by the caller.
use vstd::prelude::*;

use crate::strutil::join_spec;
use crate::strutil::join_with;
use crate::strutil::split_char;
use crate::strutil::split_spec;
use crate::strutil::starts_with;
use crate::strutil::str_eq;
use crate::strutil::trim;
use crate::strutil::trim_spec;

verus! {

/// Seconds that must pass after an invocation before the same command
/// (or `!help`) fires again.
pub const COMMAND_TIMEOUT_SECONDS: u64 = 60;

/// When a command whose last invocation was `last` is asked for again at
/// `now`: on the first invocation always, afterwards only once the
/// cooldown has fully elapsed.
pub open spec fn can_invoke_again_spec(last: Option<u64>, now: u64) -> bool {
    match last {
        None => true,
        Some(t) => now > t + COMMAND_TIMEOUT_SECONDS,
    }
}

/// The moment a command was last invoked, if ever.
pub struct LastInvoke(pub Option<u64>);

impl LastInvoke {
    /// A command that has never been invoked.
    pub fn new() -> (r: LastInvoke)
        ensures
            r.0 is None,
    {
        LastInvoke(None)
    }

    /// Has the cooldown elapsed at `now`?
    pub fn can_invoke_again(&self, now: u64) -> (r: bool)
        ensures
            r == can_invoke_again_spec(self.0, now),
    {
        match self.0 {
            Some(t) => now > t && now - t > COMMAND_TIMEOUT_SECONDS,
            None => true,
        }
    }

    /// Record an invocation at `now`.
    pub fn has_invoked(&mut self, now: u64)
        ensures
            final(self).0 == Some(now),
    {
        self.0 = Some(now);
    }
}

/// One learned command: its trigger, the response lines it replays, and
/// when it last fired.
pub struct Command {
    pub trigger: String,
    pub response: Vec<String>,
    pub last_invoke: LastInvoke,
}

/// The mathematical value of a [`Command`].
#[verifier::ext_equal]
pub ghost struct CommandModel {
    pub trigger: Seq<char>,
    pub response: Seq<Seq<char>>,
    pub last_invoke: Option<u64>,
}

impl View for Command {
    type V = CommandModel;

    open spec fn view(&self) -> CommandModel {
        CommandModel {
            trigger: self.trigger@,
            response: self.response@.map_values(|s: String| s@),
            last_invoke: self.last_invoke.0,
        }
    }
}

/// The index of the first record with this trigger, or `-1`.
pub open spec fn trigger_index(cmds: Seq<CommandModel>, trigger: Seq<char>) -> int
    decreases cmds.len(),
{
    if cmds.len() == 0 {
        -1
    } else if cmds[0].trigger == trigger {
        0
    } else {
        let r = trigger_index(cmds.drop_first(), trigger);
        if r < 0 {
            -1
        } else {
            r + 1
        }
    }
}

pub proof fn lemma_trigger_index(cmds: Seq<CommandModel>, trigger: Seq<char>)
    ensures
        trigger_index(cmds, trigger) == -1 || (0 <= trigger_index(cmds, trigger) < cmds.len()),
        trigger_index(cmds, trigger) == -1 ==> forall|i: int|
            0 <= i < cmds.len() ==> cmds[i].trigger != trigger,
        trigger_index(cmds, trigger) >= 0 ==> cmds[trigger_index(cmds, trigger)].trigger
            == trigger,
        trigger_index(cmds, trigger) >= 0 ==> forall|i: int|
            0 <= i < trigger_index(cmds, trigger) ==> cmds[i].trigger != trigger,
    decreases cmds.len(),
{
    if cmds.len() > 0 && cmds[0].trigger != trigger {
        lemma_trigger_index(cmds.drop_first(), trigger);
        if trigger_index(cmds, trigger) == -1 {
            assert forall|i: int| 0 <= i < cmds.len() implies #[trigger] cmds[i].trigger
                != trigger by {
                if i >= 1 {
                    assert(cmds.drop_first()[i - 1] == cmds[i]);
                }
            }
        } else {
            assert forall|i: int|
                0 <= i < trigger_index(cmds, trigger) implies #[trigger] cmds[i].trigger
                != trigger by {
                if i >= 1 {
                    assert(cmds.drop_first()[i - 1] == cmds[i]);
                }
            }
            assert(cmds[trigger_index(cmds, trigger)] == cmds.drop_first()[trigger_index(
                cmds.drop_first(),
                trigger,
            )]);
        }
    }
}

/// No two records share a trigger.
pub open spec fn cmds_wf(cmds: Seq<CommandModel>) -> bool {
    forall|i: int, j: int|
        0 <= i < j < cmds.len() ==> #[trigger] cmds[i].trigger != #[trigger] cmds[j].trigger
}

/// Teaching a command: the record of the same trigger (if any) is
/// replaced, never duplicated; the new record goes to the end with a
/// fresh cooldown.
pub open spec fn upsert_model(
    cmds: Seq<CommandModel>,
    trigger: Seq<char>,
    response: Seq<Seq<char>>,
) -> Seq<CommandModel> {
    let i = trigger_index(cmds, trigger);
    let pruned = if i >= 0 {
        cmds.remove(i)
    } else {
        cmds
    };
    pruned.push(CommandModel { trigger, response, last_invoke: None })
}

/// The index of the first record that fires on `text` at `now`: its
/// trigger is a prefix of `text` and its cooldown has elapsed. A record
/// that matches but is still cooling down lets later records be tried.
pub open spec fn scan_index(cmds: Seq<CommandModel>, text: Seq<char>, now: u64) -> int
    decreases cmds.len(),
{
    if cmds.len() == 0 {
        -1
    } else if cmds[0].trigger.is_prefix_of(text) && can_invoke_again_spec(
        cmds[0].last_invoke,
        now,
    ) {
        0
    } else {
        let r = scan_index(cmds.drop_first(), text, now);
        if r < 0 {
            -1
        } else {
            r + 1
        }
    }
}

pub proof fn lemma_scan_index(cmds: Seq<CommandModel>, text: Seq<char>, now: u64)
    ensures
        scan_index(cmds, text, now) == -1 || (0 <= scan_index(cmds, text, now) < cmds.len()),
        scan_index(cmds, text, now) == -1 ==> forall|i: int|
            0 <= i < cmds.len() ==> !((#[trigger] cmds[i].trigger).is_prefix_of(text)
                && can_invoke_again_spec(cmds[i].last_invoke, now)),
        scan_index(cmds, text, now) >= 0 ==> cmds[scan_index(
            cmds,
            text,
            now,
        )].trigger.is_prefix_of(text) && can_invoke_again_spec(
            cmds[scan_index(cmds, text, now)].last_invoke,
            now,
        ),
        scan_index(cmds, text, now) >= 0 ==> forall|i: int|
            0 <= i < scan_index(cmds, text, now) ==> !((#[trigger] cmds[i].trigger).is_prefix_of(
                text,
            ) && can_invoke_again_spec(cmds[i].last_invoke, now)),
    decreases cmds.len(),
{
    if cmds.len() > 0 && !(cmds[0].trigger.is_prefix_of(text) && can_invoke_again_spec(
        cmds[0].last_invoke,
        now,
    )) {
        lemma_scan_index(cmds.drop_first(), text, now);
        assert(forall|i: int|
            1 <= i < cmds.len() ==> #[trigger] cmds[i] == cmds.drop_first()[i - 1]);
        if scan_index(cmds, text, now) >= 0 {
            assert(cmds[scan_index(cmds, text, now)] == cmds.drop_first()[scan_index(
                cmds.drop_first(),
                text,
                now,
            )]);
        }
    }
}

/// The `!help` reply: the triggers in order, and the cooldown notice.
pub open spec fn help_text_spec(cmds: Seq<CommandModel>) -> Seq<char> {
    "Commands: "@ + join_spec(cmds.map_values(|c: CommandModel| c.trigger), ", "@)
        + " (All commands have a 1 minute cooldown"@
}

/// The trigger taught by a `!learn` message: the text between `!learn`
/// and the first `'='`, trimmed.
pub open spec fn learn_trigger_spec(body_trim: Seq<char>) -> Seq<char> {
    trim_spec(split_spec(body_trim.skip(6), '=')[0])
}

/// The response taught by a `!learn` message: everything after the first
/// `'='`, further `'='` parts joined by single spaces, trimmed.
pub open spec fn learn_response_spec(body_trim: Seq<char>) -> Seq<char> {
    trim_spec(join_spec(split_spec(body_trim.skip(6), '=').drop_first(), seq![' ']))
}

/// The state of the responder.
pub struct CommandsState {
    pub commands: Vec<Command>,
    pub last_help: LastInvoke,
}

/// The mathematical value of a [`CommandsState`].
#[verifier::ext_equal]
pub ghost struct CommandsModel {
    pub commands: Seq<CommandModel>,
    pub last_help: Option<u64>,
}

impl View for CommandsState {
    type V = CommandsModel;

    open spec fn view(&self) -> CommandsModel {
        CommandsModel {
            commands: self.commands@.map_values(|c: Command| c@),
            last_help: self.last_help.0,
        }
    }
}

/// What one message does to the responder.
#[verifier::ext_equal]
pub ghost struct CmdStepResult {
    pub state: CommandsModel,
    pub replies: Seq<Seq<char>>,
    pub save: bool,
}

/// The responder's reaction to one message `body` at time `now`, sent by
/// someone who is (`is_op`) or is not a channel operator:
/// `!help` lists the triggers under its own shared cooldown; `!learn`
/// from an operator teaches a command and asks for the collection to be
/// persisted (`save`); any other `!` message replays the first matching
/// command whose cooldown has elapsed; everything else is ignored.
pub open spec fn cmd_step(m: CommandsModel, body: Seq<char>, is_op: bool, now: u64) -> CmdStepResult {
    let bt = trim_spec(body);
    if bt == "!help"@ {
        if can_invoke_again_spec(m.last_help, now) {
            CmdStepResult {
                state: CommandsModel { commands: m.commands, last_help: Some(now) },
                replies: seq![help_text_spec(m.commands)],
                save: false,
            }
        } else {
            CmdStepResult { state: m, replies: Seq::<Seq<char>>::empty(), save: false }
        }
    } else if "!learn"@.is_prefix_of(bt) && is_op {
        let trigger = learn_trigger_spec(bt);
        let response = learn_response_spec(bt);
        if response.len() > 0 {
            CmdStepResult {
                state: CommandsModel {
                    commands: upsert_model(m.commands, trigger, seq![response]),
                    last_help: m.last_help,
                },
                replies: Seq::<Seq<char>>::empty(),
                save: true,
            }
        } else {
            CmdStepResult { state: m, replies: Seq::<Seq<char>>::empty(), save: false }
        }
    } else if body.len() > 0 && body[0] == '!' {
        let text = body.skip(1);
        let i = scan_index(m.commands, text, now);
        if i >= 0 {
            CmdStepResult {
                state: CommandsModel {
                    commands: m.commands.update(
                        i,
                        CommandModel {
                            trigger: m.commands[i].trigger,
                            response: m.commands[i].response,
                            last_invoke: Some(now),
                        },
                    ),
                    last_help: m.last_help,
                },
                replies: m.commands[i].response,
                save: false,
            }
        } else {
            CmdStepResult { state: m, replies: Seq::<Seq<char>>::empty(), save: false }
        }
    } else {
        CmdStepResult { state: m, replies: Seq::<Seq<char>>::empty(), save: false }
    }
}

/// What the responder asks its caller to do after a message.
pub struct CommandsOutcome {
    /// The reply lines to send, in order.
    pub replies: Vec<String>,
    /// Whether the (changed) collection must be persisted.
    pub save: bool,
}

impl CommandsState {
    /// An empty responder: no commands, `!help` never invoked.
    pub fn new() -> (r: CommandsState)
        ensures
            r@.commands == Seq::<CommandModel>::empty(),
            r@.last_help is None,
            cmds_wf(r@.commands),
    {
        let r = CommandsState { commands: Vec::new(), last_help: LastInvoke::new() };
        proof {
            assert(r@.commands =~= Seq::<CommandModel>::empty());
        }
        r
    }

    /// The position of the record with this trigger, if taught.
    pub fn find_trigger(&self, trigger: &str) -> (r: Option<usize>)
        ensures
            match r {
                Some(i) => i == trigger_index(self@.commands, trigger@),
                None => trigger_index(self@.commands, trigger@) == -1,
            },
    {
        proof {
            lemma_trigger_index(self@.commands, trigger@);
        }
        let n = self.commands.len();
        let mut i: usize = 0;
        while i < n
            invariant
                i <= n,
                n == self@.commands.len(),
                self@.commands.len() == self.commands@.len(),
                forall|j: int| 0 <= j < i ==> self@.commands[j].trigger != trigger@,
                trigger_index(self@.commands, trigger@) == -1 ==> forall|j: int|
                    0 <= j < self@.commands.len() ==> self@.commands[j].trigger != trigger@,
                trigger_index(self@.commands, trigger@) == -1 || (0 <= trigger_index(
                    self@.commands,
                    trigger@,
                ) < self@.commands.len() && self@.commands[trigger_index(
                    self@.commands,
                    trigger@,
                )].trigger == trigger@ && forall|j: int|
                    0 <= j < trigger_index(self@.commands, trigger@) ==> self@.commands[j].trigger
                        != trigger@),
            decreases n - i,
        {
            if str_eq(self.commands[i].trigger.as_str(), trigger) {
                proof {
                    let ti = trigger_index(self@.commands, trigger@);
                    assert(self@.commands[i as int].trigger == trigger@);
                    if ti == -1 {
                        assert(self@.commands[i as int].trigger != trigger@);
                    } else if ti < i {
                        assert(self@.commands[ti].trigger != trigger@);
                    } else if ti > i {
                        assert(forall|j: int|
                            0 <= j < ti ==> self@.commands[j].trigger != trigger@);
                        assert(self@.commands[i as int].trigger != trigger@);
                    }
                }
                return Some(i);
            }
            i += 1;
        }
        None
    }

    /// Teach (or replace) one command: used at startup when the stored
    /// collection is loaded, and by `!learn`.
    pub fn load_command(&mut self, trigger: String, response: Vec<String>)
        requires
            cmds_wf(old(self)@.commands),
        ensures
            final(self)@.commands == upsert_model(
                old(self)@.commands,
                trigger@,
                response@.map_values(|s: String| s@),
            ),
            final(self)@.last_help == old(self)@.last_help,
            cmds_wf(final(self)@.commands),
    {
        proof {
            lemma_trigger_index(self@.commands, trigger@);
        }
        let ghost tv = trigger@;
        let ghost rv = response@.map_values(|s: String| s@);
        let ghost j = trigger_index(old(self)@.commands, tv);
        let ghost pruned = if j >= 0 {
            old(self)@.commands.remove(j)
        } else {
            old(self)@.commands
        };
        match self.find_trigger(trigger.as_str()) {
            Some(i) => {
                self.commands.remove(i);
                proof {
                    assert(self@.commands =~~= pruned);
                    lemma_cmds_wf_remove(old(self)@.commands, j);
                }
            },
            None => {},
        }
        proof {
            assert(cmds_wf(pruned));
            assert(self@.commands == pruned);
        }
        let c = Command { trigger, response, last_invoke: LastInvoke::new() };
        let ghost cm = c@;
        self.commands.push(c);
        proof {
            assert(cm =~~= (CommandModel { trigger: tv, response: rv, last_invoke: None }));
            assert(self@.commands =~~= pruned.push(cm));
            assert(self@.commands =~~= upsert_model(old(self)@.commands, tv, rv));
            assert forall|t: int| 0 <= t < pruned.len() implies #[trigger] pruned[t].trigger
                != tv by {
                lemma_trigger_index(old(self)@.commands, tv);
                if j >= 0 {
                    if t < j {
                        assert(pruned[t] == old(self)@.commands[t]);
                    } else {
                        assert(pruned[t] == old(self)@.commands[t + 1]);
                    }
                }
            }
            assert forall|a: int, b: int|
                0 <= a < b < self@.commands.len() implies #[trigger] self@.commands[a].trigger
                != #[trigger] self@.commands[b].trigger by {
                if b < self@.commands.len() - 1 {
                    assert(self@.commands[a] == pruned[a]);
                    assert(self@.commands[b] == pruned[b]);
                } else {
                    assert(self@.commands[a] == pruned[a]);
                    assert(self@.commands[b] == cm);
                }
            }
        }
    }

    /// React to one user message. The caller supplies whether the sender
    /// currently carries the operator flag in the channel the message
    /// came from, and the current time in seconds.
    pub fn on_message(&mut self, body: &str, sender_is_op: bool, now: u64) -> (out:
        CommandsOutcome)
        requires
            cmds_wf(old(self)@.commands),
        ensures
            final(self)@ == cmd_step(old(self)@, body@, sender_is_op, now).state,
            out.replies@.map_values(|s: String| s@) == cmd_step(
                old(self)@,
                body@,
                sender_is_op,
                now,
            ).replies,
            out.save == cmd_step(old(self)@, body@, sender_is_op, now).save,
            cmds_wf(final(self)@.commands),
    {
        let trimmed = trim(body);
        if str_eq(trimmed, "!help") {
            if self.last_help.can_invoke_again(now) {
                let n = self.commands.len();
                let mut trigs: Vec<String> = Vec::new();
                let mut i: usize = 0;
                while i < n
                    invariant
                        i <= n,
                        n == self@.commands.len(),
                        self@.commands.len() == self.commands@.len(),
                        trigs@.len() == i,
                        forall|j: int|
                            0 <= j < i ==> #[trigger] trigs@[j]@ == self@.commands[j].trigger,
                    decreases n - i,
                {
                    trigs.push(self.commands[i].trigger.clone());
                    i += 1;
                }
                proof {
                    assert(trigs@.map_values(|s: String| s@) =~~= self@.commands.map_values(
                        |c: CommandModel| c.trigger,
                    ));
                }
                let joined = join_with(&trigs, ", ");
                let text = String::from_str("Commands: ").concat(joined.as_str()).concat(
                    " (All commands have a 1 minute cooldown",
                );
                self.last_help.has_invoked(now);
                let mut replies: Vec<String> = Vec::new();
                replies.push(text);
                proof {
                    assert(replies@.map_values(|s: String| s@) =~~= seq![
                        help_text_spec(old(self)@.commands),
                    ]);
                    assert(self@ =~~= cmd_step(old(self)@, body@, sender_is_op, now).state);
                }
                return CommandsOutcome { replies, save: false };
            }
            let replies: Vec<String> = Vec::new();
            proof {
                assert(replies@.map_values(|s: String| s@) =~~= Seq::<Seq<char>>::empty());
                assert(self@ =~~= cmd_step(old(self)@, body@, sender_is_op, now).state);
            }
            return CommandsOutcome { replies, save: false };
        }
        if starts_with(trimmed, "!learn") && sender_is_op {
            proof {
                reveal_strlit("!learn");
            }
            let tlen = trimmed.unicode_len();
            let remaining = trimmed.substring_char(6, tlen);
            proof {
                assert(remaining@ =~= trimmed@.skip(6));
            }
            let parts = split_char(remaining, '=');
            proof {
                crate::strutil::lemma_split_len(remaining@, '=');
                assert(parts@.map_values(|t: String| t@)[0] == split_spec(remaining@, '=')[0]);
            }
            let left = trim(parts[0].as_str()).to_owned();
            let mut rest: Vec<String> = Vec::new();
            let np = parts.len();
            let mut i: usize = 1;
            while i < np
                invariant
                    1 <= i <= np,
                    np == parts@.len(),
                    rest@.len() == i - 1,
                    forall|j: int| 0 <= j < i - 1 ==> #[trigger] rest@[j]@ == parts@[j + 1]@,
                decreases np - i,
            {
                rest.push(parts[i].clone());
                i += 1;
            }
            proof {
                assert(rest@.map_values(|t: String| t@) =~~= parts@.map_values(
                    |t: String| t@,
                ).drop_first());
            }
            let joined = join_with(&rest, " ");
            proof {
                reveal_strlit(" ");
                assert(" "@ =~= seq![' ']);
            }
            let right = trim(joined.as_str()).to_owned();
            proof {
                assert(left@ == learn_trigger_spec(trimmed@));
                assert(right@ == learn_response_spec(trimmed@));
            }
            if right.as_str().unicode_len() > 0 {
                let mut response: Vec<String> = Vec::new();
                response.push(right);
                self.load_command(left, response);
                let replies: Vec<String> = Vec::new();
                proof {
                    assert(self@ =~~= cmd_step(old(self)@, body@, sender_is_op, now).state);
                    assert(replies@.map_values(|s: String| s@) =~~= Seq::<Seq<char>>::empty());
                }
                return CommandsOutcome { replies, save: true };
            }
            let replies: Vec<String> = Vec::new();
            proof {
                assert(self@ =~~= cmd_step(old(self)@, body@, sender_is_op, now).state);
                assert(replies@.map_values(|s: String| s@) =~~= Seq::<Seq<char>>::empty());
            }
            return CommandsOutcome { replies, save: false };
        }
        let blen = body.unicode_len();
        if blen > 0 && body.get_char(0) == '!' {
            let text = body.substring_char(1, blen);
            proof {
                lemma_scan_index(self@.commands, text@, now);
            }
            let n = self.commands.len();
            let mut i: usize = 0;
            while i < n
                invariant
                    i <= n,
                    n == self@.commands.len(),
                    self@.commands.len() == self.commands@.len(),
                    self@ == old(self)@,
                    cmds_wf(self@.commands),
                    trim_spec(body@) != "!help"@,
                    !("!learn"@.is_prefix_of(trim_spec(body@)) && sender_is_op),
                    body@.len() > 0 && body@[0] == '!',
                    text@ == body@.skip(1),
                    forall|j: int|
                        0 <= j < i ==> !((#[trigger] self@.commands[j].trigger).is_prefix_of(
                            text@,
                        ) && can_invoke_again_spec(self@.commands[j].last_invoke, now)),
                    scan_index(self@.commands, text@, now) == -1 ==> forall|j: int|
                        0 <= j < self@.commands.len() ==> !((
                        #[trigger] self@.commands[j].trigger).is_prefix_of(text@)
                            && can_invoke_again_spec(self@.commands[j].last_invoke, now)),
                    scan_index(self@.commands, text@, now) == -1 || (0 <= scan_index(
                        self@.commands,
                        text@,
                        now,
                    ) < self@.commands.len() && self@.commands[scan_index(
                        self@.commands,
                        text@,
                        now,
                    )].trigger.is_prefix_of(text@) && can_invoke_again_spec(
                        self@.commands[scan_index(self@.commands, text@, now)].last_invoke,
                        now,
                    ) && forall|j: int|
                        0 <= j < scan_index(self@.commands, text@, now) ==> !((
                        #[trigger] self@.commands[j].trigger).is_prefix_of(text@)
                            && can_invoke_again_spec(self@.commands[j].last_invoke, now))),
                decreases n - i,
            {
                let fires = starts_with(text, self.commands[i].trigger.as_str())
                    && self.commands[i].last_invoke.can_invoke_again(now);
                if fires {
                    proof {
                        let si = scan_index(self@.commands, text@, now);
                        if si == -1 {
                            assert(!(self@.commands[i as int].trigger.is_prefix_of(text@)
                                && can_invoke_again_spec(
                                self@.commands[i as int].last_invoke,
                                now,
                            )));
                        } else if si < i {
                            assert(!(self@.commands[si].trigger.is_prefix_of(text@)
                                && can_invoke_again_spec(self@.commands[si].last_invoke, now)));
                        } else if si > i {
                            assert(!(self@.commands[i as int].trigger.is_prefix_of(text@)
                                && can_invoke_again_spec(
                                self@.commands[i as int].last_invoke,
                                now,
                            )));
                        }
                        assert(si == i);
                    }
                    let nr = self.commands[i].response.len();
                    let mut replies: Vec<String> = Vec::new();
                    let mut k: usize = 0;
                    while k < nr
                        invariant
                            k <= nr,
                            i < self.commands@.len(),
                            nr == self.commands@[i as int].response@.len(),
                            replies@.len() == k,
                            forall|j: int|
                                0 <= j < k ==> #[trigger] replies@[j]@ == self.commands@[
                                i as int].response@[j]@,
                        decreases nr - k,
                    {
                        replies.push(self.commands[i].response[k].clone());
                        k += 1;
                    }
                    let ghost pre = self@.commands;
                    let c = &mut self.commands[i];
                    c.last_invoke.has_invoked(now);
                    proof {
                        assert(self@.commands =~~= pre.update(
                            i as int,
                            CommandModel {
                                trigger: pre[i as int].trigger,
                                response: pre[i as int].response,
                                last_invoke: Some(now),
                            },
                        ));
                        assert(self@ =~~= cmd_step(old(self)@, body@, sender_is_op, now).state);
                        assert(replies@.map_values(|s: String| s@) =~~= cmd_step(
                            old(self)@,
                            body@,
                            sender_is_op,
                            now,
                        ).replies);
                        assert forall|a: int, b: int|
                            0 <= a < b < self@.commands.len() implies #[trigger] self@.commands[
                        a].trigger != #[trigger] self@.commands[b].trigger by {
                            assert(pre[a].trigger != pre[b].trigger);
                        }
                    }
                    return CommandsOutcome { replies, save: false };
                }
                i += 1;
            }
            let replies: Vec<String> = Vec::new();
            proof {
                assert(scan_index(self@.commands, text@, now) == -1);
                assert(self@ =~~= cmd_step(old(self)@, body@, sender_is_op, now).state);
                assert(replies@.map_values(|s: String| s@) =~~= Seq::<Seq<char>>::empty());
            }
            return CommandsOutcome { replies, save: false };
        }
        let replies: Vec<String> = Vec::new();
        proof {
            assert(self@ =~~= cmd_step(old(self)@, body@, sender_is_op, now).state);
            assert(replies@.map_values(|s: String| s@) =~~= Seq::<Seq<char>>::empty());
        }
        CommandsOutcome { replies, save: false }
    }
}

/// Removing any record preserves uniqueness of triggers.
pub proof fn lemma_cmds_wf_remove(cmds: Seq<CommandModel>, i: int)
    requires
        cmds_wf(cmds),
        0 <= i < cmds.len(),
    ensures
        cmds_wf(cmds.remove(i)),
{
    assert forall|a: int, b: int|
        0 <= a < b < cmds.remove(i).len() implies #[trigger] cmds.remove(i)[a].trigger
        != #[trigger] cmds.remove(i)[b].trigger by {
        let a0 = if a < i {
            a
        } else {
            a + 1
        };
        let b0 = if b < i {
            b
        } else {
            b + 1
        };
        assert(cmds.remove(i)[a] == cmds[a0]);
        assert(cmds.remove(i)[b] == cmds[b0]);
    }
}

} // verus!
