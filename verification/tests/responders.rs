use trangarbot::commands::CommandsState;
use trangarbot::multiplayer::{sort_games_desc, top_games_summary, GameInfo};
use trangarbot::watcher::{
    alt_blog_notification, facts_notification, version_notification, WatcherState,
};
use trangarbot::wolfram::{wolfram_summary, JsonVal, WolframOutcome};

#[test]
fn learn_then_invoke_replies_with_learned_text() {
    let mut state = CommandsState::new();
    let out = state.on_message("!learn ping = pong", true, 0);
    assert!(out.save);
    assert!(out.replies.is_empty());
    let out = state.on_message("!ping", false, 1);
    assert_eq!(out.replies, vec!["pong"]);
    assert!(!out.save);
}

#[test]
fn learn_replaces_instead_of_appending() {
    let mut state = CommandsState::new();
    state.on_message("!learn ping = pong", true, 0);
    state.on_message("!ping", false, 1);
    let out = state.on_message("!learn ping = pong pong2", true, 2);
    assert!(out.save);
    assert_eq!(state.commands.len(), 1);
    let out = state.on_message("!ping", false, 70);
    assert_eq!(out.replies, vec!["pong pong2"]);
}

#[test]
fn learn_requires_operator() {
    let mut state = CommandsState::new();
    let out = state.on_message("!learn ping = pong", false, 0);
    assert!(!out.save);
    assert!(out.replies.is_empty());
    assert!(state.commands.is_empty());
}

#[test]
fn learn_without_response_is_ignored() {
    let mut state = CommandsState::new();
    let out = state.on_message("!learn ping =", true, 0);
    assert!(!out.save);
    assert!(state.commands.is_empty());
    let out = state.on_message("!learn ping", true, 0);
    assert!(!out.save);
    assert!(state.commands.is_empty());
}

#[test]
fn cooldown_silences_second_invocation() {
    let mut state = CommandsState::new();
    state.load_command(String::from("foo"), vec![String::from("bar")]);
    let out = state.on_message("!foo", false, 100);
    assert_eq!(out.replies, vec!["bar"]);
    let out = state.on_message("!foo", false, 160);
    assert!(out.replies.is_empty(), "within 60 seconds the command must stay silent");
}

#[test]
fn cooldown_elapses_after_a_minute() {
    let mut state = CommandsState::new();
    state.load_command(String::from("foo"), vec![String::from("bar")]);
    let mut fired = 0;
    for now in [0u64, 61, 122] {
        let out = state.on_message("!foo", false, now);
        if !out.replies.is_empty() {
            assert_eq!(out.replies, vec!["bar"]);
            fired += 1;
        }
    }
    assert_eq!(fired, 3, "messages 61 seconds apart each fire");
}

#[test]
fn help_lists_triggers_under_its_own_cooldown() {
    let mut state = CommandsState::new();
    state.load_command(String::from("ping"), vec![String::from("pong")]);
    state.load_command(String::from("foo"), vec![String::from("bar")]);
    let out = state.on_message("!help", false, 0);
    assert_eq!(
        out.replies,
        vec!["Commands: ping, foo (All commands have a 1 minute cooldown"]
    );
    let out = state.on_message("!help", false, 30);
    assert!(out.replies.is_empty(), "help shares one 60-second cooldown");
    let out = state.on_message("!help", false, 61);
    assert_eq!(out.replies.len(), 1);
}

#[test]
fn multi_line_responses_are_replayed_in_order() {
    let mut state = CommandsState::new();
    state.load_command(
        String::from("rules"),
        vec![String::from("first"), String::from("second")],
    );
    let out = state.on_message("!rules", false, 0);
    assert_eq!(out.replies, vec!["first", "second"]);
}

#[test]
fn watcher_first_poll_is_baseline() {
    let mut w = WatcherState::new();
    assert!(!w.observe(String::from("1.1.0")), "the first poll never notifies");
    assert!(!w.observe(String::from("1.1.0")), "an unchanged value stays silent");
    assert!(w.observe(String::from("1.1.1")), "a changed value notifies once");
    assert!(!w.observe(String::from("1.1.1")));
}

#[test]
fn version_notification_rewrites_second_topic_part() {
    let n = version_notification(
        "Welcome | old version | Friday facts #1: x",
        "1.2.3",
        "./viewtopic.php?f=3&t=99",
    )
    .expect("three topic parts are enough");
    assert_eq!(
        n.new_topic.as_deref(),
        Some(
            "Welcome | Latest version: 1.2.3 https://forums.factorio.com/viewtopic.php?f=3&t=99 | Friday facts #1: x"
        )
    );
    assert_eq!(
        n.message,
        "Version 1.2.3 released. https://forums.factorio.com/viewtopic.php?f=3&t=99"
    );
}

#[test]
fn version_notification_needs_three_topic_parts() {
    assert!(version_notification("too | short", "1.0", "x").is_none());
}

#[test]
fn facts_notification_rewrites_third_topic_part() {
    let n = facts_notification("A | B | C", "123").expect("three parts");
    assert_eq!(
        n.new_topic.as_deref(),
        Some("A | B | Friday facts #123: http://factorio.com/blog/post/fff-123")
    );
    assert_eq!(
        n.message,
        "New factorio farts: 123 http://factorio.com/blog/post/fff-123"
    );
}

#[test]
fn alt_blog_notification_has_no_topic() {
    let n = alt_blog_notification("42");
    assert!(n.new_topic.is_none());
    assert_eq!(n.message, "New Alt-f4 facts: #42 https://alt-f4.blog/ALTF4-42/");
}

#[test]
fn top_games_are_sorted_and_formatted() {
    let games = vec![
        GameInfo {
            name: String::from("small"),
            players: vec![String::from("p1")],
            game_version: String::from("1.1.0"),
            has_password: false,
            mod_count: 0,
        },
        GameInfo {
            name: String::from("big"),
            players: vec![
                String::from("p1"),
                String::from("p2"),
                String::from("p3"),
            ],
            game_version: String::from("1.1.1"),
            has_password: true,
            mod_count: 2,
        },
        GameInfo {
            name: String::from("mid"),
            players: vec![String::from("p1"), String::from("p2")],
            game_version: String::from("1.0.0"),
            has_password: false,
            mod_count: 0,
        },
    ];
    let sorted = sort_games_desc(games);
    let summary = top_games_summary(&sorted);
    assert_eq!(
        summary,
        "Top 5 games: big (3 players, v1.1.1 +p modded), mid (2 players, v1.0.0), small (1 players, v1.1.0)"
    );
}

#[test]
fn top_games_summary_caps_at_five() {
    let mut games = Vec::new();
    for i in 0..7u64 {
        games.push(GameInfo {
            name: format!("g{i}"),
            players: Vec::new(),
            game_version: String::from("1.0"),
            has_password: false,
            mod_count: 0,
        });
    }
    let summary = top_games_summary(&games);
    assert_eq!(summary.matches("players").count(), 5);
}

fn obj(entries: Vec<(&str, JsonVal)>) -> JsonVal {
    JsonVal::Obj(entries.into_iter().map(|(k, v)| (String::from(k), v)).collect())
}

#[test]
fn wolfram_renders_primary_pod() {
    let json = obj(vec![(
        "queryresult",
        obj(vec![(
            "pods",
            JsonVal::Arr(vec![
                obj(vec![("title", JsonVal::Str(String::from("Ignored")))]),
                obj(vec![
                    ("primary", JsonVal::Bool(true)),
                    ("title", JsonVal::Str(String::from("Result"))),
                    (
                        "subpods",
                        JsonVal::Arr(vec![obj(vec![
                            ("title", JsonVal::Str(String::new())),
                            ("plaintext", JsonVal::Str(String::from("42\nexactly"))),
                        ])]),
                    ),
                ]),
            ]),
        )]),
    )]);
    match wolfram_summary(&json) {
        WolframOutcome::Primary(s) => assert_eq!(s, "Result: 42 exactly"),
        _ => panic!("expected a primary pod"),
    }
}

#[test]
fn wolfram_reports_missing_primary_pod() {
    let json = obj(vec![(
        "queryresult",
        obj(vec![("pods", JsonVal::Arr(vec![obj(vec![])]))]),
    )]);
    assert!(matches!(wolfram_summary(&json), WolframOutcome::NoPrimary));
}

#[test]
fn wolfram_falls_back_to_didyoumean_then_nothing() {
    let json = obj(vec![(
        "queryresults",
        obj(vec![("didyoumeans", JsonVal::Str(String::from("trains")))]),
    )]);
    assert!(matches!(wolfram_summary(&json), WolframOutcome::DidYouMean));
    assert!(matches!(wolfram_summary(&JsonVal::Null), WolframOutcome::NoResult));
}
