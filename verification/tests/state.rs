use trangarbot::channel::Channel;
use trangarbot::client::{Client, Config, ConfigServer};
use trangarbot::dispatch::{apply_event, Action, DispatchOutcome, Event};

fn test_config() -> Config {
    Config {
        youtube_key: String::new(),
        factorio_username: String::new(),
        factorio_key: String::new(),
        wolframalpha: String::new(),
        servers: vec![ConfigServer {
            nickname: String::from("bot"),
            host: String::from("irc.example.net"),
            channels: vec![String::from("#factorio")],
            factorio_channel: Some(String::from("#factorio")),
            password: None,
        }],
    }
}

fn test_client() -> Client {
    Client::new(test_config(), String::from("irc.example.net"))
}

fn member_names(client: &Client, channel: &str) -> Vec<String> {
    let i = client.find_channel(channel).expect("channel should exist");
    client.channels[i].users.iter().map(|u| u.name.clone()).collect()
}

#[test]
fn join_part_members_match_joined_not_parted() {
    let mut client = test_client();
    let events = [
        Event::Join { channel: String::from("#a"), nick: String::from("alice") },
        Event::Join { channel: String::from("#b"), nick: String::from("bob") },
        Event::Join { channel: String::from("#a"), nick: String::from("carol") },
        Event::Part { channel: String::from("#a"), nick: String::from("alice") },
        Event::Join { channel: String::from("#a"), nick: String::from("dave") },
        Event::Part { channel: String::from("#b"), nick: String::from("bob") },
    ];
    for e in events {
        apply_event(&mut client, &e);
    }
    assert_eq!(member_names(&client, "#a"), vec!["carol", "dave"]);
    assert!(member_names(&client, "#b").is_empty());
}

#[test]
fn join_is_idempotent() {
    let mut client = test_client();
    let join = Event::Join { channel: String::from("#a"), nick: String::from("alice") };
    apply_event(&mut client, &join);
    apply_event(&mut client, &join);
    assert_eq!(member_names(&client, "#a"), vec!["alice"]);
}

#[test]
fn name_list_bulk_is_idempotent() {
    let mut client = test_client();
    let bulk = Event::NameListBulk {
        channel: String::from("#a"),
        names: vec![
            String::from("@alice"),
            String::from("bob"),
            String::from("~carol"),
        ],
    };
    apply_event(&mut client, &bulk);
    let first = member_names(&client, "#a");
    let i = client.find_channel("#a").unwrap();
    let first_flags: Vec<Vec<char>> =
        client.channels[i].users.iter().map(|u| u.flags.clone()).collect();
    apply_event(&mut client, &bulk);
    assert_eq!(member_names(&client, "#a"), first);
    let second_flags: Vec<Vec<char>> =
        client.channels[i].users.iter().map(|u| u.flags.clone()).collect();
    assert_eq!(second_flags, first_flags);
    assert_eq!(first, vec!["alice", "bob", "carol"]);
}

#[test]
fn role_marker_stripping() {
    let mut ch = Channel::new(String::from("#a"));
    ch.add_user(String::from("@alice"));
    ch.add_user(String::from("bob"));
    assert!(ch.user_is_op("alice"));
    assert!(!ch.user_is_op("bob"));
    let alice = ch.users.iter().find(|u| u.name == "alice").unwrap();
    assert_eq!(alice.flags, vec!['@']);
    let bob = ch.users.iter().find(|u| u.name == "bob").unwrap();
    assert!(bob.flags.is_empty());
}

#[test]
fn nick_change_moves_member_in_all_channels() {
    let mut client = test_client();
    apply_event(&mut client, &Event::NameListBulk {
        channel: String::from("#a"),
        names: vec![String::from("@alice")],
    });
    apply_event(&mut client, &Event::Join {
        channel: String::from("#b"),
        nick: String::from("alice"),
    });
    apply_event(&mut client, &Event::NickChange {
        old_nick: String::from("alice"),
        new_nick: String::from("bob"),
    });
    for channel in ["#a", "#b"] {
        let names = member_names(&client, channel);
        assert!(names.contains(&String::from("bob")), "bob missing in {channel}");
        assert!(!names.contains(&String::from("alice")), "alice left in {channel}");
    }
    let i = client.find_channel("#a").unwrap();
    assert!(client.channels[i].user_is_op("bob"), "roles must survive the rename");
}

#[test]
fn nick_change_collision_keeps_one_member() {
    let mut client = test_client();
    apply_event(&mut client, &Event::NameListBulk {
        channel: String::from("#a"),
        names: vec![String::from("@alice"), String::from("bob")],
    });
    apply_event(&mut client, &Event::NickChange {
        old_nick: String::from("alice"),
        new_nick: String::from("bob"),
    });
    let names = member_names(&client, "#a");
    assert_eq!(names, vec!["bob"], "a colliding rename leaves one member (last write wins)");
    let i = client.find_channel("#a").unwrap();
    assert!(client.channels[i].user_is_op("bob"), "the renamed member keeps its own flags");
}

#[test]
fn part_of_unknown_channel_changes_nothing() {
    let mut client = test_client();
    apply_event(&mut client, &Event::Part {
        channel: String::from("#ghost"),
        nick: String::from("alice"),
    });
    assert!(client.find_channel("#ghost").is_none(), "a part never creates a channel");
}

#[test]
fn topic_set_is_full_overwrite() {
    let mut client = test_client();
    apply_event(&mut client, &Event::TopicSet {
        channel: String::from("#a"),
        topic: String::from("A | B | C"),
    });
    apply_event(&mut client, &Event::TopicSet {
        channel: String::from("#a"),
        topic: String::from("X"),
    });
    let i = client.find_channel("#a").unwrap();
    assert_eq!(client.channels[i].topic(), "X");
}

#[test]
fn quit_removes_member_everywhere() {
    let mut client = test_client();
    for channel in ["#a", "#b"] {
        apply_event(&mut client, &Event::Join {
            channel: String::from(channel),
            nick: String::from("alice"),
        });
    }
    apply_event(&mut client, &Event::Quit { nick: String::from("alice") });
    assert!(member_names(&client, "#a").is_empty());
    assert!(member_names(&client, "#b").is_empty());
}

#[test]
fn role_change_grants_and_revokes_operator() {
    let mut client = test_client();
    apply_event(&mut client, &Event::Join {
        channel: String::from("#a"),
        nick: String::from("alice"),
    });
    apply_event(&mut client, &Event::RoleChange {
        channel: String::from("#a"),
        nick: String::from("alice"),
        add: true,
    });
    let i = client.find_channel("#a").unwrap();
    assert!(client.channels[i].user_is_op("alice"));
    apply_event(&mut client, &Event::RoleChange {
        channel: String::from("#a"),
        nick: String::from("alice"),
        add: false,
    });
    assert!(!client.channels[i].user_is_op("alice"));
}

#[test]
fn user_message_replies_to_channel_when_known() {
    let mut client = test_client();
    apply_event(&mut client, &Event::Join {
        channel: String::from("#a"),
        nick: String::from("alice"),
    });
    let out = apply_event(&mut client, &Event::UserMessage {
        sender: String::from("alice"),
        target: String::from("#a"),
        body: String::from("hello"),
    });
    match out {
        DispatchOutcome::Deliver { reply_to, channel } => {
            assert_eq!(reply_to, "#a");
            assert!(channel.is_some());
        }
        _ => panic!("expected a delivery"),
    }
    let out = apply_event(&mut client, &Event::UserMessage {
        sender: String::from("alice"),
        target: String::from("#unknown"),
        body: String::from("hello"),
    });
    match out {
        DispatchOutcome::Deliver { reply_to, channel } => {
            assert_eq!(reply_to, "alice");
            assert!(channel.is_none());
        }
        _ => panic!("expected a delivery"),
    }
}

#[test]
fn end_of_startup_identifies_when_password_set() {
    let mut config = test_config();
    config.servers[0].password = Some(String::from("SECRET-REDACTED"));
    let mut client = Client::new(config, String::from("irc.example.net"));
    let out = apply_event(&mut client, &Event::EndOfStartup);
    match out {
        DispatchOutcome::Act { action: Action::SendMessage { target, text } } => {
            assert_eq!(target, "NickServ");
            assert_eq!(text, "identify TrangarBot SECRET-REDACTED");
        }
        _ => panic!("expected an identify action"),
    }
    let mut silent = test_client();
    match apply_event(&mut silent, &Event::EndOfStartup) {
        DispatchOutcome::Nothing => {}
        _ => panic!("no password means no identify"),
    }
}

#[test]
fn running_flag_round_trip() {
    let mut client = test_client();
    assert!(client.running());
    client.set_running(false);
    assert!(!client.running());
}

#[test]
fn server_config_finds_host_entry() {
    let client = test_client();
    let sc = client.server_config();
    assert_eq!(sc.host, "irc.example.net");
    assert_eq!(sc.nickname, "bot");
}
