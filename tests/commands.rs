use twitch_logger::commands::{
    buffer, channel_set, check_prefix, execute, join, list, parse_cmd, part, pause, uptime, uptime_reply,
    Action,
};
use twitch_logger::config::{BotConfig, BotState};
use twitch_logger::message::Message;

fn config_with(channels: &[&str]) -> BotConfig {
    BotConfig {
        nickname: "logbot".to_string(),
        oauth: "oauth:SECRET-REDACTED".to_string(),
        server: "irc.chat.twitch.tv".to_string(),
        postgres: String::new(),
        admins: vec!["carol".to_string()],
        channels: channels.iter().map(|c| c.to_string()).collect(),
    }
}

fn state(buffer: usize) -> BotState {
    BotState { buffer, paused: false, postgres: false, uptime: 0 }
}

fn sent(actions: &[Action]) -> Vec<String> {
    actions
        .iter()
        .filter_map(|a| match a {
            Action::Send(s) => Some(s.clone()),
            _ => None,
        })
        .collect()
}

fn strings(v: &[&str]) -> Vec<String> {
    v.iter().map(|s| s.to_string()).collect()
}

#[test]
fn normalization_adds_hash_once() {
    let once = check_prefix(strings(&["foo", "#bar", ""]));
    assert_eq!(once, strings(&["#foo", "#bar", "#"]));
    let twice = check_prefix(once.clone());
    assert_eq!(twice, once);
}

#[test]
fn bot_state_starts_with_floor_or_ten_per_channel() {
    assert_eq!(BotState::new(0, false).buffer, 100);
    assert_eq!(BotState::new(10, true).buffer, 100);
    assert_eq!(BotState::new(11, true).buffer, 110);
    assert!(!BotState::new(3, true).paused);
}

#[test]
fn join_adds_new_channels() {
    let mut s = state(100);
    let mut c = config_with(&["#a"]);
    let acts = join(&mut s, &mut c, &"carol".to_string(), strings(&["b", "#c", "b"]));
    assert_eq!(c.channels, strings(&["#a", "#b", "#c"]));
    assert_eq!(s.buffer, 120);
    assert!(matches!(&acts[0], Action::Join(x) if x == "#b"));
    assert!(matches!(&acts[1], Action::Join(x) if x == "#c"));
    assert_eq!(sent(&acts), vec!["PRIVMSG logbot :/w carol Joined: #b #c".to_string()]);
    assert!(matches!(acts.last(), Some(Action::SaveConfig)));
    assert_eq!(acts.len(), 4);
}

#[test]
fn join_tracked_channel_is_noop() {
    let mut s = state(100);
    let mut c = config_with(&["#a"]);
    let acts = join(&mut s, &mut c, &"carol".to_string(), strings(&["a"]));
    assert_eq!(c.channels, strings(&["#a"]));
    assert_eq!(s.buffer, 100);
    assert_eq!(acts.len(), 1);
    assert!(matches!(acts[0], Action::SaveConfig));
}

#[test]
fn part_removes_tracked_channels() {
    let mut s = state(120);
    let mut c = config_with(&["#a", "#b"]);
    let acts = part(&mut s, &mut c, &"carol".to_string(), strings(&["a", "zz"]));
    assert_eq!(c.channels, strings(&["#b"]));
    assert_eq!(s.buffer, 110);
    assert!(matches!(&acts[0], Action::Part(x) if x == "#a"));
    assert_eq!(sent(&acts), vec!["PRIVMSG logbot :/w carol Left: #a".to_string()]);
}

#[test]
fn part_untracked_channel_is_noop() {
    let mut s = state(120);
    let mut c = config_with(&["#a"]);
    let acts = part(&mut s, &mut c, &"carol".to_string(), strings(&["#zz"]));
    assert_eq!(c.channels, strings(&["#a"]));
    assert_eq!(s.buffer, 120);
    assert_eq!(acts.len(), 1);
    assert!(matches!(acts[0], Action::SaveConfig));
}

#[test]
fn part_keeps_buffer_positive() {
    let mut s = state(5);
    let mut c = config_with(&["#a"]);
    part(&mut s, &mut c, &"carol".to_string(), strings(&["#a"]));
    assert_eq!(s.buffer, 1);
}

#[test]
fn list_with_no_channels() {
    let c = config_with(&[]);
    let acts = list(&c, &"carol".to_string());
    assert_eq!(sent(&acts), vec!["PRIVMSG logbot :/w carol Bot is logging 0 channels".to_string()]);
}

#[test]
fn list_with_one_channel() {
    let c = config_with(&["#a"]);
    let acts = list(&c, &"carol".to_string());
    assert_eq!(sent(&acts), vec!["PRIVMSG logbot :/w carol Bot is logging 1 channel: #a".to_string()]);
}

#[test]
fn list_with_forty_six_channels_splits_in_two() {
    let names: Vec<String> = (0..46).map(|i| format!("#c{}", i)).collect();
    let refs: Vec<&str> = names.iter().map(|s| s.as_str()).collect();
    let c = config_with(&refs);
    let lines = sent(&list(&c, &"carol".to_string()));
    assert_eq!(lines.len(), 3);
    assert_eq!(lines[0], "PRIVMSG logbot :/w carol Bot is logging 46 channels:");
    assert_eq!(lines[1], format!("PRIVMSG logbot :/w carol {}", names[..45].join(" ")));
    assert_eq!(lines[2], "PRIVMSG logbot :/w carol #c45");
}

#[test]
fn buffer_sets_value() {
    let mut s = state(100);
    let c = config_with(&[]);
    let a = buffer(&mut s, &c, &"carol".to_string(), &strings(&["250"]));
    assert_eq!(s.buffer, 250);
    assert_eq!(sent(&[a]), vec!["PRIVMSG logbot :/w carol Bot buffer set to 250".to_string()]);
}

#[test]
fn buffer_rejects_bad_argument() {
    let c = config_with(&[]);
    for args in [strings(&["abc"]), strings(&[]), strings(&["0"]), strings(&["-5"])] {
        let mut s = state(100);
        let a = buffer(&mut s, &c, &"carol".to_string(), &args);
        assert_eq!(s.buffer, 100);
        assert_eq!(sent(&[a]), vec!["PRIVMSG logbot :/w carol An integer value is required".to_string()]);
    }
}

#[test]
fn pause_and_unpause() {
    let mut s = state(100);
    let c = config_with(&[]);
    let a = pause(&mut s, &c, &"carol".to_string(), &"stop".to_string());
    assert!(s.paused);
    assert_eq!(sent(&[a]), vec!["PRIVMSG logbot :/w carol Bot logging is now paused".to_string()]);
    let a = pause(&mut s, &c, &"carol".to_string(), &"start".to_string());
    assert!(!s.paused);
    assert_eq!(sent(&[a]), vec!["PRIVMSG logbot :/w carol Bot logging is now unpaused".to_string()]);
}

#[test]
fn uptime_reports_span_and_buffer() {
    let s = state(130);
    let c = config_with(&[]);
    let a = uptime_reply(&s, &c, &"carol".to_string(), &"2 days".to_string());
    assert_eq!(sent(&[a]), vec!["PRIVMSG logbot :/w carol Bot uptime: 2 days | Bot buffer: 130".to_string()]);
    let a = uptime(&s, &c, &"carol".to_string(), 3663);
    assert_eq!(
        sent(&[a]),
        vec!["PRIVMSG logbot :/w carol Bot uptime: 1 hour 1 minute 3 seconds | Bot buffer: 130".to_string()]
    );
}

#[test]
fn execute_dispatches_aliases() {
    let mut s = state(100);
    let mut c = config_with(&[]);
    let acts = execute(&mut s, &mut c, &"carol".to_string(), strings(&["quit"]), 0);
    assert!(matches!(acts[..], [Action::Shutdown]));
    let acts = execute(&mut s, &mut c, &"carol".to_string(), strings(&["dance"]), 0);
    assert!(acts.is_empty());
    let acts = execute(&mut s, &mut c, &"carol".to_string(), strings(&["leave", "x"]), 0);
    assert_eq!(acts.len(), 1);
}

#[test]
fn parse_cmd_lowercases_and_joins() {
    let mut s = state(100);
    let mut c = config_with(&[]);
    let msg = Message::decode("@user-id=55 :carol!carol@carol.tmi.twitch.tv WHISPER logbot :JOIN Foo\r\n", 0);
    let acts = parse_cmd(&mut s, &mut c, &msg);
    assert_eq!(c.channels, strings(&["#foo"]));
    assert_eq!(s.buffer, 110);
    assert_eq!(sent(&acts), vec!["PRIVMSG logbot :/w carol Joined: #foo".to_string()]);
}

#[test]
fn parse_cmd_ignores_non_admins() {
    let mut s = state(100);
    let mut c = config_with(&[]);
    let msg = Message::decode("@user-id=5 :mallory!m@m.tmi.twitch.tv WHISPER logbot :pause\r\n", 0);
    let acts = parse_cmd(&mut s, &mut c, &msg);
    assert!(acts.is_empty());
    assert!(!s.paused);
}

#[test]
fn whisper_still_pauses_while_paused() {
    let mut s = state(100);
    s.paused = true;
    let mut c = config_with(&[]);
    let msg = Message::decode("@user-id=55 :carol!carol@carol.tmi.twitch.tv WHISPER logbot :unpause\r\n", 0);
    let acts = parse_cmd(&mut s, &mut c, &msg);
    assert!(!s.paused);
    assert_eq!(acts.len(), 1);
}

#[test]
fn join_keeps_channels_sorted() {
    let mut s = state(100);
    let mut c = config_with(&["#m"]);
    join(&mut s, &mut c, &"carol".to_string(), strings(&["zeta", "alpha", "#mm"]));
    assert_eq!(c.channels, strings(&["#alpha", "#m", "#mm", "#zeta"]));
    assert_eq!(s.buffer, 130);
}

#[test]
fn channel_set_normalizes_sorts_and_dedups() {
    let set = channel_set(strings(&["b", "#a", "#b", "c"]));
    assert_eq!(set, strings(&["#a", "#b", "#c"]));
    assert!(channel_set(strings(&[])).is_empty());
}
