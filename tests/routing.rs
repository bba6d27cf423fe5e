use twitch_logger::config::BotState;
use twitch_logger::db::create_tables;
use twitch_logger::message::Message;
use twitch_logger::route::{
    admin_log, admin_log_path, format_admin_log, format_msg_log, log_path, msg_log, route,
    BatchWriter, Route,
};

fn chat(text: &str) -> Message {
    let line = format!("@mod=0;user-id=7 :bob!bob@bob.tmi.twitch.tv PRIVMSG #chan :{}\r\n", text);
    Message::decode(&line, 0)
}

#[test]
fn batch_flushes_when_count_first_reaches_buffer() {
    let mut w = BatchWriter::new();
    assert!(!w.accumulate(chat("a"), 3));
    assert!(!w.accumulate(chat("b"), 3));
    assert!(w.accumulate(chat("c"), 3));
    assert_eq!(w.pending.len(), 3);
    w.complete_flush(true);
    assert!(w.pending.is_empty());
}

#[test]
fn failed_flush_keeps_batch() {
    let mut w = BatchWriter::new();
    w.accumulate(chat("a"), 1);
    w.complete_flush(false);
    assert_eq!(w.pending.len(), 1);
    assert_eq!(w.pending[0].user_msg, "a");
    assert!(w.accumulate(chat("b"), 1));
    assert_eq!(w.pending.len(), 2);
}

#[test]
fn paused_drops_channel_events_but_not_whispers() {
    let state = BotState { buffer: 1, paused: true, postgres: true, uptime: 0 };
    let mut w = BatchWriter::new();
    assert_eq!(route(&state, &mut w, &chat("x")), Route::Drop);
    assert!(w.pending.is_empty());
    let whisper = Message::decode("@user-id=1 :carol!c@c.tmi.twitch.tv WHISPER logbot :list\r\n", 0);
    assert_eq!(route(&state, &mut w, &whisper), Route::Command);
}

#[test]
fn route_logs_and_batches_when_enabled() {
    let state = BotState { buffer: 2, paused: false, postgres: true, uptime: 0 };
    let mut w = BatchWriter::new();
    assert_eq!(route(&state, &mut w, &chat("x")), Route::Log { flush: false });
    assert_eq!(route(&state, &mut w, &chat("y")), Route::Log { flush: true });
    assert_eq!(w.pending.len(), 2);
    let off = BotState { buffer: 2, paused: false, postgres: false, uptime: 0 };
    let mut w2 = BatchWriter::new();
    assert_eq!(route(&off, &mut w2, &chat("x")), Route::Log { flush: false });
    assert!(w2.pending.is_empty());
    assert_eq!(route(&off, &mut w2, &Message::new(0)), Route::Ignore);
}

#[test]
fn channel_message_log_format() {
    let line = "@badge-info=subscriber/4;mod=1;user-id=7 :bob!bob@bob.tmi.twitch.tv PRIVMSG #chan :hey\r\n";
    let m = Message::decode(line, 0);
    let t = format_msg_log(&m, &"2020-01-02 03:04:05".to_string());
    assert_eq!(t, "2020-01-02 03:04:05 - [Moderator][4] bob: hey\n");
    let plain = chat("yo");
    assert_eq!(format_msg_log(&plain, &"S".to_string()), "S - [0] bob: yo\n");
}

#[test]
fn notice_log_formats() {
    let both = Message::decode("@login=d;system-msg=sub\\smsg;user-id=1 :tmi.twitch.tv USERNOTICE #chan :thanks\r\n", 0);
    assert_eq!(
        format_msg_log(&both, &"S".to_string()),
        "S - [Notice] sub msg\nS - [Subscription Message] thanks\n"
    );
    let only = Message::decode("@login=d;system-msg=raid;user-id=1 :tmi.twitch.tv USERNOTICE #chan\r\n", 0);
    assert_eq!(format_msg_log(&only, &"S".to_string()), "S - [Notice] raid\n");
}

#[test]
fn stamped_logs_and_paths() {
    let m = Message::decode("@mod=0;user-id=7 :bob!bob@bob.tmi.twitch.tv PRIVMSG #chan :hey\r\n", 86_400 + 3_661);
    assert_eq!(msg_log(&m), "1970-01-02 01:01:01 - [0] bob: hey\n");
    assert_eq!(log_path(&m), "logs/chan/1970-01-02.txt");
    let w = Message::decode("@user-id=1 :carol!c@c.tmi.twitch.tv WHISPER logbot :list\r\n", 0);
    assert_eq!(admin_log(&w), "1970-01-01 00:00:00 - carol: list\n");
    assert_eq!(format_admin_log(&w, &"S".to_string()), "S - carol: list\n");
    assert_eq!(admin_log_path(&w), "logs/admin/1970-01-01.txt");
}

#[test]
fn table_statements() {
    let t = create_tables();
    assert_eq!(t.len(), 2);
    assert!(t[0].starts_with("CREATE TABLE IF NOT EXISTS adminlog"));
    assert!(t[1].starts_with("CREATE TABLE IF NOT EXISTS chanlog"));
}
