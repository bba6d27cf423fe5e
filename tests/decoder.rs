use twitch_logger::message::{Message, UserType};

const PRIVMSG_LINE: &str = "@badge-info=subscriber/3;badges=moderator/1;color=#FF0000;display-name=alice;mod=1;room-id=7;user-id=42;user-type=mod :alice!alice@alice.tmi.twitch.tv PRIVMSG #mychannel :hello\r\n";

#[test]
fn privmsg_fixture_decodes_to_expected_fields() {
    let m = Message::decode(PRIVMSG_LINE, 1000);
    assert_eq!(m.command, "PRIVMSG");
    assert_eq!(m.target, "#mychannel");
    assert_eq!(m.user_id, 42);
    assert_eq!(m.user_type, UserType::Moderator);
    assert_eq!(m.username, "alice");
    assert_eq!(m.sub_count, 3);
    assert_eq!(m.user_msg, "hello");
    assert_eq!(m.system_msg, "");
    assert_eq!(m.timestamp, 1000);
}

#[test]
fn privmsg_without_badge_or_mod_is_plain_user() {
    let line = "@badges=;mod=0;user-id=7 :bob!bob@bob.tmi.twitch.tv PRIVMSG #chan :hi there\r\n";
    let m = Message::decode(line, 5);
    assert_eq!(m.user_type, UserType::User);
    assert_eq!(m.sub_count, 0);
    assert_eq!(m.user_id, 7);
    assert_eq!(m.user_msg, "hi there");
}

#[test]
fn malformed_numbers_default_to_zero() {
    let line = "@badge-info=subscriber/x;mod=z;user-id=99999999999 :bob!bob@bob.tmi.twitch.tv PRIVMSG #chan :hi\r\n";
    let m = Message::decode(line, 5);
    assert_eq!(m.user_id, 0);
    assert_eq!(m.sub_count, 0);
    assert_eq!(m.user_type, UserType::User);
}

#[test]
fn whisper_decodes() {
    let line = "@badges=;user-id=55;user-type= :carol!carol@carol.tmi.twitch.tv WHISPER logbot :join #a\r\n";
    let m = Message::decode(line, 9);
    assert_eq!(m.command, "WHISPER");
    assert_eq!(m.target, "logbot");
    assert_eq!(m.user_id, 55);
    assert_eq!(m.user_type, UserType::NotSet);
    assert_eq!(m.username, "carol");
    assert_eq!(m.user_msg, "join #a");
}

#[test]
fn notice_with_system_and_user_message() {
    let line = "@badge-info=subscriber/12;login=dave;mod=0;room-id=1;system-msg=dave\\ssubscribed\\sfor\\s12\\smonths;user-id=77 :tmi.twitch.tv USERNOTICE #chan :great stream\r\n";
    let m = Message::decode(line, 9);
    assert_eq!(m.command, "USERNOTICE");
    assert_eq!(m.target, "#chan");
    assert_eq!(m.username, "dave");
    assert_eq!(m.user_id, 77);
    assert_eq!(m.sub_count, 12);
    assert_eq!(m.user_type, UserType::User);
    assert_eq!(m.system_msg, "dave subscribed for 12 months");
    assert_eq!(m.user_msg, "great stream");
}

#[test]
fn notice_without_user_message() {
    let line = "@login=erin;mod=1;system-msg=erin\\sis\\sraiding;user-id=8 :tmi.twitch.tv USERNOTICE #chan\r\n";
    let m = Message::decode(line, 9);
    assert_eq!(m.system_msg, "erin is raiding");
    assert_eq!(m.user_msg, "");
    assert_eq!(m.user_type, UserType::Moderator);
}

#[test]
fn anonymous_gifter_is_masked() {
    let line = "@badge-info=subscriber/5;login=ananonymousgifter;mod=1;system-msg=An\\sanonymous\\suser\\sgifted;user-id=274598607 :tmi.twitch.tv USERNOTICE #chan\r\n";
    let m = Message::decode(line, 9);
    assert_eq!(m.user_id, 0);
    assert_eq!(m.user_type, UserType::NotSet);
    assert_eq!(m.username, "anonymous");
    assert_eq!(m.sub_count, 0);
    assert_eq!(m.system_msg, "An anonymous user gifted");
}

#[test]
fn anonymous_cheerer_is_masked() {
    let line = "@login=ananonymouscheerer;mod=0;user-id=1 :tmi.twitch.tv USERNOTICE #chan :x\r\n";
    let m = Message::decode(line, 9);
    assert_eq!(m.user_id, 0);
    assert_eq!(m.username, "anonymous");
}

#[test]
fn unknown_command_is_unrecognized() {
    let m = Message::decode(":tmi.twitch.tv PING #chan :x\r\n", 3);
    assert_eq!(m.command, "");
    assert_eq!(m.username, "");
    assert_eq!(m.user_type, UserType::NotSet);
    assert_eq!(m.timestamp, 3);
}

#[test]
fn privmsg_without_channel_hash_is_unrecognized() {
    let m = Message::decode("@mod=0 :a!a@a.tmi.twitch.tv PRIVMSG chan :x\r\n", 3);
    assert_eq!(m.command, "");
}

#[test]
fn empty_line_is_unrecognized() {
    let m = Message::decode("", 3);
    assert_eq!(m.command, "");
}

#[test]
fn parse_msg_stamps_a_time() {
    let m = Message::parse_msg(PRIVMSG_LINE);
    assert_eq!(m.username, "alice");
    assert!(m.timestamp > 1_500_000_000);
}

#[test]
fn user_type_names() {
    assert_eq!(UserType::Moderator.as_str(), "Moderator");
    assert_eq!(UserType::User.as_str(), "User");
    assert_eq!(UserType::NotSet.as_str(), "NotSet");
}
