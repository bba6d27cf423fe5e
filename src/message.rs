use vstd::prelude::*;

use crate::clock::now_secs;
use crate::text::{
    collect_chars, find_from, first_break, first_of, find_seq, leading_number,
    leading_number_of, matches_at, scan_break, scan_char, slice_of, spells, string_from, string_of,
    strip_eol, strip_eol_of, unescape_spaces, unescape_spaces_of,
};

verus! {

/// The rank of the author of a chat line.
#[derive(Clone, Copy, Debug, PartialEq, Eq, Structural)]
pub enum UserType {
    User,
    Moderator,
    NotSet,
}

pub open spec fn user_type_name(t: UserType) -> Seq<char> {
    match t {
        UserType::User => "User"@,
        UserType::Moderator => "Moderator"@,
        UserType::NotSet => "NotSet"@,
    }
}

impl UserType {
    /// The name of the rank, as it is stored.
    pub fn as_str(&self) -> (r: &'static str)
        ensures
            r@ == user_type_name(*self),
    {
        match self {
            UserType::User => "User",
            UserType::Moderator => "Moderator",
            UserType::NotSet => "NotSet",
        }
    }
}

/// The rank that the moderator flag `flag` gives.
pub open spec fn user_type_of(flag: i32) -> UserType {
    if flag == 1 {
        UserType::Moderator
    } else {
        UserType::User
    }
}

pub fn check_user_type(flag: i32) -> (r: UserType)
    ensures
        r == user_type_of(flag),
{
    if flag == 1 {
        UserType::Moderator
    } else {
        UserType::User
    }
}

/// The largest distance from the epoch, in seconds, that a timestamp may have.
pub const MAX_STAMP: i64 = 8_000_000_000_000;

pub open spec fn stamp_ok(t: i64) -> bool {
    -MAX_STAMP <= t <= MAX_STAMP
}

/// A decoded protocol line. An empty `command` marks a line that matched no grammar.
/// `timestamp` counts seconds since the Unix epoch, in UTC.
pub struct Message {
    pub command: String,
    pub target: String,
    pub user_id: i32,
    pub user_type: UserType,
    pub username: String,
    pub sub_count: i32,
    pub system_msg: String,
    pub user_msg: String,
    pub timestamp: i64,
}

pub ghost struct MessageView {
    pub command: Seq<char>,
    pub target: Seq<char>,
    pub user_id: i32,
    pub user_type: UserType,
    pub username: Seq<char>,
    pub sub_count: i32,
    pub system_msg: Seq<char>,
    pub user_msg: Seq<char>,
    pub timestamp: i64,
}

impl View for Message {
    type V = MessageView;

    open spec fn view(&self) -> MessageView {
        MessageView {
            command: self.command@,
            target: self.target@,
            user_id: self.user_id,
            user_type: self.user_type,
            username: self.username@,
            sub_count: self.sub_count,
            system_msg: self.system_msg@,
            user_msg: self.user_msg@,
            timestamp: self.timestamp,
        }
    }
}

/// The event of a line that matched no grammar.
pub open spec fn unrecognized(ts: i64) -> MessageView {
    MessageView {
        command: seq![],
        target: seq![],
        user_id: 0,
        user_type: UserType::NotSet,
        username: seq![],
        sub_count: 0,
        system_msg: seq![],
        user_msg: seq![],
        timestamp: ts,
    }
}

/// Index just past the delimiter at `i`, or the end of `s`.
pub open spec fn skip(s: Seq<char>, i: int) -> int {
    if i < s.len() {
        i + 1
    } else {
        s.len() as int
    }
}

pub open spec fn is_tagged(s: Seq<char>) -> bool {
    s.len() > 0 && s[0] == '@'
}

/// Where the tags of a line end: the first token break.
pub open spec fn tags_end(s: Seq<char>) -> int {
    if is_tagged(s) {
        first_break(s, 0, s.len() as int)
    } else {
        0
    }
}

/// The tags of a line, without the leading `@`.
pub open spec fn tag_section(s: Seq<char>) -> Seq<char> {
    if is_tagged(s) {
        s.subrange(1, tags_end(s))
    } else {
        seq![]
    }
}

/// The value of the first tag named `key`, up to the next `;`; empty when there is none.
pub open spec fn tag_value(s: Seq<char>, key: Seq<char>) -> Seq<char> {
    let t = seq![';'] + tag_section(s) + seq![';'];
    let pat = seq![';'] + key + seq!['='];
    let p = find_seq(t, pat, 0);
    if p < 0 {
        seq![]
    } else {
        let st = p + pat.len();
        t.subrange(st, first_of(t, ';', st, t.len() as int))
    }
}

pub open spec fn rest_start(s: Seq<char>) -> int {
    if is_tagged(s) {
        skip(s, tags_end(s))
    } else {
        0
    }
}

pub open spec fn has_prefix(s: Seq<char>) -> bool {
    rest_start(s) < s.len() && s[rest_start(s)] == ':'
}

pub open spec fn prefix_end(s: Seq<char>) -> int {
    first_break(s, rest_start(s), s.len() as int)
}

/// The nickname of the line's source: its prefix up to the first `!`.
pub open spec fn nick(s: Seq<char>) -> Seq<char> {
    if has_prefix(s) {
        s.subrange(rest_start(s) + 1, first_of(s, '!', rest_start(s) + 1, prefix_end(s)))
    } else {
        seq![]
    }
}

pub open spec fn command_start(s: Seq<char>) -> int {
    if has_prefix(s) {
        skip(s, prefix_end(s))
    } else {
        rest_start(s)
    }
}

pub open spec fn command_end(s: Seq<char>) -> int {
    first_break(s, command_start(s), s.len() as int)
}

/// The command token of a line.
pub open spec fn command(s: Seq<char>) -> Seq<char> {
    s.subrange(command_start(s), command_end(s))
}

pub open spec fn target_start(s: Seq<char>) -> int {
    skip(s, command_end(s))
}

pub open spec fn target_end(s: Seq<char>) -> int {
    first_break(s, target_start(s), s.len() as int)
}

/// The first parameter of a line: a channel, or the receiver of a whisper.
pub open spec fn target(s: Seq<char>) -> Seq<char> {
    s.subrange(target_start(s), target_end(s))
}

pub open spec fn has_trailing(s: Seq<char>) -> bool {
    target_end(s) + 1 < s.len() && s[target_end(s)] == ' ' && s[target_end(s) + 1] == ':'
}

/// The trailing text after ` :`, without line ends; empty when there is none.
pub open spec fn trailing(s: Seq<char>) -> Seq<char> {
    if has_trailing(s) {
        strip_eol(s.subrange(target_end(s) + 2, s.len() as int))
    } else {
        seq![]
    }
}

pub open spec fn is_channel(t: Seq<char>) -> bool {
    t.len() > 0 && t[0] == '#'
}

/// The subscriber count of the `badge-info` tag, or `0`.
pub open spec fn sub_badge(s: Seq<char>) -> i32 {
    let b = tag_value(s, "badge-info"@);
    let pre = "subscriber/"@;
    if b.len() >= pre.len() && b.subrange(0, pre.len() as int) == pre {
        leading_number(b.subrange(pre.len() as int, b.len() as int))
    } else {
        0
    }
}

pub open spec fn is_anonymous_alias(login: Seq<char>) -> bool {
    login == "ananonymousgifter"@ || login == "ananonymouscheerer"@
}

pub open spec fn whisper_view(s: Seq<char>, ts: i64) -> MessageView {
    MessageView {
        command: "WHISPER"@,
        target: target(s),
        user_id: leading_number(tag_value(s, "user-id"@)),
        user_type: UserType::NotSet,
        username: nick(s),
        sub_count: 0,
        system_msg: seq![],
        user_msg: trailing(s),
        timestamp: ts,
    }
}

pub open spec fn privmsg_view(s: Seq<char>, ts: i64) -> MessageView {
    MessageView {
        command: "PRIVMSG"@,
        target: target(s),
        user_id: leading_number(tag_value(s, "user-id"@)),
        user_type: user_type_of(leading_number(tag_value(s, "mod"@))),
        username: nick(s),
        sub_count: sub_badge(s),
        system_msg: seq![],
        user_msg: trailing(s),
        timestamp: ts,
    }
}

pub open spec fn notice_view(s: Seq<char>, ts: i64) -> MessageView {
    let login = tag_value(s, "login"@);
    let anon = is_anonymous_alias(login);
    MessageView {
        command: "USERNOTICE"@,
        target: target(s),
        user_id: if anon {
            0
        } else {
            leading_number(tag_value(s, "user-id"@))
        },
        user_type: if anon {
            UserType::NotSet
        } else {
            user_type_of(leading_number(tag_value(s, "mod"@)))
        },
        username: if anon {
            "anonymous"@
        } else {
            login
        },
        sub_count: if anon {
            0
        } else {
            sub_badge(s)
        },
        system_msg: unescape_spaces(tag_value(s, "system-msg"@)),
        user_msg: trailing(s),
        timestamp: ts,
    }
}

/// The event that the line `s`, read at time `ts`, stands for.
pub open spec fn decode_line(s: Seq<char>, ts: i64) -> MessageView {
    let cmd = command(s);
    if cmd == "WHISPER"@ && has_trailing(s) {
        whisper_view(s, ts)
    } else if cmd == "PRIVMSG"@ && is_channel(target(s)) && has_trailing(s) {
        privmsg_view(s, ts)
    } else if cmd == "USERNOTICE"@ && is_channel(target(s)) {
        notice_view(s, ts)
    } else {
        unrecognized(ts)
    }
}

fn skip_at(n: usize, i: usize) -> (r: usize)
    requires
        i <= n,
    ensures
        r == (if i < n { i + 1 } else { n as int }),
{
    if i < n {
        i + 1
    } else {
        n
    }
}

/// The value of the first tag of `v` named `key`.
fn tag_value_of(v: &Vec<char>, key: &str) -> (r: Vec<char>)
    ensures
        r@ == tag_value(v@, key@),
{
    let n = v.len();
    let mut t: Vec<char> = Vec::new();
    t.push(';');
    if n > 0 && v[0] == '@' {
        let te = scan_break(v, 0, n);
        let mut i: usize = 1;
        while i < te
            invariant
                1 <= i <= te <= n == v@.len(),
                t@ == seq![';'] + v@.subrange(1, i as int),
            decreases te - i,
        {
            t.push(v[i]);
            assert(v@.subrange(1, i + 1) == v@.subrange(1, i as int).push(v@[i as int]));
            i = i + 1;
        }
    }
    t.push(';');
    assert(t@ =~= seq![';'] + tag_section(v@) + seq![';']);
    let k = collect_chars(key);
    let mut pat: Vec<char> = Vec::new();
    pat.push(';');
    let mut j: usize = 0;
    while j < k.len()
        invariant
            j <= k@.len(),
            pat@ == seq![';'] + k@.subrange(0, j as int),
        decreases k@.len() - j,
    {
        pat.push(k[j]);
        assert(k@.subrange(0, j + 1) == k@.subrange(0, j as int).push(k@[j as int]));
        j = j + 1;
    }
    pat.push('=');
    assert(k@.subrange(0, k@.len() as int) == k@);
    assert(pat@ =~= seq![';'] + key@ + seq!['=']);
    match find_from(&t, &pat, 0) {
        None => Vec::new(),
        Some(p) => {
            let tl = t.len();
            let st = p + pat.len();
            let e = scan_char(&t, ';', st, t.len());
            slice_of(&t, st, e)
        },
    }
}

/// The subscriber count of the `badge-info` tag of `v`.
fn sub_badge_of(v: &Vec<char>) -> (r: i32)
    ensures
        r == sub_badge(v@),
{
    let b = tag_value_of(v, "badge-info");
    let pre = collect_chars("subscriber/");
    if b.len() >= pre.len() && matches_at(&b, &pre, 0) {
        let rest = slice_of(&b, pre.len(), b.len());
        leading_number_of(&rest)
    } else {
        0
    }
}

impl Message {
    /// The event of a line that matched no grammar, read at `timestamp`.
    pub fn new(timestamp: i64) -> (r: Message)
        ensures
            r@ == unrecognized(timestamp),
    {
        Message {
            command: String::new(),
            target: String::new(),
            user_id: 0,
            user_type: UserType::NotSet,
            username: String::new(),
            sub_count: 0,
            system_msg: String::new(),
            user_msg: String::new(),
            timestamp,
        }
    }

    /// A copy of this event.
    pub fn duplicate(&self) -> (r: Message)
        ensures
            r@ == self@,
    {
        Message {
            command: self.command.clone(),
            target: self.target.clone(),
            user_id: self.user_id,
            user_type: self.user_type,
            username: self.username.clone(),
            sub_count: self.sub_count,
            system_msg: self.system_msg.clone(),
            user_msg: self.user_msg.clone(),
            timestamp: self.timestamp,
        }
    }

    #[verifier::rlimit(60)]
    /// Decodes the protocol line `raw`, read at `timestamp`. Never fails: a line that no
    /// grammar matches gives the unrecognized event.
    pub fn decode(raw: &str, timestamp: i64) -> (r: Message)
        ensures
            r@ == decode_line(raw@, timestamp),
    {
        let v = collect_chars(raw);
        let ghost s = v@;
        let n = v.len();
        let tagged = n > 0 && v[0] == '@';
        let te = if tagged {
            scan_break(&v, 0, n)
        } else {
            0
        };
        let rs = if tagged {
            skip_at(n, te)
        } else {
            0
        };
        assert(rs == rest_start(s));
        let prefixed = rs < n && v[rs] == ':';
        let pe = if prefixed {
            scan_break(&v, rs + 1, n)
        } else {
            rs
        };
        assert(prefixed ==> pe == prefix_end(s));
        let nick_text = if prefixed {
            let bang = scan_char(&v, '!', rs + 1, pe);
            string_of(&v, rs + 1, bang)
        } else {
            String::new()
        };
        assert(nick_text@ == nick(s));
        let cs = if prefixed {
            skip_at(n, pe)
        } else {
            rs
        };
        let ce = scan_break(&v, cs, n);
        let ts = skip_at(n, ce);
        let tend = scan_break(&v, ts, n);
        let trailing_here = n > 1 && tend < n - 1 && v[tend] == ' ' && v[tend + 1] == ':';
        let cmd = slice_of(&v, cs, ce);
        let tgt = slice_of(&v, ts, tend);
        let channel = tgt.len() > 0 && tgt[0] == '#';
        assert(cs == command_start(s));
        assert(ce == command_end(s));
        assert(ts == target_start(s));
        assert(tend == target_end(s));
        assert(trailing_here == has_trailing(s));
        assert(cmd@ == command(s));
        assert(tgt@ == target(s));
        assert(channel == is_channel(target(s)));
        if spells(&cmd, "WHISPER") && trailing_here {
            let user_id_text = tag_value_of(&v, "user-id");
            let r = Message {
                command: string_from(&cmd),
                target: string_from(&tgt),
                user_id: leading_number_of(&user_id_text),
                user_type: UserType::NotSet,
                username: nick_text,
                sub_count: 0,
                system_msg: String::new(),
                user_msg: strip_eol_of(&v, tend + 2, n),
                timestamp,
            };
            assert(r@ == whisper_view(s, timestamp));
            r
        } else if spells(&cmd, "PRIVMSG") && channel && trailing_here {
            let user_id_text = tag_value_of(&v, "user-id");
            let mod_text = tag_value_of(&v, "mod");
            let r = Message {
                command: string_from(&cmd),
                target: string_from(&tgt),
                user_id: leading_number_of(&user_id_text),
                user_type: check_user_type(leading_number_of(&mod_text)),
                username: nick_text,
                sub_count: sub_badge_of(&v),
                system_msg: String::new(),
                user_msg: strip_eol_of(&v, tend + 2, n),
                timestamp,
            };
            assert(r@ == privmsg_view(s, timestamp));
            r
        } else if spells(&cmd, "USERNOTICE") && channel {
            let login = tag_value_of(&v, "login");
            let system_text = tag_value_of(&v, "system-msg");
            let user_msg = if trailing_here {
                strip_eol_of(&v, tend + 2, n)
            } else {
                String::new()
            };
            let anon = spells(&login, "ananonymousgifter") || spells(&login, "ananonymouscheerer");
            let (user_id, user_type, username, sub_count) = if anon {
                (0i32, UserType::NotSet, String::from_str("anonymous"), 0i32)
            } else {
                let user_id_text = tag_value_of(&v, "user-id");
                let mod_text = tag_value_of(&v, "mod");
                (
                    leading_number_of(&user_id_text),
                    check_user_type(leading_number_of(&mod_text)),
                    string_from(&login),
                    sub_badge_of(&v),
                )
            };
            let r = Message {
                command: string_from(&cmd),
                target: string_from(&tgt),
                user_id,
                user_type,
                username,
                sub_count,
                system_msg: unescape_spaces_of(&system_text, 0, system_text.len()),
                user_msg,
                timestamp,
            };
            assert(system_text@.subrange(0, system_text@.len() as int) == system_text@);
            assert(r@ == notice_view(s, timestamp));
            r
        } else {
            Message::new(timestamp)
        }
    }

    /// Decodes the protocol line `raw`, stamped with the current time.
    pub fn parse_msg(raw: &str) -> (r: Message)
        ensures
            r@ == decode_line(raw@, r.timestamp),
    {
        let now = now_secs();
        Message::decode(raw, now)
    }
}

/// A notice whose login is an anonymous-gifter alias reads as the anonymous user, with no id,
/// no rank and no subscription, whatever the other tags of the line hold.
pub proof fn lemma_anonymous_gift(s: Seq<char>, ts: i64)
    requires
        command(s) == "USERNOTICE"@,
        is_channel(target(s)),
        is_anonymous_alias(tag_value(s, "login"@)),
    ensures
        decode_line(s, ts).user_id == 0,
        decode_line(s, ts).user_type == UserType::NotSet,
        decode_line(s, ts).username == "anonymous"@,
        decode_line(s, ts).sub_count == 0,
{
    reveal_strlit("USERNOTICE");
    reveal_strlit("WHISPER");
    reveal_strlit("PRIVMSG");
    assert(command(s) != "WHISPER"@) by {
        assert(command(s).len() != "WHISPER"@.len());
    }
    assert(command(s) != "PRIVMSG"@) by {
        assert(command(s).len() != "PRIVMSG"@.len());
    }
}

} // verus!
