use vstd::prelude::*;

use crate::clock::{date_text, format_date, format_stamp, stamp_text};
use crate::commands::push_text;
use crate::config::BotState;
use crate::message::{Message, MessageView, UserType};
use crate::text::{collect_chars, push_char, push_signed_decimal, signed_decimal};

verus! {

/// The text that the channel log receives for `m`, stamped `stamp`.
pub open spec fn msg_log_text(m: MessageView, stamp: Seq<char>) -> Seq<char> {
    if m.system_msg.len() == 0 {
        let tag = if m.user_type == UserType::Moderator {
            "[Moderator]"@
        } else {
            seq![]
        };
        stamp + " - "@ + tag + "["@ + signed_decimal(m.sub_count as int) + "] "@ + m.username
            + ": "@ + m.user_msg + "\n"@
    } else if m.user_msg.len() > 0 {
        stamp + " - [Notice] "@ + m.system_msg + "\n"@ + stamp + " - [Subscription Message] "@
            + m.user_msg + "\n"@
    } else {
        stamp + " - [Notice] "@ + m.system_msg + "\n"@
    }
}

/// The text that the channel log receives for `msg`, given its time stamp as text.
pub fn format_msg_log(msg: &Message, stamp: &String) -> (r: String)
    ensures
        r@ == msg_log_text(msg@, stamp@),
{
    let mut t = String::new();
    if msg.system_msg.as_str().unicode_len() == 0 {
        push_text(&mut t, stamp.as_str());
        push_text(&mut t, " - ");
        if msg.user_type == UserType::Moderator {
            push_text(&mut t, "[Moderator]");
        }
        push_text(&mut t, "[");
        push_signed_decimal(&mut t, msg.sub_count);
        push_text(&mut t, "] ");
        push_text(&mut t, msg.username.as_str());
        push_text(&mut t, ": ");
        push_text(&mut t, msg.user_msg.as_str());
        push_text(&mut t, "\n");
    } else if msg.user_msg.as_str().unicode_len() > 0 {
        push_text(&mut t, stamp.as_str());
        push_text(&mut t, " - [Notice] ");
        push_text(&mut t, msg.system_msg.as_str());
        push_text(&mut t, "\n");
        push_text(&mut t, stamp.as_str());
        push_text(&mut t, " - [Subscription Message] ");
        push_text(&mut t, msg.user_msg.as_str());
        push_text(&mut t, "\n");
    } else {
        push_text(&mut t, stamp.as_str());
        push_text(&mut t, " - [Notice] ");
        push_text(&mut t, msg.system_msg.as_str());
        push_text(&mut t, "\n");
    }
    assert(t@ =~= msg_log_text(msg@, stamp@));
    t
}

/// The text that the channel log receives for `msg`.
pub fn msg_log(msg: &Message) -> (r: String)
    ensures
        r@ == msg_log_text(msg@, stamp_text(msg.timestamp)),
{
    let stamp = format_stamp(msg.timestamp);
    format_msg_log(msg, &stamp)
}

/// The line that the administrator log receives for the whisper `m`, stamped `stamp`.
pub open spec fn admin_log_text(m: MessageView, stamp: Seq<char>) -> Seq<char> {
    stamp + " - "@ + m.username + ": "@ + m.user_msg + "\n"@
}

/// The line that the administrator log receives for `msg`, given its time stamp as text.
pub fn format_admin_log(msg: &Message, stamp: &String) -> (r: String)
    ensures
        r@ == admin_log_text(msg@, stamp@),
{
    let mut t = String::new();
    push_text(&mut t, stamp.as_str());
    push_text(&mut t, " - ");
    push_text(&mut t, msg.username.as_str());
    push_text(&mut t, ": ");
    push_text(&mut t, msg.user_msg.as_str());
    push_text(&mut t, "\n");
    assert(t@ =~= admin_log_text(msg@, stamp@));
    t
}

/// The line that the administrator log receives for `msg`.
pub fn admin_log(msg: &Message) -> (r: String)
    ensures
        r@ == admin_log_text(msg@, stamp_text(msg.timestamp)),
{
    let stamp = format_stamp(msg.timestamp);
    format_admin_log(msg, &stamp)
}

/// `s` without its `#` characters.
pub open spec fn without_hash(s: Seq<char>) -> Seq<char>
    decreases s.len(),
{
    if s.len() == 0 {
        s
    } else if s.last() == '#' {
        without_hash(s.drop_last())
    } else {
        without_hash(s.drop_last()).push(s.last())
    }
}

/// The directory name of a channel: its name without `#`.
pub fn channel_dir(target: &String) -> (r: String)
    ensures
        r@ == without_hash(target@),
{
    let v = collect_chars(target.as_str());
    let mut r = String::new();
    let mut i: usize = 0;
    while i < v.len()
        invariant
            i <= v@.len(),
            r@ == without_hash(v@.subrange(0, i as int)),
        decreases v@.len() - i,
    {
        assert(v@.subrange(0, i + 1).drop_last() == v@.subrange(0, i as int));
        if v[i] != '#' {
            push_char(&mut r, v[i]);
        }
        i = i + 1;
    }
    assert(v@.subrange(0, v@.len() as int) == v@);
    r
}

/// The file of the channel `target` for the day `date`.
pub open spec fn log_path_text(target: Seq<char>, date: Seq<char>) -> Seq<char> {
    "logs/"@ + without_hash(target) + "/"@ + date + ".txt"@
}

/// The file of the channel `target` for the day written `date`.
pub fn format_log_path(target: &String, date: &String) -> (r: String)
    ensures
        r@ == log_path_text(target@, date@),
{
    let mut t = String::new();
    push_text(&mut t, "logs/");
    let dir = channel_dir(target);
    push_text(&mut t, dir.as_str());
    push_text(&mut t, "/");
    push_text(&mut t, date.as_str());
    push_text(&mut t, ".txt");
    assert(t@ =~= log_path_text(target@, date@));
    t
}

/// The file that receives `msg`: one per channel and UTC day.
pub fn log_path(msg: &Message) -> (r: String)
    ensures
        r@ == log_path_text(msg.target@, date_text(msg.timestamp)),
{
    let date = format_date(msg.timestamp);
    format_log_path(&msg.target, &date)
}

/// The administrator log file for the day written `date`.
pub open spec fn admin_path_text(date: Seq<char>) -> Seq<char> {
    "logs/admin/"@ + date + ".txt"@
}

/// The administrator log file of the day of `msg`.
pub fn admin_log_path(msg: &Message) -> (r: String)
    ensures
        r@ == admin_path_text(date_text(msg.timestamp)),
{
    let date = format_date(msg.timestamp);
    let mut t = String::new();
    push_text(&mut t, "logs/admin/");
    push_text(&mut t, date.as_str());
    push_text(&mut t, ".txt");
    assert(t@ =~= admin_path_text(date@));
    t
}

pub open spec fn messages(v: Seq<Message>) -> Seq<MessageView> {
    v.map_values(|m: Message| m@)
}

/// Whether a batch of `len` events is due for writing under the threshold `buffer`.
pub open spec fn flush_due(len: nat, buffer: nat) -> bool {
    len >= buffer
}

/// Channel events held back for one batched database write.
pub struct BatchWriter {
    pub pending: Vec<Message>,
}

impl BatchWriter {
    /// An empty batch.
    pub fn new() -> (r: BatchWriter)
        ensures
            r.pending@.len() == 0,
    {
        BatchWriter { pending: Vec::new() }
    }

    /// Adds `msg` to the batch; the result says whether the batch has reached `buffer` events
    /// and is due for writing.
    pub fn accumulate(&mut self, msg: Message, buffer: usize) -> (flush: bool)
        ensures
            messages(final(self).pending@) == messages(old(self).pending@).push(msg@),
            final(self).pending@.len() == old(self).pending@.len() + 1,
            flush == flush_due(final(self).pending@.len(), buffer as nat),
    {
        self.pending.push(msg);
        assert(messages(self.pending@) =~= messages(old(self).pending@).push(msg@));
        self.pending.len() >= buffer
    }

    /// Records how a write of the batch ended: a written batch is emptied, a failed one is
    /// kept as it was.
    pub fn complete_flush(&mut self, ok: bool)
        ensures
            ok ==> final(self).pending@.len() == 0,
            !ok ==> messages(final(self).pending@) == messages(old(self).pending@),
    {
        if ok {
            self.pending.clear();
        }
    }
}

/// What to do with a decoded event.
#[derive(Clone, Copy, Debug, PartialEq, Eq, Structural)]
pub enum Route {
    /// The line matched no grammar.
    Ignore,
    /// A whisper: hand it to the command dispatcher.
    Command,
    /// A channel event while logging is paused.
    Drop,
    /// A channel event to append to its text log; `flush` says whether the batch is due.
    Log { flush: bool },
}

/// The route of the event `m`, with `pending` events batched before it.
pub open spec fn route_of(state: BotState, pending: nat, m: MessageView) -> Route {
    if m.command.len() == 0 {
        Route::Ignore
    } else if m.command == "WHISPER"@ {
        Route::Command
    } else if state.paused {
        Route::Drop
    } else if state.postgres {
        Route::Log { flush: flush_due(pending + 1, state.buffer as nat) }
    } else {
        Route::Log { flush: false }
    }
}

/// Whether the event `m` joins the batch.
pub open spec fn batched(state: BotState, m: MessageView) -> bool {
    m.command.len() > 0 && m.command != "WHISPER"@ && !state.paused && state.postgres
}

/// Routes the decoded event `msg`: whispers go to the dispatcher whatever the pause state;
/// other events are dropped while paused, and otherwise go to the text log and, when the
/// database is on, to the batch.
pub fn route(state: &BotState, writer: &mut BatchWriter, msg: &Message) -> (r: Route)
    ensures
        r == route_of(*state, old(writer).pending@.len(), msg@),
        batched(*state, msg@) ==> messages(final(writer).pending@) == messages(
            old(writer).pending@,
        ).push(msg@),
        !batched(*state, msg@) ==> messages(final(writer).pending@) == messages(
            old(writer).pending@,
        ),
{
    let cmd = collect_chars(msg.command.as_str());
    if cmd.len() == 0 {
        return Route::Ignore;
    }
    if crate::text::spells(&cmd, "WHISPER") {
        return Route::Command;
    }
    if state.paused {
        return Route::Drop;
    }
    if state.postgres {
        let flush = writer.accumulate(msg.duplicate(), state.buffer);
        Route::Log { flush }
    } else {
        Route::Log { flush: false }
    }
}

/// While logging is paused, a channel event is dropped and leaves the batch alone, and a
/// whisper still reaches the command dispatcher.
pub proof fn lemma_pause(state: BotState, pending: nat, m: MessageView)
    requires
        state.paused,
        m.command.len() > 0,
    ensures
        m.command != "WHISPER"@ ==> route_of(state, pending, m) == Route::Drop,
        m.command == "WHISPER"@ ==> route_of(state, pending, m) == Route::Command,
        !batched(state, m),
{
}

/// Starting below the threshold, one more event makes the batch due exactly when the count
/// reaches the threshold: never before it, and first at it.
pub proof fn lemma_flush_first_reach(before: nat, buffer: nat)
    requires
        before < buffer,
    ensures
        flush_due(before + 1, buffer) <==> before + 1 == buffer,
        forall|k: nat| k < buffer ==> !flush_due(k, buffer),
{
}

} // verus!
