use vstd::prelude::*;

use crate::clock::now_secs;
use crate::order::{lemma_precedes_irreflexive, precedes, sorted};

verus! {

/// The live settings of the bot.
/// `buffer` is the number of channel events that triggers a batched write; it stays positive.
/// `uptime` is the start time, in seconds since the epoch.
#[derive(Clone, Copy, Debug)]
pub struct BotState {
    pub buffer: usize,
    pub paused: bool,
    pub postgres: bool,
    pub uptime: i64,
}

/// The buffer that a bot tracking `count` channels starts with.
pub open spec fn initial_buffer(count: nat) -> nat {
    if count <= 10 {
        100
    } else {
        count * 10
    }
}

impl BotState {
    pub open spec fn wf(&self) -> bool {
        self.buffer > 0
    }

    /// The state of a bot that starts now with `count` channels; `postgres` says whether
    /// events are also written to the database.
    pub fn new(count: usize, postgres: bool) -> (r: BotState)
        requires
            count * 10 <= usize::MAX,
        ensures
            r.wf(),
            r.buffer == initial_buffer(count as nat),
            !r.paused,
            r.postgres == postgres,
    {
        let buffer = if count <= 10 {
            100
        } else {
            count * 10
        };
        BotState { buffer, paused: false, postgres, uptime: now_secs() }
    }
}

/// The stored configuration: credentials, administrators and the tracked channels.
/// An empty `postgres` turns database writes off.
pub struct BotConfig {
    pub nickname: String,
    pub oauth: String,
    pub server: String,
    pub postgres: String,
    pub admins: Vec<String>,
    pub channels: Vec<String>,
}

/// The character sequences that a vector of strings holds.
pub open spec fn views(v: Seq<String>) -> Seq<Seq<char>> {
    v.map_values(|s: String| s@)
}

/// A channel set: every name starts with `#`, and the names are in strictly ascending
/// character order, so none occurs twice.
pub open spec fn channel_set_ok(chs: Seq<Seq<char>>) -> bool {
    &&& forall|i: int| 0 <= i < chs.len() ==> (#[trigger] chs[i]).len() > 0 && chs[i][0] == '#'
    &&& sorted(chs)
}

impl BotConfig {
    pub open spec fn wf(&self) -> bool {
        channel_set_ok(views(self.channels@))
    }
}

/// No channel occurs twice in a channel set.
pub proof fn lemma_channel_set_distinct(chs: Seq<Seq<char>>, i: int, j: int)
    requires
        channel_set_ok(chs),
        0 <= i < j < chs.len(),
    ensures
        chs[i] != chs[j],
{
    assert(precedes(chs[i], chs[j]));
    lemma_precedes_irreflexive(chs[i]);
}

} // verus!
