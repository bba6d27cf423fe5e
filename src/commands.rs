use vstd::prelude::*;

use crate::clock::{humanize, humanized, now_secs};
use crate::config::{channel_set_ok, views, BotConfig, BotState};
use crate::message::Message;
use crate::order::{find_insert_pos, insert_sorted, lemma_insert_sorted, precedes};
use crate::text::{
    all_digits, collect_chars, decimal, digits_value, digits_value_of, is_digit, push_char,
    push_decimal, scan_digits,
};

verus! {

/// A channel name with a leading `#`.
pub open spec fn normalize(c: Seq<char>) -> Seq<char> {
    if c.len() > 0 && c[0] == '#' {
        c
    } else {
        seq!['#'] + c
    }
}

/// Normalizing twice gives what normalizing once gives, and the result starts with `#`.
pub proof fn lemma_normalize_idempotent(c: Seq<char>)
    ensures
        normalize(normalize(c)) == normalize(c),
        normalize(c).len() > 0,
        normalize(c)[0] == '#',
{
}

/// Appends `t` to `s`.
pub fn push_text(s: &mut String, t: &str)
    ensures
        final(s)@ == old(s)@ + t@,
{
    s.append(t);
}

fn normalize_one(c: &String) -> (r: String)
    ensures
        r@ == normalize(c@),
{
    let s = c.as_str();
    if s.unicode_len() > 0 && s.get_char(0) == '#' {
        c.clone()
    } else {
        let mut r = String::new();
        push_char(&mut r, '#');
        push_text(&mut r, s);
        r
    }
}

/// Each channel name with a leading `#`.
pub fn check_prefix(channels: Vec<String>) -> (r: Vec<String>)
    ensures
        views(r@) == normalize_all(views(channels@)),
{
    let mut r: Vec<String> = Vec::new();
    let mut i: usize = 0;
    while i < channels.len()
        invariant
            i <= channels@.len(),
            r@.len() == i,
            forall|j: int| 0 <= j < i ==> (#[trigger] r@[j])@ == normalize(channels@[j]@),
        decreases channels@.len() - i,
    {
        let c = normalize_one(&channels[i]);
        r.push(c);
        i = i + 1;
    }
    assert(views(r@) =~= normalize_all(views(channels@)));
    r
}

/// Each of `chs` with a leading `#`.
pub open spec fn normalize_all(chs: Seq<Seq<char>>) -> Seq<Seq<char>> {
    chs.map_values(|c: Seq<char>| normalize(c))
}

/// The words `w`, separated by single spaces.
pub open spec fn join_words(w: Seq<Seq<char>>) -> Seq<char>
    decreases w.len(),
{
    if w.len() == 0 {
        seq![]
    } else if w.len() == 1 {
        w[0]
    } else {
        join_words(w.drop_last()) + seq![' '] + w.last()
    }
}

/// The channels `channels[lo..hi]`, separated by single spaces.
pub fn format_channels(channels: &Vec<String>, lo: usize, hi: usize) -> (r: String)
    requires
        lo <= hi <= channels@.len(),
    ensures
        r@ == join_words(views(channels@.subrange(lo as int, hi as int))),
{
    let mut r = String::new();
    let mut i = lo;
    while i < hi
        invariant
            lo <= i <= hi <= channels@.len(),
            r@ == join_words(views(channels@.subrange(lo as int, i as int))),
        decreases hi - i,
    {
        let ghost w = views(channels@.subrange(lo as int, i + 1));
        assert(w.drop_last() =~= views(channels@.subrange(lo as int, i as int)));
        if i > lo {
            push_char(&mut r, ' ');
        }
        push_text(&mut r, channels[i].as_str());
        assert(w.last() == channels@[i as int]@);
        assert(r@ =~= join_words(w));
        i = i + 1;
    }
    r
}

/// Whether `v` holds a string with the characters of `s`.
pub fn contains_text(v: &Vec<String>, s: &String) -> (r: bool)
    ensures
        r == views(v@).contains(s@),
{
    let mut i: usize = 0;
    while i < v.len()
        invariant
            i <= v@.len(),
            forall|j: int| 0 <= j < i ==> v@[j]@ != s@,
        decreases v@.len() - i,
    {
        if v[i] == *s {
            assert(views(v@)[i as int] == s@);
            return true;
        }
        i = i + 1;
    }
    assert forall|j: int| 0 <= j < views(v@).len() implies views(v@)[j] != s@ by {
        assert(views(v@)[j] == v@[j]@);
    }
    false
}

/// `chs` without any entry equal to `c`, order kept.
pub open spec fn remove_all(chs: Seq<Seq<char>>, c: Seq<char>) -> Seq<Seq<char>>
    decreases chs.len(),
{
    if chs.len() == 0 {
        chs
    } else if chs.last() == c {
        remove_all(chs.drop_last(), c)
    } else {
        remove_all(chs.drop_last(), c).push(chs.last())
    }
}

fn without(v: &Vec<String>, s: &String) -> (r: Vec<String>)
    ensures
        views(r@) == remove_all(views(v@), s@),
{
    let mut r: Vec<String> = Vec::new();
    let mut i: usize = 0;
    while i < v.len()
        invariant
            i <= v@.len(),
            views(r@) == remove_all(views(v@.subrange(0, i as int)), s@),
        decreases v@.len() - i,
    {
        let ghost w = views(v@.subrange(0, i + 1));
        assert(w.drop_last() =~= views(v@.subrange(0, i as int)));
        assert(w.last() == v@[i as int]@);
        if v[i] != *s {
            r.push(v[i].clone());
            assert(views(r@) =~= remove_all(w, s@));
        }
        i = i + 1;
    }
    assert(v@.subrange(0, v@.len() as int) == v@);
    r
}

/// What the dispatcher asks the transport and the store to do, in order.
pub enum Action {
    /// Send this raw line.
    Send(String),
    /// Join this channel.
    Join(String),
    /// Leave this channel.
    Part(String),
    /// Store the configuration.
    SaveConfig,
    /// End the process at once.
    Shutdown,
}

pub ghost enum ActionView {
    Send(Seq<char>),
    Join(Seq<char>),
    Part(Seq<char>),
    SaveConfig,
    Shutdown,
}

impl View for Action {
    type V = ActionView;

    open spec fn view(&self) -> ActionView {
        match self {
            Action::Send(s) => ActionView::Send(s@),
            Action::Join(s) => ActionView::Join(s@),
            Action::Part(s) => ActionView::Part(s@),
            Action::SaveConfig => ActionView::SaveConfig,
            Action::Shutdown => ActionView::Shutdown,
        }
    }
}

pub open spec fn action_views(v: Seq<Action>) -> Seq<ActionView> {
    v.map_values(|a: Action| a@)
}

/// The raw line that whispers `text` to `admin` through the bot `nick`.
pub open spec fn whisper_line(nick: Seq<char>, admin: Seq<char>, text: Seq<char>) -> Seq<char> {
    "PRIVMSG "@ + nick + " :/w "@ + admin + " "@ + text
}

/// The action that whispers `text` to `admin` through the bot `nick`.
pub fn reply(nick: &String, admin: &String, text: &String) -> (r: Action)
    ensures
        r@ == ActionView::Send(whisper_line(nick@, admin@, text@)),
{
    let mut line = String::new();
    push_text(&mut line, "PRIVMSG ");
    push_text(&mut line, nick.as_str());
    push_text(&mut line, " :/w ");
    push_text(&mut line, admin.as_str());
    push_text(&mut line, " ");
    push_text(&mut line, text.as_str());
    assert(line@ =~= whisper_line(nick@, admin@, text@));
    Action::Send(line)
}

/// The buffer after one more channel: ten more, at most `usize::MAX`.
pub open spec fn raise(b: usize) -> usize {
    if b <= usize::MAX - 10 {
        (b + 10) as usize
    } else {
        usize::MAX
    }
}

/// The buffer after one channel less: ten less, at least one.
pub open spec fn lower(b: usize) -> usize {
    if b > 10 {
        (b - 10) as usize
    } else {
        1
    }
}

/// Adds `c` to the channel list `chs` at its place in character order, unless it is there.
pub fn add_channel(chs: &mut Vec<String>, c: &String) -> (added: bool)
    ensures
        added == !views(old(chs)@).contains(c@),
        added ==> views(final(chs)@) == insert_sorted(views(old(chs)@), c@),
        !added ==> views(final(chs)@) == views(old(chs)@),
{
    if contains_text(chs, c) {
        return false;
    }
    let k = find_insert_pos(chs, c);
    chs.insert(k, c.clone());
    assert(views(chs@) =~= insert_sorted(views(old(chs)@), c@));
    true
}

/// The channel set that the names `channels` make: each with a leading `#`, each once, in
/// character order.
pub fn channel_set(channels: Vec<String>) -> (r: Vec<String>)
    ensures
        views(r@) == join_fold(seq![], 0, normalize_all(views(channels@))).0,
        channel_set_ok(views(r@)),
{
    let args = check_prefix(channels);
    let ghost norm = views(args@);
    let mut r: Vec<String> = Vec::new();
    let mut i: usize = 0;
    while i < args.len()
        invariant
            i <= args@.len(),
            norm == views(args@),
            views(r@) == join_fold(seq![], 0, norm.subrange(0, i as int)).0,
        decreases args@.len() - i,
    {
        assert(norm.subrange(0, i + 1).drop_last() == norm.subrange(0, i as int));
        assert(norm.subrange(0, i + 1).last() == args@[i as int]@);
        add_channel(&mut r, &args[i]);
        i = i + 1;
    }
    assert(norm.subrange(0, args@.len() as int) == norm);
    proof {
        lemma_join_keeps_set(seq![], 0, views(channels@));
    }
    r
}

/// Joining the channels `args` in turn: the channel set, the buffer, and the channels that
/// were newly joined. A channel already tracked is passed over.
pub open spec fn join_fold(chs: Seq<Seq<char>>, buf: usize, args: Seq<Seq<char>>) -> (
    Seq<Seq<char>>,
    usize,
    Seq<Seq<char>>,
)
    decreases args.len(),
{
    if args.len() == 0 {
        (chs, buf, seq![])
    } else {
        let prev = join_fold(chs, buf, args.drop_last());
        let a = args.last();
        if prev.0.contains(a) {
            prev
        } else {
            (insert_sorted(prev.0, a), raise(prev.1), prev.2.push(a))
        }
    }
}

/// Leaving the channels `args` in turn: the channel set, the buffer, and the channels that
/// were left. A channel not tracked is passed over.
pub open spec fn part_fold(chs: Seq<Seq<char>>, buf: usize, args: Seq<Seq<char>>) -> (
    Seq<Seq<char>>,
    usize,
    Seq<Seq<char>>,
)
    decreases args.len(),
{
    if args.len() == 0 {
        (chs, buf, seq![])
    } else {
        let prev = part_fold(chs, buf, args.drop_last());
        let a = args.last();
        if prev.0.contains(a) {
            (remove_all(prev.0, a), lower(prev.1), prev.2.push(a))
        } else {
            prev
        }
    }
}

/// The actions of a join or part: one per channel, a whisper naming them when there are any,
/// and storing the configuration.
pub open spec fn membership_actions(
    joining: bool,
    nick: Seq<char>,
    admin: Seq<char>,
    done: Seq<Seq<char>>,
) -> Seq<ActionView> {
    let each = if joining {
        done.map_values(|c: Seq<char>| ActionView::Join(c))
    } else {
        done.map_values(|c: Seq<char>| ActionView::Part(c))
    };
    let label = if joining {
        "Joined: "@
    } else {
        "Left: "@
    };
    let note = if done.len() > 0 {
        seq![ActionView::Send(whisper_line(nick, admin, label + join_words(done)))]
    } else {
        seq![]
    };
    each + note + seq![ActionView::SaveConfig]
}

/// The fields that a join or part leaves alone.
pub open spec fn same_settings(a: &BotConfig, b: &BotConfig) -> bool {
    &&& a.nickname@ == b.nickname@
    &&& a.oauth@ == b.oauth@
    &&& a.server@ == b.server@
    &&& a.postgres@ == b.postgres@
    &&& views(a.admins@) == views(b.admins@)
}

/// The effect of joining the channels `args` on behalf of `admin`.
pub open spec fn join_post(
    os: BotState,
    ns: BotState,
    oc: &BotConfig,
    nc: &BotConfig,
    admin: Seq<char>,
    args: Seq<Seq<char>>,
    acts: Seq<ActionView>,
) -> bool {
    let f = join_fold(views(oc.channels@), os.buffer, normalize_all(args));
    &&& views(nc.channels@) == f.0
    &&& ns.buffer == f.1
    &&& acts == membership_actions(true, oc.nickname@, admin, f.2)
    &&& ns.paused == os.paused
    &&& ns.postgres == os.postgres
    &&& ns.uptime == os.uptime
    &&& same_settings(nc, oc)
}

/// The effect of leaving the channels `args` on behalf of `admin`.
pub open spec fn part_post(
    os: BotState,
    ns: BotState,
    oc: &BotConfig,
    nc: &BotConfig,
    admin: Seq<char>,
    args: Seq<Seq<char>>,
    acts: Seq<ActionView>,
) -> bool {
    let f = part_fold(views(oc.channels@), os.buffer, normalize_all(args));
    &&& views(nc.channels@) == f.0
    &&& ns.buffer == f.1
    &&& acts == membership_actions(false, oc.nickname@, admin, f.2)
    &&& ns.paused == os.paused
    &&& ns.postgres == os.postgres
    &&& ns.uptime == os.uptime
    &&& same_settings(nc, oc)
}

/// Joins each channel of `channels` (given a leading `#`) that is not tracked yet: adds it to
/// the set and raises the buffer by ten.
pub fn join(state: &mut BotState, config: &mut BotConfig, admin: &String, channels: Vec<String>) -> (r: Vec<Action>)
    ensures
        join_post(*old(state), *final(state), old(config), final(config), admin@, views(channels@), action_views(r@)),
        old(state).wf() ==> final(state).wf(),
        old(config).wf() ==> final(config).wf(),
{
    let args = check_prefix(channels);
    let ghost norm = views(args@);
    let ghost chs0 = views(config.channels@);
    let ghost buf0 = state.buffer;
    let mut done: Vec<String> = Vec::new();
    let mut actions: Vec<Action> = Vec::new();
    let mut i: usize = 0;
    while i < args.len()
        invariant
            i <= args@.len(),
            norm == views(args@),
            ({
                let f = join_fold(chs0, buf0, norm.subrange(0, i as int));
                &&& views(config.channels@) == f.0
                &&& state.buffer == f.1
                &&& views(done@) == f.2
            }),
            actions@.len() == done@.len(),
            forall|j: int| 0 <= j < done@.len() ==> (#[trigger] actions@[j])@ == ActionView::Join(done@[j]@),
            state.paused == old(state).paused,
            state.postgres == old(state).postgres,
            state.uptime == old(state).uptime,
            same_settings(config, old(config)),
        decreases args@.len() - i,
    {
        assert(norm.subrange(0, i + 1).drop_last() == norm.subrange(0, i as int));
        assert(norm.subrange(0, i + 1).last() == args@[i as int]@);
        let c = &args[i];
        if add_channel(&mut config.channels, c) {
            state.buffer = if state.buffer <= usize::MAX - 10 {
                state.buffer + 10
            } else {
                usize::MAX
            };
            done.push(c.clone());
            actions.push(Action::Join(c.clone()));
            assert(views(done@) =~= views(done@.drop_last()).push(c@));
        }
        i = i + 1;
    }
    assert(norm.subrange(0, args@.len() as int) == norm);
    proof {
        assert(norm == normalize_all(views(channels@)));
    }
    let ghost f = join_fold(chs0, buf0, norm);
    proof {
        if old(config).wf() {
            lemma_join_keeps_set(chs0, buf0, views(channels@));
        }
        lemma_join_buffer(chs0, buf0, norm);
    }
    let ghost n0 = actions@.len();
    assert(action_views(actions@) =~= f.2.map_values(|c: Seq<char>| ActionView::Join(c)));
    if done.len() > 0 {
        let mut text = String::new();
        push_text(&mut text, "Joined: ");
        let list = format_channels(&done, 0, done.len());
        push_text(&mut text, list.as_str());
        assert(done@.subrange(0, done@.len() as int) == done@);
        actions.push(reply(&config.nickname, admin, &text));
    }
    actions.push(Action::SaveConfig);
    assert(action_views(actions@) =~= membership_actions(true, old(config).nickname@, admin@, f.2));
    actions
}

/// Leaves each channel of `channels` (given a leading `#`) that is tracked: takes it out of
/// the set and lowers the buffer by ten, to no less than one.
pub fn part(state: &mut BotState, config: &mut BotConfig, admin: &String, channels: Vec<String>) -> (r: Vec<Action>)
    ensures
        part_post(*old(state), *final(state), old(config), final(config), admin@, views(channels@), action_views(r@)),
        old(state).wf() ==> final(state).wf(),
        old(config).wf() ==> final(config).wf(),
{
    let args = check_prefix(channels);
    let ghost norm = views(args@);
    let ghost chs0 = views(config.channels@);
    let ghost buf0 = state.buffer;
    let mut done: Vec<String> = Vec::new();
    let mut actions: Vec<Action> = Vec::new();
    let mut i: usize = 0;
    while i < args.len()
        invariant
            i <= args@.len(),
            norm == views(args@),
            ({
                let f = part_fold(chs0, buf0, norm.subrange(0, i as int));
                &&& views(config.channels@) == f.0
                &&& state.buffer == f.1
                &&& views(done@) == f.2
            }),
            actions@.len() == done@.len(),
            forall|j: int| 0 <= j < done@.len() ==> (#[trigger] actions@[j])@ == ActionView::Part(done@[j]@),
            state.paused == old(state).paused,
            state.postgres == old(state).postgres,
            state.uptime == old(state).uptime,
            same_settings(config, old(config)),
        decreases args@.len() - i,
    {
        assert(norm.subrange(0, i + 1).drop_last() == norm.subrange(0, i as int));
        assert(norm.subrange(0, i + 1).last() == args@[i as int]@);
        let c = &args[i];
        if contains_text(&config.channels, c) {
            let kept = without(&config.channels, c);
            config.channels = kept;
            state.buffer = if state.buffer > 10 {
                state.buffer - 10
            } else {
                1
            };
            done.push(c.clone());
            actions.push(Action::Part(c.clone()));
            assert(views(done@) =~= views(done@.drop_last()).push(c@));
        }
        i = i + 1;
    }
    assert(norm.subrange(0, args@.len() as int) == norm);
    let ghost f = part_fold(chs0, buf0, norm);
    proof {
        assert(norm == normalize_all(views(channels@)));
        if old(config).wf() {
            lemma_part_keeps_set(chs0, buf0, views(channels@));
        }
        lemma_part_buffer(chs0, buf0, norm);
    }
    assert(action_views(actions@) =~= f.2.map_values(|c: Seq<char>| ActionView::Part(c)));
    if done.len() > 0 {
        let mut text = String::new();
        push_text(&mut text, "Left: ");
        let list = format_channels(&done, 0, done.len());
        push_text(&mut text, list.as_str());
        assert(done@.subrange(0, done@.len() as int) == done@);
        actions.push(reply(&config.nickname, admin, &text));
    }
    actions.push(Action::SaveConfig);
    assert(action_views(actions@) =~= membership_actions(false, old(config).nickname@, admin@, f.2));
    actions
}

/// The reply lines that group `chs` by forty-five, each group separated by single spaces.
pub open spec fn chunk_lines(chs: Seq<Seq<char>>) -> Seq<Seq<char>>
    decreases chs.len(),
{
    if chs.len() == 0 {
        seq![]
    } else if chs.len() <= 45 {
        seq![join_words(chs)]
    } else {
        seq![join_words(chs.subrange(0, 45))] + chunk_lines(chs.subrange(45, chs.len() as int))
    }
}

/// The texts that report the channel set `chs`.
pub open spec fn list_texts(chs: Seq<Seq<char>>) -> Seq<Seq<char>> {
    if chs.len() == 0 {
        seq!["Bot is logging 0 channels"@]
    } else if chs.len() == 1 {
        seq!["Bot is logging 1 channel: "@ + chs[0]]
    } else {
        seq!["Bot is logging "@ + decimal(chs.len()) + " channels:"@] + chunk_lines(chs)
    }
}

/// Whispers of each text of `texts` to `admin`.
pub open spec fn whispers(nick: Seq<char>, admin: Seq<char>, texts: Seq<Seq<char>>) -> Seq<ActionView> {
    texts.map_values(|t: Seq<char>| ActionView::Send(whisper_line(nick, admin, t)))
}

fn whisper_all(nick: &String, admin: &String, texts: &Vec<String>) -> (r: Vec<Action>)
    ensures
        action_views(r@) == whispers(nick@, admin@, views(texts@)),
{
    let mut r: Vec<Action> = Vec::new();
    let mut i: usize = 0;
    while i < texts.len()
        invariant
            i <= texts@.len(),
            r@.len() == i,
            forall|j: int| 0 <= j < i ==> (#[trigger] r@[j])@ == ActionView::Send(whisper_line(nick@, admin@, texts@[j]@)),
        decreases texts@.len() - i,
    {
        r.push(reply(nick, admin, &texts[i]));
        i = i + 1;
    }
    assert(action_views(r@) =~= whispers(nick@, admin@, views(texts@)));
    r
}

/// Reports the tracked channels to `admin`: their number, and their names in lines of at most
/// forty-five.
pub fn list(config: &BotConfig, admin: &String) -> (r: Vec<Action>)
    ensures
        action_views(r@) == whispers(config.nickname@, admin@, list_texts(views(config.channels@))),
{
    let chs = &config.channels;
    let n = chs.len();
    let ghost all = views(chs@);
    let mut texts: Vec<String> = Vec::new();
    if n == 0 {
        texts.push(String::from_str("Bot is logging 0 channels"));
    } else if n == 1 {
        let mut t = String::new();
        push_text(&mut t, "Bot is logging 1 channel: ");
        push_text(&mut t, chs[0].as_str());
        texts.push(t);
    } else {
        let mut t = String::new();
        push_text(&mut t, "Bot is logging ");
        push_decimal(&mut t, n as u64);
        push_text(&mut t, " channels:");
        assert(t@ =~= "Bot is logging "@ + decimal(all.len()) + " channels:"@);
        texts.push(t);
        assert(all.subrange(0, n as int) =~= all);
        assert(views(texts@) =~= seq!["Bot is logging "@ + decimal(all.len()) + " channels:"@]);
        let mut i: usize = 0;
        while i < n
            invariant
                i <= n == chs@.len(),
                all == views(chs@),
                n > 1,
                views(texts@) + chunk_lines(all.subrange(i as int, n as int)) == list_texts(all),
            decreases n - i,
        {
            let ghost rest = all.subrange(i as int, n as int);
            let ghost before = views(texts@);
            if n - i <= 45 {
                let line = format_channels(chs, i, n);
                assert(views(chs@.subrange(i as int, n as int)) =~= rest);
                texts.push(line);
                assert(views(texts@) =~= before.push(join_words(rest)));
                assert(all.subrange(n as int, n as int).len() == 0);
                assert(views(texts@) + chunk_lines(all.subrange(n as int, n as int)) =~= before
                    + chunk_lines(rest));
                i = n;
            } else {
                let line = format_channels(chs, i, i + 45);
                assert(views(chs@.subrange(i as int, i + 45)) =~= rest.subrange(0, 45));
                assert(rest.subrange(45, rest.len() as int) =~= all.subrange(i + 45, n as int));
                texts.push(line);
                assert(views(texts@) =~= before.push(join_words(rest.subrange(0, 45))));
                assert(views(texts@) + chunk_lines(all.subrange(i + 45, n as int)) =~= before
                    + chunk_lines(rest));
                i = i + 45;
            }
        }
        assert(all.subrange(n as int, n as int).len() == 0);
        assert(views(texts@) =~= views(texts@) + chunk_lines(all.subrange(n as int, n as int)));
    }
    assert(views(texts@) =~= list_texts(all));
    whisper_all(&config.nickname, admin, &texts)
}

/// The uptime report: how long the bot has run, and its buffer.
pub open spec fn uptime_text(span: Seq<char>, buffer: usize) -> Seq<char> {
    "Bot uptime: "@ + span + " | Bot buffer: "@ + decimal(buffer as nat)
}

/// The seconds from `start` to `now`, or zero when `now` comes first.
pub open spec fn elapsed(start: i64, now: i64) -> u64 {
    if now > start {
        (now - start) as u64
    } else {
        0
    }
}

/// Whispers the uptime report to `admin`, given the span already put into words.
pub fn uptime_reply(state: &BotState, config: &BotConfig, admin: &String, span: &String) -> (r: Action)
    ensures
        r@ == ActionView::Send(whisper_line(config.nickname@, admin@, uptime_text(span@, state.buffer))),
{
    let mut t = String::new();
    push_text(&mut t, "Bot uptime: ");
    push_text(&mut t, span.as_str());
    push_text(&mut t, " | Bot buffer: ");
    push_decimal(&mut t, state.buffer as u64);
    assert(t@ =~= uptime_text(span@, state.buffer));
    reply(&config.nickname, admin, &t)
}

/// Whispers to `admin` how long the bot has run at time `now`, and its buffer.
pub fn uptime(state: &BotState, config: &BotConfig, admin: &String, now: i64) -> (r: Action)
    ensures
        r@ == ActionView::Send(
            whisper_line(
                config.nickname@,
                admin@,
                uptime_text(humanized(elapsed(state.uptime, now)), state.buffer),
            ),
        ),
{
    let secs: u64 = if now > state.uptime {
        ((now as i128) - (state.uptime as i128)) as u64
    } else {
        0
    };
    let span = humanize(secs);
    uptime_reply(state, config, admin, &span)
}

/// The buffer size that the argument `s` asks for: a positive decimal number that fits in a
/// `usize`, with an optional leading `+`.
pub open spec fn buffer_arg(s: Seq<char>) -> Option<usize> {
    let d = if s.len() > 0 && s[0] == '+' {
        s.drop_first()
    } else {
        s
    };
    if d.len() > 0 && all_digits(d) && 0 < digits_value(d) <= usize::MAX {
        Some(digits_value(d) as usize)
    } else {
        None
    }
}

pub open spec fn buffer_request(args: Seq<Seq<char>>) -> Option<usize> {
    if args.len() > 0 {
        buffer_arg(args[0])
    } else {
        None
    }
}

fn parse_buffer_arg(s: &String) -> (r: Option<usize>)
    ensures
        r == buffer_arg(s@),
{
    let v = collect_chars(s.as_str());
    let n = v.len();
    let start: usize = if n > 0 && v[0] == '+' {
        1
    } else {
        0
    };
    let ghost d = v@.subrange(start as int, n as int);
    assert(d =~= (if v@.len() > 0 && v@[0] == '+' { v@.drop_first() } else { v@ }));
    if start >= n {
        return None;
    }
    let e = scan_digits(&v, start, n);
    if e < n {
        assert(!is_digit(d[e - start]));
        return None;
    }
    match digits_value_of(&v, start, n, usize::MAX as u64) {
        Some(x) => {
            if x == 0 {
                None
            } else {
                Some(x as usize)
            }
        },
        None => None,
    }
}

/// The effect of the `buffer` command with the arguments `args`.
pub open spec fn buffer_post(
    os: BotState,
    ns: BotState,
    nick: Seq<char>,
    admin: Seq<char>,
    args: Seq<Seq<char>>,
    act: ActionView,
) -> bool {
    &&& match buffer_request(args) {
        Some(b) => {
            &&& ns.buffer == b
            &&& act == ActionView::Send(whisper_line(nick, admin, "Bot buffer set to "@ + decimal(b as nat)))
        },
        None => {
            &&& ns.buffer == os.buffer
            &&& act == ActionView::Send(whisper_line(nick, admin, "An integer value is required"@))
        },
    }
    &&& ns.paused == os.paused
    &&& ns.postgres == os.postgres
    &&& ns.uptime == os.uptime
}

/// Sets the buffer to the number that `args[0]` spells, and confirms it to `admin`; a missing
/// or malformed number leaves the buffer alone and whispers an error instead.
pub fn buffer(state: &mut BotState, config: &BotConfig, admin: &String, args: &Vec<String>) -> (r: Action)
    ensures
        buffer_post(*old(state), *final(state), config.nickname@, admin@, views(args@), r@),
        old(state).wf() ==> final(state).wf(),
{
    let req = if args.len() > 0 {
        parse_buffer_arg(&args[0])
    } else {
        None
    };
    match req {
        Some(b) => {
            state.buffer = b;
            let mut t = String::new();
            push_text(&mut t, "Bot buffer set to ");
            push_decimal(&mut t, b as u64);
            reply(&config.nickname, admin, &t)
        },
        None => reply(&config.nickname, admin, &String::from_str("An integer value is required")),
    }
}

/// Whether the subcommand `w` asks to pause logging.
pub open spec fn is_pause_word(w: Seq<char>) -> bool {
    w == "pause"@ || w == "stop"@
}

/// Whether `s` holds the characters of `w`.
pub fn text_is(s: &String, w: &str) -> (r: bool)
    ensures
        r == (s@ == w@),
{
    *s == String::from_str(w)
}

/// The effect of the pause command `sub_cmd`.
pub open spec fn pause_post(
    os: BotState,
    ns: BotState,
    nick: Seq<char>,
    admin: Seq<char>,
    sub_cmd: Seq<char>,
    act: ActionView,
) -> bool {
    &&& ns.paused == is_pause_word(sub_cmd)
    &&& act == ActionView::Send(
        whisper_line(
            nick,
            admin,
            if is_pause_word(sub_cmd) {
                "Bot logging is now paused"@
            } else {
                "Bot logging is now unpaused"@
            },
        ),
    )
    &&& ns.buffer == os.buffer
    &&& ns.postgres == os.postgres
    &&& ns.uptime == os.uptime
}

/// Pauses logging when `sub_cmd` is `pause` or `stop`, and resumes it otherwise; confirms to
/// `admin`.
pub fn pause(state: &mut BotState, config: &BotConfig, admin: &String, sub_cmd: &String) -> (r: Action)
    ensures
        pause_post(*old(state), *final(state), config.nickname@, admin@, sub_cmd@, r@),
{
    if text_is(sub_cmd, "pause") || text_is(sub_cmd, "stop") {
        state.paused = true;
        reply(&config.nickname, admin, &String::from_str("Bot logging is now paused"))
    } else {
        state.paused = false;
        reply(&config.nickname, admin, &String::from_str("Bot logging is now unpaused"))
    }
}

/// The lower-case form that std's `str::to_lowercase` gives of `s`.
pub uninterp spec fn lower_of(s: Seq<char>) -> Seq<char>;

/// Relies on `str::to_lowercase`: the result depends on the characters of `s` alone.
#[verifier::external_body]
fn lowercase(s: &str) -> (r: String)
    ensures
        r@ == lower_of(s@),
{
    s.to_lowercase()
}

/// The pieces of `s` between single spaces, empty pieces included; there is always one.
pub open spec fn words(s: Seq<char>) -> Seq<Seq<char>>
    decreases s.len(),
{
    if s.len() == 0 {
        seq![seq![]]
    } else {
        let w = words(s.drop_last());
        if s.last() == ' ' {
            w.push(seq![])
        } else {
            w.update(w.len() - 1, w.last().push(s.last()))
        }
    }
}

/// Splits `s` at each single space.
pub fn split_words(s: &String) -> (r: Vec<String>)
    ensures
        views(r@) == words(s@),
        r@.len() >= 1,
{
    let v = collect_chars(s.as_str());
    let mut done: Vec<String> = Vec::new();
    let mut cur = String::new();
    let mut i: usize = 0;
    while i < v.len()
        invariant
            i <= v@.len(),
            views(done@).push(cur@) == words(v@.subrange(0, i as int)),
        decreases v@.len() - i,
    {
        let ghost pre = v@.subrange(0, i + 1);
        assert(pre.drop_last() == v@.subrange(0, i as int));
        let ghost before_done = views(done@);
        let ghost before_cur = cur@;
        if v[i] == ' ' {
            done.push(cur);
            cur = String::new();
            assert(views(done@) =~= before_done.push(before_cur));
        } else {
            push_char(&mut cur, v[i]);
        }
        assert(views(done@).push(cur@) =~= words(pre));
        i = i + 1;
    }
    assert(v@.subrange(0, v@.len() as int) == v@);
    let ghost before_done = views(done@);
    done.push(cur);
    assert(views(done@) =~= before_done.push(done@.last()@));
    done
}

fn tail_of(v: &Vec<String>) -> (r: Vec<String>)
    ensures
        views(r@) == (if v@.len() > 0 { views(v@).drop_first() } else { seq![] }),
{
    let mut r: Vec<String> = Vec::new();
    let mut i: usize = 1;
    while i < v.len()
        invariant
            1 <= i,
            i <= v@.len() || v@.len() == 0,
            v@.len() == 0 ==> i == 1,
            r@.len() == i - 1,
            forall|j: int| 0 <= j < r@.len() ==> (#[trigger] r@[j])@ == v@[j + 1]@,
        decreases v@.len() - i,
    {
        r.push(v[i].clone());
        i = i + 1;
    }
    if v.len() > 0 {
        assert(views(r@) =~= views(v@).drop_first());
    } else {
        assert(views(r@) =~= Seq::<Seq<char>>::empty());
    }
    r
}

/// Nothing changes.
pub open spec fn unchanged(os: BotState, ns: BotState, oc: &BotConfig, nc: &BotConfig) -> bool {
    &&& ns == os
    &&& same_settings(nc, oc)
    &&& views(nc.channels@) == views(oc.channels@)
}

/// The effect of the administrator command whose lower-case words are `ws`, run at `now`.
pub open spec fn dispatch_post(
    os: BotState,
    ns: BotState,
    oc: &BotConfig,
    nc: &BotConfig,
    admin: Seq<char>,
    ws: Seq<Seq<char>>,
    now: i64,
    acts: Seq<ActionView>,
) -> bool {
    let sub = if ws.len() > 0 {
        ws[0]
    } else {
        seq![]
    };
    let args = if ws.len() > 0 {
        ws.drop_first()
    } else {
        seq![]
    };
    let nick = oc.nickname@;
    if sub == "join"@ {
        join_post(os, ns, oc, nc, admin, args, acts)
    } else if sub == "part"@ || sub == "leave"@ {
        part_post(os, ns, oc, nc, admin, args, acts)
    } else if sub == "list"@ || sub == "channels"@ {
        unchanged(os, ns, oc, nc) && acts == whispers(nick, admin, list_texts(views(oc.channels@)))
    } else if sub == "uptime"@ || sub == "status"@ {
        &&& unchanged(os, ns, oc, nc)
        &&& acts == seq![
            ActionView::Send(
                whisper_line(nick, admin, uptime_text(humanized(elapsed(os.uptime, now)), os.buffer)),
            ),
        ]
    } else if sub == "buffer"@ {
        &&& acts.len() == 1
        &&& buffer_post(os, ns, nick, admin, args, acts[0])
        &&& same_settings(nc, oc)
        &&& views(nc.channels@) == views(oc.channels@)
    } else if sub == "pause"@ || sub == "stop"@ || sub == "unpause"@ || sub == "start"@ {
        &&& acts.len() == 1
        &&& pause_post(os, ns, nick, admin, sub, acts[0])
        &&& same_settings(nc, oc)
        &&& views(nc.channels@) == views(oc.channels@)
    } else if sub == "shutdown"@ || sub == "exit"@ || sub == "quit"@ {
        unchanged(os, ns, oc, nc) && acts == seq![ActionView::Shutdown]
    } else {
        unchanged(os, ns, oc, nc) && acts == Seq::<ActionView>::empty()
    }
}

/// Runs the administrator command whose lower-case words are `ws`, sent by `admin` at `now`.
pub fn execute(
    state: &mut BotState,
    config: &mut BotConfig,
    admin: &String,
    ws: Vec<String>,
    now: i64,
) -> (r: Vec<Action>)
    ensures
        dispatch_post(*old(state), *final(state), old(config), final(config), admin@, views(ws@), now, action_views(r@)),
        old(state).wf() ==> final(state).wf(),
        old(config).wf() ==> final(config).wf(),
{
    let ghost ows = views(ws@);
    let empty = String::new();
    let sub: &String = if ws.len() > 0 {
        &ws[0]
    } else {
        &empty
    };
    let args = tail_of(&ws);
    if text_is(sub, "join") {
        join(state, config, admin, args)
    } else if text_is(sub, "part") || text_is(sub, "leave") {
        part(state, config, admin, args)
    } else if text_is(sub, "list") || text_is(sub, "channels") {
        list(config, admin)
    } else if text_is(sub, "uptime") || text_is(sub, "status") {
        let a = uptime(state, config, admin, now);
        let r = vec![a];
        assert(action_views(r@) =~= seq![a@]);
        r
    } else if text_is(sub, "buffer") {
        let a = buffer(state, config, admin, &args);
        let ghost av = a@;
        let r = vec![a];
        assert(action_views(r@) =~= seq![av]);
        r
    } else if text_is(sub, "pause") || text_is(sub, "stop") || text_is(sub, "unpause")
        || text_is(sub, "start") {
        let a = pause(state, config, admin, sub);
        let ghost av = a@;
        let r = vec![a];
        assert(action_views(r@) =~= seq![av]);
        r
    } else if text_is(sub, "shutdown") || text_is(sub, "exit") || text_is(sub, "quit") {
        let r = vec![Action::Shutdown];
        assert(action_views(r@) =~= seq![ActionView::Shutdown]);
        r
    } else {
        let r: Vec<Action> = Vec::new();
        assert(action_views(r@) =~= Seq::<ActionView>::empty());
        r
    }
}

/// Runs the whispered command `msg` when its sender is an administrator; a command from anyone
/// else changes nothing and gets no answer.
pub fn parse_cmd(state: &mut BotState, config: &mut BotConfig, msg: &Message) -> (r: Vec<Action>)
    ensures
        if views(old(config).admins@).contains(msg.username@) {
            exists|now: i64|
                dispatch_post(
                    *old(state),
                    *final(state),
                    old(config),
                    final(config),
                    msg.username@,
                    words(lower_of(msg.user_msg@)),
                    now,
                    action_views(r@),
                )
        } else {
            unchanged(*old(state), *final(state), old(config), final(config)) && r@.len() == 0
        },
        old(state).wf() ==> final(state).wf(),
        old(config).wf() ==> final(config).wf(),
{
    if !contains_text(&config.admins, &msg.username) {
        return Vec::new();
    }
    let lowered = lowercase(msg.user_msg.as_str());
    let ws = split_words(&lowered);
    let now = now_secs();
    execute(state, config, &msg.username, ws, now)
}

proof fn lemma_normalize_all_drop_last(args: Seq<Seq<char>>)
    requires
        args.len() > 0,
    ensures
        normalize_all(args).drop_last() == normalize_all(args.drop_last()),
        normalize_all(args).last() == normalize(args.last()),
{
    assert(normalize_all(args).drop_last() =~= normalize_all(args.drop_last()));
}

/// Joining only channels that are tracked already changes nothing: the set and the buffer
/// stay, no join is sent and no whisper either; only the configuration is stored again.
pub proof fn lemma_join_tracked(chs: Seq<Seq<char>>, buf: usize, args: Seq<Seq<char>>, nick: Seq<char>, admin: Seq<char>)
    requires
        forall|i: int| 0 <= i < args.len() ==> chs.contains(normalize(#[trigger] args[i])),
    ensures
        join_fold(chs, buf, normalize_all(args)) == (chs, buf, Seq::<Seq<char>>::empty()),
        membership_actions(true, nick, admin, Seq::<Seq<char>>::empty()) == seq![ActionView::SaveConfig],
    decreases args.len(),
{
    if args.len() > 0 {
        lemma_normalize_all_drop_last(args);
        assert forall|i: int| 0 <= i < args.drop_last().len() implies chs.contains(
            normalize(#[trigger] args.drop_last()[i]),
        ) by {
            assert(args.drop_last()[i] == args[i]);
        }
        lemma_join_tracked(chs, buf, args.drop_last(), nick, admin);
        assert(chs.contains(normalize(args[args.len() - 1])));
    }
    assert(membership_actions(true, nick, admin, Seq::<Seq<char>>::empty()) =~= seq![
        ActionView::SaveConfig,
    ]);
}

/// Leaving only channels that are not tracked changes nothing: the set and the buffer stay,
/// no part is sent and no whisper either; only the configuration is stored again.
pub proof fn lemma_part_untracked(chs: Seq<Seq<char>>, buf: usize, args: Seq<Seq<char>>, nick: Seq<char>, admin: Seq<char>)
    requires
        forall|i: int| 0 <= i < args.len() ==> !chs.contains(normalize(#[trigger] args[i])),
    ensures
        part_fold(chs, buf, normalize_all(args)) == (chs, buf, Seq::<Seq<char>>::empty()),
        membership_actions(false, nick, admin, Seq::<Seq<char>>::empty()) == seq![ActionView::SaveConfig],
    decreases args.len(),
{
    if args.len() > 0 {
        lemma_normalize_all_drop_last(args);
        assert forall|i: int| 0 <= i < args.drop_last().len() implies !chs.contains(
            normalize(#[trigger] args.drop_last()[i]),
        ) by {
            assert(args.drop_last()[i] == args[i]);
        }
        lemma_part_untracked(chs, buf, args.drop_last(), nick, admin);
        assert(!chs.contains(normalize(args[args.len() - 1])));
    }
    assert(membership_actions(false, nick, admin, Seq::<Seq<char>>::empty()) =~= seq![
        ActionView::SaveConfig,
    ]);
}

/// No channels, one channel, and forty-six channels give three different reports: one line,
/// one line naming the channel, and a count line followed by a line of forty-five names and
/// a line with the last name.
pub proof fn lemma_list_shapes(chs: Seq<Seq<char>>)
    ensures
        chs.len() == 0 ==> list_texts(chs) == seq!["Bot is logging 0 channels"@],
        chs.len() == 1 ==> list_texts(chs) == seq!["Bot is logging 1 channel: "@ + chs[0]],
        chs.len() == 46 ==> {
            &&& list_texts(chs).len() == 3
            &&& list_texts(chs)[0] == "Bot is logging "@ + decimal(46) + " channels:"@
            &&& list_texts(chs)[1] == join_words(chs.subrange(0, 45))
            &&& list_texts(chs)[2] == chs[45]
        },
{
    if chs.len() == 46 {
        let rest = chs.subrange(45, 46);
        assert(chunk_lines(rest) == seq![join_words(rest)]);
        assert(join_words(rest) == chs[45]);
    }
}

/// `remove_all` only keeps entries of the sequence it is given.
proof fn lemma_remove_all_subset(chs: Seq<Seq<char>>, c: Seq<char>, x: Seq<char>)
    requires
        remove_all(chs, c).contains(x),
    ensures
        chs.contains(x),
        x != c,
    decreases chs.len(),
{
    if chs.len() > 0 {
        let rest = remove_all(chs.drop_last(), c);
        if chs.last() != c && x == chs.last() {
            assert(chs[chs.len() - 1] == x);
        } else {
            if chs.last() != c {
                let k = choose|k: int| 0 <= k < remove_all(chs, c).len() && remove_all(chs, c)[k] == x;
                assert(rest.push(chs.last())[k] == x);
                assert(k < rest.len());
                assert(rest[k] == x);
            }
            lemma_remove_all_subset(chs.drop_last(), c, x);
            let j = choose|j: int| 0 <= j < chs.drop_last().len() && chs.drop_last()[j] == x;
            assert(chs[j] == x);
        }
    }
}

/// Removing a channel keeps a channel set a channel set.
proof fn lemma_remove_all_ok(chs: Seq<Seq<char>>, c: Seq<char>)
    requires
        channel_set_ok(chs),
    ensures
        channel_set_ok(remove_all(chs, c)),
    decreases chs.len(),
{
    if chs.len() > 0 {
        let d = chs.drop_last();
        assert(channel_set_ok(d)) by {
            assert forall|i: int| 0 <= i < d.len() implies (#[trigger] d[i]).len() > 0 && d[i][0] == '#' by {
                assert(d[i] == chs[i]);
            }
            assert forall|i: int, j: int| 0 <= i < j < d.len() implies precedes(#[trigger] d[i], #[trigger] d[j]) by {
                assert(d[i] == chs[i] && d[j] == chs[j]);
            }
        }
        lemma_remove_all_ok(d, c);
        let rest = remove_all(d, c);
        if chs.last() != c {
            let l = chs.last();
            let r = rest.push(l);
            assert(chs[chs.len() - 1] == l);
            assert forall|i: int, j: int| 0 <= i < j < r.len() implies precedes(#[trigger] r[i], #[trigger] r[j]) by {
                if j == r.len() - 1 {
                    assert(rest[i] == r[i]);
                    assert(rest.contains(r[i]));
                    lemma_remove_all_subset(d, c, r[i]);
                    let m = choose|m: int| 0 <= m < d.len() && d[m] == r[i];
                    assert(chs[m] == r[i]);
                } else {
                    assert(rest[i] == r[i] && rest[j] == r[j]);
                }
            }
            assert forall|i: int| 0 <= i < r.len() implies (#[trigger] r[i]).len() > 0 && r[i][0] == '#' by {
                if i < rest.len() {
                    assert(rest[i] == r[i]);
                }
            }
        }
    }
}

/// Joining channels keeps a channel set a channel set.
pub proof fn lemma_join_keeps_set(chs: Seq<Seq<char>>, buf: usize, args: Seq<Seq<char>>)
    requires
        channel_set_ok(chs),
    ensures
        channel_set_ok(join_fold(chs, buf, normalize_all(args)).0),
    decreases args.len(),
{
    if args.len() > 0 {
        lemma_normalize_all_drop_last(args);
        lemma_join_keeps_set(chs, buf, args.drop_last());
        let prev = join_fold(chs, buf, normalize_all(args.drop_last()));
        let a = normalize(args.last());
        if !prev.0.contains(a) {
            lemma_insert_sorted(prev.0, a);
            let r = insert_sorted(prev.0, a);
            assert forall|i: int| 0 <= i < r.len() implies (#[trigger] r[i]).len() > 0 && r[i][0] == '#' by {
                assert(r.contains(r[i]));
                if r[i] != a {
                    let m = choose|m: int| 0 <= m < prev.0.len() && prev.0[m] == r[i];
                }
            }
        }
    }
}

/// Leaving channels keeps a channel set a channel set.
pub proof fn lemma_part_keeps_set(chs: Seq<Seq<char>>, buf: usize, args: Seq<Seq<char>>)
    requires
        channel_set_ok(chs),
    ensures
        channel_set_ok(part_fold(chs, buf, normalize_all(args)).0),
    decreases args.len(),
{
    if args.len() > 0 {
        lemma_normalize_all_drop_last(args);
        lemma_part_keeps_set(chs, buf, args.drop_last());
        let prev = part_fold(chs, buf, normalize_all(args.drop_last()));
        lemma_remove_all_ok(prev.0, normalize(args.last()));
    }
}

proof fn lemma_join_buffer(chs: Seq<Seq<char>>, buf: usize, args: Seq<Seq<char>>)
    ensures
        join_fold(chs, buf, args).1 >= buf,
    decreases args.len(),
{
    if args.len() > 0 {
        lemma_join_buffer(chs, buf, args.drop_last());
    }
}

proof fn lemma_part_buffer(chs: Seq<Seq<char>>, buf: usize, args: Seq<Seq<char>>)
    ensures
        buf > 0 ==> part_fold(chs, buf, args).1 > 0,
    decreases args.len(),
{
    if args.len() > 0 {
        lemma_part_buffer(chs, buf, args.drop_last());
    }
}

} // verus!
