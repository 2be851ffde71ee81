//! Voice-channel presence: when the bot joins or leaves its channel, and how it
//! announces what it listens for.
use vstd::prelude::*;
use vstd::string::StringExecFns;
use crate::parser::WakeWords;
use crate::text::{chars_of, join_with};

verus! {

/// A member's voice state, as far as presence in the target channel matters.
#[derive(Debug, Clone, Copy, PartialEq, Eq, Structural)]
pub struct VoiceMember {
    /// The voice channel the member is in, if any.
    pub channel_id: Option<u64>,
    pub user_id: u64,
}

/// How many of the first `n` members sit in `target`, not counting the bot itself.
pub open spec fn listener_count(members: Seq<VoiceMember>, n: int, target: u64, bot_id: u64) -> nat
    decreases n,
{
    if n <= 0 {
        0
    } else {
        listener_count(members, n - 1, target, bot_id) + if members[n - 1].channel_id == Some(target)
            && members[n - 1].user_id != bot_id {
            1nat
        } else {
            0nat
        }
    }
}

/// How many members sit in `target`, not counting the bot itself.
pub fn count_listeners(members: &[VoiceMember], target: u64, bot_id: u64) -> (r: usize)
    ensures
        r == listener_count(members@, members.len() as int, target, bot_id),
{
    let mut count: usize = 0;
    for i in 0..members.len()
        invariant
            count == listener_count(members@, i as int, target, bot_id),
            count <= i,
    {
        let m = members[i];
        if m.channel_id == Some(target) && m.user_id != bot_id {
            count = count + 1;
        }
    }
    count
}

/// What to do about the bot's presence in its channel.
#[derive(Debug, Clone, Copy, PartialEq, Eq, Structural)]
pub enum ChannelAction {
    /// Join the channel and start listening.
    Join,
    /// Leave the channel.
    Leave,
    /// Nothing to change.
    Stay,
}

/// Reconciles presence with the channel: join when members are present and the bot is
/// not there, leave when the channel has emptied and the bot is still there.
pub open spec fn channel_action_for(listeners: nat, connected_to_target: bool) -> ChannelAction {
    if listeners == 0 {
        if connected_to_target { ChannelAction::Leave } else { ChannelAction::Stay }
    } else if !connected_to_target {
        ChannelAction::Join
    } else {
        ChannelAction::Stay
    }
}

/// Reconciles presence with the channel.
pub fn sync_action(listeners: usize, connected_to_target: bool) -> (r: ChannelAction)
    ensures
        r == channel_action_for(listeners as nat, connected_to_target),
{
    if listeners == 0 {
        if connected_to_target { ChannelAction::Leave } else { ChannelAction::Stay }
    } else if !connected_to_target {
        ChannelAction::Join
    } else {
        ChannelAction::Stay
    }
}

/// How many times the voice connection is checked after joining before waiting stops.
pub const CONNECT_CHECKS: u32 = 50;

/// The pause after each check that finds no connection, in milliseconds: the checks span
/// ten seconds.
pub const CONNECT_PAUSE_MS: u64 = 200;

/// What to do after checking whether the voice server connection is up.
#[derive(Debug, Clone, Copy, PartialEq, Eq, Structural)]
pub enum ConnectionWait {
    /// The connection is up.
    Connected,
    /// Pause, then check again.
    Retry,
    /// Pause, then stop waiting and report the connection missing.
    GiveUp,
}

/// After the check that follows `failed_checks` failed ones: done when connected;
/// otherwise pause and check again, unless this was the last of the
/// [`CONNECT_CHECKS`] checks.
pub fn connection_wait_step(failed_checks: u32, connected: bool) -> (r: ConnectionWait)
    ensures
        r == if connected {
            ConnectionWait::Connected
        } else if failed_checks + 1 >= CONNECT_CHECKS {
            ConnectionWait::GiveUp
        } else {
            ConnectionWait::Retry
        },
{
    if connected {
        ConnectionWait::Connected
    } else if failed_checks >= CONNECT_CHECKS - 1 {
        ConnectionWait::GiveUp
    } else {
        ConnectionWait::Retry
    }
}

/// `a` sorts strictly before `b`, char by char (for UTF-8 text the same order as by
/// bytes, which is how `str` compares).
pub open spec fn text_lt(a: Seq<char>, b: Seq<char>) -> bool
    decreases a.len(),
{
    if a.len() == 0 {
        b.len() > 0
    } else if b.len() == 0 {
        false
    } else if a[0] != b[0] {
        a[0] < b[0]
    } else {
        text_lt(a.drop_first(), b.drop_first())
    }
}

/// Text order is irreflexive.
pub proof fn lemma_text_lt_irreflexive(a: Seq<char>)
    ensures
        !text_lt(a, a),
    decreases a.len(),
{
    if a.len() > 0 {
        lemma_text_lt_irreflexive(a.drop_first());
    }
}

/// Of two different texts, one sorts before the other, and never both ways.
pub proof fn lemma_text_lt_total(a: Seq<char>, b: Seq<char>)
    ensures
        a != b ==> (text_lt(a, b) || text_lt(b, a)),
        !(text_lt(a, b) && text_lt(b, a)),
    decreases a.len(),
{
    if a.len() > 0 && b.len() > 0 {
        lemma_text_lt_total(a.drop_first(), b.drop_first());
        if a != b && a[0] == b[0] {
            assert(a.drop_first() != b.drop_first()) by {
                if a.drop_first() == b.drop_first() {
                    assert(a =~= seq![a[0]] + a.drop_first());
                    assert(b =~= seq![b[0]] + b.drop_first());
                }
            }
        }
    }
    if a.len() == 0 && b.len() == 0 {
        assert(a =~= b);
    }
}

/// Text order is transitive.
pub proof fn lemma_text_lt_transitive(a: Seq<char>, b: Seq<char>, c: Seq<char>)
    ensures
        text_lt(a, b) && text_lt(b, c) ==> text_lt(a, c),
    decreases a.len(),
{
    if a.len() > 0 && b.len() > 0 && c.len() > 0 {
        lemma_text_lt_transitive(a.drop_first(), b.drop_first(), c.drop_first());
    }
}

/// Whether `a` sorts strictly before `b`.
pub fn text_lt_exec(a: &[char], b: &[char]) -> (r: bool)
    ensures
        r == text_lt(a@, b@),
{
    let mut i: usize = 0;
    assert(a@.skip(0) =~= a@ && b@.skip(0) =~= b@);
    while i < a.len() && i < b.len() && a[i] == b[i]
        invariant
            i <= a.len(),
            i <= b.len(),
            text_lt(a@, b@) == text_lt(a@.skip(i as int), b@.skip(i as int)),
        decreases a.len() - i,
    {
        assert(a@.skip(i as int).drop_first() =~= a@.skip(i + 1));
        assert(b@.skip(i as int).drop_first() =~= b@.skip(i + 1));
        i = i + 1;
    }
    let ghost sa = a@.skip(i as int);
    let ghost sb = b@.skip(i as int);
    if i == a.len() {
        assert(sa.len() == 0);
        i < b.len()
    } else if i == b.len() {
        false
    } else {
        assert(sa[0] == a@[i as int] && sb[0] == b@[i as int]);
        a[i] < b[i]
    }
}

/// A sequence in strictly increasing text order (so no entry repeats).
pub open spec fn strictly_sorted(s: Seq<Seq<char>>) -> bool {
    forall|i: int, j: int| 0 <= i < j < s.len() ==> text_lt(#[trigger] s[i], #[trigger] s[j])
}

/// The wake words in sorted order, each once.
pub fn sorted_wake_words(words: &WakeWords) -> (r: Vec<Vec<char>>)
    ensures
        crate::text::views(r@).to_set() == words@,
        strictly_sorted(crate::text::views(r@)),
{
    let entries = words.as_slice();
    let mut r: Vec<Vec<char>> = Vec::new();
    let ghost src = entries@.map_values(|w: String| w@);
    for i in 0..entries.len()
        invariant
            src == entries@.map_values(|w: String| w@),
            src.no_duplicates(),
            crate::text::views(r@).to_set() == src.take(i as int).to_set(),
            strictly_sorted(crate::text::views(r@)),
    {
        let w = chars_of(entries[i].as_str());
        assert(w@ == src[i as int]);
        let ghost before = crate::text::views(r@);
        assert(!before.to_set().contains(w@)) by {
            if src.take(i as int).contains(w@) {
                let k = choose|k: int| 0 <= k < i && src.take(i as int)[k] == w@;
                assert(src[k] == src[i as int]);
            }
        }
        let mut p: usize = 0;
        while p < r.len() && text_lt_exec(r[p].as_slice(), w.as_slice())
            invariant
                p <= r.len(),
                before == crate::text::views(r@),
                forall|k: int| 0 <= k < p ==> text_lt(#[trigger] before[k], w@),
            decreases r.len() - p,
        {
            p = p + 1;
        }
        proof {
            if p < r.len() {
                assert(before[p as int] != w@) by {
                    assert(before.contains(before[p as int]));
                }
                lemma_text_lt_total(before[p as int], w@);
            }
        }
        r.insert(p, w);
        proof {
            let after = crate::text::views(r@);
            assert(after =~= before.insert(p as int, w@));
            assert forall|a: int, b: int| 0 <= a < b < after.len() implies text_lt(#[trigger] after[a], #[trigger] after[b]) by {
                if a < p && b == p {
                } else if a < p && b > p {
                    if b - 1 > p {
                        lemma_text_lt_transitive(w@, before[p as int], before[b - 1]);
                    }
                    lemma_text_lt_transitive(after[a], w@, after[b]);
                } else if a == p && b > p {
                    if b - 1 > p {
                        lemma_text_lt_transitive(w@, before[p as int], before[b - 1]);
                    }
                } else if a > p {
                    assert(after[a] == before[a - 1] && after[b] == before[b - 1]);
                } else {
                    assert(after[a] == before[a] && after[b] == before[b]);
                }
            }
            assert(src.take(i + 1) =~= src.take(i as int).push(w@));
            assert forall|x: Seq<char>| after.to_set().contains(x) <==> src.take(i + 1).to_set().contains(x) by {
                if after.contains(x) {
                    let k = choose|k: int| 0 <= k < after.len() && after[k] == x;
                    if k < p {
                        assert(before[k] == x);
                    } else if k > p {
                        assert(before[k - 1] == x);
                    }
                    if x != w@ {
                        assert(before.contains(x));
                        assert(before.to_set().contains(x));
                        assert(src.take(i as int).to_set().contains(x));
                        assert(src.take(i as int).contains(x));
                        let m = choose|m: int| 0 <= m < i && src.take(i as int)[m] == x;
                        assert(src.take(i + 1)[m] == x);
                    } else {
                        assert(src.take(i + 1)[i as int] == x);
                    }
                }
                if src.take(i + 1).contains(x) {
                    let m = choose|m: int| 0 <= m < i + 1 && #[trigger] src.take(i + 1)[m] == x;
                    if m < i {
                        assert(src.take(i as int)[m] == x);
                        assert(before.to_set().contains(x));
                        let k = choose|k: int| 0 <= k < before.len() && before[k] == x;
                        if k < p {
                            assert(after[k] == x);
                        } else {
                            assert(after[k + 1] == x);
                        }
                    } else {
                        assert(after[p as int] == x);
                    }
                }
            }
            assert(after.to_set() =~= src.take(i + 1).to_set());
        }
    }
    assert(src.take(entries.len() as int) =~= src);
    r
}

/// The announcement of what the bot listens for: its wake words, sorted, separated
/// by ", ".
pub fn wake_word_listing(words: &WakeWords) -> (r: String)
    ensures
        exists|sorted: Seq<Seq<char>>|
            sorted.to_set() == words@ && strictly_sorted(sorted) && r@ == join_with(sorted, ", "@),
{
    let sorted = sorted_wake_words(words);
    let sep = chars_of(", ");
    let joined = crate::text::join_chars(&sorted, sep.as_slice());
    crate::text::string_of(&joined)
}

/// The bot joins its channel as soon as anyone but itself sits there, stays while anyone
/// does, and leaves only once the channel is empty.
pub proof fn lemma_presence_follows_listeners(listeners: nat, connected_to_target: bool)
    ensures
        listeners > 0 && !connected_to_target ==> channel_action_for(listeners, connected_to_target)
            == ChannelAction::Join,
        listeners > 0 && connected_to_target ==> channel_action_for(listeners, connected_to_target)
            == ChannelAction::Stay,
        listeners == 0 && connected_to_target ==> channel_action_for(listeners, connected_to_target)
            == ChannelAction::Leave,
        listeners == 0 && !connected_to_target ==> channel_action_for(listeners, connected_to_target)
            == ChannelAction::Stay,
{
}

} // verus!
