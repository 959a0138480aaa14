//! Context-budget trimming: a cheap token estimate per message and a pure
//! function that reduces a conversation to fit an estimated token budget,
//! keeping the pinned leading system message and the most recent suffix of
//! the remaining messages.
use vstd::prelude::*;

use crate::messages::{ChatMessage, Role};

verus! {

/// Estimated token count of a text: one token per four characters, at least
/// one.
pub open spec fn spec_estimate_tokens(content: Seq<char>) -> int {
    let t = content.len() as int / 4;
    if t < 1 {
        1
    } else {
        t
    }
}

/// Estimated cost of one message: a fixed per-message overhead plus the
/// estimate for its content.
pub open spec fn message_cost(m: ChatMessage) -> int {
    6 + spec_estimate_tokens(m.content@)
}

/// Total estimated cost of a message sequence.
pub open spec fn messages_cost(ms: Seq<ChatMessage>) -> int
    decreases ms.len(),
{
    if ms.len() == 0 {
        0
    } else {
        messages_cost(ms.drop_last()) + message_cost(ms.last())
    }
}

/// The pinned part of a conversation: its first message when that message's
/// role is `System`, otherwise nothing.
pub open spec fn pinned_of(ms: Seq<ChatMessage>) -> Seq<ChatMessage> {
    if ms.len() > 0 && ms[0].role == Role::System {
        ms.take(1)
    } else {
        Seq::empty()
    }
}

/// The trimmable part of a conversation: everything but the pinned message.
pub open spec fn rest_of(ms: Seq<ChatMessage>) -> Seq<ChatMessage> {
    if ms.len() > 0 && ms[0].role == Role::System {
        ms.skip(1)
    } else {
        ms
    }
}

/// The effective budget: the context limit less the output reserve, floored
/// at zero.
pub open spec fn spec_budget(max_context_tokens: u32, reserve_output: u32) -> int {
    if max_context_tokens >= reserve_output {
        max_context_tokens - reserve_output
    } else {
        0
    }
}

/// How many of the most recent messages fit in the given room: messages are
/// scanned from most recent to oldest, and the scan stops at the first
/// message whose cost would overflow the room.
pub open spec fn kept_count(rest: Seq<ChatMessage>, room: int) -> nat
    decreases rest.len(),
{
    if rest.len() == 0 {
        0nat
    } else {
        let c = message_cost(rest.last());
        if c <= room {
            (1 + kept_count(rest.drop_last(), room - c)) as nat
        } else {
            0nat
        }
    }
}

pub proof fn lemma_messages_cost_singleton(m: ChatMessage)
    ensures
        messages_cost(seq![m]) == message_cost(m),
{
    let s = seq![m];
    assert(s.last() == m);
    assert(s.drop_last() =~= Seq::<ChatMessage>::empty());
    assert(messages_cost(s.drop_last()) == 0);
}

/// The kept suffix is never longer than the sequence itself.
pub proof fn lemma_kept_count_le(rest: Seq<ChatMessage>, room: int)
    ensures
        kept_count(rest, room) <= rest.len(),
    decreases rest.len(),
{
    if rest.len() > 0 {
        let c = message_cost(rest.last());
        if c <= room {
            lemma_kept_count_le(rest.drop_last(), room - c);
        }
    }
}

pub proof fn lemma_messages_cost_nonneg(ms: Seq<ChatMessage>)
    ensures
        messages_cost(ms) >= 0,
    decreases ms.len(),
{
    if ms.len() > 0 {
        lemma_messages_cost_nonneg(ms.drop_last());
    }
}

/// Cost is additive over concatenation.
pub proof fn lemma_messages_cost_concat(a: Seq<ChatMessage>, b: Seq<ChatMessage>)
    ensures
        messages_cost(a + b) == messages_cost(a) + messages_cost(b),
    decreases b.len(),
{
    if b.len() == 0 {
        assert(a + b =~= a);
    } else {
        lemma_messages_cost_concat(a, b.drop_last());
        assert((a + b).drop_last() =~= a + b.drop_last());
        assert((a + b).last() == b.last());
    }
}

/// The suffix selected by `kept_count` indeed fits in the room it was given.
pub proof fn lemma_kept_suffix_fits(rest: Seq<ChatMessage>, room: int)
    requires
        room >= 0,
    ensures
        messages_cost(rest.skip(rest.len() - kept_count(rest, room))) <= room,
    decreases rest.len(),
{
    let k = kept_count(rest, room);
    lemma_kept_count_le(rest, room);
    if rest.len() == 0 || k == 0 {
        assert(rest.skip(rest.len() - 0) =~= Seq::<ChatMessage>::empty());
    } else {
        let c = message_cost(rest.last());
        lemma_kept_suffix_fits(rest.drop_last(), room - c);
        let k1 = kept_count(rest.drop_last(), room - c);
        lemma_kept_count_le(rest.drop_last(), room - c);
        assert(k == k1 + 1);
        let inner = rest.drop_last().skip(rest.len() - 1 - k1);
        assert(rest.skip(rest.len() - k) =~= inner + seq![rest.last()]);
        lemma_messages_cost_concat(inner, seq![rest.last()]);
        lemma_messages_cost_singleton(rest.last());
    }
}

/// Estimated token count of a text, as a 32-bit count.
pub fn estimate_tokens(text: &str) -> (r: u32)
    requires
        text@.len() <= u32::MAX,
    ensures
        r == spec_estimate_tokens(text@),
{
    let chars = text.unicode_len() as u32;
    let tokens = chars / 4;
    if tokens < 1 {
        1
    } else {
        tokens
    }
}

/// Estimated cost of one message, with the per-message overhead included.
fn message_cost_exec(m: &ChatMessage) -> (r: u64)
    ensures
        r == message_cost(*m),
{
    let chars = m.content.unicode_len() as u64;
    let tokens = chars / 4;
    let tokens = if tokens < 1 { 1 } else { tokens };
    6 + tokens
}

/// Total estimated token cost of a conversation.
pub fn estimate_messages_tokens(messages: &Vec<ChatMessage>) -> (r: u32)
    requires
        messages_cost(messages@) <= u32::MAX,
    ensures
        r == messages_cost(messages@),
{
    let mut total: u64 = 0;
    let mut i: usize = 0;
    proof {
        assert(messages@.take(0) =~= Seq::<ChatMessage>::empty());
    }
    while i < messages.len()
        invariant
            i <= messages@.len(),
            total == messages_cost(messages@.take(i as int)),
            messages_cost(messages@) <= u32::MAX,
        decreases messages@.len() - i,
    {
        let c = message_cost_exec(&messages[i]);
        proof {
            assert(messages@.take(i + 1).drop_last() =~= messages@.take(i as int));
            assert(messages@.take(i + 1).last() == messages@[i as int]);
            lemma_messages_cost_nonneg(messages@.take(i + 1));
            lemma_messages_cost_concat(
                messages@.take(i + 1),
                messages@.skip(i + 1),
            );
            assert(messages@.take(i + 1) + messages@.skip(i + 1) =~= messages@);
            lemma_messages_cost_nonneg(messages@.skip(i + 1));
        }
        total = total + c;
        i = i + 1;
    }
    proof {
        assert(messages@.take(messages@.len() as int) =~= messages@);
    }
    total as u32
}

/// Trims a conversation to an estimated token budget.
///
/// With a zero `max_context_tokens` no budget is enforced and the input is
/// returned unchanged. Otherwise the leading system message, if any, is
/// pinned; when its cost alone meets or exceeds the budget only the pinned
/// message is returned; otherwise the most recent messages that still fit
/// are kept, in their original chronological order, after the pinned one.
pub fn trim_to_budget(messages: Vec<ChatMessage>, max_context_tokens: u32, reserve_output: u32) -> (r: Vec<ChatMessage>)
    ensures
        max_context_tokens == 0 ==> r@ == messages@,
        max_context_tokens != 0 ==> {
            let budget = spec_budget(max_context_tokens, reserve_output);
            let pinned = pinned_of(messages@);
            let rest = rest_of(messages@);
            if messages_cost(pinned) >= budget {
                r@ == pinned
            } else {
                r@ == pinned + rest.skip(
                    rest.len() - kept_count(rest, budget - messages_cost(pinned)),
                )
            }
        },
{
    if max_context_tokens == 0 {
        return messages;
    }
    let budget: u32 = max_context_tokens.saturating_sub(reserve_output);

    let ghost pinned = pinned_of(messages@);
    let ghost rest = rest_of(messages@);

    let has_pinned = messages.len() > 0 && matches!(messages[0].role, Role::System);
    let start: usize = if has_pinned { 1 } else { 0 };
    proof {
        if has_pinned {
            assert(rest =~= messages@.skip(start as int));
        } else {
            assert(rest =~= messages@.skip(start as int));
        }
    }

    let pinned_cost: u64 = if has_pinned {
        let c = message_cost_exec(&messages[0]);
        proof {
            assert(pinned =~= seq![messages@[0]]);
            lemma_messages_cost_singleton(messages@[0]);
        }
        c
    } else {
        0
    };
    assert(pinned_cost == messages_cost(pinned));

    let mut result: Vec<ChatMessage> = Vec::new();
    if has_pinned {
        result.push(messages[0].clone());
    }
    proof {
        assert(result@ =~= pinned);
    }

    if pinned_cost >= budget as u64 {
        return result;
    }

    let n: usize = messages.len() - start;
    let room0: u64 = budget as u64 - pinned_cost;
    let mut room: u64 = room0;
    let mut k: usize = 0;
    let mut stopped: bool = false;
    proof {
        assert(rest.take(n as int) =~= rest);
    }
    while k < n && !stopped
        invariant
            k <= n,
            n == rest.len(),
            rest == messages@.skip(start as int),
            start + n == messages@.len(),
            start <= messages@.len(),
            room <= room0,
            messages@.len() <= usize::MAX,
            !stopped ==> kept_count(rest, room0 as int) == k + kept_count(
                rest.take(n - k),
                room as int,
            ),
            stopped ==> kept_count(rest, room0 as int) == k,
        decreases n - k, (if stopped { 0int } else { 1int }),
    {
        let idx: usize = start + (n - 1 - k);
        let c = message_cost_exec(&messages[idx]);
        proof {
            assert(rest.take(n - k).last() == rest[n - k - 1]);
            assert(rest[n - k - 1] == messages@[idx as int]);
            assert(rest.take(n - k).drop_last() =~= rest.take(n - k - 1));
        }
        if c <= room {
            room = room - c;
            k = k + 1;
        } else {
            stopped = true;
        }
    }
    if !stopped {
        proof {
            assert(rest.take(n - k) =~= Seq::<ChatMessage>::empty());
        }
    }
    let ghost kk = kept_count(rest, room0 as int);
    assert(kk == k);

    let mut i: usize = n - k;
    proof {
        assert(rest.skip(n - k).take(0) =~= Seq::<ChatMessage>::empty());
        assert(result@ =~= pinned + rest.skip(n - k).take(0));
    }
    while i < n
        invariant
            n - k <= i <= n,
            n == rest.len(),
            rest == messages@.skip(start as int),
            start + n == messages@.len(),
            start <= messages@.len(),
            messages@.len() <= usize::MAX,
            k <= n,
            result@ == pinned + rest.skip(n - k).take(i - (n - k)),
        decreases n - i,
    {
        let m = messages[start + i].clone();
        result.push(m);
        proof {
            assert(rest.skip(n - k).take(i + 1 - (n - k)) =~= rest.skip(n - k).take(
                i - (n - k),
            ).push(messages@[start + i]));
        }
        i = i + 1;
    }
    proof {
        assert(rest.skip(n - k).take(n - (n - k)) =~= rest.skip(n - k));
    }
    result
}

/// The trimmed conversation never exceeds the budget, provided the pinned
/// message alone fits: with a non-zero context limit and the pinned cost
/// strictly under the budget, the cost of what `trim_to_budget` keeps is at
/// most the budget.
pub proof fn lemma_trim_within_budget(messages: Seq<ChatMessage>, max_context_tokens: u32, reserve_output: u32)
    requires
        max_context_tokens != 0,
        messages_cost(pinned_of(messages)) < spec_budget(max_context_tokens, reserve_output),
    ensures
        ({
            let budget = spec_budget(max_context_tokens, reserve_output);
            let pinned = pinned_of(messages);
            let rest = rest_of(messages);
            let kept = rest.skip(rest.len() - kept_count(rest, budget - messages_cost(pinned)));
            messages_cost(pinned + kept) <= budget
        }),
{
    let budget = spec_budget(max_context_tokens, reserve_output);
    let pinned = pinned_of(messages);
    let rest = rest_of(messages);
    let room = budget - messages_cost(pinned);
    lemma_kept_suffix_fits(rest, room);
    let kept = rest.skip(rest.len() - kept_count(rest, room));
    lemma_messages_cost_concat(pinned, kept);
}

} // verus!
