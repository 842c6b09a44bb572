//! The outbox of a shard's simplex messages: a message that finds no subscribed peer yet is
//! published again, after a pause that doubles from one attempt to the next.

use vstd::arithmetic::power2::{lemma2_to64, lemma_pow2_strictly_increases, lemma_pow2_unfold, pow2};
use vstd::bits::lemma_u64_shl_is_mul;
use vstd::prelude::*;

use crate::text::{
    contains_text, law_containing_text_is_having_it_in_the_middle, text_contains,
};

verus! {

/// How often a message is published at most.
pub const MAX_ATTEMPTS: u32 = 8;

/// The pause after the first attempt, in milliseconds.
pub const FIRST_DELAY_MS: u64 = 250;

/// A publish error says that no peer is subscribed to the topic.
pub open spec fn names_missing_peers(error: Seq<char>) -> bool {
    contains_text(error, "NoPeersSubscribedToTopic"@)
}

/// Whether a failed publish is tried again. A topic without subscribed peers is transient while the
/// gossip mesh starts up; any other failure needs another recovery path.
pub fn retryable_cw_publish_failure(error: &str, attempt: u32) -> (r: bool)
    ensures
        r == (names_missing_peers(error@) && attempt < MAX_ATTEMPTS),
{
    text_contains(error, "NoPeersSubscribedToTopic") && attempt < MAX_ATTEMPTS
}

/// The pause after a failed attempt, in milliseconds; attempts count from one.
pub open spec fn delay_after(attempt: nat) -> nat {
    let delay = FIRST_DELAY_MS as nat * pow2((attempt - 1) as nat);
    if delay <= u64::MAX {
        delay
    } else {
        u64::MAX as nat
    }
}

/// The pause after a failed attempt, in milliseconds: it doubles with every attempt, up to what the
/// clock can count.
pub fn retry_delay_ms(attempt: u32) -> (r: u64)
    requires
        1 <= attempt <= 64,
    ensures
        r == delay_after(attempt as nat),
{
    let shift: u32 = attempt - 1;
    proof {
        lemma2_to64();
        if shift < 63 {
            lemma_pow2_strictly_increases(shift as nat, 63);
        }
        assert(pow2(63) == 0x8000_0000_0000_0000) by {
            lemma_pow2_unfold(64);
        }
        lemma_u64_shl_is_mul(1, shift as u64);
    }
    let factor: u64 = 1u64 << (shift as u64);
    match FIRST_DELAY_MS.checked_mul(factor) {
        Some(delay) => delay,
        None => u64::MAX,
    }
}

/// What the outbox does once an attempt has ended.
#[derive(Clone, Copy, Debug, Eq, PartialEq)]
pub enum OutboxStep {
    /// The message is out.
    Delivered,
    /// Wait, then publish once more, as the given attempt.
    RetryAfter { delay_ms: u64, attempt: u32 },
    /// Give the message up.
    Abandoned,
}

/// What follows an attempt: `error` is the failure's text, or `None` when the publish succeeded.
pub open spec fn step_after(attempt: u32, error: Option<Seq<char>>) -> OutboxStep {
    match error {
        None => OutboxStep::Delivered,
        Some(error) => if names_missing_peers(error) && attempt < MAX_ATTEMPTS {
            OutboxStep::RetryAfter {
                delay_ms: delay_after(attempt as nat) as u64,
                attempt: (attempt + 1) as u32,
            }
        } else {
            OutboxStep::Abandoned
        },
    }
}

/// Decides what follows an attempt; attempts count from one.
pub fn after_publish(attempt: u32, error: Option<&str>) -> (r: OutboxStep)
    requires
        1 <= attempt,
    ensures
        r == step_after(
            attempt,
            match error {
                Some(text) => Some(text@),
                None => None,
            },
        ),
{
    match error {
        None => OutboxStep::Delivered,
        Some(text) => if retryable_cw_publish_failure(text, attempt) {
            OutboxStep::RetryAfter { delay_ms: retry_delay_ms(attempt), attempt: attempt + 1 }
        } else {
            OutboxStep::Abandoned
        },
    }
}

/// How often a message is published from `attempt` on, when its publishes end as `errors` says.
pub open spec fn publishes_made(attempt: u32, errors: Seq<Option<Seq<char>>>) -> nat
    decreases errors.len(),
{
    if errors.len() == 0 {
        0
    } else {
        match step_after(attempt, errors[0]) {
            OutboxStep::RetryAfter { delay_ms, attempt: next } => 1 + publishes_made(
                next,
                errors.drop_first(),
            ),
            _ => 1,
        }
    }
}

/// The pauses between the publishes of a message, in milliseconds, added up.
pub open spec fn time_waited(attempt: u32, errors: Seq<Option<Seq<char>>>) -> nat
    decreases errors.len(),
{
    if errors.len() == 0 {
        0
    } else {
        match step_after(attempt, errors[0]) {
            OutboxStep::RetryAfter { delay_ms, attempt: next } => delay_ms as nat + time_waited(
                next,
                errors.drop_first(),
            ),
            _ => 0,
        }
    }
}

proof fn lemma_delay_doubles(attempt: nat)
    requires
        1 <= attempt < MAX_ATTEMPTS,
    ensures
        delay_after(attempt) == FIRST_DELAY_MS * pow2((attempt - 1) as nat),
        pow2(attempt) == 2 * pow2((attempt - 1) as nat),
        pow2(attempt) <= 128,
{
    lemma2_to64();
    lemma_pow2_unfold(attempt);
    if attempt < 7 {
        lemma_pow2_strictly_increases(attempt, 7);
    }
}

proof fn lemma_outbox_bounds(attempt: u32, errors: Seq<Option<Seq<char>>>)
    requires
        1 <= attempt <= MAX_ATTEMPTS,
    ensures
        publishes_made(attempt, errors) + attempt <= MAX_ATTEMPTS + 1,
        time_waited(attempt, errors) + FIRST_DELAY_MS * pow2((attempt - 1) as nat) <= FIRST_DELAY_MS
            * 128,
    decreases errors.len(),
{
    lemma2_to64();
    if attempt < MAX_ATTEMPTS {
        lemma_delay_doubles(attempt as nat);
    }
    if errors.len() > 0 {
        if let OutboxStep::RetryAfter { delay_ms, attempt: next } = step_after(attempt, errors[0]) {
            lemma_outbox_bounds(next, errors.drop_first());
        }
    }
}

/// However its publishes end, a message is published at most eight times, and the outbox waits less
/// than thirty-two seconds for it.
pub proof fn law_outbox_gives_up(errors: Seq<Option<Seq<char>>>)
    ensures
        publishes_made(1, errors) <= MAX_ATTEMPTS,
        time_waited(1, errors) <= 31750,
{
    lemma2_to64();
    lemma_outbox_bounds(1, errors);
}

/// A failure is retried only when it says that no peer is subscribed and attempts are left, and each
/// pause is twice the one before.
pub proof fn law_retry_is_limited_to_missing_peers(attempt: u32, error: Seq<char>)
    requires
        1 <= attempt,
    ensures
        step_after(attempt, Some(error)) is RetryAfter <==> names_missing_peers(error) && attempt
            < MAX_ATTEMPTS,
        1 < attempt < MAX_ATTEMPTS ==> delay_after(attempt as nat) == 2 * delay_after(
            (attempt - 1) as nat,
        ),
{
    if 1 < attempt < MAX_ATTEMPTS {
        lemma_delay_doubles(attempt as nat);
        lemma_delay_doubles((attempt - 1) as nat);
    }
}

/// A failure is one of missing peers exactly when the error's name stands somewhere in its text,
/// whatever is around it.
pub proof fn law_missing_peers_are_named_anywhere_in_the_error(error: Seq<char>)
    ensures
        names_missing_peers(error) <==> exists|front: Seq<char>, back: Seq<char>|
            error == #[trigger] (front + "NoPeersSubscribedToTopic"@ + back),
{
    law_containing_text_is_having_it_in_the_middle(error, "NoPeersSubscribedToTopic"@);
}

/// A publish that succeeds ends the outbox. One that found no peer is followed, before the eighth
/// attempt, by the next attempt after the pause that is due; every other failure is given up.
pub proof fn law_every_attempt_is_followed_up(attempt: u32, error: Seq<char>)
    requires
        1 <= attempt,
    ensures
        step_after(attempt, None) == OutboxStep::Delivered,
        names_missing_peers(error) && attempt <= 7 ==> step_after(attempt, Some(error))
            == (OutboxStep::RetryAfter {
            delay_ms: delay_after(attempt as nat) as u64,
            attempt: (attempt + 1) as u32,
        }),
        !names_missing_peers(error) || attempt >= 8 ==> step_after(attempt, Some(error))
            == OutboxStep::Abandoned,
{
}

/// The first pause is a quarter of a second, and each pause is twice the one before, up to what the
/// clock can count.
pub proof fn law_pauses_double(attempt: nat)
    requires
        attempt >= 1,
    ensures
        delay_after(1) == 250,
        delay_after(attempt + 1) == (if 2 * delay_after(attempt) <= u64::MAX {
            2 * delay_after(attempt)
        } else {
            u64::MAX as nat
        }),
{
    lemma2_to64();
    lemma_pow2_unfold(attempt);
    let pause = FIRST_DELAY_MS as nat * pow2((attempt - 1) as nat);
    assert(FIRST_DELAY_MS as nat * pow2(attempt) == 2 * pause);
}

} // verus!
