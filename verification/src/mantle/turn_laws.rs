//! Whose turn it is in a channel, counted from the last message or from the start
//! of its sequencer's turn.

use vstd::prelude::*;

use crate::mantle::channel::{sequencer_at, turn_start, ChannelView};

verus! {

/// Once a timeout has passed since the last message, turns are counted in
/// timeouts from that message on: in the `k`-th timeout behind it, the turn is
/// that of the `k`-th sequencer after the one of the message, and it began with
/// that timeout.
pub proof fn timeouts_count_from_the_last_message(channel: ChannelView, slot: u64, k: int)
    requires
        channel.accredited_keys.len() > 0,
        channel.posting_timeout.0 > 0,
        k >= 1,
        channel.tip_slot.0 + k * channel.posting_timeout.0 <= slot,
        slot < channel.tip_slot.0 + (k + 1) * channel.posting_timeout.0,
    ensures
        turn_start(channel, slot) == channel.tip_slot.0 + k * channel.posting_timeout.0,
        sequencer_at(channel, slot) == (channel.tip_sequencer + k)
            % channel.accredited_keys.len() as int,
{
    let timeout = channel.posting_timeout.0 as int;
    let elapsed = slot - channel.tip_slot.0;
    lemma_whole_periods(elapsed, timeout, k);
    assert(k * timeout >= timeout) by (nonlinear_arith)
        requires
            k >= 1,
            timeout > 0,
    ;
}

/// When a timeout has passed since the last message, to the slot, the next
/// sequencer's turn begins.
pub proof fn next_sequencer_takes_over_at_the_timeout(channel: ChannelView, slot: u64)
    requires
        channel.accredited_keys.len() > 0,
        channel.posting_timeout.0 > 0,
        slot == channel.tip_slot.0 + channel.posting_timeout.0,
    ensures
        turn_start(channel, slot) == slot,
        sequencer_at(channel, slot) == (channel.tip_sequencer + 1)
            % channel.accredited_keys.len() as int,
{
    timeouts_count_from_the_last_message(channel, slot, 1);
}

/// As long as no timeout has passed since the last message, turns are counted in
/// timeframes from the start of its sequencer's turn on.
pub proof fn timeframes_count_from_the_turns_start(channel: ChannelView, slot: u64, k: int)
    requires
        channel.accredited_keys.len() > 0,
        channel.posting_timeout.0 == 0 || slot < channel.tip_slot.0 + channel.posting_timeout.0,
        channel.posting_timeframe.0 > 0,
        k >= 0,
        channel.tip_sequencer_starting_slot.0 + k * channel.posting_timeframe.0 <= slot,
        slot < channel.tip_sequencer_starting_slot.0 + (k + 1) * channel.posting_timeframe.0,
    ensures
        turn_start(channel, slot) == channel.tip_sequencer_starting_slot.0 + k
            * channel.posting_timeframe.0,
        sequencer_at(channel, slot) == (channel.tip_sequencer + k)
            % channel.accredited_keys.len() as int,
{
    lemma_whole_periods(
        slot - channel.tip_sequencer_starting_slot.0,
        channel.posting_timeframe.0 as int,
        k,
    );
}

/// Without a timeframe, the sequencer of the last message keeps its turn until a
/// timeout passes.
pub proof fn turn_without_timeframe_lasts_until_a_timeout(channel: ChannelView, slot: u64)
    requires
        channel.posting_timeout.0 == 0 || slot < channel.tip_slot.0 + channel.posting_timeout.0,
        channel.posting_timeframe.0 == 0,
    ensures
        turn_start(channel, slot) == channel.tip_sequencer_starting_slot.0,
        sequencer_at(channel, slot) == channel.tip_sequencer,
{
}

/// A message that comes later puts the next timeout off by as much: the turns
/// after a timeout depend on when the last message came, and not on when its
/// sequencer's turn began or on the timeframe.
pub proof fn timeouts_depend_on_the_last_message_alone(
    a: ChannelView,
    b: ChannelView,
    slot: u64,
    later: u64,
)
    requires
        a.accredited_keys.len() == b.accredited_keys.len(),
        a.accredited_keys.len() > 0,
        a.posting_timeout == b.posting_timeout,
        a.tip_sequencer == b.tip_sequencer,
        a.posting_timeout.0 > 0,
        slot >= a.tip_slot.0 + a.posting_timeout.0,
        later - b.tip_slot.0 == slot - a.tip_slot.0,
    ensures
        sequencer_at(b, later) == sequencer_at(a, slot),
        turn_start(b, later) - b.tip_slot.0 == turn_start(a, slot) - a.tip_slot.0,
{
}

proof fn lemma_whole_periods(elapsed: int, period: int, k: int)
    requires
        period > 0,
        k * period <= elapsed < (k + 1) * period,
    ensures
        elapsed / period == k,
{
    assert((k + 1) * period == k * period + period) by (nonlinear_arith);
    vstd::arithmetic::div_mod::lemma_fundamental_div_mod_converse(
        elapsed,
        period,
        k,
        elapsed - k * period,
    );
}

} // verus!
