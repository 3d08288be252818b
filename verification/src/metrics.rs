//! Metric cycle bookkeeping: one 32-bit word carries a 3-bit cycle id in
//! its high bits and the milliseconds elapsed since the last cycle in its
//! low 29 bits. Advancing the cycle folds a new timestamp into that word;
//! the caller supplies the timestamps, so the arithmetic here is exact.

use vstd::prelude::*;

verus! {

pub const FULL_CYCLE_BITS_LEN: u32 = 32;

pub const CYCLE_ID_BITS_LEN: u32 = 3;

/// Low 29 bits: the milliseconds part of the cycle word.
pub const CYCLE_TIME_MASK: u32 = 0x1FFF_FFFF;

pub const METRICS_LOG_INTERVAL_MS: u32 = 1000;

pub const METRICS_OVERFLOW_BUFFER: u32 = 10000;

/// The milliseconds part of a cycle word.
pub open spec fn spec_cycle_time(w: u32) -> u32 {
    w & 0x1FFF_FFFF
}

/// The cycle-id part of a cycle word.
pub open spec fn spec_cycle_id(w: u32) -> u32 {
    w >> 29
}

proof fn lemma_cycle_word(time: u32, id: u32)
    by (bit_vector)
    requires
        time <= 0x1FFF_FFFF,
        id < 8,
    ensures
        (time | (id << 29)) & 0x1FFF_FFFF == time,
        (time | (id << 29)) >> 29 == id,
{
}

proof fn lemma_cycle_parts(w: u32)
    by (bit_vector)
    ensures
        w & 0x1FFF_FFFF <= 0x1FFF_FFFF,
        w >> 29 < 8,
{
}

/// Advance the metric cycle: given the current cycle word, the previously
/// recorded timestamp and the new timestamp (both in milliseconds), return
/// the next cycle word and the timestamp to record.
///
/// A non-advancing timestamp changes nothing. The first real timestamp is
/// only recorded. Otherwise the elapsed time is added to the word's
/// milliseconds part, saturating; on overflow of the 29-bit part the
/// milliseconds reset to zero and the cycle id steps forward, wrapping
/// from 7 to 1 — and a zero id is always promoted to 1, marking the clock
/// as started.
pub fn next_cycle(cycle: u32, prev_time: u128, next_time: u128) -> (r: (u32, u128))
    ensures
        next_time <= prev_time ==> r == (cycle, prev_time),
        next_time > prev_time ==> r.1 == next_time,
        next_time > prev_time && prev_time == 0 ==> r.0 == cycle,
        next_time > prev_time && prev_time != 0 ==> {
            let diff = sub_saturated(next_time, prev_time);
            let time = add_saturated(spec_cycle_time(cycle), diff);
            if time > 0x1FFF_FFFF {
                spec_cycle_time(r.0) == 0
                    && spec_cycle_id(r.0) == next_id(spec_cycle_id(cycle))
            } else {
                spec_cycle_time(r.0) == time
                    && spec_cycle_id(r.0) == (if spec_cycle_id(cycle) == 0 {
                        1u32
                    } else {
                        spec_cycle_id(cycle)
                    })
            }
        },
{
    if next_time <= prev_time {
        return (cycle, prev_time);
    }
    if prev_time == 0 {
        return (cycle, next_time);
    }
    let wide_diff: u128 = next_time - prev_time;
    let time_diff: u32 = if wide_diff > 0xFFFF_FFFF {
        0xFFFF_FFFF
    } else {
        wide_diff as u32
    };
    let mut cycle_time: u32 = cycle & CYCLE_TIME_MASK;
    let mut cycle_id: u32 = cycle >> (FULL_CYCLE_BITS_LEN - CYCLE_ID_BITS_LEN);
    proof {
        lemma_cycle_parts(cycle);
    }
    cycle_time = if cycle_time > 0xFFFF_FFFF - time_diff {
        0xFFFF_FFFF
    } else {
        cycle_time + time_diff
    };
    let time_overflow: bool = cycle_time > CYCLE_TIME_MASK;
    if time_overflow {
        cycle_time = 0;
        cycle_id = (cycle_id + 1) % 8;
    }
    cycle_id = if cycle_id == 0 {
        1
    } else {
        cycle_id
    };
    proof {
        lemma_cycle_word(cycle_time, cycle_id);
    }
    let next_word: u32 = cycle_time | (cycle_id << (FULL_CYCLE_BITS_LEN - CYCLE_ID_BITS_LEN));
    (next_word, next_time)
}

/// One step of a metric counter. A metric packs the cycle word it last
/// logged under into its high 32 bits and an event counter into its low 32
/// bits. Given the metric's value after counting one event and the current
/// cycle word, decide whether the metric must be logged now: when a full
/// log interval has passed since it last logged, when the cycle word moved
/// backwards past it, or when the counter has just left its overflow
/// buffer. When logging, the metric is restamped with the current cycle
/// word and the advanced counter.
pub fn metric_step(metric: u64, metrics_cycle: u32) -> (r: (u64, bool))
    ensures
        r.1 == spec_metric_logs(metric, metrics_cycle),
        r.1 ==> r.0 == ((metrics_cycle as u64) * 0x1_0000_0000
            + (((metric as u32) as u64 + 1) % 0x1_0000_0000)),
        !r.1 ==> r.0 == metric,
{
    let cycle: u32 = (metric >> 32u64) as u32;
    let counter: u32 = metric as u32;
    proof {
        lemma_metric_parts(metric);
    }
    let cycle_overflow: bool = metrics_cycle < cycle;
    let time_diff: u32 = if cycle_overflow {
        ((metrics_cycle as u64 + 0x1_0000_0000) - cycle as u64) as u32
    } else {
        metrics_cycle - cycle
    };
    let next_counter: u32 = counter.wrapping_add(1);
    let logs: bool = time_diff >= METRICS_LOG_INTERVAL_MS || cycle_overflow
        || counter == METRICS_OVERFLOW_BUFFER;
    if logs {
        let restamped: u64 = ((metrics_cycle as u64) << 32u64) | (next_counter as u64);
        proof {
            lemma_metric_pack(metrics_cycle, next_counter);
        }
        (restamped, true)
    } else {
        (metric, false)
    }
}

/// Whether one counted event makes the metric log now.
pub open spec fn spec_metric_logs(metric: u64, metrics_cycle: u32) -> bool {
    let cycle = metric / 0x1_0000_0000;
    let counter = metric % 0x1_0000_0000;
    ||| (metrics_cycle - cycle) % 0x1_0000_0000 >= METRICS_LOG_INTERVAL_MS
    ||| metrics_cycle < cycle
    ||| counter == METRICS_OVERFLOW_BUFFER
}

proof fn lemma_metric_parts(metric: u64)
    by (bit_vector)
    ensures
        (metric >> 32u64) as u32 == metric / 0x1_0000_0000,
        metric as u32 == metric % 0x1_0000_0000,
{
}

proof fn lemma_metric_pack(hi: u32, lo: u32)
    by (bit_vector)
    ensures
        ((hi as u64) << 32u64) | (lo as u64) == (hi as u64) * 0x1_0000_0000 + (lo as u64),
{
}

/// The difference of two timestamps, clamped into a `u32`.
pub open spec fn sub_saturated(a: u128, b: u128) -> u32 {
    if a - b > 0xFFFF_FFFF {
        0xFFFF_FFFF
    } else {
        (a - b) as u32
    }
}

/// Saturating 32-bit addition.
pub open spec fn add_saturated(a: u32, b: u32) -> u32 {
    if a + b > 0xFFFF_FFFF {
        0xFFFF_FFFF
    } else {
        (a + b) as u32
    }
}

/// The cycle id after an overflow of the milliseconds part: it steps
/// forward modulo 8, and a zero result is promoted to 1.
pub open spec fn next_id(id: u32) -> u32 {
    if (id + 1) % 8 == 0 {
        1u32
    } else {
        ((id + 1) % 8) as u32
    }
}

} // verus!
