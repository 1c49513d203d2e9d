//! The input model of the harmless visual demo: it counts typed characters,
//! never stores them, and shows brief feedback after `Enter`.

use vstd::prelude::*;

use crate::input::{is_control, printable};

verus! {

/// The most characters that the demo indicator counts.
pub const MAX_INPUT_LENGTH: usize = 12;

/// How long the demo shows feedback after `Enter`: two seconds, in nanoseconds.
pub const FEEDBACK_DURATION: u64 = 2_000_000_000;

/// How often the demo repaints while feedback shows: 50 ms.
pub const FEEDBACK_REPAINT: u64 = 50_000_000;

/// How often the demo repaints otherwise: one second.
pub const IDLE_REPAINT: u64 = 1_000_000_000;

/// What the demo remembers of its input: a length, never the characters.
#[derive(Clone, Copy, Debug)]
pub struct DemoInput {
    pub input_length: usize,
    pub feedback_started_at: Option<u64>,
}

/// Whether feedback that started at `started_at` still shows at `now`.
pub open spec fn feedback_showing(started_at: Option<u64>, now: u64) -> bool {
    match started_at {
        Some(start) => (if now >= start {
            now - start
        } else {
            0
        }) < FEEDBACK_DURATION,
        None => false,
    }
}

impl DemoInput {
    /// No input and no feedback.
    pub fn new() -> (input: Self)
        ensures
            input.input_length == 0,
            input.feedback_started_at is None,
    {
        DemoInput { input_length: 0, feedback_started_at: None }
    }

    /// Counts the printable characters of `text`, up to the limit.
    pub fn push_text(&mut self, text: &str)
        ensures
            final(self).feedback_started_at == old(self).feedback_started_at,
            final(self).input_length == if old(self).input_length + printable(text@).len()
                <= MAX_INPUT_LENGTH {
                old(self).input_length + printable(text@).len()
            } else {
                MAX_INPUT_LENGTH as int
            },
    {
        let length = text.unicode_len();
        let mut count: usize = 0;
        let mut index: usize = 0;
        while index < length
            invariant
                index <= length,
                length == text@.len(),
                count == printable(text@.take(index as int)).len(),
                count <= index,
            decreases length - index,
        {
            let character = text.get_char(index);
            proof {
                assert(text@.take(index + 1).drop_last() =~= text@.take(index as int));
                assert(text@.take(index + 1).last() == character);
            }
            if !is_control(character) {
                count = count + 1;
            }
            index = index + 1;
        }
        assert(text@.take(length as int) =~= text@);
        let total = self.input_length.saturating_add(count);
        self.input_length = if total < MAX_INPUT_LENGTH {
            total
        } else {
            MAX_INPUT_LENGTH
        };
    }

    /// `Backspace` lowers the count by one.
    pub fn backspace(&mut self)
        ensures
            final(self).feedback_started_at == old(self).feedback_started_at,
            final(self).input_length == if old(self).input_length == 0 {
                0
            } else {
                old(self).input_length - 1
            },
    {
        self.input_length = self.input_length.saturating_sub(1);
    }

    /// `Enter` clears the count and starts feedback at `now`.
    pub fn submit(&mut self, now: u64)
        ensures
            final(self).input_length == 0,
            final(self).feedback_started_at == Some(now),
    {
        self.input_length = 0;
        self.feedback_started_at = Some(now);
    }

    /// Whether feedback still shows at `now`.
    pub fn is_showing_feedback(&self, now: u64) -> (showing: bool)
        ensures
            showing == feedback_showing(self.feedback_started_at, now),
    {
        match self.feedback_started_at {
            Some(start) => now.saturating_sub(start) < FEEDBACK_DURATION,
            None => false,
        }
    }

    /// How long to wait before the next repaint at `now`.
    pub fn repaint_interval(&self, now: u64) -> (interval: u64)
        ensures
            interval == if feedback_showing(self.feedback_started_at, now) {
                FEEDBACK_REPAINT
            } else {
                IDLE_REPAINT
            },
    {
        if self.is_showing_feedback(now) {
            FEEDBACK_REPAINT
        } else {
            IDLE_REPAINT
        }
    }
}

} // verus!
