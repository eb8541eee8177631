//! The event pipeline's batching stage.
//!
//! Discovery can produce tens of thousands of events per second; the
//! batcher coalesces them and releases a batch when either a size
//! watermark is reached or a time interval has elapsed, and releases
//! whatever is buffered when the stream closes — so events reach the
//! consumer at a bounded rate, in order, and none is ever dropped.

use vstd::prelude::*;

use crate::types::StreamingScanEvent;

verus! {

/// Coalesces scan events into batches.
pub struct EventBatcher {
    /// Events received and not yet released.
    pub buffer: Vec<StreamingScanEvent>,
    /// Release a batch once it holds this many events.
    pub batch_size: usize,
    /// ... or once this many milliseconds have passed since the last
    /// release.
    pub interval_ms: u64,
    /// Time of the last release.
    pub last_flush_ms: u64,
    /// All events ever pushed, in order.
    pub pushed: Ghost<Seq<StreamingScanEvent>>,
    /// All events released to the consumer so far, in order.
    pub released: Ghost<Seq<StreamingScanEvent>>,
}

impl EventBatcher {
    /// No event is ever dropped or reordered: what was released,
    /// followed by what is still buffered, is exactly what was
    /// pushed.
    pub open spec fn wf(self) -> bool {
        self.released@ + self.buffer@ == self.pushed@
    }

    /// Creates a batcher with the given watermarks.
    pub fn new(batch_size: usize, interval_ms: u64, now_ms: u64) -> (b: EventBatcher)
        ensures
            b.wf(),
            b.pushed@.len() == 0,
            b.released@.len() == 0,
            b.buffer@.len() == 0,
            b.batch_size == batch_size,
            b.interval_ms == interval_ms,
            b.last_flush_ms == now_ms,
    {
        let b = EventBatcher {
            buffer: Vec::new(),
            batch_size,
            interval_ms,
            last_flush_ms: now_ms,
            pushed: Ghost(Seq::empty()),
            released: Ghost(Seq::empty()),
        };
        proof {
            assert(b.released@ + b.buffer@ =~= b.pushed@);
        }
        b
    }

    /// Accepts one event; returns a batch to emit when a watermark is
    /// hit.  The returned batch carries the buffered events in the
    /// order they were pushed.
    pub fn push(&mut self, event: StreamingScanEvent, now_ms: u64) -> (batch: Option<
        Vec<StreamingScanEvent>,
    >)
        requires
            old(self).wf(),
            now_ms >= old(self).last_flush_ms,
        ensures
            final(self).wf(),
            final(self).pushed@ == old(self).pushed@.push(event),
            final(self).batch_size == old(self).batch_size,
            final(self).interval_ms == old(self).interval_ms,
            batch is Some <==> (old(self).buffer@.len() + 1 >= old(self).batch_size || now_ms
                - old(self).last_flush_ms >= old(self).interval_ms),
            final(self).last_flush_ms == if batch is Some {
                now_ms
            } else {
                old(self).last_flush_ms
            },
            match batch {
                Some(v) => {
                    &&& v@ == old(self).buffer@.push(event)
                    &&& final(self).released@ == old(self).released@ + v@
                    &&& final(self).buffer@.len() == 0
                },
                None => {
                    &&& final(self).released@ == old(self).released@
                    &&& final(self).buffer@ == old(self).buffer@.push(event)
                },
            },
    {
        self.buffer.push(event);
        proof {
            self.pushed@ = self.pushed@.push(event);
            assert(self.released@ + self.buffer@ =~= self.pushed@);
        }
        if self.buffer.len() >= self.batch_size || now_ms - self.last_flush_ms >= self.interval_ms {
            let mut out: Vec<StreamingScanEvent> = Vec::new();
            core::mem::swap(&mut self.buffer, &mut out);
            self.last_flush_ms = now_ms;
            proof {
                self.released@ = self.released@ + out@;
                assert(self.released@ + self.buffer@ =~= self.pushed@);
            }
            Some(out)
        } else {
            None
        }
    }

    /// Closes the stream: releases whatever is still buffered, so
    /// that after the trailing flush everything pushed has been
    /// released.
    pub fn close(&mut self) -> (batch: Vec<StreamingScanEvent>)
        requires
            old(self).wf(),
        ensures
            final(self).wf(),
            batch@ == old(self).buffer@,
            final(self).pushed@ == old(self).pushed@,
            final(self).released@ == final(self).pushed@,
            final(self).buffer@.len() == 0,
            final(self).batch_size == old(self).batch_size,
            final(self).interval_ms == old(self).interval_ms,
            final(self).last_flush_ms == old(self).last_flush_ms,
    {
        let mut out: Vec<StreamingScanEvent> = Vec::new();
        core::mem::swap(&mut self.buffer, &mut out);
        proof {
            self.released@ = self.released@ + out@;
            assert(self.released@ + self.buffer@ =~= self.pushed@);
            assert(self.released@ =~= self.pushed@);
        }
        out
    }

    /// Number of events waiting in the buffer.
    pub fn buffered(&self) -> (n: usize)
        ensures
            n == self.buffer@.len(),
    {
        self.buffer.len()
    }
}

} // verus!
