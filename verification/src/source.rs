//! The transport source as the receiver sees it: a sequence of wait
//! outcomes. Each time the receive path waits on the link, exactly one
//! of three things happens — a byte arrives, the armed timer fires
//! first, or the source fails. The surrounding runtime performs the
//! actual reads and timer races and records their outcomes as events;
//! the receive logic here is verified for every event sequence.

use vstd::prelude::*;

verus! {

/// The outcome of one wait on the transport source.
#[derive(Clone, Copy, PartialEq, Eq, Structural, Debug)]
pub enum SourceEvent {
    /// A byte arrived before any armed timer fired.
    Byte(u8),
    /// The armed timer fired before any byte arrived.
    TimerFired,
    /// The source reported an error.
    Failed,
}

/// A source whose wait outcomes are given up front as a script,
/// consumed front to back. An exhausted script stands for a wait that
/// is interrupted before it can complete, and is reported as a source
/// failure.
pub struct ScriptedSource {
    events: Vec<SourceEvent>,
    pos: usize,
}

impl ScriptedSource {
    /// The cursor never runs past the script.
    pub closed spec fn inv(&self) -> bool {
        self.pos <= self.events@.len()
    }

    /// The wait outcomes not yet consumed.
    pub closed spec fn remaining(&self) -> Seq<SourceEvent> {
        self.events@.skip(self.pos as int)
    }

    /// Wraps a script of wait outcomes.
    pub fn new(events: Vec<SourceEvent>) -> (r: ScriptedSource)
        ensures
            r.inv(),
            r.remaining() == events@,
    {
        let r = ScriptedSource { events, pos: 0 };
        proof {
            assert(r.remaining() =~= r.events@);
        }
        r
    }

    /// Consumes and returns the next wait outcome, or `None` when the
    /// script is exhausted.
    pub fn next(&mut self) -> (r: Option<SourceEvent>)
        requires
            old(self).inv(),
        ensures
            final(self).inv(),
            old(self).remaining().len() == 0 ==> r is None && final(self).remaining()
                == old(self).remaining(),
            old(self).remaining().len() > 0 ==> r == Some(old(self).remaining()[0])
                && final(self).remaining() == old(self).remaining().skip(1),
    {
        if self.pos < self.events.len() {
            let e = self.events[self.pos];
            self.pos = self.pos + 1;
            proof {
                assert(self.remaining() =~= old(self).remaining().skip(1));
            }
            Some(e)
        } else {
            None
        }
    }
}

} // verus!
