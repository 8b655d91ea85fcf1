//! The timeout-bounded exact reader: fills the tail of the rolling
//! buffer with exactly the requested number of bytes, or fails as a
//! timeout or a source error while keeping every byte that did arrive.
//! Timer expiry reaches it as a [`SourceEvent::TimerFired`] outcome:
//! the runtime arms the first-byte timeout while no byte of the
//! request has arrived and the between-bytes timeout afterwards (see
//! [`wait_timeout`]).

use vstd::prelude::*;

use crate::buffer::RollingBuffer;
use crate::source::{ScriptedSource, SourceEvent};

verus! {

/// Failure of an exact read; `bytes_read` counts the bytes that had
/// arrived before the failure.
#[derive(PartialEq, Eq, Structural, Debug)]
pub enum ReadError {
    /// An armed timer fired before the next byte arrived.
    Timeout { bytes_read: usize },
    /// The source failed, or the wait was interrupted.
    Other { bytes_read: usize },
}

/// What an exact read of `need` bytes does to a source: the bytes it
/// obtains and the number of wait outcomes it consumes.
#[verifier::ext_equal]
pub ghost enum ReadModel {
    /// All requested bytes arrived.
    Filled { bytes: Seq<u8>, used: nat },
    /// A timer fired first; `bytes` is the partial progress.
    TimedOut { bytes: Seq<u8>, used: nat },
    /// The source failed or the script ran out; `bytes` is the
    /// partial progress.
    Failed { bytes: Seq<u8>, used: nat },
}

/// The outcome of reading exactly `need` bytes from the wait outcomes
/// `e`, consumed front to back.
pub open spec fn read_model(e: Seq<SourceEvent>, need: nat) -> ReadModel
    decreases need, e.len(),
{
    if need == 0 {
        ReadModel::Filled { bytes: Seq::empty(), used: 0 }
    } else if e.len() == 0 {
        ReadModel::Failed { bytes: Seq::empty(), used: 0 }
    } else {
        match e[0] {
            SourceEvent::Byte(b) => model_prepend(
                seq![b],
                1,
                read_model(e.skip(1), (need - 1) as nat),
            ),
            SourceEvent::TimerFired => ReadModel::TimedOut { bytes: Seq::empty(), used: 1 },
            SourceEvent::Failed => ReadModel::Failed { bytes: Seq::empty(), used: 1 },
        }
    }
}

/// Prefixes already-delivered bytes and already-consumed outcomes onto
/// the model of the rest of a read.
pub open spec fn model_prepend(bytes: Seq<u8>, used: nat, m: ReadModel) -> ReadModel {
    match m {
        ReadModel::Filled { bytes: b2, used: u2 } => ReadModel::Filled {
            bytes: bytes + b2,
            used: used + u2,
        },
        ReadModel::TimedOut { bytes: b2, used: u2 } => ReadModel::TimedOut {
            bytes: bytes + b2,
            used: used + u2,
        },
        ReadModel::Failed { bytes: b2, used: u2 } => ReadModel::Failed {
            bytes: bytes + b2,
            used: used + u2,
        },
    }
}

/// In every outcome the bytes obtained never exceed the request, the
/// request is met exactly when the outcome is `Filled`, and no more
/// wait outcomes are consumed than exist.
pub proof fn lemma_read_model_bounds(e: Seq<SourceEvent>, need: nat)
    ensures
        match read_model(e, need) {
            ReadModel::Filled { bytes, used } => bytes.len() == need && used <= e.len(),
            ReadModel::TimedOut { bytes, used } => bytes.len() < need && used <= e.len(),
            ReadModel::Failed { bytes, used } => bytes.len() < need && used <= e.len(),
        },
    decreases need, e.len(),
{
    if need == 0 {
    } else if e.len() == 0 {
    } else {
        match e[0] {
            SourceEvent::Byte(b) => {
                lemma_read_model_bounds(e.skip(1), (need - 1) as nat);
            },
            SourceEvent::TimerFired => {},
            SourceEvent::Failed => {},
        }
    }
}

/// Which timeout the runtime arms while waiting for the next byte of
/// an exact read: the first-byte timeout until the first byte of the
/// request has arrived, the between-bytes timeout afterwards.
pub fn wait_timeout(bytes_read: usize, first_byte: u64, between_bytes: u64) -> (r: u64)
    ensures
        r == if bytes_read == 0 {
            first_byte
        } else {
            between_bytes
        },
{
    if bytes_read == 0 {
        first_byte
    } else {
        between_bytes
    }
}

/// Appends exactly `need` bytes from the source onto the buffer, or
/// fails while appending only the bytes that did arrive. The outcome
/// is exactly what [`read_model`] says of the source's wait outcomes.
pub fn read_exact_with_timeouts(rx: &mut ScriptedSource, buf: &mut RollingBuffer, need: usize) -> (r:
    Result<(), ReadError>)
    requires
        old(rx).inv(),
        old(buf).inv(),
        old(buf)@.len() + need <= old(buf).cap_spec(),
    ensures
        final(rx).inv(),
        final(buf).inv(),
        final(buf).cap_spec() == old(buf).cap_spec(),
        match read_model(old(rx).remaining(), need as nat) {
            ReadModel::Filled { bytes, used } => r matches Ok(()) && final(buf)@ == old(buf)@
                + bytes && final(rx).remaining() == old(rx).remaining().skip(used as int),
            ReadModel::TimedOut { bytes, used } => r matches Err(ReadError::Timeout { bytes_read })
                && bytes_read == bytes.len() && final(buf)@ == old(buf)@ + bytes
                && final(rx).remaining() == old(rx).remaining().skip(used as int),
            ReadModel::Failed { bytes, used } => r matches Err(ReadError::Other { bytes_read })
                && bytes_read == bytes.len() && final(buf)@ == old(buf)@ + bytes
                && final(rx).remaining() == old(rx).remaining().skip(used as int),
        },
{
    let ghost e0 = old(rx).remaining();
    let mut got: usize = 0;
    let ghost used: nat = 0;
    while got < need
        invariant
            rx.inv(),
            buf.inv(),
            buf.cap_spec() == old(buf).cap_spec(),
            old(buf)@.len() + need <= old(buf).cap_spec(),
            e0 == old(rx).remaining(),
            got <= need,
            buf@.len() == old(buf)@.len() + got,
            buf@ == old(buf)@ + buf@.skip(old(buf)@.len() as int),
            used <= e0.len(),
            rx.remaining() == e0.skip(used as int),
            read_model(e0, need as nat) == model_prepend(
                buf@.skip(old(buf)@.len() as int),
                used,
                read_model(rx.remaining(), (need - got) as nat),
            ),
        decreases need - got,
    {
        let ghost delivered = buf@.skip(old(buf)@.len() as int);
        let ghost rem = rx.remaining();
        match rx.next() {
            None => {
                assert(read_model(rem, (need - got) as nat) == ReadModel::Failed {
                    bytes: Seq::<u8>::empty(),
                    used: 0nat,
                });
                assert(delivered + Seq::<u8>::empty() =~= delivered);
                return Err(ReadError::Other { bytes_read: got });
            },
            Some(SourceEvent::Byte(b)) => {
                proof {
                    assert(read_model(rem, (need - got) as nat) == model_prepend(
                        seq![b],
                        1,
                        read_model(rem.skip(1), (need - got - 1) as nat),
                    ));
                }
                buf.push_byte(b);
                got = got + 1;
                proof {
                    used = used + 1;
                    assert(buf@.skip(old(buf)@.len() as int) =~= delivered + seq![b]);
                    assert(rx.remaining() =~= e0.skip(used as int));
                    lemma_model_prepend_assoc(
                        delivered,
                        (used - 1) as nat,
                        seq![b],
                        1,
                        read_model(rx.remaining(), (need - got) as nat),
                    );
                }
            },
            Some(SourceEvent::TimerFired) => {
                proof {
                    assert(read_model(rem, (need - got) as nat) == ReadModel::TimedOut {
                        bytes: Seq::<u8>::empty(),
                        used: 1nat,
                    });
                    assert(delivered + Seq::<u8>::empty() =~= delivered);
                    assert(rx.remaining() =~= e0.skip(used as int + 1));
                }
                return Err(ReadError::Timeout { bytes_read: got });
            },
            Some(SourceEvent::Failed) => {
                proof {
                    assert(read_model(rem, (need - got) as nat) == ReadModel::Failed {
                        bytes: Seq::<u8>::empty(),
                        used: 1nat,
                    });
                    assert(delivered + Seq::<u8>::empty() =~= delivered);
                    assert(rx.remaining() =~= e0.skip(used as int + 1));
                }
                return Err(ReadError::Other { bytes_read: got });
            },
        }
    }
    proof {
        assert(read_model(rx.remaining(), 0nat) == ReadModel::Filled {
            bytes: Seq::<u8>::empty(),
            used: 0nat,
        });
        assert(buf@.skip(old(buf)@.len() as int) + Seq::<u8>::empty() =~= buf@.skip(
            old(buf)@.len() as int,
        ));
    }
    Ok(())
}

/// Prefixing twice is prefixing once with the concatenation.
proof fn lemma_model_prepend_assoc(b1: Seq<u8>, u1: nat, b2: Seq<u8>, u2: nat, m: ReadModel)
    ensures
        model_prepend(b1, u1, model_prepend(b2, u2, m)) == model_prepend(b1 + b2, u1 + u2, m),
{
    match m {
        ReadModel::Filled { bytes, used } => {
            assert(b1 + (b2 + bytes) =~= (b1 + b2) + bytes);
        },
        ReadModel::TimedOut { bytes, used } => {
            assert(b1 + (b2 + bytes) =~= (b1 + b2) + bytes);
        },
        ReadModel::Failed { bytes, used } => {
            assert(b1 + (b2 + bytes) =~= (b1 + b2) + bytes);
        },
    }
}

} // verus!
