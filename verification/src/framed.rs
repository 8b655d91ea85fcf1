//! Frame transport: the buffered receiver that owns sync detection
//! and fragment accumulation over the rolling buffer, and the
//! stateless sender that emits sync markers and byte fragments into a
//! byte sink.

use vstd::prelude::*;

use crate::buffer::{find_first, lemma_find_first, RollingBuffer};
use crate::reader::{read_exact_with_timeouts, read_model, ReadError, ReadModel};
use crate::source::{ScriptedSource, SourceEvent};

verus! {

/// Failure of the buffered receiver.
#[derive(PartialEq, Eq, Structural, Debug)]
pub enum AsyncReadReceiverError {
    /// The declared fragment cannot fit in the buffer's remaining
    /// capacity.
    BufferCapacity,
    /// A timeout expired waiting for data.
    Timeout,
    /// The source failed, or a wait was interrupted.
    Other,
}

/// What waiting for a sync marker does to the source: whether a
/// marker byte arrives, and how many wait outcomes are consumed up to
/// and including it.
#[verifier::ext_equal]
pub ghost enum SyncModel {
    /// A marker byte arrived as the `used`-th outcome.
    Found { used: nat },
    /// The source failed, or the script ran out, after `used`
    /// outcomes, none of them a marker byte.
    Lost { used: nat },
}

/// Adds already-consumed wait outcomes onto the model of the rest of
/// a marker wait.
pub open spec fn sync_bump(m: SyncModel, k: nat) -> SyncModel {
    match m {
        SyncModel::Found { used } => SyncModel::Found { used: used + k },
        SyncModel::Lost { used } => SyncModel::Lost { used: used + k },
    }
}

/// The outcome of waiting for a `sync` marker byte on the wait
/// outcomes `e`: bytes other than the marker are read and dropped,
/// timer expiries are ignored (no timer is armed during the marker
/// wait), and a source failure or an exhausted script ends the wait.
pub open spec fn sync_model(e: Seq<SourceEvent>, sync: u8) -> SyncModel
    decreases e.len(),
{
    if e.len() == 0 {
        SyncModel::Lost { used: 0 }
    } else {
        match e[0] {
            SourceEvent::Byte(b) => if b == sync {
                SyncModel::Found { used: 1 }
            } else {
                sync_bump(sync_model(e.skip(1), sync), 1)
            },
            SourceEvent::TimerFired => sync_bump(sync_model(e.skip(1), sync), 1),
            SourceEvent::Failed => SyncModel::Lost { used: 1 },
        }
    }
}

/// What one fragment request does to the buffer and the source: the
/// fast path when the bytes are already buffered, the capacity
/// rejection when the missing bytes cannot fit, and otherwise an
/// exact read of the missing bytes onto the buffer's tail.
#[verifier::ext_equal]
pub ghost enum FragOutcome {
    /// The fragment is fully buffered.
    Done { buf: Seq<u8>, events: Seq<SourceEvent> },
    /// The request failed; the buffer keeps the bytes that did
    /// arrive.
    Fail { err: AsyncReadReceiverError, buf: Seq<u8>, events: Seq<SourceEvent> },
}

/// The outcome of requesting bytes `[pos, pos + len)` of the buffer,
/// for a buffer content `buf`, wait outcomes `events` and buffer
/// capacity `cap`. Requires `pos <= buf.len()`.
pub open spec fn frag_model(
    buf: Seq<u8>,
    events: Seq<SourceEvent>,
    pos: nat,
    len: nat,
    cap: nat,
) -> FragOutcome {
    let avail = buf.len() - pos;
    if len <= avail {
        FragOutcome::Done { buf, events }
    } else {
        let missing = (len - avail) as nat;
        if missing + buf.len() > cap {
            FragOutcome::Fail { err: AsyncReadReceiverError::BufferCapacity, buf, events }
        } else {
            match read_model(events, missing) {
                ReadModel::Filled { bytes, used } => FragOutcome::Done {
                    buf: buf + bytes,
                    events: events.skip(used as int),
                },
                ReadModel::TimedOut { bytes, used } => FragOutcome::Fail {
                    err: AsyncReadReceiverError::Timeout,
                    buf: buf + bytes,
                    events: events.skip(used as int),
                },
                ReadModel::Failed { bytes, used } => FragOutcome::Fail {
                    err: AsyncReadReceiverError::Other,
                    buf: buf + bytes,
                    events: events.skip(used as int),
                },
            }
        }
    }
}

/// The buffered receiver: a fixed-capacity rolling buffer, the
/// transport source, the sync marker value, and the two configured
/// timeouts that the runtime arms while waiting for frame bytes.
pub struct AsyncReadReceiver {
    buf: RollingBuffer,
    rx: ScriptedSource,
    sync: u8,
    first_byte_timeout: u64,
    between_bytes_timeout: u64,
}

impl AsyncReadReceiver {
    /// The rolling buffer's content.
    pub closed spec fn buf_view(&self) -> Seq<u8> {
        self.buf@
    }

    /// The rolling buffer's capacity.
    pub closed spec fn cap(&self) -> nat {
        self.buf.cap_spec()
    }

    /// The wait outcomes not yet consumed from the source.
    pub closed spec fn events(&self) -> Seq<SourceEvent> {
        self.rx.remaining()
    }

    /// The sync marker value.
    pub closed spec fn sync_spec(&self) -> u8 {
        self.sync
    }

    /// The configured first-byte timeout.
    pub closed spec fn first_byte_timeout_spec(&self) -> u64 {
        self.first_byte_timeout
    }

    /// The configured between-bytes timeout.
    pub closed spec fn between_bytes_timeout_spec(&self) -> u64 {
        self.between_bytes_timeout
    }

    /// Buffer and source cursor are well formed.
    pub closed spec fn inv(&self) -> bool {
        self.buf.inv() && self.rx.inv()
    }

    /// A well-formed receiver's buffer is bounded by its capacity.
    pub proof fn lemma_inv_buf(&self)
        requires
            self.inv(),
        ensures
            self.buf_view().len() <= self.cap(),
    {
        self.buf.lemma_inv_len();
    }

    /// The receiver's configuration is unchanged.
    pub open spec fn config_unchanged(&self, other: &AsyncReadReceiver) -> bool {
        &&& self.sync_spec() == other.sync_spec()
        &&& self.cap() == other.cap()
        &&& self.first_byte_timeout_spec() == other.first_byte_timeout_spec()
        &&& self.between_bytes_timeout_spec() == other.between_bytes_timeout_spec()
    }

    /// Builds a receiver over a buffer and a source.
    pub fn new(
        buf: RollingBuffer,
        rx: ScriptedSource,
        sync: u8,
        first_byte_timeout: u64,
        between_bytes_timeout: u64,
    ) -> (r: AsyncReadReceiver)
        requires
            buf.inv(),
            rx.inv(),
        ensures
            r.inv(),
            r.buf_view() == buf@,
            r.cap() == buf.cap_spec(),
            r.events() == rx.remaining(),
            r.sync_spec() == sync,
            r.first_byte_timeout_spec() == first_byte_timeout,
            r.between_bytes_timeout_spec() == between_bytes_timeout,
    {
        AsyncReadReceiver { buf, rx, sync, first_byte_timeout, between_bytes_timeout }
    }

    /// The current buffer contents.
    pub fn buf(&self) -> (s: &[u8])
        ensures
            s@ == self.buf_view(),
    {
        self.buf.as_slice()
    }

    /// The configured timeouts, first-byte then between-bytes, for
    /// the runtime that arms them.
    pub fn timeouts(&self) -> (r: (u64, u64))
        ensures
            r.0 == self.first_byte_timeout_spec(),
            r.1 == self.between_bytes_timeout_spec(),
    {
        (self.first_byte_timeout, self.between_bytes_timeout)
    }

    /// Empties the buffer.
    pub fn clear_buf(&mut self)
        requires
            old(self).inv(),
        ensures
            final(self).inv(),
            final(self).config_unchanged(old(self)),
            final(self).buf_view() == Seq::<u8>::empty(),
            final(self).events() == old(self).events(),
    {
        self.buf.clear();
    }

    /// Discards the first `bytes` bytes of the buffer, keeping any
    /// bytes already buffered past them for the next cycle.
    pub fn remove_frame(&mut self, bytes: usize)
        requires
            old(self).inv(),
            bytes <= old(self).buf_view().len(),
        ensures
            final(self).inv(),
            final(self).config_unchanged(old(self)),
            final(self).buf_view() == old(self).buf_view().skip(bytes as int),
            final(self).events() == old(self).events(),
    {
        self.buf.remove_leading(bytes);
    }

    /// Ensures the buffer's content begins immediately after the most
    /// recently seen sync marker: a marker already in the buffer is
    /// discarded together with everything before it, keeping the
    /// remainder; otherwise the buffer is cleared and bytes are read
    /// and dropped until a marker arrives.
    pub fn receive_sync(&mut self) -> (r: Result<(), AsyncReadReceiverError>)
        requires
            old(self).inv(),
        ensures
            final(self).inv(),
            final(self).config_unchanged(old(self)),
            match find_first(old(self).buf_view(), old(self).sync_spec()) {
                Some(i) => r matches Ok(()) && final(self).buf_view() == old(self).buf_view().skip(
                    i as int + 1,
                ) && final(self).events() == old(self).events(),
                None => match sync_model(old(self).events(), old(self).sync_spec()) {
                    SyncModel::Found { used } => r matches Ok(()) && final(self).buf_view()
                        == Seq::<u8>::empty() && final(self).events() == old(self).events().skip(
                        used as int,
                    ),
                    SyncModel::Lost { used } => r matches Err(AsyncReadReceiverError::Other)
                        && final(self).buf_view() == Seq::<u8>::empty() && final(self).events()
                        == old(self).events().skip(used as int),
                },
            },
    {
        proof {
            lemma_find_first(self.buf@, self.sync);
        }
        match self.buf.find_byte(self.sync) {
            Some(sync_pos) => {
                let n = self.buf.len();
                assert(sync_pos < n);
                self.buf.remove_leading(sync_pos + 1);
                Ok(())
            },
            None => {
                self.buf.clear();
                let ghost e0 = old(self).events();
                let ghost sync = old(self).sync_spec();
                let ghost used: nat = 0;
                loop
                    invariant
                        self.rx.inv(),
                        self.buf.inv(),
                        self.config_unchanged(old(self)),
                        self.buf@ == Seq::<u8>::empty(),
                        e0 == old(self).events(),
                        sync == old(self).sync_spec(),
                        sync == self.sync,
                        find_first(old(self).buf_view(), sync) is None,
                        used <= e0.len(),
                        self.rx.remaining() == e0.skip(used as int),
                        sync_model(e0, sync) == sync_bump(
                            sync_model(self.rx.remaining(), sync),
                            used,
                        ),
                    decreases self.rx.remaining().len(),
                {
                    let ghost rem = self.rx.remaining();
                    match self.rx.next() {
                        None => {
                            assert(sync_model(rem, sync) == SyncModel::Lost { used: 0nat });
                            return Err(AsyncReadReceiverError::Other);
                        },
                        Some(SourceEvent::Byte(b)) => {
                            if b == self.sync {
                                proof {
                                    assert(sync_model(rem, sync) == SyncModel::Found {
                                        used: 1nat,
                                    });
                                    assert(self.rx.remaining() =~= e0.skip(used as int + 1));
                                }
                                return Ok(());
                            }
                            proof {
                                assert(sync_model(rem, sync) == sync_bump(
                                    sync_model(rem.skip(1), sync),
                                    1,
                                ));
                                used = used + 1;
                                assert(self.rx.remaining() =~= e0.skip(used as int));
                            }
                        },
                        Some(SourceEvent::TimerFired) => {
                            proof {
                                assert(sync_model(rem, sync) == sync_bump(
                                    sync_model(rem.skip(1), sync),
                                    1,
                                ));
                                used = used + 1;
                                assert(self.rx.remaining() =~= e0.skip(used as int));
                            }
                        },
                        Some(SourceEvent::Failed) => {
                            proof {
                                assert(sync_model(rem, sync) == SyncModel::Lost { used: 1nat });
                                assert(self.rx.remaining() =~= e0.skip(used as int + 1));
                            }
                            return Err(AsyncReadReceiverError::Other);
                        },
                    }
                }
            },
        }
    }

    /// Ensures bytes `[fragment_pos, fragment_pos + fragment_len)` of
    /// the buffer are populated, reading the missing tail from the
    /// source only if needed. On failure the buffer keeps exactly the
    /// bytes that did arrive.
    pub fn receive_frame_fragment(&mut self, fragment_pos: usize, fragment_len: usize) -> (r:
        Result<(), AsyncReadReceiverError>)
        requires
            old(self).inv(),
            fragment_pos <= old(self).buf_view().len(),
        ensures
            final(self).inv(),
            final(self).config_unchanged(old(self)),
            match frag_model(
                old(self).buf_view(),
                old(self).events(),
                fragment_pos as nat,
                fragment_len as nat,
                old(self).cap(),
            ) {
                FragOutcome::Done { buf, events } => r matches Ok(()) && final(self).buf_view()
                    == buf && final(self).events() == events,
                FragOutcome::Fail { err, buf, events } => r matches Err(e) && e == err
                    && final(self).buf_view() == buf && final(self).events() == events,
            },
    {
        proof {
            self.buf.lemma_inv_len();
        }
        let bytes_available = self.buf.len() - fragment_pos;
        if fragment_len <= bytes_available {
            return Ok(());
        }
        let bytes_to_read = fragment_len - bytes_available;
        if bytes_to_read > self.buf.capacity() - self.buf.len() {
            return Err(AsyncReadReceiverError::BufferCapacity);
        }
        match read_exact_with_timeouts(&mut self.rx, &mut self.buf, bytes_to_read) {
            Ok(()) => Ok(()),
            Err(ReadError::Timeout { bytes_read: _ }) => Err(AsyncReadReceiverError::Timeout),
            Err(ReadError::Other { bytes_read: _ }) => Err(AsyncReadReceiverError::Other),
        }
    }
}

/// The synchronous frame sender: a stateless pass-through that writes
/// the configured marker byte or a given fragment verbatim into its
/// byte sink, whose accumulated content the runtime drains onto the
/// wire.
pub struct WriteSender {
    tx: Vec<u8>,
    sync: u8,
}

impl WriteSender {
    /// Everything written into the sink so far.
    pub closed spec fn sent(&self) -> Seq<u8> {
        self.tx@
    }

    /// The sync marker value.
    pub closed spec fn sync_spec(&self) -> u8 {
        self.sync
    }

    /// Builds a sender over a sink.
    pub fn new(tx: Vec<u8>, sync: u8) -> (r: WriteSender)
        ensures
            r.sent() == tx@,
            r.sync_spec() == sync,
    {
        WriteSender { tx, sync }
    }

    /// Emits exactly one sync marker byte.
    pub fn send_sync(&mut self)
        ensures
            final(self).sent() == old(self).sent().push(old(self).sync_spec()),
            final(self).sync_spec() == old(self).sync_spec(),
    {
        self.tx.push(self.sync);
    }

    /// Emits a byte slice verbatim.
    pub fn send_frame_fragment(&mut self, buf: &[u8])
        ensures
            final(self).sent() == old(self).sent() + buf@,
            final(self).sync_spec() == old(self).sync_spec(),
    {
        self.tx.extend_from_slice(buf);
    }

    /// The sink's accumulated content.
    pub fn sent_bytes(&self) -> (s: &[u8])
        ensures
            s@ == self.sent(),
    {
        self.tx.as_slice()
    }
}

} // verus!
