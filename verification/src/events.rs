//! An append-only, multi-reader broadcast event log.
//!
//! Writers append events in order; every registered reader has an
//! independent cursor starting at the write position current at
//! registration. A read yields exactly the events written since the
//! reader's cursor and advances the cursor past them, so no reader ever
//! sees an event twice and no event written before a read is skipped.
//! The buffer can be physically truncated once every reader has passed an
//! event; the logical log of everything ever written is unchanged by that.

use vstd::prelude::*;

verus! {

/// The logical state of a channel: everything ever written, and the
/// absolute cursor of each registered reader.
#[verifier::ext_equal]
pub ghost struct ChannelModel<T> {
    pub written: Seq<T>,
    pub cursors: Seq<int>,
}

/// An independent read cursor, handed out by
/// [`EventChannel::register_reader`].
#[derive(Clone, Copy, PartialEq, Eq, Structural, Debug)]
pub struct ReaderId {
    pub index: usize,
}

/// A broadcast channel of events of type `T`. The buffer holds the events
/// not yet physically discarded; the ghost prefix remembers the discarded
/// ones, so the logical log only ever grows. Stored cursors are relative
/// to the discarded prefix.
pub struct EventChannel<T> {
    buf: Vec<T>,
    dropped: Ghost<Seq<T>>,
    cursors: Vec<usize>,
}

impl<T> View for EventChannel<T> {
    type V = ChannelModel<T>;

    closed spec fn view(&self) -> ChannelModel<T> {
        ChannelModel {
            written: self.dropped@ + self.buf@,
            cursors: self.cursors@.map_values(|c: usize| self.dropped@.len() + c),
        }
    }
}

impl<T> EventChannel<T> {
    /// Internal shape invariant: every cursor lies between the truncation
    /// point and the write position.
    pub closed spec fn wf(&self) -> bool {
        forall|i: int|
            0 <= i < self.cursors@.len() ==> #[trigger] self.cursors@[i] <= self.buf@.len()
    }

    /// An empty channel with no readers.
    pub fn new() -> (c: Self)
        ensures
            c.wf(),
            c@.written == Seq::<T>::empty(),
            c@.cursors == Seq::<int>::empty(),
    {
        let c = EventChannel { buf: Vec::new(), dropped: Ghost(Seq::empty()), cursors: Vec::new() };
        proof {
            assert(c@.written =~= Seq::<T>::empty());
            assert(c@.cursors =~= Seq::<int>::empty());
        }
        c
    }

    /// Registers a new reader whose cursor starts at the current write
    /// position: it will see exactly the events written from now on.
    pub fn register_reader(&mut self) -> (r: ReaderId)
        requires
            old(self).wf(),
        ensures
            final(self).wf(),
            r.index == old(self)@.cursors.len(),
            final(self)@.written == old(self)@.written,
            final(self)@.cursors == old(self)@.cursors.push(old(self)@.written.len() as int),
    {
        let r = ReaderId { index: self.cursors.len() };
        let pos = self.buf.len();
        self.cursors.push(pos);
        proof {
            assert(self@.cursors =~= old(self)@.cursors.push(old(self)@.written.len() as int));
        }
        r
    }

    /// The number of registered readers.
    pub fn reader_count(&self) -> (n: usize)
        ensures
            n == self@.cursors.len(),
    {
        self.cursors.len()
    }

    /// Appends one event.
    pub fn single_write(&mut self, event: T)
        requires
            old(self).wf(),
        ensures
            final(self).wf(),
            final(self)@.written == old(self)@.written.push(event),
            final(self)@.cursors == old(self)@.cursors,
    {
        self.buf.push(event);
        proof {
            assert(self@.written =~= old(self)@.written.push(event));
            assert(self@.cursors =~= old(self)@.cursors);
        }
    }

    /// Appends every event of `events`, preserving their order, and leaves
    /// `events` empty.
    pub fn drain_vec_write(&mut self, events: &mut Vec<T>)
        requires
            old(self).wf(),
        ensures
            final(self).wf(),
            final(self)@.written == old(self)@.written + old(events)@,
            final(self)@.cursors == old(self)@.cursors,
            final(events)@.len() == 0,
    {
        self.buf.append(events);
        proof {
            assert(self@.written =~= old(self)@.written + old(events)@);
            assert(self@.cursors =~= old(self)@.cursors);
        }
    }

    /// Yields every event written since this reader's cursor, in write
    /// order, and advances the cursor past them: the same reader never
    /// sees any of these events again.
    pub fn read(&mut self, r: &ReaderId) -> (events: Vec<T>) where T: Copy
        requires
            old(self).wf(),
            r.index < old(self)@.cursors.len(),
        ensures
            final(self).wf(),
            final(self)@.written == old(self)@.written,
            events@ == old(self)@.written.subrange(
                old(self)@.cursors[r.index as int],
                old(self)@.written.len() as int,
            ),
            final(self)@.cursors == old(self)@.cursors.update(
                r.index as int,
                old(self)@.written.len() as int,
            ),
    {
        let mut events: Vec<T> = Vec::new();
        let cur = self.cursors[r.index];
        let end = self.buf.len();
        let mut i = cur;
        while i < end
            invariant
                self == old(self),
                self.wf(),
                r.index < self.cursors@.len(),
                cur == self.cursors@[r.index as int],
                end == self.buf@.len(),
                cur <= i <= end,
                events@ == self@.written.subrange(
                    self.dropped@.len() + cur,
                    self.dropped@.len() + i,
                ),
            decreases end - i,
        {
            let ev = self.buf[i];
            events.push(ev);
            proof {
                assert(self@.written[self.dropped@.len() + i] == ev);
                assert(self@.written.subrange(
                    self.dropped@.len() + cur,
                    self.dropped@.len() + i + 1,
                ) =~= self@.written.subrange(
                    self.dropped@.len() + cur,
                    self.dropped@.len() + i,
                ).push(ev));
            }
            i += 1;
        }
        self.cursors.set(r.index, end);
        proof {
            assert(self@.cursors =~= old(self)@.cursors.update(
                r.index as int,
                old(self)@.written.len() as int,
            ));
            assert(events@ =~= old(self)@.written.subrange(
                old(self)@.cursors[r.index as int],
                old(self)@.written.len() as int,
            ));
        }
        events
    }

    /// Physically discards every event that all readers have passed. The
    /// logical log and the cursors are unchanged; with no readers at all,
    /// the whole buffer is discarded.
    pub fn compact(&mut self)
        requires
            old(self).wf(),
        ensures
            final(self).wf(),
            final(self)@ == old(self)@,
    {
        let end = self.buf.len();
        let mut low = end;
        let n = self.cursors.len();
        let mut j: usize = 0;
        while j < n
            invariant
                self == old(self),
                self.wf(),
                n == self.cursors@.len(),
                j <= n,
                end == self.buf@.len(),
                low <= end,
                forall|k: int| 0 <= k < j ==> low <= #[trigger] self.cursors@[k],
            decreases n - j,
        {
            let c = self.cursors[j];
            if c < low {
                low = c;
            }
            j += 1;
        }
        let tail = self.buf.split_off(low);
        let ghost gone = self.buf@;
        self.buf = tail;
        proof {
            self.dropped@ = self.dropped@ + gone;
        }
        let mut k: usize = 0;
        while k < n
            invariant
                k <= n,
                n == self.cursors@.len(),
                self.buf@ == old(self).buf@.subrange(low as int, old(self).buf@.len() as int),
                self.dropped@ == old(self).dropped@ + old(self).buf@.subrange(0, low as int),
                forall|j2: int|
                    0 <= j2 < n ==> (if j2 < k {
                        #[trigger] self.cursors@[j2] == old(self).cursors@[j2] - low
                    } else {
                        self.cursors@[j2] == old(self).cursors@[j2]
                    }),
                forall|j2: int|
                    0 <= j2 < n ==> low <= #[trigger] old(self).cursors@[j2] <= old(
                        self,
                    ).buf@.len(),
            decreases n - k,
        {
            let c = self.cursors[k];
            self.cursors.set(k, c - low);
            k += 1;
        }
        proof {
            assert(self@.written =~= old(self)@.written);
            assert forall|j2: int| 0 <= j2 < n implies self@.cursors[j2] == old(
                self,
            )@.cursors[j2] by {}
            assert(self@.cursors =~= old(self)@.cursors);
            assert(self@ =~= old(self)@);
        }
    }
}

/// Reads never deliver an event twice and never miss an event: if one read
/// leaves a reader's cursor at the old end of the log and writes only ever
/// append, then the events delivered by that read followed by the events
/// delivered by the next read are exactly the events written since the
/// reader's earlier cursor, each once, in order.
pub proof fn lemma_reader_exactly_once<T>(w0: Seq<T>, w1: Seq<T>, c: int)
    requires
        0 <= c <= w0.len(),
        w0.len() <= w1.len(),
        w1.subrange(0, w0.len() as int) == w0,
    ensures
        w0.subrange(c, w0.len() as int) + w1.subrange(w0.len() as int, w1.len() as int)
            == w1.subrange(c, w1.len() as int),
{
    assert forall|i: int| 0 <= i < w0.len() implies w0[i] == w1[i] by {
        assert(w1.subrange(0, w0.len() as int)[i] == w1[i]);
    }
    assert(w0.subrange(c, w0.len() as int) + w1.subrange(w0.len() as int, w1.len() as int)
        =~= w1.subrange(c, w1.len() as int));
}

} // verus!
