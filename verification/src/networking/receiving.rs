//! What a replica does with the progress messages it receives: which it takes now, which it keeps
//! for a later view, and the bounded buffer in which it keeps them.

use vstd::prelude::*;

use crate::block_sync::messages::BlockSyncAdvertiseMessage;
use crate::hotstuff::messages::HotStuffMessage;
use crate::types::{ChainID, VerifyingKeyBytes, ViewNumber};

verus! {

/// A message that helps the replicas make progress.
pub enum ProgressMessage {
    HotStuffMessage(HotStuffMessage),
    BlockSyncAdvertiseMessage(BlockSyncAdvertiseMessage),
}

impl ProgressMessage {
    pub open spec fn chain_id_of(&self) -> ChainID {
        match self {
            ProgressMessage::HotStuffMessage(m) => m.chain_id_of(),
            ProgressMessage::BlockSyncAdvertiseMessage(m) => match m {
                BlockSyncAdvertiseMessage::AdvertiseBlock(a) => a.chain_id,
                BlockSyncAdvertiseMessage::AdvertisePC(a) => a.highest_pc.chain_id,
            },
        }
    }

    /// The view of a message that belongs to one; advertisements belong to none.
    pub open spec fn view_of(&self) -> Option<ViewNumber> {
        match self {
            ProgressMessage::HotStuffMessage(m) => Some(m.view_of()),
            ProgressMessage::BlockSyncAdvertiseMessage(_) => None,
        }
    }

    pub fn chain_id(&self) -> (c: ChainID)
        ensures
            c == self.chain_id_of(),
    {
        match self {
            ProgressMessage::HotStuffMessage(m) => m.chain_id(),
            ProgressMessage::BlockSyncAdvertiseMessage(m) => m.chain_id(),
        }
    }

    pub fn view(&self) -> (v: Option<ViewNumber>)
        ensures
            v == self.view_of(),
    {
        match self {
            ProgressMessage::HotStuffMessage(m) => Some(m.view()),
            ProgressMessage::BlockSyncAdvertiseMessage(_) => None,
        }
    }

    /// Whether the message is an advertisement that may trigger block sync.
    pub fn is_block_sync_trigger_msg(&self) -> (b: bool)
        ensures
            b == (*self is BlockSyncAdvertiseMessage),
    {
        match self {
            ProgressMessage::BlockSyncAdvertiseMessage(_) => true,
            _ => false,
        }
    }
}

/// The ways receiving a block sync response can fail.
pub enum BlockSyncResponseReceiveError {
    Disconnected,
    Timeout,
}

/// The ways receiving a block sync request can fail.
pub enum BlockSyncRequestReceiveError {
    Disconnected,
    NotAvailable,
}

/// The sum of the costs of buffered entries.
pub open spec fn total_cost(entries: Seq<(ViewNumber, u64, VerifyingKeyBytes, HotStuffMessage)>) -> int
    decreases entries.len(),
{
    if entries.len() == 0 {
        0
    } else {
        total_cost(entries.drop_last()) + entries.last().1
    }
}

proof fn lemma_total_cost_push(entries: Seq<(ViewNumber, u64, VerifyingKeyBytes, HotStuffMessage)>, e: (ViewNumber, u64, VerifyingKeyBytes, HotStuffMessage))
    ensures
        total_cost(entries.push(e)) == total_cost(entries) + e.1,
{
    assert(entries.push(e).drop_last() =~= entries);
}

proof fn lemma_total_cost_nonneg(entries: Seq<(ViewNumber, u64, VerifyingKeyBytes, HotStuffMessage)>)
    ensures
        total_cost(entries) >= 0,
    decreases entries.len(),
{
    if entries.len() > 0 {
        lemma_total_cost_nonneg(entries.drop_last());
    }
}

proof fn lemma_total_cost_insert(entries: Seq<(ViewNumber, u64, VerifyingKeyBytes, HotStuffMessage)>, i: int, e: (ViewNumber, u64, VerifyingKeyBytes, HotStuffMessage))
    requires
        0 <= i <= entries.len(),
    ensures
        total_cost(entries.insert(i, e)) == total_cost(entries) + e.1,
    decreases entries.len(),
{
    if i == entries.len() {
        assert(entries.insert(i, e) =~= entries.push(e));
        lemma_total_cost_push(entries, e);
    } else {
        let last = entries.last();
        lemma_total_cost_insert(entries.drop_last(), i, e);
        assert(entries.insert(i, e) =~= entries.drop_last().insert(i, e).push(last));
        lemma_total_cost_push(entries.drop_last().insert(i, e), last);
    }
}

proof fn lemma_total_cost_remove(entries: Seq<(ViewNumber, u64, VerifyingKeyBytes, HotStuffMessage)>, i: int)
    requires
        0 <= i < entries.len(),
    ensures
        total_cost(entries.remove(i)) == total_cost(entries) - entries[i].1,
{
    let e = entries[i];
    assert(entries.remove(i).insert(i, e) =~= entries);
    lemma_total_cost_insert(entries.remove(i), i, e);
}

/// The cost of a sequence is the cost of its first `n` entries plus that of the rest.
proof fn lemma_total_cost_split_at(entries: Seq<(ViewNumber, u64, VerifyingKeyBytes, HotStuffMessage)>, n: int)
    requires
        0 <= n <= entries.len(),
    ensures
        total_cost(entries) == total_cost(entries.take(n)) + total_cost(entries.skip(n)),
    decreases entries.len(),
{
    if n == entries.len() {
        assert(entries.take(n) =~= entries);
        assert(entries.skip(n) =~= Seq::<(ViewNumber, u64, VerifyingKeyBytes, HotStuffMessage)>::empty());
    } else {
        let last = entries.last();
        lemma_total_cost_split_at(entries.drop_last(), n);
        assert(entries.drop_last().take(n) =~= entries.take(n));
        assert(entries.skip(n) =~= entries.drop_last().skip(n).push(last));
        lemma_total_cost_push(entries.drop_last().skip(n), last);
    }
}

/// The cost of one entry followed by others.
proof fn lemma_total_cost_first(entries: Seq<(ViewNumber, u64, VerifyingKeyBytes, HotStuffMessage)>)
    requires
        entries.len() > 0,
    ensures
        total_cost(entries) == entries[0].1 + total_cost(entries.skip(1)),
{
    lemma_total_cost_split_at(entries, 1);
    let t = entries.take(1);
    assert(t.drop_last() =~= Seq::<(ViewNumber, u64, VerifyingKeyBytes, HotStuffMessage)>::empty());
    assert(total_cost(t.drop_last()) == 0);
    assert(t.last() == entries[0]);
    assert(total_cost(t) == entries[0].1);
}

/// Whether the entries are ordered by view.
pub open spec fn sorted_by_view(s: Seq<(ViewNumber, u64, VerifyingKeyBytes, HotStuffMessage)>) -> bool {
    forall|i: int, j: int| 0 <= i <= j < s.len() ==> s[i].0 <= s[j].0
}

proof fn lemma_insert_sorted(
    before: Seq<(ViewNumber, u64, VerifyingKeyBytes, HotStuffMessage)>,
    idx: int,
    e: (ViewNumber, u64, VerifyingKeyBytes, HotStuffMessage),
)
    requires
        sorted_by_view(before),
        0 <= idx <= before.len(),
        idx > 0 ==> before[idx - 1].0 <= e.0,
        forall|j: int| idx <= j < before.len() ==> #[trigger] before[j].0 > e.0,
    ensures
        sorted_by_view(before.insert(idx, e)),
{
    let after = before.insert(idx, e);
    assert forall|a: int, b: int| 0 <= a <= b < after.len() implies after[a].0 <= after[b].0 by {
        if a < idx && b < idx {
            assert(after[a] == before[a] && after[b] == before[b]);
        } else if a < idx && b == idx {
            assert(after[a] == before[a]);
            assert(before[a].0 <= before[idx - 1].0);
        } else if a < idx {
            assert(after[a] == before[a] && after[b] == before[b - 1]);
        } else if a == idx && b > idx {
            assert(after[b] == before[b - 1]);
        } else if a > idx {
            assert(after[a] == before[a - 1] && after[b] == before[b - 1]);
        }
    }
}

proof fn lemma_remove_sorted(before: Seq<(ViewNumber, u64, VerifyingKeyBytes, HotStuffMessage)>, i: int)
    requires
        sorted_by_view(before),
        0 <= i < before.len(),
    ensures
        sorted_by_view(before.remove(i)),
{
    let after = before.remove(i);
    assert forall|a: int, b: int| 0 <= a <= b < after.len() implies after[a].0 <= after[b].0 by {
        let a2 = if a < i { a } else { a + 1 };
        let b2 = if b < i { b } else { b + 1 };
        assert(after[a] == before[a2]);
        assert(after[b] == before[b2]);
    }
}

/// Whether `after` is `before` with `e` inserted at position `i`.
pub open spec fn is_insertion(
    before: Seq<(ViewNumber, u64, VerifyingKeyBytes, HotStuffMessage)>,
    after: Seq<(ViewNumber, u64, VerifyingKeyBytes, HotStuffMessage)>,
    i: int,
    e: (ViewNumber, u64, VerifyingKeyBytes, HotStuffMessage),
) -> bool {
    0 <= i <= before.len() && after == before.insert(i, e)
}

/// Whether `after` is `before` (ordered by view) with `e` queued last among the entries of its
/// view: after every entry of a view no higher than its own, before every entry of a higher view.
pub open spec fn is_queued_insertion(
    before: Seq<(ViewNumber, u64, VerifyingKeyBytes, HotStuffMessage)>,
    after: Seq<(ViewNumber, u64, VerifyingKeyBytes, HotStuffMessage)>,
    e: (ViewNumber, u64, VerifyingKeyBytes, HotStuffMessage),
) -> bool {
    exists|i: int| #[trigger] is_insertion(before, after, i, e)
        && (forall|j: int| 0 <= j < i ==> #[trigger] before[j].0 <= e.0)
        && (forall|j: int| i <= j < before.len() ==> #[trigger] before[j].0 > e.0)
}

/// Whether `after` is `before` without its first `n` entries, which are exactly those of views
/// before `cur_view` (the entries being ordered by view).
pub open spec fn expired_dropped(
    before: Seq<(ViewNumber, u64, VerifyingKeyBytes, HotStuffMessage)>,
    after: Seq<(ViewNumber, u64, VerifyingKeyBytes, HotStuffMessage)>,
    n: int,
    cur_view: ViewNumber,
) -> bool {
    &&& 0 <= n <= before.len()
    &&& after == before.skip(n)
    &&& forall|j: int| 0 <= j < n ==> #[trigger] before[j].0 < cur_view
    &&& forall|j: int| n <= j < before.len() ==> #[trigger] before[j].0 >= cur_view
}

/// A buffer of messages for future views, bounded in the bytes it takes. Each entry holds the
/// message's view, the bytes it takes (the message with its sender's key), the sender and the
/// message; entries are ordered by view, and within a view by arrival.
pub struct ProgressMessageBuffer {
    buffer_capacity: u64,
    buffer: Vec<(ViewNumber, u64, VerifyingKeyBytes, HotStuffMessage)>,
    buffer_size: u64,
}

/// The bytes that buffering `msg` with its sender's key takes (at most `u64::MAX`).
pub open spec fn entry_cost(msg: HotStuffMessage) -> u64 {
    let c = vstd::layout::size_of::<VerifyingKeyBytes>() + msg.size_of_variant();
    if c <= u64::MAX {
        c as u64
    } else {
        u64::MAX
    }
}

/// What inserting `msg` from `sender` into `before` does, leaving `after` and answering `taken`:
/// a message whose bytes alone exceed the capacity is dropped; when its bytes fit, it is queued;
/// when they would overflow the capacity, it is dropped unless a message of a higher view is
/// buffered, in which case just enough messages are dropped from the back (the latest of the
/// highest views) to make room, and it is queued. The recorded size is the entries' cost
/// throughout, and stays within the capacity.
pub open spec fn buffer_insert(
    before: ProgressMessageBuffer,
    after: ProgressMessageBuffer,
    msg: HotStuffMessage,
    sender: VerifyingKeyBytes,
    taken: bool,
) -> bool {
    let cost = entry_cost(msg);
    let e = (msg.view_of(), cost, sender, msg);
    let overloaded = before.recorded_size() + cost > before.capacity();
    let higher_view_buffered = before.entries().len() == 0 || msg.view_of() < before.entries().last().0;
    &&& after.capacity() == before.capacity()
    &&& after.recorded_size() == total_cost(after.entries())
    &&& after.recorded_size() <= after.capacity()
    &&& taken == (cost <= before.capacity() && (!overloaded || higher_view_buffered))
    &&& !taken ==> after.entries() == before.entries()
    &&& taken && !overloaded ==> is_queued_insertion(before.entries(), after.entries(), e)
    &&& taken && overloaded ==> exists|n: int| 0 <= n <= before.entries().len()
        && #[trigger] is_queued_insertion(before.entries().take(n), after.entries(), e)
        && (total_cost(before.entries().skip(n)) >= cost || n == 0)
        && (n < before.entries().len() ==> total_cost(before.entries().skip(n + 1)) < cost)
}

impl ProgressMessageBuffer {
    pub closed spec fn entries(&self) -> Seq<(ViewNumber, u64, VerifyingKeyBytes, HotStuffMessage)> {
        self.buffer@
    }

    pub closed spec fn capacity(&self) -> u64 {
        self.buffer_capacity
    }

    /// The recorded size of the buffer.
    pub closed spec fn recorded_size(&self) -> u64 {
        self.buffer_size
    }

    /// Entries are ordered by view, and the recorded size is the entries' cost, within the
    /// capacity.
    pub closed spec fn wf(&self) -> bool {
        &&& sorted_by_view(self.buffer@)
        &&& total_cost(self.buffer@) == self.buffer_size
        &&& self.buffer_size <= self.buffer_capacity
    }

    /// The recorded size of a well-formed buffer is its entries' cost.
    pub proof fn lemma_size_is_cost(&self)
        requires
            self.wf(),
        ensures
            self.recorded_size() == total_cost(self.entries()),
            self.recorded_size() <= self.capacity(),
            sorted_by_view(self.entries()),
    {
    }

    /// The recorded size of the buffer in bytes.
    pub fn buffer_size(&self) -> (s: u64)
        ensures
            s == self.recorded_size(),
    {
        self.buffer_size
    }

    /// An empty buffer that holds at most `buffer_capacity` bytes.
    pub fn new(buffer_capacity: u64) -> (b: ProgressMessageBuffer)
        ensures
            b.wf(),
            b.entries().len() == 0,
            b.capacity() == buffer_capacity,
            b.recorded_size() == 0,
    {
        ProgressMessageBuffer { buffer_capacity, buffer: Vec::new(), buffer_size: 0 }
    }

    /// The bytes that buffering `msg` takes.
    fn cost_of(msg: &HotStuffMessage) -> (c: u64)
        ensures
            c == entry_cost(*msg),
    {
        let key_size = core::mem::size_of::<VerifyingKeyBytes>() as u64;
        key_size.saturating_add(msg.size())
    }

    /// Buffer `msg` from `sender`, if there is room: when its bytes would overflow the capacity,
    /// it is buffered only if the buffer is empty or its last message (of the highest view) is of
    /// a higher view, after messages are dropped from the back to make room (see
    /// [`Self::remove_highest_viewed_msgs`]). A message whose bytes alone exceed the capacity is
    /// never buffered. A buffered message goes last among those of its view. Returns whether it
    /// was buffered.
    #[verifier::rlimit(40)]
    pub fn insert(&mut self, msg: HotStuffMessage, sender: VerifyingKeyBytes) -> (taken: bool)
        requires
            old(self).wf(),
        ensures
            final(self).wf(),
            buffer_insert(*old(self), *final(self), msg, sender, taken),
    {
        let cost = Self::cost_of(&msg);
        if cost > self.buffer_capacity {
            return false;
        }
        let view = msg.view();
        let overloaded = match self.buffer_size.checked_add(cost) {
            Some(s) => s > self.buffer_capacity,
            None => true,
        };
        let higher_view_buffered = self.buffer.len() == 0 || view < self.buffer[self.buffer.len() - 1].0;
        if !(!overloaded || higher_view_buffered) {
            return false;
        }
        let ghost start = self.buffer@;
        if overloaded {
            self.remove_highest_viewed_msgs(cost);
        }
        let ghost n = if overloaded {
            choose|n: int| #![trigger start.take(n)] 0 <= n <= start.len()
                && self.buffer@ == start.take(n)
                && self.buffer_size == old(self).buffer_size - total_cost(start.skip(n))
                && (total_cost(start.skip(n)) >= cost || n == 0)
                && (n < start.len() ==> total_cost(start.skip(n + 1)) < cost)
        } else {
            start.len() as int
        };
        let ghost before = self.buffer@;
        proof {
            lemma_total_cost_nonneg(before);
            if !overloaded {
                assert(start.take(start.len() as int) =~= start);
            } else {
                lemma_total_cost_split_at(start, n);
                lemma_total_cost_nonneg(start.skip(n));
                if n == 0 {
                    assert(start.take(0) =~= Seq::<(ViewNumber, u64, VerifyingKeyBytes, HotStuffMessage)>::empty());
                }
            }
            assert(self.buffer_size == total_cost(before));
            assert(self.buffer_size + cost <= u64::MAX);
        }
        let mut idx: usize = self.buffer.len();
        while idx > 0 && self.buffer[idx - 1].0 > view
            invariant
                self.buffer@ == before,
                idx <= before.len(),
                forall|j: int| idx <= j < before.len() ==> #[trigger] before[j].0 > view,
            decreases idx,
        {
            idx = idx - 1;
        }
        let e = (view, cost, sender, msg);
        self.buffer.insert(idx, e);
        proof {
            lemma_total_cost_insert(before, idx as int, e);
            lemma_insert_sorted(before, idx as int, e);
            assert(is_insertion(before, self.buffer@, idx as int, e));
            assert forall|j: int| 0 <= j < idx implies #[trigger] before[j].0 <= e.0 by {
                assert(before[j].0 <= before[idx - 1].0);
            }
            assert(is_queued_insertion(before, self.buffer@, e));
        }
        self.buffer_size = self.buffer_size + cost;
        proof {
            if overloaded {
                assert(is_queued_insertion(old(self).entries().take(n), self.entries(), e));
            } else {
                assert(is_queued_insertion(old(self).entries(), self.entries(), e));
            }
        }
        true
    }

    /// Take the earliest buffered message of `view`, if any.
    pub fn get_msg(&mut self, view: ViewNumber) -> (r: Option<(VerifyingKeyBytes, HotStuffMessage)>)
        requires
            old(self).wf(),
        ensures
            final(self).wf(),
            final(self).capacity() == old(self).capacity(),
            match r {
                Some(m) => exists|i: int| #![trigger old(self).entries()[i]] 0 <= i < old(self).entries().len()
                    && old(self).entries()[i].0 == view
                    && (forall|j: int| 0 <= j < i ==> #[trigger] old(self).entries()[j].0 != view)
                    && m == (old(self).entries()[i].2, old(self).entries()[i].3)
                    && final(self).entries() == old(self).entries().remove(i)
                    && final(self).recorded_size() == old(self).recorded_size() - old(self).entries()[i].1,
                None => final(self).entries() == old(self).entries()
                    && final(self).recorded_size() == old(self).recorded_size()
                    && forall|j: int| 0 <= j < old(self).entries().len() ==> #[trigger] old(self).entries()[j].0 != view,
            },
    {
        let mut i: usize = 0;
        while i < self.buffer.len()
            invariant
                self.buffer@ == old(self).buffer@,
                self.buffer_capacity == old(self).buffer_capacity,
                self.buffer_size == old(self).buffer_size,
                old(self).wf(),
                i <= self.buffer@.len(),
                forall|j: int| 0 <= j < i ==> #[trigger] self.buffer@[j].0 != view,
            decreases self.buffer@.len() - i,
        {
            if self.buffer[i].0 == view {
                let ghost before = self.buffer@;
                let (_, cost, sender, msg) = self.buffer.remove(i);
                proof {
                    lemma_total_cost_remove(before, i as int);
                    lemma_total_cost_nonneg(before.remove(i as int));
                    assert(cost == before[i as int].1);
                }
                self.buffer_size = self.buffer_size - cost;
                proof {
                    lemma_remove_sorted(before, i as int);
                    assert(old(self).entries()[i as int] == before[i as int]);
                    assert((sender, msg) == (old(self).entries()[i as int].2, old(self).entries()[i as int].3));
                    assert(self.entries() == old(self).entries().remove(i as int));
                }
                return Some((sender, msg));
            }
            i = i + 1;
        }
        None
    }

    /// Drop messages from the back of the buffer (the latest messages of the highest views) until
    /// at least `bytes_to_remove` bytes are dropped or the buffer is empty; the recorded size
    /// goes down by the bytes dropped.
    pub fn remove_highest_viewed_msgs(&mut self, bytes_to_remove: u64)
        requires
            old(self).wf(),
        ensures
            final(self).wf(),
            final(self).capacity() == old(self).capacity(),
            exists|n: int| #![trigger old(self).entries().take(n)] 0 <= n <= old(self).entries().len()
                && final(self).entries() == old(self).entries().take(n)
                && final(self).recorded_size() == old(self).recorded_size() - total_cost(old(self).entries().skip(n))
                && (total_cost(old(self).entries().skip(n)) >= bytes_to_remove || n == 0)
                && (n < old(self).entries().len() ==> total_cost(old(self).entries().skip(n + 1)) < bytes_to_remove),
    {
        let ghost start_buf = self.buffer@;
        let mut removed: u64 = 0;
        proof {
            assert(start_buf.skip(start_buf.len() as int) =~= Seq::<(ViewNumber, u64, VerifyingKeyBytes, HotStuffMessage)>::empty());
            lemma_total_cost_nonneg(start_buf);
        }
        while removed < bytes_to_remove && self.buffer.len() > 0
            invariant
                self.buffer@ == start_buf.take(self.buffer@.len() as int),
                self.buffer@.len() <= start_buf.len(),
                removed == total_cost(start_buf.skip(self.buffer@.len() as int)),
                total_cost(start_buf) <= self.buffer_size,
                self.buffer_size == old(self).buffer_size,
                self.buffer_capacity == old(self).buffer_capacity,
                start_buf == old(self).buffer@,
                sorted_by_view(start_buf),
                self.buffer@.len() < start_buf.len() ==> total_cost(start_buf.skip(self.buffer@.len() as int + 1)) < bytes_to_remove,
            decreases self.buffer@.len(),
        {
            let n = self.buffer.len();
            let e = self.buffer.pop().unwrap();
            proof {
                let k = (n - 1) as int;
                lemma_total_cost_split_at(start_buf, k);
                lemma_total_cost_nonneg(start_buf.take(k));
                lemma_total_cost_nonneg(start_buf.skip(k + 1));
                lemma_total_cost_first(start_buf.skip(k));
                assert(start_buf.skip(k)[0] == start_buf[k]);
                assert(start_buf.skip(k).skip(1) =~= start_buf.skip(k + 1));
                assert(self.buffer@ =~= start_buf.take(k));
            }
            removed = removed + e.1;
        }
        proof {
            let n = self.buffer@.len() as int;
            lemma_total_cost_split_at(start_buf, n);
            lemma_total_cost_nonneg(start_buf.take(n));
        }
        self.buffer_size = self.buffer_size - removed;
        proof {
            let n = self.buffer@.len() as int;
            assert(self.buffer@ =~= start_buf.take(n));
            assert(start_buf.take(n) == old(self).entries().take(n));
        }
    }

    /// Drop the messages of views before `cur_view`; the recorded size goes down by their bytes.
    pub fn remove_expired_msgs(&mut self, cur_view: ViewNumber)
        requires
            old(self).wf(),
        ensures
            final(self).wf(),
            final(self).capacity() == old(self).capacity(),
            exists|n: int| #[trigger] expired_dropped(old(self).entries(), final(self).entries(), n, cur_view),
    {
        let ghost start_buf = self.buffer@;
        let mut n: usize = 0;
        let mut dropped: u64 = 0;
        proof {
            assert(start_buf.take(0) =~= Seq::<(ViewNumber, u64, VerifyingKeyBytes, HotStuffMessage)>::empty());
        }
        loop
            invariant
                self.buffer@ == start_buf,
                start_buf == old(self).buffer@,
                self.buffer_size == old(self).buffer_size,
                total_cost(start_buf) == self.buffer_size,
                n <= start_buf.len(),
                dropped == total_cost(start_buf.take(n as int)),
                forall|j: int| 0 <= j < n ==> #[trigger] start_buf[j].0 < cur_view,
            ensures
                n == start_buf.len() || start_buf[n as int].0 >= cur_view,
            decreases start_buf.len() - n,
        {
            if n >= self.buffer.len() {
                break;
            }
            if self.buffer[n].0 >= cur_view {
                break;
            }
            proof {
                assert(start_buf.take(n as int + 1) =~= start_buf.take(n as int).push(start_buf[n as int]));
                lemma_total_cost_push(start_buf.take(n as int), start_buf[n as int]);
                lemma_total_cost_split_at(start_buf, n as int + 1);
                lemma_total_cost_nonneg(start_buf.skip(n as int + 1));
            }
            dropped = dropped + self.buffer[n].1;
            n = n + 1;
        }
        proof {
            lemma_total_cost_split_at(start_buf, n as int);
            lemma_total_cost_nonneg(start_buf.skip(n as int));
        }
        let rest = self.buffer.split_off(n);
        self.buffer = rest;
        self.buffer_size = self.buffer_size - dropped;
        proof {
            assert(self.buffer@ =~= start_buf.skip(n as int));
            assert forall|j: int| n <= j < start_buf.len() implies #[trigger] start_buf[j].0 >= cur_view by {
                if n < start_buf.len() {
                    assert(start_buf[n as int].0 <= start_buf[j].0);
                }
            }
            lemma_total_cost_split_at(start_buf, n as int);
            lemma_total_cost_nonneg(start_buf.take(n as int));
            assert forall|a: int, b: int| 0 <= a <= b < self.buffer@.len() implies self.buffer@[a].0 <= self.buffer@[b].0 by {
                assert(self.buffer@[a] == start_buf[a + n]);
                assert(self.buffer@[b] == start_buf[b + n]);
            }
            assert(expired_dropped(old(self).entries(), self.entries(), n as int, cur_view));
        }
    }
}


/// The replica's end of the stream of progress messages: the buffer of messages for future views.
/// The caller reads from the network and hands each message to [`Self::on_received`].
pub struct ProgressMessageStub {
    msg_buffer: ProgressMessageBuffer,
}

impl ProgressMessageStub {
    pub closed spec fn buffer(&self) -> ProgressMessageBuffer {
        self.msg_buffer
    }

    pub closed spec fn wf(&self) -> bool {
        self.msg_buffer.wf()
    }

    /// A stub whose buffer holds at most `msg_buffer_capacity` bytes.
    pub fn new(msg_buffer_capacity: u64) -> (s: ProgressMessageStub)
        ensures
            s.wf(),
            s.buffer().entries().len() == 0,
            s.buffer().capacity() == msg_buffer_capacity,
    {
        ProgressMessageStub { msg_buffer: ProgressMessageBuffer::new(msg_buffer_capacity) }
    }

    /// Before waiting on the network in `cur_view`: drop the buffered messages of earlier views,
    /// then take the earliest buffered message of `cur_view`, if any; none when none is buffered.
    pub fn recv_buffered(&mut self, cur_view: ViewNumber) -> (r: Option<(VerifyingKeyBytes, ProgressMessage)>)
        requires
            old(self).wf(),
        ensures
            final(self).wf(),
            final(self).buffer().capacity() == old(self).buffer().capacity(),
            ({
                let before = old(self).buffer().entries();
                exists|n: int| #[trigger] expired_dropped(before, before.skip(n), n, cur_view) && match r {
                    Some(x) => {
                        &&& n < before.len() && before[n].0 == cur_view
                        &&& x == (before[n].2, ProgressMessage::HotStuffMessage(before[n].3))
                        &&& final(self).buffer().entries() == before.skip(n + 1)
                    },
                    None => {
                        &&& (n == before.len() || before[n].0 != cur_view)
                        &&& final(self).buffer().entries() == before.skip(n)
                    },
                }
            }),
    {
        let ghost before = self.msg_buffer.entries();
        proof {
            self.msg_buffer.lemma_size_is_cost();
        }
        self.msg_buffer.remove_expired_msgs(cur_view);
        let ghost n = choose|n: int| #[trigger] expired_dropped(before, self.msg_buffer.entries(), n, cur_view);
        let ghost mid = self.msg_buffer.entries();
        assert(mid == before.skip(n));
        match self.msg_buffer.get_msg(cur_view) {
            Some((k, m)) => {
                proof {
                    let i = choose|i: int| #![trigger mid[i]] 0 <= i < mid.len() && mid[i].0 == cur_view
                        && (forall|j: int| 0 <= j < i ==> #[trigger] mid[j].0 != cur_view)
                        && (k, m) == (mid[i].2, mid[i].3) && self.msg_buffer.entries() == mid.remove(i);
                    assert(mid[i] == before[i + n]);
                    if i > 0 {
                        assert(mid[0] == before[n]);
                        assert(before[n].0 >= cur_view);
                        assert(before[n].0 <= before[i + n].0);
                        assert(mid[0].0 != cur_view);
                    }
                    assert(mid.remove(0) =~= before.skip(n + 1));
                    assert(self.buffer().entries() == before.skip(n + 1));
                    assert(expired_dropped(before, before.skip(n), n, cur_view));
                }
                Some((k, ProgressMessage::HotStuffMessage(m)))
            },
            None => {
                proof {
                    if n < before.len() {
                        assert(mid[0] == before[n]);
                    }
                    assert(self.buffer().entries() == before.skip(n));
                    assert(expired_dropped(before, before.skip(n), n, cur_view));
                }
                None
            },
        }
    }

    /// Decide on `msg` from `sender`, received while the replica is in `cur_view` of `chain_id`:
    /// a message of another chain is dropped; a HotStuff message of a later view is buffered; a
    /// HotStuff message of `cur_view` or an advertisement is taken now.
    pub fn on_received(&mut self, chain_id: ChainID, cur_view: ViewNumber, sender: VerifyingKeyBytes, msg: ProgressMessage)
        -> (r: Option<(VerifyingKeyBytes, ProgressMessage)>)
        requires
            old(self).wf(),
        ensures
            final(self).wf(),
            final(self).buffer().capacity() == old(self).buffer().capacity(),
            msg.chain_id_of() != chain_id ==> r is None && final(self).buffer() == old(self).buffer(),
            msg.chain_id_of() == chain_id ==> match msg {
                ProgressMessage::HotStuffMessage(m) => {
                    &&& (m.view_of() == cur_view) == (r is Some)
                    &&& r matches Some(x) ==> x == (sender, msg)
                    &&& m.view_of() <= cur_view ==> final(self).buffer() == old(self).buffer()
                    &&& m.view_of() > cur_view ==> exists|taken: bool|
                        #[trigger] buffer_insert(old(self).buffer(), final(self).buffer(), m, sender, taken)
                },
                ProgressMessage::BlockSyncAdvertiseMessage(_) => r == Some((sender, msg)) && final(self).buffer() == old(self).buffer(),
            },
    {
        if msg.chain_id() != chain_id {
            return None;
        }
        match msg {
            ProgressMessage::HotStuffMessage(m) => {
                let view = m.view();
                if view > cur_view {
                    let ghost gm = m;
                    let taken = self.msg_buffer.insert(m, sender);
                    proof {
                        assert(buffer_insert(old(self).buffer(), self.buffer(), gm, sender, taken));
                    }
                    None
                } else if view == cur_view {
                    Some((sender, ProgressMessage::HotStuffMessage(m)))
                } else {
                    None
                }
            },
            ProgressMessage::BlockSyncAdvertiseMessage(a) => Some((sender, ProgressMessage::BlockSyncAdvertiseMessage(a))),
        }
    }
}

} // verus!
