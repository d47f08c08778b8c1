//! The userspace side of an io_uring: which slots of the shared rings are used for what.
//!
//! The kernel moves `sq_head` and `cq_tail` and fills `cqes`; everything else is moved here.
use vstd::prelude::*;

verus! {

pub const IORING_OP_POLL_ADD: u8 = 6;

pub const IORING_OP_TIMEOUT: u8 = 11;

pub const IORING_OP_ASYNC_CANCEL: u8 = 14;

/// Keep a poll alive after its first event.
pub const IORING_POLL_ADD_MULTI: u32 = 1;

/// Poll for input, as poll(2) numbers it.
pub const POLLIN: u32 = 1;

/// The completion's poll stays alive.
pub const IORING_CQE_F_MORE: u32 = 2;

/// Event tags.
pub const EV_INOTIFY: u64 = 1;

pub const EV_SIGNAL: u64 = 2;

pub const EV_TIMEOUT: u64 = 3;

pub const EV_CANCEL: u64 = 4;

pub const EV_WEATHER: u64 = 5;

/// A submission queue entry.
#[derive(Debug, Clone, Copy, PartialEq, Eq, Structural)]
pub struct IoUringSqe {
    pub opcode: u8,
    pub flags: u8,
    pub ioprio: u16,
    pub fd: i32,
    pub off: u64,
    pub addr: u64,
    pub len: u32,
    pub rw_flags: u32,
    pub user_data: u64,
    pub buf_index: u16,
    pub personality: u16,
    pub splice_fd_in: i32,
    pub addr3: u64,
    pub _pad2: u64,
}

/// A completion queue entry.
#[derive(Debug, Clone, Copy, PartialEq, Eq, Structural)]
pub struct IoUringCqe {
    pub user_data: u64,
    pub res: i32,
    pub flags: u32,
}

/// A time span, as the kernel takes it.
#[derive(Debug, Clone, Copy, PartialEq, Eq, Structural)]
pub struct KernelTimespec {
    pub tv_sec: i64,
    pub tv_nsec: i64,
}

/// The parts of the set-up reply from which the rings' sizes follow.
#[derive(Debug, Clone, Copy, PartialEq, Eq, Structural)]
pub struct RingParams {
    pub sq_entries: u32,
    pub cq_entries: u32,
    pub sq_array_offset: u32,
    pub cqes_offset: u32,
}

/// Sizes of the three shared mappings, in bytes.
#[derive(Debug, Clone, Copy, PartialEq, Eq, Structural)]
pub struct RingSizes {
    pub sq_ring: usize,
    pub sqes: usize,
    pub cq_ring: usize,
}

/// The sizes to map: the submission ring ends with its index array of 4-byte entries, the
/// completion ring with its 16-byte entries; a submission entry has 64 bytes.
pub fn ring_sizes(p: &RingParams) -> (r: RingSizes)
    requires
        p.sq_array_offset + p.sq_entries * 4 <= usize::MAX,
        p.sq_entries * 64 <= usize::MAX,
        p.cqes_offset + p.cq_entries * 16 <= usize::MAX,
    ensures
        r.sq_ring == p.sq_array_offset + p.sq_entries * 4,
        r.sqes == p.sq_entries * 64,
        r.cq_ring == p.cqes_offset + p.cq_entries * 16,
{
    RingSizes {
        sq_ring: p.sq_array_offset as usize + p.sq_entries as usize * 4,
        sqes: p.sq_entries as usize * 64,
        cq_ring: p.cqes_offset as usize + p.cq_entries as usize * 16,
    }
}

/// An entry of zeros.
pub open spec fn zero_sqe() -> IoUringSqe {
    IoUringSqe {
        opcode: 0,
        flags: 0,
        ioprio: 0,
        fd: 0,
        off: 0,
        addr: 0,
        len: 0,
        rw_flags: 0,
        user_data: 0,
        buf_index: 0,
        personality: 0,
        splice_fd_in: 0,
        addr3: 0,
        _pad2: 0,
    }
}

fn zeroed_sqe() -> (r: IoUringSqe)
    ensures
        r == zero_sqe(),
{
    IoUringSqe {
        opcode: 0,
        flags: 0,
        ioprio: 0,
        fd: 0,
        off: 0,
        addr: 0,
        len: 0,
        rw_flags: 0,
        user_data: 0,
        buf_index: 0,
        personality: 0,
        splice_fd_in: 0,
        addr3: 0,
        _pad2: 0,
    }
}

/// Poll `fd` for input until it is closed or cancelled.
pub open spec fn poll_sqe(fd: i32, user_data: u64) -> IoUringSqe {
    IoUringSqe {
        opcode: IORING_OP_POLL_ADD,
        fd,
        len: IORING_POLL_ADD_MULTI,
        rw_flags: POLLIN,
        user_data,
        ..zero_sqe()
    }
}

/// Wait for the time span at address `addr`, once.
pub open spec fn timeout_sqe(addr: u64, user_data: u64) -> IoUringSqe {
    IoUringSqe { opcode: IORING_OP_TIMEOUT, fd: -1i32, addr, len: 1, user_data, ..zero_sqe() }
}

/// Cancel what was submitted under `target`.
pub open spec fn cancel_sqe(target: u64, user_data: u64) -> IoUringSqe {
    IoUringSqe { opcode: IORING_OP_ASYNC_CANCEL, fd: -1i32, addr: target, user_data, ..zero_sqe() }
}

/// How far `tail` is ahead of `head` on the 32-bit index circle.
pub open spec fn ahead(head: u32, tail: u32) -> nat {
    if head <= tail {
        (tail - head) as nat
    } else {
        (0x1_0000_0000 + tail - head) as nat
    }
}

/// The index `n` places after `head` on that circle.
pub open spec fn after(head: u32, n: int) -> u32 {
    ((head + n) % 0x1_0000_0000) as u32
}

/// A mask for slots: one less than a power of two.
pub open spec fn slot_mask(mask: u32, entries: u32) -> bool {
    entries > 0 && mask == entries - 1 && entries & mask == 0
}

/// Whether the kernel's mask is one for its number of slots, as it is for every ring of its own.
pub fn is_slot_mask(mask: u32, entries: u32) -> (r: bool)
    ensures
        r == slot_mask(mask, entries),
{
    entries > 0 && mask == entries - 1 && entries & mask == 0
}

/// The rings.
pub struct AbraxasRing {
    pub ring_fd: i32,
    pub sq_head: u32,
    pub sq_tail: u32,
    pub sq_mask: u32,
    pub sq_entries: u32,
    pub sq_array: Vec<u32>,
    pub sqes: Vec<IoUringSqe>,
    pub cq_head: u32,
    pub cq_tail: u32,
    pub cq_mask: u32,
    pub cqes: Vec<IoUringCqe>,
}

impl AbraxasRing {
    pub open spec fn wf(&self) -> bool {
        &&& slot_mask(self.sq_mask, self.sq_entries)
        &&& self.sqes@.len() == self.sq_entries
        &&& self.sq_array@.len() == self.sq_entries
        &&& ahead(self.sq_head, self.sq_tail) <= self.sq_entries
        &&& slot_mask(self.cq_mask, self.cqes@.len() as u32)
        &&& self.cqes@.len() <= u32::MAX
        &&& ahead(self.cq_head, self.cq_tail) <= self.cqes@.len()
        &&& forall|i: int|
            0 <= i < ahead(self.sq_head, self.sq_tail) ==> self.sq_array@[#[trigger] (after(
                self.sq_head,
                i,
            ) & self.sq_mask) as int] == after(self.sq_head, i) & self.sq_mask
    }

    /// The entries that wait for the kernel, oldest first.
    pub open spec fn pending(&self) -> Seq<IoUringSqe> {
        Seq::new(
            ahead(self.sq_head, self.sq_tail),
            |i: int| self.sqes@[(after(self.sq_head, i) & self.sq_mask) as int],
        )
    }

    /// The completions that wait to be seen, oldest first.
    pub open spec fn completions(&self) -> Seq<IoUringCqe> {
        Seq::new(
            ahead(self.cq_head, self.cq_tail),
            |i: int| self.cqes@[(after(self.cq_head, i) & self.cq_mask) as int],
        )
    }

    /// Everything but the submission side.
    pub open spec fn same_completions(&self, other: &AbraxasRing) -> bool {
        &&& self.ring_fd == other.ring_fd
        &&& self.cq_head == other.cq_head
        &&& self.cq_tail == other.cq_tail
        &&& self.cq_mask == other.cq_mask
        &&& self.cqes == other.cqes
    }

    /// What submitting `sqe` does: it joins the pending entries where there is room, else nothing
    /// changes.
    pub open spec fn submitted(old: &AbraxasRing, new: &AbraxasRing, sqe: IoUringSqe) -> bool {
        &&& new.wf()
        &&& new.same_completions(old)
        &&& new.sq_head == old.sq_head
        &&& new.sq_entries == old.sq_entries
        &&& if old.pending().len() < old.sq_entries {
            new.pending() == old.pending().push(sqe)
        } else {
            new.pending() == old.pending()
        }
    }

    /// A fresh ring, empty on both sides, from what the kernel said when it set the ring up. `None`
    /// where it set none up, which a negative `ring_fd` says, or where its memory could not be
    /// mapped.
    pub fn init(
        ring_fd: i32,
        mapped: bool,
        sq_mask: u32,
        sq_entries: u32,
        cq_mask: u32,
        cq_entries: u32,
    ) -> (r: Option<Self>)
        ensures
            match r {
                Some(ring) => {
                    &&& ring_fd >= 0 && mapped
                    &&& ring.ring_fd == ring_fd
                    &&& ring.sq_head == 0 && ring.cq_head == 0
                    &&& ring.sq_tail == 0 && ring.cq_tail == 0
                    &&& ring.sq_mask == sq_mask && ring.cq_mask == cq_mask
                    &&& ring.sq_entries == sq_entries && ring.cqes@.len() == cq_entries
                    &&& ring.pending() == Seq::<IoUringSqe>::empty()
                    &&& ring.completions() == Seq::<IoUringCqe>::empty()
                    &&& ring.wf() == (slot_mask(sq_mask, sq_entries) && slot_mask(
                        cq_mask,
                        cq_entries,
                    ))
                },
                None => ring_fd < 0 || !mapped,
            },
    {
        if ring_fd < 0 || !mapped {
            return None;
        }
        let mut sq_array: Vec<u32> = Vec::new();
        let mut sqes: Vec<IoUringSqe> = Vec::new();
        let mut i: u32 = 0;
        while i < sq_entries
            invariant
                i <= sq_entries,
                sq_array@.len() == i,
                sqes@.len() == i,
            decreases sq_entries - i,
        {
            sq_array.push(0);
            sqes.push(zeroed_sqe());
            i += 1;
        }
        let mut cqes: Vec<IoUringCqe> = Vec::new();
        let mut j: u32 = 0;
        while j < cq_entries
            invariant
                j <= cq_entries,
                cqes@.len() == j,
            decreases cq_entries - j,
        {
            cqes.push(IoUringCqe { user_data: 0, res: 0, flags: 0 });
            j += 1;
        }
        let ring = AbraxasRing {
            ring_fd,
            sq_head: 0,
            sq_tail: 0,
            sq_mask,
            sq_entries,
            sq_array,
            sqes,
            cq_head: 0,
            cq_tail: 0,
            cq_mask,
            cqes,
        };
        assert(ring.pending() =~= Seq::empty());
        assert(ring.completions() =~= Seq::empty());
        Some(ring)
    }

    /// The kernel has taken entries: its index moved to `sq_head`. Nothing happens, and the result
    /// is `false`, where that is beyond what was handed to it.
    pub fn taken(&mut self, sq_head: u32) -> (r: bool)
        requires
            old(self).wf(),
        ensures
            final(self).wf(),
            r == (ahead(old(self).sq_head, sq_head) <= old(self).pending().len()),
            final(self).same_completions(old(self)),
            final(self).sq_entries == old(self).sq_entries,
            final(self).pending() == if r {
                old(self).pending().skip(ahead(old(self).sq_head, sq_head) as int)
            } else {
                old(self).pending()
            },
            final(self).sq_head == if r {
                sq_head
            } else {
                old(self).sq_head
            },
    {
        if wrapped_distance(self.sq_head, sq_head) > wrapped_distance(self.sq_head, self.sq_tail) {
            return false;
        }
        let ghost before = *self;
        self.sq_head = sq_head;
        proof {
            let k = ahead(before.sq_head, sq_head) as int;
            let n = before.pending().len() as int;
            assert(ahead(sq_head, self.sq_tail) == n - k);
            assert forall|i: int| 0 <= i < n - k implies #[trigger] after(sq_head, i) == after(
                before.sq_head,
                i + k,
            ) by {
                lemma_after_taken(before.sq_head, sq_head, i);
            }
            assert(self.pending() =~= before.pending().skip(k));
        }
        true
    }

    /// The kernel has completed something. The result is `false`, and nothing happens, where the
    /// completion ring is full.
    pub fn arrived(&mut self, cqe: IoUringCqe) -> (r: bool)
        requires
            old(self).wf(),
        ensures
            final(self).wf(),
            r == (old(self).completions().len() < old(self).cqes@.len()),
            final(self).completions() == if r {
                old(self).completions().push(cqe)
            } else {
                old(self).completions()
            },
            final(self).pending() == old(self).pending(),
            final(self).sq_entries == old(self).sq_entries,
            final(self).ring_fd == old(self).ring_fd,
    {
        if wrapped_distance(self.cq_head, self.cq_tail) as usize >= self.cqes.len() {
            return false;
        }
        proof {
            lemma_slot_bound(self.cq_tail, self.cq_mask);
        }
        let ghost before = *self;
        let slot = self.cq_tail & self.cq_mask;
        self.cqes.set(slot as usize, cqe);
        self.cq_tail = self.cq_tail.wrapping_add(1);
        proof {
            let n = before.completions().len();
            let slots = before.cqes@.len() as u32;
            lemma_after_tail(before.cq_head, before.cq_tail);
            assert(ahead(self.cq_head, self.cq_tail) == n + 1);
            assert forall|i: int| 0 <= i < n implies (#[trigger] after(before.cq_head, i)
                & before.cq_mask) != slot && (after(before.cq_head, i) & before.cq_mask)
                <= before.cq_mask by {
                lemma_slots_differ(before.cq_head, before.cq_tail, i, before.cq_mask, slots);
                lemma_slot_bound(after(before.cq_head, i), before.cq_mask);
            }
            assert(after(before.cq_head, n as int) == before.cq_tail);
            assert(self.completions() =~= before.completions().push(cqe));
            assert(self.pending() =~= before.pending());
        }
        true
    }

    /// The next free slot, or `None` where the ring is full.
    fn get_sqe(&self) -> (r: Option<u32>)
        requires
            self.wf(),
        ensures
            match r {
                Some(slot) => self.pending().len() < self.sq_entries && slot == self.sq_tail
                    & self.sq_mask && slot < self.sq_entries,
                None => self.pending().len() >= self.sq_entries,
            },
    {
        proof {
            lemma_slot_bound(self.sq_tail, self.sq_mask);
        }
        if wrapped_distance(self.sq_head, self.sq_tail) >= self.sq_entries {
            return None;
        }
        Some(self.sq_tail & self.sq_mask)
    }

    fn submit(&mut self, sqe: IoUringSqe)
        requires
            old(self).wf(),
        ensures
            AbraxasRing::submitted(old(self), final(self), sqe),
    {
        if let Some(slot) = self.get_sqe() {
            let ghost before = *self;
            self.sq_array.set(slot as usize, slot);
            self.sqes.set(slot as usize, sqe);
            self.sq_tail = self.sq_tail.wrapping_add(1);
            proof {
                let n = before.pending().len();
                lemma_after_tail(before.sq_head, before.sq_tail);
                assert(ahead(self.sq_head, self.sq_tail) == n + 1);
                assert forall|i: int| 0 <= i < n implies (#[trigger] after(before.sq_head, i)
                    & before.sq_mask) != slot && (after(before.sq_head, i) & before.sq_mask)
                    <= before.sq_mask by {
                    lemma_slots_differ(
                        before.sq_head,
                        before.sq_tail,
                        i,
                        before.sq_mask,
                        before.sq_entries,
                    );
                    lemma_slot_bound(after(before.sq_head, i), before.sq_mask);
                }
                assert(after(before.sq_head, n as int) == before.sq_tail);
                assert(self.pending() =~= before.pending().push(sqe));
            }
        }
    }

    /// Polls `fd` for input under the tag `user_data`.
    pub fn prep_poll(&mut self, fd: i32, user_data: u64)
        requires
            old(self).wf(),
        ensures
            AbraxasRing::submitted(old(self), final(self), poll_sqe(fd, user_data)),
    {
        let mut sqe = zeroed_sqe();
        sqe.opcode = IORING_OP_POLL_ADD;
        sqe.fd = fd;
        sqe.len = IORING_POLL_ADD_MULTI;
        sqe.rw_flags = POLLIN;
        sqe.user_data = user_data;
        self.submit(sqe);
    }

    /// Waits once for the time span that lies at `ts_addr`.
    pub fn prep_timeout(&mut self, ts_addr: u64, user_data: u64)
        requires
            old(self).wf(),
        ensures
            AbraxasRing::submitted(old(self), final(self), timeout_sqe(ts_addr, user_data)),
    {
        let mut sqe = zeroed_sqe();
        sqe.opcode = IORING_OP_TIMEOUT;
        sqe.fd = -1;
        sqe.addr = ts_addr;
        sqe.len = 1;
        sqe.user_data = user_data;
        self.submit(sqe);
    }

    /// Cancels what was submitted under `target_user_data`.
    pub fn prep_cancel(&mut self, target_user_data: u64, user_data: u64)
        requires
            old(self).wf(),
        ensures
            AbraxasRing::submitted(old(self), final(self), cancel_sqe(target_user_data, user_data)),
    {
        let mut sqe = zeroed_sqe();
        sqe.opcode = IORING_OP_ASYNC_CANCEL;
        sqe.fd = -1;
        sqe.addr = target_user_data;
        sqe.user_data = user_data;
        self.submit(sqe);
    }

    /// How many entries to hand to the kernel; it is not called where there are none.
    pub fn to_submit(&self) -> (r: u32)
        requires
            self.wf(),
        ensures
            r == self.pending().len(),
    {
        wrapped_distance(self.sq_head, self.sq_tail)
    }

    /// The oldest completion that has not been seen.
    pub fn peek_cqe(&self) -> (r: Option<IoUringCqe>)
        requires
            self.wf(),
        ensures
            match r {
                Some(c) => self.completions().len() > 0 && c == self.completions()[0],
                None => self.completions().len() == 0,
            },
    {
        if self.cq_head == self.cq_tail {
            return None;
        }
        proof {
            lemma_slot_bound(self.cq_head, self.cq_mask);
            assert(after(self.cq_head, 0) == self.cq_head);
        }
        let idx = self.cq_head & self.cq_mask;
        Some(self.cqes[idx as usize])
    }

    /// Marks the oldest completion as seen.
    pub fn cqe_seen(&mut self)
        requires
            old(self).wf(),
            old(self).completions().len() > 0,
        ensures
            final(self).wf(),
            final(self).completions() == old(self).completions().skip(1),
            final(self).pending() == old(self).pending(),
            final(self).sq_entries == old(self).sq_entries,
            final(self).ring_fd == old(self).ring_fd,
    {
        let ghost before = *self;
        self.cq_head = self.cq_head.wrapping_add(1);
        proof {
            assert forall|i: int| 0 <= i < before.completions().len() - 1 implies #[trigger] after(
                self.cq_head,
                i,
            ) == after(before.cq_head, i + 1) by {
                lemma_after_step(before.cq_head, self.cq_head, i);
            }
            assert(self.completions() =~= before.completions().skip(1));
            assert(self.pending() =~= before.pending());
        }
    }
}

fn wrapped_distance(head: u32, tail: u32) -> (r: u32)
    ensures
        r == ahead(head, tail),
{
    tail.wrapping_sub(head)
}

proof fn lemma_slot_bound(i: u32, mask: u32)
    ensures
        i & mask <= mask,
{
    assert(i & mask <= mask) by (bit_vector);
}

proof fn lemma_after_tail(head: u32, tail: u32)
    ensures
        after(head, ahead(head, tail) as int) == tail,
{
}

proof fn lemma_after_taken(head: u32, next: u32, i: int)
    requires
        0 <= i,
        i + ahead(head, next) < 0x1_0000_0000,
    ensures
        after(next, i) == after(head, i + ahead(head, next) as int),
{
}

proof fn lemma_after_step(head: u32, next: u32, i: int)
    requires
        next == after(head, 1),
        0 <= i < 0x1_0000_0000,
    ensures
        after(next, i) == after(head, i + 1),
{
}

proof fn lemma_slots_differ(head: u32, tail: u32, i: int, mask: u32, entries: u32)
    requires
        slot_mask(mask, entries),
        0 <= i < ahead(head, tail),
        ahead(head, tail) < entries,
    ensures
        (after(head, i) & mask) != (tail & mask),
{
    let a = after(head, i);
    let d = (ahead(head, tail) - i) as u32;
    assert(tail == after(a, d as int));
    assert(tail == (a + d) as u32 || tail == (a + d - 0x1_0000_0000) as u32);
    lemma_masked_differ(a, d, tail, mask, entries);
}

proof fn lemma_masked_differ(a: u32, d: u32, b: u32, mask: u32, entries: u32)
    requires
        slot_mask(mask, entries),
        0 < d < entries,
        b == a + d || b == a + d - 0x1_0000_0000,
    ensures
        (a & mask) != (b & mask),
{
    assert((a & mask) != (b & mask)) by (bit_vector)
        requires
            entries > 0,
            mask == entries - 1,
            entries & mask == 0,
            0 < d,
            d < entries,
            b == a + d || b == a + d - 0x1_0000_0000,
    ;
}

/// The result of handing entries to the kernel: an interrupted call counts as nothing handed over.
pub fn enter_result(ret: i32, interrupted: bool) -> (r: i32)
    ensures
        r == if ret < 0 && interrupted {
            0
        } else {
            ret
        },
{
    if ret < 0 && interrupted {
        0
    } else {
        ret
    }
}

/// Ring counters run round: so many steps from a counter lead to the one that is so many ahead, and
/// the distance of two counters leads from the one to the other, also past the end of the range.
pub proof fn law_counters_run_round(head: u32, tail: u32, n: int)
    requires
        0 <= n < 0x1_0000_0000,
    ensures
        ahead(head, after(head, n)) == n,
        after(head, ahead(head, tail) as int) == tail,
        ahead(head, head) == 0,
        n + 1 < 0x1_0000_0000 ==> after(after(head, n), 1) == after(head, n + 1),
{
    let sum = head + n;
    let r = sum % 0x1_0000_0000;
    assert(sum < 0x1_0000_0000 ==> r == sum);
    assert(sum >= 0x1_0000_0000 ==> r == sum - 0x1_0000_0000);
    let t = head + ahead(head, tail);
    assert(t == tail || t == tail + 0x1_0000_0000);
}

/// A counter's slot lies in its ring, and a counter that is smaller than the ring is its own slot.
pub proof fn law_slots_lie_in_the_ring(counter: u32, mask: u32, entries: u32)
    requires
        slot_mask(mask, entries),
    ensures
        counter & mask < entries,
        counter < entries ==> counter & mask == counter,
        (entries & mask) == 0,
{
    assert(counter & mask <= mask) by (bit_vector);
    if counter < entries {
        assert(counter & mask == counter) by (bit_vector)
            requires
                counter < entries,
                mask + 1 == entries,
                entries > 0,
                entries & mask == 0,
        ;
    }
}

/// An entry says what it asks for: a poll watches its descriptor for input until it is cancelled, a
/// timeout runs once for the time at its address, and a cancellation names what it ends. None
/// carries anything else.
pub proof fn law_entries_say_what_they_ask(fd: i32, addr: u64, target: u64, tag: u64)
    ensures
        ({
            let p = poll_sqe(fd, tag);
            let t = timeout_sqe(addr, tag);
            let c = cancel_sqe(target, tag);
            &&& p.opcode == 6 && p.fd == fd && p.user_data == tag && p.len == 1 && p.rw_flags == 1
                && p.addr == 0 && p.off == 0 && p.flags == 0 && p.ioprio == 0
            &&& t.opcode == 11 && t.fd == -1 && t.user_data == tag && t.addr == addr && t.len == 1
                && t.rw_flags == 0 && t.off == 0 && t.flags == 0 && t.ioprio == 0
            &&& c.opcode == 14 && c.fd == -1 && c.user_data == tag && c.addr == target && c.len == 0
                && c.rw_flags == 0 && c.off == 0 && c.flags == 0 && c.ioprio == 0
            &&& p.buf_index == 0 && t.buf_index == 0 && c.buf_index == 0
            &&& p.personality == 0 && t.personality == 0 && c.personality == 0
            &&& p.splice_fd_in == 0 && t.splice_fd_in == 0 && c.splice_fd_in == 0
            &&& p.addr3 == 0 && t.addr3 == 0 && c.addr3 == 0
        }),
{
}

/// A ring of a power of two of entries has the mask that is one less, and no other.
pub proof fn law_powers_of_two_have_masks(k: u32, mask: u32)
    requires
        k < 32,
    ensures
        slot_mask(mask, 1u32 << k) <==> mask + 1 == 1u32 << k,
        !slot_mask(mask, 0),
{
    let e = 1u32 << k;
    assert(e > 0 && e & ((e - 1) as u32) == 0) by (bit_vector)
        requires
            e == 1u32 << k,
            k < 32,
    ;
}

} // verus!
