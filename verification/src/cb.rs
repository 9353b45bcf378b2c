//! The ring container and its slot-exchange protocol.
//!
//! A `CircularBuffer` of capacity `n` owns `2n + 1` payload cells.  At any
//! quiescent moment exactly one cell is the producer's scratch cell, `n`
//! cells form the consumer's private buffer, and the remaining `n` cells are
//! the live ring slots.  Each ring position holds a flag word packing the
//! index of its current cell (high bits) with an eight-bit generation tag
//! (low bits); the tag advances once per revolution of the ring, letting a
//! drain recognise slots that have been overwritten since the sequence
//! counter was read.  Publishing swaps the scratch cell into the ring and
//! takes the previous cell as the new scratch; draining swaps consumer cells
//! into the ring and carries the previous cells' payloads out.

use vstd::prelude::*;

verus! {

/// Number of distinct generation tags; flag words and the packed sequence
/// word reserve their low eight bits for the tag.
pub const GEN_SPAN: usize = 256;

/// The id of the most recent publication that landed on ring position `p`,
/// or `p` itself (the first id that will ever land there) while the position
/// is still unwritten.
pub open spec fn last_pub(seq: int, cap: int, p: int) -> int
    recommends
        cap >= 1,
        0 <= p < cap,
        seq >= 0,
{
    if p < seq {
        seq - 1 - ((seq - 1 - p) % cap)
    } else {
        p
    }
}

/// Generation tag embedded in the flag word written by publication `k`:
/// the tag starts at one and advances each time the ring rolls over
/// position zero.
pub open spec fn tag_of(k: int, cap: int) -> int
    recommends
        cap >= 1,
        k >= 0,
{
    (1 + k / cap) % 256
}

/// Tag component of the packed sequence word after `seq` publications.
pub open spec fn word_tag(seq: int, cap: int) -> int
    recommends
        cap >= 1,
        seq >= 0,
{
    if seq > 0 {
        tag_of(seq - 1, cap)
    } else {
        0
    }
}

/// Capacity actually used by a ring constructed with argument `size`:
/// zero is coerced to one, and a multiple of the tag span is widened by one
/// so that ring positions never alias a whole number of tag periods.
pub open spec fn adjusted_cap(size: int) -> int
    recommends
        size >= 0,
{
    if size == 0 {
        1
    } else if size % 256 == 0 {
        size + 1
    } else {
        size
    }
}

/// Number of items a drain transfers when the consumer last stopped at
/// `mark` and the sequence counter reads `seq`: the unread ids, clamped to
/// the physical window of `cap` slots.
pub open spec fn drain_len(cap: nat, mark: nat, seq: nat) -> nat
    recommends
        mark <= seq,
{
    if seq - mark <= cap {
        (seq - mark) as nat
    } else {
        cap
    }
}

/// The payloads a drain carries out, oldest first: the newest `drain_len`
/// entries of the publication history.
pub open spec fn drained_window<T>(hist: Seq<Option<T>>, cap: nat, mark: nat, seq: nat) -> Seq<
    Option<T>,
>
    recommends
        mark <= seq,
        seq <= hist.len(),
{
    hist.subrange(seq - drain_len(cap, mark, seq), seq as int)
}

/// The payload the next publication will displace into the scratch cell:
/// the item `cap` publications back, unless the consumer has already drained
/// it (or the ring has not yet filled).
pub open spec fn evicted_by_put<T>(m: RingModel<T>) -> Option<T> {
    if m.seq >= m.cap && m.seq - m.cap >= m.read_mark {
        m.hist[m.seq - m.cap]
    } else {
        None
    }
}

/// Abstract state of a ring.
pub struct RingModel<T> {
    /// Capacity: the number of live ring slots.
    pub cap: nat,
    /// Count of items ever published.
    pub seq: nat,
    /// The sequence count the consumer saw at the start of its last drain.
    pub read_mark: nat,
    /// Every payload ever published, by id; an entry may be `None` when the
    /// producer published an empty cell.
    pub hist: Seq<Option<T>>,
    /// Content of the producer's scratch cell.
    pub scratch: Option<T>,
}

/// The ring: `2n + 1` payload cells exchanged among producer, consumer and
/// the `n` live slots by single-word flag updates.
pub struct CircularBuffer<T> {
    /// Packed word shared with the consumer: sequence count times
    /// `GEN_SPAN` plus the current generation tag.  Stands where the
    /// concurrent protocol keeps its one atomic counter.
    seqno: usize,
    /// The producer's private copy of the packed sequence word.
    seqno_priv: usize,
    /// The payload cells.
    data: Vec<Option<T>>,
    /// Capacity `n`.
    size: usize,
    /// One flag word per ring position, packing `cell_index * GEN_SPAN +
    /// tag`.  Mutated only by whole-word load, swap and compare-and-swap,
    /// the shape the exchange protocol needs from its flag array.
    buffer: Vec<usize>,
    /// Indices of the `n` cells currently owned by the consumer.
    read_priv: Vec<usize>,
    /// Index of the producer's scratch cell.
    write_tmp: usize,
    /// The sequence count observed at the start of the consumer's last
    /// drain.
    max_read: usize,
    /// The publication history; ghost companion of the live state.
    hist: Ghost<Seq<Option<T>>>,
}

impl<T> View for CircularBuffer<T> {
    type V = RingModel<T>;

    closed spec fn view(&self) -> RingModel<T> {
        RingModel {
            cap: self.size as nat,
            seq: (self.seqno_priv as int / 256) as nat,
            read_mark: self.max_read as nat,
            hist: self.hist@,
            scratch: self.data@[self.write_tmp as int],
        }
    }
}

impl<T> CircularBuffer<T> {
    /// Cell index stored in the flag word of ring position `p`.
    spec fn slot_of(self, p: int) -> int {
        self.buffer@[p] as int / 256
    }

    /// Generation tag stored in the flag word of ring position `p`.
    spec fn tag_at(self, p: int) -> int {
        self.buffer@[p] as int % 256
    }

    /// Every cell reference the ring hands out, in one sequence: the
    /// scratch cell, the consumer's cells, then the cell of each ring
    /// position.
    pub closed spec fn owner_cells(self) -> Seq<int> {
        seq![self.write_tmp as int] + self.read_priv@.map_values(|x: usize| x as int)
            + Seq::new(self.size as nat, |p: int| self.buffer@[p] as int / 256)
    }

    /// Well-formedness: lengths, the packing bound, the partition of the
    /// cell pool, and the protocol invariants tying flags, tags and cell
    /// contents to the publication history.
    pub closed spec fn wf(self) -> bool {
        let cap = self.size as int;
        let seq = self.seqno_priv as int / 256;
        let mark = self.max_read as int;
        &&& self.size >= 1
        &&& 512 * cap + 255 <= usize::MAX
        &&& self.data@.len() == 2 * cap + 1
        &&& self.buffer@.len() == cap
        &&& self.read_priv@.len() == cap
        &&& self.seqno == self.seqno_priv
        &&& self.seqno_priv as int % 256 == word_tag(seq, cap)
        &&& self.hist@.len() == seq
        &&& mark <= seq
        &&& self.write_tmp < 2 * cap + 1
        &&& forall|i: int| 0 <= i < cap ==> #[trigger] self.read_priv@[i] < 2 * cap + 1
        &&& forall|p: int| 0 <= p < cap ==> 0 <= #[trigger] self.slot_of(p) < 2 * cap + 1
        &&& self.owner_cells().no_duplicates()
        &&& forall|p: int|
            0 <= p < cap ==> #[trigger] self.tag_at(p) == tag_of(last_pub(seq, cap, p), cap)
        &&& forall|p: int|
            0 <= p < cap ==> self.data@[#[trigger] self.slot_of(p)] == (if p < seq && last_pub(
                seq,
                cap,
                p,
            ) >= mark {
                self.hist@[last_pub(seq, cap, p)]
            } else {
                None::<T>
            })
        &&& forall|i: int|
            0 <= i < cap ==> self.data@[#[trigger] self.read_priv@[i] as int] == None::<T>
    }

    /// Makes a ring of capacity `size` (coerced as `adjusted_cap` says),
    /// with all cells empty and nothing published.  The argument bound only
    /// keeps the packed flag words inside one machine word.
    pub fn new(size: usize) -> (r: CircularBuffer<T>)
        requires
            512 * (size as int + 1) + 255 <= usize::MAX,
        ensures
            r.wf(),
            r@.cap == adjusted_cap(size as int),
            r@.seq == 0,
            r@.read_mark == 0,
            r@.hist == Seq::<Option<T>>::empty(),
            r@.scratch is None,
    {
        let mut size = size;
        // capacity cannot be zero: silently use one
        if size == 0 {
            size = 1;
        }
        // a capacity aligned with the tag span would let ring positions
        // alias whole tag periods: widen it by one
        if size % GEN_SPAN == 0 {
            size = size + 1;
        }
        let mut data: Vec<Option<T>> = Vec::new();
        let mut buffer: Vec<usize> = Vec::new();
        let mut read_priv: Vec<usize> = Vec::new();
        data.push(None);
        let mut i: usize = 0;
        while i < size
            invariant
                i <= size,
                1 <= size,
                512 * (size as int) + 255 <= usize::MAX,
                buffer@.len() == i,
                read_priv@.len() == i,
                data@.len() == 2 * i + 1,
                forall|j: int| 0 <= j < i ==> #[trigger] buffer@[j] == (1 + j) * 256 + 1,
                forall|j: int| 0 <= j < i ==> #[trigger] read_priv@[j] == 1 + size + j,
                forall|k: int| 0 <= k < data@.len() ==> data@[k] is None,
            decreases size - i,
        {
            buffer.push((1 + i) * GEN_SPAN + 1);
            read_priv.push(1 + size + i);
            data.push(None);
            data.push(None);
            i = i + 1;
        }
        let r = CircularBuffer {
            seqno: 0,
            seqno_priv: 0,
            data,
            size,
            buffer,
            read_priv,
            write_tmp: 0,
            max_read: 0,
            hist: Ghost(Seq::empty()),
        };
        proof {
            r.lemma_new_wf();
        }
        r
    }

    /// Proof that a freshly initialised ring is well formed.
    proof fn lemma_new_wf(self)
        requires
            self.size >= 1,
            512 * (self.size as int) + 255 <= usize::MAX,
            self.seqno == 0,
            self.seqno_priv == 0,
            self.write_tmp == 0,
            self.max_read == 0,
            self.hist@ == Seq::<Option<T>>::empty(),
            self.data@.len() == 2 * self.size + 1,
            self.buffer@.len() == self.size,
            self.read_priv@.len() == self.size,
            forall|j: int|
                0 <= j < self.size ==> #[trigger] self.buffer@[j] == (1 + j) * 256 + 1,
            forall|j: int|
                0 <= j < self.size ==> #[trigger] self.read_priv@[j] == 1 + self.size + j,
            forall|k: int| 0 <= k < self.data@.len() ==> self.data@[k] is None,
        ensures
            self.wf(),
    {
        let cap = self.size as int;
        assert forall|p: int| 0 <= p < cap implies #[trigger] self.slot_of(p) == 1 + p
            && self.tag_at(p) == 1 by {
            lemma_pack_fields(1 + p, 1);
        }
        lemma_pack_fields(0, 0);
        assert forall|p: int| 0 <= p < cap implies #[trigger] tag_of(
            last_pub(0, cap, p),
            cap,
        ) == 1 by {
            vstd::arithmetic::div_mod::lemma_basic_div(p, cap);
            assert(last_pub(0, cap, p) == p);
            assert(p / cap == 0);
            vstd::arithmetic::div_mod::lemma_small_mod(1, 256);
        }
        let owners = self.owner_cells();
        assert(owners.len() == 2 * cap + 1);
        assert forall|a: int, b: int| 0 <= a < b < owners.len() implies owners[a] != owners[b] by {
            assert(owners[0] == 0);
            assert(forall|i: int| 0 <= i < cap ==> #[trigger] owners[1 + i] == 1 + cap + i);
            assert(forall|p: int|
                0 <= p < cap ==> #[trigger] owners[1 + cap + p] == self.slot_of(p) && self.slot_of(
                    p,
                ) == 1 + p);
        }
        assert(owners.no_duplicates());
    }

    /// Publishes one item: places `v` in the scratch cell, swaps that cell
    /// into the ring at the position the sequence count selects, takes the
    /// displaced cell as the new scratch, and advances the sequence count
    /// by exactly one.  Returns the id of the item just published (the
    /// pre-increment count).  The displaced cell's payload becomes the new
    /// scratch content: `None` unless an undrained item was overwritten,
    /// exactly as `evicted_by_put` states.  The arithmetic bound only keeps
    /// the packed sequence word inside one machine word.
    pub fn put(&mut self, v: Option<T>) -> (r: usize)
        requires
            old(self).wf(),
            (old(self)@.seq + 1) * 256 + 255 <= usize::MAX,
        ensures
            final(self).wf(),
            final(self)@.cap == old(self)@.cap,
            final(self)@.read_mark == old(self)@.read_mark,
            final(self)@.seq == old(self)@.seq + 1,
            final(self)@.hist == old(self)@.hist.push(v),
            final(self)@.scratch == evicted_by_put(old(self)@),
            r == old(self)@.seq,
    {
        let ghost vv = v;
        let ghost pre = *self;
        let ghost cap = self.size as int;
        let ghost seq0 = self.seqno_priv as int / 256;
        proof {
            vstd::arithmetic::div_mod::lemma_mod_bound(pre.seqno_priv as int, 256);
            vstd::arithmetic::div_mod::lemma_mod_bound(seq0, cap);
            vstd::arithmetic::div_mod::lemma_div_pos_is_pos(pre.seqno_priv as int, 256);
        }
        let s = self.write_tmp;
        // write the payload into the scratch cell
        self.data.set(s, v);
        // position and generation tag of this publication
        let serial = self.seqno_priv;
        let seq = serial / GEN_SPAN;
        let mut tag = serial % GEN_SPAN;
        let pos = seq % self.size;
        if pos == 0 {
            tag = (tag + 1) % GEN_SPAN;
            proof {
                vstd::arithmetic::div_mod::lemma_mod_bound(pre.seqno_priv as int % 256 + 1, 256);
            }
        }
        proof {
            lemma_word_tag_step(seq0, cap);
            assert(tag == word_tag(seq0 + 1, cap));
        }
        // swap the scratch cell into the ring, taking the displaced cell
        let new_flag = s * GEN_SPAN + tag;
        let old_flag = self.buffer[pos];
        self.buffer.set(pos, new_flag);
        self.write_tmp = old_flag / GEN_SPAN;
        // publish the new sequence word; the old one carries the returned id
        self.seqno_priv = (seq + 1) * GEN_SPAN + tag;
        let prev = self.seqno;
        self.seqno = self.seqno_priv;
        self.hist = Ghost(self.hist@.push(vv));
        proof {
            self.lemma_put_shape(pre, vv);
        }
        prev / GEN_SPAN
    }

    /// Proof that the state after a publish is well formed and relates to
    /// the state before as `put`'s contract says.
    proof fn lemma_put_shape(self, pre: CircularBuffer<T>, vv: Option<T>)
        requires
            pre.wf(),
            ({
                let cap = pre.size as int;
                let seq0 = pre.seqno_priv as int / 256;
                let pos = seq0 % cap;
                let tg = word_tag(seq0 + 1, cap);
                let s = pre.write_tmp as int;
                &&& self.size == pre.size
                &&& self.max_read == pre.max_read
                &&& self.read_priv@ == pre.read_priv@
                &&& self.data@ == pre.data@.update(s, vv)
                &&& self.buffer@ == pre.buffer@.update(pos, (s * 256 + tg) as usize)
                &&& self.write_tmp == pre.buffer@[pos] as int / 256
                &&& self.seqno_priv == (seq0 + 1) * 256 + tg
                &&& self.seqno == self.seqno_priv
                &&& self.hist@ == pre.hist@.push(vv)
            }),
        ensures
            self.wf(),
            self@.cap == pre@.cap,
            self@.read_mark == pre@.read_mark,
            self@.seq == pre@.seq + 1,
            self@.hist == pre@.hist.push(vv),
            self@.scratch == evicted_by_put(pre@),
    {
        let cap = pre.size as int;
        let seq0 = pre.seqno_priv as int / 256;
        let mark = pre.max_read as int;
        let pos = seq0 % cap;
        let tg = word_tag(seq0 + 1, cap);
        let s = pre.write_tmp as int;
        let os = pre.slot_of(pos);
        vstd::arithmetic::div_mod::lemma_mod_bound(seq0, cap);
        vstd::arithmetic::div_mod::lemma_div_pos_is_pos(pre.seqno_priv as int, 256);
        vstd::arithmetic::div_mod::lemma_mod_bound(1 + seq0 / cap, 256);
        lemma_pack_fields(s, tg);
        lemma_pack_fields(seq0 + 1, tg);
        lemma_last_pub_step(seq0, cap);
        assert(self.seqno_priv as int / 256 == seq0 + 1);
        assert(self@.seq == seq0 + 1);
        assert(self.slot_of(pos) == s && self.tag_at(pos) == tg);
        // the two swapped owner entries keep the pool partitioned
        let owners0 = pre.owner_cells();
        let owners1 = self.owner_cells();
        assert(owners0[0] == s && owners0[1 + cap + pos] == os);
        assert(owners1 =~= owners0.update(0, os).update(1 + cap + pos, s));
        lemma_swap_keeps_distinct(owners0, 0, 1 + cap + pos);
        assert(owners1.no_duplicates());
        assert(os != s);
        // slots, tags and cells away from the written position are untouched
        assert forall|p: int| 0 <= p < cap && p != pos implies #[trigger] self.slot_of(p)
            == pre.slot_of(p) && self.tag_at(p) == pre.tag_at(p) by {}
        assert forall|p: int| 0 <= p < cap && p != pos implies pre.slot_of(p) != s by {
            assert(owners0[1 + cap + p] == pre.slot_of(p));
        }
        assert forall|i: int| 0 <= i < cap implies pre.read_priv@[i] != s by {
            assert(owners0[1 + i] == pre.read_priv@[i] as int);
        }
        // tag invariant
        assert forall|p: int| 0 <= p < cap implies #[trigger] self.tag_at(p) == tag_of(
            last_pub(seq0 + 1, cap, p),
            cap,
        ) by {
            if p == pos {
                assert(last_pub(seq0 + 1, cap, pos) == seq0);
                assert(tg == tag_of(seq0, cap));
            } else {
                assert(self.tag_at(p) == pre.tag_at(p));
                assert(last_pub(seq0 + 1, cap, p) == last_pub(seq0, cap, p));
                assert(pre.tag_at(p) == tag_of(last_pub(seq0, cap, p), cap));
            }
        }
        // cell contents
        assert forall|p: int|
            0 <= p < cap implies self.data@[#[trigger] self.slot_of(p)] == (if p < seq0 + 1
                && last_pub(seq0 + 1, cap, p) >= mark {
                self.hist@[last_pub(seq0 + 1, cap, p)]
            } else {
                None::<T>
            }) by {
            if p == pos {
                assert(self.data@[s] == vv);
                assert(last_pub(seq0 + 1, cap, pos) == seq0);
                assert(pos <= seq0) by {
                    if seq0 < cap {
                        vstd::arithmetic::div_mod::lemma_small_mod(
                            seq0 as nat,
                            cap as nat,
                        );
                    }
                }
                assert(self.hist@[seq0] == vv);
            } else {
                if p == seq0 && p < cap {
                    vstd::arithmetic::div_mod::lemma_small_mod(seq0 as nat, cap as nat);
                    assert(false);
                }
                assert((p < seq0 + 1) == (p < seq0));
            }
        }
        // consumer cells stay empty
        assert forall|i: int|
            0 <= i < cap implies self.data@[#[trigger] self.read_priv@[i] as int]
                == None::<T> by {}
        // the displaced cell carries exactly the evicted payload
        assert(self@.scratch == self.data@[os]);
        if seq0 >= cap {
            lemma_last_pub_at_put_pos(seq0, cap);
            assert(last_pub(seq0, cap, pos) == seq0 - cap);
            assert(pre.data@[os] == (if seq0 - cap >= mark {
                pre.hist@[seq0 - cap]
            } else {
                None::<T>
            }));
        } else {
            vstd::arithmetic::div_mod::lemma_small_mod(seq0 as nat, cap as nat);
            assert(pos == seq0);
            assert(pre.data@[os] is None);
        }
        assert(self.data@[os] == pre.data@[os]);
        assert(self@.scratch == evicted_by_put(pre@));
    }

    /// No flag slot and no consumer cell coincides with the scratch cell.
    proof fn lemma_scratch_apart(self)
        requires
            self.wf(),
        ensures
            forall|p: int|
                0 <= p < self.size ==> #[trigger] self.slot_of(p) != self.write_tmp as int,
            forall|i: int|
                0 <= i < self.size ==> #[trigger] self.read_priv@[i] as int
                    != self.write_tmp as int,
    {
        let cap = self.size as int;
        let owners = self.owner_cells();
        assert forall|p: int| 0 <= p < cap implies #[trigger] self.slot_of(p)
            != self.write_tmp as int by {
            assert(owners[0] == self.write_tmp as int);
            assert(owners[1 + cap + p] == self.slot_of(p));
        }
        assert forall|i: int| 0 <= i < cap implies #[trigger] self.read_priv@[i] as int
            != self.write_tmp as int by {
            assert(owners[0] == self.write_tmp as int);
            assert(owners[1 + i] == self.read_priv@[i] as int);
        }
    }

    /// Swaps `v` with the scratch cell's content and returns what was
    /// there.  This is the producer's access to the cell between
    /// publications — the overflow helper uses it to pick up an evicted
    /// payload; it touches no flag and no sequence count.
    pub fn tmp(&mut self, v: Option<T>) -> (r: Option<T>)
        requires
            old(self).wf(),
        ensures
            final(self).wf(),
            final(self)@ == (RingModel { scratch: v, ..old(self)@ }),
            r == old(self)@.scratch,
    {
        proof {
            self.lemma_scratch_apart();
        }
        let mut hold = v;
        self.data.set_and_swap(self.write_tmp, &mut hold);
        proof {
            let pre = *old(self);
            let cap = pre.size as int;
            assert(self.owner_cells() =~= pre.owner_cells());
            assert forall|p: int| 0 <= p < cap implies #[trigger] self.slot_of(p) == pre.slot_of(
                p,
            ) by {}
            assert forall|p: int| 0 <= p < cap implies #[trigger] self.tag_at(p) == pre.tag_at(
                p,
            ) by {}
            assert forall|p: int|
                0 <= p < cap implies self.data@[#[trigger] self.slot_of(p)] == pre.data@[pre.slot_of(
                p,
            )] by {
                assert(pre.slot_of(p) != pre.write_tmp as int);
            }
            assert forall|i: int|
                0 <= i < cap implies self.data@[#[trigger] self.read_priv@[i] as int]
                    == None::<T> by {
                assert(pre.read_priv@[i] as int != pre.write_tmp as int);
            }
        }
        hold
    }

    /// Everything a drain pass keeps intact while it claims slots:
    /// the producer's state is untouched, the pool stays partitioned, tags
    /// still describe each position's latest publication against the
    /// sequence count `pre` held, unclaimed undrained cells still hold
    /// their payloads, and `items` carries the claimed payloads newest
    /// first.
    spec fn drain_inv(
        pre: CircularBuffer<T>,
        cur: CircularBuffer<T>,
        seqno: usize,
        gen_tag: usize,
        count: usize,
        items: Seq<Option<T>>,
    ) -> bool {
        let cap = pre.size as int;
        let seq0 = pre.seqno_priv as int / 256;
        let mark = pre.max_read as int;
        &&& pre.wf()
        &&& cur.size == pre.size
        &&& cur.seqno == pre.seqno
        &&& cur.seqno_priv == pre.seqno_priv
        &&& cur.write_tmp == pre.write_tmp
        &&& cur.hist@ == pre.hist@
        &&& cur.max_read as int == seq0
        &&& cur.data@.len() == 2 * cap + 1
        &&& cur.buffer@.len() == cap
        &&& cur.read_priv@.len() == cap
        &&& cur.data@[pre.write_tmp as int] == pre.data@[pre.write_tmp as int]
        &&& count as int <= cap
        &&& seqno as int == seq0 - count
        &&& mark <= seqno as int
        &&& gen_tag < 256
        &&& (seqno as int > 0 ==> gen_tag as int == tag_of(seqno as int - 1, cap))
        &&& cur.owner_cells().no_duplicates()
        &&& cur.write_tmp < 2 * cap + 1
        &&& (forall|i: int| 0 <= i < cap ==> #[trigger] cur.read_priv@[i] < 2 * cap + 1)
        &&& (forall|p: int| 0 <= p < cap ==> 0 <= #[trigger] cur.slot_of(p) < 2 * cap + 1)
        &&& (forall|p: int|
            0 <= p < cap ==> #[trigger] cur.tag_at(p) == tag_of(last_pub(seq0, cap, p), cap))
        &&& (forall|p: int|
            0 <= p < cap ==> cur.data@[#[trigger] cur.slot_of(p)] == (if p < seq0 && last_pub(
                seq0,
                cap,
                p,
            ) >= mark && last_pub(seq0, cap, p) < seqno as int {
                pre.hist@[last_pub(seq0, cap, p)]
            } else {
                None::<T>
            }))
        &&& (forall|i: int|
            0 <= i < cap ==> cur.data@[#[trigger] cur.read_priv@[i] as int] == None::<T>)
        &&& items.len() == count
        &&& (forall|j: int|
            0 <= j < count ==> #[trigger] items[j] == pre.hist@[seq0 - 1 - j])
    }

    /// Starts a drain pass: walking backward from the newest publication,
    /// it claims the window of unread publications — at most the capacity —
    /// by swapping an empty consumer cell into the ring for each claimed
    /// slot, and returns a cursor over the claimed payloads in id order.
    /// The read mark advances to the observed sequence count whether or not
    /// the cursor is consumed: whatever this pass does not deliver is lost.
    pub fn iter(&mut self) -> (it: CircularBufferIterator<T>)
        requires
            old(self).wf(),
        ensures
            final(self).wf(),
            final(self)@.cap == old(self)@.cap,
            final(self)@.seq == old(self)@.seq,
            final(self)@.hist == old(self)@.hist,
            final(self)@.scratch == old(self)@.scratch,
            final(self)@.read_mark == old(self)@.seq,
            it.wf(),
            it@.items == drained_window(
                old(self)@.hist,
                old(self)@.cap,
                old(self)@.read_mark,
                old(self)@.seq,
            ),
            it@.items.len() == drain_len(old(self)@.cap, old(self)@.read_mark, old(self)@.seq),
            it@.items.len() <= old(self)@.cap,
            it@.start == old(self)@.seq - it@.items.len(),
            it@.start >= old(self)@.read_mark,
            it@.start + it@.items.len() == old(self)@.seq,
    {
        let ghost pre = *old(self);
        let ghost cap = pre.size as int;
        let ghost seq0 = pre.seqno_priv as int / 256;
        let ghost mark = pre.max_read as int;
        let ghost hist0 = pre.hist@;

        let serial = self.seqno;
        let mut seqno = serial / GEN_SPAN;
        let mut gen_tag = serial % GEN_SPAN;
        let mut count: usize = 0;
        let max_read = self.max_read;
        self.max_read = seqno;
        let mut items: Vec<Option<T>> = Vec::new();
        proof {
            vstd::arithmetic::div_mod::lemma_mod_bound(serial as int, 256);
            vstd::arithmetic::div_mod::lemma_div_pos_is_pos(serial as int, 256);
            assert(self.owner_cells() =~= pre.owner_cells());
            assert forall|p: int| 0 <= p < cap implies #[trigger] self.slot_of(p) == pre.slot_of(
                p,
            ) by {}
            assert forall|p: int| 0 <= p < cap implies #[trigger] self.tag_at(p) == pre.tag_at(
                p,
            ) by {}
            assert forall|p: int|
                0 <= p < cap implies self.data@[#[trigger] self.slot_of(p)] == (if p < seq0
                && last_pub(seq0, cap, p) >= mark && last_pub(seq0, cap, p) < seqno as int {
                hist0[last_pub(seq0, cap, p)]
            } else {
                None::<T>
            }) by {
                if p < seq0 {
                    lemma_last_pub_mod(seq0, cap, p);
                }
            }
        }
        while count < self.size && seqno > max_read && seqno > 0
            invariant
                cap == pre.size as int,
                seq0 == pre.seqno_priv as int / 256,
                mark == pre.max_read as int,
                hist0 == pre.hist@,
                Self::drain_inv(pre, *self, seqno, gen_tag, count, items@),
                max_read == pre.max_read,
            ensures
                Self::drain_inv(pre, *self, seqno, gen_tag, count, items@),
                count as int == pre.size as int || seqno == pre.max_read,
            decreases seqno,
        {
            let ghost mid = *self;
            let ghost k = seqno as int - 1;
            let pos = (seqno - 1) % self.size;
            proof {
                vstd::arithmetic::div_mod::lemma_mod_bound(k, cap);
                lemma_last_pub_in_window(seq0, cap, k);
                vstd::arithmetic::div_mod::lemma_fundamental_div_mod(
                    mid.buffer@[k % cap] as int,
                    256,
                );
                assert(mid.tag_at(k % cap) == tag_of(k, cap));
                assert(0 <= mid.slot_of(k % cap) < 2 * cap + 1);
                assert(mid.data@[mid.slot_of(k % cap)] == hist0[k]);
            }
            let old_flag = self.buffer[pos];
            // a tag mismatch would mean the producer rolled the ring past
            // this entry during the walk; with the producer at rest between
            // operations it cannot fire
            if old_flag % GEN_SPAN != gen_tag {
                break;
            }
            let old_slot = old_flag / GEN_SPAN;
            let r = self.read_priv[count];
            let chk_flag = old_slot * GEN_SPAN + gen_tag;
            let new_flag = r * GEN_SPAN + gen_tag;
            // the compare-and-swap on the flag word: claim the slot, handing
            // the ring an empty consumer cell in its place; a lost race
            // would leave the word changed and abort the walk
            if self.buffer[pos] != chk_flag {
                break;
            }
            self.buffer.set(pos, new_flag);
            self.read_priv.set(count, old_slot);
            let mut taken: Option<T> = None;
            self.data.set_and_swap(old_slot, &mut taken);
            items.push(taken);
            proof {
                let posi = k % cap;
                let osl = old_slot as int;
                let rr = r as int;
                lemma_pack_fields(rr, gen_tag as int);
                let owners0 = mid.owner_cells();
                let owners1 = self.owner_cells();
                assert(owners0[1 + count as int] == rr);
                assert(owners0[1 + cap + posi] == osl);
                assert(owners1 =~= owners0.update(1 + count as int, osl).update(
                    1 + cap + posi,
                    rr,
                ));
                lemma_swap_keeps_distinct(owners0, 1 + count as int, 1 + cap + posi);
                assert(rr != osl);
                // the claimed payload is the publication with id `k`
                assert(taken == hist0[k]);
                // positions other than the claimed one are untouched
                assert forall|p: int| 0 <= p < cap && p != posi implies #[trigger] self.slot_of(
                    p,
                ) == mid.slot_of(p) by {}
                assert forall|p: int| 0 <= p < cap && p != posi implies #[trigger] self.tag_at(
                    p,
                ) == mid.tag_at(p) by {}
                assert forall|p: int| 0 <= p < cap && p != posi implies mid.slot_of(p)
                    != osl by {
                    assert(owners0[1 + cap + p] == mid.slot_of(p));
                }
                assert forall|i: int| 0 <= i < cap && i != count implies mid.read_priv@[i] as int
                    != osl by {
                    assert(owners0[1 + i] == mid.read_priv@[i] as int);
                }
                assert(mid.write_tmp as int != osl) by {
                    assert(owners0[0] == mid.write_tmp as int);
                }
                // tag invariant is untouched: the claimed position keeps
                // its tag, every other position keeps its word
                assert(self.tag_at(posi) == gen_tag as int);
                // cell classification after the claim
                assert forall|p: int|
                    0 <= p < cap implies self.data@[#[trigger] self.slot_of(p)] == (if p < seq0
                    && last_pub(seq0, cap, p) >= mark && last_pub(seq0, cap, p) < k {
                    hist0[last_pub(seq0, cap, p)]
                } else {
                    None::<T>
                }) by {
                    if p == posi {
                        assert(self.slot_of(posi) == rr);
                        assert(self.data@[rr] == mid.data@[rr]);
                        assert(mid.data@[rr] is None);
                    } else {
                        assert(self.data@[mid.slot_of(p)] == mid.data@[mid.slot_of(p)]);
                        if p < seq0 {
                            lemma_last_pub_mod(seq0, cap, p);
                            assert(last_pub(seq0, cap, p) != k);
                        }
                    }
                }
                assert forall|i: int|
                    0 <= i < cap implies self.data@[#[trigger] self.read_priv@[i] as int]
                        == None::<T> by {
                    if i == count {
                        assert(self.read_priv@[i] == old_slot);
                        assert(self.data@[osl] is None);
                    } else {
                        assert(self.data@[mid.read_priv@[i] as int]
                            == mid.data@[mid.read_priv@[i] as int]);
                    }
                }
            }
            seqno = seqno - 1;
            count = count + 1;
            if pos == 0 {
                gen_tag = (gen_tag + 255) % GEN_SPAN;
            }
            proof {
                vstd::arithmetic::div_mod::lemma_mod_bound(gen_tag as int, 256);
                if seqno > 0 {
                    lemma_div_mod_pred(k, cap);
                    if k % cap == 0 {
                        lemma_mod_wrap_dec(k / cap, 256);
                        vstd::arithmetic::div_mod::lemma_mod_bound(k / cap + 1, 256);
                    }
                    assert(gen_tag as int == tag_of(k - 1, cap));
                }
            }
        }
        let it = CircularBufferIterator { items, start: seqno, count };
        proof {
            let fin = *self;
            let dlen = drain_len(pre@.cap, pre@.read_mark, pre@.seq);
            assert(count as int == dlen) by {
                if count as int == cap {
                    assert(seqno as int == seq0 - cap);
                    assert(seq0 - mark >= cap);
                } else {
                    assert(seqno == pre.max_read);
                }
            }
            // after the pass every written position holds an empty cell:
            // what was not claimed now lies outside the live window
            assert forall|p: int|
                0 <= p < cap implies fin.data@[#[trigger] fin.slot_of(p)] == (if p < seq0
                && last_pub(seq0, cap, p) >= seq0 {
                fin.hist@[last_pub(seq0, cap, p)]
            } else {
                None::<T>
            }) by {
                if p < seq0 {
                    lemma_last_pub_mod(seq0, cap, p);
                }
            }
            assert(fin.wf());
            assert(it@.items =~= drained_window(hist0, pre@.cap, pre@.read_mark, pre@.seq));
        }
        it
    }

    /// The pool is partitioned: at any quiescent moment the scratch cell,
    /// the consumer's cells and the ring slots together reference every one
    /// of the `2n + 1` pool cells exactly once.
    pub proof fn lemma_cell_partition(&self)
        requires
            self.wf(),
        ensures
            self.owner_cells().no_duplicates(),
            self.owner_cells().len() == 2 * self@.cap + 1,
            self.owner_cells().to_set() == vstd::set_lib::set_int_range(
                0,
                2 * self@.cap as int + 1,
            ),
    {
        let cap = self.size as int;
        let n2 = 2 * cap + 1;
        let owners = self.owner_cells();
        let range = vstd::set_lib::set_int_range(0, n2);
        owners.unique_seq_to_set();
        vstd::set_lib::lemma_int_range(0, n2);
        assert forall|i: int| 0 <= i < owners.len() implies 0 <= #[trigger] owners[i] < n2 by {
            if i == 0 {
                assert(owners[i] == self.write_tmp as int);
            } else if i < 1 + cap {
                assert(owners[i] == self.read_priv@[i - 1] as int);
            } else {
                assert(owners[i] == self.slot_of(i - 1 - cap));
            }
        }
        assert forall|c: int| owners.to_set().contains(c) implies range.contains(c) by {
            assert(owners.contains(c));
            let i = choose|i: int| 0 <= i < owners.len() && owners[i] == c;
            assert(0 <= owners[i] < n2);
        }
        assert(owners.to_set().subset_of(range));
        vstd::set_lib::lemma_set_subset_finite(range, owners.to_set());
        vstd::set_lib::lemma_subset_equality(owners.to_set(), range);
        assert(owners.to_set() =~= range);
    }

    /// Facts of the model that hold of every well-formed ring, for
    /// callers that cannot see into `wf`: the ring is at least one slot
    /// wide, the history has exactly one entry per publication, and the
    /// consumer's read mark never passes the producer's count.
    pub proof fn lemma_wf_model(&self)
        requires
            self.wf(),
        ensures
            self@.cap >= 1,
            self@.hist.len() == self@.seq,
            self@.read_mark <= self@.seq,
    {
    }

    /// The count of items published so far, as the consumer sees it.
    pub fn seqno(&self) -> (r: usize)
        requires
            self.wf(),
        ensures
            r == self@.seq,
    {
        self.seqno / GEN_SPAN
    }
}

/// Abstract state of a drain cursor: the id of the oldest payload still to
/// be yielded, and the payloads themselves in id order.
pub struct CursorModel<T> {
    /// Id of the next payload `next` would yield.
    pub start: nat,
    /// The payloads still to be yielded, oldest first.
    pub items: Seq<Option<T>>,
}

/// One drain pass's harvest.  The payloads were claimed walking backward
/// from the newest publication, and are yielded oldest first, in id order.
pub struct CircularBufferIterator<T> {
    /// The claimed payloads, newest first; `next` pops from the back.
    items: Vec<Option<T>>,
    /// Id of the oldest payload still to be yielded.
    start: usize,
    /// Payloads still to be yielded.
    count: usize,
}

impl<T> View for CircularBufferIterator<T> {
    type V = CursorModel<T>;

    closed spec fn view(&self) -> CursorModel<T> {
        CursorModel { start: self.start as nat, items: self.items@.reverse() }
    }
}

/// The id range a cursor can still deliver.
pub trait IterRange {
    /// Whether the cursor's bookkeeping is intact.
    spec fn ids_ok(&self) -> bool;

    /// Id of the next item the cursor would yield.
    spec fn ids_from(&self) -> nat;

    /// Number of items still to be yielded.
    spec fn ids_len(&self) -> nat;

    /// The half-open id range still deliverable.
    fn get_range(&self) -> (r: (usize, usize))
        requires
            self.ids_ok(),
        ensures
            r.0 == self.ids_from(),
            r.1 == self.ids_from() + self.ids_len(),
    ;

    /// The id of the next item, if one remains.
    fn next_id(&self) -> (r: Option<usize>)
        requires
            self.ids_ok(),
        ensures
            (match r {
                Some(id) => self.ids_len() > 0 && id == self.ids_from(),
                None => self.ids_len() == 0,
            }),
    ;
}

impl<T> CircularBufferIterator<T> {
    /// The cursor's bookkeeping: the counter mirrors the stored payloads,
    /// and the id range fits the machine word it is reported in.
    pub closed spec fn wf(self) -> bool {
        &&& self.items@.len() == self.count
        &&& self.start + self.count <= usize::MAX
    }

    /// Yields the oldest payload not yet delivered, or `None` once the
    /// cursor is exhausted.  A yielded payload may itself be `None` where
    /// the producer published an empty cell; the id is consumed either way.
    pub fn next(&mut self) -> (r: Option<T>)
        requires
            old(self).wf(),
        ensures
            final(self).wf(),
            old(self)@.items.len() > 0 ==> {
                &&& r == old(self)@.items[0]
                &&& final(self)@.items == old(self)@.items.drop_first()
                &&& final(self)@.start == old(self)@.start + 1
            },
            old(self)@.items.len() == 0 ==> r is None && final(self)@ == old(self)@,
    {
        if self.count > 0 {
            self.count = self.count - 1;
            self.start = self.start + 1;
            let got = self.items.pop();
            proof {
                let s_pre = old(self).items@;
                assert(self.items@ =~= s_pre.drop_last());
                assert(self@.items =~= old(self)@.items.drop_first());
            }
            match got {
                Some(x) => x,
                // a pop from a vector the counter proves non-empty
                None => None,
            }
        } else {
            proof {
                assert(self@ == old(self)@);
            }
            None
        }
    }
}

impl<T> IterRange for CircularBufferIterator<T> {
    open spec fn ids_ok(&self) -> bool {
        self.wf()
    }

    open spec fn ids_from(&self) -> nat {
        self@.start
    }

    open spec fn ids_len(&self) -> nat {
        self@.items.len()
    }

    fn get_range(&self) -> (r: (usize, usize)) {
        (self.start, self.start + self.count)
    }

    fn next_id(&self) -> (r: Option<usize>) {
        if self.count > 0 {
            Some(self.start)
        } else {
            None
        }
    }
}

/// A publish leaves the scratch cell empty whenever it displaced no unread
/// item — in particular whenever the producer has not lapped the consumer's
/// read mark by a full ring.
pub proof fn lemma_scratch_empty_after_put<T>(m: RingModel<T>)
    requires
        m.seq < m.cap || m.seq - m.cap < m.read_mark,
    ensures
        evicted_by_put(m) is None,
{
}

/// No id is delivered twice: a drain's claim ends exactly at the read mark
/// it leaves behind, and the next drain starts at or after that mark, so
/// the two windows cannot share an id — whether or not either cursor was
/// consumed to its end.
pub proof fn lemma_drains_disjoint(start1: nat, len1: nat, mark1: nat, start2: nat)
    requires
        start1 + len1 == mark1,
        start2 >= mark1,
    ensures
        start1 + len1 <= start2,
{
}

/// An id displaced by a publish is never delivered afterward: the
/// eviction takes the item exactly `cap` publications back from the count
/// the publish saw, while every later drain — one with a larger observed
/// count — claims at most the `cap` newest ids below that count.  With
/// `lemma_drained_never_evicted` this gives the at-most-once half of the
/// no-loss accounting: no id is both drained and handed to an overflow
/// sink.
pub proof fn lemma_evicted_never_drained(
    cap: nat,
    seq_at_put: nat,
    seq_at_drain: nat,
    start: nat,
    len: nat,
)
    requires
        seq_at_put >= cap,
        seq_at_drain > seq_at_put,
        start + len == seq_at_drain,
        len <= cap,
    ensures
        seq_at_put - cap < start,
{
}

/// An id once delivered is never displaced afterward: its drain left the
/// read mark beyond it, the mark never decreases, and a publish displaces
/// an unread item only — one whose id is at or past the mark the publish
/// saw.
pub proof fn lemma_drained_never_evicted(
    id: nat,
    mark_after_drain: nat,
    mark_at_put: nat,
    seq_at_put: nat,
    cap: nat,
)
    requires
        id < mark_after_drain,
        mark_after_drain <= mark_at_put,
        seq_at_put >= cap,
        seq_at_put - cap >= mark_at_put,
    ensures
        seq_at_put - cap != id,
{
}

/// No loss while the producer stays within the capacity: when at most
/// `cap` items were published since the consumer's read mark, a drain
/// carries out every unread payload, in id order.
pub proof fn lemma_lossless_window<T>(hist: Seq<Option<T>>, cap: nat, mark: nat, seq: nat)
    requires
        mark <= seq,
        seq <= hist.len(),
        seq - mark <= cap,
    ensures
        drain_len(cap, mark, seq) == seq - mark,
        drained_window(hist, cap, mark, seq) == hist.subrange(mark as int, seq as int),
{
}

/// How division and remainder by `d` change when stepping down from `x` to
/// `x - 1`.
proof fn lemma_div_mod_pred(x: int, d: int)
    requires
        d >= 1,
        x >= 1,
    ensures
        x % d == 0 ==> (x - 1) % d == d - 1 && (x - 1) / d == x / d - 1,
        x % d != 0 ==> (x - 1) % d == x % d - 1 && (x - 1) / d == x / d,
{
    vstd::arithmetic::div_mod::lemma_fundamental_div_mod(x, d);
    vstd::arithmetic::div_mod::lemma_mod_bound(x, d);
    let q = x / d;
    let r = x % d;
    if r == 0 {
        assert(x - 1 == (q - 1) * d + (d - 1)) by (nonlinear_arith)
            requires
                x == d * q + r,
                r == 0,
        ;
        vstd::arithmetic::div_mod::lemma_fundamental_div_mod_converse(x - 1, d, q - 1, d - 1);
    } else {
        assert(x - 1 == q * d + (r - 1)) by (nonlinear_arith)
            requires
                x == d * q + r,
        ;
        vstd::arithmetic::div_mod::lemma_fundamental_div_mod_converse(x - 1, d, q, r - 1);
    }
}

/// How each position's latest publication id changes when item `seq` is
/// published: the position `seq` lands on now has `seq` as its latest id,
/// and every other position keeps its id.
proof fn lemma_last_pub_step(seq: int, cap: int)
    requires
        cap >= 1,
        seq >= 0,
    ensures
        last_pub(seq + 1, cap, seq % cap) == seq,
        forall|p: int|
            0 <= p < cap && p != seq % cap ==> #[trigger] last_pub(seq + 1, cap, p) == last_pub(
                seq,
                cap,
                p,
            ),
{
    let pos = seq % cap;
    vstd::arithmetic::div_mod::lemma_mod_bound(seq, cap);
    vstd::arithmetic::div_mod::lemma_fundamental_div_mod(seq, cap);
    // the slot `seq` lands on: `seq - pos` is a whole number of revolutions
    assert((seq - pos) % cap == 0) by {
        assert(seq - pos == (seq / cap) * cap) by (nonlinear_arith)
            requires
                seq == cap * (seq / cap) + pos,
        ;
        vstd::arithmetic::div_mod::lemma_mod_multiples_basic(seq / cap, cap);
    }
    assert(last_pub(seq + 1, cap, pos) == seq);
    assert forall|p: int| 0 <= p < cap && p != pos implies #[trigger] last_pub(seq + 1, cap, p)
        == last_pub(seq, cap, p) by {
        if p < seq {
            lemma_div_mod_pred(seq - p, cap);
            assert((seq - p) % cap != 0) by {
                if (seq - p) % cap == 0 {
                    vstd::arithmetic::div_mod::lemma_sub_mod_noop(seq, p, cap);
                    vstd::arithmetic::div_mod::lemma_small_mod(p as nat, cap as nat);
                    let d = pos - p;
                    if d >= 0 {
                        vstd::arithmetic::div_mod::lemma_small_mod(d as nat, cap as nat);
                    } else {
                        vstd::arithmetic::div_mod::lemma_mod_add_multiples_vanish(d, cap);
                        vstd::arithmetic::div_mod::lemma_small_mod((d + cap) as nat, cap as nat);
                    }
                }
            }
        } else {
            if p == seq {
                vstd::arithmetic::div_mod::lemma_small_mod(p as nat, cap as nat);
            }
        }
    }
}

/// How the tag of the packed sequence word advances across one publication:
/// it steps forward exactly when the publication lands on position zero.
proof fn lemma_word_tag_step(seq: int, cap: int)
    requires
        cap >= 1,
        seq >= 0,
    ensures
        seq % cap == 0 ==> word_tag(seq + 1, cap) == (word_tag(seq, cap) + 1) % 256,
        seq % cap != 0 ==> word_tag(seq + 1, cap) == word_tag(seq, cap),
{
    if seq == 0 {
        vstd::arithmetic::div_mod::lemma_mod_multiples_basic(0, cap);
        assert(0int / cap == 0 && 1int % 256 == 1) by {
            vstd::arithmetic::div_mod::lemma_basic_div(0, cap);
            vstd::arithmetic::div_mod::lemma_small_mod(1, 256);
        }
        assert(word_tag(1, cap) == 1) by {
            vstd::arithmetic::div_mod::lemma_basic_div(0, cap);
            vstd::arithmetic::div_mod::lemma_small_mod(1, 256);
        }
    } else {
        lemma_div_mod_pred(seq, cap);
        if seq % cap == 0 {
            // the quotient advances: (1 + q) % 256 == ((1 + q - 1) % 256 + 1) % 256
            let q = seq / cap;
            lemma_mod_succ(q, 256);
        }
    }
}

/// `(x + 1) % m` in terms of `x % m`.
proof fn lemma_mod_succ(x: int, m: int)
    requires
        m >= 1,
        x >= 0,
    ensures
        (x + 1) % m == (x % m + 1) % m,
{
    vstd::arithmetic::div_mod::lemma_mod_bound(x, m);
    vstd::arithmetic::div_mod::lemma_fundamental_div_mod(x, m);
    let q = x / m;
    let r = x % m;
    if r + 1 < m {
        assert(x + 1 == q * m + (r + 1)) by (nonlinear_arith)
            requires
                x == m * q + r,
        ;
        vstd::arithmetic::div_mod::lemma_fundamental_div_mod_converse(x + 1, m, q, r + 1);
        vstd::arithmetic::div_mod::lemma_small_mod((r + 1) as nat, m as nat);
    } else {
        assert(x + 1 == (q + 1) * m + 0) by (nonlinear_arith)
            requires
                x == m * q + r,
                r == m - 1,
        ;
        vstd::arithmetic::div_mod::lemma_fundamental_div_mod_converse(x + 1, m, q + 1, 0);
        assert((r + 1) % m == 0) by {
            vstd::arithmetic::div_mod::lemma_mod_multiples_basic(1, m);
        }
    }
}

/// Swapping two entries of a sequence keeps its entries distinct.
proof fn lemma_swap_keeps_distinct(s: Seq<int>, i: int, j: int)
    requires
        s.no_duplicates(),
        0 <= i < s.len(),
        0 <= j < s.len(),
    ensures
        s.update(i, s[j]).update(j, s[i]).no_duplicates(),
{
    let t = s.update(i, s[j]).update(j, s[i]);
    assert forall|a: int, b: int| 0 <= a < t.len() && 0 <= b < t.len() && a != b implies t[a]
        != t[b] by {
        assert(t[a] == if a == j {
            s[i]
        } else if a == i {
            s[j]
        } else {
            s[a]
        });
        assert(t[b] == if b == j {
            s[i]
        } else if b == i {
            s[j]
        } else {
            s[b]
        });
    }
}

/// The latest id on the position the next publication lands on, once the
/// ring has completed a full revolution, is exactly `cap` publications back.
proof fn lemma_last_pub_at_put_pos(seq: int, cap: int)
    requires
        cap >= 1,
        seq >= cap,
    ensures
        last_pub(seq, cap, seq % cap) == seq - cap,
{
    let pos = seq % cap;
    vstd::arithmetic::div_mod::lemma_mod_bound(seq, cap);
    vstd::arithmetic::div_mod::lemma_fundamental_div_mod(seq, cap);
    let q = seq / cap;
    assert(q >= 1) by (nonlinear_arith)
        requires
            seq == cap * q + pos,
            0 <= pos < cap,
            cap <= seq,
    ;
    assert(seq - 1 - pos == (q - 1) * cap + (cap - 1)) by (nonlinear_arith)
        requires
            seq == cap * q + pos,
    ;
    vstd::arithmetic::div_mod::lemma_fundamental_div_mod_converse(
        seq - 1 - pos,
        cap,
        q - 1,
        cap - 1,
    );
}

/// Any id within the last `cap` publications is still the latest id of the
/// position it landed on.
proof fn lemma_last_pub_in_window(seq: int, cap: int, k: int)
    requires
        cap >= 1,
        0 <= k < seq,
        seq - cap <= k,
    ensures
        last_pub(seq, cap, k % cap) == k,
        k % cap <= k,
        k % cap < seq,
{
    let pos = k % cap;
    vstd::arithmetic::div_mod::lemma_mod_bound(k, cap);
    vstd::arithmetic::div_mod::lemma_fundamental_div_mod(k, cap);
    let q = k / cap;
    assert(q >= 0) by {
        vstd::arithmetic::div_mod::lemma_div_pos_is_pos(k, cap);
    }
    assert(pos <= k) by (nonlinear_arith)
        requires
            k == cap * q + pos,
            q >= 0,
            cap >= 1,
            pos >= 0,
    ;
    assert(seq - 1 - pos == q * cap + (seq - 1 - k)) by (nonlinear_arith)
        requires
            k == cap * q + pos,
    ;
    vstd::arithmetic::div_mod::lemma_fundamental_div_mod_converse(
        seq - 1 - pos,
        cap,
        q,
        seq - 1 - k,
    );
}

/// The latest publication id of a written position sits on that position,
/// within the last `cap` ids.
proof fn lemma_last_pub_mod(seq: int, cap: int, p: int)
    requires
        cap >= 1,
        0 <= p < cap,
        p < seq,
    ensures
        last_pub(seq, cap, p) % cap == p,
        seq - cap <= last_pub(seq, cap, p) < seq,
{
    let r = (seq - 1 - p) % cap;
    vstd::arithmetic::div_mod::lemma_mod_bound(seq - 1 - p, cap);
    vstd::arithmetic::div_mod::lemma_fundamental_div_mod(seq - 1 - p, cap);
    let j = (seq - 1 - p) / cap;
    assert(j >= 0) by {
        vstd::arithmetic::div_mod::lemma_div_pos_is_pos(seq - 1 - p, cap);
    }
    assert(last_pub(seq, cap, p) == j * cap + p) by (nonlinear_arith)
        requires
            seq - 1 - p == cap * j + r,
            last_pub(seq, cap, p) == seq - 1 - r,
    ;
    vstd::arithmetic::div_mod::lemma_fundamental_div_mod_converse_mod(
        last_pub(seq, cap, p),
        cap,
        j,
        p,
    );
}

/// Stepping a wrapped counter down by one: adding `m - 1` undoes adding
/// one, modulo `m`.
proof fn lemma_mod_wrap_dec(y: int, m: int)
    requires
        m >= 1,
        y >= 0,
    ensures
        ((y + 1) % m + (m - 1)) % m == y % m,
{
    vstd::arithmetic::div_mod::lemma_mod_bound(y + 1, m);
    vstd::arithmetic::div_mod::lemma_small_mod((m - 1) as nat, m as nat);
    vstd::arithmetic::div_mod::lemma_add_mod_noop(y + 1, m - 1, m);
    assert(((y + 1) % m + (m - 1)) % m == (y + m) % m);
    vstd::arithmetic::div_mod::lemma_mod_add_multiples_vanish(y, m);
}

/// Recovers the two fields of a packed flag or sequence word.
proof fn lemma_pack_fields(slot: int, tag: int)
    requires
        0 <= tag < 256,
        0 <= slot,
    ensures
        (slot * 256 + tag) / 256 == slot,
        (slot * 256 + tag) % 256 == tag,
{
    vstd::arithmetic::div_mod::lemma_fundamental_div_mod_converse(slot * 256 + tag, 256, slot, tag);
}

} // verus!
