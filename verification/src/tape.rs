use vstd::prelude::*;

verus! {

/// A conceptually infinite byte array addressed by a signed offset, with a
/// movable head.  All cells start at zero.  Physically a contiguous buffer
/// plus an offset mapping a logical index to a physical slot; the buffer
/// grows at either end on demand and never shrinks.
#[derive(Debug)]
pub struct Tape {
    data: Vec<u8>,
    data_offset: usize,
    head: isize,
}

impl Tape {
    /// The byte held at logical index `i`: the last value written there, or
    /// zero if the index was never written.
    pub closed spec fn cell(self, i: int) -> u8 {
        if 0 <= self.data_offset + i < self.data@.len() {
            self.data@[self.data_offset + i]
        } else {
            0
        }
    }

    /// The head's current logical index.
    pub closed spec fn head_pos(self) -> int {
        self.head as int
    }

    /// A fresh tape: every cell zero, head at index zero.
    pub fn new() -> (r: Tape)
        ensures
            r.head_pos() == 0,
            forall|i: int| r.cell(i) == 0,
    {
        Tape { data: Vec::new(), data_offset: 0, head: 0 }
    }

    /// Shift the head one cell to the right.  No memory is touched.
    pub fn move_right(&mut self)
        requires
            old(self).head_pos() < isize::MAX,
        ensures
            final(self).head_pos() == old(self).head_pos() + 1,
            forall|i: int| final(self).cell(i) == old(self).cell(i),
    {
        self.head = self.head + 1;
    }

    /// Shift the head one cell to the left.  No memory is touched.
    pub fn move_left(&mut self)
        requires
            old(self).head_pos() > isize::MIN,
        ensures
            final(self).head_pos() == old(self).head_pos() - 1,
            forall|i: int| final(self).cell(i) == old(self).cell(i),
    {
        self.head = self.head - 1;
    }

    /// Add one to the cell under the head, with eight-bit wraparound.
    pub fn increment(&mut self)
        ensures
            final(self).head_pos() == old(self).head_pos(),
            final(self).cell(old(self).head_pos()) as int
                == (old(self).cell(old(self).head_pos()) as int + 1) % 256,
            forall|i: int|
                i != old(self).head_pos() ==> final(self).cell(i) == old(self).cell(i),
    {
        self.set(self.head, self.get(self.head).wrapping_add(1));
    }

    /// Subtract one from the cell under the head, with eight-bit wraparound.
    pub fn decrement(&mut self)
        ensures
            final(self).head_pos() == old(self).head_pos(),
            final(self).cell(old(self).head_pos()) as int
                == (old(self).cell(old(self).head_pos()) as int + 255) % 256,
            forall|i: int|
                i != old(self).head_pos() ==> final(self).cell(i) == old(self).cell(i),
    {
        self.set(self.head, self.get(self.head).wrapping_sub(1));
    }

    /// The value of the cell under the head.
    pub fn read(&self) -> (r: u8)
        ensures
            r == self.cell(self.head_pos()),
    {
        self.get(self.head)
    }

    /// Store `val` in the cell under the head.
    pub fn write(&mut self, val: u8)
        ensures
            final(self).head_pos() == old(self).head_pos(),
            final(self).cell(old(self).head_pos()) == val,
            forall|i: int|
                i != old(self).head_pos() ==> final(self).cell(i) == old(self).cell(i),
    {
        self.set(self.head, val)
    }

    /// The current head index, as a machine integer.
    pub(crate) fn head_index(&self) -> (r: isize)
        ensures
            r as int == self.head_pos(),
    {
        self.head
    }

    /// Read the cell at an arbitrary logical index.  An index outside the
    /// represented window reads as zero; nothing is allocated or mutated.
    pub fn get(&self, index: isize) -> (r: u8)
        ensures
            r == self.cell(index as int),
    {
        let real_index: i128 = self.data_offset as i128 + index as i128;

        if 0 <= real_index && real_index < self.data.len() as i128 {
            self.data[real_index as usize]
        } else {
            0
        }
    }

    /// Write `val` at an arbitrary logical index, extending the represented
    /// window leftward or rightward as needed so that the index is covered.
    /// Every other cell keeps its value, however far the extension reaches.
    pub fn set(&mut self, index: isize, val: u8)
        ensures
            final(self).head_pos() == old(self).head_pos(),
            final(self).cell(index as int) == val,
            forall|i: int| i != index as int ==> final(self).cell(i) == old(self).cell(i),
    {
        let mut real_index: i128 = self.data_offset as i128 + index as i128;

        while real_index < 0
            invariant
                real_index == self.data_offset as i128 + index as i128,
                self.head == old(self).head,
                forall|i: int| self.cell(i) == old(self).cell(i),
            decreases -real_index,
        {
            proof {
                assert((self.data_offset as i128) + (index as i128) < 0);
                assert((index as i128) >= isize::MIN as i128);
                assert(self.data_offset < usize::MAX);
            }
            let ghost pre = *self;
            self.data.insert(0, 0);
            self.data_offset = self.data_offset + 1;
            real_index = real_index + 1;
            proof {
                assert forall|i: int| self.cell(i) == pre.cell(i) by {
                    let r = pre.data_offset + i;
                    if 0 <= r < pre.data@.len() {
                        assert(self.data@[r + 1] == pre.data@[r]);
                    }
                }
            }
        }

        while real_index >= self.data.len() as i128
            invariant
                0 <= real_index,
                real_index == self.data_offset as i128 + index as i128,
                self.head == old(self).head,
                forall|i: int| self.cell(i) == old(self).cell(i),
            decreases real_index + 1 - self.data.len() as i128,
        {
            let ghost pre = *self;
            self.data.push(0);
            proof {
                assert forall|i: int| self.cell(i) == pre.cell(i) by {
                    let r = pre.data_offset + i;
                    if r == pre.data@.len() {
                        assert(self.cell(i) == 0);
                    }
                }
            }
        }

        let ghost pre = *self;
        self.data[real_index as usize] = val;
        proof {
            assert(final(self).cell(index as int) == val);
            assert forall|i: int| i != index as int implies self.cell(i) == pre.cell(i) by {
                assert(pre.data_offset + i != real_index);
            }
        }
    }
}

/// The value that a sequence of (index, value) writes leaves at index `i`:
/// the value of the most recent write at exactly `i`, or zero if `i` was
/// never written.
pub open spec fn written_value(writes: Seq<(int, u8)>, i: int) -> u8
    decreases writes.len(),
{
    if writes.len() == 0 {
        0
    } else if writes.last().0 == i {
        writes.last().1
    } else {
        written_value(writes.drop_last(), i)
    }
}

/// The tape holds, at every index, exactly the outcome of `writes` applied
/// in order to a fresh tape.
pub open spec fn tracks_writes(t: Tape, writes: Seq<(int, u8)>) -> bool {
    forall|i: int| t.cell(i) == written_value(writes, i)
}

/// A fresh tape tracks the empty write sequence: every cell reads zero.
pub proof fn lemma_new_tracks_no_writes(t: Tape)
    requires
        forall|i: int| t.cell(i) == 0,
    ensures
        tracks_writes(t, Seq::empty()),
{
}

/// `set` extends the tracked write sequence.  If `pre` holds the outcome of
/// `writes`, and `post` relates to `pre` exactly as `set(index, val)`'s
/// contract states, then `post` holds the outcome of `writes` followed by
/// `(index, val)`.  With `lemma_new_tracks_no_writes` this gives, by
/// induction over any sequence of writes, that `get` at any index returns
/// the value of the most recent write at that exact index, or zero if that
/// index was never written.
pub proof fn lemma_set_tracks_writes(
    pre: Tape,
    post: Tape,
    writes: Seq<(int, u8)>,
    index: int,
    val: u8,
)
    requires
        tracks_writes(pre, writes),
        post.cell(index) == val,
        forall|i: int| i != index ==> post.cell(i) == pre.cell(i),
    ensures
        tracks_writes(post, writes.push((index, val))),
{
    let ws = writes.push((index, val));
    assert(ws.drop_last() =~= writes);
    assert forall|i: int| post.cell(i) == written_value(ws, i) by {
        if i != index {
            assert(written_value(ws, i) == written_value(writes, i));
        }
    }
}

impl Default for Tape {
    /// Same as `Tape::new`.
    fn default() -> (r: Self)
        ensures
            r.head_pos() == 0,
            forall|i: int| r.cell(i) == 0,
    {
        Tape::new()
    }
}

} // verus!
