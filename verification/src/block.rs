//! One page's worth of heap blocks: a [`BlockPage`] is the 256-bit occupancy
//! bitmap for the 256 sixteen-byte blocks of one 4096-byte page, stored as
//! four 64-bit sections. [`SectionState`] captures, per section, whether it
//! held bits before an operation and whether it holds bits after, which
//! drives the map/unmap hysteresis of the block allocator.

use vstd::prelude::*;

verus! {

/// Number of 64-bit sections per block page.
pub const SECTION_COUNT: u64 = 4;

/// Number of blocks tracked by one section.
pub const SECTION_LEN: u64 = 64;

/// Number of blocks tracked by one block page.
pub const BLOCK_COUNT: u64 = 256;

/// Whether bit `k` of `word` is set (`k < 64`).
pub open spec fn bit_of(word: u64, k: u64) -> bool {
    (word >> k) & 1 == 1
}

/// The 256-bit occupancy bitmap for one page of heap: bit `i` set means
/// block `i` of the page is in use.
#[derive(Clone, Copy, Debug)]
pub struct BlockPage {
    /// The four 64-bit sections, low blocks first.
    pub sections: [u64; 4],
}

impl BlockPage {
    /// The 256 occupancy bits, low blocks first.
    pub open spec fn view(self) -> Seq<bool> {
        Seq::new(256, |i: int| bit_of(self.sections[i / 64], (i % 64) as u64))
    }

    /// Every block of the page is free.
    pub open spec fn spec_is_empty(self) -> bool {
        self.sections[0] == 0 && self.sections[1] == 0 && self.sections[2] == 0 && self.sections[3]
            == 0
    }

    /// Every block of the page is in use.
    pub open spec fn spec_is_full(self) -> bool {
        self.sections[0] == u64::MAX && self.sections[1] == u64::MAX && self.sections[2]
            == u64::MAX && self.sections[3] == u64::MAX
    }

    /// A block page with every block free.
    pub fn empty() -> (r: Self)
        ensures
            r.spec_is_empty(),
            forall|i: int| 0 <= i < 256 ==> !r@[i],
    {
        proof {
            lemma_zero_bits();
        }
        Self { sections: [0u64, 0u64, 0u64, 0u64] }
    }

    /// Whether every block of the page is free.
    pub fn is_empty(&self) -> (r: bool)
        ensures
            r == self.spec_is_empty(),
    {
        self.sections[0] == 0 && self.sections[1] == 0 && self.sections[2] == 0 && self.sections[3]
            == 0
    }

    /// Whether every block of the page is in use.
    pub fn is_full(&self) -> (r: bool)
        ensures
            r == self.spec_is_full(),
    {
        self.sections[0] == u64::MAX && self.sections[1] == u64::MAX && self.sections[2]
            == u64::MAX && self.sections[3] == u64::MAX
    }

    /// Free every block of the page.
    pub fn set_empty(&mut self)
        ensures
            final(self).spec_is_empty(),
            forall|i: int| 0 <= i < 256 ==> !final(self)@[i],
    {
        proof {
            lemma_zero_bits();
        }
        self.sections = [0u64, 0u64, 0u64, 0u64];
    }

    /// Mark every block of the page in use.
    pub fn set_full(&mut self)
        ensures
            final(self).spec_is_full(),
            forall|i: int| 0 <= i < 256 ==> final(self)@[i],
    {
        proof {
            lemma_ones_bits();
        }
        self.sections = [u64::MAX, u64::MAX, u64::MAX, u64::MAX];
    }

    /// Read one block's occupancy bit.
    pub fn get_block(&self, index: u64) -> (r: bool)
        requires
            index < 256,
        ensures
            r == self@[index as int],
    {
        let word: u64 = self.sections[(index / 64) as usize];
        (word >> (index % 64)) & 1 == 1
    }

    /// Write one block's occupancy bit.
    pub fn set_block(&mut self, index: u64, value: bool)
        requires
            index < 256,
        ensures
            final(self)@ == old(self)@.update(index as int, value),
    {
        let j: usize = (index / 64) as usize;
        let k: u64 = index % 64;
        let word: u64 = self.sections[j];
        let new_word: u64 = if value {
            word | (1u64 << k)
        } else {
            word & !(1u64 << k)
        };
        proof {
            lemma_bit_update(word, k, value);
        }
        self.sections[j] = new_word;
        proof {
            assert(final(self)@ =~= old(self)@.update(index as int, value)) by {
                assert forall|i: int| 0 <= i < 256 implies self@[i] == old(self)@.update(
                    index as int,
                    value,
                )[i] by {
                    vstd::arithmetic::div_mod::lemma_fundamental_div_mod(i, 64);
                    vstd::arithmetic::div_mod::lemma_fundamental_div_mod(index as int, 64);
                    if i / 64 == index as int / 64 && i != index as int {
                        assert((i % 64) as u64 != index % 64);
                    }
                }
            }
        }
    }

    /// Write every block bit in `[from, to)`.
    #[verifier::loop_isolation(false)]
    pub fn set_range(&mut self, from: u64, to: u64, value: bool)
        requires
            from <= to,
            to <= 256,
        ensures
            forall|i: int|
                0 <= i < 256 ==> final(self)@[i] == (if from <= i < to {
                    value
                } else {
                    old(self)@[i]
                }),
    {
        let mut k: u64 = from;
        while k < to
            invariant
                from <= k <= to,
                forall|i: int|
                    0 <= i < 256 ==> self@[i] == (if from <= i < k {
                        value
                    } else {
                        old(self)@[i]
                    }),
            decreases to - k,
        {
            self.set_block(k, value);
            k = k + 1;
        }
    }
}

/// Whether a section held occupancy bits before an operation and whether it
/// holds bits after: decides when the page's backing frame must be mapped or
/// unmapped.
#[derive(Clone, Copy, PartialEq, Eq, Structural, Debug)]
pub struct SectionState {
    /// The section held at least one set bit before the operation.
    pub had_bits: bool,
    /// The section holds at least one set bit after the operation.
    pub has_bits: bool,
}

impl SectionState {
    /// A section empty before and after.
    pub open spec fn spec_is_empty(self) -> bool {
        !self.had_bits && !self.has_bits
    }

    /// A section that went from empty to occupied.
    pub open spec fn spec_is_alloc(self) -> bool {
        !self.had_bits && self.has_bits
    }

    /// A section that went from occupied to empty.
    pub open spec fn spec_is_dealloc(self) -> bool {
        self.had_bits && !self.has_bits
    }

    /// A state for a section empty before and after.
    pub fn empty() -> (r: Self)
        ensures
            r.spec_is_empty(),
    {
        Self { had_bits: false, has_bits: false }
    }

    /// Whether the section stayed empty.
    pub fn is_empty(&self) -> (r: bool)
        ensures
            r == self.spec_is_empty(),
    {
        !self.had_bits && !self.has_bits
    }

    /// Whether the section went from empty to occupied.
    pub fn is_alloc(&self) -> (r: bool)
        ensures
            r == self.spec_is_alloc(),
    {
        !self.had_bits && self.has_bits
    }

    /// Whether the section went from occupied to empty.
    pub fn is_dealloc(&self) -> (r: bool)
        ensures
            r == self.spec_is_dealloc(),
    {
        self.had_bits && !self.has_bits
    }

    /// Whether the page these sections belong to went from empty to occupied
    /// and therefore needs its backing frame mapped.
    pub fn should_alloc(page_state: &[SectionState]) -> (r: bool)
        ensures
            r == ((exists|i: int|
                0 <= i < page_state@.len() && (#[trigger] page_state@[i]).spec_is_alloc()) && (
            forall|i: int|
                0 <= i < page_state@.len() ==> ((#[trigger] page_state@[i]).spec_is_alloc()
                    || page_state@[i].spec_is_empty()))),
    {
        let mut any_alloc = false;
        let mut all_ok = true;
        let mut i: usize = 0;
        while i < page_state.len()
            invariant
                i <= page_state@.len(),
                any_alloc == (exists|j: int|
                    0 <= j < i && (#[trigger] page_state@[j]).spec_is_alloc()),
                all_ok == (forall|j: int|
                    0 <= j < i ==> ((#[trigger] page_state@[j]).spec_is_alloc()
                        || page_state@[j].spec_is_empty())),
            decreases page_state@.len() - i,
        {
            let st = page_state[i];
            if st.is_alloc() {
                any_alloc = true;
            }
            if !(st.is_alloc() || st.is_empty()) {
                all_ok = false;
            }
            i = i + 1;
        }
        any_alloc && all_ok
    }

    /// Whether the page these sections belong to went from occupied to empty
    /// and therefore needs its backing frame unmapped.
    pub fn should_dealloc(page_state: &[SectionState]) -> (r: bool)
        ensures
            r == ((exists|i: int|
                0 <= i < page_state@.len() && (#[trigger] page_state@[i]).spec_is_dealloc()) && (
            forall|i: int|
                0 <= i < page_state@.len() ==> ((#[trigger] page_state@[i]).spec_is_dealloc()
                    || page_state@[i].spec_is_empty()))),
    {
        let mut any_dealloc = false;
        let mut all_ok = true;
        let mut i: usize = 0;
        while i < page_state.len()
            invariant
                i <= page_state@.len(),
                any_dealloc == (exists|j: int|
                    0 <= j < i && (#[trigger] page_state@[j]).spec_is_dealloc()),
                all_ok == (forall|j: int|
                    0 <= j < i ==> ((#[trigger] page_state@[j]).spec_is_dealloc()
                        || page_state@[j].spec_is_empty())),
            decreases page_state@.len() - i,
        {
            let st = page_state[i];
            if st.is_dealloc() {
                any_dealloc = true;
            }
            if !(st.is_dealloc() || st.is_empty()) {
                all_ok = false;
            }
            i = i + 1;
        }
        any_dealloc && all_ok
    }
}

proof fn lemma_zero_bits()
    by (bit_vector)
    ensures
        forall|k: u64| k < 64 ==> ((0u64 >> k) & 1 != 1),
{
}

proof fn lemma_ones_bits()
    by (bit_vector)
    ensures
        forall|k: u64| k < 64 ==> ((u64::MAX >> k) & 1 == 1),
{
}

/// An empty page has no set occupancy bit.
pub proof fn lemma_empty_no_bits(bp: BlockPage)
    requires
        bp.spec_is_empty(),
    ensures
        forall|i: int| 0 <= i < 256 ==> !bp@[i],
{
    lemma_zero_bits();
}

/// A full page has every occupancy bit set.
pub proof fn lemma_full_all_bits(bp: BlockPage)
    requires
        bp.spec_is_full(),
    ensures
        forall|i: int| 0 <= i < 256 ==> bp@[i],
{
    lemma_ones_bits();
}

/// A full section has every one of its 64 occupancy bits set.
pub proof fn lemma_section_ones(bp: BlockPage, w: int)
    requires
        0 <= w < 4,
        bp.sections[w] == u64::MAX,
    ensures
        forall|k: int| 0 <= k < 64 ==> #[trigger] bp@[w * 64 + k],
{
    lemma_ones_bits();
    assert forall|k: int| 0 <= k < 64 implies #[trigger] bp@[w * 64 + k] by {
        vstd::arithmetic::div_mod::lemma_fundamental_div_mod_converse(w * 64 + k, 64, w, k);
    }
}

/// A page with a clear occupancy bit is not full.
pub proof fn lemma_bit_clear_nonfull(bp: BlockPage, i: int)
    requires
        0 <= i < 256,
        !bp@[i],
    ensures
        !bp.spec_is_full(),
{
    let w = bp.sections[i / 64];
    let k = (i % 64) as u64;
    assert((k < 64 && (w >> k) & 1 != 1) ==> w != u64::MAX) by (bit_vector);
}

/// A page with a set occupancy bit is not empty.
pub proof fn lemma_bit_set_nonempty(bp: BlockPage, i: int)
    requires
        0 <= i < 256,
        bp@[i],
    ensures
        !bp.spec_is_empty(),
{
    let w = bp.sections[i / 64];
    let k = (i % 64) as u64;
    assert(((w >> k) & 1 == 1) ==> w != 0) by (bit_vector);
}

proof fn lemma_bit_update(word: u64, k: u64, value: bool)
    by (bit_vector)
    requires
        k < 64,
    ensures
        value ==> ((word | (1u64 << k)) >> k) & 1 == 1,
        !value ==> ((word & !(1u64 << k)) >> k) & 1 != 1,
        forall|j: u64|
            j < 64 && j != k ==> ((word | (1u64 << k)) >> j) & 1 == #[trigger] ((word >> j) & 1),
        forall|j: u64|
            j < 64 && j != k ==> ((word & !(1u64 << k)) >> j) & 1 == ((word >> j) & 1),
{
}

} // verus!
