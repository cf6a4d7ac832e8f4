//! Allocation within one segment.

use vstd::prelude::*;

verus! {

/// Hands out the bytes of a segment from the front on and takes none back.
#[derive(Debug, Clone, Copy)]
pub struct BumpAllocator {
    capacity: usize,
    offset: usize,
}

/// The size of a segment, and how much of it has been handed out.
#[verifier::ext_equal]
pub struct AllocatorView {
    pub capacity: nat,
    pub offset: nat,
}

impl AllocatorView {
    /// The allocator of a segment of which nothing has been handed out.
    pub open spec fn fresh(capacity: nat) -> AllocatorView {
        AllocatorView { capacity, offset: 0 }
    }

    /// Whether `size` more bytes can be handed out.
    pub open spec fn fits(self, size: nat) -> bool {
        self.offset + size <= self.capacity
    }

    /// The allocator after `size` more bytes have been handed out.
    pub open spec fn bumped(self, size: nat) -> AllocatorView {
        AllocatorView { capacity: self.capacity, offset: self.offset + size }
    }

    /// The allocator after it was asked for `sizes`, one after the other. A
    /// request that does not fit hands nothing out.
    pub open spec fn after_requests(self, sizes: Seq<nat>) -> AllocatorView
        decreases sizes.len(),
    {
        if sizes.len() == 0 {
            self
        } else {
            let before = self.after_requests(sizes.drop_last());
            if before.fits(sizes.last()) {
                before.bumped(sizes.last())
            } else {
                before
            }
        }
    }

    /// No more has been handed out than there is.
    pub open spec fn valid(self) -> bool {
        self.offset <= self.capacity <= usize::MAX
    }
}

impl View for BumpAllocator {
    type V = AllocatorView;

    closed spec fn view(&self) -> AllocatorView {
        AllocatorView { capacity: self.capacity as nat, offset: self.offset as nat }
    }
}

impl BumpAllocator {
    /// An allocator for a segment of `capacity` bytes.
    pub fn new(capacity: usize) -> (allocator: Self)
        ensures
            allocator@ == AllocatorView::fresh(capacity as nat),
            allocator@.capacity == capacity,
            allocator@.offset == 0,
            allocator@.valid(),
    {
        BumpAllocator { capacity, offset: 0 }
    }

    /// Hands out `size` bytes and returns where they start, if that many are
    /// left.
    pub fn allocate(&mut self, size: usize) -> (start: Option<usize>)
        requires
            old(self)@.valid(),
        ensures
            final(self)@.valid(),
            match start {
                Some(start) => old(self)@.fits(size as nat) && start == old(self)@.offset
                    && final(self)@ == old(self)@.bumped(size as nat),
                None => !old(self)@.fits(size as nat) && final(self)@ == old(self)@,
            },
            start is Some <==> size <= old(self)@.capacity - old(self)@.offset,
            start is Some ==> start->0 == old(self)@.offset && final(self)@.offset
                == old(self)@.offset + size,
            start is None ==> final(self)@.offset == old(self)@.offset,
            final(self)@.capacity == old(self)@.capacity,
    {
        match self.offset.checked_add(size) {
            None => None,
            Some(end) => {
                if end > self.capacity {
                    return None;
                }
                let start = self.offset;
                self.offset = end;
                Some(start)
            },
        }
    }
}

proof fn lemma_requests_only_advance(allocator: AllocatorView, sizes: Seq<nat>)
    ensures
        allocator.after_requests(sizes).capacity == allocator.capacity,
        allocator.after_requests(sizes).offset >= allocator.offset,
    decreases sizes.len(),
{
    if sizes.len() > 0 {
        lemma_requests_only_advance(allocator, sizes.drop_last());
    }
}

/// Two allocations from one allocator, with any requests between them, lie
/// within the segment and do not overlap.
pub proof fn law_allocations_are_disjoint(
    allocator: AllocatorView,
    first_size: nat,
    between: Seq<nat>,
    later_size: nat,
)
    requires
        allocator.fits(first_size),
        allocator.bumped(first_size).after_requests(between).fits(later_size),
    ensures
        ({
            let first_start = allocator.offset;
            let later_start = allocator.bumped(first_size).after_requests(between).offset;
            &&& first_start + first_size <= later_start
            &&& later_start + later_size <= allocator.capacity
        }),
{
    lemma_requests_only_advance(allocator.bumped(first_size), between);
}

/// Room is a matter of numbers alone: bytes can be handed out exactly if no
/// more are asked for than are left, however many that are, and what is handed
/// out then is that many bytes and no other.
pub proof fn law_room_is_what_is_left(allocator: AllocatorView, size: nat, capacity: nat)
    ensures
        allocator.fits(size) <==> size <= allocator.capacity - allocator.offset,
        allocator.bumped(size).offset - allocator.offset == size,
        allocator.bumped(size).capacity == allocator.capacity,
        AllocatorView::fresh(capacity).capacity == capacity,
        AllocatorView::fresh(capacity).offset == 0,
{
}

/// A segment can be filled to its last byte, by requests of any sizes: as long
/// as their sum is no more than the segment holds, none of them is refused.
pub proof fn law_requests_that_sum_up_are_all_served(capacity: nat, sizes: Seq<nat>)
    requires
        sizes.fold_left(0nat, |sum: nat, size: nat| sum + size) <= capacity,
    ensures
        AllocatorView::fresh(capacity).after_requests(sizes).offset == sizes.fold_left(
            0nat,
            |sum: nat, size: nat| sum + size,
        ),
        AllocatorView::fresh(capacity).after_requests(sizes).capacity == capacity,
    decreases sizes.len(),
{
    if sizes.len() > 0 {
        law_requests_that_sum_up_are_all_served(capacity, sizes.drop_last());
    }
}

} // verus!
