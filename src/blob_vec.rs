use vstd::prelude::*;

verus! {

/// Whether `align` is a power of two.
pub open spec fn is_power_of_two(align: usize) -> bool {
    align != 0 && align & ((align - 1) as usize) == 0
}

/// Size and alignment of one stored item.
#[derive(Debug, Clone, Copy, PartialEq, Eq, Structural)]
pub struct Layout {
    pub size: usize,
    pub align: usize,
}

/// A layout that describes a real type: a power-of-two alignment and a size that stays
/// within `isize::MAX` once rounded up to it.
pub open spec fn layout_valid(size: usize, align: usize) -> bool {
    is_power_of_two(align) && size <= isize::MAX - (align - 1)
}

impl Layout {
    /// The layout of `size` bytes aligned to `align`, when that describes a real type.
    pub fn from_size_align(size: usize, align: usize) -> (r: Option<Layout>)
        ensures
            r.is_some() == layout_valid(size, align),
            r matches Some(l) ==> l.size == size && l.align == align,
    {
        if align == 0 || align & (align - 1) != 0 {
            return None;
        }
        if align - 1 > isize::MAX as usize || size > (isize::MAX as usize) - (align - 1) {
            return None;
        }
        Some(Layout { size, align })
    }

    /// The layout of a value of type `T`.
    pub fn new<T>() -> (r: Layout)
        ensures
            r.size == vstd::layout::size_of::<T>(),
            r.align == vstd::layout::align_of::<T>(),
    {
        Layout { size: core::mem::size_of::<T>(), align: core::mem::align_of::<T>() }
    }

    pub fn size(&self) -> (r: usize)
        ensures
            r == self.size,
    {
        self.size
    }

    pub fn align(&self) -> (r: usize)
        ensures
            r == self.align,
    {
        self.align
    }
}

/// The padding after an item of `layout` that brings the next one to a multiple of `align`.
pub fn padding_needed_for(layout: &Layout, align: usize) -> (r: usize)
    requires
        is_power_of_two(align),
        layout.size + align - 1 <= usize::MAX,
    ensures
        r < align,
        (layout.size + r) % (align as int) == 0,
{
    let rem = layout.size % align;
    if rem == 0 {
        0
    } else {
        proof {
            let (x, a, q) = (layout.size as int, align as int, rem as int);
            assert((x + (a - q)) % a == 0) by (nonlinear_arith)
                requires
                    q == x % a,
                    a > 0,
                    x >= 0,
            {
                assert(x == (x / a) * a + q);
                assert(x + (a - q) == (x / a + 1) * a);
            }
        }
        align - rem
    }
}

/// The layout of `n` items of `layout` laid end to end, when its size fits.
pub fn array_layout(layout: &Layout, n: usize) -> (r: Option<Layout>)
    requires
        is_power_of_two(layout.align),
        layout.size + layout.align - 1 <= usize::MAX,
    ensures
        r.is_some() == (padded_size(layout.size, layout.align) * n <= usize::MAX),
        r matches Some(l) ==> l.size == padded_size(layout.size, layout.align) * n && l.align == layout.align,
{
    let padding = padding_needed_for(layout, layout.align);
    proof {
        assert(padding == padded_size(layout.size, layout.align) - layout.size) by (nonlinear_arith)
            requires
                padding < layout.align,
                (layout.size + padding) % (layout.align as int) == 0,
                layout.align > 0,
        {
            assert(layout.size + padding == ((layout.size + layout.align - 1) / (layout.align as int)) * layout.align);
        }
    }
    let padded = layout.size + padding;
    match padded.checked_mul(n) {
        Some(size) => Some(Layout { size, align: layout.align }),
        None => None,
    }
}

/// The size of an item rounded up to a multiple of its alignment.
pub open spec fn padded_size(size: usize, align: usize) -> int {
    ((size + align - 1) / (align as int)) * align
}

/// A growable array of items of one layout, each held as its bytes. A slot that was added
/// but not yet written holds no bytes.
pub struct BlobVec {
    item_layout: Layout,
    capacity: usize,
    items: Vec<Vec<u8>>,
    needs_drop: bool,
}

impl BlobVec {
    /// The items, in order.
    pub closed spec fn items(&self) -> Seq<Seq<u8>> {
        self.items@.map_values(|b: Vec<u8>| b@)
    }

    /// The layout of one item.
    pub closed spec fn spec_layout(&self) -> Layout {
        self.item_layout
    }

    /// Whether removed items need their destructor run.
    pub closed spec fn spec_needs_drop(&self) -> bool {
        self.needs_drop
    }

    /// How many items fit before the storage has to grow.
    pub closed spec fn spec_capacity(&self) -> nat {
        self.capacity as nat
    }

    pub closed spec fn wf(&self) -> bool {
        &&& self.capacity >= self.items@.len()
        &&& self.item_layout.size == 0 ==> self.capacity == usize::MAX
    }

    /// An empty array for items of `item_layout`, with room for `capacity` of them.
    pub fn new(item_layout: Layout, needs_drop: bool, capacity: usize) -> (r: BlobVec)
        ensures
            r.wf(),
            r.items().len() == 0,
            r.spec_layout() == item_layout,
            r.spec_needs_drop() == needs_drop,
            item_layout.size == 0 ==> r.spec_capacity() == usize::MAX,
            item_layout.size != 0 ==> r.spec_capacity() == capacity,
    {
        if item_layout.size == 0 {
            BlobVec { item_layout, capacity: usize::MAX, items: Vec::new(), needs_drop }
        } else {
            let mut blob = BlobVec { item_layout, capacity: 0, items: Vec::new(), needs_drop };
            blob.reserve_exact(capacity);
            blob
        }
    }

    pub fn len(&self) -> (r: usize)
        ensures
            r == self.items().len(),
    {
        self.items.len()
    }

    pub fn is_empty(&self) -> (r: bool)
        ensures
            r == (self.items().len() == 0),
    {
        self.items.len() == 0
    }

    /// How many items fit without growing; unbounded for zero-size items.
    pub fn capacity(&self) -> (r: usize)
        ensures
            r == self.spec_capacity(),
    {
        self.capacity
    }

    pub fn layout(&self) -> (r: Layout)
        ensures
            r == self.spec_layout(),
    {
        self.item_layout
    }

    /// Makes room for exactly `additional` more items when fewer fit.
    pub fn reserve_exact(&mut self, additional: usize)
        requires
            old(self).wf(),
            old(self).items().len() + additional <= usize::MAX,
        ensures
            final(self).wf(),
            final(self).items() == old(self).items(),
            final(self).spec_layout() == old(self).spec_layout(),
            final(self).spec_needs_drop() == old(self).spec_needs_drop(),
            final(self).spec_capacity() == if old(self).spec_capacity() - old(self).items().len() < additional {
                old(self).items().len() + additional as int
            } else {
                old(self).spec_capacity() as int
            },
    {
        let available = self.capacity - self.items.len();
        if available < additional {
            self.items.reserve(additional);
            self.capacity = self.items.len() + additional;
        }
    }

    /// Appends one item, growing the storage by exactly one slot when it is full.
    pub fn push(&mut self, value: Vec<u8>)
        requires
            old(self).wf(),
            old(self).items().len() < usize::MAX,
        ensures
            final(self).wf(),
            final(self).items() == old(self).items().push(value@),
            final(self).spec_layout() == old(self).spec_layout(),
            final(self).spec_needs_drop() == old(self).spec_needs_drop(),
            final(self).spec_capacity() == if old(self).spec_capacity() == old(self).items().len() {
                old(self).items().len() + 1int
            } else {
                old(self).spec_capacity() as int
            },
    {
        self.reserve_exact(1);
        self.items.push(value);
        proof {
            assert(self.items@.map_values(|b: Vec<u8>| b@) =~= old(self).items@.map_values(|b: Vec<u8>| b@).push(value@));
        }
    }

    /// Appends one slot that is not written yet.
    pub fn push_uninitialized(&mut self)
        requires
            old(self).wf(),
            old(self).items().len() < usize::MAX,
        ensures
            final(self).wf(),
            final(self).items() == old(self).items().push(Seq::empty()),
            final(self).spec_layout() == old(self).spec_layout(),
            final(self).spec_needs_drop() == old(self).spec_needs_drop(),
    {
        let v: Vec<u8> = Vec::new();
        proof {
            assert(v@ =~= Seq::<u8>::empty());
        }
        self.push(v);
    }

    /// Writes a slot that holds nothing yet.
    pub fn initialize_unchecked(&mut self, index: usize, value: Vec<u8>)
        requires
            old(self).wf(),
            index < old(self).items().len(),
        ensures
            final(self).wf(),
            final(self).spec_capacity() == old(self).spec_capacity(),
            final(self).items() == old(self).items().update(index as int, value@),
            final(self).spec_layout() == old(self).spec_layout(),
            final(self).spec_needs_drop() == old(self).spec_needs_drop(),
    {
        self.items.set(index, value);
        proof {
            assert(self.items@.map_values(|b: Vec<u8>| b@) =~= old(self).items@.map_values(|b: Vec<u8>| b@).update(
                index as int,
                value@,
            ));
        }
    }

    /// Overwrites a live slot; the old item is dropped.
    pub fn replace_unchecked(&mut self, index: usize, value: Vec<u8>)
        requires
            old(self).wf(),
            index < old(self).items().len(),
        ensures
            final(self).wf(),
            final(self).spec_capacity() == old(self).spec_capacity(),
            final(self).items() == old(self).items().update(index as int, value@),
            final(self).spec_layout() == old(self).spec_layout(),
            final(self).spec_needs_drop() == old(self).spec_needs_drop(),
    {
        self.initialize_unchecked(index, value);
    }

    /// Removes the item at `index` by moving the last item into its place, and hands it back.
    pub fn swap_remove_and_forget_unchecked(&mut self, index: usize) -> (r: Vec<u8>)
        requires
            old(self).wf(),
            index < old(self).items().len(),
        ensures
            final(self).wf(),
            final(self).spec_capacity() == old(self).spec_capacity(),
            r@ == old(self).items()[index as int],
            final(self).items() == old(self).items().update(index as int, old(self).items().last()).drop_last(),
            final(self).spec_layout() == old(self).spec_layout(),
            final(self).spec_needs_drop() == old(self).spec_needs_drop(),
    {
        let r = self.items.swap_remove(index);
        proof {
            assert(self.items@.map_values(|b: Vec<u8>| b@) =~= old(self).items@.map_values(|b: Vec<u8>| b@).update(
                index as int,
                old(self).items@.map_values(|b: Vec<u8>| b@).last(),
            ).drop_last());
        }
        r
    }

    /// Removes the item at `index` by moving the last item into its place; the removed item is
    /// dropped.
    pub fn swap_remove_and_drop_unchecked(&mut self, index: usize)
        requires
            old(self).wf(),
            index < old(self).items().len(),
        ensures
            final(self).wf(),
            final(self).spec_capacity() == old(self).spec_capacity(),
            final(self).items() == old(self).items().update(index as int, old(self).items().last()).drop_last(),
            final(self).spec_layout() == old(self).spec_layout(),
            final(self).spec_needs_drop() == old(self).spec_needs_drop(),
    {
        let _ = self.swap_remove_and_forget_unchecked(index);
    }

    /// The bytes of the item at `index`.
    pub fn get_unchecked(&self, index: usize) -> (r: &Vec<u8>)
        requires
            index < self.items().len(),
        ensures
            r@ == self.items()[index as int],
    {
        &self.items[index]
    }

    /// Removes every item.
    pub fn clear(&mut self)
        requires
            old(self).wf(),
        ensures
            final(self).wf(),
            final(self).spec_capacity() == old(self).spec_capacity(),
            final(self).items().len() == 0,
            final(self).spec_layout() == old(self).spec_layout(),
            final(self).spec_needs_drop() == old(self).spec_needs_drop(),
    {
        self.items.clear();
    }
}

} // verus!
