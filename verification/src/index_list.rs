//! Lists of indices on small vectors.
//!
//! This is where the crate meets `smallvec`. What Verus is told of it without proof stands
//! at the top: the list type, the name of what it holds, and four private functions that
//! call into `smallvec`. Everything else here is proved from them.

use vstd::prelude::*;

verus! {

/// A list of indices that keeps up to four of them inline before it moves to the heap.
///
/// The storage is a `smallvec::SmallVec<[usize; 4]>`. Verus does not look inside it: all it
/// knows of a list is the sequence [`items`], which is also the list's view.
#[verifier::external_body]
#[derive(Debug)]
pub struct IndexList {
    inner: smallvec::SmallVec<[usize; 4]>,
}

/// The indices that a list holds, first to last.
pub uninterp spec fn items(list: IndexList) -> Seq<usize>;

impl View for IndexList {
    type V = Seq<usize>;

    open spec fn view(&self) -> Seq<usize> {
        items(*self)
    }
}

/// `smallvec::SmallVec::new`: the new list holds nothing.
#[verifier::external_body]
fn list_new() -> (list: IndexList)
    ensures
        items(list) == Seq::<usize>::empty(),
{
    IndexList { inner: smallvec::SmallVec::new() }
}

/// `smallvec::SmallVec::push`: the value is appended behind the items already held, which
/// stay as they were.
#[verifier::external_body]
fn list_push(list: &mut IndexList, value: usize)
    ensures
        items(*final(list)) == items(*old(list)).push(value),
{
    list.inner.push(value)
}

/// `smallvec::SmallVec::as_slice`: the slice holds the list's items in their order.
#[verifier::external_body]
fn list_as_slice(list: &IndexList) -> (slice: &[usize])
    ensures
        slice@ == items(*list),
{
    list.inner.as_slice()
}

/// `<[usize]>::swap` on the items of a `smallvec::SmallVec`, reached through its `DerefMut`:
/// the items at the two positions change places and every other item stays. Both positions
/// have to be inside the list, since the call panics otherwise.
#[verifier::external_body]
fn list_swap(list: &mut IndexList, a: usize, b: usize)
    requires
        a < items(*old(list)).len(),
        b < items(*old(list)).len(),
    ensures
        items(*final(list)) == swapped(items(*old(list)), a as int, b as int),
{
    list.inner.swap(a, b)
}

/// The sequence with the items at positions `a` and `b` exchanged.
pub open spec fn swapped(s: Seq<usize>, a: int, b: int) -> Seq<usize> {
    Seq::new(
        s.len(),
        |i: int|
            if i == a {
                s[b]
            } else if i == b {
                s[a]
            } else {
                s[i]
            },
    )
}

impl IndexList {
    /// An empty list.
    pub fn new() -> (list: Self)
        ensures
            list@ == Seq::<usize>::empty(),
    {
        list_new()
    }

    /// Appends `value` to the list.
    pub fn push(&mut self, value: usize)
        ensures
            final(self)@ == old(self)@.push(value),
    {
        list_push(self, value)
    }

    /// The items as a slice.
    pub fn as_slice(&self) -> (slice: &[usize])
        ensures
            slice@ == self@,
    {
        list_as_slice(self)
    }

    /// The number of items.
    pub fn len(&self) -> (n: usize)
        ensures
            n == self@.len(),
    {
        list_as_slice(self).len()
    }

    /// The item at position `i`, or `None` where the list is shorter.
    pub fn get(&self, i: usize) -> (item: Option<usize>)
        ensures
            item == (if i < self@.len() {
                Some(self@[i as int])
            } else {
                None
            }),
    {
        let slice = list_as_slice(self);
        if i < slice.len() {
            Some(slice[i])
        } else {
            None
        }
    }

    /// Exchanges the items at positions `a` and `b`.
    pub fn swap(&mut self, a: usize, b: usize)
        requires
            a < old(self)@.len(),
            b < old(self)@.len(),
        ensures
            final(self)@ == swapped(old(self)@, a as int, b as int),
    {
        list_swap(self, a, b)
    }

    /// A list with the items of `values`, in their order.
    pub fn from_slice(values: &[usize]) -> (list: Self)
        ensures
            list@ == values@,
    {
        let mut list = list_new();
        let mut i: usize = 0;
        while i < values.len()
            invariant
                i <= values@.len(),
                list@ == values@.take(i as int),
            decreases values@.len() - i,
        {
            list_push(&mut list, values[i]);
            assert(values@.take(i + 1) == values@.take(i as int).push(values@[i as int]));
            i += 1;
        }
        assert(values@.take(i as int) == values@);
        list
    }

    /// The items as a `Vec`, in their order.
    pub fn to_vec(&self) -> (values: Vec<usize>)
        ensures
            values@ == self@,
    {
        let slice = list_as_slice(self);
        let mut values: Vec<usize> = Vec::new();
        let mut i: usize = 0;
        while i < slice.len()
            invariant
                i <= slice@.len(),
                values@ == slice@.take(i as int),
            decreases slice@.len() - i,
        {
            values.push(slice[i]);
            assert(slice@.take(i + 1) == slice@.take(i as int).push(slice@[i as int]));
            i += 1;
        }
        assert(slice@.take(i as int) == slice@);
        values
    }
}

impl Clone for IndexList {
    fn clone(&self) -> (copy: Self)
        ensures
            copy@ == self@,
    {
        IndexList::from_slice(list_as_slice(self))
    }
}

impl Default for IndexList {
    fn default() -> (list: Self)
        ensures
            list@ == Seq::<usize>::empty(),
    {
        list_new()
    }
}

} // verus!
