use vstd::layout::align_of;
use vstd::prelude::*;

use crate::layout::{is_header_slice_aligned, lemma_mod_trans};

verus! {

/// A header followed by a trailing sequence of items.
///
/// The number of items is part of each value: two header-slices over the same
/// header with different payload lengths are different values. A view that
/// borrows its header and items from elsewhere has reference types for `H`
/// and `T` (`HeaderSlice<&H, &H>`).
#[derive(Debug, Clone, PartialEq, Eq, PartialOrd, Ord, Hash)]
pub struct HeaderSlice<H, T> {
    /// The value preceding the items.
    pub header: H,
    /// The trailing contiguous sequence of values.
    pub slice: Vec<T>,
}

impl<H, T> View for HeaderSlice<H, T> {
    type V = (H, Seq<T>);

    open spec fn view(&self) -> (H, Seq<T>) {
        (self.header, self.slice@)
    }
}

/// Relies on `core::ptr::from_ref` and the cast of its result to `usize`: the
/// address of a referenced value, which is non-null and aligned to its type.
#[verifier::external_body]
fn address_of<V>(value: &V) -> (addr: usize)
    ensures
        addr != 0,
        addr as nat % align_of::<V>() == 0,
{
    core::ptr::from_ref(value) as usize
}

/// Where the header's alignment is a multiple of the items' alignment, every
/// address that suits the header suits the items too.
proof fn lemma_header_address_suits_items<H, T>(addr: usize)
    requires
        addr as nat % align_of::<H>() == 0,
        align_of::<H>() % align_of::<T>() == 0,
    ensures
        addr as nat % align_of::<T>() == 0,
{
    broadcast use vstd::layout::align_nonzero;

    lemma_mod_trans(addr as int, align_of::<H>() as int, align_of::<T>() as int);
}

/// The header and payload that a non-empty sequence splits into: its first
/// element, and all that follows it.
pub open spec fn split_full<H>(s: Seq<H>) -> (H, Seq<H>)
    recommends
        s.len() > 0,
{
    (s[0], s.subrange(1, s.len() as int))
}

/// The sequence that a header and its payload form together.
pub open spec fn join_full<H>(header: H, payload: Seq<H>) -> Seq<H> {
    seq![header] + payload
}

/// The values that a sequence of references refers to.
pub open spec fn derefs<H>(s: Seq<&H>) -> Seq<H> {
    s.map_values(|x: &H| *x)
}

/// The values that a sequence of mutable references refers to now.
pub open spec fn currents<H>(s: Seq<&mut H>) -> Seq<H> {
    s.map_values(|x: &mut H| *x)
}

/// Splitting a non-empty sequence into header and payload and joining them
/// again gives back the same sequence, element for element.
pub proof fn lemma_split_join<H>(s: Seq<H>)
    requires
        s.len() > 0,
    ensures
        join_full(split_full(s).0, split_full(s).1) == s,
{
    assert(join_full(split_full(s).0, split_full(s).1) =~= s);
}

/// Joining a header and a payload and splitting the result gives back that
/// header and that payload.
pub proof fn lemma_join_split<H>(header: H, payload: Seq<H>)
    ensures
        join_full(header, payload).len() == payload.len() + 1,
        split_full(join_full(header, payload)) == (header, payload),
{
    assert(join_full(header, payload).subrange(1, payload.len() + 1 as int) =~= payload);
}

/// Viewing a non-empty sequence as header and items by reference, then
/// listing the references again, refers to the same values in the same order.
pub proof fn lemma_borrowed_round_trip<H>(s: Seq<H>, header: &H, items: Seq<&H>)
    requires
        s.len() > 0,
        (*header, derefs(items)) == split_full(s),
    ensures
        derefs(join_full(header, items)) == s,
{
    assert(derefs(join_full(header, items)) =~= join_full(*header, derefs(items)));
    lemma_split_join(s);
}

/// Returns a mutable reference to each element of `slice`, in order.
fn each_mut<'a, H>(slice: &'a mut [H]) -> (r: Vec<&'a mut H>)
    ensures
        currents(r@) == old(slice)@,
        final(slice)@.len() == r@.len(),
        forall|k: int| 0 <= k < r@.len() ==> final(slice)@[k] == *final(r@[k]),
{
    if slice.len() == 0 {
        return Vec::new();
    }
    let ghost orig = old(slice)@;
    let len = slice.len();
    assert(len == orig.len());
    let ghost fin = final(slice)@;
    let mut refs: Vec<&'a mut H> = Vec::new();
    let mut cur = slice;
    let mut i: usize = 0;
    while cur.len() > 1
        invariant
            len == orig.len(),
            i < len,
            cur@ == orig.subrange(i as int, len as int),
            refs@.len() == i,
            currents(refs@) == orig.subrange(0, i as int),
            fin.len() == i + final(cur)@.len(),
            forall|k: int| 0 <= k < i ==> fin[k] == *final(refs@[k]),
            forall|k: int| 0 <= k < final(cur)@.len() ==> fin[i + k] == final(cur)@[k],
        decreases cur@.len(),
    {
        let ghost fin_cur = final(cur)@;
        let (first, tail) = cur.split_at_mut(1);
        let ghost fin_first = final(first)@;
        let ghost fin_tail = final(tail)@;
        let e = first.first_mut().unwrap();
        assert(fin_first =~= seq![*final(e)]);
        assert(fin[i as int] == *final(e)) by {
            assert(fin_cur[0] == fin_first[0]);
        }
        assert forall|k: int| 0 <= k < fin_tail.len() implies fin[i + 1 + k] == fin_tail[k] by {
            assert(fin_cur[1 + k] == fin_tail[k]);
        }
        let ghost prev = refs@;
        refs.push(e);
        assert(fin[i as int] == *final(refs@[i as int]));
        assert(currents(refs@) =~= currents(prev).push(orig[i as int]));
        cur = tail;
        i += 1;
    }
    // The last element is taken on its own, so that the slice is known to end
    // right after it.
    let ghost fin_last = final(cur)@;
    let last = cur.first_mut().unwrap();
    assert(fin_last =~= seq![*final(last)]);
    assert(fin[i + 0] == fin_last[0]);
    assert(fin[i as int] == *final(last));
    assert(*last == orig[i as int]);
    let ghost prev = refs@;
    refs.push(last);
    assert(fin[i as int] == *final(refs@[i as int]));
    assert(currents(refs@) =~= currents(prev).push(orig[i as int]));
    assert(orig.subrange(0, i as int).push(orig[i as int]) =~= orig);
    assert(currents(refs@) =~= orig);
    refs
}

impl<H, T> HeaderSlice<H, T> {
    /// Returns the result of calling `f` on a shared header-slice made of
    /// `header` and no items.
    pub fn with_header<F, R>(header: H, f: F) -> (r: R) where F: FnOnce(&Self) -> R
        requires
            forall|hs: Self| hs@ == (header, Seq::<T>::empty()) ==> call_requires(f, (&hs,)),
        ensures
            exists|hs: Self| hs@ == (header, Seq::<T>::empty()) && call_ensures(f, (&hs,), r),
    {
        let hs = HeaderSlice { header, slice: Vec::new() };
        assert(hs@ == (header, Seq::<T>::empty()));
        let r = f(&hs);
        assert(call_ensures(f, (&hs,), r));
        r
    }

    /// Returns the result of calling `f` on a mutable header-slice made of
    /// `header` and no items.
    pub fn with_header_mut<F, R>(header: H, f: F) -> (r: R) where F: FnOnce(&mut Self) -> R
        requires
            forall|hs: &mut Self| (*hs)@ == (header, Seq::<T>::empty()) ==> call_requires(f, (hs,)),
        ensures
            exists|hs: &mut Self|
                (*hs)@ == (header, Seq::<T>::empty()) && call_ensures(f, (hs,), r),
    {
        let mut hs = HeaderSlice { header, slice: Vec::new() };
        assert(hs@ == (header, Seq::<T>::empty()));
        f(&mut hs)
    }

    /// Attempts to view `header` as a header-slice with no items.
    ///
    /// The header stays where it is, so this succeeds only where its address
    /// is aligned to `T`, as an empty run of items after it must be. That
    /// always holds where the alignment of `H` is a multiple of that of `T`.
    pub fn from_header<'a>(header: &'a H) -> (r: Option<HeaderSlice<&'a H, T>>)
        ensures
            r matches Some(hs) ==> *hs.header == *header && hs.slice@.len() == 0,
            align_of::<H>() % align_of::<T>() == 0 ==> r is Some,
    {
        let addr = address_of(header);
        proof {
            if align_of::<H>() % align_of::<T>() == 0 {
                lemma_header_address_suits_items::<H, T>(addr);
            }
        }
        Self::from_header_at(header, addr)
    }

    /// Views `header`, which lies at address `addr`, as a header-slice with no
    /// items; `None` exactly where `addr` is not aligned to `T`.
    pub fn from_header_at<'a>(header: &'a H, addr: usize) -> (r: Option<HeaderSlice<&'a H, T>>)
        ensures
            r is Some <==> addr as nat % align_of::<T>() == 0,
            r matches Some(hs) ==> *hs.header == *header && hs.slice@.len() == 0,
    {
        if is_header_slice_aligned::<H, T>(addr) {
            Some(Self::from_header_unchecked(header))
        } else {
            None
        }
    }

    /// Attempts to view `header` mutably as a header-slice with no items.
    ///
    /// Succeeds where the address of `header` is aligned to `T`, as
    /// [`HeaderSlice::from_header`] does; writes to the header of the result
    /// land in `header`.
    pub fn from_header_mut<'a>(header: &'a mut H) -> (r: Option<HeaderSlice<&'a mut H, T>>)
        ensures
            r matches Some(hs) ==> {
                &&& *hs.header == *old(header)
                &&& *final(header) == *final(hs.header)
                &&& hs.slice@.len() == 0
            },
            r is None ==> *final(header) == *old(header),
            align_of::<H>() % align_of::<T>() == 0 ==> r is Some,
    {
        let addr = address_of(&*header);
        proof {
            if align_of::<H>() % align_of::<T>() == 0 {
                lemma_header_address_suits_items::<H, T>(addr);
            }
        }
        Self::from_header_mut_at(header, addr)
    }

    /// Views `header`, which lies at address `addr`, mutably as a header-slice
    /// with no items; `None` exactly where `addr` is not aligned to `T`.
    pub fn from_header_mut_at<'a>(header: &'a mut H, addr: usize) -> (r: Option<
        HeaderSlice<&'a mut H, T>,
    >)
        ensures
            r is Some <==> addr as nat % align_of::<T>() == 0,
            r matches Some(hs) ==> {
                &&& *hs.header == *old(header)
                &&& *final(header) == *final(hs.header)
                &&& hs.slice@.len() == 0
            },
            r is None ==> *final(header) == *old(header),
    {
        if is_header_slice_aligned::<H, T>(addr) {
            Some(Self::from_header_unchecked_mut(header))
        } else {
            None
        }
    }

    /// Attempts to turn the boxed `header` into an owned header-slice with no
    /// items; hands `header` back unchanged where its address is not aligned
    /// to `T`.
    pub fn from_boxed_header(header: Box<H>) -> (r: Result<Self, Box<H>>)
        ensures
            r matches Ok(hs) ==> hs@ == (*header, Seq::<T>::empty()),
            r matches Err(b) ==> b == header,
            align_of::<H>() % align_of::<T>() == 0 ==> r is Ok,
    {
        let addr = address_of(&*header);
        proof {
            if align_of::<H>() % align_of::<T>() == 0 {
                lemma_header_address_suits_items::<H, T>(addr);
            }
        }
        Self::from_boxed_header_at(header, addr)
    }

    /// Turns the boxed `header`, which lies at address `addr`, into an owned
    /// header-slice with no items; hands `header` back unchanged exactly where
    /// `addr` is not aligned to `T`.
    pub fn from_boxed_header_at(header: Box<H>, addr: usize) -> (r: Result<Self, Box<H>>)
        ensures
            r is Ok <==> addr as nat % align_of::<T>() == 0,
            r matches Ok(hs) ==> hs@ == (*header, Seq::<T>::empty()),
            r matches Err(b) ==> b == header,
    {
        if is_header_slice_aligned::<H, T>(addr) {
            Ok(Self::from_boxed_header_unchecked(header))
        } else {
            Err(header)
        }
    }

    /// Views `header` as a header-slice with no items, without looking at its
    /// address.
    pub fn from_header_unchecked<'a>(header: &'a H) -> (r: HeaderSlice<&'a H, T>)
        ensures
            *r.header == *header,
            r.slice@.len() == 0,
    {
        HeaderSlice { header, slice: Vec::new() }
    }

    /// Views `header` mutably as a header-slice with no items, without looking
    /// at its address.
    pub fn from_header_unchecked_mut<'a>(header: &'a mut H) -> (r: HeaderSlice<&'a mut H, T>)
        ensures
            *r.header == *old(header),
            *final(header) == *final(r.header),
            r.slice@.len() == 0,
    {
        HeaderSlice { header, slice: Vec::new() }
    }

    /// Turns the boxed `header` into an owned header-slice with no items,
    /// without looking at its address.
    pub fn from_boxed_header_unchecked(header: Box<H>) -> (r: Self)
        ensures
            r@ == (*header, Seq::<T>::empty()),
    {
        HeaderSlice { header: *header, slice: Vec::new() }
    }
}

impl<H> HeaderSlice<H, H> {
    /// Attempts to view `slice` as a header-slice, using its first element as
    /// the header and the rest as the items; `None` if `slice` is empty.
    pub fn from_full_slice<'a>(slice: &'a [H]) -> (r: Option<HeaderSlice<&'a H, &'a H>>)
        ensures
            slice@.len() == 0 <==> r is None,
            r matches Some(hs) ==> {
                &&& hs.slice@.len() == slice@.len() - 1
                &&& (*hs.header, derefs(hs.slice@)) == split_full(slice@)
            },
    {
        if slice.len() == 0 {
            None
        } else {
            Some(Self::from_full_slice_unchecked(slice))
        }
    }

    /// Views the non-empty `slice` as a header-slice, using its first element
    /// as the header and the rest as the items.
    pub fn from_full_slice_unchecked<'a>(slice: &'a [H]) -> (r: HeaderSlice<&'a H, &'a H>)
        requires
            slice@.len() > 0,
        ensures
            r.slice@.len() == slice@.len() - 1,
            (*r.header, derefs(r.slice@)) == split_full(slice@),
    {
        let mut items: Vec<&'a H> = Vec::new();
        let mut i: usize = 1;
        while i < slice.len()
            invariant
                1 <= i <= slice@.len(),
                derefs(items@) == slice@.subrange(1, i as int),
            decreases slice@.len() - i,
        {
            let ghost prev = items@;
            items.push(&slice[i]);
            assert(derefs(items@) =~= derefs(prev).push(slice@[i as int]));
            assert(slice@.subrange(1, i + 1) =~= slice@.subrange(1, i as int).push(slice@[i as int]));
            i += 1;
        }
        HeaderSlice { header: &slice[0], slice: items }
    }

    /// Attempts to view `slice` mutably as a header-slice, using its first
    /// element as the header and the rest as the items; `None` if `slice` is
    /// empty. What is written through the result lands in `slice`.
    pub fn from_full_slice_mut<'a>(slice: &'a mut [H]) -> (r: Option<
        HeaderSlice<&'a mut H, &'a mut H>,
    >)
        ensures
            old(slice)@.len() == 0 <==> r is None,
            r is None ==> final(slice)@ == old(slice)@,
            r matches Some(hs) ==> {
                &&& hs.slice@.len() == old(slice)@.len() - 1
                &&& (*hs.header, currents(hs.slice@)) == split_full(old(slice)@)
                &&& final(slice)@.len() == old(slice)@.len()
                &&& final(slice)@[0] == *final(hs.header)
                &&& forall|k: int|
                    0 <= k < hs.slice@.len() ==> final(slice)@[k + 1] == *final(hs.slice@[k])
            },
    {
        if slice.len() == 0 {
            None
        } else {
            Some(Self::from_full_slice_unchecked_mut(slice))
        }
    }

    /// Views the non-empty `slice` mutably as a header-slice, using its first
    /// element as the header and the rest as the items; what is written through
    /// the result lands in `slice`.
    pub fn from_full_slice_unchecked_mut<'a>(slice: &'a mut [H]) -> (r: HeaderSlice<
        &'a mut H,
        &'a mut H,
    >)
        requires
            old(slice)@.len() > 0,
        ensures
            r.slice@.len() == old(slice)@.len() - 1,
            (*r.header, currents(r.slice@)) == split_full(old(slice)@),
            final(slice)@.len() == old(slice)@.len(),
            final(slice)@[0] == *final(r.header),
            forall|k: int| 0 <= k < r.slice@.len() ==> final(slice)@[k + 1] == *final(r.slice@[k]),
    {
        let ghost orig = old(slice)@;
        let ghost fin = final(slice)@;
        let mut refs = each_mut(slice);
        let ghost all = refs@;
        let header = refs.remove(0);
        assert(refs@ =~= all.subrange(1, orig.len() as int));
        assert(fin[0] == *final(all[0]));
        assert forall|k: int| 0 <= k < refs@.len() implies fin[k + 1] == *final(refs@[k]) by {
            assert(refs@[k] == all[k + 1]);
        }
        assert(currents(refs@) =~= orig.subrange(1, orig.len() as int));
        HeaderSlice { header, slice: refs }
    }

    /// Returns references to the header and to each item, in order.
    ///
    /// The whole must fit in a `Vec`, so there are fewer than `usize::MAX`
    /// items.
    pub fn as_full_slice(&self) -> (r: Vec<&H>)
        requires
            self.slice@.len() < usize::MAX,
        ensures
            r@.len() == self.slice@.len() + 1,
            derefs(r@) == join_full(self.header, self.slice@),
    {
        let mut full: Vec<&H> = Vec::new();
        full.push(&self.header);
        let mut i: usize = 0;
        assert(derefs(full@) =~= join_full(self.header, self.slice@.subrange(0, 0)));
        while i < self.slice.len()
            invariant
                i <= self.slice@.len(),
                derefs(full@) == join_full(self.header, self.slice@.subrange(0, i as int)),
            decreases self.slice@.len() - i,
        {
            let ghost prev = full@;
            full.push(&self.slice[i]);
            assert(derefs(full@) =~= derefs(prev).push(self.slice@[i as int]));
            assert(join_full(self.header, self.slice@.subrange(0, i + 1)) =~= join_full(
                self.header,
                self.slice@.subrange(0, i as int),
            ).push(self.slice@[i as int]));
            i += 1;
        }
        assert(self.slice@.subrange(0, i as int) =~= self.slice@);
        full
    }

    /// Creates an owned header-slice from `slice`, using its first element as
    /// the header and the rest as the items; `None` if `slice` is empty.
    pub fn from_full_boxed_slice(slice: Vec<H>) -> (r: Option<Self>)
        ensures
            slice@.len() == 0 <==> r is None,
            r matches Some(hs) ==> hs@ == split_full(slice@),
    {
        if slice.len() == 0 {
            None
        } else {
            Some(Self::from_full_boxed_slice_unchecked(slice))
        }
    }

    /// Creates an owned header-slice from the non-empty `slice`, using its
    /// first element as the header and the rest as the items.
    pub fn from_full_boxed_slice_unchecked(slice: Vec<H>) -> (r: Self)
        requires
            slice@.len() > 0,
        ensures
            r@ == split_full(slice@),
    {
        let mut items = slice;
        let header = items.remove(0);
        assert(items@ =~= slice@.subrange(1, slice@.len() as int));
        HeaderSlice { header, slice: items }
    }

    /// Returns mutable references to the header and to each item, in order;
    /// what is written through them lands in `self`.
    ///
    /// The whole must fit in a `Vec`, so there are fewer than `usize::MAX`
    /// items.
    pub fn as_full_slice_mut(&mut self) -> (r: Vec<&mut H>)
        requires
            old(self).slice@.len() < usize::MAX,
        ensures
            r@.len() == old(self).slice@.len() + 1,
            currents(r@) == join_full(old(self).header, old(self).slice@),
            final(self).header == *final(r@[0]),
            final(self).slice@.len() == old(self).slice@.len(),
            forall|k: int|
                0 <= k < old(self).slice@.len() ==> final(self).slice@[k] == *final(r@[k + 1]),
    {
        let HeaderSlice { header, slice } = self;
        let mut refs = each_mut(slice.as_mut_slice());
        let ghost items = refs@;
        refs.insert(0, header);
        assert(refs@.subrange(1, refs@.len() as int) =~= items);
        assert(currents(refs@) =~= join_full(old(self).header, old(self).slice@));
        refs
    }

    /// Returns the header followed by the items as one sequence.
    ///
    /// The whole must fit in a `Vec`, so there are fewer than `usize::MAX`
    /// items.
    pub fn into_full_boxed_slice(self) -> (r: Vec<H>)
        requires
            self.slice@.len() < usize::MAX,
        ensures
            r@ == join_full(self.header, self.slice@),
    {
        let HeaderSlice { header, slice } = self;
        let mut full = slice;
        full.insert(0, header);
        assert(full@ =~= join_full(header, slice@));
        full
    }
}

} // verus!
