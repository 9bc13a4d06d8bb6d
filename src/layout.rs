use vstd::arithmetic::power::pow;
use vstd::arithmetic::power2::{is_pow2, pow2, lemma2_to64, lemma2_to64_rest};
use vstd::layout::{align_of, layout_for_type_is_valid, size_of};
use vstd::prelude::*;

use crate::slice::HeaderSlice;

verus! {

broadcast use vstd::layout::align_properties;

/// `n` rounded up to the next multiple of `a`.
pub open spec fn round_up(n: nat, a: nat) -> nat
    recommends
        a > 0,
{
    if n % a == 0 {
        n
    } else {
        (n + (a - n % a)) as nat
    }
}

/// Alignment of a header-slice: the greater of the two alignments.
pub open spec fn spec_align<H, T>() -> nat {
    if align_of::<H>() >= align_of::<T>() {
        align_of::<H>()
    } else {
        align_of::<T>()
    }
}

/// Byte offset from the start of a header-slice to its first item: the size of
/// the header, padded up to the alignment of the whole.
pub open spec fn spec_items_offset<H, T>() -> nat {
    round_up(size_of::<H>(), spec_align::<H, T>())
}

/// Size in bytes of a header-slice holding `len` items, trailing padding
/// included.
pub open spec fn spec_region_size<H, T>(len: nat) -> nat {
    round_up(spec_items_offset::<H, T>() + len * size_of::<T>(), spec_align::<H, T>())
}

/// A power of two below twice another power of two is at most that one.
proof fn lemma_pow2_below_double(n: int, b: int)
    requires
        is_pow2(n),
        is_pow2(b),
        n < 2 * b,
    ensures
        n <= b,
    decreases n,
{
    reveal(is_pow2);
    if n != 1 && b != 1 {
        lemma_pow2_below_double(n / 2, b / 2);
    }
}

/// A power of two that fits in a `usize` is at most `isize::MAX + 1`.
proof fn lemma_pow2_fits_half(a: int)
    requires
        is_pow2(a),
        a <= usize::MAX,
    ensures
        0 < a <= isize::MAX as int + 1,
{
    let half: int = isize::MAX as int + 1;
    assert(is_pow2(half)) by {
        broadcast use vstd::arithmetic::power2::is_pow2_equiv;

        lemma2_to64();
        lemma2_to64_rest();
        assert(half == 0x8000_0000 || half == 0x8000_0000_0000_0000);
        if half == 0x8000_0000 {
            assert(pow2(31) == half);
            vstd::arithmetic::power::lemma_pow_positive(2, 31);
            assert(pow(2, 31) == half);
        } else {
            assert(pow2(63) == half);
            vstd::arithmetic::power::lemma_pow_positive(2, 63);
            assert(pow(2, 63) == half);
        }
    }
    lemma_pow2_below_double(a, half);
    reveal(is_pow2);
}

/// Of two powers of two, the larger is a multiple of the smaller.
proof fn lemma_pow2_multiple(a: int, b: int)
    requires
        is_pow2(a),
        is_pow2(b),
        a <= b,
    ensures
        b % a == 0,
    decreases b,
{
    reveal(is_pow2);
    if a != b {
        lemma_pow2_below_double(a, b / 2);
        lemma_pow2_multiple(a, b / 2);
        assert(b % a == 0) by (nonlinear_arith)
            requires
                b % 2 == 0,
                (b / 2) % a == 0,
                a > 0,
        {
            vstd::arithmetic::div_mod::lemma_fundamental_div_mod(b / 2, a);
            vstd::arithmetic::div_mod::lemma_mod_multiples_basic(2 * ((b / 2) / a), a);
        }
    }
}

/// Of two powers of two, the greater is a multiple of both.
proof fn lemma_pow2_divides(a: int, b: int)
    requires
        is_pow2(a),
        is_pow2(b),
    ensures
        a >= b ==> a % a == 0 && a % b == 0,
        a < b ==> b % a == 0 && b % b == 0,
{
    reveal(is_pow2);
    if a >= b {
        lemma_pow2_multiple(b, a);
        lemma_pow2_multiple(a, a);
    } else {
        lemma_pow2_multiple(a, b);
        lemma_pow2_multiple(b, b);
    }
}

/// Rounding up to a multiple of a positive `a` lands on a multiple of `a`, at
/// or above `n` and below `n + a`.
pub proof fn lemma_round_up(n: nat, a: nat)
    requires
        a > 0,
    ensures
        round_up(n, a) % a == 0,
        n <= round_up(n, a) < n + a,
        n % a == 0 ==> round_up(n, a) == n,
{
    if n % a != 0 {
        let (ni, ai) = (n as int, a as int);
        vstd::arithmetic::div_mod::lemma_fundamental_div_mod(ni, ai);
        assert(ni + (ai - ni % ai) == (ni / ai + 1) * ai) by (nonlinear_arith)
            requires
                ni == ai * (ni / ai) + ni % ai,
        ;
        vstd::arithmetic::div_mod::lemma_mod_multiples_basic(ni / ai + 1, ai);
    }
}

/// The items offset is where a C-like layout puts a field of type `T` right
/// after a field of type `H`: the size of `H`, rounded up to the alignment of
/// `T`.
pub proof fn lemma_items_offset_field_layout<H, T>()
    ensures
        spec_items_offset::<H, T>() == round_up(size_of::<H>(), align_of::<T>()),
{
    broadcast use vstd::layout::align_nonzero;

    let (ah, at, sz) = (align_of::<H>() as int, align_of::<T>() as int, size_of::<H>() as int);
    if ah >= at {
        lemma_pow2_multiple(at, ah);
        lemma_mod_trans(sz, ah, at);
    }
}

/// Divisibility is transitive.
pub(crate) proof fn lemma_mod_trans(a: int, b: int, c: int)
    requires
        b > 0,
        c > 0,
        a % b == 0,
        b % c == 0,
    ensures
        a % c == 0,
{
    vstd::arithmetic::div_mod::lemma_fundamental_div_mod(a, b);
    vstd::arithmetic::div_mod::lemma_fundamental_div_mod(b, c);
    let k: int = (a / b) * (b / c);
    assert(a == k * c) by (nonlinear_arith)
        requires
            a == b * (a / b) + 0,
            b == c * (b / c) + 0,
            k == (a / b) * (b / c),
    ;
    vstd::arithmetic::div_mod::lemma_mod_multiples_basic(k, c);
}

/// Returns `true` if the address `addr` is aligned to the item type `T`, that
/// is, if a header stored at `addr` can be followed by zero items of `T`.
pub fn is_header_slice_aligned<H, T>(addr: usize) -> (r: bool)
    ensures
        r == (addr as nat % align_of::<T>() == 0),
{
    layout_for_type_is_valid::<T>();
    addr % core::mem::align_of::<T>() == 0
}

impl<H, T> HeaderSlice<H, T> {
    /// Returns the alignment for header-slice allocations.
    pub fn align() -> (r: usize)
        ensures
            r as nat == spec_align::<H, T>(),
            is_pow2(r as int),
            0 < r <= isize::MAX as int + 1,
            r as nat % align_of::<H>() == 0,
            r as nat % align_of::<T>() == 0,
    {
        layout_for_type_is_valid::<H>();
        layout_for_type_is_valid::<T>();
        let h = core::mem::align_of::<H>();
        let t = core::mem::align_of::<T>();
        proof {
            lemma_pow2_fits_half(h as int);
            lemma_pow2_fits_half(t as int);
            lemma_pow2_divides(h as int, t as int);
        }
        if h >= t {
            h
        } else {
            t
        }
    }

    /// Returns the offset from the base address of a header-slice to its
    /// items.
    pub fn items_offset() -> (r: usize)
        ensures
            r as nat == spec_items_offset::<H, T>(),
            size_of::<H>() <= r < size_of::<H>() + spec_align::<H, T>(),
            r as nat % spec_align::<H, T>() == 0,
            r as nat % align_of::<T>() == 0,
    {
        layout_for_type_is_valid::<H>();
        let size = core::mem::size_of::<H>();
        let align = Self::align();
        let rem = size % align;
        proof {
            lemma_round_up(size as nat, align as nat);
            lemma_mod_trans(
                spec_items_offset::<H, T>() as int,
                align as int,
                align_of::<T>() as int,
            );
        }
        if rem == 0 {
            size
        } else {
            size + (align - rem)
        }
    }

    /// Returns the size in bytes of the region that holds `self`: the header,
    /// the padding after it, the items and the trailing padding; `None` where
    /// that exceeds `isize::MAX`, the largest size of any object.
    pub fn region_size(&self) -> (r: Option<usize>)
        ensures
            spec_region_size::<H, T>(self.slice@.len()) <= isize::MAX ==> r == Some(
                spec_region_size::<H, T>(self.slice@.len()) as usize,
            ),
            spec_region_size::<H, T>(self.slice@.len()) > isize::MAX ==> r is None,
    {
        layout_for_type_is_valid::<T>();
        let offset = Self::items_offset();
        let align = Self::align();
        let len = self.slice.len();
        let item_size = core::mem::size_of::<T>();
        let ghost unpadded_spec: nat = (spec_items_offset::<H, T>() + len * size_of::<T>()) as nat;
        proof {
            lemma_round_up(unpadded_spec, align as nat);
        }
        let items = match len.checked_mul(item_size) {
            Some(n) => n,
            None => {
                return None;
            },
        };
        let unpadded = match offset.checked_add(items) {
            Some(n) => n,
            None => {
                return None;
            },
        };
        if unpadded > isize::MAX as usize {
            return None;
        }
        let rem = unpadded % align;
        let total = if rem == 0 {
            unpadded
        } else {
            unpadded + (align - rem)
        };
        if total > isize::MAX as usize {
            None
        } else {
            Some(total)
        }
    }
}

} // verus!
