//! Memory layouts and address alignment.

use vstd::prelude::*;

verus! {

/// `n` is a power of two: exactly one bit of it is set.
pub open spec fn is_power_of_two(n: usize) -> bool {
    n != 0 && n & ((n - 1) as usize) == 0
}

/// The least multiple of `alignment` that is no smaller than `address`.
pub open spec fn round_up(address: int, alignment: int) -> int {
    ((address + alignment - 1) / alignment) * alignment
}

/// What `align_up` returns: `None` when `address + alignment - 1` does not fit
/// in a `usize`, the rounded address otherwise.
pub open spec fn align_up_spec(address: usize, alignment: usize) -> Option<usize> {
    if address + alignment - 1 > usize::MAX {
        None
    } else {
        Some(round_up(address as int, alignment as int) as usize)
    }
}

/// For a power of two `m`, masking with `m - 1` keeps `x % m`.
proof fn lemma_low_mask_is_mod(x: usize, m: usize)
    requires
        is_power_of_two(m),
    ensures
        x & ((m - 1) as usize) == x % m,
    decreases m,
{
    let m1 = (m - 1) as usize;
    if m == 1 {
        assert(x & 0usize == 0usize) by (bit_vector);
    } else {
        let h = m / 2;
        let h1 = (h - 1) as usize;
        assert(h != 0 && h & h1 == 0 && m == 2 * h) by (bit_vector)
            requires
                m != 0,
                m != 1,
                m & m1 == 0,
                m1 == m - 1,
                h == m / 2,
                h1 == h - 1,
        ;
        lemma_low_mask_is_mod(x / 2, h);
        assert(x & m1 == 2 * ((x / 2) & h1) + x % 2) by (bit_vector)
            requires
                m1 == m - 1,
                m == 2 * h,
                h1 == h - 1,
                h != 0,
        ;
        vstd::arithmetic::div_mod::lemma_mod_breakdown(x as int, 2, h as int);
    }
}

proof fn lemma_mask_is_round_down(x: usize, m: usize)
    requires
        is_power_of_two(m),
    ensures
        x & !((m - 1) as usize) == x - x % m,
{
    let m1 = (m - 1) as usize;
    lemma_low_mask_is_mod(x, m);
    assert(x & !m1 == x - (x & m1)) by (bit_vector);
}

/// Of two powers of two, the larger is a multiple of the smaller.
pub proof fn lemma_power_of_two_divides(a: usize, b: usize)
    requires
        is_power_of_two(a),
        is_power_of_two(b),
        a <= b,
    ensures
        b % a == 0,
{
    let a1 = (a - 1) as usize;
    let b1 = (b - 1) as usize;
    lemma_low_mask_is_mod(b, a);
    assert(b & a1 == 0) by (bit_vector)
        requires
            a != 0,
            a & a1 == 0,
            a1 == a - 1,
            b != 0,
            b & b1 == 0,
            b1 == b - 1,
            a <= b,
    ;
}

/// A multiple of a multiple of `a` is a multiple of `a`.
pub proof fn lemma_multiple_of_multiple(r: int, b: int, a: int)
    requires
        a > 0,
        b > 0,
        r >= 0,
        r % b == 0,
        b % a == 0,
    ensures
        r % a == 0,
{
    vstd::arithmetic::div_mod::lemma_fundamental_div_mod(r, b);
    vstd::arithmetic::div_mod::lemma_fundamental_div_mod(b, a);
    let k = r / b;
    let m = b / a;
    assert(r == (k * m) * a) by (nonlinear_arith)
        requires
            r == b * k,
            b == a * m,
    ;
    vstd::arithmetic::div_mod::lemma_mod_multiples_basic(k * m, a);
}

/// An aligned address can be rounded up without overflow.
pub proof fn lemma_aligned_no_overflow(addr: usize, align: usize)
    requires
        is_power_of_two(align),
        addr % align == 0,
    ensures
        addr + align - 1 <= usize::MAX,
{
    let m1 = (align - 1) as usize;
    lemma_low_mask_is_mod(addr, align);
    assert(addr + m1 == (addr | m1)) by (bit_vector)
        requires
            addr & m1 == 0,
    ;
}

/// An aligned address is its own rounding, and rounding it cannot overflow.
pub proof fn lemma_round_up_aligned(addr: usize, align: usize)
    requires
        is_power_of_two(align),
        addr % align == 0,
    ensures
        addr + align - 1 <= usize::MAX,
        round_up(addr as int, align as int) == addr,
        align_up_spec(addr, align) == Some(addr),
{
    lemma_aligned_no_overflow(addr, align);
    let q = addr as int / align as int;
    vstd::arithmetic::div_mod::lemma_fundamental_div_mod(addr as int, align as int);
    vstd::arithmetic::div_mod::lemma_fundamental_div_mod_converse(
        addr + align - 1,
        align as int,
        q,
        align - 1,
    );
    assert(round_up(addr as int, align as int) == addr) by (nonlinear_arith)
        requires
            round_up(addr as int, align as int) == ((addr + align - 1) / (align as int)) * align,
            (addr + align - 1) / (align as int) == q,
            addr == align * q,
    ;
}

/// A power of two that fits in a `usize` is at most `isize::MAX + 1`.
pub proof fn lemma_power_of_two_bound(m: usize)
    requires
        is_power_of_two(m),
    ensures
        m - 1 <= isize::MAX,
{
    let m1 = (m - 1) as usize;
    if usize::BITS == 64 {
        let a = m as u64;
        let a1 = m1 as u64;
        assert(a1 <= 0x7fff_ffff_ffff_ffffu64) by (bit_vector)
            requires
                a != 0,
                a & a1 == 0,
                a1 == a - 1,
        ;
    } else {
        let a = m as u32;
        let a1 = m1 as u32;
        assert(a1 <= 0x7fff_ffffu32) by (bit_vector)
            requires
                a != 0,
                a & a1 == 0,
                a1 == a - 1,
        ;
    }
}

/// Exec test for a power of two, as `usize::is_power_of_two` computes it.
pub fn usize_is_power_of_two(n: usize) -> (b: bool)
    ensures
        b == is_power_of_two(n),
{
    n != 0 && n & (n - 1) == 0
}

/// Rounds `address` up to the next multiple of `alignment` (a power of two).
pub fn align_up(address: usize, alignment: usize) -> (r: Option<usize>)
    requires
        is_power_of_two(alignment),
    ensures
        r == align_up_spec(address, alignment),
        r matches Some(a) ==> a % alignment == 0 && address <= a < address + alignment,
{
    match address.checked_add(alignment - 1) {
        None => None,
        Some(value) => {
            let m1 = alignment - 1;
            let a = value & !m1;
            proof {
                lemma_mask_is_round_down(value, alignment);
                lemma_round_up_facts(address as int, alignment as int);
            }
            Some(a)
        },
    }
}

/// `round_up` is the least multiple of `alignment` at or above `address`.
pub proof fn lemma_round_up_facts(address: int, alignment: int)
    requires
        address >= 0,
        alignment > 0,
    ensures
        round_up(address, alignment) % alignment == 0,
        address <= round_up(address, alignment) < address + alignment,
        round_up(address, alignment) == (address + alignment - 1) - (address + alignment - 1)
            % alignment,
{
    let v = address + alignment - 1;
    vstd::arithmetic::div_mod::lemma_fundamental_div_mod(v, alignment);
    vstd::arithmetic::div_mod::lemma_mod_multiples_basic(v / alignment, alignment);
    vstd::arithmetic::div_mod::lemma_mod_pos_bound(v, alignment);
    assert(round_up(address, alignment) == v - v % alignment) by (nonlinear_arith)
        requires v == alignment * (v / alignment) + v % alignment,
            round_up(address, alignment) == (v / alignment) * alignment;
}

/// `size` and `align` describe a valid layout: `align` is a power of two and
/// `size`, rounded up to a multiple of `align`, does not exceed `isize::MAX`.
pub open spec fn is_valid_layout(size: usize, align: usize) -> bool {
    is_power_of_two(align) && size <= isize::MAX - (align - 1)
}

/// The size and alignment of a block of memory, as requested from an allocator.
#[derive(Clone, Copy, Debug, PartialEq, Eq)]
pub struct Layout {
    size: usize,
    align: usize,
}

impl Layout {
    #[verifier::type_invariant]
    pub(crate) closed spec fn inv(self) -> bool {
        is_valid_layout(self.size, self.align)
    }

    pub closed spec fn spec_size(&self) -> usize {
        self.size
    }

    pub closed spec fn spec_align(&self) -> usize {
        self.align
    }

    /// Builds a layout, or `None` when `align` is not a power of two or the
    /// rounded size would exceed `isize::MAX`.
    pub fn from_size_align(size: usize, align: usize) -> (r: Option<Layout>)
        ensures
            r is Some <==> is_valid_layout(size, align),
            r matches Some(l) ==> l.spec_size() == size && l.spec_align() == align,
    {
        if !usize_is_power_of_two(align) {
            return None;
        }
        proof {
            lemma_power_of_two_bound(align);
        }
        if size > (isize::MAX as usize) - (align - 1) {
            return None;
        }
        Some(Layout { size, align })
    }

    #[verifier::when_used_as_spec(spec_size)]
    pub fn size(&self) -> (r: usize)
        ensures
            r == self.spec_size(),
            is_valid_layout(r, self.spec_align()),
    {
        proof {
            use_type_invariant(self);
        }
        self.size
    }

    #[verifier::when_used_as_spec(spec_align)]
    pub fn align(&self) -> (r: usize)
        ensures
            r == self.spec_align(),
            is_valid_layout(self.spec_size(), r),
    {
        proof {
            use_type_invariant(self);
        }
        self.align
    }
}

} // verus!
