use vstd::prelude::*;

verus! {

/// `a` is a power of two: exactly one bit is set.
pub open spec fn is_power_of_two(a: usize) -> bool {
    a != 0 && a & ((a - 1) as usize) == 0
}

/// The least multiple of `align` that is at least `off`.
pub open spec fn round_up(off: int, align: int) -> int
    recommends
        align > 0,
{
    if off % align == 0 {
        off
    } else {
        off - off % align + align
    }
}

/// The largest alignment that a request may ask for.
pub const MAX_ALIGN: usize = 16;

/// An alignment that the allocator supports: one of the powers of two up to `MAX_ALIGN`.
pub open spec fn is_supported_align(a: usize) -> bool {
    a == 1 || a == 2 || a == 4 || a == 8 || a == 16
}

/// The supported alignments are exactly the powers of two no larger than `MAX_ALIGN`.
pub proof fn lemma_supported_aligns(a: usize)
    ensures
        is_supported_align(a) <==> is_power_of_two(a) && a <= MAX_ALIGN,
{
    assert(a == 1 || a == 2 || a == 4 || a == 8 || a == 16 <==> a != 0 && a & ((a - 1) as usize)
        == 0 && a <= 16) by (bit_vector);
}

/// Masking off the low bits of `x + (a - 1)` rounds `x` up to a multiple of `a`.
proof fn lemma_mask_rounds_up(x: usize, a: usize, y: usize)
    requires
        is_supported_align(a),
        y == x + (a - 1),
    ensures
        y & !((a - 1) as usize) == round_up(x as int, a as int),
{
    if a == 1 {
        assert(y & !0usize == x) by (bit_vector)
            requires
                y == x,
        ;
    } else if a == 2 {
        assert(y & !1usize == (if x % 2 == 0 {
            x as int
        } else {
            x - x % 2 + 2
        })) by (bit_vector)
            requires
                y == x + 1,
        ;
    } else if a == 4 {
        assert(y & !3usize == (if x % 4 == 0 {
            x as int
        } else {
            x - x % 4 + 4
        })) by (bit_vector)
            requires
                y == x + 3,
        ;
    } else if a == 8 {
        assert(y & !7usize == (if x % 8 == 0 {
            x as int
        } else {
            x - x % 8 + 8
        })) by (bit_vector)
            requires
                y == x + 7,
        ;
    } else {
        assert(y & !15usize == (if x % 16 == 0 {
            x as int
        } else {
            x - x % 16 + 16
        })) by (bit_vector)
            requires
                y == x + 15,
        ;
    }
}

/// Rounding up lands on a multiple of `align`, at or above `off`, less than `align` above it.
pub proof fn lemma_round_up_bounds(off: int, align: int)
    requires
        off >= 0,
        align > 0,
    ensures
        off <= round_up(off, align) < off + align,
        round_up(off, align) % align == 0,
{
    if off % align != 0 {
        vstd::arithmetic::div_mod::lemma_fundamental_div_mod(off, align);
        vstd::arithmetic::div_mod::lemma_mod_multiples_basic(off / align + 1, align);
        assert(off - off % align + align == (off / align + 1) * align) by (nonlinear_arith)
            requires
                off == align * (off / align) + off % align,
        ;
    }
}

/// Where `x + (align - 1)` overflows, the rounded offset lies beyond `usize::MAX` too.
proof fn lemma_round_up_overflows(x: usize, a: usize)
    requires
        is_supported_align(a),
        x + (a - 1) > usize::MAX,
    ensures
        round_up(x as int, a as int) > usize::MAX,
{
    assert(usize::MAX == 0xffff_ffff || usize::MAX == 0xffff_ffff_ffff_ffff);
}

/// Rounds `offset` up to the next multiple of `align` by masking, or `None` where that
/// multiple does not fit in a `usize`.
pub fn align_up(offset: usize, align: usize) -> (r: Option<usize>)
    requires
        is_supported_align(align),
    ensures
        match r {
            Some(v) => v == round_up(offset as int, align as int),
            None => round_up(offset as int, align as int) > usize::MAX,
        },
{
    let mask: usize = align - 1;
    match offset.checked_add(mask) {
        Some(y) => {
            proof {
                lemma_mask_rounds_up(offset, align, y);
            }
            Some(y & !mask)
        },
        None => {
            proof {
                lemma_round_up_overflows(offset, align);
            }
            None
        },
    }
}

/// An offset aligned to `align` into a buffer whose base address is aligned to `MAX_ALIGN`
/// gives an address aligned to `align`.
pub proof fn lemma_address_aligned(base: int, off: int, align: usize)
    requires
        base >= 0,
        off >= 0,
        base % (MAX_ALIGN as int) == 0,
        is_supported_align(align),
        off % (align as int) == 0,
    ensures
        (base + off) % (align as int) == 0,
{
    let a = align as int;
    vstd::arithmetic::div_mod::lemma_mod_mod(base, a, 16int / a);
    assert(a * (16int / a) == 16);
    vstd::arithmetic::div_mod::lemma_add_mod_noop(base, off, a);
}

} // verus!
