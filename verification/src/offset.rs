//! The table of magnitude bounds that a block's base can be lowered by.

use vstd::prelude::*;

verus! {

/// Number of offset classes; a class fits in three bits.
pub const CLASS_COUNT: u8 = 8;

/// The magnitude bound that an offset class stands for.
///
/// The bounds rise strictly with the class. Class 0 takes nothing off, so it
/// fits every value.
pub open spec fn threshold(class: u8) -> u32 {
    if class == 0 {
        0
    } else if class == 1 {
        0xff
    } else if class == 2 {
        0xfff
    } else if class == 3 {
        0xffff
    } else if class == 4 {
        0xf_ffff
    } else if class == 5 {
        0xff_ffff
    } else if class == 6 {
        0xfff_ffff
    } else {
        0xffff_ffff
    }
}

/// The greatest class whose bound does not exceed `n`.
pub open spec fn best_class(n: u32) -> u8 {
    if n >= 0xffff_ffff {
        7
    } else if n >= 0xfff_ffff {
        6
    } else if n >= 0xff_ffff {
        5
    } else if n >= 0xf_ffff {
        4
    } else if n >= 0xffff {
        3
    } else if n >= 0xfff {
        2
    } else if n >= 0xff {
        1
    } else {
        0
    }
}

/// The bounds rise strictly with the class.
pub proof fn lemma_threshold_increasing(lower: u8, upper: u8)
    requires
        lower < upper < CLASS_COUNT,
    ensures
        threshold(lower) < threshold(upper),
{
}

/// `best_class(n)` is a class whose bound is at most `n`, and every greater
/// class has a bound above `n`.
pub proof fn lemma_best_class_tight(n: u32)
    ensures
        best_class(n) < CLASS_COUNT,
        threshold(best_class(n)) <= n,
        forall|class: u8| best_class(n) < class < CLASS_COUNT ==> threshold(class) > n,
{
}

/// A class is the best one for `n` exactly when its bound fits under `n` and
/// no greater class's bound does.
pub proof fn lemma_best_class_unique(n: u32, class: u8)
    requires
        class < CLASS_COUNT,
        threshold(class) <= n,
        forall|other: u8| class < other < CLASS_COUNT ==> threshold(other) > n,
    ensures
        class == best_class(n),
{
    let best: u8 = best_class(n);
    if class < best {
        assert(threshold(best) > n);
    }
}

/// Looks up the magnitude bound of an offset class.
pub fn decode_offset(offset: u8) -> (bound: u32)
    requires
        offset < CLASS_COUNT,
    ensures
        bound == threshold(offset),
{
    match offset {
        0b000 => 0x0,
        0b001 => 0xff,
        0b010 => 0xfff,
        0b011 => 0xffff,
        0b100 => 0xfffff,
        0b101 => 0xffffff,
        0b110 => 0xfffffff,
        _ => 0xffffffff,
    }
}

/// Finds the greatest offset class whose bound does not exceed `n`.
///
/// The classes are tried from the largest bound downwards and the first that
/// fits is taken; class 0 fits always.
pub fn best_offset(n: u32) -> (class: u8)
    ensures
        class == best_class(n),
        class < CLASS_COUNT,
        threshold(class) <= n,
        forall|other: u8| class < other < CLASS_COUNT ==> threshold(other) > n,
{
    let mut candidate: u8 = 0b111;
    while candidate > 0
        invariant
            candidate < CLASS_COUNT,
            forall|other: u8| candidate < other < CLASS_COUNT ==> threshold(other) > n,
        decreases candidate,
    {
        if decode_offset(candidate) <= n {
            proof {
                lemma_best_class_unique(n, candidate);
            }
            return candidate;
        }
        candidate = candidate - 1;
    }
    proof {
        lemma_best_class_unique(n, candidate);
    }
    0
}

} // verus!
