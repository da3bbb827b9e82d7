//! The column lines of the key matrix hang on a chain of shift registers
//! sixteen bits long. This is what is shifted into it: the word for a
//! selection, and the levels of the data line for a word.

use vstd::prelude::*;

verus! {

/// Number of column lines.
pub const COLUMNS: usize = 16;

/// The word that selects no column: every line high.
pub const UNSELECT_ALL: u16 = 0xFFFF;

/// Bit `i` of `word`.
pub open spec fn bit(word: u16, i: int) -> bool {
    (word >> (i as u16)) & 1 == 1
}

/// The word that selects no column.
pub fn unselect_all() -> (word: u16)
    ensures
        forall|i: int| 0 <= i < 16 ==> bit(word, i),
{
    assert(forall|i: u16| i < 16 ==> (0xFFFFu16 >> i) & 1 == 1) by (bit_vector);
    assert forall|i: int| 0 <= i < 16 implies bit(UNSELECT_ALL, i) by {
        let k = i as u16;
        assert(k < 16);
    }
    UNSELECT_ALL
}

/// The word that selects the column `col`: the lines are active low, so
/// every bit is set except bit `15 - col`.
pub fn select_col_active_low(col: usize) -> (word: u16)
    requires
        col < COLUMNS,
    ensures
        forall|i: int| 0 <= i < 16 ==> bit(word, i) == (i != 15 - col),
{
    let shift: u16 = (15 - col) as u16;
    let mask: u16 = 1u16 << shift;
    let word: u16 = !mask;
    assert(forall|i: u16, s: u16|
        i < 16 && s < 16 ==> (((!(1u16 << s)) >> i) & 1 == 1) == (i != s)) by (bit_vector);
    assert forall|i: int| 0 <= i < 16 implies bit(word, i) == (i != 15 - col) by {
        let k = i as u16;
        assert(k < 16 && shift < 16);
    }
    word
}

/// The levels of the data line while `v` is shifted out, least significant
/// bit first: one level for each clock pulse, high for a set bit.
pub fn write_u16_lsb_first(v: u16) -> (levels: Vec<bool>)
    ensures
        levels@.len() == 16,
        forall|i: int| 0 <= i < 16 ==> levels@[i] == bit(v, i),
{
    let mut levels: Vec<bool> = Vec::new();
    let mut rest: u16 = v;
    let mut n: u16 = 0;
    assert(v >> 0u16 == v) by (bit_vector);
    while n < 16
        invariant
            n <= 16,
            levels@.len() == n,
            n < 16 ==> rest == v >> n,
            forall|i: int| 0 <= i < n ==> levels@[i] == bit(v, i),
        decreases 16 - n,
    {
        let high: bool = rest & 1 == 1;
        levels.push(high);
        assert(n < 15 ==> (v >> n) >> 1u16 == v >> ((n + 1) as u16)) by (bit_vector)
            requires
                n < 16,
        ;
        rest = rest >> 1u16;
        n = n + 1;
    }
    levels
}

} // verus!
