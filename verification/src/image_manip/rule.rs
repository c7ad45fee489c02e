//! The transition function of an elementary cellular automaton on a ring of
//! cells, as a mathematical model.

use vstd::prelude::*;

verus! {

/// The value of a cell as a number: 1 when it is on, 0 when it is off.
pub open spec fn cell_value(on: bool) -> u8 {
    if on {
        1
    } else {
        0
    }
}

/// The index whose cell is read as the high bit of the neighbourhood of `i`
/// on a ring of `len` cells.
pub open spec fn left_index(i: int, len: int) -> int {
    (i + 1) % len
}

/// The index whose cell is read as the low bit of the neighbourhood of `i`
/// on a ring of `len` cells.
pub open spec fn right_index(i: int, len: int) -> int {
    if i == 0 {
        len - 1
    } else {
        i - 1
    }
}

/// The neighbourhood of cell `i` as a number from 0 to 7: the left cell is
/// the high bit, the cell itself the middle bit, the right cell the low bit.
pub open spec fn neighbourhood(s: Seq<bool>, i: int) -> u8 {
    (4 * cell_value(s[left_index(i, s.len() as int)]) + 2 * cell_value(s[i]) + cell_value(
        s[right_index(i, s.len() as int)],
    )) as u8
}

/// The entry of the rule's lookup table for a neighbourhood pattern.
pub open spec fn rule_output(rule: u8, pattern: u8) -> bool {
    (rule >> pattern) & 1 == 1
}

/// The state of cell `i` one generation after `s`.
pub open spec fn next_cell(s: Seq<bool>, rule: u8, i: int) -> bool {
    rule_output(rule, neighbourhood(s, i))
}

/// The generation that follows `s` under `rule`.
pub open spec fn step(s: Seq<bool>, rule: u8) -> Seq<bool> {
    Seq::new(s.len(), |i: int| next_cell(s, rule, i))
}

/// The `n`-th generation after `s` under `rule`; the 0-th is `s` itself.
pub open spec fn generation(s: Seq<bool>, rule: u8, n: nat) -> Seq<bool>
    decreases n,
{
    if n == 0 {
        s
    } else {
        step(generation(s, rule, (n - 1) as nat), rule)
    }
}

/// The lookup table of rule 110: the next state of a cell whose left
/// neighbour, own state and right neighbour are the given ones.
pub open spec fn rule_110_table(left: bool, centre: bool, right: bool) -> bool {
    match (left, centre, right) {
        (true, true, true) => false,
        (true, true, false) => true,
        (true, false, true) => true,
        (true, false, false) => false,
        (false, true, true) => true,
        (false, true, false) => true,
        (false, false, true) => true,
        (false, false, false) => false,
    }
}

/// Under rule 110 every cell of a ring follows the rule's lookup table. The
/// neighbours wrap around: the left neighbour of the last cell is cell 0,
/// and the right neighbour of cell 0 is the last cell.
pub proof fn lemma_rule_110(s: Seq<bool>, i: int)
    requires
        0 <= i < s.len(),
    ensures
        step(s, 110).len() == s.len(),
        step(s, 110)[i] == rule_110_table(
            s[if i == s.len() - 1 { 0 } else { i + 1 }],
            s[i],
            s[if i == 0 { s.len() - 1 } else { i - 1 }],
        ),
{
    assert((110u8 >> 0u8) & 1 == 0) by (bit_vector);
    assert((110u8 >> 1u8) & 1 == 1) by (bit_vector);
    assert((110u8 >> 2u8) & 1 == 1) by (bit_vector);
    assert((110u8 >> 3u8) & 1 == 1) by (bit_vector);
    assert((110u8 >> 4u8) & 1 == 0) by (bit_vector);
    assert((110u8 >> 5u8) & 1 == 1) by (bit_vector);
    assert((110u8 >> 6u8) & 1 == 1) by (bit_vector);
    assert((110u8 >> 7u8) & 1 == 0) by (bit_vector);
    let len = s.len() as int;
    if i == len - 1 {
        assert((i + 1) % len == 0) by (nonlinear_arith)
            requires
                i + 1 == len,
                len > 0,
        ;
    } else {
        assert((i + 1) % len == i + 1) by (nonlinear_arith)
            requires
                0 <= i + 1 < len,
        ;
    }
}

/// Every generation has as many cells as the first.
pub proof fn lemma_generation_len(s: Seq<bool>, rule: u8, n: nat)
    ensures
        generation(s, rule, n).len() == s.len(),
    decreases n,
{
    if n > 0 {
        lemma_generation_len(s, rule, (n - 1) as nat);
    }
}

} // verus!
