//! A fixed-length row of binary cells backed by a pair of packed bit vectors.

use crate::image_manip::rule::{
    cell_value, left_index, neighbourhood, next_cell, right_index, rule_output, step,
};
use bit_vec::BitVec;
use rand::distributions::{Bernoulli, Distribution};
use rand::rngs::ThreadRng;
use vstd::prelude::*;

verus! {

/// The packed bit vector of the `bit_vec` crate. Its contents are reached
/// through [`bits`] only.
#[verifier::external_type_specification]
#[verifier::external_body]
#[verifier::reject_recursive_types(B)]
pub struct ExBitVec<B>(bit_vec::BitVec<B>);

/// The cells that a bit vector holds, in index order.
pub uninterp spec fn bits(v: BitVec) -> Seq<bool>;

/// A row of `n` cells that are all off.
pub open spec fn zeros(n: nat) -> Seq<bool> {
    Seq::new(n, |i: int| false)
}

/// `BitVec::from_elem`: a vector of `nbits` cells, each equal to `bit`.
#[verifier::external_body]
fn bitvec_from_elem(nbits: usize, bit: bool) -> (v: BitVec)
    ensures
        bits(v) == Seq::new(nbits as nat, |i: int| bit),
{
    BitVec::from_elem(nbits, bit)
}

/// `BitVec::get`: the cell at `i`, or `None` when `i` is not below the length.
#[verifier::external_body]
fn bitvec_get(v: &BitVec, i: usize) -> (r: Option<bool>)
    ensures
        r == if i < bits(*v).len() { Some(bits(*v)[i as int]) } else { None },
{
    v.get(i)
}

/// `BitVec::set`: overwrites the cell at `i` and leaves the others as they
/// were. The outside function panics when `i` is not below the length, and
/// only then, so that it never unwinds here.
#[verifier::external_body]
fn bitvec_set(v: &mut BitVec, i: usize, x: bool)
    requires
        i < bits(*old(v)).len(),
    ensures
        bits(*final(v)) == bits(*old(v)).update(i as int, x),
    no_unwind
{
    v.set(i, x)
}

/// `BitVec::clear`: turns every cell off and keeps the length. It has no
/// panic in it, so that it never unwinds.
#[verifier::external_body]
fn bitvec_clear(v: &mut BitVec)
    ensures
        bits(*final(v)) == zeros(bits(*old(v)).len()),
    no_unwind
{
    v.clear()
}

/// A Bernoulli distribution of the `rand` crate: it holds the probability
/// with which a draw gives `true`.
#[verifier::external_type_specification]
#[verifier::external_body]
pub struct ExBernoulli(rand::distributions::Bernoulli);

/// The random number generator that `rand` keeps for each thread.
#[verifier::external_type_specification]
#[verifier::external_body]
pub struct ExThreadRng(rand::rngs::ThreadRng);

/// `rand::thread_rng`: a handle to the generator of the calling thread. Which
/// numbers it gives differs from run to run, so nothing is stated of it.
#[verifier::external_body]
fn thread_generator() -> ThreadRng {
    rand::thread_rng()
}

/// `Distribution::sample` of a Bernoulli distribution: one draw. The outcome
/// is random, so nothing is stated of it.
#[verifier::external_body]
fn draw(d: &Bernoulli, rng: &mut ThreadRng) -> bool {
    d.sample(rng)
}

/// Why a [`BitMap`] could not be built or accessed.
#[derive(Debug, Clone, Copy, PartialEq, Eq)]
pub enum BitMapError {
    /// A bitmap must hold at least one cell.
    ZeroLength,
    /// The index is not below the number of cells.
    IndexOutOfRange { index: usize, len: usize },
}

/// What reading cell `i` of the row `s` gives.
pub open spec fn cell_at(s: Seq<bool>, i: usize) -> Result<u8, BitMapError> {
    if i < s.len() {
        Ok(cell_value(s[i as int]))
    } else {
        Err(BitMapError::IndexOutOfRange { index: i, len: s.len() as usize })
    }
}

/// The row that results from writing `value` to cell `i` of the row `s`.
pub open spec fn with_cell(s: Seq<bool>, i: usize, value: bool) -> Result<Seq<bool>, BitMapError> {
    if i < s.len() {
        Ok(s.update(i as int, value))
    } else {
        Err(BitMapError::IndexOutOfRange { index: i, len: s.len() as usize })
    }
}

/// A cell that was written reads back as written: 1 after it was turned on,
/// 0 after it was turned off, with every other cell as before. At an index
/// that is not below the length, reading and writing both fail.
pub proof fn lemma_read_after_write(s: Seq<bool>, i: usize, value: bool)
    ensures
        i < s.len() ==> with_cell(s, i, value) is Ok && cell_at(
            with_cell(s, i, value)->Ok_0,
            i,
        ) == Ok::<u8, BitMapError>(cell_value(value)),
        i < s.len() ==> forall|j: usize|
            j != i ==> cell_at(with_cell(s, i, value)->Ok_0, j) == cell_at(s, j),
        i >= s.len() ==> cell_at(s, i) is Err && with_cell(s, i, value) is Err,
{
}

/// A row of cells of fixed, non-zero length. Two bit vectors of that length
/// back it: the one that `current_index` selects holds the row, the other is
/// scratch space for the next generation.
#[derive(Debug)]
pub struct BitMap {
    bit_vector: (BitVec, BitVec),
    current_index: bool,
    len: usize,
}

impl View for BitMap {
    type V = Seq<bool>;

    closed spec fn view(&self) -> Seq<bool> {
        if self.current_index {
            bits(self.bit_vector.1)
        } else {
            bits(self.bit_vector.0)
        }
    }
}

impl BitMap {
    #[verifier::type_invariant]
    spec fn well_formed(self) -> bool {
        &&& self.len > 0
        &&& bits(self.bit_vector.0).len() == self.len
        &&& bits(self.bit_vector.1).len() == self.len
    }

    /// A bitmap of `length` cells, all off. The length has to fit in
    /// `usize`.
    pub fn new(length: u64) -> (r: Result<BitMap, BitMapError>)
        requires
            length <= usize::MAX,
        ensures
            match r {
                Ok(b) => length > 0 && b@ == zeros(length as nat),
                Err(e) => length == 0 && e == BitMapError::ZeroLength,
            },
    {
        if length == 0 {
            return Err(BitMapError::ZeroLength);
        }
        let len: usize = length as usize;
        let bit_vector = (bitvec_from_elem(len, false), bitvec_from_elem(len, false));
        Ok(BitMap { bit_vector, current_index: false, len })
    }

    /// A bitmap whose cells are the given ones, in order.
    pub fn from_cells(cells: &[bool]) -> (r: Result<BitMap, BitMapError>)
        ensures
            match r {
                Ok(b) => cells@.len() > 0 && b@ == cells@,
                Err(e) => cells@.len() == 0 && e == BitMapError::ZeroLength,
            },
    {
        let len: usize = cells.len();
        if len == 0 {
            return Err(BitMapError::ZeroLength);
        }
        let mut first = bitvec_from_elem(len, false);
        let mut i: usize = 0;
        while i < len
            invariant
                i <= len,
                len == cells@.len(),
                bits(first).len() == len,
                forall|j: int| 0 <= j < i ==> bits(first)[j] == cells@[j],
                forall|j: int| i <= j < len ==> !bits(first)[j],
            decreases len - i,
        {
            if cells[i] {
                bitvec_set(&mut first, i, true);
            }
            i += 1;
        }
        assert(bits(first) =~= cells@);
        Ok(BitMap { bit_vector: (first, bitvec_from_elem(len, false)), current_index: false, len })
    }

    /// A bitmap of `length` cells, each drawn from `d` on its own: a cell is
    /// on where its draw gave `true`. The length has to fit in `usize`.
    pub fn random(length: u64, d: &Bernoulli) -> (r: Result<BitMap, BitMapError>)
        requires
            length <= usize::MAX,
        ensures
            match r {
                Ok(b) => length > 0 && b@.len() == length,
                Err(e) => length == 0 && e == BitMapError::ZeroLength,
            },
    {
        if length == 0 {
            return Err(BitMapError::ZeroLength);
        }
        let len: usize = length as usize;
        let mut rng = thread_generator();
        let mut cells: Vec<bool> = Vec::with_capacity(len);
        let mut i: usize = 0;
        while i < len
            invariant
                i <= len,
                cells@.len() == i,
            decreases len - i,
        {
            cells.push(draw(d, &mut rng));
            i += 1;
        }
        BitMap::from_cells(cells.as_slice())
    }

    /// The number of cells.
    pub fn size(&self) -> (n: usize)
        ensures
            n == self@.len(),
            n > 0,
    {
        proof {
            use_type_invariant(self);
        }
        self.len
    }

    /// The value of cell `bit_num`: 1 when it is on, 0 when it is off.
    pub fn get(&self, bit_num: usize) -> (r: Result<u8, BitMapError>)
        ensures
            r == cell_at(self@, bit_num),
    {
        proof {
            use_type_invariant(self);
        }
        let found = if self.current_index {
            bitvec_get(&self.bit_vector.1, bit_num)
        } else {
            bitvec_get(&self.bit_vector.0, bit_num)
        };
        match found {
            Some(on) => Ok(if on { 1 } else { 0 }),
            None => Err(BitMapError::IndexOutOfRange { index: bit_num, len: self.len }),
        }
    }

    /// Turns cell `bit_num` on.
    pub fn set(&mut self, bit_num: usize) -> (r: Result<(), BitMapError>)
        ensures
            match with_cell(old(self)@, bit_num, true) {
                Ok(s) => r is Ok && final(self)@ == s,
                Err(e) => r == Err::<(), BitMapError>(e) && final(self)@ == old(self)@,
            },
    {
        self.write(bit_num, true)
    }

    /// Turns cell `bit_num` off.
    pub fn unset(&mut self, bit_num: usize) -> (r: Result<(), BitMapError>)
        ensures
            match with_cell(old(self)@, bit_num, false) {
                Ok(s) => r is Ok && final(self)@ == s,
                Err(e) => r == Err::<(), BitMapError>(e) && final(self)@ == old(self)@,
            },
    {
        self.write(bit_num, false)
    }

    /// The cells in order.
    pub fn get_vec(&self) -> (cells: Vec<bool>)
        ensures
            cells@ == self@,
    {
        proof {
            use_type_invariant(self);
        }
        let mut rv: Vec<bool> = Vec::with_capacity(self.len);
        let mut i: usize = 0;
        while i < self.len
            invariant
                i <= self.len,
                self.len == self@.len(),
                rv@ == self@.take(i as int),
            decreases self.len - i,
        {
            rv.push(self.is_on(i));
            assert(rv@ =~= self@.take(i + 1));
            i += 1;
        }
        assert(self@.take(self.len as int) =~= self@);
        rv
    }

    /// The value of every cell, in order: 1 where it is on, 0 where it is off.
    pub fn to_bit_vec(&self) -> (values: Vec<u8>)
        ensures
            values@ == self@.map_values(|on: bool| cell_value(on)),
    {
        proof {
            use_type_invariant(self);
        }
        let mut bit_vec: Vec<u8> = Vec::with_capacity(self.len);
        let mut i: usize = 0;
        while i < self.len
            invariant
                i <= self.len,
                self.len == self@.len(),
                bit_vec@ == self@.take(i as int).map_values(|on: bool| cell_value(on)),
            decreases self.len - i,
        {
            bit_vec.push(if self.is_on(i) { 1 } else { 0 });
            assert(bit_vec@ =~= self@.take(i + 1).map_values(|on: bool| cell_value(on)));
            i += 1;
        }
        assert(self@.take(self.len as int) =~= self@);
        bit_vec
    }

    /// Turns every cell off.
    pub fn clear(&mut self)
        ensures
            final(self)@ == zeros(old(self)@.len()),
    {
        proof {
            use_type_invariant(&*self);
        }
        if self.current_index {
            bitvec_clear(&mut self.bit_vector.1);
        } else {
            bitvec_clear(&mut self.bit_vector.0);
        }
    }

    fn write(&mut self, bit_num: usize, value: bool) -> (r: Result<(), BitMapError>)
        ensures
            match with_cell(old(self)@, bit_num, value) {
                Ok(s) => r is Ok && final(self)@ == s,
                Err(e) => r == Err::<(), BitMapError>(e) && final(self)@ == old(self)@,
            },
    {
        proof {
            use_type_invariant(&*self);
        }
        if bit_num >= self.len {
            return Err(BitMapError::IndexOutOfRange { index: bit_num, len: self.len });
        }
        if self.current_index {
            bitvec_set(&mut self.bit_vector.1, bit_num, value);
        } else {
            bitvec_set(&mut self.bit_vector.0, bit_num, value);
        }
        Ok(())
    }

    /// Whether cell `i` is on.
    fn is_on(&self, i: usize) -> (on: bool)
        requires
            i < self@.len(),
        ensures
            on == self@[i as int],
    {
        let found = if self.current_index {
            bitvec_get(&self.bit_vector.1, i)
        } else {
            bitvec_get(&self.bit_vector.0, i)
        };
        found == Some(true)
    }

    /// Replaces the row by the generation that follows it under `rule`.
    pub fn rule_step(&mut self, rule: u8)
        ensures
            final(self)@ == step(old(self)@, rule),
    {
        proof {
            use_type_invariant(&*self);
        }
        let ghost before = self@;
        if self.current_index {
            bitvec_clear(&mut self.bit_vector.0);
        } else {
            bitvec_clear(&mut self.bit_vector.1);
        }
        let len: usize = self.len;
        let mut i: usize = 0;
        while i < len
            invariant
                i <= len,
                len == self.len,
                len > 0,
                self.current_index == old(self).current_index,
                self@ == before,
                before.len() == len,
                self.scratch().len() == len,
                forall|j: int| 0 <= j < i ==> self.scratch()[j] == next_cell(before, rule, j),
                forall|j: int| i <= j < len ==> !self.scratch()[j],
            decreases len - i,
        {
            let left: usize = (i + 1) % len;
            let right: usize = if i == 0 { len - 1 } else { i - 1 };
            let mut flags: u8 = 0;
            if self.is_on(left) {
                flags = flags | 0b100;
            }
            if self.is_on(i) {
                flags = flags | 0b010;
            }
            if self.is_on(right) {
                flags = flags | 0b001;
            }
            proof {
                assert(left == left_index(i as int, len as int));
                assert(right == right_index(i as int, len as int));
                lemma_flags(before[left as int], before[i as int], before[right as int]);
                assert(flags == neighbourhood(before, i as int));
            }
            let new_val: u8 = rule & (1u8 << flags);
            assert((new_val != 0) == rule_output(rule, flags)) by (bit_vector)
                requires
                    flags < 8,
                    new_val == rule & (1u8 << flags),
            ;
            if new_val != 0 {
                if self.current_index {
                    bitvec_set(&mut self.bit_vector.0, i, true);
                } else {
                    bitvec_set(&mut self.bit_vector.1, i, true);
                }
            }
            i += 1;
        }
        self.current_index = !self.current_index;
        assert(self@ =~= step(before, rule));
    }

    /// The cells of the vector that does not hold the row.
    spec fn scratch(self) -> Seq<bool> {
        if self.current_index {
            bits(self.bit_vector.0)
        } else {
            bits(self.bit_vector.1)
        }
    }
}

/// The flags that `rule_step` assembles bit by bit are the neighbourhood
/// pattern of the three cells.
proof fn lemma_flags(l: bool, c: bool, r: bool)
    ensures
        ({
            let f0: u8 = if l { 0u8 | 0b100 } else { 0u8 };
            let f1: u8 = if c { f0 | 0b010 } else { f0 };
            let f2: u8 = if r { f1 | 0b001 } else { f1 };
            f2 == 4 * cell_value(l) + 2 * cell_value(c) + cell_value(r)
        }),
{
    assert(0u8 | 0b100 == 4) by (bit_vector);
    assert(0u8 | 0b010 == 2) by (bit_vector);
    assert(4u8 | 0b010 == 6) by (bit_vector);
    assert(0u8 | 0b001 == 1) by (bit_vector);
    assert(2u8 | 0b001 == 3) by (bit_vector);
    assert(4u8 | 0b001 == 5) by (bit_vector);
    assert(6u8 | 0b001 == 7) by (bit_vector);
}

} // verus!
