use cellular::image_manip::bitmap::{BitMap, BitMapError};
use rand::distributions::Bernoulli;

fn reference_step(cells: &[bool], rule: u8) -> Vec<bool> {
    let len = cells.len();
    let mut next = Vec::with_capacity(len);
    for i in 0..len {
        let left = cells[(i + 1) % len] as u8;
        let centre = cells[i] as u8;
        let right = cells[if i == 0 { len - 1 } else { i - 1 }] as u8;
        let pattern = left * 4 + centre * 2 + right;
        next.push((rule >> pattern) & 1 == 1);
    }
    next
}

fn bitmap_of(cells: &[u8]) -> BitMap {
    let flags: Vec<bool> = cells.iter().map(|c| *c == 1).collect();
    BitMap::from_cells(&flags).unwrap()
}

#[test]
fn new_is_all_zero() {
    let bmp = BitMap::new(70).unwrap();
    assert_eq!(bmp.size(), 70);
    assert_eq!(bmp.get_vec(), vec![false; 70]);
    assert_eq!(bmp.to_bit_vec(), vec![0u8; 70]);
}

#[test]
fn new_rejects_zero_length() {
    assert_eq!(BitMap::new(0).err(), Some(BitMapError::ZeroLength));
}

#[test]
fn random_rejects_zero_length() {
    for density in [0.0, 0.25, 0.5, 1.0] {
        let d = Bernoulli::new(density).unwrap();
        assert_eq!(BitMap::random(0, &d).err(), Some(BitMapError::ZeroLength));
    }
}

#[test]
fn random_has_the_length_asked_for() {
    let d = Bernoulli::new(0.5).unwrap();
    for length in [1u64, 31, 32, 33, 1000] {
        let bmp = BitMap::random(length, &d).unwrap();
        assert_eq!(bmp.size() as u64, length);
        assert_eq!(bmp.get_vec().len() as u64, length);
    }
}

#[test]
fn random_with_density_zero_is_all_zero() {
    let d = Bernoulli::new(0.0).unwrap();
    for length in [1u64, 7, 64, 500] {
        let bmp = BitMap::random(length, &d).unwrap();
        assert_eq!(bmp.get_vec(), vec![false; length as usize]);
    }
}

#[test]
fn random_with_density_one_is_all_one() {
    let d = Bernoulli::new(1.0).unwrap();
    for length in [1u64, 7, 64, 500] {
        let bmp = BitMap::random(length, &d).unwrap();
        assert_eq!(bmp.get_vec(), vec![true; length as usize]);
    }
}

#[test]
fn random_is_neither_constant_at_one_half() {
    let d = Bernoulli::new(0.5).unwrap();
    let cells = BitMap::random(4096, &d).unwrap().get_vec();
    assert!(cells.iter().any(|c| *c));
    assert!(cells.iter().any(|c| !*c));
}

#[test]
fn from_cells_keeps_the_cells() {
    let cells = vec![true, false, false, true, true, false, true];
    let bmp = BitMap::from_cells(&cells).unwrap();
    assert_eq!(bmp.size(), 7);
    assert_eq!(bmp.get_vec(), cells);
    assert_eq!(bmp.to_bit_vec(), vec![1, 0, 0, 1, 1, 0, 1]);
}

#[test]
fn from_cells_rejects_the_empty_row() {
    assert_eq!(BitMap::from_cells(&[]).err(), Some(BitMapError::ZeroLength));
}

#[test]
fn get_after_set_and_unset() {
    for length in [1usize, 5, 32, 33, 100] {
        let mut bmp = BitMap::new(length as u64).unwrap();
        for i in 0..length {
            assert_eq!(bmp.get(i), Ok(0));
            assert_eq!(bmp.set(i), Ok(()));
            assert_eq!(bmp.get(i), Ok(1));
            for j in 0..length {
                assert_eq!(bmp.get(j), Ok(if j == i { 1 } else { 0 }));
            }
            assert_eq!(bmp.unset(i), Ok(()));
            assert_eq!(bmp.get(i), Ok(0));
        }
    }
}

#[test]
fn set_twice_and_unset_twice() {
    let mut bmp = BitMap::new(4).unwrap();
    bmp.set(2).unwrap();
    bmp.set(2).unwrap();
    assert_eq!(bmp.to_bit_vec(), vec![0, 0, 1, 0]);
    bmp.unset(2).unwrap();
    bmp.unset(2).unwrap();
    assert_eq!(bmp.to_bit_vec(), vec![0, 0, 0, 0]);
}

#[test]
fn access_out_of_range_fails() {
    let mut bmp = BitMap::new(10).unwrap();
    bmp.set(3).unwrap();
    let out_of_range = BitMapError::IndexOutOfRange { index: 10, len: 10 };
    assert_eq!(bmp.get(10), Err(out_of_range));
    assert_eq!(bmp.set(10), Err(out_of_range));
    assert_eq!(bmp.unset(10), Err(out_of_range));
    assert_eq!(
        bmp.get(usize::MAX),
        Err(BitMapError::IndexOutOfRange { index: usize::MAX, len: 10 })
    );
    assert_eq!(bmp.to_bit_vec(), vec![0, 0, 0, 1, 0, 0, 0, 0, 0, 0]);
}

#[test]
fn clear_turns_every_cell_off() {
    let mut bmp = bitmap_of(&[1, 1, 0, 1, 0, 1, 1]);
    bmp.clear();
    assert_eq!(bmp.size(), 7);
    assert_eq!(bmp.to_bit_vec(), vec![0; 7]);
}

#[test]
fn rule_110_on_ten_cells() {
    let mut bmp = bitmap_of(&[1, 1, 1, 1, 1, 0, 0, 0, 0, 0]);
    bmp.rule_step(110);
    assert_eq!(bmp.to_bit_vec(), vec![1, 0, 0, 0, 1, 1, 0, 0, 0, 0]);
    assert_eq!(bmp.size(), 10);
}

#[test]
fn rule_30_on_five_cells() {
    let mut bmp = bitmap_of(&[0, 0, 1, 0, 0]);
    bmp.rule_step(30);
    assert_eq!(bmp.to_bit_vec(), vec![0, 1, 1, 1, 0]);
}

#[test]
fn rule_step_on_one_cell() {
    // A single cell is its own left and right neighbour: patterns 0 and 7.
    let mut off = BitMap::new(1).unwrap();
    off.rule_step(0b0000_0001);
    assert_eq!(off.to_bit_vec(), vec![1]);
    off.rule_step(0b0000_0001);
    assert_eq!(off.to_bit_vec(), vec![0]);
    let mut on = bitmap_of(&[1]);
    on.rule_step(0b1000_0000);
    assert_eq!(on.to_bit_vec(), vec![1]);
    on.rule_step(0b0111_1111);
    assert_eq!(on.to_bit_vec(), vec![0]);
}

#[test]
fn rule_110_table_on_three_cells() {
    let table = [false, true, true, true, false, true, true, false];
    for state in 0u8..8 {
        let cells = [state & 1 == 1, state & 2 == 2, state & 4 == 4];
        let mut bmp = BitMap::from_cells(&cells).unwrap();
        bmp.rule_step(110);
        let next = bmp.get_vec();
        for i in 0..3 {
            let left = cells[(i + 1) % 3] as usize;
            let centre = cells[i] as usize;
            let right = cells[(i + 2) % 3] as usize;
            assert_eq!(next[i], table[left * 4 + centre * 2 + right]);
        }
    }
}

#[test]
fn every_rule_follows_its_table() {
    let seed = [true, false, false, true, true, true, false, true, false, false, false];
    for rule in 0u8..=255 {
        let mut bmp = BitMap::from_cells(&seed).unwrap();
        bmp.rule_step(rule);
        assert_eq!(bmp.get_vec(), reference_step(&seed, rule));
    }
}

#[test]
fn repeated_steps_follow_the_reference() {
    let mut cells: Vec<bool> = (0..77).map(|i| i % 3 == 0 || i % 7 == 2).collect();
    let mut bmp = BitMap::from_cells(&cells).unwrap();
    for _ in 0..50 {
        bmp.rule_step(110);
        cells = reference_step(&cells, 110);
        assert_eq!(bmp.get_vec(), cells);
    }
}

#[test]
fn writes_after_a_step_go_to_the_current_row() {
    let mut bmp = bitmap_of(&[0, 0, 1, 0, 0]);
    bmp.rule_step(30);
    bmp.set(0).unwrap();
    bmp.unset(2).unwrap();
    assert_eq!(bmp.to_bit_vec(), vec![1, 1, 0, 1, 0]);
    bmp.clear();
    assert_eq!(bmp.to_bit_vec(), vec![0, 0, 0, 0, 0]);
    bmp.rule_step(1);
    assert_eq!(bmp.to_bit_vec(), vec![1, 1, 1, 1, 1]);
}
