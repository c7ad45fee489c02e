use cellular::image_manip::bitmap::BitMap;
use cellular::image_manip::{gen_next_image, init_image};
use rand::distributions::Bernoulli;

fn get_integer_value(bv: &BitMap) -> u64 {
    let mut rv: u64 = 0;
    for i in 0..bv.size() {
        let val: u64 = bv.get(i).unwrap() as u64;
        rv += (val << i) as u64;
    }

    rv
}

#[test]
fn test_init_image() {
    let mut bmp_0 = BitMap::new(10).unwrap();
    let mut bmp_1 = BitMap::new(10).unwrap();
    let rule = 110;

    for _ in 0..10 {
        bmp_1.rule_step(rule);
    }
    init_image(10, 11, &mut bmp_0, rule).unwrap();

    let vec_0 = bmp_0.get_vec();
    let vec_1 = bmp_1.get_vec();

    assert!(vec_0.len() == vec_1.len());
    for i in 0..vec_0.len() {
        assert!(vec_0[i] == vec_1[i]);
    }
}

#[test]
fn test_gen_next_image() {
    let mut bmp_0 = BitMap::new(10).unwrap();
    let mut bmp_1 = BitMap::new(10).unwrap();
    let rule = 110;
    for _ in 0..11 {
        bmp_1.rule_step(rule);
    }
    let mut img = init_image(10, 11, &mut bmp_0, rule).unwrap();
    gen_next_image(&mut img, 10, 11, &mut bmp_0, rule).unwrap();

    let vec_0 = bmp_0.get_vec();
    let vec_1 = bmp_1.get_vec();

    assert!(vec_0.len() == vec_1.len());
    for i in 0..vec_0.len() {
        assert!(vec_0[i] == vec_1[i]);
    }
}

#[test]
fn test_bitmap_constructor() {
    let bmp = BitMap::new(55).unwrap();
    assert!(bmp.size() == 55);
    let vec = bmp.get_vec();
    assert!(vec.len() == 55);
}

#[test]
#[should_panic]
fn test_bitmap_constructor_bad_args() {
    BitMap::new(0).unwrap();
}

#[test]
#[should_panic]
fn test_random_constructor_bad_args() {
    BitMap::random(0, &Bernoulli::new(-1.0).unwrap()).unwrap();
}

#[test]
#[should_panic]
fn test_get_with_out_of_bounds_val() {
    let bmp = BitMap::random(10, &Bernoulli::new(0.5).unwrap()).unwrap();
    bmp.get(10).unwrap();
}

#[test]
#[should_panic]
fn test_set_with_out_of_bounds_val() {
    let mut bmp = BitMap::random(10, &Bernoulli::new(0.5).unwrap()).unwrap();
    bmp.set(10).unwrap();
}

#[test]
#[should_panic]
fn test_unset_with_out_of_bounds_val() {
    let mut bmp = BitMap::random(10, &Bernoulli::new(0.5).unwrap()).unwrap();
    bmp.unset(10).unwrap();
}

#[test]
fn test_set() {
    let mut bmp = BitMap::new(64).unwrap();
    let mut cur_val: u64 = 0;
    for i in 0..64 {
        bmp.set(i).unwrap();
        cur_val += 2u64.pow(i as u32);
        assert!(get_integer_value(&bmp) == cur_val);
    }
}

#[test]
fn test_unset() {
    let mut bmp = BitMap::new(64).unwrap();
    let mut cur_val: u64 = u64::MAX;
    for i in 0..64 {
        bmp.set(i).unwrap();
    }

    for i in 0..64 {
        bmp.unset(i).unwrap();
        cur_val -= 2u64.pow(i as u32);
        assert!(get_integer_value(&bmp) == cur_val);
    }
}

#[test]
fn test_rule_step_normal_cases() {
    let rule = 110;
    let mut bmp = BitMap::new(3).unwrap();
    // 000
    bmp.rule_step(rule);
    assert!(bmp.get(1).unwrap() == 0);
    // 001
    let mut bmp = BitMap::new(3).unwrap();
    bmp.set(0).unwrap();
    bmp.rule_step(rule);
    assert!(bmp.get(1).unwrap() == 1);
    // 010
    let mut bmp = BitMap::new(3).unwrap();
    bmp.set(1).unwrap();
    bmp.rule_step(rule);
    assert!(bmp.get(1).unwrap() == 1);
    // 011
    let mut bmp = BitMap::new(3).unwrap();
    bmp.set(1).unwrap();
    bmp.set(0).unwrap();
    bmp.rule_step(rule);
    assert!(bmp.get(1).unwrap() == 1);
    // 100
    let mut bmp = BitMap::new(3).unwrap();
    bmp.set(2).unwrap();
    bmp.rule_step(rule);
    assert!(bmp.get(1).unwrap() == 0);
    // 101
    let mut bmp = BitMap::new(3).unwrap();
    bmp.set(2).unwrap();
    bmp.set(0).unwrap();
    bmp.rule_step(rule);
    assert!(bmp.get(1).unwrap() == 1);
    // 110
    let mut bmp = BitMap::new(3).unwrap();
    bmp.set(2).unwrap();
    bmp.set(1).unwrap();
    bmp.rule_step(rule);
    assert!(bmp.get(1).unwrap() == 1);
    // 111
    let mut bmp = BitMap::new(3).unwrap();
    bmp.set(2).unwrap();
    bmp.set(1).unwrap();
    bmp.set(0).unwrap();
    bmp.rule_step(rule);
    assert!(bmp.get(1).unwrap() == 0);
}

#[test]
fn test_rule_step_wrap_around_cases() {
    let rule = 110;
    // Testing bit 2
    let mut bmp = BitMap::new(3).unwrap();
    // 000
    bmp.rule_step(rule);
    assert!(bmp.get(2).unwrap() == 0);
    // 001
    let mut bmp = BitMap::new(3).unwrap();
    bmp.set(1).unwrap();
    bmp.rule_step(rule);
    assert!(bmp.get(2).unwrap() == 1);
    // 010
    let mut bmp = BitMap::new(3).unwrap();
    bmp.set(2).unwrap();
    bmp.rule_step(rule);
    assert!(bmp.get(2).unwrap() == 1);
    // 011
    let mut bmp = BitMap::new(3).unwrap();
    bmp.set(1).unwrap();
    bmp.set(2).unwrap();
    bmp.rule_step(rule);
    assert!(bmp.get(2).unwrap() == 1);
    // 100
    let mut bmp = BitMap::new(3).unwrap();
    bmp.set(0).unwrap();
    bmp.rule_step(rule);
    assert!(bmp.get(2).unwrap() == 0);
    // 101
    let mut bmp = BitMap::new(3).unwrap();
    bmp.set(1).unwrap();
    bmp.set(0).unwrap();
    bmp.rule_step(rule);
    assert!(bmp.get(2).unwrap() == 1);
    // 110
    let mut bmp = BitMap::new(3).unwrap();
    bmp.set(2).unwrap();
    bmp.set(0).unwrap();
    bmp.rule_step(rule);
    assert!(bmp.get(2).unwrap() == 1);
    // 111
    let mut bmp = BitMap::new(3).unwrap();
    bmp.set(2).unwrap();
    bmp.set(1).unwrap();
    bmp.set(0).unwrap();
    bmp.rule_step(rule);
    assert!(bmp.get(1).unwrap() == 0);

    // Testing bit 0
    let mut bmp = BitMap::new(3).unwrap();
    // 000
    bmp.rule_step(rule);
    assert!(bmp.get(0).unwrap() == 0);
    // 001
    let mut bmp = BitMap::new(3).unwrap();
    bmp.set(2).unwrap();
    bmp.rule_step(rule);
    assert!(bmp.get(0).unwrap() == 1);
    // 010
    let mut bmp = BitMap::new(3).unwrap();
    bmp.set(0).unwrap();
    bmp.rule_step(rule);
    assert!(bmp.get(0).unwrap() == 1);
    // 011
    let mut bmp = BitMap::new(3).unwrap();
    bmp.set(0).unwrap();
    bmp.set(2).unwrap();
    bmp.rule_step(rule);
    assert!(bmp.get(0).unwrap() == 1);
    // 100
    let mut bmp = BitMap::new(3).unwrap();
    bmp.set(1).unwrap();
    bmp.rule_step(rule);
    assert!(bmp.get(0).unwrap() == 0);
    // 101
    let mut bmp = BitMap::new(3).unwrap();
    bmp.set(1).unwrap();
    bmp.set(2).unwrap();
    bmp.rule_step(rule);
    assert!(bmp.get(0).unwrap() == 1);
    // 110
    let mut bmp = BitMap::new(3).unwrap();
    bmp.set(1).unwrap();
    bmp.set(0).unwrap();
    bmp.rule_step(rule);
    assert!(bmp.get(0).unwrap() == 1);
    // 111
    let mut bmp = BitMap::new(3).unwrap();
    bmp.set(2).unwrap();
    bmp.set(1).unwrap();
    bmp.set(0).unwrap();
    bmp.rule_step(rule);
    assert!(bmp.get(0).unwrap() == 0);
}
