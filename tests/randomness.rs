use space_survival::rng::{
    _hash_rand, asteroid_kind, hash_rand_u32, pick_in_range, Axis, HashKey, HashRand, HashTag,
    ASTEROID_KINDS,
};

#[test]
fn same_seed_same_draws() {
    let keys = [
        HashKey::Sequence(1),
        HashKey::Tagged(1, HashTag::Vel),
        HashKey::Tagged(1, HashTag::VelAngle),
        HashKey::Axis(99, Axis::X),
        HashKey::Axis(99, Axis::Y),
    ];
    let first: Vec<u64> = keys.iter().map(|k| _hash_rand(42, *k)).collect();
    let second: Vec<u64> = keys.iter().map(|k| _hash_rand(42, *k)).collect();
    assert_eq!(first, second);
}

#[test]
fn hash_depends_on_seed_and_key() {
    let a = _hash_rand(42, HashKey::Sequence(1));
    assert_ne!(a, 42);
    assert_ne!(a, 1);
    assert_ne!(a, _hash_rand(43, HashKey::Sequence(1)));
    assert_ne!(a, _hash_rand(42, HashKey::Sequence(2)));
    assert_ne!(
        _hash_rand(42, HashKey::Tagged(1, HashTag::Vel)),
        _hash_rand(42, HashKey::Tagged(1, HashTag::AngVel))
    );
    assert_ne!(
        _hash_rand(42, HashKey::Axis(5, Axis::X)),
        _hash_rand(42, HashKey::Axis(5, Axis::Y))
    );
    assert_ne!(_hash_rand(42, HashKey::Axis(5, Axis::X)), 5);
}

#[test]
fn pick_in_range_uses_low_bits_modulo_width() {
    assert_eq!(pick_in_range(7, 0, 6), 1);
    assert_eq!(pick_in_range(0x1_0000_0005, 10, 13), 12);
    assert_eq!(pick_in_range(u64::MAX, 0, 10), 5);
}

#[test]
fn empty_range_gives_its_start() {
    assert_eq!(pick_in_range(12345, 9, 9), 9);
    assert_eq!(pick_in_range(12345, 9, 3), 9);
    assert_eq!(hash_rand_u32(1, HashKey::Sequence(3), 4, 4), 4);
    assert_eq!((8..8u32).hash_rand(1, HashKey::Sequence(3)), 8);
}

#[test]
fn draws_stay_in_range() {
    for seq in 0..200u32 {
        let v = hash_rand_u32(7, HashKey::Sequence(seq), 100, 117);
        assert!((100..117).contains(&v));
        let h = _hash_rand(7, HashKey::Sequence(seq));
        assert_eq!(v, pick_in_range(h, 100, 117));
        assert_eq!((100..117u32).hash_rand(7, HashKey::Sequence(seq)), v);
    }
}

#[test]
fn asteroid_kind_is_one_of_six() {
    let mut seen = [false; 6];
    for seq in 0..300u32 {
        let k = asteroid_kind(42, seq);
        assert!(k < ASTEROID_KINDS);
        seen[k as usize] = true;
        let h = _hash_rand(42, HashKey::Tagged(seq, HashTag::AsteroidNum));
        assert_eq!(k, pick_in_range(h, 0, 6));
    }
    assert!(seen.iter().all(|s| *s));
}
