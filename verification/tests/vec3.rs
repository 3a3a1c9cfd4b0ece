use rtlib::scalar::{bits_of_key, key_of_bits, ONE, SIGN_BIT, ZERO};
use rtlib::vec3::{order_of, Vec3};
use std::cmp::Ordering;

fn key(x: f64) -> i64 {
    rtlib::scalar::key_of_bits(x.to_bits())
}

fn vect(x: f64, y: f64, z: f64) -> Vec3 {
    Vec3::new(key(x), key(y), key(z))
}

#[test]
fn lib_it_works() {
    let result = 2 + 2;
    assert_eq!(result, 4);
}

#[test]
fn it_works() {
    let result = 2 + 2;
    assert_eq!(result, 4);
}

#[test]
fn vec3_test_default_construction() {
    let vec = Vec3::default();

    assert_eq!(vec.x, key(0_f64));
    assert_eq!(vec.y, key(0_f64));
    assert_eq!(vec.z, key(0_f64));
}

#[test]
fn vec3_test_constructor() {
    let vec = vect(3.0, 4.0, 5.0);

    assert_eq!(vec.x, key(3_f64));
    assert_eq!(vec.y, key(4_f64));
    assert_eq!(vec.z, key(5_f64));
}

#[test]
fn vec3_test_equality() {
    let vec = vect(3.0, 4.0, 5.0);
    let vec2 = vect(3.0, 4.0, 5.0);
    let vec3 = vect(5.0, 4.0, 3.0);

    assert_eq!(vec, vec2);
    assert_ne!(vec, vec3);
}

#[test]
fn test_new_with_0_instead_of_0f() {
    let vec = vect(1.0, 0 as f64, 1 as f64);
    assert_eq!(vec.x, key(1.0));
    assert_eq!(vec.y, key(0.0));
    assert_eq!(vec.z, key(1.0));
}

#[test]
fn test_min_vectors() {
    let vec1 = vect(1.0, 2.0, -3.0);
    let vec2 = vect(5.0, 6.0, 7.0);
    let ans_min = vect(1.0, 2.0, -3.0);
    let ans_max = vect(5.0, 6.0, 7.0);
    assert_eq!(vec1.min(&vec2), ans_min, "minimum failed");
    assert_eq!(vec1.max(&vec2), ans_max, "maximum failed");
    assert_eq!(vec2.min(&vec1), ans_min, "minimum failed");
    assert_eq!(vec2.max(&vec1), ans_max, "maximum failed");
}

#[test]
fn test_max_vectors() {}

#[test]
fn keys_order_as_the_doubles_do() {
    let values = [
        f64::NEG_INFINITY,
        f64::MIN,
        -1000.0,
        -1.5,
        -0.0001,
        0.0,
        0.0001,
        0.2679,
        1.0,
        2.0,
        1e300,
        f64::MAX,
        f64::INFINITY,
    ];
    for i in 0..values.len() {
        for j in 0..values.len() {
            assert_eq!(order_of(key(values[i]), key(values[j])), i.cmp(&j));
        }
    }
    assert_eq!(key(0.0), ZERO);
    assert_eq!(key(1.0), ONE);
}

#[test]
fn get_names_the_components() {
    let v = Vec3::new(7, 8, 9);
    assert_eq!(v.get(0), 7);
    assert_eq!(v.get(1), 8);
    assert_eq!(v.get(2), 9);
}

#[test]
fn min_and_max_mix_the_components() {
    let a = Vec3::new(1, 9, 5);
    let b = Vec3::new(2, 3, 5);
    assert_eq!(a.min(&b), Vec3::new(1, 3, 5));
    assert_eq!(a.max(&b), Vec3::new(2, 9, 5));
}

#[test]
fn partial_cmp_by_each_axis() {
    let a = Vec3::new(1, 9, 5);
    let b = Vec3::new(2, 3, 5);
    assert_eq!(a.partial_cmp_by_x(&b), Some(Ordering::Less));
    assert_eq!(a.partial_cmp_by_y(&b), Some(Ordering::Greater));
    assert_eq!(a.partial_cmp_by_z(&b), Some(Ordering::Equal));
}

#[test]
fn keys_and_bits_stand_for_each_other() {
    let values = [
        0.0,
        -0.0,
        1.0,
        -1.0,
        0.26794919243112264,
        -0.5773502691896258,
        f64::MIN_POSITIVE,
        5e-324,
        -5e-324,
        f64::MAX,
        f64::MIN,
        f64::INFINITY,
        f64::NEG_INFINITY,
    ];
    for x in values {
        let bits = x.to_bits();
        assert_eq!(bits_of_key(key_of_bits(bits)), bits);
        // the key is what comparing the doubles in full order compares
        for y in values {
            assert_eq!(key_of_bits(bits).cmp(&key_of_bits(y.to_bits())), x.total_cmp(&y));
        }
    }
    for k in [0i64, 1, -1, 42, -42, i64::MAX, i64::MIN, ONE, -ONE] {
        assert_eq!(key_of_bits(bits_of_key(k)), k);
    }
    assert_eq!(key_of_bits(0), 0);
    assert_eq!(key_of_bits(1), 1);
    assert_eq!(key_of_bits(SIGN_BIT - 1), i64::MAX);
    assert_eq!(key_of_bits(SIGN_BIT), -1);
    assert_eq!(key_of_bits(SIGN_BIT + 1), -2);
    assert_eq!(key_of_bits(u64::MAX), i64::MIN);
    assert_eq!(bits_of_key(-1), SIGN_BIT);
    assert_eq!(bits_of_key(i64::MIN), u64::MAX);
    assert_eq!(key_of_bits((1.0f64).to_bits()), ONE);
    assert_eq!(key_of_bits((-0.0f64).to_bits()), -1);
    assert_eq!(f64::from_bits(bits_of_key(ONE)), 1.0);
    assert_eq!(f64::from_bits(bits_of_key(ZERO)), 0.0);
}
