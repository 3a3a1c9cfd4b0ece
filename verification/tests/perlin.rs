use rtlib::perlin::{is_permutation, Perlin, MAX_PERLIN_PERM};
use rtlib::vec3::Vec3;

fn gradients() -> Vec<Vec3> {
    (0..256).map(|i| Vec3::new(i, 2 * i, -i)).collect()
}

#[test]
fn test_permute() {
    let mut bxslice: Vec<i64> = Vec::with_capacity(MAX_PERLIN_PERM);

    for i in 0..MAX_PERLIN_PERM {
        bxslice.push(i as i64);
    }

    let mut perm_bxslice = bxslice.clone();

    Perlin::permute(&mut perm_bxslice);

    assert_ne!(bxslice, perm_bxslice);
}

#[test]
fn permute_keeps_the_entries() {
    let mut table: Vec<i64> = vec![5, 5, 9, -3, 0, 7];
    for _ in 0..50 {
        Perlin::permute(&mut table);
        let mut sorted = table.clone();
        sorted.sort();
        assert_eq!(sorted, vec![-3, 0, 5, 5, 7, 9]);
    }
    let mut single = vec![42i64];
    Perlin::permute(&mut single);
    assert_eq!(single, vec![42]);
}

#[test]
fn permute_never_moves_the_last_entry_up_by_itself() {
    // only the places below the last draw a partner, so with two entries
    // the first changes places with itself
    let mut two = vec![1i64, 2];
    for _ in 0..20 {
        Perlin::permute(&mut two);
        assert_eq!(two, vec![1, 2]);
    }
}

#[test]
fn a_generated_table_is_a_permutation() {
    for _ in 0..10 {
        let table = Perlin::perlin_generate_perm();
        assert_eq!(table.len(), 256);
        let mut sorted = table.clone();
        sorted.sort();
        assert_eq!(sorted, (0..256).collect::<Vec<i64>>());
    }
}

#[test]
fn corner_looks_up_the_gradient() {
    let noise = Perlin::new(gradients()).unwrap();
    for (i, j, k) in [(0i64, 0i64, 0i64), (1, 2, 3), (255, 256, 257), (-1, -256, 1000), (i64::MAX, i64::MIN, 77)] {
        let at = noise.perm_x()[(i & 255) as usize]
            ^ noise.perm_y()[(j & 255) as usize]
            ^ noise.perm_z()[(k & 255) as usize];
        assert!((0..256).contains(&at));
        assert_eq!(noise.corner(i, j, k), Vec3::new(at, 2 * at, -at));
    }
    // the lattice repeats every 256 steps
    assert_eq!(noise.corner(3, 4, 5), noise.corner(3 + 256, 4 - 256, 5 + 512));
}

#[test]
fn a_copy_of_a_noise_has_its_tables() {
    let noise = Perlin::new(gradients()).unwrap();
    let copy = noise.clone();
    assert_eq!(noise.ranvec(), copy.ranvec());
    assert_eq!(noise.perm_x(), copy.perm_x());
    assert_eq!(noise.perm_y(), copy.perm_y());
    assert_eq!(noise.perm_z(), copy.perm_z());
    assert_eq!(noise.corner(9, 8, 7), copy.corner(9, 8, 7));
}

#[test]
fn permute_with_given_partners() {
    // five entries: places 3, 2, 1, 0 change with places 1, 2, 0, 0
    let mut table = vec![10i64, 11, 12, 13, 14];
    Perlin::permute_with(&mut table, &vec![0, 0, 2, 1]);
    // place 3 with 1: 10 13 12 11 14; place 2 with 2: the same;
    // place 1 with 0: 13 10 12 11 14; place 0 with 0: the same
    assert_eq!(table, vec![13, 10, 12, 11, 14]);

    let mut table = vec![10i64, 11, 12, 13, 14];
    Perlin::permute_with(&mut table, &vec![0, 1, 2, 3]);
    assert_eq!(table, vec![10, 11, 12, 13, 14]);

    let mut table = vec![10i64, 11, 12, 13, 14];
    Perlin::permute_with(&mut table, &vec![0, 0, 0, 0]);
    // 13 11 12 10 14, 12 11 13 10 14, 11 12 13 10 14
    assert_eq!(table, vec![11, 12, 13, 10, 14]);

    let mut single = vec![1i64];
    Perlin::permute_with(&mut single, &vec![]);
    assert_eq!(single, vec![1]);
}

#[test]
fn a_noise_needs_whole_tables() {
    let id: Vec<i64> = (0..256).collect();
    let mut reversed = id.clone();
    reversed.reverse();
    assert!(Perlin::new(gradients()).is_some());
    assert!(Perlin::new(gradients()[..255].to_vec()).is_none());
    assert!(Perlin::new(Vec::new()).is_none());

    let noise =
        Perlin::from_tables(gradients(), id.clone(), reversed.clone(), id.clone()).unwrap();
    // 3 ^ (255 - 4) ^ 5 = 3 ^ 251 ^ 5 = 253
    assert_eq!(noise.corner(3, 4, 5), Vec3::new(253, 506, -253));
    assert_eq!(noise.perm_y(), &reversed);

    let mut twice = id.clone();
    twice[7] = 8;
    assert!(Perlin::from_tables(gradients(), twice, id.clone(), id.clone()).is_none());
    let mut outside = id.clone();
    outside[0] = 256;
    assert!(Perlin::from_tables(gradients(), id.clone(), outside, id.clone()).is_none());
    let mut below = id.clone();
    below[255] = -1;
    assert!(Perlin::from_tables(gradients(), id.clone(), id.clone(), below).is_none());
    assert!(Perlin::from_tables(gradients(), id.clone(), id.clone(), id[..255].to_vec()).is_none());
    assert!(Perlin::from_tables(gradients()[1..].to_vec(), id.clone(), id.clone(), id).is_none());
}

#[test]
fn a_permutation_holds_each_number_once() {
    let id: Vec<i64> = (0..256).collect();
    assert!(is_permutation(&id));
    let mut swapped = id.clone();
    swapped.swap(3, 200);
    assert!(is_permutation(&swapped));
    let mut twice = id.clone();
    twice[3] = 200;
    assert!(!is_permutation(&twice));
    let mut long = id.clone();
    long.push(0);
    assert!(!is_permutation(&long));
    assert!(!is_permutation(&vec![]));
    assert!(is_permutation(&Perlin::perlin_generate_perm()));
}

#[test]
fn a_cell_has_eight_corners() {
    let id: Vec<i64> = (0..256).collect();
    let noise = Perlin::from_tables(gradients(), id.clone(), id.clone(), id).unwrap();
    // with the numbers in order as tables, the gradient at (i, j, k) is number i ^ j ^ k
    let g = |n: i64| Vec3::new(n, 2 * n, -n);
    assert_eq!(
        noise.cell(1, 2, 4),
        vec![g(1 ^ 2 ^ 4), g(1 ^ 2 ^ 5), g(1 ^ 3 ^ 4), g(1 ^ 3 ^ 5), g(2 ^ 2 ^ 4), g(2 ^ 2 ^ 5), g(2 ^ 3 ^ 4), g(2 ^ 3 ^ 5)]
    );
    let random = Perlin::new(gradients()).unwrap();
    let cell = random.cell(-3, 255, 1000);
    let mut n = 0;
    for di in 0..2 {
        for dj in 0..2 {
            for dk in 0..2 {
                assert_eq!(cell[n], random.corner(-3 + di, 255 + dj, 1000 + dk));
                n += 1;
            }
        }
    }
}
