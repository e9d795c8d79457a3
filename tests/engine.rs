use cube_perm::perm::{PermError, Permutation};

fn perm(values: Vec<usize>) -> Permutation {
    Permutation::new(values).unwrap()
}

fn three_cycle_54() -> Vec<usize> {
    let mut v: Vec<usize> = (0..54).collect();
    v[0] = 1;
    v[1] = 2;
    v[2] = 0;
    v
}

#[test]
fn order_of_single_three_cycle_is_three() {
    let p = perm(three_cycle_54());
    assert_eq!(p.order(), Some(3));
}

#[test]
fn duplicate_value_is_rejected() {
    let mut v: Vec<usize> = (0..54).collect();
    v[1] = 0;
    assert_eq!(v[..4], [0, 0, 2, 3]);
    assert!(matches!(Permutation::new(v), Err(PermError::InvalidPermutation)));
}

#[test]
fn out_of_range_value_is_rejected() {
    assert!(matches!(Permutation::new(vec![0, 3, 1]), Err(PermError::InvalidPermutation)));
    assert!(matches!(Permutation::new(vec![1, 2, 0]), Ok(_)));
    assert!(matches!(Permutation::new(vec![]), Ok(_)));
}

#[test]
fn identity_is_the_array_of_positions() {
    assert_eq!(Permutation::identity(5).to_vec(), vec![0, 1, 2, 3, 4]);
    assert!(Permutation::identity(5).is_identity());
    assert_eq!(Permutation::identity(54).order(), Some(1));
    assert_eq!(Permutation::identity(0).order(), Some(1));
}

#[test]
fn apply_moves_labels_by_position() {
    let p = perm(vec![1, 2, 0]);
    assert_eq!(p.apply(&vec![10, 20, 30]), Ok(vec![20, 30, 10]));
    assert_eq!(p.apply(&vec![10, 20]), Err(PermError::DimensionMismatch));
}

#[test]
fn apply_identity_keeps_every_labeling() {
    let id = Permutation::identity(54);
    let labels: Vec<usize> = (0..54).map(|i| (i * 7 + 3) % 61).collect();
    assert_eq!(id.apply(&labels), Ok(labels.clone()));
    let id3 = Permutation::identity(3);
    assert_eq!(id3.apply(&vec![5, 5, 9]), Ok(vec![5, 5, 9]));
}

#[test]
fn compose_applies_left_then_right() {
    let p = perm(vec![1, 2, 0]);
    let q = perm(vec![1, 0, 2]);
    let pq = p.compose(&q).unwrap();
    assert_eq!(pq.to_vec(), vec![2, 1, 0]);
    let labels = vec![10, 20, 30];
    let step = q.apply(&p.apply(&labels).unwrap()).unwrap();
    assert_eq!(pq.apply(&labels).unwrap(), step);
    let qp = q.compose(&p).unwrap();
    assert_eq!(qp.to_vec(), vec![0, 2, 1]);
}

#[test]
fn compose_of_different_sizes_fails() {
    let a = Permutation::identity(3);
    let b = Permutation::identity(4);
    assert!(matches!(a.compose(&b), Err(PermError::DimensionMismatch)));
    assert_eq!(a.equals(&b), Err(PermError::DimensionMismatch));
}

#[test]
fn equals_compares_every_position() {
    let p = perm(vec![1, 2, 0]);
    assert_eq!(p.equals(&perm(vec![1, 2, 0])), Ok(true));
    assert_eq!(p.equals(&perm(vec![1, 0, 2])), Ok(false));
}

#[test]
fn inverse_undoes_the_permutation() {
    let p = perm(vec![1, 2, 0]);
    let inv = p.inverse();
    assert_eq!(inv.to_vec(), vec![2, 0, 1]);
    assert!(p.compose(&inv).unwrap().is_identity());
    assert!(inv.compose(&p).unwrap().is_identity());
}

#[test]
fn power_by_squaring_matches_repeated_composition() {
    let p = perm(vec![1, 2, 3, 4, 0, 6, 5]);
    assert_eq!(p.order(), Some(10));
    let mut acc = Permutation::identity(7);
    for k in 0..25u64 {
        assert_eq!(p.power(k).to_vec(), acc.to_vec());
        acc = acc.compose(&p).unwrap();
    }
    assert_eq!(p.power(1_000_000_003).to_vec(), p.power(3).to_vec());
    assert!(p.power(0).is_identity());
}

#[test]
fn order_is_lcm_of_cycle_lengths() {
    // cycles of length 2, 3 and 4
    let p = perm(vec![1, 0, 3, 4, 2, 6, 7, 8, 5]);
    assert_eq!(p.order(), Some(12));
    assert!(p.power(12).is_identity());
    assert!(!p.power(6).is_identity());
    assert!(!p.power(4).is_identity());
}

#[test]
fn get_and_len_read_the_array_form() {
    let p = perm(vec![2, 0, 1]);
    assert_eq!(p.len(), 3);
    assert_eq!(p.get(0), 2);
    assert_eq!(p.get(2), 1);
}
