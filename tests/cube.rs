use cube_perm::catalog::{table, verify_generator_order, Face, RotationCatalog};
use cube_perm::cube::{CubeError, CubeState};
use cube_perm::perm::{PermError, Permutation};

const FACES: [Face; 6] = [Face::F, Face::B, Face::R, Face::L, Face::U, Face::D];

fn solved() -> CubeState {
    CubeState::new(RotationCatalog::new().unwrap())
}

#[test]
fn catalog_tables_are_valid_bijections() {
    assert!(RotationCatalog::new().is_ok());
    for f in FACES {
        let t = table(f);
        assert_eq!(t.len(), 54);
        assert!(Permutation::new(t).is_ok());
    }
}

#[test]
fn every_generator_has_order_exactly_four() {
    let catalog = RotationCatalog::new().unwrap();
    for f in FACES {
        let g = catalog.generator(f);
        assert_eq!(g.order(), Some(4));
        assert!(g.power(4).is_identity());
        assert!(!g.power(2).is_identity());
        assert!(verify_generator_order(g, 4));
        assert!(!verify_generator_order(g, 2));
        assert!(!verify_generator_order(g, 8));
    }
    assert!(catalog.verify_orders());
}

#[test]
fn exact_order_check_rejects_a_divisor() {
    let mut v: Vec<usize> = (0..54).collect();
    v.swap(0, 1);
    let g = Permutation::new(v).unwrap();
    assert!(g.power(4).is_identity());
    assert!(!verify_generator_order(&g, 4));
    assert!(verify_generator_order(&g, 2));
}

#[test]
fn front_turn_keeps_centres_and_moves_the_front_ring() {
    let f = table(Face::F);
    assert_eq!(f[..9], [6, 3, 0, 7, 4, 1, 8, 5, 2]);
    assert_eq!((f[9], f[12], f[15]), (42, 43, 44));
    for face in FACES {
        let t = table(face);
        for c in [4, 13, 22, 31, 40, 49] {
            assert_eq!(t[c], c);
        }
    }
}

#[test]
fn four_front_turns_return_to_solved() {
    let mut state = solved();
    for _ in 0..4 {
        assert_eq!(state.apply_generator("F"), Ok(()));
    }
    assert_eq!(state.current_labeling(), (0..54).collect::<Vec<usize>>());
    assert!(state.is_solved());
}

#[test]
fn one_front_turn_labels_as_the_table() {
    let mut state = solved();
    state.apply_generator("F").unwrap();
    assert!(!state.is_solved());
    assert_eq!(state.current_labeling(), table(Face::F));
    assert_eq!(state.current_labeling()[9], 42);
}

#[test]
fn unknown_generator_leaves_state_unchanged() {
    let mut state = solved();
    state.apply_generator("R").unwrap();
    let before = state.current_labeling();
    assert_eq!(state.apply_generator("X"), Err(CubeError::UnknownGenerator));
    assert_eq!(state.apply_generator("FF"), Err(CubeError::UnknownGenerator));
    assert_eq!(state.apply_generator(""), Err(CubeError::UnknownGenerator));
    assert_eq!(state.apply_generator("f"), Err(CubeError::UnknownGenerator));
    assert_eq!(state.current_labeling(), before);
}

#[test]
fn generator_names_map_to_faces() {
    assert_eq!(Face::from_name("F"), Some(Face::F));
    assert_eq!(Face::from_name("B"), Some(Face::B));
    assert_eq!(Face::from_name("R"), Some(Face::R));
    assert_eq!(Face::from_name("L"), Some(Face::L));
    assert_eq!(Face::from_name("U"), Some(Face::U));
    assert_eq!(Face::from_name("D"), Some(Face::D));
    assert_eq!(Face::from_name("Q"), None);
}

#[test]
fn applying_an_inverse_generator_undoes_it() {
    let mut state = solved();
    state.apply_generator("U").unwrap();
    let inv = state.catalog().generator(Face::U).inverse();
    assert_eq!(state.apply_permutation(&inv), Ok(()));
    assert!(state.is_solved());
    assert_eq!(state.apply_permutation(&Permutation::identity(3)), Err(PermError::DimensionMismatch));
}

#[test]
fn reset_returns_to_identity() {
    let mut state = solved();
    for name in ["F", "R", "U", "B"] {
        state.apply_generator(name).unwrap();
    }
    assert!(!state.is_solved());
    state.reset();
    assert!(state.is_solved());
    assert!(state.current().is_identity());
}

#[test]
fn word_composed_with_its_inverse_is_identity() {
    let catalog = RotationCatalog::new().unwrap();
    let mut p = Permutation::identity(54);
    for (i, f) in [Face::F, Face::R, Face::U, Face::L, Face::D, Face::B, Face::R, Face::F].iter().enumerate() {
        let g = catalog.generator(*f);
        let step = if i % 3 == 1 { g.inverse() } else { g.power(1) };
        p = p.compose(&step).unwrap();
        assert!(p.compose(&p.inverse()).unwrap().is_identity());
        assert!(p.inverse().compose(&p).unwrap().is_identity());
    }
    assert!(!p.is_identity());
}

#[test]
fn composition_of_generators_is_associative() {
    let catalog = RotationCatalog::new().unwrap();
    for a in FACES {
        for b in FACES {
            for c in FACES {
                let (p, q, r) = (catalog.generator(a), catalog.generator(b), catalog.generator(c));
                let left = p.compose(q).unwrap().compose(r).unwrap();
                let right = p.compose(&q.compose(r).unwrap()).unwrap();
                assert_eq!(left.equals(&right), Ok(true));
            }
        }
    }
}

#[test]
fn front_and_right_do_not_commute() {
    let catalog = RotationCatalog::new().unwrap();
    let f = catalog.generator(Face::F);
    let r = catalog.generator(Face::R);
    let fr = f.compose(r).unwrap();
    let rf = r.compose(f).unwrap();
    assert_eq!(fr.equals(&rf), Ok(false));
    assert_eq!(fr.order(), Some(105));
}
