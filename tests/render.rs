use cube_perm::catalog::RotationCatalog;
use cube_perm::cube::CubeState;
use cube_perm::render::{net_index, net_rows, render_net};

const SOLVED_NET: [&str; 9] = [
    "    36 37 38",
    "    39 40 41",
    "    42 43 44",
    "27 28 29  0 1 2  9 10 11  18 19 20",
    "30 31 32  3 4 5  12 13 14  21 22 23",
    "33 34 35  6 7 8  15 16 17  24 25 26",
    "    45 46 47",
    "    48 49 50",
    "    51 52 53",
];

#[test]
fn solved_net_starts_with_the_up_face() {
    let state = CubeState::new(RotationCatalog::new().unwrap());
    let text = render_net(&state.current_labeling());
    let lines: Vec<&str> = text.lines().collect();
    assert_eq!(lines[0], "    36 37 38");
    assert_eq!(lines[1], "    39 40 41");
    assert_eq!(lines[2], "    42 43 44");
    let expected: String = SOLVED_NET.iter().map(|l| format!("{}\n", l)).collect();
    assert_eq!(text, expected);
}

#[test]
fn net_rows_follow_the_layout() {
    let labels: Vec<usize> = (0..54).collect();
    let rows = net_rows(&labels);
    assert_eq!(rows.len(), 9);
    assert_eq!(rows[0], vec![36, 37, 38]);
    assert_eq!(rows[3], vec![27, 28, 29, 0, 1, 2, 9, 10, 11, 18, 19, 20]);
    assert_eq!(rows[8], vec![51, 52, 53]);
    assert_eq!(net_index(4, 7), 13);
    assert_eq!(net_index(5, 11), 26);
}

#[test]
fn net_after_a_front_turn() {
    let mut state = CubeState::new(RotationCatalog::new().unwrap());
    state.apply_generator("F").unwrap();
    let text = render_net(&state.current_labeling());
    let lines: Vec<&str> = text.lines().collect();
    assert_eq!(lines.len(), 9);
    assert_eq!(lines[2], "    35 32 29");
    assert_eq!(lines[3], "27 28 45  6 3 0  42 10 11  18 19 20");
    assert_eq!(lines[6], "    15 12 9");
}
