//! The six quarter-turn generators of a 3x3x3 cube.
//!
//! Facelets are numbered face by face, nine to a face, row by row as the face
//! appears in the unfolded net: front `0..9`, right `9..18`, back `18..27`,
//! left `27..36`, up `36..45` and down `45..54`. Entry `i` of a generator's
//! table names the facelet whose sticker moves to facelet `i` when the face
//! turns a quarter clockwise, seen from outside the cube.
use vstd::prelude::*;
use crate::perm::{follow, identity_seq, in_range, is_bijection, is_order, lemma_follow_add, lemma_power_follow, lemma_power_identity, periodic_below, power_seq, PermError, Permutation};
use vstd::string::StrSliceExecFns;

verus! {

/// The number of facelets.
pub const FACELETS: usize = 54;

/// A face of the cube, naming the generator that turns it.
#[derive(Debug, Clone, Copy, PartialEq, Eq, Structural)]
pub enum Face {
    F,
    B,
    R,
    L,
    U,
    D,
}

/// The table of the quarter turn of face `f`.
#[verifier::opaque]
pub open spec fn table_spec(f: Face) -> Seq<usize> {
    match f {
        Face::F => seq![
            6, 3, 0, 7, 4, 1, 8, 5, 2,
            42, 10, 11, 43, 13, 14, 44, 16, 17,
            18, 19, 20, 21, 22, 23, 24, 25, 26,
            27, 28, 45, 30, 31, 46, 33, 34, 47,
            36, 37, 38, 39, 40, 41, 35, 32, 29,
            15, 12, 9, 48, 49, 50, 51, 52, 53,
        ],
        Face::B => seq![
            0, 1, 2, 3, 4, 5, 6, 7, 8,
            9, 10, 53, 12, 13, 52, 15, 16, 51,
            24, 21, 18, 25, 22, 19, 26, 23, 20,
            38, 28, 29, 37, 31, 32, 36, 34, 35,
            11, 14, 17, 39, 40, 41, 42, 43, 44,
            45, 46, 47, 48, 49, 50, 27, 30, 33,
        ],
        Face::R => seq![
            0, 1, 47, 3, 4, 50, 6, 7, 53,
            15, 12, 9, 16, 13, 10, 17, 14, 11,
            44, 19, 20, 41, 22, 23, 38, 25, 26,
            27, 28, 29, 30, 31, 32, 33, 34, 35,
            36, 37, 2, 39, 40, 5, 42, 43, 8,
            45, 46, 24, 48, 49, 21, 51, 52, 18,
        ],
        Face::L => seq![
            36, 1, 2, 39, 4, 5, 42, 7, 8,
            9, 10, 11, 12, 13, 14, 15, 16, 17,
            18, 19, 51, 21, 22, 48, 24, 25, 45,
            33, 30, 27, 34, 31, 28, 35, 32, 29,
            26, 37, 38, 23, 40, 41, 20, 43, 44,
            0, 46, 47, 3, 49, 50, 6, 52, 53,
        ],
        Face::U => seq![
            9, 10, 11, 3, 4, 5, 6, 7, 8,
            18, 19, 20, 12, 13, 14, 15, 16, 17,
            27, 28, 29, 21, 22, 23, 24, 25, 26,
            0, 1, 2, 30, 31, 32, 33, 34, 35,
            42, 39, 36, 43, 40, 37, 44, 41, 38,
            45, 46, 47, 48, 49, 50, 51, 52, 53,
        ],
        Face::D => seq![
            0, 1, 2, 3, 4, 5, 33, 34, 35,
            9, 10, 11, 12, 13, 14, 6, 7, 8,
            18, 19, 20, 21, 22, 23, 15, 16, 17,
            27, 28, 29, 30, 31, 32, 24, 25, 26,
            36, 37, 38, 39, 40, 41, 42, 43, 44,
            51, 48, 45, 52, 49, 46, 53, 50, 47,
        ],
    }
}

/// The facelet table of the quarter turn of face `f`.
pub fn table(f: Face) -> (r: Vec<usize>)
    ensures
        r@ == table_spec(f),
{
    reveal(table_spec);
    match f {
        Face::F => vec![
            6, 3, 0, 7, 4, 1, 8, 5, 2,
            42, 10, 11, 43, 13, 14, 44, 16, 17,
            18, 19, 20, 21, 22, 23, 24, 25, 26,
            27, 28, 45, 30, 31, 46, 33, 34, 47,
            36, 37, 38, 39, 40, 41, 35, 32, 29,
            15, 12, 9, 48, 49, 50, 51, 52, 53,
        ],
        Face::B => vec![
            0, 1, 2, 3, 4, 5, 6, 7, 8,
            9, 10, 53, 12, 13, 52, 15, 16, 51,
            24, 21, 18, 25, 22, 19, 26, 23, 20,
            38, 28, 29, 37, 31, 32, 36, 34, 35,
            11, 14, 17, 39, 40, 41, 42, 43, 44,
            45, 46, 47, 48, 49, 50, 27, 30, 33,
        ],
        Face::R => vec![
            0, 1, 47, 3, 4, 50, 6, 7, 53,
            15, 12, 9, 16, 13, 10, 17, 14, 11,
            44, 19, 20, 41, 22, 23, 38, 25, 26,
            27, 28, 29, 30, 31, 32, 33, 34, 35,
            36, 37, 2, 39, 40, 5, 42, 43, 8,
            45, 46, 24, 48, 49, 21, 51, 52, 18,
        ],
        Face::L => vec![
            36, 1, 2, 39, 4, 5, 42, 7, 8,
            9, 10, 11, 12, 13, 14, 15, 16, 17,
            18, 19, 51, 21, 22, 48, 24, 25, 45,
            33, 30, 27, 34, 31, 28, 35, 32, 29,
            26, 37, 38, 23, 40, 41, 20, 43, 44,
            0, 46, 47, 3, 49, 50, 6, 52, 53,
        ],
        Face::U => vec![
            9, 10, 11, 3, 4, 5, 6, 7, 8,
            18, 19, 20, 12, 13, 14, 15, 16, 17,
            27, 28, 29, 21, 22, 23, 24, 25, 26,
            0, 1, 2, 30, 31, 32, 33, 34, 35,
            42, 39, 36, 43, 40, 37, 44, 41, 38,
            45, 46, 47, 48, 49, 50, 51, 52, 53,
        ],
        Face::D => vec![
            0, 1, 2, 3, 4, 5, 33, 34, 35,
            9, 10, 11, 12, 13, 14, 6, 7, 8,
            18, 19, 20, 21, 22, 23, 15, 16, 17,
            27, 28, 29, 30, 31, 32, 24, 25, 26,
            36, 37, 38, 39, 40, 41, 42, 43, 44,
            51, 48, 45, 52, 49, 46, 53, 50, 47,
        ],
    }
}

/// The table of face `f` stays in range, and four quarter turns bring every
/// facelet back; the first facelet of the face itself is moved by one, two
/// and three quarter turns.
proof fn lemma_table_walks(f: Face)
    ensures
        table_spec(f).len() == 54,
        in_range(table_spec(f)),
        periodic_below(table_spec(f), 4, 54),
        follow(table_spec(f), face_corner(f), 1) != face_corner(f),
        follow(table_spec(f), face_corner(f), 2) != face_corner(f),
        follow(table_spec(f), face_corner(f), 3) != face_corner(f),
{
    let p = table_spec(f);
    reveal(table_spec);
    reveal_with_fuel(follow, 5);
    match f {
        Face::F => {
            assert(p[0] == 6);
            assert(p[1] == 3);
            assert(p[2] == 0);
            assert(p[3] == 7);
            assert(p[4] == 4);
            assert(p[5] == 1);
            assert(p[6] == 8);
            assert(p[7] == 5);
            assert(p[8] == 2);
            assert(p[9] == 42);
            assert(p[10] == 10);
            assert(p[11] == 11);
            assert(p[12] == 43);
            assert(p[13] == 13);
            assert(p[14] == 14);
            assert(p[15] == 44);
            assert(p[16] == 16);
            assert(p[17] == 17);
            assert(p[18] == 18);
            assert(p[19] == 19);
            assert(p[20] == 20);
            assert(p[21] == 21);
            assert(p[22] == 22);
            assert(p[23] == 23);
            assert(p[24] == 24);
            assert(p[25] == 25);
            assert(p[26] == 26);
            assert(p[27] == 27);
            assert(p[28] == 28);
            assert(p[29] == 45);
            assert(p[30] == 30);
            assert(p[31] == 31);
            assert(p[32] == 46);
            assert(p[33] == 33);
            assert(p[34] == 34);
            assert(p[35] == 47);
            assert(p[36] == 36);
            assert(p[37] == 37);
            assert(p[38] == 38);
            assert(p[39] == 39);
            assert(p[40] == 40);
            assert(p[41] == 41);
            assert(p[42] == 35);
            assert(p[43] == 32);
            assert(p[44] == 29);
            assert(p[45] == 15);
            assert(p[46] == 12);
            assert(p[47] == 9);
            assert(p[48] == 48);
            assert(p[49] == 49);
            assert(p[50] == 50);
            assert(p[51] == 51);
            assert(p[52] == 52);
            assert(p[53] == 53);
        },
        Face::B => {
            assert(p[0] == 0);
            assert(p[1] == 1);
            assert(p[2] == 2);
            assert(p[3] == 3);
            assert(p[4] == 4);
            assert(p[5] == 5);
            assert(p[6] == 6);
            assert(p[7] == 7);
            assert(p[8] == 8);
            assert(p[9] == 9);
            assert(p[10] == 10);
            assert(p[11] == 53);
            assert(p[12] == 12);
            assert(p[13] == 13);
            assert(p[14] == 52);
            assert(p[15] == 15);
            assert(p[16] == 16);
            assert(p[17] == 51);
            assert(p[18] == 24);
            assert(p[19] == 21);
            assert(p[20] == 18);
            assert(p[21] == 25);
            assert(p[22] == 22);
            assert(p[23] == 19);
            assert(p[24] == 26);
            assert(p[25] == 23);
            assert(p[26] == 20);
            assert(p[27] == 38);
            assert(p[28] == 28);
            assert(p[29] == 29);
            assert(p[30] == 37);
            assert(p[31] == 31);
            assert(p[32] == 32);
            assert(p[33] == 36);
            assert(p[34] == 34);
            assert(p[35] == 35);
            assert(p[36] == 11);
            assert(p[37] == 14);
            assert(p[38] == 17);
            assert(p[39] == 39);
            assert(p[40] == 40);
            assert(p[41] == 41);
            assert(p[42] == 42);
            assert(p[43] == 43);
            assert(p[44] == 44);
            assert(p[45] == 45);
            assert(p[46] == 46);
            assert(p[47] == 47);
            assert(p[48] == 48);
            assert(p[49] == 49);
            assert(p[50] == 50);
            assert(p[51] == 27);
            assert(p[52] == 30);
            assert(p[53] == 33);
        },
        Face::R => {
            assert(p[0] == 0);
            assert(p[1] == 1);
            assert(p[2] == 47);
            assert(p[3] == 3);
            assert(p[4] == 4);
            assert(p[5] == 50);
            assert(p[6] == 6);
            assert(p[7] == 7);
            assert(p[8] == 53);
            assert(p[9] == 15);
            assert(p[10] == 12);
            assert(p[11] == 9);
            assert(p[12] == 16);
            assert(p[13] == 13);
            assert(p[14] == 10);
            assert(p[15] == 17);
            assert(p[16] == 14);
            assert(p[17] == 11);
            assert(p[18] == 44);
            assert(p[19] == 19);
            assert(p[20] == 20);
            assert(p[21] == 41);
            assert(p[22] == 22);
            assert(p[23] == 23);
            assert(p[24] == 38);
            assert(p[25] == 25);
            assert(p[26] == 26);
            assert(p[27] == 27);
            assert(p[28] == 28);
            assert(p[29] == 29);
            assert(p[30] == 30);
            assert(p[31] == 31);
            assert(p[32] == 32);
            assert(p[33] == 33);
            assert(p[34] == 34);
            assert(p[35] == 35);
            assert(p[36] == 36);
            assert(p[37] == 37);
            assert(p[38] == 2);
            assert(p[39] == 39);
            assert(p[40] == 40);
            assert(p[41] == 5);
            assert(p[42] == 42);
            assert(p[43] == 43);
            assert(p[44] == 8);
            assert(p[45] == 45);
            assert(p[46] == 46);
            assert(p[47] == 24);
            assert(p[48] == 48);
            assert(p[49] == 49);
            assert(p[50] == 21);
            assert(p[51] == 51);
            assert(p[52] == 52);
            assert(p[53] == 18);
        },
        Face::L => {
            assert(p[0] == 36);
            assert(p[1] == 1);
            assert(p[2] == 2);
            assert(p[3] == 39);
            assert(p[4] == 4);
            assert(p[5] == 5);
            assert(p[6] == 42);
            assert(p[7] == 7);
            assert(p[8] == 8);
            assert(p[9] == 9);
            assert(p[10] == 10);
            assert(p[11] == 11);
            assert(p[12] == 12);
            assert(p[13] == 13);
            assert(p[14] == 14);
            assert(p[15] == 15);
            assert(p[16] == 16);
            assert(p[17] == 17);
            assert(p[18] == 18);
            assert(p[19] == 19);
            assert(p[20] == 51);
            assert(p[21] == 21);
            assert(p[22] == 22);
            assert(p[23] == 48);
            assert(p[24] == 24);
            assert(p[25] == 25);
            assert(p[26] == 45);
            assert(p[27] == 33);
            assert(p[28] == 30);
            assert(p[29] == 27);
            assert(p[30] == 34);
            assert(p[31] == 31);
            assert(p[32] == 28);
            assert(p[33] == 35);
            assert(p[34] == 32);
            assert(p[35] == 29);
            assert(p[36] == 26);
            assert(p[37] == 37);
            assert(p[38] == 38);
            assert(p[39] == 23);
            assert(p[40] == 40);
            assert(p[41] == 41);
            assert(p[42] == 20);
            assert(p[43] == 43);
            assert(p[44] == 44);
            assert(p[45] == 0);
            assert(p[46] == 46);
            assert(p[47] == 47);
            assert(p[48] == 3);
            assert(p[49] == 49);
            assert(p[50] == 50);
            assert(p[51] == 6);
            assert(p[52] == 52);
            assert(p[53] == 53);
        },
        Face::U => {
            assert(p[0] == 9);
            assert(p[1] == 10);
            assert(p[2] == 11);
            assert(p[3] == 3);
            assert(p[4] == 4);
            assert(p[5] == 5);
            assert(p[6] == 6);
            assert(p[7] == 7);
            assert(p[8] == 8);
            assert(p[9] == 18);
            assert(p[10] == 19);
            assert(p[11] == 20);
            assert(p[12] == 12);
            assert(p[13] == 13);
            assert(p[14] == 14);
            assert(p[15] == 15);
            assert(p[16] == 16);
            assert(p[17] == 17);
            assert(p[18] == 27);
            assert(p[19] == 28);
            assert(p[20] == 29);
            assert(p[21] == 21);
            assert(p[22] == 22);
            assert(p[23] == 23);
            assert(p[24] == 24);
            assert(p[25] == 25);
            assert(p[26] == 26);
            assert(p[27] == 0);
            assert(p[28] == 1);
            assert(p[29] == 2);
            assert(p[30] == 30);
            assert(p[31] == 31);
            assert(p[32] == 32);
            assert(p[33] == 33);
            assert(p[34] == 34);
            assert(p[35] == 35);
            assert(p[36] == 42);
            assert(p[37] == 39);
            assert(p[38] == 36);
            assert(p[39] == 43);
            assert(p[40] == 40);
            assert(p[41] == 37);
            assert(p[42] == 44);
            assert(p[43] == 41);
            assert(p[44] == 38);
            assert(p[45] == 45);
            assert(p[46] == 46);
            assert(p[47] == 47);
            assert(p[48] == 48);
            assert(p[49] == 49);
            assert(p[50] == 50);
            assert(p[51] == 51);
            assert(p[52] == 52);
            assert(p[53] == 53);
        },
        Face::D => {
            assert(p[0] == 0);
            assert(p[1] == 1);
            assert(p[2] == 2);
            assert(p[3] == 3);
            assert(p[4] == 4);
            assert(p[5] == 5);
            assert(p[6] == 33);
            assert(p[7] == 34);
            assert(p[8] == 35);
            assert(p[9] == 9);
            assert(p[10] == 10);
            assert(p[11] == 11);
            assert(p[12] == 12);
            assert(p[13] == 13);
            assert(p[14] == 14);
            assert(p[15] == 6);
            assert(p[16] == 7);
            assert(p[17] == 8);
            assert(p[18] == 18);
            assert(p[19] == 19);
            assert(p[20] == 20);
            assert(p[21] == 21);
            assert(p[22] == 22);
            assert(p[23] == 23);
            assert(p[24] == 15);
            assert(p[25] == 16);
            assert(p[26] == 17);
            assert(p[27] == 27);
            assert(p[28] == 28);
            assert(p[29] == 29);
            assert(p[30] == 30);
            assert(p[31] == 31);
            assert(p[32] == 32);
            assert(p[33] == 24);
            assert(p[34] == 25);
            assert(p[35] == 26);
            assert(p[36] == 36);
            assert(p[37] == 37);
            assert(p[38] == 38);
            assert(p[39] == 39);
            assert(p[40] == 40);
            assert(p[41] == 41);
            assert(p[42] == 42);
            assert(p[43] == 43);
            assert(p[44] == 44);
            assert(p[45] == 51);
            assert(p[46] == 48);
            assert(p[47] == 45);
            assert(p[48] == 52);
            assert(p[49] == 49);
            assert(p[50] == 46);
            assert(p[51] == 53);
            assert(p[52] == 50);
            assert(p[53] == 47);
        },
    }
    assert forall|i: int| 0 <= i < 54 implies #[trigger] p[i] < 54 by {
        if i == 0 {} else if i == 1 {} else if i == 2 {} else if i == 3 {} else if i == 4 {} else if i == 5 {} else if i == 6 {} else if i == 7 {} else if i == 8 {} else if i == 9 {} else if i == 10 {} else if i == 11 {} else if i == 12 {} else if i == 13 {} else if i == 14 {} else if i == 15 {} else if i == 16 {} else if i == 17 {} else if i == 18 {} else if i == 19 {} else if i == 20 {} else if i == 21 {} else if i == 22 {} else if i == 23 {} else if i == 24 {} else if i == 25 {} else if i == 26 {} else if i == 27 {} else if i == 28 {} else if i == 29 {} else if i == 30 {} else if i == 31 {} else if i == 32 {} else if i == 33 {} else if i == 34 {} else if i == 35 {} else if i == 36 {} else if i == 37 {} else if i == 38 {} else if i == 39 {} else if i == 40 {} else if i == 41 {} else if i == 42 {} else if i == 43 {} else if i == 44 {} else if i == 45 {} else if i == 46 {} else if i == 47 {} else if i == 48 {} else if i == 49 {} else if i == 50 {} else if i == 51 {} else if i == 52 {} else {}
    }
    assert forall|v: int| 0 <= v < 54 implies #[trigger] follow(p, v, 4) == v by {
        if v == 0 {} else if v == 1 {} else if v == 2 {} else if v == 3 {} else if v == 4 {} else if v == 5 {} else if v == 6 {} else if v == 7 {} else if v == 8 {} else if v == 9 {} else if v == 10 {} else if v == 11 {} else if v == 12 {} else if v == 13 {} else if v == 14 {} else if v == 15 {} else if v == 16 {} else if v == 17 {} else if v == 18 {} else if v == 19 {} else if v == 20 {} else if v == 21 {} else if v == 22 {} else if v == 23 {} else if v == 24 {} else if v == 25 {} else if v == 26 {} else if v == 27 {} else if v == 28 {} else if v == 29 {} else if v == 30 {} else if v == 31 {} else if v == 32 {} else if v == 33 {} else if v == 34 {} else if v == 35 {} else if v == 36 {} else if v == 37 {} else if v == 38 {} else if v == 39 {} else if v == 40 {} else if v == 41 {} else if v == 42 {} else if v == 43 {} else if v == 44 {} else if v == 45 {} else if v == 46 {} else if v == 47 {} else if v == 48 {} else if v == 49 {} else if v == 50 {} else if v == 51 {} else if v == 52 {} else {}
    }
}

/// The first facelet of face `f`: a corner, which its quarter turn moves.
pub open spec fn face_corner(f: Face) -> int {
    match f {
        Face::F => 0,
        Face::B => 18,
        Face::R => 9,
        Face::L => 27,
        Face::U => 36,
        Face::D => 45,
    }
}

/// Each generator of the catalog is a bijection of order exactly four: four
/// quarter turns of a face restore the cube, and fewer do not.
pub proof fn law_generator_order(f: Face)
    ensures
        table_spec(f).len() == FACELETS,
        is_bijection(table_spec(f)),
        is_order(table_spec(f), 4),
{
    let p = table_spec(f);
    let c = face_corner(f);
    lemma_table_walks(f);
    assert forall|a: int, b: int| 0 <= a < 54 && 0 <= b < 54 && a != b implies #[trigger] p[a] != #[trigger] p[b] by {
        if p[a] == p[b] {
            lemma_follow_add(p, a, 1, 3);
            lemma_follow_add(p, b, 1, 3);
            assert(follow(p, a, 0) == a);
            assert(follow(p, b, 0) == b);
            assert(follow(p, a, 4) == a);
            assert(follow(p, b, 4) == b);
        }
    }
    lemma_power_identity(p, 4);
    assert forall|j: nat| 0 < j < 4 implies power_seq(p, j) != identity_seq(p.len()) by {
        lemma_power_follow(p, j);
        assert(power_seq(p, j)[c] as int == follow(p, c, j));
    }
}

/// Every table of the catalog is a bijection.
pub proof fn law_tables_valid()
    ensures
        tables_valid(),
{
    assert forall|f: Face| is_bijection(#[trigger] table_spec(f)) by {
        law_generator_order(f);
    }
}

/// Every table of the catalog is a bijection on the facelets.
pub open spec fn tables_valid() -> bool {
    forall|f: Face| is_bijection(#[trigger] table_spec(f))
}

/// The face that a one-letter generator name denotes.
pub open spec fn face_named(name: Seq<char>) -> Option<Face> {
    if name == seq!['F'] {
        Some(Face::F)
    } else if name == seq!['B'] {
        Some(Face::B)
    } else if name == seq!['R'] {
        Some(Face::R)
    } else if name == seq!['L'] {
        Some(Face::L)
    } else if name == seq!['U'] {
        Some(Face::U)
    } else if name == seq!['D'] {
        Some(Face::D)
    } else {
        None
    }
}

impl Face {
    /// Looks up a generator name: one of `F`, `B`, `R`, `L`, `U`, `D`.
    pub fn from_name(name: &str) -> (r: Option<Face>)
        ensures
            r == face_named(name@),
    {
        if name.unicode_len() != 1 {
            return None;
        }
        let c = name.get_char(0);
        proof {
            assert(name@ =~= seq![c]);
        }
        if c == 'F' {
            Some(Face::F)
        } else if c == 'B' {
            Some(Face::B)
        } else if c == 'R' {
            Some(Face::R)
        } else if c == 'L' {
            Some(Face::L)
        } else if c == 'U' {
            Some(Face::U)
        } else if c == 'D' {
            Some(Face::D)
        } else {
            None
        }
    }
}

/// Whether `g` has order exactly `n`: its `n`-th power is the identity,
/// and its order, found from its cycles, is `n` itself and not a divisor of it.
pub fn verify_generator_order(g: &Permutation, n: u64) -> (r: bool)
    requires
        g.wf(),
    ensures
        r <==> is_order(g@, n as nat),
{
    let closes = g.power(n).is_identity();
    proof {
        lemma_power_follow(g@, n as nat);
    }
    let exact = match g.order() {
        Some(k) => {
            proof {
                if is_order(g@, n as nat) && k != n {
                    if k < n {
                        assert(power_seq(g@, k as nat) == identity_seq(g@.len()));
                    } else {
                        assert(power_seq(g@, n as nat) == identity_seq(g@.len()));
                    }
                }
            }
            k == n
        },
        None => false,
    };
    closes && exact
}

/// The six generators, each validated as a bijection when the catalog is built.
pub struct RotationCatalog {
    front: Permutation,
    back: Permutation,
    right: Permutation,
    left: Permutation,
    up: Permutation,
    down: Permutation,
}

impl RotationCatalog {
    /// The generator of face `f`, as a sequence.
    pub closed spec fn generator_spec(&self, f: Face) -> Seq<usize> {
        match f {
            Face::F => self.front@,
            Face::B => self.back@,
            Face::R => self.right@,
            Face::L => self.left@,
            Face::U => self.up@,
            Face::D => self.down@,
        }
    }

    /// Each generator is the validated table of its face.
    pub open spec fn wf(&self) -> bool {
        &&& tables_valid()
        &&& forall|f: Face| #[trigger] self.generator_spec(f) == table_spec(f)
    }

    /// Builds the catalog, validating every table; fails with
    /// `InvalidPermutation` when one of them is not a bijection.
    pub fn new() -> (r: Result<RotationCatalog, PermError>)
        ensures
            r is Ok,
            r is Ok <==> tables_valid(),
            r matches Ok(c) ==> c.wf(),
            r is Err ==> r->Err_0 == PermError::InvalidPermutation,
    {
        proof {
            law_tables_valid();
        }
        let front = Permutation::new(table(Face::F));
        let back = Permutation::new(table(Face::B));
        let right = Permutation::new(table(Face::R));
        let left = Permutation::new(table(Face::L));
        let up = Permutation::new(table(Face::U));
        let down = Permutation::new(table(Face::D));
        match (front, back, right, left, up, down) {
            (Ok(front), Ok(back), Ok(right), Ok(left), Ok(up), Ok(down)) => {
                let c = RotationCatalog { front, back, right, left, up, down };
                assert forall|f: Face| is_bijection(#[trigger] table_spec(f)) by {
                    assert(c.generator_spec(f) == table_spec(f));
                }
                Ok(c)
            },
            _ => {
                proof {
                    if tables_valid() {
                        assert(is_bijection(table_spec(Face::F)));
                        assert(is_bijection(table_spec(Face::B)));
                        assert(is_bijection(table_spec(Face::R)));
                        assert(is_bijection(table_spec(Face::L)));
                        assert(is_bijection(table_spec(Face::U)));
                        assert(is_bijection(table_spec(Face::D)));
                    }
                }
                Err(PermError::InvalidPermutation)
            },
        }
    }

    /// Whether every generator has order exactly four.
    pub fn verify_orders(&self) -> (r: bool)
        requires
            self.wf(),
        ensures
            r <==> forall|f: Face| is_order(#[trigger] table_spec(f), 4),
    {
        let faces = [Face::F, Face::B, Face::R, Face::L, Face::U, Face::D];
        let mut i: usize = 0;
        while i < 6
            invariant
                self.wf(),
                0 <= i <= 6,
                faces@ == seq![Face::F, Face::B, Face::R, Face::L, Face::U, Face::D],
                forall|j: int| 0 <= j < i ==> is_order(#[trigger] table_spec(faces@[j]), 4),
            decreases 6 - i,
        {
            if !verify_generator_order(self.generator(faces[i]), 4) {
                return false;
            }
            i = i + 1;
        }
        assert forall|f: Face| is_order(#[trigger] table_spec(f), 4) by {
            match f {
                Face::F => assert(table_spec(faces@[0]) == table_spec(f)),
                Face::B => assert(table_spec(faces@[1]) == table_spec(f)),
                Face::R => assert(table_spec(faces@[2]) == table_spec(f)),
                Face::L => assert(table_spec(faces@[3]) == table_spec(f)),
                Face::U => assert(table_spec(faces@[4]) == table_spec(f)),
                Face::D => assert(table_spec(faces@[5]) == table_spec(f)),
            }
        }
        true
    }

    /// The generator that turns face `f`.
    pub fn generator(&self, f: Face) -> (r: &Permutation)
        requires
            self.wf(),
        ensures
            r@ == table_spec(f),
            r@.len() == FACELETS,
            r.wf(),
    {
        proof {
            law_generator_order(f);
        }
        assert(self.generator_spec(f) == table_spec(f));
        match f {
            Face::F => &self.front,
            Face::B => &self.back,
            Face::R => &self.right,
            Face::L => &self.left,
            Face::U => &self.up,
            Face::D => &self.down,
        }
    }
}

} // verus!
