//! The unfolded net of a labeling, as text.
//!
//! Three rows of the up face, indented; then three rows that each hold a row
//! of the left, front, right and back faces, in that order; then three rows
//! of the down face, indented. Values are written in decimal, separated by one
//! space within a face and by two between faces; every row ends in a newline.
use vstd::prelude::*;
use crate::catalog::FACELETS;

verus! {

/// The number of rows of the net.
pub const NET_ROWS: usize = 9;

/// How many values row `r` of the net holds.
pub open spec fn row_len(r: int) -> int {
    if 3 <= r < 6 {
        12
    } else {
        3
    }
}

/// The first facelet of the face drawn in column group `g` of the middle rows.
pub open spec fn middle_face_base(g: int) -> int {
    if g == 0 {
        27
    } else if g == 1 {
        0
    } else if g == 2 {
        9
    } else {
        18
    }
}

/// The facelet whose label stands at place `k` of row `r`.
pub open spec fn net_source(r: int, k: int) -> int {
    if r < 3 {
        36 + 3 * r + k
    } else if r < 6 {
        middle_face_base(k / 3) + 3 * (r - 3) + k % 3
    } else {
        45 + 3 * (r - 6) + k
    }
}

/// The character of the decimal digit `d`.
pub open spec fn digit(d: nat) -> char {
    if d == 0 {
        '0'
    } else if d == 1 {
        '1'
    } else if d == 2 {
        '2'
    } else if d == 3 {
        '3'
    } else if d == 4 {
        '4'
    } else if d == 5 {
        '5'
    } else if d == 6 {
        '6'
    } else if d == 7 {
        '7'
    } else if d == 8 {
        '8'
    } else {
        '9'
    }
}

/// `n` in decimal, without leading zeros.
pub open spec fn decimal(n: nat) -> Seq<char>
    decreases n,
{
    if n < 10 {
        seq![digit(n)]
    } else {
        decimal(n / 10).push(digit(n % 10))
    }
}

/// What stands before place `k` of row `r`.
pub open spec fn separator(r: int, k: int) -> Seq<char> {
    if k == 0 {
        if 3 <= r < 6 {
            seq![]
        } else {
            seq![' ', ' ', ' ', ' ']
        }
    } else if k % 3 == 0 {
        seq![' ', ' ']
    } else {
        seq![' ']
    }
}

/// The first `k` places of row `r`, with their separators.
pub open spec fn row_prefix(labels: Seq<usize>, r: int, k: nat) -> Seq<char>
    decreases k,
{
    if k == 0 {
        seq![]
    } else {
        let j = k - 1;
        row_prefix(labels, r, j as nat) + separator(r, j) + decimal(labels[net_source(r, j)] as nat)
    }
}

/// The first `r` rows of the net, each ending in a newline.
pub open spec fn net_text(labels: Seq<usize>, r: nat) -> Seq<char>
    decreases r,
{
    if r == 0 {
        seq![]
    } else {
        let i = r - 1;
        net_text(labels, i as nat) + row_prefix(labels, i, row_len(i) as nat) + seq!['\n']
    }
}

/// The facelet whose label stands at place `k` of row `r`.
pub fn net_index(r: usize, k: usize) -> (i: usize)
    requires
        r < NET_ROWS,
        k < row_len(r as int),
    ensures
        i == net_source(r as int, k as int),
        i < FACELETS,
{
    if r < 3 {
        36 + 3 * r + k
    } else if r < 6 {
        let g = k / 3;
        let base: usize = if g == 0 {
            27
        } else if g == 1 {
            0
        } else if g == 2 {
            9
        } else {
            18
        };
        base + 3 * (r - 3) + k % 3
    } else {
        45 + 3 * (r - 6) + k
    }
}

/// The labels of the net, row by row.
pub fn net_rows(labels: &Vec<usize>) -> (rows: Vec<Vec<usize>>)
    requires
        labels@.len() == FACELETS,
    ensures
        rows@.len() == NET_ROWS,
        forall|r: int| 0 <= r < NET_ROWS ==> (#[trigger] rows@[r])@.len() == row_len(r),
        forall|r: int, k: int|
            0 <= r < NET_ROWS && 0 <= k < row_len(r) ==> #[trigger] rows@[r]@[k] == labels@[net_source(r, k)],
{
    let mut rows: Vec<Vec<usize>> = Vec::new();
    let mut r: usize = 0;
    while r < NET_ROWS
        invariant
            labels@.len() == FACELETS,
            0 <= r <= NET_ROWS,
            rows@.len() == r,
            forall|q: int| 0 <= q < r ==> (#[trigger] rows@[q])@.len() == row_len(q),
            forall|q: int, k: int|
                0 <= q < r && 0 <= k < row_len(q) ==> #[trigger] rows@[q]@[k] == labels@[net_source(q, k)],
        decreases NET_ROWS - r,
    {
        let len: usize = if 3 <= r && r < 6 {
            12
        } else {
            3
        };
        let mut row: Vec<usize> = Vec::new();
        let mut k: usize = 0;
        while k < len
            invariant
                labels@.len() == FACELETS,
                0 <= r < NET_ROWS,
                len == row_len(r as int),
                0 <= k <= len,
                row@.len() == k,
                forall|j: int| 0 <= j < k ==> row@[j] == labels@[net_source(r as int, j)],
            decreases len - k,
        {
            let i = net_index(r, k);
            row.push(labels[i]);
            k = k + 1;
        }
        rows.push(row);
        r = r + 1;
    }
    rows
}

fn digit_char(d: usize) -> (c: char)
    requires
        d < 10,
    ensures
        c == digit(d as nat),
{
    if d == 0 {
        '0'
    } else if d == 1 {
        '1'
    } else if d == 2 {
        '2'
    } else if d == 3 {
        '3'
    } else if d == 4 {
        '4'
    } else if d == 5 {
        '5'
    } else if d == 6 {
        '6'
    } else if d == 7 {
        '7'
    } else if d == 8 {
        '8'
    } else {
        '9'
    }
}

/// Appends `n` in decimal.
fn push_decimal(out: &mut Vec<char>, n: usize)
    ensures
        final(out)@ == old(out)@ + decimal(n as nat),
    decreases n,
{
    if n >= 10 {
        push_decimal(out, n / 10);
    }
    out.push(digit_char(n % 10));
    proof {
        if n < 10 {
            assert(n % 10 == n);
        }
        assert(old(out)@ + decimal(n as nat) =~= final(out)@) by {
            if n >= 10 {
                assert(decimal(n as nat) == decimal((n / 10) as nat).push(digit((n % 10) as nat)));
            }
        }
    }
}

fn push_str(out: &mut Vec<char>, s: &Vec<char>)
    ensures
        final(out)@ == old(out)@ + s@,
{
    let mut i: usize = 0;
    while i < s.len()
        invariant
            0 <= i <= s@.len(),
            out@ == old(out)@ + s@.subrange(0, i as int),
        decreases s@.len() - i,
    {
        out.push(s[i]);
        i = i + 1;
        assert(out@ =~= old(out)@ + s@.subrange(0, i as int));
    }
    assert(s@.subrange(0, s@.len() as int) =~= s@);
}

/// Relies on `String::from_iter` over chars: the string holds the characters in order.
#[verifier::external_body]
fn chars_to_string(v: &Vec<char>) -> (s: String)
    ensures
        s@ == v@,
{
    String::from_iter(v.iter())
}

/// The net of `labels` as text.
pub fn render_net(labels: &Vec<usize>) -> (text: String)
    requires
        labels@.len() == FACELETS,
    ensures
        text@ == net_text(labels@, NET_ROWS as nat),
{
    let rows = net_rows(labels);
    let mut out: Vec<char> = Vec::new();
    let indent: Vec<char> = vec![' ', ' ', ' ', ' '];
    let one: Vec<char> = vec![' '];
    let two: Vec<char> = vec![' ', ' '];
    let mut r: usize = 0;
    while r < NET_ROWS
        invariant
            labels@.len() == FACELETS,
            rows@.len() == NET_ROWS,
            forall|q: int| 0 <= q < NET_ROWS ==> (#[trigger] rows@[q])@.len() == row_len(q),
            forall|q: int, k: int|
                0 <= q < NET_ROWS && 0 <= k < row_len(q) ==> #[trigger] rows@[q]@[k] == labels@[net_source(q, k)],
            indent@ == seq![' ', ' ', ' ', ' '],
            one@ == seq![' '],
            two@ == seq![' ', ' '],
            0 <= r <= NET_ROWS,
            out@ == net_text(labels@, r as nat),
        decreases NET_ROWS - r,
    {
        let row = &rows[r];
        let ghost start = out@;
        let mut k: usize = 0;
        while k < row.len()
            invariant
                labels@.len() == FACELETS,
                0 <= r < NET_ROWS,
                row@.len() == row_len(r as int),
                forall|j: int| 0 <= j < row_len(r as int) ==> row@[j] == labels@[net_source(r as int, j)],
                indent@ == seq![' ', ' ', ' ', ' '],
                one@ == seq![' '],
                two@ == seq![' ', ' '],
                0 <= k <= row@.len(),
                out@ == start + row_prefix(labels@, r as int, k as nat),
            decreases row@.len() - k,
        {
            let ghost before = out@;
            if k == 0 {
                if !(3 <= r && r < 6) {
                    push_str(&mut out, &indent);
                }
            } else if k % 3 == 0 {
                push_str(&mut out, &two);
            } else {
                push_str(&mut out, &one);
            }
            assert(out@ == before + separator(r as int, k as int));
            push_decimal(&mut out, row[k]);
            k = k + 1;
            assert(out@ =~= start + row_prefix(labels@, r as int, k as nat));
        }
        out.push('\n');
        r = r + 1;
        assert(out@ =~= net_text(labels@, r as nat));
    }
    chars_to_string(&out)
}

} // verus!
