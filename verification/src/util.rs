//! Small utilities: a textual dump of a texture, and a three-way zip.

use vstd::prelude::*;

verus! {

/// The shading character for an alpha value.
pub open spec fn shade_of(alpha: u8) -> char {
    if alpha > 204 {
        '\u{2588}'
    } else if alpha > 153 {
        '\u{2593}'
    } else if alpha > 102 {
        '\u{2592}'
    } else if alpha > 51 {
        '\u{2591}'
    } else {
        ' '
    }
}

/// The character the rendering holds at a flat index: the top frame row,
/// then one framed row of shading cells per pixel row, then the bottom
/// frame row; every line is `width + 2` frame/cell characters plus a
/// newline, and cell (i, j) is the shade of the alpha channel of pixel
/// (i, j).
pub open spec fn texture_char(width: nat, height: nat, data: Seq<u8>, idx: int) -> char {
    let w3 = width + 3;
    let row = idx / w3 as int;
    let col = idx % w3 as int;
    if row == 0 {
        if col == 0 {
            '\u{250c}'
        } else if col == width + 1 {
            '\u{2510}'
        } else if col == width + 2 {
            '\n'
        } else {
            '\u{2500}'
        }
    } else if row == height + 1 {
        if col == 0 {
            '\u{2514}'
        } else if col == width + 1 {
            '\u{2518}'
        } else if col == width + 2 {
            '\n'
        } else {
            '\u{2500}'
        }
    } else {
        if col == 0 || col == width + 1 {
            '\u{2502}'
        } else if col == width + 2 {
            '\n'
        } else {
            shade_of(data[4 * ((row - 1) * width + (col - 1)) + 3])
        }
    }
}

/// Renders an RGBA texture as rows of shading characters in a box frame:
/// the result is exactly `(width + 3) * (height + 2)` characters, and the
/// character at every index is pinned by [`texture_char`] — frame corners,
/// bars, newlines, and one alpha-channel shade per pixel.
#[verifier::loop_isolation(false)]
pub fn ansi_texture(width: usize, height: usize, data: &Vec<u8>) -> (r: Vec<char>)
    requires
        width * height * 4 <= data@.len(),
        (width + 3) * (height + 2) <= usize::MAX,
    ensures
        r@.len() == (width + 3) * (height + 2),
        forall|idx: int|
            0 <= idx < r@.len() ==> r@[idx] == texture_char(
                width as nat,
                height as nat,
                data@,
                idx,
            ),
{
    proof {
        assert(width + 3 <= (width + 3) * (height + 2) && height + 2 <= (width + 3) * (height
            + 2)) by (nonlinear_arith);
    }
    let w3 = width + 3;
    let total = w3 * (height + 2);
    let dlen: usize = data.len();
    let mut out: Vec<char> = Vec::new();
    let mut idx: usize = 0;
    while idx < total
        invariant
            0 <= idx <= total,
            out@.len() == idx,
            forall|q: int|
                0 <= q < idx ==> out@[q] == texture_char(width as nat, height as nat, data@, q),
        decreases total - idx,
    {
        let row = idx / w3;
        let col = idx % w3;
        proof {
            assert(row < height + 2) by (nonlinear_arith)
                requires
                    idx < total,
                    total == w3 * (height + 2),
                    w3 == width + 3,
                    row == idx / w3,
            ;
            assert(col < w3) by (nonlinear_arith)
                requires
                    w3 > 0,
                    col == idx % w3,
            ;
        }
        let c: char = if row == 0 {
            if col == 0 {
                '\u{250c}'
            } else if col == width + 1 {
                '\u{2510}'
            } else if col == width + 2 {
                '\n'
            } else {
                '\u{2500}'
            }
        } else if row == height + 1 {
            if col == 0 {
                '\u{2514}'
            } else if col == width + 1 {
                '\u{2518}'
            } else if col == width + 2 {
                '\n'
            } else {
                '\u{2500}'
            }
        } else {
            if col == 0 || col == width + 1 {
                '\u{2502}'
            } else if col == width + 2 {
                '\n'
            } else {
                proof {
                    assert((row - 1) * width <= width * height && (row - 1) * width + (col - 1)
                        < width * height && 4 * ((row - 1) * width + (col - 1)) + 3 < width
                        * height * 4) by (nonlinear_arith)
                        requires
                            1 <= row < height + 1,
                            1 <= col < width + 1,
                    ;
                    assert(width * height * 4 <= dlen);
                }
                let a = data[4 * ((row - 1) * width + (col - 1)) + 3];
                if a > 204 {
                    '\u{2588}'
                } else if a > 153 {
                    '\u{2593}'
                } else if a > 102 {
                    '\u{2592}'
                } else if a > 51 {
                    '\u{2591}'
                } else {
                    ' '
                }
            }
        };
        out.push(c);
        idx = idx + 1;
    }
    out
}

/// Parses a four-character due date "ddmm" (bytes) into its day and month.
/// Anything but four digits, or a day above 31 or month above 12, is
/// rejected.
pub fn due_parts(due: &Vec<u8>) -> (r: Option<(u32, u32)>)
    ensures
        r is Some <==> (due@.len() == 4 && (forall|q: int|
            0 <= q < 4 ==> 48 <= #[trigger] due@[q] <= 57) && (due@[0] - 48) * 10 + (due@[1] - 48)
            <= 31 && (due@[2] - 48) * 10 + (due@[3] - 48) <= 12),
        r is Some ==> ({
            let (d, m) = r->0;
            d == (due@[0] - 48) * 10 + (due@[1] - 48) && m == (due@[2] - 48) * 10 + (due@[3]
                - 48)
        }),
{
    if due.len() != 4 {
        return None;
    }
    let mut q: usize = 0;
    while q < 4
        invariant
            0 <= q <= 4,
            due@.len() == 4,
            forall|u: int| 0 <= u < q ==> 48 <= #[trigger] due@[u] <= 57,
        decreases 4 - q,
    {
        if due[q] < 48 || due[q] > 57 {
            return None;
        }
        q = q + 1;
    }
    let day = (due[0] - 48) as u32 * 10 + (due[1] - 48) as u32;
    let month = (due[2] - 48) as u32 * 10 + (due[3] - 48) as u32;
    if day > 31 || month > 12 {
        return None;
    }
    Some((day, month))
}

/// Whether a due (month, day) has already passed relative to today's
/// (month, day) — then the due date falls in the next year.
pub fn due_in_next_year(month: u32, day: u32, today_month: u32, today_day: u32) -> (r: bool)
    ensures
        r == (month < today_month || (month == today_month && day < today_day)),
{
    month < today_month || (month == today_month && day < today_day)
}

/// Pairs the fronts of three vectors, with a running index.
pub struct TupleIterStruct3<X1, X2, X3> {
    idx: usize,
    i1: Vec<X1>,
    i2: Vec<X2>,
    i3: Vec<X3>,
}

impl<X1, X2, X3> TupleIterStruct3<X1, X2, X3> {
    /// How far the zip has advanced.
    pub closed spec fn idx_v(self) -> nat {
        self.idx as nat
    }

    /// What remains of the three inputs.
    pub closed spec fn remaining(self) -> (Seq<X1>, Seq<X2>, Seq<X3>) {
        (self.i1@, self.i2@, self.i3@)
    }

    /// The next triple, with its index, while all three inputs have one.
    pub fn next(&mut self) -> (r: Option<(usize, X1, X2, X3)>)
        requires
            old(self).idx_v() < usize::MAX,
        ensures
            r is Some <==> (old(self).remaining().0.len() > 0 && old(self).remaining().1.len() > 0
                && old(self).remaining().2.len() > 0),
            r is Some ==> {
                let (n, x1, x2, x3) = r->0;
                n == old(self).idx_v() && x1 == old(self).remaining().0[0] && x2 == old(
                    self,
                ).remaining().1[0] && x3 == old(self).remaining().2[0] && final(self).idx_v() == n
                    + 1 && final(self).remaining().0 == old(self).remaining().0.subrange(
                    1,
                    old(self).remaining().0.len() as int,
                ) && final(self).remaining().1 == old(self).remaining().1.subrange(
                    1,
                    old(self).remaining().1.len() as int,
                ) && final(self).remaining().2 == old(self).remaining().2.subrange(
                    1,
                    old(self).remaining().2.len() as int,
                )
            },
            r is None ==> *final(self) == *old(self),
    {
        if self.i1.len() == 0 || self.i2.len() == 0 || self.i3.len() == 0 {
            return None;
        }
        let x1 = self.i1.remove(0);
        let x2 = self.i2.remove(0);
        let x3 = self.i3.remove(0);
        let n = self.idx;
        self.idx = self.idx + 1;
        Some((n, x1, x2, x3))
    }
}

/// Zips three vectors front to front, enumerating the triples.
pub fn zip3<X1, X2, X3>(i1: Vec<X1>, i2: Vec<X2>, i3: Vec<X3>) -> (r: TupleIterStruct3<
    X1,
    X2,
    X3,
>)
    ensures
        r.idx_v() == 0,
        r.remaining().0 == i1@,
        r.remaining().1 == i2@,
        r.remaining().2 == i3@,
{
    TupleIterStruct3 { idx: 0, i1, i2, i3 }
}

} // verus!
