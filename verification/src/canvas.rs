//! The pixel canvas: a fixed-size grid of colours with in-place writes
//! and the plain-text image encoding.
//!
//! The encoding is `P3`, width and height, the maximum channel value 255,
//! then one encoded colour per line, row zero first, each line closed by a
//! newline.  A write outside the grid is a silent no-op: callers compute
//! pixel coordinates from world coordinates and may land outside by
//! rounding.

use vstd::prelude::*;
use vstd::string::StringExecFns;
use crate::colour::{Colour, channel_spec, encode_spec, is_black};
use crate::text::{
    count_char, dec_spec, lemma_count_char_concat, lemma_count_char_singleton,
    lemma_dec_spec_count, push_dec,
};

verus! {

/// The characters `P3`, then width and height, then `255`, on three
/// newline-closed lines.
pub open spec fn header_chars(w: int, h: int) -> Seq<char> {
    seq!['P', '3', '\n'] + dec_spec(w) + seq![' '] + dec_spec(h) + seq!['\n'] + dec_spec(255)
        + seq!['\n']
}

/// One row of the body: each pixel's encoding closed by a newline.
pub open spec fn row_chars(row: Seq<Colour>) -> Seq<char>
    decreases row.len(),
{
    if row.len() == 0 {
        Seq::empty()
    } else {
        row_chars(row.drop_last()) + encode_spec(row.last()) + seq!['\n']
    }
}

/// The whole body: the rows in order.
pub open spec fn body_chars(rows: Seq<Seq<Colour>>) -> Seq<char>
    decreases rows.len(),
{
    if rows.len() == 0 {
        Seq::empty()
    } else {
        body_chars(rows.drop_last()) + row_chars(rows.last())
    }
}

/// The full encoding: header then body.
pub open spec fn ppm_chars(rows: Seq<Seq<Colour>>, w: int, h: int) -> Seq<char> {
    header_chars(w, h) + body_chars(rows)
}

/// A fixed `W` by `H` grid of colours, addressed by `(x, y)` with `x`
/// running along a row.
pub struct Canvas<const W: usize, const H: usize> {
    rows: Vec<Vec<Colour>>,
}

impl<const W: usize, const H: usize> Canvas<W, H> {
    /// The stored grid, row by row.
    pub closed spec fn grid(self) -> Seq<Seq<Colour>> {
        self.rows@.map_values(|r: Vec<Colour>| r@)
    }

    /// True when the grid has exactly `H` rows of `W` pixels.
    pub open spec fn wf(self) -> bool {
        self.grid().len() == H && forall|i: int| 0 <= i < H ==> self.grid()[i].len() == W
    }

    /// The colour stored at `(w, h)`.
    pub fn get(self, w: usize, h: usize) -> (c: Colour)
        requires
            self.wf(),
            w < W,
            h < H,
        ensures
            c == self.grid()[h as int][w as int],
    {
        proof {
            assert(self.grid().len() == self.rows@.len());
            assert(self.grid()[h as int] =~= self.rows@[h as int]@);
        }
        self.rows[h][w]
    }

    /// Overwrites the pixel at `(w, h)` when it lies inside the grid;
    /// outside, the canvas is left exactly as it was.
    pub fn set(&mut self, w: usize, h: usize, colour: Colour)
        requires
            old(self).wf(),
        ensures
            final(self).wf(),
            w < W && h < H ==> final(self).grid() == old(self).grid().update(
                h as int,
                old(self).grid()[h as int].update(w as int, colour),
            ),
            !(w < W && h < H) ==> *final(self) == *old(self),
    {
        if w < W && h < H {
            proof {
                assert(self.grid().len() == self.rows@.len());
                assert(self.grid()[h as int] =~= self.rows@[h as int]@);
            }
            self.rows[h][w] = colour;
            proof {
                assert(self.grid() =~= old(self).grid().update(
                    h as int,
                    old(self).grid()[h as int].update(w as int, colour),
                ));
            }
        }
    }

    /// The plain-text image: header, then every pixel's encoded colour on
    /// its own line, row zero first.
    pub fn to_ppm(self) -> (s: String)
        requires
            self.wf(),
        ensures
            s@ == ppm_chars(self.grid(), W as int, H as int),
    {
        let mut s = String::new();
        proof {
            reveal_strlit("P3\n");
            reveal_strlit(" ");
            reveal_strlit("\n");
        }
        s.append("P3\n");
        push_dec(&mut s, W as u128);
        s.append(" ");
        push_dec(&mut s, H as u128);
        s.append("\n");
        push_dec(&mut s, 255);
        s.append("\n");
        proof {
            assert(s@ =~= header_chars(W as int, H as int));
        }
        let ghost header = s@;
        let mut y: usize = 0;
        proof {
            assert(self.grid().take(0) =~= Seq::<Seq<Colour>>::empty());
        }
        while y < H
            invariant
                self.wf(),
                y <= H,
                header == header_chars(W as int, H as int),
                s@ == header + body_chars(self.grid().take(y as int)),
            decreases H - y,
        {
            let mut x: usize = 0;
            let ghost row_start = s@;
            proof {
                assert(self.grid()[y as int].take(0) =~= Seq::<Colour>::empty());
            }
            while x < W
                invariant
                    self.wf(),
                    y < H,
                    x <= W,
                    row_start == header + body_chars(self.grid().take(y as int)),
                    header == header_chars(W as int, H as int),
                    s@ == row_start + row_chars(self.grid()[y as int].take(x as int)),
                decreases W - x,
            {
                proof {
                    assert(self.grid().len() == self.rows@.len());
                    assert(self.grid()[y as int] =~= self.rows@[y as int]@);
                }
                let pix: Colour = self.rows[y][x];
                let enc = pix.encode();
                s.append(enc.as_str());
                proof {
                    reveal_strlit("\n");
                }
                s.append("\n");
                proof {
                    let row = self.grid()[y as int];
                    assert(row.take(x + 1).drop_last() =~= row.take(x as int));
                    assert(row.take(x + 1).last() == pix);
                    assert(s@ =~= row_start + row_chars(row.take(x + 1)));
                }
                x = x + 1;
            }
            proof {
                let g = self.grid();
                assert(g[y as int].take(W as int) =~= g[y as int]);
                assert(g.take(y + 1).drop_last() =~= g.take(y as int));
                assert(g.take(y + 1).last() == g[y as int]);
                assert(s@ =~= header + body_chars(g.take(y + 1)));
            }
            y = y + 1;
        }
        proof {
            assert(self.grid().take(H as int) =~= self.grid());
        }
        s
    }
}

/// An encoded pixel line holds no newline of its own.
proof fn lemma_encode_no_newline(px: Colour)
    ensures
        count_char(encode_spec(px), '\n') == 0,
{
    let sp = seq![' '];
    lemma_count_char_singleton(' ', '\n');
    lemma_dec_spec_count(channel_spec(px.r.val()), '\n');
    lemma_dec_spec_count(channel_spec(px.g.val()), '\n');
    lemma_dec_spec_count(channel_spec(px.b.val()), '\n');
    lemma_count_char_concat(dec_spec(channel_spec(px.r.val())), sp, '\n');
    lemma_count_char_concat(dec_spec(channel_spec(px.r.val())) + sp, dec_spec(
        channel_spec(px.g.val()),
    ), '\n');
    lemma_count_char_concat(dec_spec(channel_spec(px.r.val())) + sp + dec_spec(
        channel_spec(px.g.val()),
    ), sp, '\n');
    lemma_count_char_concat(dec_spec(channel_spec(px.r.val())) + sp + dec_spec(
        channel_spec(px.g.val()),
    ) + sp, dec_spec(channel_spec(px.b.val())), '\n');
}

/// A row of the body holds exactly one newline per pixel.
proof fn lemma_row_count(row: Seq<Colour>)
    ensures
        count_char(row_chars(row), '\n') == row.len(),
    decreases row.len(),
{
    if row.len() > 0 {
        lemma_row_count(row.drop_last());
        lemma_encode_no_newline(row.last());
        let nl = seq!['\n'];
        lemma_count_char_singleton('\n', '\n');
        lemma_count_char_concat(row_chars(row.drop_last()), encode_spec(row.last()), '\n');
        lemma_count_char_concat(row_chars(row.drop_last()) + encode_spec(row.last()), nl, '\n');
    }
}

/// The body of a `w` by `h` grid holds exactly `w * h` newlines: one per
/// pixel line.
proof fn lemma_body_count(rows: Seq<Seq<Colour>>, w: int)
    requires
        forall|i: int| 0 <= i < rows.len() ==> (#[trigger] rows[i]).len() == w,
    ensures
        count_char(body_chars(rows), '\n') == w * rows.len(),
    decreases rows.len(),
{
    if rows.len() == 0 {
        assert(w * 0 == 0) by (nonlinear_arith);
    } else {
        lemma_body_count(rows.drop_last(), w);
        lemma_row_count(rows.last());
        lemma_count_char_concat(body_chars(rows.drop_last()), row_chars(rows.last()), '\n');
        assert(w * (rows.len() - 1) + w == w * rows.len()) by (nonlinear_arith);
    }
}

/// The shape of every encoded image: it begins with the `P3` header for
/// its dimensions, and after the header's three lines the body holds
/// exactly one newline-closed line per pixel — `w * h` of them.
pub proof fn lemma_ppm_shape(rows: Seq<Seq<Colour>>, w: int, h: int)
    requires
        0 <= w,
        rows.len() == h,
        forall|i: int| 0 <= i < rows.len() ==> (#[trigger] rows[i]).len() == w,
    ensures
        ppm_chars(rows, w, h).take(header_chars(w, h).len() as int) == header_chars(w, h),
        count_char(ppm_chars(rows, w, h), '\n') == count_char(header_chars(w, h), '\n') + w * h,
        count_char(body_chars(rows), '\n') == w * h,
        count_char(header_chars(w, h), '\n') == 3,
{
    assert(ppm_chars(rows, w, h).take(header_chars(w, h).len() as int) =~= header_chars(w, h));
    lemma_body_count(rows, w);
    lemma_count_char_concat(header_chars(w, h), body_chars(rows), '\n');
    let nl = seq!['\n'];
    let sp = seq![' '];
    let p3 = seq!['P', '3', '\n'];
    lemma_count_char_singleton('\n', '\n');
    lemma_count_char_singleton(' ', '\n');
    lemma_count_char_singleton('P', '\n');
    lemma_count_char_singleton('3', '\n');
    assert(count_char(p3, '\n') == 1) by {
        assert(p3 =~= seq!['P'] + seq!['3'] + seq!['\n']);
        lemma_count_char_concat(seq!['P'], seq!['3'], '\n');
        lemma_count_char_concat(seq!['P'] + seq!['3'], seq!['\n'], '\n');
    }
    lemma_dec_spec_count(w, '\n');
    lemma_dec_spec_count(h, '\n');
    lemma_dec_spec_count(255, '\n');
    lemma_count_char_concat(p3, dec_spec(w), '\n');
    lemma_count_char_concat(p3 + dec_spec(w), sp, '\n');
    lemma_count_char_concat(p3 + dec_spec(w) + sp, dec_spec(h), '\n');
    lemma_count_char_concat(p3 + dec_spec(w) + sp + dec_spec(h), nl, '\n');
    lemma_count_char_concat(p3 + dec_spec(w) + sp + dec_spec(h) + nl, dec_spec(255), '\n');
    lemma_count_char_concat(p3 + dec_spec(w) + sp + dec_spec(h) + nl + dec_spec(255), nl, '\n');
}

/// Builds one all-black row of `W` pixels.
fn black_row<const W: usize>() -> (r: Vec<Colour>)
    ensures
        r@.len() == W,
        forall|i: int| 0 <= i < W ==> is_black(#[trigger] r@[i]),
{
    let mut r: Vec<Colour> = Vec::new();
    let mut i: usize = 0;
    while i < W
        invariant
            i <= W,
            r@.len() == i,
            forall|j: int| 0 <= j < i ==> is_black(#[trigger] r@[j]),
        decreases W - i,
    {
        r.push(Colour::black());
        i = i + 1;
    }
    r
}

impl<const W: usize, const H: usize> Default for Canvas<W, H> {
    /// The all-black canvas.
    fn default() -> (c: Self)
        ensures
            c.wf(),
            forall|x: int, y: int|
                0 <= x < W && 0 <= y < H ==> is_black(#[trigger] c.grid()[y][x]),
    {
        let mut rows: Vec<Vec<Colour>> = Vec::new();
        let mut i: usize = 0;
        while i < H
            invariant
                i <= H,
                rows@.len() == i,
                forall|j: int| 0 <= j < i ==> (#[trigger] rows@[j])@.len() == W,
                forall|j: int, x: int|
                    0 <= j < i && 0 <= x < W ==> is_black(#[trigger] rows@[j]@[x]),
            decreases H - i,
        {
            rows.push(black_row::<W>());
            i = i + 1;
        }
        Canvas { rows }
    }
}

} // verus!
