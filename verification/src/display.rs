use vstd::prelude::*;
use crate::consts::{WIDTH, HEIGHT, WHITE_PIXEL, BLACK_PIXEL};

verus! {

/// The fixed 5-byte glyph sprites for the hexadecimal digits 0 through F,
/// preloaded into low memory on reset.
pub open spec fn sprite_data() -> Seq<u8> {
    seq![
        0xF0u8, 0x90, 0x90, 0x90, 0xF0, // 0
        0x20, 0x60, 0x20, 0x20, 0x70, // 1
        0xF0, 0x10, 0xF0, 0x80, 0xF0, // 2
        0xF0, 0x10, 0xF0, 0x10, 0xF0, // 3
        0x90, 0x90, 0xF0, 0x10, 0x10, // 4
        0xF0, 0x80, 0xF0, 0x10, 0xF0, // 5
        0xF0, 0x80, 0xF0, 0x90, 0xF0, // 6
        0xF0, 0x10, 0x20, 0x40, 0x40, // 7
        0xF0, 0x90, 0xF0, 0x90, 0xF0, // 8
        0xF0, 0x90, 0xF0, 0x10, 0xF0, // 9
        0xF0, 0x90, 0xF0, 0x90, 0x90, // A
        0xE0, 0x90, 0xE0, 0x90, 0xE0, // B
        0xF0, 0x80, 0x80, 0x80, 0xF0, // C
        0xE0, 0x90, 0x90, 0x90, 0xE0, // D
        0xF0, 0x80, 0xF0, 0x80, 0xF0, // E
        0xF0, 0x80, 0xF0, 0x80, 0x80, // F
    ]
}

/// The glyph table as an executable vector, 16 glyphs of 5 bytes each.
pub fn sprites() -> (r: Vec<u8>)
    ensures
        r@ == sprite_data(),
{
    let mut v: Vec<u8> = Vec::new();
    v.push(0xF0); v.push(0x90); v.push(0x90); v.push(0x90); v.push(0xF0);
    v.push(0x20); v.push(0x60); v.push(0x20); v.push(0x20); v.push(0x70);
    v.push(0xF0); v.push(0x10); v.push(0xF0); v.push(0x80); v.push(0xF0);
    v.push(0xF0); v.push(0x10); v.push(0xF0); v.push(0x10); v.push(0xF0);
    v.push(0x90); v.push(0x90); v.push(0xF0); v.push(0x10); v.push(0x10);
    v.push(0xF0); v.push(0x80); v.push(0xF0); v.push(0x10); v.push(0xF0);
    v.push(0xF0); v.push(0x80); v.push(0xF0); v.push(0x90); v.push(0xF0);
    v.push(0xF0); v.push(0x10); v.push(0x20); v.push(0x40); v.push(0x40);
    v.push(0xF0); v.push(0x90); v.push(0xF0); v.push(0x90); v.push(0xF0);
    v.push(0xF0); v.push(0x90); v.push(0xF0); v.push(0x10); v.push(0xF0);
    v.push(0xF0); v.push(0x90); v.push(0xF0); v.push(0x90); v.push(0x90);
    v.push(0xE0); v.push(0x90); v.push(0xE0); v.push(0x90); v.push(0xE0);
    v.push(0xF0); v.push(0x80); v.push(0x80); v.push(0x80); v.push(0xF0);
    v.push(0xE0); v.push(0x90); v.push(0x90); v.push(0x90); v.push(0xE0);
    v.push(0xF0); v.push(0x80); v.push(0xF0); v.push(0x80); v.push(0xF0);
    v.push(0xF0); v.push(0x80); v.push(0xF0); v.push(0x80); v.push(0x80);
    proof {
        assert(v@ =~= sprite_data());
    }
    v
}

/// The display with every cell off.
pub open spec fn all_off() -> Seq<bool> {
    Seq::new((WIDTH * HEIGHT) as nat, |k: int| false)
}

/// Index of the cell at column `cx`, row `cy` in the flattened grid.
pub open spec fn cell_index(cx: int, cy: int) -> int {
    cx + cy * (WIDTH as int)
}

/// Whether bit `i` (counted from the leftmost, most significant bit) of a
/// sprite row byte is set.
pub open spec fn row_bit(row: u8, i: int) -> bool {
    (row >> ((7 - i) as u8)) & 1u8 == 1u8
}

/// Toggles one cell of the grid.
pub open spec fn toggle(d: Seq<bool>, idx: int) -> Seq<bool> {
    d.update(idx, !d[idx])
}

/// Blits the first `i` bits of one sprite row onto the grid at columns
/// `x..x+i` (mod the width) of row `cy`. Returns the new grid and whether
/// any toggled cell was already lit.
pub open spec fn blit_row(d: Seq<bool>, x: int, cy: int, row: u8, i: nat) -> (Seq<bool>, bool)
    decreases i,
{
    if i == 0 {
        (d, false)
    } else {
        let prev = blit_row(d, x, cy, row, (i - 1) as nat);
        if row_bit(row, i - 1) {
            let idx = cell_index((x + i - 1) % (WIDTH as int), cy);
            (toggle(prev.0, idx), prev.1 || prev.0[idx])
        } else {
            prev
        }
    }
}

/// Blits the first `j` rows of a sprite onto the grid, row `j'` landing at
/// grid row `(y + j') mod HEIGHT`. Returns the new grid and whether any
/// toggled cell was already lit.
pub open spec fn blit(d: Seq<bool>, x: int, y: int, sprite: Seq<u8>, j: nat) -> (Seq<bool>, bool)
    decreases j,
{
    if j == 0 {
        (d, false)
    } else {
        let prev = blit(d, x, y, sprite, (j - 1) as nat);
        let r = blit_row(prev.0, x, (y + j - 1) % (HEIGHT as int), sprite[j - 1], 8);
        (r.0, prev.1 || r.1)
    }
}

/// The full effect of drawing a sprite: the new grid and the collision flag.
pub open spec fn draw_spec(d: Seq<bool>, x: int, y: int, sprite: Seq<u8>) -> (Seq<bool>, bool) {
    blit(d, x, y, sprite, sprite.len())
}

/// Whether blitting the first `i` bits of one row at columns starting at
/// `x` of grid row `cy` toggles cell `k`.
pub open spec fn row_hits(x: int, cy: int, row: u8, i: nat, k: int) -> bool {
    exists|b: int|
        0 <= b < i && #[trigger] row_bit(row, b) && k == cell_index((x + b) % (WIDTH as int), cy)
}

/// How many rows of the first `j` sprite rows toggle cell `k`.
pub open spec fn hits_count(x: int, y: int, sprite: Seq<u8>, j: nat, k: int) -> nat
    decreases j,
{
    if j == 0 {
        0
    } else {
        hits_count(x, y, sprite, (j - 1) as nat, k) + (if row_hits(
            x,
            (y + j - 1) % (HEIGHT as int),
            sprite[j - 1],
            8,
            k,
        ) {
            1nat
        } else {
            0nat
        })
    }
}

/// Two distinct offsets less than the grid width land on distinct columns,
/// whatever the base column.
proof fn lemma_mod64_distinct(x: int, a: int, b: int)
    requires
        0 <= a < b,
        b - a < 64,
    ensures
        (x + a) % 64 != (x + b) % 64,
{
    vstd::arithmetic::div_mod::lemma_fundamental_div_mod(x + a, 64);
    vstd::arithmetic::div_mod::lemma_fundamental_div_mod(x + b, 64);
}

/// Pointwise effect of blitting one row: each cell hit by a set bit is
/// toggled exactly once, and a collision is reported exactly when some hit
/// cell was already lit.
proof fn lemma_blit_row_char(d: Seq<bool>, x: int, cy: int, row: u8, i: nat)
    requires
        d.len() == WIDTH * HEIGHT,
        0 <= cy < HEIGHT,
        i <= 8,
    ensures
        blit_row(d, x, cy, row, i).0.len() == d.len(),
        forall|k: int|
            0 <= k < d.len() ==> blit_row(d, x, cy, row, i).0[k] == (if row_hits(x, cy, row, i, k) {
                !d[k]
            } else {
                d[k]
            }),
        blit_row(d, x, cy, row, i).1 == exists|b: int|
            0 <= b < i && #[trigger] row_bit(row, b) && d[cell_index(
                (x + b) % (WIDTH as int),
                cy,
            )],
    decreases i,
{
    if i == 0 {
        assert(forall|k: int| 0 <= k < d.len() ==> !row_hits(x, cy, row, 0, k));
    } else {
        let im1 = (i - 1) as nat;
        lemma_blit_row_char(d, x, cy, row, im1);
        let prev = blit_row(d, x, cy, row, im1);
        if row_bit(row, i - 1) {
            let idx = cell_index((x + i - 1) % (WIDTH as int), cy);
            assert forall|b: int| 0 <= b < i - 1 && row_bit(row, b) implies cell_index(
                (x + b) % (WIDTH as int),
                cy,
            ) != idx by {
                lemma_mod64_distinct(x, b, i - 1);
            }
            assert(!row_hits(x, cy, row, im1, idx));
            assert(prev.0[idx] == d[idx]);
            assert(row_hits(x, cy, row, i, idx));
            assert forall|k: int| 0 <= k < d.len() && k != idx implies row_hits(x, cy, row, i, k)
                == row_hits(x, cy, row, im1, k) by {
                if row_hits(x, cy, row, i, k) {
                    let b = choose|b: int|
                        0 <= b < i && #[trigger] row_bit(row, b) && k == cell_index(
                            (x + b) % (WIDTH as int),
                            cy,
                        );
                    assert(b != i - 1);
                    assert(row_hits(x, cy, row, im1, k));
                }
            }
            // collision equivalence
            assert(blit_row(d, x, cy, row, i).1 == (prev.1 || d[idx]));
            if prev.1 {
                let b = choose|b: int|
                    0 <= b < im1 && #[trigger] row_bit(row, b) && d[cell_index(
                        (x + b) % (WIDTH as int),
                        cy,
                    )];
                assert(0 <= b < i && row_bit(row, b) && d[cell_index((x + b) % (WIDTH as int), cy)]);
            } else if d[idx] {
                assert(0 <= i - 1 < i && row_bit(row, i - 1) && d[cell_index(
                    (x + i - 1) % (WIDTH as int),
                    cy,
                )]);
            }
            if !(prev.1 || d[idx]) {
                assert forall|b: int|
                    0 <= b < i && #[trigger] row_bit(row, b) implies !d[cell_index(
                        (x + b) % (WIDTH as int),
                        cy,
                    )] by {
                    if b == i - 1 {
                        assert(!d[idx]);
                    }
                }
            }
        } else {
            assert forall|k: int| 0 <= k < d.len() implies row_hits(x, cy, row, i, k) == row_hits(
                x,
                cy,
                row,
                im1,
                k,
            ) by {
                if row_hits(x, cy, row, i, k) {
                    let b = choose|b: int|
                        0 <= b < i && #[trigger] row_bit(row, b) && k == cell_index(
                            (x + b) % (WIDTH as int),
                            cy,
                        );
                    assert(b != i - 1);
                }
            }
            if blit_row(d, x, cy, row, i).1 {
                let b = choose|b: int|
                    0 <= b < im1 && #[trigger] row_bit(row, b) && d[cell_index(
                        (x + b) % (WIDTH as int),
                        cy,
                    )];
                assert(0 <= b < i && row_bit(row, b) && d[cell_index((x + b) % (WIDTH as int), cy)]);
            }
            if exists|b: int|
                0 <= b < i && #[trigger] row_bit(row, b) && d[cell_index(
                    (x + b) % (WIDTH as int),
                    cy,
                )] {
                let b = choose|b: int|
                    0 <= b < i && #[trigger] row_bit(row, b) && d[cell_index(
                        (x + b) % (WIDTH as int),
                        cy,
                    )];
                assert(b != i - 1);
                assert(0 <= b < im1 && row_bit(row, b) && d[cell_index(
                    (x + b) % (WIDTH as int),
                    cy,
                )]);
            }
        }
    }
}

/// Pointwise effect of a whole blit: a cell ends toggled exactly when an
/// odd number of sprite rows hit it.
proof fn lemma_blit_char(d: Seq<bool>, x: int, y: int, sprite: Seq<u8>, j: nat)
    requires
        d.len() == WIDTH * HEIGHT,
    ensures
        blit(d, x, y, sprite, j).0.len() == d.len(),
        forall|k: int|
            0 <= k < d.len() ==> blit(d, x, y, sprite, j).0[k] == (if hits_count(x, y, sprite, j, k)
                % 2 == 1 {
                !d[k]
            } else {
                d[k]
            }),
    decreases j,
{
    if j > 0 {
        let jm1 = (j - 1) as nat;
        lemma_blit_char(d, x, y, sprite, jm1);
        let prev = blit(d, x, y, sprite, jm1);
        let cy = (y + j - 1) % (HEIGHT as int);
        lemma_blit_row_char(prev.0, x, cy, sprite[j - 1], 8);
    }
}

/// A blit that toggles some already-lit cell reports a collision.
proof fn lemma_blit_detects(d: Seq<bool>, x: int, y: int, sprite: Seq<u8>, j: nat, k: int)
    requires
        d.len() == WIDTH * HEIGHT,
        0 <= k < d.len(),
        d[k],
        hits_count(x, y, sprite, j, k) >= 1,
    ensures
        blit(d, x, y, sprite, j).1,
    decreases j,
{
    let jm1 = (j - 1) as nat;
    if hits_count(x, y, sprite, jm1, k) >= 1 {
        lemma_blit_detects(d, x, y, sprite, jm1, k);
    } else {
        lemma_blit_char(d, x, y, sprite, jm1);
        let prev = blit(d, x, y, sprite, jm1);
        let cy = (y + j - 1) % (HEIGHT as int);
        lemma_blit_row_char(prev.0, x, cy, sprite[j - 1], 8);
        assert(row_hits(x, cy, sprite[j - 1], 8, k));
        let b = choose|b: int|
            0 <= b < 8 && #[trigger] row_bit(sprite[j - 1], b) && k == cell_index(
                (x + b) % (WIDTH as int),
                cy,
            );
        assert(prev.0[k] == d[k]);
        assert(0 <= b < 8 && row_bit(sprite[j - 1], b) && prev.0[cell_index(
            (x + b) % (WIDTH as int),
            cy,
        )]);
        assert(blit_row(prev.0, x, cy, sprite[j - 1], 8).1);
    }
}

/// Law: drawing the same sprite twice at the same position restores the
/// display to what it was before the first draw.
pub proof fn lemma_draw_self_inverse(d: Seq<bool>, x: int, y: int, sprite: Seq<u8>)
    requires
        d.len() == WIDTH * HEIGHT,
    ensures
        draw_spec(draw_spec(d, x, y, sprite).0, x, y, sprite).0 == d,
{
    lemma_blit_char(d, x, y, sprite, sprite.len());
    let d1 = draw_spec(d, x, y, sprite).0;
    lemma_blit_char(d1, x, y, sprite, sprite.len());
    assert(draw_spec(d1, x, y, sprite).0 =~= d);
}

/// Law: when a draw turns some cell from off to on, drawing the same
/// sprite again at the same position reports a collision.
pub proof fn lemma_draw_again_collides(d: Seq<bool>, x: int, y: int, sprite: Seq<u8>, k: int)
    requires
        d.len() == WIDTH * HEIGHT,
        0 <= k < d.len(),
        !d[k],
        draw_spec(d, x, y, sprite).0[k],
    ensures
        draw_spec(draw_spec(d, x, y, sprite).0, x, y, sprite).1,
{
    lemma_blit_char(d, x, y, sprite, sprite.len());
    let d1 = draw_spec(d, x, y, sprite).0;
    assert(hits_count(x, y, sprite, sprite.len(), k) % 2 == 1);
    lemma_blit_detects(d1, x, y, sprite, sprite.len(), k);
}

/// A monochrome grid of `WIDTH x HEIGHT` cells, stored as one rendered
/// colour word per cell. The logical state of a cell is whether it holds
/// the lit colour.
pub struct Display {
    pub buffer: Vec<u32>,
}

impl View for Display {
    type V = Seq<bool>;

    open spec fn view(&self) -> Seq<bool> {
        self.buffer@.map(|k: int, c: u32| c == WHITE_PIXEL)
    }
}

impl Display {
    /// The buffer has exactly one word per cell and every word is one of
    /// the two cell colours.
    pub open spec fn wf(&self) -> bool {
        &&& self.buffer@.len() == WIDTH * HEIGHT
        &&& forall|k: int|
            0 <= k < self.buffer@.len() ==> (self.buffer@[k] == WHITE_PIXEL || self.buffer@[k]
                == BLACK_PIXEL)
    }

    /// A fresh display with every cell off.
    pub fn new() -> (d: Display)
        ensures
            d.wf(),
            d@ == all_off(),
    {
        let mut buffer: Vec<u32> = Vec::new();
        let mut k: usize = 0;
        while k < WIDTH * HEIGHT
            invariant
                k <= WIDTH * HEIGHT,
                buffer@.len() == k,
                forall|j: int| 0 <= j < k ==> buffer@[j] == BLACK_PIXEL,
            decreases WIDTH * HEIGHT - k,
        {
            buffer.push(BLACK_PIXEL);
            k += 1;
        }
        let d = Display { buffer };
        proof {
            assert(d@ =~= all_off());
        }
        d
    }

    /// Sets one cell directly to on or off.
    pub fn set_pixel(&mut self, x: usize, y: usize, on: bool)
        requires
            old(self).wf(),
            x < WIDTH,
            y < HEIGHT,
        ensures
            final(self).wf(),
            final(self)@ == old(self)@.update(cell_index(x as int, y as int), on),
    {
        self.buffer[x + y * WIDTH] = if on {
            WHITE_PIXEL
        } else {
            BLACK_PIXEL
        };
        proof {
            assert(self@ =~= old(self)@.update(cell_index(x as int, y as int), on));
        }
    }

    /// Reads one cell.
    pub fn get_pixel(&mut self, x: usize, y: usize) -> (on: bool)
        requires
            old(self).wf(),
            x < WIDTH,
            y < HEIGHT,
        ensures
            *final(self) == *old(self),
            on == old(self)@[cell_index(x as int, y as int)],
    {
        self.buffer[x + y * WIDTH] == WHITE_PIXEL
    }

    /// Blits a sprite at `(x, y)`: each byte is one row of 8 bits, a set bit
    /// toggles the cell under it, and both coordinates wrap around the grid.
    /// Returns true iff some toggled cell was already lit.
    pub fn draw(&mut self, x: usize, y: usize, sprite: &[u8]) -> (collision: bool)
        requires
            old(self).wf(),
            x + 8 <= usize::MAX,
            y + sprite@.len() <= usize::MAX,
        ensures
            final(self).wf(),
            final(self)@ == draw_spec(old(self)@, x as int, y as int, sprite@).0,
            collision == draw_spec(old(self)@, x as int, y as int, sprite@).1,
    {
        let rows = sprite.len();
        let mut collision = false;
        let mut j: usize = 0;
        while j < rows
            invariant
                self.wf(),
                j <= rows,
                rows == sprite@.len(),
                x + 8 <= usize::MAX,
                y + rows <= usize::MAX,
                self@ == blit(old(self)@, x as int, y as int, sprite@, j as nat).0,
                collision == blit(old(self)@, x as int, y as int, sprite@, j as nat).1,
            decreases rows - j,
        {
            let row = sprite[j];
            let cy = (y + j) % HEIGHT;
            let ghost entry = blit(old(self)@, x as int, y as int, sprite@, j as nat);
            let mut i: usize = 0;
            while i < 8
                invariant
                    self.wf(),
                    i <= 8,
                    j < rows,
                    rows == sprite@.len(),
                    row == sprite@[j as int],
                    x + 8 <= usize::MAX,
                    y + rows <= usize::MAX,
                    cy as int == (y as int + j as int) % (HEIGHT as int),
                    entry == blit(old(self)@, x as int, y as int, sprite@, j as nat),
                    self@ == blit_row(entry.0, x as int, cy as int, row, i as nat).0,
                    collision == (entry.1 || blit_row(entry.0, x as int, cy as int, row, i as nat).1),
                decreases 8 - i,
            {
                let sh: u8 = (7 - i) as u8;
                let val = (row >> sh) & 0x01;
                if val == 1 {
                    let xi = (x + i) % WIDTH;
                    let oval = self.get_pixel(xi, cy);
                    if oval {
                        collision = true;
                    }
                    self.set_pixel(xi, cy, !oval);
                }
                i += 1;
            }
            j += 1;
        }
        collision
    }

    /// Read-only view of the rendered buffer, one colour word per cell.
    pub fn get_buffer(&self) -> (r: &[u32])
        ensures
            r@ == self.buffer@,
    {
        self.buffer.as_slice()
    }

    /// Sets every cell to off.
    pub fn cls(&mut self)
        requires
            old(self).wf(),
        ensures
            final(self).wf(),
            final(self)@ == all_off(),
    {
        let mut k: usize = 0;
        while k < WIDTH * HEIGHT
            invariant
                old(self).wf(),
                k <= WIDTH * HEIGHT,
                self.buffer@.len() == WIDTH * HEIGHT,
                forall|j: int|
                    0 <= j < self.buffer@.len() ==> (self.buffer@[j] == WHITE_PIXEL
                        || self.buffer@[j] == BLACK_PIXEL),
                forall|j: int| 0 <= j < k ==> self.buffer@[j] == BLACK_PIXEL,
            decreases WIDTH * HEIGHT - k,
        {
            self.buffer[k] = BLACK_PIXEL;
            k += 1;
        }
        proof {
            assert(self@ =~= all_off());
        }
    }
}

} // verus!
