use vstd::arithmetic::div_mod::{lemma_fundamental_div_mod, lemma_fundamental_div_mod_converse};
use vstd::prelude::*;

verus! {

/// Width, in pixels, of a new document's image.
pub const DEFAULT_WIDTH: usize = 800;

/// Height, in pixels, of a new document's image.
pub const DEFAULT_HEIGHT: usize = 600;

/// A rectangular grid of RGBA pixels, stored row by row, four bytes per pixel.
#[derive(Debug)]
pub struct PixelBuffer {
    pub pixels: Vec<u8>,
    pub width: usize,
    pub height: usize,
}

/// Offset of channel `ch` of pixel `(col, row)` in an image `width` pixels wide.
pub open spec fn byte_offset(width: int, col: int, row: int, ch: int) -> int {
    (row * width + col) * 4 + ch
}

/// Column of the pixel that byte `i` belongs to.
pub open spec fn byte_col(width: int, i: int) -> int {
    (i / 4) % width
}

/// Row of the pixel that byte `i` belongs to.
pub open spec fn byte_row(width: int, i: int) -> int {
    (i / 4) / width
}

/// Channel (0 red, 1 green, 2 blue, 3 alpha) that byte `i` holds.
pub open spec fn byte_channel(i: int) -> int {
    i % 4
}

/// How many of the `len` indices from `start` fall below `limit`.
pub open spec fn block_extent(start: int, len: int, limit: int) -> int {
    if start >= limit {
        0
    } else if start + len <= limit {
        len
    } else {
        limit - start
    }
}

pub proof fn lemma_byte_position(width: int, col: int, row: int, ch: int)
    requires
        0 <= col < width,
        0 <= row,
        0 <= ch < 4,
    ensures
        byte_col(width, byte_offset(width, col, row, ch)) == col,
        byte_row(width, byte_offset(width, col, row, ch)) == row,
        byte_channel(byte_offset(width, col, row, ch)) == ch,
{
    lemma_fundamental_div_mod_converse(byte_offset(width, col, row, ch), 4, row * width + col, ch);
    lemma_fundamental_div_mod_converse(row * width + col, width, row, col);
}

pub proof fn lemma_byte_decompose(width: int, i: int)
    requires
        width > 0,
        i >= 0,
    ensures
        i == byte_offset(width, byte_col(width, i), byte_row(width, i), byte_channel(i)),
        0 <= byte_col(width, i) < width,
        0 <= byte_row(width, i),
        0 <= byte_channel(i) < 4,
{
    lemma_fundamental_div_mod(i, 4);
    lemma_fundamental_div_mod(i / 4, width);
    assert(i / 4 == (i / 4) / width * width + (i / 4) % width) by (nonlinear_arith)
        requires
            i / 4 == width * ((i / 4) / width) + (i / 4) % width,
    ;
}

impl PixelBuffer {
    /// The byte vector holds exactly four bytes for each pixel.
    pub open spec fn wf(&self) -> bool {
        self.pixels@.len() == self.width * self.height * 4
    }

    /// A `width × height` image with every pixel set to `color`.
    pub fn filled(width: usize, height: usize, color: [u8; 4]) -> (r: Self)
        requires
            width * height * 4 <= usize::MAX,
        ensures
            r.wf(),
            r.width == width,
            r.height == height,
            forall|i: int| 0 <= i < r.pixels@.len() ==> r.pixels@[i] == color@[byte_channel(i)],
    {
        let len = width * height * 4;
        let mut pixels: Vec<u8> = Vec::new();
        let mut k: usize = 0;
        while k < len
            invariant
                k <= len,
                pixels@.len() == k,
                forall|i: int| 0 <= i < k ==> pixels@[i] == color@[byte_channel(i)],
            decreases len - k,
        {
            pixels.push(color[k % 4]);
            k = k + 1;
        }
        PixelBuffer { pixels, width, height }
    }

    /// Takes a `width × height` image whose RGBA bytes come row by row; `None`
    /// when the byte count does not match the size.
    pub fn from_rgba(width: usize, height: usize, pixels: Vec<u8>) -> (r: Option<Self>)
        ensures
            r.is_some() <==> pixels@.len() == width * height * 4,
            r matches Some(b) ==> b.wf() && b.width == width && b.height == height && b.pixels@
                == pixels@,
    {
        let plen = pixels.len();
        match width.checked_mul(height) {
            Some(n) => match n.checked_mul(4) {
                Some(len) => {
                    if plen == len {
                        Some(PixelBuffer { pixels, width, height })
                    } else {
                        None
                    }
                },
                None => {
                    None
                },
            },
            None => {
                assert(width * height * 4 > usize::MAX) by (nonlinear_arith)
                    requires
                        width * height > usize::MAX,
                ;
                None
            },
        }
    }

    /// Offset of the first byte (red) of pixel `(col, row)`.
    pub fn pixel_index(&self, col: usize, row: usize) -> (r: usize)
        requires
            self.wf(),
            col < self.width,
            row < self.height,
        ensures
            r == byte_offset(self.width as int, col as int, row as int, 0),
            r + 4 <= self.pixels@.len(),
    {
        let len = self.pixels.len();
        assert((row * self.width + col) * 4 + 4 <= self.width * self.height * 4) by (nonlinear_arith)
            requires
                col < self.width,
                row < self.height,
        ;
        assert(0 <= row * self.width) by (nonlinear_arith);
        (row * self.width + col) * 4
    }

    /// Sets pixel `(col, row)` to `color`; every other byte is kept.
    pub fn set_pixel(&mut self, col: usize, row: usize, color: [u8; 4])
        requires
            old(self).wf(),
            col < old(self).width,
            row < old(self).height,
        ensures
            final(self).wf(),
            final(self).width == old(self).width,
            final(self).height == old(self).height,
            final(self).pixels@.len() == old(self).pixels@.len(),
            forall|i: int|
                0 <= i < old(self).pixels@.len() ==> #[trigger] final(self).pixels@[i] == if byte_col(
                    old(self).width as int,
                    i,
                ) == col && byte_row(old(self).width as int, i) == row {
                    color@[byte_channel(i)]
                } else {
                    old(self).pixels@[i]
                },
    {
        let ghost w = self.width as int;
        let ghost before = self.pixels@;
        let base = self.pixel_index(col, row);
        proof {
            lemma_byte_position(w, col as int, row as int, 0);
            lemma_byte_position(w, col as int, row as int, 1);
            lemma_byte_position(w, col as int, row as int, 2);
            lemma_byte_position(w, col as int, row as int, 3);
        }
        self.pixels.set(base, color[0]);
        self.pixels.set(base + 1, color[1]);
        self.pixels.set(base + 2, color[2]);
        self.pixels.set(base + 3, color[3]);
        proof {
            assert forall|i: int| 0 <= i < before.len() implies #[trigger] self.pixels@[i] == if byte_col(
                w,
                i,
            ) == col && byte_row(w, i) == row {
                color@[byte_channel(i)]
            } else {
                before[i]
            } by {
                lemma_byte_decompose(w, i);
            }
        }
    }

    /// The positions `(col, row)` of the pixels of this image in the block of
    /// `width × height` pixels whose top-left corner is `(x, y)`, row by row,
    /// each row left to right. Positions outside the image are left out, so
    /// the block is cut to the image's bounds. The bytes of a position are
    /// reached through `pixel_index`.
    pub fn iter_block_mut(&self, x: usize, y: usize, width: usize, height: usize) -> (r: Vec<
        (usize, usize),
    >)
        requires
            x + width <= usize::MAX,
            y + height <= usize::MAX,
        ensures
            ({
                let cols = block_extent(x as int, width as int, self.width as int);
                let rows = block_extent(y as int, height as int, self.height as int);
                &&& r@.len() == cols * rows
                &&& forall|k: int|
                    0 <= k < r@.len() ==> #[trigger] r@[k] == ((x + k % cols) as usize, (y + k
                        / cols) as usize)
            }),
    {
        let ghost cols = block_extent(x as int, width as int, self.width as int);
        let ghost rows = block_extent(y as int, height as int, self.height as int);
        let x_end: usize = if x >= self.width {
            x
        } else if x + width <= self.width {
            x + width
        } else {
            self.width
        };
        let y_end: usize = if y >= self.height {
            y
        } else if y + height <= self.height {
            y + height
        } else {
            self.height
        };
        let mut r: Vec<(usize, usize)> = Vec::new();
        let mut row: usize = y;
        while row < y_end
            invariant
                y <= row <= y_end,
                x_end == x + cols,
                y_end == y + rows,
                cols >= 0,
                r@.len() == (row - y) * cols,
                forall|k: int|
                    0 <= k < r@.len() ==> #[trigger] r@[k] == ((x + k % cols) as usize, (y + k
                        / cols) as usize),
            decreases y_end - row,
        {
            let mut col: usize = x;
            while col < x_end
                invariant
                    x <= col <= x_end,
                    y <= row < y_end,
                    x_end == x + cols,
                    y_end == y + rows,
                    r@.len() == (row - y) * cols + (col - x),
                    forall|k: int|
                        0 <= k < r@.len() ==> #[trigger] r@[k] == ((x + k % cols) as usize, (y + k
                            / cols) as usize),
                decreases x_end - col,
            {
                proof {
                    lemma_fundamental_div_mod_converse(
                        r@.len() as int,
                        cols,
                        row - y,
                        col - x,
                    );
                }
                r.push((col, row));
                col = col + 1;
            }
            assert((row - y) * cols + cols == (row + 1 - y) * cols) by (nonlinear_arith);
            row = row + 1;
        }
        assert(rows * cols == cols * rows) by (nonlinear_arith);
        r
    }
}

impl Default for PixelBuffer {
    /// A new document's image: `DEFAULT_WIDTH × DEFAULT_HEIGHT` opaque white
    /// pixels.
    fn default() -> (r: Self)
        ensures
            r.wf(),
            r.width == DEFAULT_WIDTH,
            r.height == DEFAULT_HEIGHT,
            forall|i: int| 0 <= i < r.pixels@.len() ==> r.pixels@[i] == 255,
    {
        let r = PixelBuffer::filled(DEFAULT_WIDTH, DEFAULT_HEIGHT, [255u8, 255, 255, 255]);
        assert forall|i: int| 0 <= i < r.pixels@.len() implies r.pixels@[i] == 255 by {
            assert(0 <= byte_channel(i) < 4);
        }
        r
    }
}

} // verus!
