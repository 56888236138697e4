//! Deterministic serialization of a game state into a bounded byte buffer:
//! a bordered grid with the active piece overlaid, a score line, and the
//! game-over banner, silently truncated at the buffer's capacity.

use vstd::prelude::*;

use crate::game::{covers, GameModel, TetrisGame, BOARD_WIDTH};

verus! {

/// A byte sequence truncated to a capacity.
pub open spec fn clip(s: Seq<u8>, cap: nat) -> Seq<u8> {
    if s.len() <= cap {
        s
    } else {
        s.take(cap as int)
    }
}

/// The bounded writer behind rendering: it accepts bytes up to its capacity
/// and silently drops everything past it, while recording the full unclipped
/// output for specification purposes.
pub struct RenderBuf {
    pub data: Vec<u8>,
    pub cap: usize,
    pub full: Ghost<Seq<u8>>,
}

impl RenderBuf {
    /// What was written so far, without the truncation.
    pub open spec fn written(&self) -> Seq<u8> {
        self.full@
    }

    /// The capacity the writer was created with.
    pub open spec fn capacity(&self) -> nat {
        self.cap as nat
    }

    /// The buffer holds exactly the written bytes, clipped to the capacity.
    pub open spec fn wf(&self) -> bool {
        self.data@ == clip(self.full@, self.cap as nat)
    }

    /// A fresh writer with nothing written.
    pub fn new(cap: usize) -> (s: RenderBuf)
        ensures
            s.wf(),
            s.written() == Seq::<u8>::empty(),
            s.capacity() == cap as nat,
    {
        let s = RenderBuf { data: Vec::new(), cap, full: Ghost(Seq::empty()) };
        proof {
            assert(s.data@ =~= clip(s.full@, s.cap as nat));
        }
        s
    }

    /// Append one byte; it is dropped if the buffer is at capacity.
    pub fn push_byte(&mut self, b: u8)
        requires
            old(self).wf(),
        ensures
            final(self).wf(),
            final(self).capacity() == old(self).capacity(),
            final(self).written() == old(self).written() + seq![b],
    {
        proof {
            assert(old(self).data@.len() == clip(old(self).full@, old(self).cap as nat).len());
        }
        let more = self.data.len() < self.cap;
        self.full = Ghost(self.full@ + seq![b]);
        if more {
            self.data.push(b);
            proof {
                assert(self.data@ =~= clip(self.full@, self.cap as nat));
            }
        } else {
            proof {
                assert(self.data@ =~= clip(self.full@, self.cap as nat));
            }
        }
    }

    /// Append bytes in order, dropping everything past the capacity.
    pub fn push_array<const N: usize>(&mut self, bs: [u8; N])
        requires
            old(self).wf(),
        ensures
            final(self).wf(),
            final(self).capacity() == old(self).capacity(),
            final(self).written() == old(self).written() + bs@,
    {
        let mut k: usize = 0;
        while k < N
            invariant
                k <= N,
                self.wf(),
                self.capacity() == old(self).capacity(),
                self.written() == old(self).written() + bs@.take(k as int),
            decreases N - k,
        {
            self.push_byte(bs[k]);
            proof {
                assert((old(self).written() + bs@.take(k as int)) + seq![bs@[k as int]] =~= old(
                    self,
                ).written() + bs@.take(k + 1));
            }
            k += 1;
        }
        proof {
            assert(bs@.take(N as int) =~= bs@);
        }
    }

    /// Hand out the clipped bytes.
    pub fn into_bytes(self) -> (out: Vec<u8>)
        requires
            self.wf(),
        ensures
            out@ == clip(self.written(), self.capacity()),
    {
        let RenderBuf { data, cap: _, full: _ } = self;
        data
    }
}

/// `n` repetitions of the three-byte horizontal border glyph.
pub open spec fn hglyphs(n: int) -> Seq<u8>
    decreases n,
{
    if n <= 0 {
        Seq::empty()
    } else {
        hglyphs(n - 1) + seq![0xE2u8, 0x95u8, 0x90u8]
    }
}

/// The top border line: corner, twenty horizontal glyphs, corner, newline.
pub open spec fn top_border_bytes() -> Seq<u8> {
    seq![0xE2u8, 0x95u8, 0x94u8] + hglyphs(20) + seq![0xE2u8, 0x95u8, 0x97u8, 0x0Au8]
}

/// The bottom border line: corner, twenty horizontal glyphs, corner, newline.
pub open spec fn bottom_border_bytes() -> Seq<u8> {
    seq![0xE2u8, 0x95u8, 0x9Au8] + hglyphs(20) + seq![0xE2u8, 0x95u8, 0x9Du8, 0x0Au8]
}

/// A cell's rendering: a two-column filled glyph or two spaces.
pub open spec fn cell_bytes(c: bool) -> Seq<u8> {
    if c {
        seq![0xE2u8, 0x96u8, 0x88u8, 0xE2u8, 0x96u8, 0x88u8]
    } else {
        seq![0x20u8, 0x20u8]
    }
}

/// The rendering of the first `n` cells of a row.
pub open spec fn cells_bytes(row: Seq<bool>, n: int) -> Seq<u8>
    decreases n,
{
    if n <= 0 {
        Seq::empty()
    } else {
        cells_bytes(row, n - 1) + cell_bytes(row[n - 1])
    }
}

/// One body row: left border, ten cells, right border, newline.
pub open spec fn row_bytes(row: Seq<bool>) -> Seq<u8> {
    seq![0xE2u8, 0x95u8, 0x91u8] + cells_bytes(row, 10) + seq![0xE2u8, 0x95u8, 0x91u8, 0x0Au8]
}

/// The rendering of the first `n` rows of the display grid.
pub open spec fn rows_bytes(g: Seq<Seq<bool>>, n: int) -> Seq<u8>
    decreases n,
{
    if n <= 0 {
        Seq::empty()
    } else {
        rows_bytes(g, n - 1) + row_bytes(g[n - 1])
    }
}

/// The decimal digits of `n`, most significant first; a single zero digit
/// for zero.
pub open spec fn dec_rep(n: nat) -> Seq<u8>
    decreases n,
{
    if n < 10 {
        seq![(0x30 + n) as u8]
    } else {
        dec_rep(n / 10) + seq![(0x30 + n % 10) as u8]
    }
}

/// The label of the score line.
pub open spec fn score_label_bytes() -> Seq<u8> {
    seq![0x53u8, 0x63u8, 0x6Fu8, 0x72u8, 0x65u8, 0x3Au8, 0x20u8]
}

/// The banner appended in a terminal state.
pub open spec fn game_over_bytes() -> Seq<u8> {
    seq![0x47u8, 0x41u8, 0x4Du8, 0x45u8, 0x20u8, 0x4Fu8, 0x56u8, 0x45u8, 0x52u8, 0x21u8, 0x0Au8]
}

/// The display grid: the locked cells with the active piece overlaid; the
/// stored board itself is never changed by rendering.
pub open spec fn display_grid(m: GameModel) -> Seq<Seq<bool>> {
    Seq::new(
        20,
        |y: int|
            Seq::new(
                10,
                |x: int| m.grid[y][x] || (m.piece matches Some(p) && covers(p, y, x)),
            ),
    )
}

/// The full rendering of a state, before any truncation: top border, twenty
/// body rows, bottom border, the score line, and the game-over banner in a
/// terminal state.
pub open spec fn render_bytes(m: GameModel) -> Seq<u8> {
    top_border_bytes() + rows_bytes(display_grid(m), 20) + bottom_border_bytes()
        + score_label_bytes() + dec_rep(m.score as nat) + seq![0x0Au8] + (if m.game_over {
        game_over_bytes()
    } else {
        Seq::<u8>::empty()
    })
}

/// Append twenty horizontal border glyphs, two per board column.
fn push_hline(buf: &mut RenderBuf)
    requires
        old(buf).wf(),
    ensures
        final(buf).wf(),
        final(buf).capacity() == old(buf).capacity(),
        final(buf).written() == old(buf).written() + hglyphs(20),
{
    let mut k: usize = 0;
    while k < BOARD_WIDTH
        invariant
            k <= 10,
            buf.wf(),
            buf.capacity() == old(buf).capacity(),
            buf.written() == old(buf).written() + hglyphs(2 * k),
        decreases 10 - k,
    {
        let ghost w0 = buf.written();
        let bs: [u8; 3] = [0xE2, 0x95, 0x90];
        proof {
            assert(bs@ =~= seq![0xE2u8, 0x95u8, 0x90u8]);
        }
        buf.push_array(bs);
        buf.push_array(bs);
        proof {
            assert(hglyphs(2 * k + 1) == hglyphs(2 * k) + seq![0xE2u8, 0x95u8, 0x90u8]);
            assert(hglyphs(2 * k + 2) == hglyphs(2 * k + 1) + seq![0xE2u8, 0x95u8, 0x90u8]);
            assert((w0 + bs@) + bs@ =~= old(buf).written() + hglyphs(2 * (k + 1)));
        }
        k += 1;
    }
}

/// Append the decimal digits of `n`, most significant first.
fn push_decimal(buf: &mut RenderBuf, n: u32)
    requires
        old(buf).wf(),
    ensures
        final(buf).wf(),
        final(buf).capacity() == old(buf).capacity(),
        final(buf).written() == old(buf).written() + dec_rep(n as nat),
    decreases n,
{
    if n >= 10 {
        push_decimal(buf, n / 10);
        buf.push_byte(0x30 + (n % 10) as u8);
        proof {
            assert((old(buf).written() + dec_rep((n / 10) as nat)) + seq![(0x30 + (n % 10)) as u8]
                =~= old(buf).written() + dec_rep(n as nat));
        }
    } else {
        buf.push_byte(0x30 + n as u8);
    }
}

impl TetrisGame {
    /// The display cell at `(y, x)`: the locked cell with the active piece
    /// overlaid.
    fn display_cell(&self, y: usize, x: usize) -> (c: bool)
        requires
            y < 20,
            x < 10,
        ensures
            c == display_grid(self.model())[y as int][x as int],
    {
        if self.board[y][x] {
            return true;
        }
        proof {
            assert(!self.model().grid[y as int][x as int]);
        }
        match self.current_piece {
            Some(p) => {
                let dy = y as i64 - p.y as i64;
                let dx = x as i64 - p.x as i64;
                if dy >= 0 && dy < 4 && dx >= 0 && dx < 4 {
                    let shape = p.get_shape();
                    let c = shape[dy as usize][dx as usize];
                    proof {
                        assert(c == crate::piece::mat_view(shape)[dy as int][dx as int]);
                    }
                    c
                } else {
                    false
                }
            },
            None => false,
        }
    }

    /// Append one body row of the display grid.
    fn push_row(&self, buf: &mut RenderBuf, y: usize)
        requires
            old(buf).wf(),
            y < 20,
        ensures
            final(buf).wf(),
            final(buf).capacity() == old(buf).capacity(),
            final(buf).written() == old(buf).written() + row_bytes(
                display_grid(self.model())[y as int],
            ),
    {
        let ghost row = display_grid(self.model())[y as int];
        let lb: [u8; 3] = [0xE2, 0x95, 0x91];
        proof {
            assert(lb@ =~= seq![0xE2u8, 0x95u8, 0x91u8]);
        }
        buf.push_array(lb);
        let mut x: usize = 0;
        while x < BOARD_WIDTH
            invariant
                x <= 10,
                y < 20,
                buf.wf(),
                buf.capacity() == old(buf).capacity(),
                row == display_grid(self.model())[y as int],
                buf.written() == old(buf).written() + seq![0xE2u8, 0x95u8, 0x91u8] + cells_bytes(
                    row,
                    x as int,
                ),
            decreases 10 - x,
        {
            let ghost w0 = buf.written();
            let c = self.display_cell(y, x);
            if c {
                let fb: [u8; 6] = [0xE2, 0x96, 0x88, 0xE2, 0x96, 0x88];
                proof {
                    assert(fb@ =~= cell_bytes(true));
                }
                buf.push_array(fb);
            } else {
                let eb: [u8; 2] = [0x20, 0x20];
                proof {
                    assert(eb@ =~= cell_bytes(false));
                }
                buf.push_array(eb);
            }
            proof {
                assert(cells_bytes(row, x + 1) == cells_bytes(row, x as int) + cell_bytes(row[x as int]));
                assert(w0 + cell_bytes(row[x as int]) =~= old(buf).written() + seq![0xE2u8, 0x95u8, 0x91u8]
                    + cells_bytes(row, x + 1));
            }
            x += 1;
        }
        let rb: [u8; 4] = [0xE2, 0x95, 0x91, 0x0A];
        proof {
            assert(rb@ =~= seq![0xE2u8, 0x95u8, 0x91u8, 0x0Au8]);
        }
        buf.push_array(rb);
        proof {
            assert((old(buf).written() + seq![0xE2u8, 0x95u8, 0x91u8] + cells_bytes(row, 10))
                + seq![0xE2u8, 0x95u8, 0x91u8, 0x0Au8] =~= old(buf).written() + row_bytes(row));
        }
    }

    /// Render the state into a buffer of the given capacity: the bordered
    /// grid with the active piece overlaid, the score line, and the
    /// game-over banner in a terminal state. Output beyond the capacity is
    /// silently dropped rather than reported as an error.
    pub fn render_to_buffer(&self, capacity: usize) -> (out: Vec<u8>)
        ensures
            out@ == clip(render_bytes(self.model()), capacity as nat),
            out@.len() <= capacity,
    {
        let ghost m = self.model();
        let mut buf = RenderBuf::new(capacity);

        let tl: [u8; 3] = [0xE2, 0x95, 0x94];
        proof {
            assert(tl@ =~= seq![0xE2u8, 0x95u8, 0x94u8]);
        }
        buf.push_array(tl);
        push_hline(&mut buf);
        let tr: [u8; 4] = [0xE2, 0x95, 0x97, 0x0A];
        proof {
            assert(tr@ =~= seq![0xE2u8, 0x95u8, 0x97u8, 0x0Au8]);
        }
        buf.push_array(tr);
        proof {
            assert(buf.written() =~= top_border_bytes());
        }

        let mut y: usize = 0;
        while y < 20
            invariant
                y <= 20,
                buf.wf(),
                buf.capacity() == capacity as nat,
                m == self.model(),
                buf.written() == top_border_bytes() + rows_bytes(display_grid(m), y as int),
            decreases 20 - y,
        {
            let ghost w0 = buf.written();
            self.push_row(&mut buf, y);
            proof {
                assert(rows_bytes(display_grid(m), y + 1) == rows_bytes(display_grid(m), y as int)
                    + row_bytes(display_grid(m)[y as int]));
                assert(w0 + row_bytes(display_grid(m)[y as int]) =~= top_border_bytes()
                    + rows_bytes(display_grid(m), y + 1));
            }
            y += 1;
        }

        let bl: [u8; 3] = [0xE2, 0x95, 0x9A];
        proof {
            assert(bl@ =~= seq![0xE2u8, 0x95u8, 0x9Au8]);
        }
        buf.push_array(bl);
        push_hline(&mut buf);
        let br: [u8; 4] = [0xE2, 0x95, 0x9D, 0x0A];
        proof {
            assert(br@ =~= seq![0xE2u8, 0x95u8, 0x9Du8, 0x0Au8]);
        }
        buf.push_array(br);
        proof {
            assert(buf.written() =~= top_border_bytes() + rows_bytes(display_grid(m), 20)
                + bottom_border_bytes());
        }

        let sl: [u8; 7] = [0x53, 0x63, 0x6F, 0x72, 0x65, 0x3A, 0x20];
        proof {
            assert(sl@ =~= score_label_bytes());
        }
        buf.push_array(sl);
        push_decimal(&mut buf, self.score);
        buf.push_byte(0x0A);
        proof {
            assert(buf.written() =~= top_border_bytes() + rows_bytes(display_grid(m), 20)
                + bottom_border_bytes() + score_label_bytes() + dec_rep(m.score as nat)
                + seq![0x0Au8]);
        }

        if self.game_over {
            let go: [u8; 11] = [0x47, 0x41, 0x4D, 0x45, 0x20, 0x4F, 0x56, 0x45, 0x52, 0x21, 0x0A];
            proof {
                assert(go@ =~= game_over_bytes());
            }
            buf.push_array(go);
        }
        proof {
            assert(buf.written() =~= render_bytes(m));
        }
        buf.into_bytes()
    }
}

} // verus!
