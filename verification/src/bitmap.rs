//! The bit-packed image: rows of whole bytes, cells stored most significant bit first.

use vstd::prelude::*;

verus! {

/// Whether `byte` has the bit that lies `shift` places above its least significant bit.
pub open spec fn bit_is_set(byte: u8, shift: u8) -> bool {
    byte & (1u8 << shift) != 0
}

/// `byte` with the bit `shift` places above its least significant bit made equal to `value`.
pub open spec fn write_bit(byte: u8, shift: u8, value: bool) -> u8 {
    if value {
        byte | (1u8 << shift)
    } else {
        byte & !(1u8 << shift)
    }
}

/// The mathematical model of a [`BitImage`]: its dimensions and its packed bytes.
#[verifier::ext_equal]
pub struct Bitmap {
    pub width: nat,
    pub height: nat,
    pub bytes: Seq<u8>,
}

impl Bitmap {
    /// Bytes per row: the width in bits, rounded up to whole bytes.
    pub open spec fn row_stride(self) -> nat {
        (self.width + 7) / 8
    }

    /// Bits per row, the padding at its end included.
    pub open spec fn row_stride_bits(self) -> nat {
        self.row_stride() * 8
    }

    /// Whether `(x, y)` is a cell of the board.
    pub open spec fn in_bounds(self, x: int, y: int) -> bool {
        0 <= x < self.width && 0 <= y < self.height
    }

    /// Position of cell `(x, y)` among all the bits of the buffer, counted row by row.
    pub open spec fn bit_index(self, x: int, y: int) -> int {
        x + y * self.row_stride_bits()
    }

    /// The byte that holds cell `(x, y)`.
    pub open spec fn byte_index(self, x: int, y: int) -> int {
        self.bit_index(x, y) / 8
    }

    /// How far the bit of cell `(x, y)` lies above the least significant bit of its byte.
    pub open spec fn bit_shift(self, x: int, y: int) -> u8 {
        (7 - self.bit_index(x, y) % 8) as u8
    }

    /// Whether cell `(x, y)` is alive.
    #[verifier::opaque]
    pub open spec fn cell(self, x: int, y: int) -> bool {
        bit_is_set(self.bytes[self.byte_index(x, y)], self.bit_shift(x, y))
    }

    /// Both dimensions are positive, the buffer holds `height` rows of
    /// `row_stride()` bytes, and the bits that pad a row beyond `width` are clear.
    pub open spec fn wf(self) -> bool {
        &&& self.width > 0
        &&& self.height > 0
        &&& self.bytes.len() == self.height * self.row_stride()
        &&& forall|p: int, y: int|
            self.width <= p < self.row_stride_bits() && 0 <= y < self.height
                ==> !#[trigger] self.cell(p, y)
    }

    /// Whether no cell of the board is alive.
    pub open spec fn is_empty(self) -> bool {
        forall|x: int, y: int| self.in_bounds(x, y) ==> !self.cell(x, y)
    }

    /// The board of `width` by `height` cells whose buffer holds zeros only.
    pub open spec fn blank(width: nat, height: nat) -> Bitmap {
        Bitmap {
            width,
            height,
            bytes: Seq::new(height * ((width + 7) / 8), |at: int| 0u8),
        }
    }

    /// The bitmap in which cell `(x, y)` holds `value` and every other bit is as in `self`.
    pub open spec fn with_cell(self, x: int, y: int, value: bool) -> Bitmap {
        let at = self.byte_index(x, y);
        Bitmap {
            bytes: self.bytes.update(at, write_bit(self.bytes[at], self.bit_shift(x, y), value)),
            ..self
        }
    }
}

/// The byte zero has no bit.
proof fn lemma_zero_has_no_bit(shift: u8)
    requires
        shift < 8,
    ensures
        !bit_is_set(0u8, shift),
{
    assert(0u8 & (1u8 << shift) == 0) by (bit_vector)
        requires
            shift < 8,
    ;
}

/// Writing a bit gives that bit the value and leaves the other bits of the byte alone.
proof fn lemma_write_bit(byte: u8, shift: u8, other: u8, value: bool)
    requires
        shift < 8,
        other < 8,
    ensures
        bit_is_set(write_bit(byte, shift, value), shift) == value,
        other != shift ==> bit_is_set(write_bit(byte, shift, value), other) == bit_is_set(
            byte,
            other,
        ),
{
    assert((byte | (1u8 << shift)) & (1u8 << shift) != 0) by (bit_vector)
        requires
            shift < 8,
    ;
    assert((byte & !(1u8 << shift)) & (1u8 << shift) == 0) by (bit_vector)
        requires
            shift < 8,
    ;
    if other != shift {
        assert((byte | (1u8 << shift)) & (1u8 << other) == byte & (1u8 << other)) by (bit_vector)
            requires
                shift < 8,
                other < 8,
                other != shift,
        ;
        assert((byte & !(1u8 << shift)) & (1u8 << other) == byte & (1u8 << other))
            by (bit_vector)
            requires
                shift < 8,
                other < 8,
                other != shift,
        ;
    }
}

/// Two bytes with the same bits are the same byte.
proof fn lemma_bits_decide_byte(a: u8, b: u8)
    requires
        forall|shift: u8| shift < 8 ==> bit_is_set(a, shift) == bit_is_set(b, shift),
    ensures
        a == b,
{
    assert(bit_is_set(a, 0) == bit_is_set(b, 0));
    assert(bit_is_set(a, 1) == bit_is_set(b, 1));
    assert(bit_is_set(a, 2) == bit_is_set(b, 2));
    assert(bit_is_set(a, 3) == bit_is_set(b, 3));
    assert(bit_is_set(a, 4) == bit_is_set(b, 4));
    assert(bit_is_set(a, 5) == bit_is_set(b, 5));
    assert(bit_is_set(a, 6) == bit_is_set(b, 6));
    assert(bit_is_set(a, 7) == bit_is_set(b, 7));
    assert(a == b) by (bit_vector)
        requires
            (a & (1u8 << 0u8) != 0) == (b & (1u8 << 0u8) != 0),
            (a & (1u8 << 1u8) != 0) == (b & (1u8 << 1u8) != 0),
            (a & (1u8 << 2u8) != 0) == (b & (1u8 << 2u8) != 0),
            (a & (1u8 << 3u8) != 0) == (b & (1u8 << 3u8) != 0),
            (a & (1u8 << 4u8) != 0) == (b & (1u8 << 4u8) != 0),
            (a & (1u8 << 5u8) != 0) == (b & (1u8 << 5u8) != 0),
            (a & (1u8 << 6u8) != 0) == (b & (1u8 << 6u8) != 0),
            (a & (1u8 << 7u8) != 0) == (b & (1u8 << 7u8) != 0),
    ;
}

impl Bitmap {
    /// Position `p` of row `y` lies in byte `p / 8` of that row, `p % 8` places
    /// below the most significant bit; rows follow each other without a gap.
    pub proof fn lemma_address(self, p: int, y: int)
        requires
            0 <= p < self.row_stride_bits(),
            0 <= y < self.height,
            self.bytes.len() == self.height * self.row_stride(),
        ensures
            self.byte_index(p, y) == y * self.row_stride() + p / 8,
            self.bit_shift(p, y) == 7 - p % 8,
            0 <= self.byte_index(p, y) < self.bytes.len(),
    {
        let stride = self.row_stride() as int;
        let height = self.height as int;
        assert(y * (stride * 8) == 8 * (y * stride)) by (nonlinear_arith);
        assert(0 <= y * stride && (y + 1) * stride <= height * stride && (y + 1) * stride == y
            * stride + stride) by (nonlinear_arith)
            requires
                0 <= y < height,
                0 <= stride,
        ;
    }

    /// Two positions of the board share a bit only if they are one position.
    proof fn lemma_address_is_injective(self, p: int, y: int, q: int, z: int)
        requires
            0 <= p < self.row_stride_bits(),
            0 <= y < self.height,
            0 <= q < self.row_stride_bits(),
            0 <= z < self.height,
            self.bit_index(p, y) == self.bit_index(q, z),
        ensures
            p == q,
            y == z,
    {
        let bits = self.row_stride_bits() as int;
        assert(y == z) by (nonlinear_arith)
            requires
                0 <= p < bits,
                0 <= q < bits,
                0 <= y,
                0 <= z,
                p + y * bits == q + z * bits,
        ;
    }

    /// The bit `shift` places above the least significant bit of byte `at` is the
    /// bit of one position of the board: of a cell, or of the padding of a row.
    proof fn lemma_position_of_bit(self, at: int, shift: u8) -> (position: (int, int))
        requires
            self.wf(),
            0 <= at < self.bytes.len(),
            shift < 8,
        ensures
            0 <= position.0 < self.row_stride_bits(),
            0 <= position.1 < self.height,
            self.cell(position.0, position.1) == bit_is_set(self.bytes[at], shift),
            position.0 == (at % (self.row_stride() as int)) * 8 + (7 - shift),
            position.1 == at / (self.row_stride() as int),
    {
        reveal(Bitmap::cell);
        let stride = self.row_stride() as int;
        let height = self.height as int;
        let row = at / stride;
        let column = at % stride;
        vstd::arithmetic::div_mod::lemma_fundamental_div_mod(at, stride);
        assert(0 <= row < height) by (nonlinear_arith)
            requires
                0 <= at < height * stride,
                0 < stride,
                row == at / stride,
        ;
        assert(stride * row == row * stride) by (nonlinear_arith);
        let p = column * 8 + (7 - shift);
        self.lemma_address(p, row);
        (p, row)
    }

    /// A blank board is well-formed and has no live cell.
    pub proof fn lemma_blank_is_empty(width: nat, height: nat)
        requires
            width > 0,
            height > 0,
        ensures
            Self::blank(width, height).wf(),
            Self::blank(width, height).is_empty(),
    {
        reveal(Bitmap::cell);
        let blank = Self::blank(width, height);
        assert forall|p: int, y: int|
            0 <= p < blank.row_stride_bits() && 0 <= y < blank.height implies !#[trigger] blank
                .cell(p, y) by {
            blank.lemma_address(p, y);
            lemma_zero_has_no_bit(blank.bit_shift(p, y));
        }
    }

    /// Writing a cell gives that cell the value and changes no other bit of the
    /// board, so a well-formed board stays well-formed.
    pub proof fn lemma_with_cell(self, x: int, y: int, value: bool)
        requires
            self.wf(),
            self.in_bounds(x, y),
        ensures
            self.with_cell(x, y, value).wf(),
            self.with_cell(x, y, value).cell(x, y) == value,
            forall|p: int, z: int|
                0 <= p < self.row_stride_bits() && 0 <= z < self.height && (p != x || z != y)
                    ==> #[trigger] self.with_cell(x, y, value).cell(p, z) == self.cell(p, z),
    {
        reveal(Bitmap::cell);
        let after = self.with_cell(x, y, value);
        let at = self.byte_index(x, y);
        let shift = self.bit_shift(x, y);
        self.lemma_address(x, y);
        lemma_write_bit(self.bytes[at], shift, shift, value);
        assert forall|p: int, z: int|
            0 <= p < self.row_stride_bits() && 0 <= z < self.height && (p != x || z != y)
            implies #[trigger] after.cell(p, z) == self.cell(p, z) by {
            self.lemma_address(p, z);
            if self.byte_index(p, z) == at {
                if self.bit_shift(p, z) == shift {
                    self.lemma_address_is_injective(p, z, x, y);
                }
                lemma_write_bit(self.bytes[at], shift, self.bit_shift(p, z), value);
            }
        }
    }

    /// A well-formed bitmap is what its cells are: two of the same size whose
    /// cells agree are equal, byte for byte.
    pub proof fn lemma_cells_decide_bitmap(self, other: Bitmap)
        requires
            self.wf(),
            other.wf(),
            self.width == other.width,
            self.height == other.height,
            forall|x: int, y: int| self.in_bounds(x, y) ==> self.cell(x, y) == other.cell(x, y),
        ensures
            self == other,
    {
        assert forall|at: int| 0 <= at < self.bytes.len() implies self.bytes[at]
            == other.bytes[at] by {
            assert forall|shift: u8| shift < 8 implies bit_is_set(self.bytes[at], shift)
                == bit_is_set(other.bytes[at], shift) by {
                let (p, row) = self.lemma_position_of_bit(at, shift);
                let (q, other_row) = other.lemma_position_of_bit(at, shift);
                assert(self.cell(p, row) == other.cell(p, row));
            }
            lemma_bits_decide_byte(self.bytes[at], other.bytes[at]);
        }
        assert(self.bytes =~= other.bytes);
    }

    /// Where the width is a whole number `k` of bytes, a row takes exactly `k` bytes.
    pub proof fn lemma_whole_byte_rows(self, k: nat)
        requires
            self.wf(),
            self.width == 8 * k,
        ensures
            self.row_stride() == k,
            self.bytes.len() == self.height * k,
    {
    }

    /// The first cell of a row is the most significant bit of the first byte of that row.
    pub proof fn lemma_row_starts_at_top_bit(self, y: int)
        requires
            self.wf(),
            0 <= y < self.height,
        ensures
            self.byte_index(0, y) == y * self.row_stride(),
            self.bit_shift(0, y) == 7,
            self.cell(0, y) == (self.bytes[y * self.row_stride()] & 0x80 != 0),
    {
        reveal(Bitmap::cell);
        self.lemma_address(0, y);
        let byte = self.bytes[y * self.row_stride()];
        assert(byte & (1u8 << 7u8) == byte & 0x80) by (bit_vector);
    }
}

/// A board of cells that are dead or alive, packed one cell to a bit.
///
/// A row takes a whole number of bytes. Its first cell is the most significant
/// bit of its first byte; the bits that are left over at its end stay clear.
pub struct BitImage {
    bytes: Vec<u8>,
    height: usize,
    width: usize,
}

impl View for BitImage {
    type V = Bitmap;

    closed spec fn view(&self) -> Bitmap {
        Bitmap { width: self.width as nat, height: self.height as nat, bytes: self.bytes@ }
    }
}

impl BitImage {
    /// A board of `width` by `height` cells, all dead.
    pub fn new(width: usize, height: usize) -> (image: Self)
        requires
            width > 0,
            height > 0,
            height * ((width + 7) / 8) <= usize::MAX,
        ensures
            image@ == Bitmap::blank(width as nat, height as nat),
            image@.wf(),
            image@.is_empty(),
    {
        let n_bytes = height * ((width - 1) / 8 + 1);
        let bytes = vec![0u8; n_bytes];
        proof {
            Bitmap::lemma_blank_is_empty(width as nat, height as nat);
        }
        Self { bytes, height, width }
    }

    /// How many cells a row has.
    pub fn width(&self) -> (width: usize)
        ensures
            width == self@.width,
    {
        self.width
    }

    /// How many rows the board has.
    pub fn height(&self) -> (height: usize)
        ensures
            height == self@.height,
    {
        self.height
    }

    /// Makes cell `(x, y)` alive or dead and leaves every other cell as it is.
    pub fn set(&mut self, x: usize, y: usize, value: bool)
        requires
            old(self)@.wf(),
            old(self)@.in_bounds(x as int, y as int),
        ensures
            final(self)@ == old(self)@.with_cell(x as int, y as int, value),
            final(self)@.wf(),
            forall|i: int, j: int|
                old(self)@.in_bounds(i, j) ==> #[trigger] final(self)@.cell(i, j) == (if i == x && j
                    == y {
                    value
                } else {
                    old(self)@.cell(i, j)
                }),
    {
        let (byte_idx, bit_idx) = self.to_byte_and_bit_idx(x, y);
        if value {
            self.bytes[byte_idx] |= 1 << bit_idx;
        } else {
            self.bytes[byte_idx] &= !(1 << bit_idx);
        }
        proof {
            old(self)@.lemma_with_cell(x as int, y as int, value);
        }
    }

    /// Whether cell `(x, y)` is alive.
    pub fn get(&self, x: usize, y: usize) -> (alive: bool)
        requires
            self@.wf(),
            self@.in_bounds(x as int, y as int),
        ensures
            alive == self@.cell(x as int, y as int),
    {
        let (byte_idx, bit_idx) = self.to_byte_and_bit_idx(x, y);
        proof {
            reveal(Bitmap::cell);
        }
        self.bytes[byte_idx] & (1 << bit_idx) != 0
    }

    /// The byte that holds cell `(x, y)`, and how far the cell's bit lies above
    /// the least significant bit of that byte.
    fn to_byte_and_bit_idx(&self, x: usize, y: usize) -> (at: (usize, usize))
        requires
            self@.wf(),
            self@.in_bounds(x as int, y as int),
        ensures
            at.0 == self@.byte_index(x as int, y as int),
            at.1 == self@.bit_shift(x as int, y as int),
            at.0 < self@.bytes.len(),
            at.1 < 8,
    {
        let stride = (self.width - 1) / 8 + 1;
        proof {
            self@.lemma_address(x as int, y as int);
            assert(0 <= y * stride) by (nonlinear_arith);
            assert(self.bytes.len() <= usize::MAX);
        }
        (y * stride + x / 8, 7 - x % 8)
    }

    /// The packed buffer, row after row.
    pub fn as_bytes(&self) -> (bytes: &[u8])
        ensures
            bytes@ == self@.bytes,
    {
        self.bytes.as_slice()
    }
}

impl Clone for BitImage {
    fn clone(&self) -> (copy: Self)
        ensures
            copy@ == self@,
    {
        Self { bytes: self.bytes.clone(), height: self.height, width: self.width }
    }
}

} // verus!
