//! Colours, rotation and the two-plane framebuffer.
//!
//! A panel of `SIZE_H` columns and `SIZE_V` rows is stored as two bit
//! planes, one for black and one for red. Each plane holds one bit per
//! pixel, row by row, `SIZE_H / 8` bytes per row, the leftmost pixel of a
//! byte in its most significant bit. A pixel with neither bit set is white.
use vstd::prelude::*;

verus! {

/// Colours that the panel can show.
#[derive(Clone, Copy, PartialEq, Eq, Debug, Structural)]
pub enum TriColor {
    White,
    Black,
    Red,
}

impl Default for TriColor {
    fn default() -> (c: Self)
        ensures
            c == TriColor::White,
    {
        TriColor::White
    }
}

/// The largest of three channel values.
pub open spec fn max3(r: u8, g: u8, b: u8) -> u8 {
    if r >= g && r >= b {
        r
    } else if g >= b {
        g
    } else {
        b
    }
}

/// The smallest of three channel values.
pub open spec fn min3(r: u8, g: u8, b: u8) -> u8 {
    if r <= g && r <= b {
        r
    } else if g <= b {
        g
    } else {
        b
    }
}

/// The panel colour nearest to a 24-bit colour: red where red dominates
/// and the colour is saturated by more than a third of full scale, else
/// white where the brightest channel is above half scale, else black.
pub open spec fn nearest_color(r: u8, g: u8, b: u8) -> TriColor {
    if max3(r, g, b) - min3(r, g, b) > 85 && r > g && r > b {
        TriColor::Red
    } else if max3(r, g, b) > 127 {
        TriColor::White
    } else {
        TriColor::Black
    }
}

impl TriColor {
    /// The 24-bit colour `(red, green, blue)` that stands for this colour.
    pub open spec fn rgb(self) -> (u8, u8, u8) {
        match self {
            TriColor::White => (255u8, 255u8, 255u8),
            TriColor::Black => (0u8, 0u8, 0u8),
            TriColor::Red => (255u8, 0u8, 0u8),
        }
    }

    /// The colour of a two-bit raw value: bit 0 is black, bit 1 is red.
    pub open spec fn of_raw(data: u8) -> TriColor {
        if data & 1 != 0 {
            TriColor::Black
        } else if data & 2 != 0 {
            TriColor::Red
        } else {
            TriColor::White
        }
    }

    /// White is `0xFFFFFF`, black `0x000000`, red `0xFF0000`.
    pub fn to_rgb(self) -> (out: (u8, u8, u8))
        ensures
            out == self.rgb(),
    {
        match self {
            TriColor::White => (u8::MAX, u8::MAX, u8::MAX),
            TriColor::Black => (0, 0, 0),
            TriColor::Red => (u8::MAX, 0, 0),
        }
    }

    /// Classifies a 24-bit colour as the nearest panel colour.
    pub fn from_rgb(r: u8, g: u8, b: u8) -> (c: TriColor)
        ensures
            c == nearest_color(r, g, b),
    {
        let lo: u8 = if r <= g && r <= b {
            r
        } else if g <= b {
            g
        } else {
            b
        };
        let hi: u8 = if r >= g && r >= b {
            r
        } else if g >= b {
            g
        } else {
            b
        };
        let chroma: u8 = hi - lo;
        let brightness: u8 = hi;
        if chroma > u8::MAX / 3 && r > g && r > b {
            TriColor::Red
        } else if brightness > u8::MAX / 2 {
            TriColor::White
        } else {
            TriColor::Black
        }
    }

    /// A monochrome pixel that is on is black, one that is off is white.
    pub fn from_monochrome(on: bool) -> (c: TriColor)
        ensures
            c == (if on { TriColor::Black } else { TriColor::White }),
    {
        if on {
            TriColor::Black
        } else {
            TriColor::White
        }
    }

    /// Decodes a two-bit raw value; the black bit wins over the red bit.
    pub fn from_raw(data: u8) -> (c: TriColor)
        ensures
            c == TriColor::of_raw(data),
    {
        if data & 0b01 != 0 {
            TriColor::Black
        } else if data & 0b10 != 0 {
            TriColor::Red
        } else {
            TriColor::White
        }
    }
}

/// Classifying the 24-bit colour of a panel colour gives that colour back.
pub proof fn lemma_color_round_trip(c: TriColor)
    ensures
        nearest_color(c.rgb().0, c.rgb().1, c.rgb().2) == c,
{
}

/// Display rotation, clockwise, in steps of 90 degrees.
#[derive(Clone, Copy, PartialEq, Eq, Debug, Structural)]
pub enum DisplayRotation {
    /// No rotation
    Rotate0,
    /// Rotate by 90 degrees clockwise
    Rotate90,
    /// Rotate by 180 degrees clockwise
    Rotate180,
    /// Rotate 270 degrees clockwise
    Rotate270,
}

impl Default for DisplayRotation {
    fn default() -> (r: Self)
        ensures
            r == DisplayRotation::Rotate0,
    {
        DisplayRotation::Rotate0
    }
}

/// The size `(width, height)` of the drawing surface of a panel with `h`
/// columns and `v` rows under a rotation.
pub open spec fn logical_size(rotation: DisplayRotation, h: int, v: int) -> (int, int) {
    match rotation {
        DisplayRotation::Rotate0 | DisplayRotation::Rotate180 => (h, v),
        DisplayRotation::Rotate90 | DisplayRotation::Rotate270 => (v, h),
    }
}

/// Whether `(x, y)` is a point of the drawing surface.
pub open spec fn on_surface(rotation: DisplayRotation, h: int, v: int, x: int, y: int) -> bool {
    0 <= x < logical_size(rotation, h, v).0 && 0 <= y < logical_size(rotation, h, v).1
}

/// The panel cell `(column, row)` that the point `(x, y)` of the drawing
/// surface falls on, for a panel with `h` columns and `v` rows.
pub open spec fn physical(rotation: DisplayRotation, h: int, v: int, x: int, y: int) -> (int, int) {
    match rotation {
        DisplayRotation::Rotate0 => (x, y),
        DisplayRotation::Rotate90 => (h - 1 - y, x),
        DisplayRotation::Rotate180 => (h - 1 - x, v - 1 - y),
        DisplayRotation::Rotate270 => (y, v - 1 - x),
    }
}

/// The point of the drawing surface that falls on the panel cell
/// `(px, py)`: the inverse of `physical`.
pub open spec fn logical(rotation: DisplayRotation, h: int, v: int, px: int, py: int) -> (
    int,
    int,
) {
    match rotation {
        DisplayRotation::Rotate0 => (px, py),
        DisplayRotation::Rotate90 => (py, h - 1 - px),
        DisplayRotation::Rotate180 => (h - 1 - px, v - 1 - py),
        DisplayRotation::Rotate270 => (v - 1 - py, px),
    }
}

/// Whether `(px, py)` is a cell of a panel with `h` columns and `v` rows.
pub open spec fn on_panel(h: int, v: int, px: int, py: int) -> bool {
    0 <= px < h && 0 <= py < v
}

/// The index of the byte that holds the cell `(px, py)` in either plane.
pub open spec fn byte_index(h: int, px: int, py: int) -> int {
    py * (h / 8) + px / 8
}

/// The bit of that byte that holds the cell: the leftmost cell of a byte
/// is its most significant bit.
pub open spec fn bit_mask(px: int) -> u8 {
    1u8 << ((7 - px % 8) as u8)
}

/// The byte of the black plane after a pixel of `color` is written at the
/// bit `mask`.
pub open spec fn black_byte(byte: u8, mask: u8, color: TriColor) -> u8 {
    match color {
        TriColor::Black => byte | mask,
        _ => byte & !mask,
    }
}

/// The byte of the red plane after a pixel of `color` is written at the
/// bit `mask`.
pub open spec fn red_byte(byte: u8, mask: u8, color: TriColor) -> u8 {
    match color {
        TriColor::Red => byte | mask,
        _ => byte & !mask,
    }
}

/// A point of the drawing surface with the colour to give it.
#[derive(Clone, Copy, PartialEq, Eq, Debug, Structural)]
pub struct Pixel {
    pub x: i32,
    pub y: i32,
    pub color: TriColor,
}

/// What a framebuffer holds: its two planes and its rotation.
pub struct DisplayView {
    pub black: Seq<u8>,
    pub red: Seq<u8>,
    pub rotation: DisplayRotation,
}

impl DisplayView {
    /// No bit is set in both planes.
    pub open spec fn exclusive(self) -> bool {
        forall|i: int|
            0 <= i < self.black.len() && i < self.red.len() ==> (#[trigger] self.black[i])
                & self.red[i] == 0
    }

    /// The planes are those of a panel with `h` columns and `v` rows: a
    /// row is a whole number of bytes and each plane holds `v` rows.
    pub open spec fn fits(self, h: int, v: int) -> bool {
        &&& h % 8 == 0
        &&& self.black.len() == v * (h / 8)
        &&& self.red.len() == v * (h / 8)
    }

    /// The colour of the panel cell `(px, py)`, with `h` columns per row.
    pub open spec fn color_at(self, h: int, px: int, py: int) -> TriColor {
        if self.black[byte_index(h, px, py)] & bit_mask(px) != 0 {
            TriColor::Black
        } else if self.red[byte_index(h, px, py)] & bit_mask(px) != 0 {
            TriColor::Red
        } else {
            TriColor::White
        }
    }

    /// The same planes under another rotation.
    pub open spec fn rotated(self, rotation: DisplayRotation) -> DisplayView {
        DisplayView { black: self.black, red: self.red, rotation }
    }

    /// The framebuffer after the panel cell `(px, py)` is given `color`;
    /// unchanged where the cell is not on the panel.
    pub open spec fn write_cell(self, h: int, v: int, px: int, py: int, color: TriColor)
        -> DisplayView {
        if on_panel(h, v, px, py) {
            let i = byte_index(h, px, py);
            DisplayView {
                black: self.black.update(i, black_byte(self.black[i], bit_mask(px), color)),
                red: self.red.update(i, red_byte(self.red[i], bit_mask(px), color)),
                rotation: self.rotation,
            }
        } else {
            self
        }
    }

    /// The framebuffer after the point `(x, y)` of the drawing surface is
    /// given `color`.
    pub open spec fn write_pixel(self, h: int, v: int, x: int, y: int, color: TriColor)
        -> DisplayView {
        let p = physical(self.rotation, h, v, x, y);
        self.write_cell(h, v, p.0, p.1, color)
    }

    /// The framebuffer after the pixels are drawn one by one, the first
    /// one first.
    pub open spec fn draw(self, h: int, v: int, pixels: Seq<Pixel>) -> DisplayView
        decreases pixels.len(),
    {
        if pixels.len() == 0 {
            self
        } else {
            self.draw(h, v, pixels.drop_last()).write_pixel(
                h,
                v,
                pixels.last().x as int,
                pixels.last().y as int,
                pixels.last().color,
            )
        }
    }
}

/// Read-only access to the two planes, as the panel takes them.
pub trait DisplayBuffer {
    /// The bytes of the black plane.
    spec fn black_plane(&self) -> Seq<u8>;

    /// The bytes of the red plane.
    spec fn red_plane(&self) -> Seq<u8>;

    /// The black plane, as it is sent to the panel.
    fn get_buffer_black(&self) -> (buf: &[u8])
        ensures
            buf@ == self.black_plane(),
    ;

    /// The red plane, as it is sent to the panel.
    fn get_buffer_red(&self) -> (buf: &[u8])
        ensures
            buf@ == self.red_plane(),
    ;
}

/// Framebuffer of a panel with `SIZE_V` rows of `SIZE_H` pixels, whose
/// planes take `IMAGE_SIZE` bytes each.
pub struct Display<const SIZE_V: u32, const SIZE_H: u32, const IMAGE_SIZE: usize> {
    buffer_black: [u8; IMAGE_SIZE],
    buffer_red: [u8; IMAGE_SIZE],
    rotation: DisplayRotation,
}

impl<const SIZE_V: u32, const SIZE_H: u32, const IMAGE_SIZE: usize> View for Display<
    SIZE_V,
    SIZE_H,
    IMAGE_SIZE,
> {
    type V = DisplayView;

    closed spec fn view(&self) -> DisplayView {
        DisplayView {
            black: self.buffer_black@,
            red: self.buffer_red@,
            rotation: self.rotation,
        }
    }
}

impl<const SIZE_V: u32, const SIZE_H: u32, const IMAGE_SIZE: usize> Display<
    SIZE_V,
    SIZE_H,
    IMAGE_SIZE,
> {
    /// The three sizes fit together: a row is a whole number of bytes,
    /// and a plane holds exactly `SIZE_V` rows.
    pub open spec fn geometry() -> bool {
        SIZE_H % 8 == 0 && IMAGE_SIZE == SIZE_V * (SIZE_H / 8)
    }

    /// The sizes fit together, each plane has its length, and no pixel is
    /// claimed by both planes.
    pub open spec fn wf(&self) -> bool {
        &&& Self::geometry()
        &&& self@.fits(SIZE_H as int, SIZE_V as int)
        &&& self@.exclusive()
    }

    /// Turns the drawing surface; the planes stay as they are.
    pub fn set_rotation(&mut self, rotation: DisplayRotation)
        ensures
            final(self)@ == old(self)@.rotated(rotation),
    {
        self.rotation = rotation;
    }

    /// The rotation of the drawing surface.
    #[must_use]
    pub fn rotation(&self) -> (r: DisplayRotation)
        ensures
            r == self@.rotation,
    {
        self.rotation
    }

    /// Width and height of the drawing surface: those of the panel,
    /// swapped under a quarter turn.
    pub fn size(&self) -> (s: (u32, u32))
        ensures
            (s.0 as int, s.1 as int) == logical_size(self@.rotation, SIZE_H as int, SIZE_V as int),
    {
        match self.rotation {
            DisplayRotation::Rotate0 | DisplayRotation::Rotate180 => (SIZE_H, SIZE_V),
            DisplayRotation::Rotate90 | DisplayRotation::Rotate270 => (SIZE_V, SIZE_H),
        }
    }

    /// Gives the point `(x, y)` of the drawing surface a colour. A point
    /// that is not on the surface is dropped without a trace.
    pub fn write_pixel(&mut self, x: i32, y: i32, color: TriColor)
        requires
            old(self).wf(),
        ensures
            final(self).wf(),
            final(self)@ == old(self)@.write_pixel(
                SIZE_H as int,
                SIZE_V as int,
                x as int,
                y as int,
                color,
            ),
            !on_surface(old(self)@.rotation, SIZE_H as int, SIZE_V as int, x as int, y as int)
                ==> final(self)@ == old(self)@,
    {
        let h: i64 = SIZE_H as i64;
        let v: i64 = SIZE_V as i64;
        let (px, py): (i64, i64) = match self.rotation {
            DisplayRotation::Rotate0 => (x as i64, y as i64),
            DisplayRotation::Rotate90 => (h - 1 - y as i64, x as i64),
            DisplayRotation::Rotate180 => (h - 1 - x as i64, v - 1 - y as i64),
            DisplayRotation::Rotate270 => (y as i64, v - 1 - x as i64),
        };
        if px < 0 || px >= h || py < 0 || py >= v {
            return ;
        }
        let row: usize = SIZE_H as usize / 8;
        proof {
            lemma_byte_index_bound(h as int, v as int, px as int, py as int);
        }
        let index: usize = py as usize * row + px as usize / 8;
        let shift: u8 = (7 - px % 8) as u8;
        let mask: u8 = 1u8 << shift;
        let black: u8 = self.buffer_black[index];
        let red: u8 = self.buffer_red[index];
        proof {
            lemma_bytes_exclusive(black, red, mask, color);
        }
        match color {
            TriColor::White => {
                self.buffer_black[index] = black & !mask;
                self.buffer_red[index] = red & !mask;
            },
            TriColor::Black => {
                self.buffer_black[index] = black | mask;
                self.buffer_red[index] = red & !mask;
            },
            TriColor::Red => {
                self.buffer_black[index] = black & !mask;
                self.buffer_red[index] = red | mask;
            },
        }
    }

    /// Draws the pixels in order; those that are not on the surface are
    /// dropped.
    pub fn draw_iter(&mut self, pixels: &[Pixel])
        requires
            old(self).wf(),
        ensures
            final(self).wf(),
            final(self)@ == old(self)@.draw(SIZE_H as int, SIZE_V as int, pixels@),
    {
        let mut i: usize = 0;
        while i < pixels.len()
            invariant
                i <= pixels.len(),
                self.wf(),
                self@ == old(self)@.draw(SIZE_H as int, SIZE_V as int, pixels@.take(i as int)),
            decreases pixels.len() - i,
        {
            let pixel: Pixel = pixels[i];
            proof {
                assert(pixels@.take(i + 1).drop_last() =~= pixels@.take(i as int));
            }
            self.write_pixel(pixel.x, pixel.y, pixel.color);
            i += 1;
        }
        proof {
            assert(pixels@.take(i as int) =~= pixels@);
        }
    }
}

impl<const SIZE_V: u32, const SIZE_H: u32, const IMAGE_SIZE: usize> Default for Display<
    SIZE_V,
    SIZE_H,
    IMAGE_SIZE,
> {
    /// An all-white framebuffer without rotation.
    fn default() -> (d: Self)
        ensures
            d@.black == Seq::new(IMAGE_SIZE as nat, |i: int| 0u8),
            d@.red == Seq::new(IMAGE_SIZE as nat, |i: int| 0u8),
            d@.rotation == DisplayRotation::Rotate0,
            Self::geometry() ==> d.wf(),
    {
        let d = Self {
            buffer_black: [0u8;IMAGE_SIZE],
            buffer_red: [0u8;IMAGE_SIZE],
            rotation: DisplayRotation::Rotate0,
        };
        proof {
            assert(d@.black =~= Seq::new(IMAGE_SIZE as nat, |i: int| 0u8));
            assert(d@.red =~= Seq::new(IMAGE_SIZE as nat, |i: int| 0u8));
            assert(forall|i: int| 0 <= i < IMAGE_SIZE ==> d@.black[i] == 0u8);
            assert(forall|b: u8| 0u8 & b == 0u8) by (bit_vector);
        }
        d
    }
}

impl<const SIZE_V: u32, const SIZE_H: u32, const IMAGE_SIZE: usize> DisplayBuffer for Display<
    SIZE_V,
    SIZE_H,
    IMAGE_SIZE,
> {
    open spec fn black_plane(&self) -> Seq<u8> {
        self@.black
    }

    open spec fn red_plane(&self) -> Seq<u8> {
        self@.red
    }

    fn get_buffer_black(&self) -> (buf: &[u8]) {
        self.buffer_black.as_slice()
    }

    fn get_buffer_red(&self) -> (buf: &[u8]) {
        self.buffer_red.as_slice()
    }
}

/// 1.54 inch panel
pub type Display1in54 = Display<152, 152, 2888>;

/// 2.13 inch panel
pub type Display2in13 = Display<212, 104, 2756>;

/// 2.66 inch panel
pub type Display2in66 = Display<296, 152, 5624>;

/// 2.71 inch panel
pub type Display2in71 = Display<264, 176, 5808>;

/// 2.87 inch panel
pub type Display2in87 = Display<296, 128, 4736>;

/// 3.70 inch panel
pub type Display3in70 = Display<416, 240, 12480>;

/// 4.17 inch panel
pub type Display4in17 = Display<300, 400, 15000>;

/// 4.37 inch panel
pub type Display4in37 = Display<480, 176, 10560>;

/// On a panel whose rows are whole bytes, the byte of a cell lies within
/// the `v * (h / 8)` bytes of a plane.
pub proof fn lemma_byte_index_bound(h: int, v: int, px: int, py: int)
    requires
        h % 8 == 0,
        on_panel(h, v, px, py),
    ensures
        0 <= byte_index(h, px, py) < v * (h / 8),
        py * (h / 8) <= byte_index(h, px, py) < (py + 1) * (h / 8),
{
    let row = h / 8;
    assert(0 <= px / 8 < row);
    assert(py * row >= 0 && (py + 1) * row == py * row + row && (py + 1) * row <= v * row)
        by (nonlinear_arith)
        requires
            0 <= py < v,
            row >= 0,
    ;
}

/// Two bytes that share no bit still share none after a pixel of any
/// colour is written to both at the same bit.
pub proof fn lemma_bytes_exclusive(black: u8, red: u8, mask: u8, color: TriColor)
    requires
        black & red == 0,
    ensures
        black_byte(black, mask, color) & red_byte(red, mask, color) == 0,
{
    assert(black & red == 0 ==> (black | mask) & (red & !mask) == 0) by (bit_vector);
    assert(black & red == 0 ==> (black & !mask) & (red | mask) == 0) by (bit_vector);
    assert(black & red == 0 ==> (black & !mask) & (red & !mask) == 0) by (bit_vector);
}

/// Bits of a byte: writing a bit makes it read as written, and leaves
/// every other bit of the byte as it was.
proof fn lemma_mask_bits(byte: u8, s: u8, t: u8)
    requires
        s < 8,
        t < 8,
    ensures
        (byte | (1u8 << s)) & (1u8 << s) != 0,
        (byte & !(1u8 << s)) & (1u8 << s) == 0,
        s != t ==> (byte | (1u8 << s)) & (1u8 << t) == byte & (1u8 << t),
        s != t ==> (byte & !(1u8 << s)) & (1u8 << t) == byte & (1u8 << t),
        (byte | (1u8 << s)) | (1u8 << s) == byte | (1u8 << s),
        (byte & !(1u8 << s)) & !(1u8 << s) == byte & !(1u8 << s),
{
    assert(s < 8 ==> (byte | (1u8 << s)) & (1u8 << s) != 0) by (bit_vector);
    assert((byte & !(1u8 << s)) & (1u8 << s) == 0) by (bit_vector);
    assert(s < 8 && t < 8 && s != t ==> (byte | (1u8 << s)) & (1u8 << t) == byte & (1u8 << t))
        by (bit_vector);
    assert(s < 8 && t < 8 && s != t ==> (byte & !(1u8 << s)) & (1u8 << t) == byte & (1u8 << t))
        by (bit_vector);
    assert((byte | (1u8 << s)) | (1u8 << s) == byte | (1u8 << s)) by (bit_vector);
    assert((byte & !(1u8 << s)) & !(1u8 << s) == byte & !(1u8 << s)) by (bit_vector);
}

/// Two cells of a panel that share a byte and a bit are the same cell.
pub proof fn lemma_cells_apart(h: int, v: int, px: int, py: int, qx: int, qy: int)
    requires
        h % 8 == 0,
        on_panel(h, v, px, py),
        on_panel(h, v, qx, qy),
        byte_index(h, px, py) == byte_index(h, qx, qy),
        px % 8 == qx % 8,
    ensures
        px == qx,
        py == qy,
{
    lemma_byte_index_bound(h, v, px, py);
    lemma_byte_index_bound(h, v, qx, qy);
    let row = h / 8;
    if py < qy {
        assert((py + 1) * row <= qy * row) by (nonlinear_arith)
            requires
                py + 1 <= qy,
                row >= 0,
        ;
    }
    if qy < py {
        assert((qy + 1) * row <= py * row) by (nonlinear_arith)
            requires
                qy + 1 <= py,
                row >= 0,
        ;
    }
}

/// The mapping from the drawing surface to the panel and the one back
/// undo each other, and a point is on the surface exactly when its cell
/// is on the panel.
pub proof fn lemma_rotation_round_trip(rotation: DisplayRotation, h: int, v: int, x: int, y: int)
    ensures
        logical(rotation, h, v, physical(rotation, h, v, x, y).0, physical(rotation, h, v, x, y).1)
            == (x, y),
        physical(rotation, h, v, logical(rotation, h, v, x, y).0, logical(rotation, h, v, x, y).1)
            == (x, y),
        on_surface(rotation, h, v, x, y) <==> on_panel(
            h,
            v,
            physical(rotation, h, v, x, y).0,
            physical(rotation, h, v, x, y).1,
        ),
{
}

/// Drawing a point that is not on the surface changes nothing.
pub proof fn lemma_write_off_surface(d: DisplayView, h: int, v: int, x: int, y: int, color: TriColor)
    requires
        !on_surface(d.rotation, h, v, x, y),
    ensures
        d.write_pixel(h, v, x, y, color) == d,
{
    lemma_rotation_round_trip(d.rotation, h, v, x, y);
}

/// Drawing a point under a rotation changes the planes exactly as drawing
/// the rotated point without rotation does.
pub proof fn lemma_write_rotated(
    d: DisplayView,
    rotation: DisplayRotation,
    h: int,
    v: int,
    x: int,
    y: int,
    color: TriColor,
)
    ensures
        d.rotated(rotation).write_pixel(h, v, x, y, color) == d.rotated(
            DisplayRotation::Rotate0,
        ).write_pixel(
            h,
            v,
            physical(rotation, h, v, x, y).0,
            physical(rotation, h, v, x, y).1,
            color,
        ).rotated(rotation),
{
}

/// After a point of the surface is drawn, its cell on the panel reads as
/// the colour drawn, and every other cell reads as before.
pub proof fn lemma_write_then_read(
    d: DisplayView,
    h: int,
    v: int,
    x: int,
    y: int,
    color: TriColor,
    qx: int,
    qy: int,
)
    requires
        d.fits(h, v),
        on_surface(d.rotation, h, v, x, y),
        on_panel(h, v, qx, qy),
    ensures
        d.write_pixel(h, v, x, y, color).color_at(h, qx, qy) == (if (qx, qy) == physical(
            d.rotation,
            h,
            v,
            x,
            y,
        ) {
            color
        } else {
            d.color_at(h, qx, qy)
        }),
{
    let p = physical(d.rotation, h, v, x, y);
    lemma_rotation_round_trip(d.rotation, h, v, x, y);
    lemma_byte_index_bound(h, v, p.0, p.1);
    lemma_byte_index_bound(h, v, qx, qy);
    let i = byte_index(h, p.0, p.1);
    let s = (7 - p.0 % 8) as u8;
    let t = (7 - qx % 8) as u8;
    lemma_mask_bits(d.black[i], s, t);
    lemma_mask_bits(d.red[i], s, t);
    if byte_index(h, qx, qy) == i && s == t {
        lemma_cells_apart(h, v, p.0, p.1, qx, qy);
    }
}

/// Drawing the same colour at the same point twice leaves the framebuffer
/// as drawing it once does.
pub proof fn lemma_write_idempotent(
    d: DisplayView,
    h: int,
    v: int,
    x: int,
    y: int,
    color: TriColor,
)
    requires
        d.fits(h, v),
    ensures
        d.write_pixel(h, v, x, y, color).write_pixel(h, v, x, y, color) == d.write_pixel(
            h,
            v,
            x,
            y,
            color,
        ),
{
    let p = physical(d.rotation, h, v, x, y);
    if on_panel(h, v, p.0, p.1) {
        lemma_byte_index_bound(h, v, p.0, p.1);
        let i = byte_index(h, p.0, p.1);
        let s = (7 - p.0 % 8) as u8;
        lemma_mask_bits(d.black[i], s, s);
        lemma_mask_bits(d.red[i], s, s);
        let once = d.write_pixel(h, v, x, y, color);
        let twice = once.write_pixel(h, v, x, y, color);
        assert(twice.black =~= once.black);
        assert(twice.red =~= once.red);
    }
}

/// Drawing keeps the planes apart: where no pixel was claimed by both
/// planes before a point is drawn, none is after.
pub proof fn lemma_write_keeps_exclusive(
    d: DisplayView,
    h: int,
    v: int,
    x: int,
    y: int,
    color: TriColor,
)
    requires
        d.fits(h, v),
        d.exclusive(),
    ensures
        d.write_pixel(h, v, x, y, color).fits(h, v),
        d.write_pixel(h, v, x, y, color).exclusive(),
{
    let p = physical(d.rotation, h, v, x, y);
    if on_panel(h, v, p.0, p.1) {
        lemma_byte_index_bound(h, v, p.0, p.1);
        let i = byte_index(h, p.0, p.1);
        lemma_bytes_exclusive(d.black[i], d.red[i], bit_mask(p.0), color);
    }
}

/// However many pixels are drawn, and wherever: where no pixel was
/// claimed by both planes before, none is after.
pub proof fn lemma_draw_keeps_exclusive(d: DisplayView, h: int, v: int, pixels: Seq<Pixel>)
    requires
        d.fits(h, v),
        d.exclusive(),
    ensures
        d.draw(h, v, pixels).fits(h, v),
        d.draw(h, v, pixels).exclusive(),
    decreases pixels.len(),
{
    if pixels.len() > 0 {
        lemma_draw_keeps_exclusive(d, h, v, pixels.drop_last());
        lemma_write_keeps_exclusive(
            d.draw(h, v, pixels.drop_last()),
            h,
            v,
            pixels.last().x as int,
            pixels.last().y as int,
            pixels.last().color,
        );
    }
}

} // verus!
