//! The QR code of a post's link, drawn in the middle of the template image.

use vstd::prelude::*;

use qrcodegen::{DataTooLong, QrCode, QrCodeEcc};

use crate::canvas::{byte_at, overlay, pixel_byte, Canvas};

verus! {

#[verifier::external_type_specification]
#[verifier::external_body]
pub struct ExQrCode(QrCode);

#[verifier::external_type_specification]
#[verifier::external_body]
pub struct ExDataTooLong(DataTooLong);

/// Whether `QrCode::encode_text` encodes the text at the medium error
/// correction level (it fails when the text does not fit in any version).
pub uninterp spec fn qr_encodable(text: Seq<char>) -> bool;

/// The side, in modules, of the QR code that `encode_text` makes of the text.
pub uninterp spec fn qr_symbol_size(text: Seq<char>) -> int;

/// Whether the module at column `x`, row `y` of the QR code of the text is dark.
pub uninterp spec fn qr_symbol_module(text: Seq<char>, x: int, y: int) -> bool;

/// A QR code together with the text it encodes.
struct QrSymbol {
    code: QrCode,
    text: Ghost<Seq<char>>,
}

impl View for QrSymbol {
    type V = Seq<char>;

    closed spec fn view(&self) -> Seq<char> {
        self.text@
    }
}

/// Calls `QrCode::encode_text(text, QrCodeEcc::Medium)`. Whether it succeeds
/// is named `qr_encodable` of the text; the code it returns is of that text.
#[verifier::external_body]
fn qr_encode_text(text: &str) -> (r: Result<QrSymbol, DataTooLong>)
    ensures
        r is Ok == qr_encodable(text@),
        r matches Ok(q) ==> q@ == text@,
{
    match QrCode::encode_text(text, QrCodeEcc::Medium) {
        Ok(code) => Ok(QrSymbol { code, text: Ghost(text@) }),
        Err(e) => Err(e),
    }
}

/// Calls `QrCode::size`: named `qr_symbol_size` of the encoded text; the
/// crate documents it to lie in [21, 177].
#[verifier::external_body]
fn qr_size(q: &QrSymbol) -> (r: i32)
    ensures
        r == qr_symbol_size(q@),
        21 <= r <= 177,
{
    q.code.size()
}

/// Calls `QrCode::get_module`: named `qr_symbol_module` of the encoded text
/// and the coordinates.
#[verifier::external_body]
fn qr_get_module(q: &QrSymbol, x: i32, y: i32) -> (r: bool)
    ensures
        r == qr_symbol_module(q@, x as int, y as int),
{
    q.code.get_module(x, y)
}

/// The modules of a QR code, row by row: `rows[y][x]` is dark or light.
pub struct QrGrid {
    pub size: u32,
    pub rows: Vec<Vec<bool>>,
}

impl QrGrid {
    pub open spec fn wf(&self) -> bool {
        &&& self.rows@.len() == self.size
        &&& forall|i: int| 0 <= i < self.size ==> (#[trigger] self.rows@[i])@.len() == self.size
    }

    /// The module at column `x`, row `y`; light outside the grid.
    pub open spec fn dark(&self, x: int, y: int) -> bool {
        0 <= x < self.size && 0 <= y < self.size && self.rows@[y]@[x]
    }
}

/// Why the QR code of a link cannot be drawn on a template.
#[derive(PartialEq, Eq, Structural)]
pub enum QrError {
    /// The link does not fit in a QR code.
    DataTooLong,
    /// The template is too wide for the side of the code to be computed in
    /// 32 bits.
    TemplateTooWide,
    /// The code's square does not fit in the template's height, or is
    /// narrower than one pixel per module.
    TemplateTooSmall,
}

/// The modules of the QR code of `link` at the medium error correction level.
pub fn qr_grid(link: &str) -> (r: Result<QrGrid, QrError>)
    ensures
        r is Ok == qr_encodable(link@),
        r matches Err(e) ==> e == QrError::DataTooLong,
        r matches Ok(g) ==> {
            &&& g.wf()
            &&& g.size == qr_symbol_size(link@)
            &&& 21 <= g.size <= 177
            &&& forall|x: int, y: int|
                0 <= x < g.size && 0 <= y < g.size ==> #[trigger] g.dark(x, y) == qr_symbol_module(link@, x, y)
        },
{
    let sym = match qr_encode_text(link) {
        Ok(s) => s,
        Err(_) => {
            return Err(QrError::DataTooLong);
        },
    };
    let n: i32 = qr_size(&sym);
    let mut rows: Vec<Vec<bool>> = Vec::new();
    let mut y: i32 = 0;
    while y < n
        invariant
            sym@ == link@,
            n == qr_symbol_size(link@),
            21 <= n <= 177,
            0 <= y <= n,
            rows@.len() == y,
            forall|i: int| 0 <= i < y ==> (#[trigger] rows@[i])@.len() == n,
            forall|i: int, j: int|
                0 <= i < y && 0 <= j < n ==> #[trigger] rows@[i]@[j] == qr_symbol_module(link@, j, i),
        decreases n - y,
    {
        let mut row: Vec<bool> = Vec::new();
        let mut x: i32 = 0;
        while x < n
            invariant
                sym@ == link@,
                n == qr_symbol_size(link@),
                21 <= n <= 177,
                0 <= y < n,
                0 <= x <= n,
                row@.len() == x,
                forall|j: int| 0 <= j < x ==> #[trigger] row@[j] == qr_symbol_module(link@, j, y as int),
            decreases n - x,
        {
            row.push(qr_get_module(&sym, x, y));
            x = x + 1;
        }
        rows.push(row);
        y = y + 1;
    }
    let g = QrGrid { size: n as u32, rows };
    Ok(g)
}

/// A channel of a QR pixel: black where the module is dark, white where it
/// is light, always opaque.
pub open spec fn qr_color(dark: bool, ch: int) -> u8 {
    if ch == 3 {
        255
    } else if dark {
        0
    } else {
        255
    }
}

proof fn lemma_index_lt(w: int, x1: int, y1: int, x2: int, y2: int)
    by (nonlinear_arith)
    requires
        0 <= x1 < w,
        0 <= y1,
        0 <= x2 <= w,
        y1 < y2 || (y1 == y2 && x1 < x2),
    ensures
        y1 * w + x1 < y2 * w + x2,
{
    if y1 < y2 {
        assert(y1 * w + w <= y2 * w);
    }
}

fn grid_dark(g: &QrGrid, x: u32, y: u32) -> (r: bool)
    requires
        g.wf(),
    ensures
        r == g.dark(x as int, y as int),
{
    if x < g.size && y < g.size {
        g.rows[y as usize][x as usize]
    } else {
        false
    }
}

/// The image of a QR code, `side` pixels square, each module drawn as a
/// square `scale` pixels wide from the top left corner: pixel `(x, y)` shows
/// module `(x / scale, y / scale)`.
pub fn qr_image(grid: &QrGrid, side: u32, scale: u32) -> (img: Canvas)
    requires
        grid.wf(),
        scale > 0,
    ensures
        img.width == side,
        img.height == side,
        img.wf(),
        forall|x: int, y: int, ch: int|
            0 <= x < side && 0 <= y < side && 0 <= ch < 4 ==> #[trigger] pixel_byte(img, x, y, ch)
                == qr_color(grid.dark(x / scale as int, y / scale as int), ch),
{
    let ghost w = side as int;
    let mut pixels: Vec<u8> = Vec::new();
    let mut y: u32 = 0;
    while y < side
        invariant
            grid.wf(),
            scale > 0,
            w == side,
            y <= side,
            pixels@.len() == (y * w) * 4,
            forall|xx: int, yy: int, ch: int|
                0 <= xx < w && 0 <= yy < y && 0 <= ch < 4 ==> #[trigger] byte_at(pixels@, w, xx, yy, ch)
                    == qr_color(grid.dark(xx / scale as int, yy / scale as int), ch),
        decreases side - y,
    {
        let mut x: u32 = 0;
        while x < side
            invariant
                grid.wf(),
                scale > 0,
                w == side,
                y < side,
                x <= side,
                pixels@.len() == (y * w + x) * 4,
                forall|xx: int, yy: int, ch: int|
                    0 <= xx < w && 0 <= yy <= y && (yy < y || xx < x) && 0 <= ch < 4
                        ==> #[trigger] byte_at(pixels@, w, xx, yy, ch) == qr_color(
                        grid.dark(xx / scale as int, yy / scale as int),
                        ch,
                    ),
            decreases side - x,
        {
            let ghost before = pixels@;
            let dark = grid_dark(grid, x / scale, y / scale);
            let v: u8 = if dark { 0 } else { 255 };
            pixels.push(v);
            pixels.push(v);
            pixels.push(v);
            pixels.push(255);
            assert forall|xx: int, yy: int, ch: int|
                0 <= xx < w && 0 <= yy <= y && (yy < y || xx < x + 1) && 0 <= ch < 4
                    implies #[trigger] byte_at(pixels@, w, xx, yy, ch) == qr_color(
                    grid.dark(xx / scale as int, yy / scale as int),
                    ch,
                ) by {
                if yy < y || xx < x {
                    lemma_index_lt(w, xx, yy, x as int, y as int);
                    assert(byte_at(pixels@, w, xx, yy, ch) == byte_at(before, w, xx, yy, ch));
                } else {
                    assert(xx == x && yy == y);
                }
            }
            x = x + 1;
        }
        assert(y * w + w == (y + 1) * w) by (nonlinear_arith);
        y = y + 1;
    }
    Canvas { width: side, height: side, pixels }
}

/// The side of the QR code's square on a template `width` pixels wide: 35% of it.
pub open spec fn qr_side(width: int) -> int {
    width * 35 / 100
}

/// Whether the square lies inside the template: the code goes in the middle.
pub open spec fn in_qr_square(w: int, h: int, side: int, px: int, py: int) -> bool {
    let x0 = (w - side) / 2;
    let y0 = (h - side) / 2;
    x0 <= px < x0 + side && y0 <= py < y0 + side
}

/// Draws the QR code `grid` in the middle of `background`, in a square whose
/// side is 35% of the background's width, each module as large as that
/// square allows in whole pixels; the rest of the background stays as it was.
pub fn place_qr_code(background: &mut Canvas, grid: &QrGrid)
    requires
        old(background).wf(),
        grid.wf(),
        grid.size > 0,
        old(background).width * 35 <= u32::MAX,
        qr_side(old(background).width as int) <= old(background).height,
        qr_side(old(background).width as int) == 0 || qr_side(old(background).width as int) >= grid.size,
    ensures
        final(background).width == old(background).width,
        final(background).height == old(background).height,
        final(background).wf(),
        forall|px: int, py: int, ch: int|
            0 <= px < old(background).width && 0 <= py < old(background).height && 0 <= ch < 4 ==> {
                let w: int = old(background).width as int;
                let h: int = old(background).height as int;
                let side: int = qr_side(w);
                let scale: int = side / (grid.size as int);
                #[trigger] pixel_byte(*final(background), px, py, ch) == if in_qr_square(w, h, side, px, py) {
                    qr_color(grid.dark((px - (w - side) / 2) / scale, (py - (h - side) / 2) / scale), ch)
                } else {
                    pixel_byte(*old(background), px, py, ch)
                }
            },
{
    let side: u32 = background.width * 35 / 100;
    if side == 0 {
        return;
    }
    let scale: u32 = side / grid.size;
    assert(scale > 0) by (nonlinear_arith)
        requires
            side >= grid.size,
            grid.size > 0,
            scale == side / grid.size,
    ;
    let qr = qr_image(grid, side, scale);
    let x0: i64 = ((background.width - side) / 2) as i64;
    let y0: i64 = ((background.height - side) / 2) as i64;
    overlay(background, &qr, x0, y0);
}

/// Whether the module at column `x`, row `y` of the QR code of `link` is dark;
/// light outside the code.
pub open spec fn qr_text_dark(link: Seq<char>, x: int, y: int) -> bool {
    0 <= x < qr_symbol_size(link) && 0 <= y < qr_symbol_size(link) && qr_symbol_module(link, x, y)
}

/// Whether a template `w` by `h` pixels can hold the QR code of `link`: the
/// side of the square can be computed, the square fits in the height, and
/// each module gets at least one pixel.
pub open spec fn qr_fits_template(link: Seq<char>, w: int, h: int) -> bool {
    &&& qr_side(w) <= h
    &&& qr_side(w) == 0 || qr_side(w) >= qr_symbol_size(link)
}

/// A template holds the QR code of a link exactly when the square, 35% of
/// the width, fits in the height and is empty or at least one pixel per module.
pub proof fn lemma_qr_fits_template(link: Seq<char>, w: int, h: int)
    ensures
        qr_fits_template(link, w, h) == (w * 35 / 100 <= h && (w * 35 / 100 == 0 || w * 35 / 100
            >= qr_symbol_size(link))),
{
}

/// Draws the QR code of `link` in the middle of the template `background`,
/// or says why it cannot be drawn, leaving the template as it was.
pub fn compose_qr_code(background: &mut Canvas, link: &str) -> (r: Result<(), QrError>)
    requires
        old(background).wf(),
    ensures
        r matches Err(_) ==> *final(background) == *old(background),
        (r == Err::<(), QrError>(QrError::DataTooLong)) == !qr_encodable(link@),
        (r == Err::<(), QrError>(QrError::TemplateTooWide)) == (qr_encodable(link@)
            && old(background).width * 35 > u32::MAX),
        (r == Err::<(), QrError>(QrError::TemplateTooSmall)) == (qr_encodable(link@)
            && old(background).width * 35 <= u32::MAX
            && !qr_fits_template(link@, old(background).width as int, old(background).height as int)),
        qr_encodable(link@) && old(background).width * 35 <= u32::MAX && old(background).width * 35 / 100
            <= old(background).height && (old(background).width * 35 / 100 == 0 || old(background).width * 35
            / 100 >= qr_symbol_size(link@)) ==> r is Ok,
        r is Ok ==> {
            &&& final(background).width == old(background).width
            &&& final(background).height == old(background).height
            &&& final(background).wf()
            &&& forall|px: int, py: int, ch: int|
                0 <= px < old(background).width && 0 <= py < old(background).height && 0 <= ch < 4 ==> {
                    let w: int = old(background).width as int;
                    let h: int = old(background).height as int;
                    let side: int = qr_side(w);
                    let scale: int = side / qr_symbol_size(link@);
                    #[trigger] pixel_byte(*final(background), px, py, ch) == if in_qr_square(w, h, side, px, py) {
                        qr_color(qr_text_dark(link@, (px - (w - side) / 2) / scale, (py - (h - side) / 2) / scale), ch)
                    } else {
                        pixel_byte(*old(background), px, py, ch)
                    }
                }
        },
{
    let grid = match qr_grid(link) {
        Ok(g) => g,
        Err(e) => {
            return Err(e);
        },
    };
    if background.width > u32::MAX / 35 {
        return Err(QrError::TemplateTooWide);
    }
    let side: u32 = background.width * 35 / 100;
    if side > background.height || (side != 0 && side < grid.size) {
        return Err(QrError::TemplateTooSmall);
    }
    let ghost before = *background;
    place_qr_code(background, &grid);
    assert forall|px: int, py: int, ch: int|
        0 <= px < before.width && 0 <= py < before.height && 0 <= ch < 4 implies {
            let w: int = before.width as int;
            let h: int = before.height as int;
            let side: int = qr_side(w);
            let scale: int = side / qr_symbol_size(link@);
            #[trigger] pixel_byte(*background, px, py, ch) == if in_qr_square(w, h, side, px, py) {
                qr_color(qr_text_dark(link@, (px - (w - side) / 2) / scale, (py - (h - side) / 2) / scale), ch)
            } else {
                pixel_byte(before, px, py, ch)
            }
        } by {
        let w: int = before.width as int;
        let h: int = before.height as int;
        let side: int = qr_side(w);
        let scale: int = side / qr_symbol_size(link@);
        if in_qr_square(w, h, side, px, py) {
            assert(side > 0);
            assert(side >= qr_symbol_size(link@));
            assert(scale > 0) by (nonlinear_arith)
                requires
                    side >= qr_symbol_size(link@),
                    qr_symbol_size(link@) > 0,
                    scale == side / qr_symbol_size(link@),
            ;
            let mx: int = (px - (w - side) / 2) / scale;
            let my: int = (py - (h - side) / 2) / scale;
            assert(0 <= mx && 0 <= my) by (nonlinear_arith)
                requires
                    scale > 0,
                    px - (w - side) / 2 >= 0,
                    py - (h - side) / 2 >= 0,
                    mx == (px - (w - side) / 2) / scale,
                    my == (py - (h - side) / 2) / scale,
            ;
            if 0 <= mx < grid.size && 0 <= my < grid.size {
                assert(grid.dark(mx, my) == qr_symbol_module(link@, mx, my));
            }
            assert(grid.dark(mx, my) == qr_text_dark(link@, mx, my));
        }
    }
    Ok(())
}

} // verus!
