use qrcodegen::{QrCode, QrCodeEcc};
use spotted::canvas::Canvas;
use spotted::qr::{compose_qr_code, place_qr_code, qr_grid, qr_image, QrError, QrGrid};

fn plain(width: u32, height: u32, value: u8) -> Canvas {
    Canvas { width, height, pixels: vec![value; (width * height * 4) as usize] }
}

fn pixel(c: &Canvas, x: u32, y: u32) -> [u8; 4] {
    let i = ((y * c.width + x) * 4) as usize;
    [c.pixels[i], c.pixels[i + 1], c.pixels[i + 2], c.pixels[i + 3]]
}

const BLACK: [u8; 4] = [0, 0, 0, 255];
const WHITE: [u8; 4] = [255, 255, 255, 255];

#[test]
fn qr_grid_holds_the_modules_of_the_code() {
    let link = "https://example.com/spotted";
    let grid = qr_grid(link).ok().unwrap();
    let code = QrCode::encode_text(link, QrCodeEcc::Medium).unwrap();
    assert_eq!(grid.size as i32, code.size());
    assert_eq!(grid.rows.len(), grid.size as usize);
    for y in 0..code.size() {
        for x in 0..code.size() {
            assert_eq!(grid.rows[y as usize][x as usize], code.get_module(x, y));
        }
    }
}

#[test]
fn qr_grid_refuses_a_link_too_long() {
    let link = "x".repeat(5000);
    assert!(matches!(qr_grid(&link), Err(QrError::DataTooLong)));
}

#[test]
fn qr_image_scales_the_modules() {
    let grid = QrGrid { size: 2, rows: vec![vec![true, false], vec![false, true]] };
    let img = qr_image(&grid, 5, 2);
    assert_eq!((img.width, img.height, img.pixels.len()), (5, 5, 100));
    assert_eq!(pixel(&img, 0, 0), BLACK);
    assert_eq!(pixel(&img, 1, 1), BLACK);
    assert_eq!(pixel(&img, 2, 0), WHITE);
    assert_eq!(pixel(&img, 0, 3), WHITE);
    assert_eq!(pixel(&img, 3, 3), BLACK);
    assert_eq!(pixel(&img, 4, 4), WHITE);
}

#[test]
fn place_qr_code_draws_in_the_middle() {
    let grid = QrGrid { size: 2, rows: vec![vec![true, false], vec![false, true]] };
    let mut bg = plain(20, 20, 7);
    place_qr_code(&mut bg, &grid);
    // side 7, scale 3, square from (6, 6) to (12, 12)
    assert_eq!(pixel(&bg, 5, 5), [7, 7, 7, 7]);
    assert_eq!(pixel(&bg, 6, 6), BLACK);
    assert_eq!(pixel(&bg, 8, 8), BLACK);
    assert_eq!(pixel(&bg, 9, 6), WHITE);
    assert_eq!(pixel(&bg, 9, 9), BLACK);
    assert_eq!(pixel(&bg, 12, 12), WHITE);
    assert_eq!(pixel(&bg, 13, 13), [7, 7, 7, 7]);
    assert_eq!(pixel(&bg, 19, 0), [7, 7, 7, 7]);
}

#[test]
fn compose_qr_code_matches_the_code() {
    let link = "https://example.com";
    let code = QrCode::encode_text(link, QrCodeEcc::Medium).unwrap();
    let n = code.size() as u32;
    let mut bg = plain(200, 150, 9);
    assert!(compose_qr_code(&mut bg, link).is_ok());
    let side = 200 * 35 / 100;
    let scale = side / n;
    let (x0, y0) = ((200 - side) / 2, (150 - side) / 2);
    for y in 0..150 {
        for x in 0..200 {
            let expected = if x >= x0 && x < x0 + side && y >= y0 && y < y0 + side {
                if code.get_module(((x - x0) / scale) as i32, ((y - y0) / scale) as i32) { BLACK } else { WHITE }
            } else {
                [9, 9, 9, 9]
            };
            assert_eq!(pixel(&bg, x, y), expected, "pixel {} {}", x, y);
        }
    }
}

#[test]
fn compose_qr_code_errors_leave_the_template() {
    let mut small = plain(10, 10, 1);
    assert!(compose_qr_code(&mut small, "https://example.com") == Err(QrError::TemplateTooSmall));
    assert!(small.pixels.iter().all(|b| *b == 1));
    let mut flat = plain(100, 20, 1);
    assert!(compose_qr_code(&mut flat, "https://example.com") == Err(QrError::TemplateTooSmall));
    let mut wide = Canvas { width: 200_000_000, height: 0, pixels: Vec::new() };
    assert!(compose_qr_code(&mut wide, "https://example.com") == Err(QrError::TemplateTooWide));
    let mut ok = plain(100, 100, 1);
    assert!(compose_qr_code(&mut ok, &"y".repeat(5000)) == Err(QrError::DataTooLong));
    assert!(ok.pixels.iter().all(|b| *b == 1));
}

#[test]
fn compose_qr_code_on_a_tiny_template_draws_nothing() {
    let mut tiny = plain(2, 2, 5);
    assert!(compose_qr_code(&mut tiny, "a").is_ok());
    assert!(tiny.pixels.iter().all(|b| *b == 5));
}
