use demiourgos::server::render::grid_dims;
use demiourgos::server::canvas::Canvas;
use demiourgos::server::render::{contact_sheet, diff_image, grid_sheet, Cell};

#[test]
fn grid_dims_are_square_ish() {
    assert_eq!(grid_dims(1), (1, 1));
    assert_eq!(grid_dims(4), (2, 2));
    assert_eq!(grid_dims(7), (3, 3));
    assert_eq!(grid_dims(9), (3, 3));
}

#[test]
fn grid_dims_edges() {
    assert_eq!(grid_dims(0), (1, 1));
    assert_eq!(grid_dims(2), (2, 1));
    assert_eq!(grid_dims(3), (2, 2));
    assert_eq!(grid_dims(10), (4, 3));
    assert_eq!(grid_dims(36), (6, 6));
    assert_eq!(grid_dims(37), (7, 6));
}


fn solid(w: u32, h: u32, c: [u8; 4]) -> Canvas {
    Canvas::from_pixel(w, h, c)
}

#[test]
fn contact_sheet_dimensions_scale_with_grid() {
    let cells = vec![
        Cell {
            label: "front".into(),
            image: solid(200, 150, [10, 20, 30, 255]),
        },
        Cell {
            label: "iso".into(),
            image: solid(200, 150, [40, 50, 60, 255]),
        },
    ];
    let sheet = contact_sheet(&cells);
    // 2 cells -> 2x1 grid (cols=ceil(sqrt2)=2, rows=1).
    assert!(sheet.width() > 200 * 2);
    assert!(sheet.height() > 150);
}

#[test]
fn empty_cells_do_not_panic() {
    let sheet = contact_sheet(&[]);
    assert!(sheet.width() >= 1 && sheet.height() >= 1);
}

#[test]
fn empty_sheet_is_one_white_default_tile() {
    let sheet = contact_sheet(&[]);
    // 400 + 2*6 wide; 300 + (5*2 + 12) + 6 tall.
    assert_eq!(sheet.dimensions(), (412, 328));
    assert_eq!(sheet.get_pixel(0, 0), [255, 255, 255, 255]);
    assert_eq!(sheet.get_pixel(411, 327), [255, 255, 255, 255]);
}

#[test]
fn grid_sheet_lays_out_strip_caption_and_image() {
    let cells = vec![
        Cell {
            label: "a".into(),
            image: solid(20, 10, [1, 2, 3, 255]),
        },
        Cell {
            label: "b".into(),
            image: solid(20, 10, [4, 5, 6, 255]),
        },
        Cell {
            label: "c".into(),
            image: solid(20, 10, [7, 8, 9, 255]),
        },
    ];
    let sheet = grid_sheet(&cells, 2);
    // tile 32 x (10 + 22 + 6) = 32 x 38; 2 columns, 2 rows.
    assert_eq!(sheet.dimensions(), (64, 76));
    // Label strip of the first tile.
    assert_eq!(sheet.get_pixel(0, 0), [235, 235, 235, 255]);
    assert_eq!(sheet.get_pixel(31, 21), [235, 235, 235, 255]);
    // Images below their strips, offset by the padding.
    assert_eq!(sheet.get_pixel(6, 22), [1, 2, 3, 255]);
    assert_eq!(sheet.get_pixel(32 + 6, 22), [4, 5, 6, 255]);
    assert_eq!(sheet.get_pixel(6, 38 + 22), [7, 8, 9, 255]);
    // Right padding of a tile stays white; the unused fourth tile is white.
    assert_eq!(sheet.get_pixel(31, 30), [255, 255, 255, 255]);
    assert_eq!(sheet.get_pixel(40, 60), [255, 255, 255, 255]);
    // The caption "a" (3 px wide at scale 2 -> 6 px) is centred: tx = 6 + (20 - 6) / 2.
    let ink = [20, 20, 20, 255];
    assert_eq!(sheet.get_pixel(6 + 7 + 2, 6), ink);
}

#[test]
fn grid_sheet_with_zero_columns_uses_one() {
    let cells = vec![Cell {
        label: "x".into(),
        image: solid(10, 10, [0, 0, 0, 255]),
    }];
    let sheet = grid_sheet(&cells, 0);
    assert_eq!(sheet.dimensions(), (22, 10 + 22 + 6));
}

#[test]
fn diff_marks_changed_pixels_red() {
    let a = solid(3, 2, [100, 100, 100, 255]);
    let mut b = solid(3, 2, [100, 100, 100, 255]);
    b.put_pixel(1, 1, [100, 200, 100, 255]);
    b.put_pixel(2, 0, [110, 100, 100, 255]);
    let (img, changed, compared) = diff_image(&a, &b, 24);
    assert_eq!(img.dimensions(), (3, 2));
    assert_eq!((changed, compared), (1, 6));
    assert_eq!(img.get_pixel(1, 1), [235, 60, 60, 255]);
    // Unchanged: grey of b, halved, plus 18: 100 / 2 + 18 = 68.
    assert_eq!(img.get_pixel(0, 0), [68, 68, 68, 255]);
    // Below the threshold: grey of (110 + 100 + 100) / 3 = 103 -> 51 + 18 = 69.
    assert_eq!(img.get_pixel(2, 0), [69, 69, 69, 255]);
}

#[test]
fn diff_compares_the_common_area_only() {
    let a = solid(4, 1, [0, 0, 0, 255]);
    let b = solid(2, 3, [255, 255, 255, 255]);
    let (img, changed, compared) = diff_image(&a, &b, 0);
    assert_eq!(img.dimensions(), (2, 1));
    assert_eq!((changed, compared), (2, 2));
}

#[test]
fn diff_of_empty_images_is_one_dark_pixel() {
    let a = solid(0, 5, [0, 0, 0, 255]);
    let (img, changed, compared) = diff_image(&a, &a, 10);
    assert_eq!(img.dimensions(), (1, 5));
    assert_eq!(img.get_pixel(0, 4), [28, 28, 32, 255]);
    assert_eq!((changed, compared), (0, 0));
}

#[test]
fn canvas_from_raw_checks_length() {
    assert!(Canvas::from_raw(2, 2, vec![0; 16]).is_some());
    assert!(Canvas::from_raw(2, 2, vec![0; 15]).is_none());
    let c = Canvas::from_raw(1, 2, vec![1, 2, 3, 4, 5, 6, 7, 8]).unwrap();
    assert_eq!(c.get_pixel(0, 1), [5, 6, 7, 8]);
    assert_eq!(c.into_raw(), vec![1, 2, 3, 4, 5, 6, 7, 8]);
}

#[test]
fn overlay_replaces_opaque_and_keeps_transparent() {
    let mut base = solid(3, 3, [9, 9, 9, 255]);
    let mut top = solid(2, 1, [1, 1, 1, 255]);
    top.put_pixel(1, 0, [50, 50, 50, 0]);
    base.overlay(&top, 1, 2);
    assert_eq!(base.get_pixel(1, 2), [1, 1, 1, 255]);
    assert_eq!(base.get_pixel(2, 2), [9, 9, 9, 255]);
    assert_eq!(base.get_pixel(0, 0), [9, 9, 9, 255]);
}

#[test]
fn an_image_compared_with_itself_has_no_changes() {
    let mut a = solid(4, 3, [1, 2, 3, 255]);
    a.put_pixel(2, 1, [200, 0, 0, 255]);
    let (_, changed, compared) = diff_image(&a, &a, 0);
    assert_eq!((changed, compared), (0, 12));
}

#[test]
fn sheet_tiles_cover_distinct_areas() {
    // With 5 cells in 2 columns each image lands in its own tile.
    let cells: Vec<Cell> = (0..5u8)
        .map(|k| Cell {
            label: String::new(),
            image: solid(10, 8, [k, k, k, 255]),
        })
        .collect();
    let sheet = grid_sheet(&cells, 2);
    // tile 22 x (8 + 22 + 6) = 22 x 36; 2 columns, 3 rows.
    assert_eq!(sheet.dimensions(), (44, 108));
    for k in 0..5u32 {
        let (col, row) = (k % 2, k / 2);
        let px = sheet.get_pixel(col * 22 + 6, row * 36 + 22);
        assert_eq!(px, [k as u8, k as u8, k as u8, 255]);
    }
}
