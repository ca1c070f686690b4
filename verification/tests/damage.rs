use omabeam::damage::{damage_rows, DamageBox};
use omabeam::frame::PixelRect;

fn bands(damage: &[[i32; 4]], area: PixelRect) -> Vec<(u32, u32)> {
    let boxes: Vec<DamageBox> = damage
        .iter()
        .map(|&[x, y, width, height]| DamageBox {
            x,
            y,
            width,
            height,
        })
        .collect();
    damage_rows(&boxes, area)
        .into_iter()
        .map(|r| (r.start, r.end))
        .collect()
}

#[test]
fn damage_rows_clip_to_the_area_and_merge() {
    let buffer = PixelRect {
        x: 0,
        y: 0,
        width: 100,
        height: 80,
    };
    let rows = |damage: &[[i32; 4]]| bands(damage, buffer);
    assert_eq!(rows(&[[0, 2, 5, 3]]), [(2, 5)]);
    // Overlapping and adjacent boxes merge; the order does not matter.
    assert_eq!(rows(&[[3, 5, 2, 2], [0, 2, 5, 3], [9, 6, 1, 4]]), [(2, 10)]);
    assert_eq!(rows(&[[0, 10, 1, 1], [0, 0, 1, 1]]), [(0, 1), (10, 11)]);
    assert_eq!(rows(&[[0, 0, 1, 10], [0, 2, 1, 3]]), [(0, 10)]);
    // Over-reported boxes are clipped instead of failing the frame.
    assert_eq!(rows(&[[-10, 70, 30, 50]]), [(70, 80)]);
    assert_eq!(rows(&[[-5, -5, i32::MAX, i32::MAX]]), [(0, 80)]);
    // Boxes outside the buffer or without area change nothing.
    assert!(rows(&[[100, 0, 5, 5], [0, 80, 5, 5], [0, 0, 0, 5], [0, 0, 5, -1]]).is_empty());
    assert!(rows(&[[i32::MAX, i32::MAX, i32::MAX, i32::MAX]]).is_empty());
    assert!(rows(&[[i32::MIN, i32::MIN, 10, 10]]).is_empty());
    // A region: only boxes that reach its columns count, and only its rows.
    let region = PixelRect {
        x: 10,
        y: 20,
        width: 30,
        height: 40,
    };
    assert!(bands(&[[0, 0, 10, 100], [40, 0, 5, 100]], region).is_empty());
    assert_eq!(bands(&[[15, 0, 5, 100]], region), [(20, 60)]);
    assert_eq!(bands(&[[39, 59, 5, 5]], region), [(59, 60)]);
}

#[test]
fn no_damage_gives_no_rows_and_every_row_one_band() {
    let area = PixelRect {
        x: 0,
        y: 3,
        width: 4,
        height: 5,
    };
    assert!(bands(&[], area).is_empty());
    let every_row: Vec<[i32; 4]> = (0..20).rev().map(|y| [0, y, 1, 1]).collect();
    assert_eq!(bands(&every_row, area), [(3, 8)]);
}
