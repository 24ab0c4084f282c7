use struct_grid::grid::cell_is_even;
use struct_grid::grid::label_size_tier;
use struct_grid::grid::overlay_blocks;
use struct_grid::grid::struct_tier_cells;
use struct_grid::grid::visible_cells;
use struct_grid::layout::compute_layout;
use struct_grid::layout::FieldSize;

const CELL_WIDTH: i64 = 50;

#[test]
fn cells_have_exact_width_and_contiguous_increasing_indices() {
    for &(start, end, byte_size) in &[
        (0i64, 400i64, 1i64),
        (0, 400, 16),
        (12345, 13000, 4),
        (1_000_000, 1_000_400, 8),
        (7, 7, 2),
    ] {
        let cells = visible_cells(start, end, byte_size, CELL_WIDTH);
        let cw = byte_size * CELL_WIDTH;
        assert!(!cells.is_empty());
        for (k, c) in cells.iter().enumerate() {
            assert_eq!(c.width, cw);
            assert_eq!(c.index, cells[0].index + k as i64);
            assert_eq!(c.address, c.index * byte_size);
            if k + 1 < cells.len() {
                assert_eq!(c.x + cw, cells[k + 1].x);
            }
        }
    }
}

#[test]
fn cells_cover_the_viewport() {
    for &(start, end, byte_size) in &[
        (0i64, 500i64, 1i64),
        (99, 750, 2),
        (123_456, 124_000, 16),
    ] {
        let cells = visible_cells(start, end, byte_size, CELL_WIDTH);
        let cw = byte_size * CELL_WIDTH;
        // the first cell starts at or left of the viewport start
        assert!(cells[0].x <= 0);
        // every cell but the last ends inside the viewport; the last beyond it
        for (k, c) in cells.iter().enumerate() {
            let right_abs = (c.index + 1) * cw;
            if k + 1 < cells.len() {
                assert!(right_abs <= end);
            } else {
                assert!(right_abs > end);
            }
        }
    }
}

#[test]
fn cell_boundaries_are_multiples_of_the_cell_size() {
    for &(start, end, byte_size) in &[(0i64, 300i64, 4i64), (100_003, 100_900, 8)] {
        let cells = visible_cells(start, end, byte_size, CELL_WIDTH);
        let cw = byte_size * CELL_WIDTH;
        for c in cells.iter() {
            // absolute pixel boundary is an exact multiple of the cell width
            assert_eq!(c.x + start, c.index * cw);
            assert_eq!((c.x + start) % cw, 0);
            // byte address is an exact multiple of the level's byte size
            assert_eq!(c.address % byte_size, 0);
        }
    }
}

#[test]
fn struct_tier_boundaries_align_with_total_size() {
    let fields = vec![FieldSize::U8, FieldSize::U128];
    let layout = compute_layout(&fields);
    assert_eq!(layout.total_size, 32);
    for &(start, end) in &[(0i64, 5000i64), (777i64, 4321i64), (123_456i64, 130_000i64)] {
        let cells = struct_tier_cells(layout.total_size, start, end, CELL_WIDTH);
        for c in cells.iter() {
            assert_eq!(c.address % layout.total_size as i64, 0);
            assert_eq!(c.address, c.index * layout.total_size as i64);
            assert_eq!((c.x + start) % (layout.total_size as i64 * CELL_WIDTH), 0);
        }
    }
}

#[test]
fn empty_structure_has_no_struct_tier_cells() {
    let cells = struct_tier_cells(0, 0, 1000, CELL_WIDTH);
    assert!(cells.is_empty());
}

#[test]
fn lookback_includes_partially_visible_cell() {
    // a viewport starting mid-cell still shows the cell it cuts into
    let cells = visible_cells(75, 300, 1, CELL_WIDTH);
    assert!(cells[0].index * CELL_WIDTH <= 75);
    assert_eq!(cells[0].x + 75, cells[0].index * CELL_WIDTH);
}

#[test]
fn banding_alternates_by_parity() {
    assert!(cell_is_even(0));
    assert!(!cell_is_even(1));
    assert!(cell_is_even(-2));
    assert!(!cell_is_even(-1));
    assert!(cell_is_even(123456));
}

#[test]
fn label_tiers_shrink_with_index_magnitude() {
    assert_eq!(label_size_tier(0, 0), 0);
    assert_eq!(label_size_tier(999, 0), 0);
    assert_eq!(label_size_tier(1000, 0), 1);
    assert_eq!(label_size_tier(9999, 0), 1);
    assert_eq!(label_size_tier(10_000, 0), 2);
    assert_eq!(label_size_tier(99_999, 0), 2);
    assert_eq!(label_size_tier(100_000, 0), 3);
    assert_eq!(label_size_tier(999_999, 0), 3);
    assert_eq!(label_size_tier(1_000_000, 0), 4);
    // coarser levels always use the largest size
    assert_eq!(label_size_tier(1_000_000, 1), 0);
    assert_eq!(label_size_tier(5_000, 4), 0);
}

#[test]
fn overlay_blocks_place_fields_and_padding() {
    let fields = vec![FieldSize::U8, FieldSize::U128];
    let layout = compute_layout(&fields);
    let base_x = 1600;
    let base_address = 32;
    let blocks = overlay_blocks(&layout, base_x, base_address, CELL_WIDTH);
    assert_eq!(blocks.len(), 3);
    // field a: one byte at offset 0
    assert!(!blocks[0].is_padding);
    assert_eq!(blocks[0].field_index, 0);
    assert_eq!(blocks[0].x0, base_x);
    assert_eq!(blocks[0].x1, base_x + CELL_WIDTH);
    assert_eq!(blocks[0].address, base_address);
    // field b: sixteen bytes at offset 16
    assert!(!blocks[1].is_padding);
    assert_eq!(blocks[1].field_index, 1);
    assert_eq!(blocks[1].x0, base_x + 16 * CELL_WIDTH);
    assert_eq!(blocks[1].x1, base_x + 32 * CELL_WIDTH);
    assert_eq!(blocks[1].address, base_address + 16);
    // padding: fifteen bytes from offset 1
    assert!(blocks[2].is_padding);
    assert_eq!(blocks[2].x0, base_x + CELL_WIDTH);
    assert_eq!(blocks[2].x1, base_x + 16 * CELL_WIDTH);
    assert_eq!(blocks[2].address, base_address + 1);
}
