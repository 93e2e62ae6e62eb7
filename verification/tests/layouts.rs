use foto_a4::collage::{assign_cells, grid_cells, grid_columns, template_cells, UnitRect, TEMPLATE_SPAN};

fn r(x: u64, y: u64, w: u64, h: u64) -> UnitRect {
    UnitRect { x, y, w, h }
}

#[test]
fn one_photo_fills_the_area() {
    let c = template_cells(1, true);
    assert_eq!((c.span_x, c.span_y, c.grid), (TEMPLATE_SPAN, TEMPLATE_SPAN, false));
    assert_eq!(c.cells, vec![r(0, 0, 300, 300)]);
}

#[test]
fn two_photos_side_by_side() {
    assert_eq!(template_cells(2, true).cells, vec![r(0, 0, 300, 150), r(0, 150, 300, 150)]);
    assert_eq!(template_cells(2, false).cells, vec![r(0, 0, 150, 300), r(150, 0, 150, 300)]);
}

#[test]
fn four_photos_one_large_and_three_beside() {
    assert_eq!(
        template_cells(4, true).cells,
        vec![r(0, 0, 300, 186), r(0, 186, 100, 114), r(100, 186, 100, 114), r(200, 186, 100, 114)]
    );
    assert_eq!(
        template_cells(4, false).cells,
        vec![r(0, 0, 186, 300), r(186, 0, 114, 100), r(186, 100, 114, 100), r(186, 200, 114, 100)]
    );
}

#[test]
fn three_and_five_photos() {
    assert_eq!(
        template_cells(3, true).cells,
        vec![r(0, 0, 300, 180), r(0, 180, 150, 120), r(150, 180, 150, 120)]
    );
    assert_eq!(
        template_cells(5, false).cells,
        vec![r(0, 0, 180, 300), r(180, 0, 120, 75), r(180, 75, 120, 75), r(180, 150, 120, 75), r(180, 225, 120, 75)]
    );
}

#[test]
fn no_photo_no_cell() {
    assert!(template_cells(0, true).cells.is_empty());
}

#[test]
fn six_photos_in_a_grid() {
    let p = template_cells(6, true);
    assert_eq!((p.span_x, p.span_y, p.grid), (2, 3, true));
    assert_eq!(p.cells[5], r(1, 2, 1, 1));
    let l = template_cells(6, false);
    assert_eq!((l.span_x, l.span_y), (3, 2));
    assert_eq!(l.cells[4], r(1, 1, 1, 1));
}

#[test]
fn larger_collages_use_a_square_grid() {
    let c = template_cells(7, true);
    assert_eq!((c.span_x, c.span_y, c.grid), (3, 3, true));
    assert_eq!(c.cells.len(), 7);
    assert_eq!(c.cells[0], r(0, 2, 3, 1));
    assert_eq!(c.cells[1], r(0, 0, 1, 1));
    assert_eq!(c.cells[6], r(2, 1, 1, 1));
    let c = template_cells(10, false);
    assert_eq!((c.span_x, c.span_y), (8, 3));
    assert_eq!(c.cells[0], r(0, 2, 4, 1));
    assert_eq!(c.cells[1], r(4, 2, 4, 1));
    assert_eq!(c.cells[2], r(0, 0, 2, 1));
    assert_eq!(c.cells[9], r(6, 1, 2, 1));
    let c = template_cells(9, true);
    assert_eq!((c.span_x, c.span_y), (3, 3));
    assert_eq!(c.cells[8], r(2, 2, 1, 1));
    assert_eq!(grid_columns(16), 4);
    assert_eq!(grid_columns(17), 5);
    assert_eq!(grid_columns(0), 1);
    assert_eq!(grid_columns(1), 1);
    assert_eq!(grid_columns(2), 2);
    assert_eq!(
        grid_cells(3, 2, 4),
        (vec![r(0, 1, 3, 1), r(0, 0, 1, 1), r(1, 0, 1, 1), r(2, 0, 1, 1)], 3)
    );
    assert_eq!(grid_cells(2, 2, 4), (vec![r(0, 0, 1, 1), r(1, 0, 1, 1), r(0, 1, 1, 1), r(1, 1, 1, 1)], 2));
}

#[test]
fn cells_cover_the_area_without_overlap() {
    for n in 1..=40usize {
        for portrait in [true, false] {
            let c = template_cells(n, portrait);
            assert_eq!(c.cells.len(), n);
            let total: u64 = c.cells.iter().map(|r| r.w * r.h).sum();
            assert_eq!(total, c.span_x * c.span_y);
            for i in 0..n {
                let a = c.cells[i];
                assert!(a.x + a.w <= c.span_x && a.y + a.h <= c.span_y);
                for j in 0..n {
                    let b = c.cells[j];
                    if i != j {
                        assert!(a.x + a.w <= b.x || b.x + b.w <= a.x || a.y + a.h <= b.y || b.y + b.h <= a.y);
                    }
                    if i <= j {
                        assert!(a.w * a.h >= b.w * b.h);
                    }
                }
            }
        }
    }
}

#[test]
fn cells_go_to_the_best_free_photo() {
    let prefs = vec![vec![2, 0, 1], vec![2, 1, 0], vec![1, 0, 2]];
    assert_eq!(assign_cells(&prefs), vec![2, 1, 0]);
    let same = vec![vec![0, 1, 2], vec![0, 1, 2], vec![0, 1, 2]];
    assert_eq!(assign_cells(&same), vec![0, 1, 2]);
    assert_eq!(assign_cells(&vec![]), Vec::<usize>::new());
}

#[test]
fn a_photo_left_out_keeps_cell_zero() {
    let prefs = vec![vec![1], vec![1]];
    assert_eq!(assign_cells(&prefs), vec![0, 0]);
}
