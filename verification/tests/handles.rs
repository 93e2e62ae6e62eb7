use foto_a4::handle::{handle_at, hit_handle, CursorShape, Handle};
use foto_a4::page::{auto_orient, page_size, A4_HEIGHT_MM, A4_WIDTH_MM};

const ALL: [Handle; 8] = [
    Handle::N,
    Handle::S,
    Handle::E,
    Handle::W,
    Handle::NE,
    Handle::NW,
    Handle::SE,
    Handle::SW,
];

#[test]
fn edges_moved_by_each_handle() {
    assert!(Handle::W.moves_left() && Handle::NW.moves_left() && Handle::SW.moves_left());
    assert!(!Handle::E.moves_left() && !Handle::N.moves_left());
    assert!(Handle::E.moves_right() && Handle::NE.moves_right() && Handle::SE.moves_right());
    assert!(Handle::N.moves_top() && Handle::NW.moves_top() && Handle::NE.moves_top());
    assert!(!Handle::S.moves_top());
    assert!(Handle::S.moves_bottom() && Handle::SW.moves_bottom() && Handle::SE.moves_bottom());
    assert!(Handle::NE.is_corner() && Handle::SW.is_corner());
    assert!(!Handle::N.is_corner() && !Handle::W.is_corner());
}

#[test]
fn no_handle_moves_opposite_edges() {
    for h in ALL {
        assert!(!(h.moves_left() && h.moves_right()));
        assert!(!(h.moves_top() && h.moves_bottom()));
        assert!(h.moves_left() || h.moves_right() || h.moves_top() || h.moves_bottom());
        let horizontal = h.moves_left() || h.moves_right();
        let vertical = h.moves_top() || h.moves_bottom();
        assert_eq!(h.is_corner(), horizontal && vertical);
    }
}

#[test]
fn cursor_per_handle() {
    assert_eq!(Handle::N.cursor(), CursorShape::ResizeVertical);
    assert_eq!(Handle::S.cursor(), CursorShape::ResizeVertical);
    assert_eq!(Handle::E.cursor(), CursorShape::ResizeHorizontal);
    assert_eq!(Handle::W.cursor(), CursorShape::ResizeHorizontal);
    assert_eq!(Handle::NW.cursor(), CursorShape::ResizeNwSe);
    assert_eq!(Handle::SE.cursor(), CursorShape::ResizeNwSe);
    assert_eq!(Handle::NE.cursor(), CursorShape::ResizeNeSw);
    assert_eq!(Handle::SW.cursor(), CursorShape::ResizeNeSw);
}

#[test]
fn corners_are_probed_before_sides() {
    assert_eq!(hit_handle([false; 8]), None);
    assert_eq!(hit_handle([true; 8]), Some(Handle::NW));
    let mut near = [false; 8];
    near[7] = true;
    assert_eq!(hit_handle(near), Some(Handle::E));
    near[4] = true;
    assert_eq!(hit_handle(near), Some(Handle::N));
    near[3] = true;
    assert_eq!(hit_handle(near), Some(Handle::SE));
    let order: Vec<Handle> = (0..8).map(handle_at).collect();
    assert_eq!(
        order,
        vec![
            Handle::NW,
            Handle::NE,
            Handle::SW,
            Handle::SE,
            Handle::N,
            Handle::S,
            Handle::W,
            Handle::E
        ]
    );
}

#[test]
fn sheet_size_follows_orientation() {
    assert_eq!(page_size(false), (210, 297));
    assert_eq!(page_size(true), (297, 210));
    assert_eq!((A4_WIDTH_MM, A4_HEIGHT_MM), (210, 297));
}

#[test]
fn orientation_follows_the_file() {
    let mut landscape = false;
    assert!(auto_orient(&mut landscape, true));
    assert!(landscape);
    assert!(!auto_orient(&mut landscape, true));
    assert!(landscape);
    assert!(auto_orient(&mut landscape, false));
    assert!(!landscape);
}
