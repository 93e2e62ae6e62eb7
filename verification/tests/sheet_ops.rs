use foto_a4::handle::Handle;
use foto_a4::sheet::{dropped_file_replaces, key_actions, page_to_render, topmost_hit, Grab, KeyActions, PdfLink, Sheet};

fn sheet(names: &[&'static str]) -> Sheet<&'static str> {
    let mut s = Sheet::new();
    for n in names {
        s.push_photo(*n);
    }
    s
}

#[test]
fn new_sheet_is_empty() {
    let s: Sheet<u8> = Sheet::new();
    assert!(s.photos.is_empty());
    assert_eq!(s.selected, None);
    assert!(!s.crop_mode);
    assert_eq!(s.pdf, PdfLink { photo: None, page: 0, page_count: 0 });
}

#[test]
fn pushing_selects_the_new_photo() {
    let mut s = sheet(&["a"]);
    s.crop_mode = true;
    assert_eq!(s.push_photo("b"), 1);
    assert_eq!(s.photos, vec!["a", "b"]);
    assert_eq!(s.selected, Some(1));
    assert!(!s.crop_mode);
}

#[test]
fn removing_keeps_the_pdf_on_its_photo() {
    let mut s = sheet(&["a", "b", "c", "d"]);
    s.pdf = PdfLink::linked(3, 5);
    s.selected = Some(1);
    s.crop_mode = true;
    s.remove_selected();
    assert_eq!(s.photos, vec!["a", "c", "d"]);
    assert_eq!(s.pdf, PdfLink { photo: Some(2), page: 0, page_count: 5 });
    assert_eq!(s.photos[s.pdf.photo.unwrap()], "d");
    assert_eq!(s.selected, Some(1));
    assert!(!s.crop_mode);
}

#[test]
fn removing_the_pdf_photo_drops_the_link() {
    let mut s = sheet(&["a", "b"]);
    s.pdf = PdfLink { photo: Some(1), page: 2, page_count: 4 };
    s.remove_selected();
    assert_eq!(s.photos, vec!["a"]);
    assert_eq!(s.pdf, PdfLink { photo: None, page: 2, page_count: 0 });
    assert_eq!(s.selected, Some(0));
    s.remove_selected();
    assert!(s.photos.is_empty());
    assert_eq!(s.selected, None);
}

#[test]
fn removing_without_selection_changes_nothing() {
    let mut s = sheet(&["a", "b"]);
    s.selected = None;
    s.remove_selected();
    assert_eq!(s.photos, vec!["a", "b"]);
    s.selected = Some(7);
    s.remove_selected();
    assert_eq!(s.photos, vec!["a", "b"]);
    assert_eq!(s.selected, Some(7));
}

#[test]
fn bring_to_front_moves_the_selected_photo_on_top() {
    let mut s = sheet(&["a", "b", "c"]);
    s.selected = Some(0);
    s.pdf = PdfLink::linked(2, 3);
    s.bring_to_front();
    assert_eq!(s.photos, vec!["b", "c", "a"]);
    assert_eq!(s.selected, Some(2));
    assert_eq!(s.pdf.photo, Some(1));
    assert_eq!(s.photos[1], "c");
    s.pdf = PdfLink::linked(2, 3);
    s.selected = Some(2);
    s.bring_to_front();
    assert_eq!(s.photos, vec!["b", "c", "a"]);
    assert_eq!(s.pdf.photo, Some(2));
    s.selected = Some(1);
    s.bring_to_front();
    assert_eq!(s.photos, vec!["b", "a", "c"]);
    assert_eq!(s.pdf.photo, Some(1));
}

#[test]
fn selection_lookup() {
    let mut s = sheet(&["a", "b"]);
    assert_eq!(s.selected_index(), Some(1));
    s.selected = Some(2);
    assert_eq!(s.selected_index(), None);
    s.selected = None;
    assert_eq!(s.selected_index(), None);
}

#[test]
fn replacing_with_a_pdf_links_it() {
    let mut s = sheet(&["a", "b", "c"]);
    s.crop_mode = true;
    s.mark_replaced(0, Some(4));
    assert_eq!(s.pdf, PdfLink { photo: Some(0), page: 0, page_count: 4 });
    assert_eq!(s.selected, Some(0));
    assert!(!s.crop_mode);
    s.mark_replaced(1, None);
    assert_eq!(s.pdf, PdfLink { photo: Some(0), page: 0, page_count: 4 });
    s.pdf.page = 2;
    s.mark_replaced(0, None);
    assert_eq!(s.pdf, PdfLink { photo: None, page: 2, page_count: 0 });
    assert_eq!(s.selected, Some(0));
}

#[test]
fn pdf_page_navigation() {
    let mut l = PdfLink::linked(0, 3);
    assert!(l.has_pages());
    assert!(!l.can_go_back());
    assert!(l.can_go_forward());
    l.go_forward();
    l.go_forward();
    assert_eq!(l.page, 2);
    assert!(!l.can_go_forward());
    l.go_back();
    assert_eq!(l.page, 1);
    l.go_to(10);
    assert_eq!(l.page, 2);
    l.go_to(0);
    assert_eq!(l.page, 0);
    l.go_to(2);
    assert_eq!(l.page, 1);
    l.page = 7;
    l.set_page_count(4);
    assert_eq!((l.page, l.page_count), (3, 4));
    l.set_page_count(0);
    assert_eq!((l.page, l.page_count), (0, 0));
    assert!(!l.has_pages());
    assert!(!PdfLink::none().has_pages());
    let one = PdfLink::linked(2, 1);
    assert!(!one.has_pages());
    assert!(PdfLink::linked(2, 2).has_pages());
    assert_eq!(PdfLink::none(), PdfLink { photo: None, page: 0, page_count: 0 });
}

#[test]
fn page_rendered_for_a_request() {
    assert_eq!(page_to_render(0, 0), None);
    assert_eq!(page_to_render(1, 3), Some(1));
    assert_eq!(page_to_render(9, 3), Some(2));
}

#[test]
fn topmost_photo_under_the_pointer() {
    assert_eq!(topmost_hit(&vec![true, false, true, false]), Some(2));
    assert_eq!(topmost_hit(&vec![false, false]), None);
    assert_eq!(topmost_hit(&vec![]), None);
    let mut s = sheet(&["a", "b", "c"]);
    let hits = vec![true, true, false];
    assert_eq!(s.photo_at_screen(true, Some(&hits)), Some(1));
    assert_eq!(s.photo_at_screen(false, Some(&hits)), None);
    assert_eq!(s.photo_at_screen(true, None), None);
    s.crop_mode = true;
    assert_eq!(s.photo_at_screen(true, Some(&hits)), None);
}

#[test]
fn drag_grabs_selected_handle_first() {
    let mut s = sheet(&["a", "b", "c"]);
    s.selected = Some(0);
    let handles = vec![Some(Handle::SE), None, Some(Handle::N)];
    let inside = vec![true, true, false];
    assert_eq!(s.start_drag(&handles, &inside), Some(Grab::Resize(Handle::SE)));
    assert_eq!(s.selected, Some(0));
    let handles = vec![None, None, Some(Handle::N)];
    assert_eq!(s.start_drag(&handles, &inside), Some(Grab::Resize(Handle::N)));
    assert_eq!(s.selected, Some(2));
    let handles = vec![None, None, None];
    assert_eq!(s.start_drag(&handles, &inside), Some(Grab::Move));
    assert_eq!(s.selected, Some(1));
    let inside = vec![false, false, false];
    assert_eq!(s.start_drag(&handles, &inside), None);
    assert_eq!(s.selected, Some(1));
}

#[test]
fn only_the_first_dropped_file_replaces() {
    assert_eq!(dropped_file_replaces(0, Some(3)), Some(3));
    assert_eq!(dropped_file_replaces(1, Some(3)), None);
    assert_eq!(dropped_file_replaces(0, None), None);
}

#[test]
fn adding_then_removing_restores_the_sheet() {
    let mut s = sheet(&["a", "b"]);
    s.pdf = PdfLink::linked(1, 2);
    s.push_photo("c");
    s.remove_selected();
    assert_eq!(s.photos, vec!["a", "b"]);
    assert_eq!(s.pdf, PdfLink::linked(1, 2));
}

#[test]
fn double_click_opens_the_crop_editor() {
    let mut s = sheet(&["a", "b", "c"]);
    s.selected = Some(0);
    s.open_crop_at(None);
    assert_eq!((s.selected, s.crop_mode), (Some(0), false));
    s.open_crop_at(Some(2));
    assert_eq!((s.selected, s.crop_mode), (Some(2), true));
    s.crop_mode = false;
    s.open_crop_at(Some(7));
    assert_eq!((s.selected, s.crop_mode), (Some(2), false));
    assert_eq!(s.photos, vec!["a", "b", "c"]);
}

#[test]
fn keys_close_the_crop_and_remove_the_selection() {
    let none = KeyActions { finish_crop: false, remove_selected: false };
    assert_eq!(key_actions(true, true, false, true, false), KeyActions { finish_crop: true, remove_selected: false });
    assert_eq!(key_actions(false, true, false, true, false), none);
    assert_eq!(key_actions(false, true, false, false, true), KeyActions { finish_crop: false, remove_selected: true });
    assert_eq!(key_actions(false, true, true, false, true), none);
    assert_eq!(key_actions(false, false, false, false, true), none);
    assert_eq!(key_actions(true, true, false, false, true), none);
    assert_eq!(key_actions(true, true, false, true, true), KeyActions { finish_crop: true, remove_selected: true });
}
