//! The photos on the sheet, bottom to top, with the selection, the crop
//! mode and the PDF whose pages one of the photos shows.
use vstd::prelude::*;
use crate::handle::Handle;

verus! {

/// The PDF linked to one photo of the sheet: which photo shows its pages,
/// the page shown (from 0) and the number of pages.
#[derive(Clone, Copy, PartialEq, Eq, Debug, Structural)]
pub struct PdfLink {
    pub photo: Option<usize>,
    pub page: u32,
    pub page_count: u32,
}

/// How a drag on the sheet acts on the photo it grabbed.
#[derive(Clone, Copy, PartialEq, Eq, Debug, Structural)]
pub enum Grab {
    /// Resize by the handle under the pointer.
    Resize(Handle),
    /// Move the whole photo.
    Move,
}

/// The photos placed on the sheet, in drawing order (the last one is on
/// top), with the selected photo, whether the crop editor is open, and the
/// PDF link.
pub struct Sheet<T> {
    pub photos: Vec<T>,
    pub selected: Option<usize>,
    pub crop_mode: bool,
    pub pdf: PdfLink,
}

/// The index is absent or names an element of a sequence of length `len`.
pub open spec fn index_in(o: Option<usize>, len: nat) -> bool {
    o matches Some(i) ==> i < len
}

/// Index of a photo once photo `i` has been removed: the removed photo has
/// none, those above it move down by one.
pub open spec fn index_after_removal(o: Option<usize>, i: usize) -> Option<usize> {
    match o {
        Some(p) => if p == i {
            None
        } else if p > i {
            Some((p - 1) as usize)
        } else {
            Some(p)
        },
        None => None,
    }
}

/// Index of a photo once photo `i` has been moved to the top, at `top`:
/// the moved photo is there, those above it move down by one.
pub open spec fn index_after_raise(o: Option<usize>, i: usize, top: usize) -> Option<usize> {
    match o {
        Some(p) => if p == i {
            Some(top)
        } else if p > i {
            Some((p - 1) as usize)
        } else {
            Some(p)
        },
        None => None,
    }
}

/// The photos once photo `i` has been moved to the top.
pub open spec fn raised<T>(s: Seq<T>, i: int) -> Seq<T> {
    s.remove(i).push(s[i])
}

/// The last index whose entry is `true`, if any.
pub open spec fn last_true(s: Seq<bool>) -> Option<int>
    decreases s.len(),
{
    if s.len() == 0 {
        None
    } else if s.last() {
        Some(s.len() - 1)
    } else {
        last_true(s.drop_last())
    }
}

/// The photo a press grabs: a handle of the selected photo first; else the
/// topmost photo that has a handle under the pointer or contains it, by a
/// handle if one is under the pointer and as a whole otherwise.
pub open spec fn drag_pick(
    selected: Option<usize>,
    handles: Seq<Option<Handle>>,
    inside: Seq<bool>,
) -> Option<(usize, Grab)> {
    if selected matches Some(i) && i < handles.len() && handles[i as int] is Some {
        Some((selected.unwrap(), Grab::Resize(handles[selected.unwrap() as int].unwrap())))
    } else {
        match last_true(Seq::new(handles.len(), |k: int| handles[k] is Some || inside[k])) {
            Some(k) => Some(
                (
                    k as usize,
                    match handles[k] {
                        Some(h) => Grab::Resize(h),
                        None => Grab::Move,
                    },
                ),
            ),
            None => None,
        }
    }
}

/// The link once page `page1` (counted from 1) has been chosen: the page
/// is brought within the document.
pub open spec fn paged_to(l: PdfLink, page1: u32) -> PdfLink {
    PdfLink {
        page: (if page1 < 1 {
            0
        } else if page1 > l.page_count {
            l.page_count - 1
        } else {
            page1 - 1
        }) as u32,
        ..l
    }
}

/// The link once the document has been found to have `page_count` pages:
/// the page shown is brought within it.
pub open spec fn recounted(l: PdfLink, page_count: u32) -> PdfLink {
    PdfLink {
        page_count,
        page: (if page_count == 0 {
            0
        } else if l.page < page_count {
            l.page as int
        } else {
            page_count - 1
        }) as u32,
        ..l
    }
}

impl PdfLink {
    /// No PDF shown.
    pub fn none() -> (l: PdfLink)
        ensures
            l == (PdfLink { photo: None, page: 0, page_count: 0 }),
    {
        PdfLink { photo: None, page: 0, page_count: 0 }
    }

    /// A PDF of `page_count` pages just opened in photo `photo`, on its first
    /// page.
    pub fn linked(photo: usize, page_count: u32) -> (l: PdfLink)
        ensures
            l == (PdfLink { photo: Some(photo), page: 0, page_count }),
    {
        PdfLink { photo: Some(photo), page: 0, page_count }
    }

    /// The page selector is shown: a photo shows the PDF and it has more
    /// than one page.
    pub fn has_pages(&self) -> (b: bool)
        ensures
            b == (self.photo is Some && self.page_count > 1),
    {
        self.photo.is_some() && self.page_count > 1
    }

    /// There is a page before the one shown.
    pub fn can_go_back(&self) -> (b: bool)
        ensures
            b == (self.page > 0),
    {
        self.page > 0
    }

    /// There is a page after the one shown.
    pub fn can_go_forward(&self) -> (b: bool)
        ensures
            b == (self.page + 1 < self.page_count),
    {
        (self.page as u64) + 1 < self.page_count as u64
    }

    /// Shows the previous page.
    pub fn go_back(&mut self)
        requires
            old(self).page > 0,
        ensures
            *final(self) == (PdfLink { page: (old(self).page - 1) as u32, ..*old(self) }),
    {
        self.page = self.page - 1;
    }

    /// Shows the next page.
    pub fn go_forward(&mut self)
        requires
            old(self).page + 1 < old(self).page_count,
        ensures
            *final(self) == (PdfLink { page: (old(self).page + 1) as u32, ..*old(self) }),
    {
        self.page = self.page + 1;
    }

    /// Shows page `page1`, counted from 1, brought within the document.
    pub fn go_to(&mut self, page1: u32)
        requires
            old(self).page_count >= 1,
        ensures
            *final(self) == paged_to(*old(self), page1),
    {
        let p = if page1 < 1 {
            1
        } else if page1 > self.page_count {
            self.page_count
        } else {
            page1
        };
        self.page = p - 1;
    }

    /// Records the page count of the document as rendered, and brings the
    /// page shown within it.
    pub fn set_page_count(&mut self, page_count: u32)
        ensures
            *final(self) == recounted(*old(self), page_count),
    {
        let last = if page_count == 0 {
            0
        } else {
            page_count - 1
        };
        self.page_count = page_count;
        if self.page > last {
            self.page = last;
        }
    }
}

/// The page to render for a request of page `page` in a document of
/// `page_count` pages: none when the document has no page, else the
/// requested page or the last one.
pub fn page_to_render(page: u32, page_count: u32) -> (r: Option<u32>)
    ensures
        r == (if page_count == 0 {
            None
        } else if page < page_count {
            Some(page)
        } else {
            Some((page_count - 1) as u32)
        }),
{
    if page_count == 0 {
        None
    } else if page < page_count {
        Some(page)
    } else {
        Some(page_count - 1)
    }
}

/// The photo replaced by the `k`-th (from 0) of the files dropped together
/// on the sheet, when the drop landed on photo `target`: the first file
/// replaces that photo, every other file is added as a new photo.
pub fn dropped_file_replaces(k: usize, target: Option<usize>) -> (r: Option<usize>)
    ensures
        r == (if k == 0 {
            target
        } else {
            None
        }),
{
    if k == 0 {
        target
    } else {
        None
    }
}

/// The last photo, in drawing order, whose entry is `true`: the one on top
/// among those hit.
pub fn topmost_hit(hits: &Vec<bool>) -> (r: Option<usize>)
    ensures
        r matches Some(i) ==> i as int == last_true(hits@).unwrap(),
        r is None <==> last_true(hits@) is None,
        r matches Some(i) ==> i < hits@.len() && hits@[i as int] && forall|j: int|
            i < j < hits@.len() ==> !hits@[j],
        r is None ==> forall|j: int| 0 <= j < hits@.len() ==> !hits@[j],
{
    let mut k = hits.len();
    proof {
        lemma_last_true(hits@);
    }
    assert(hits@.take(k as int) =~= hits@);
    while k > 0
        invariant
            k <= hits@.len(),
            forall|j: int| k <= j < hits@.len() ==> !hits@[j],
            last_true(hits@) == last_true(hits@.take(k as int)),
        decreases k,
    {
        assert(hits@.take(k as int).last() == hits@[k - 1]);
        if hits[k - 1] {
            return Some(k - 1);
        }
        assert(hits@.take(k as int).drop_last() =~= hits@.take(k - 1));
        k = k - 1;
    }
    assert(hits@.take(0) =~= Seq::<bool>::empty());
    None
}

proof fn lemma_last_true(s: Seq<bool>)
    ensures
        last_true(s) matches Some(i) ==> 0 <= i < s.len() && s[i] && forall|j: int|
            i < j < s.len() ==> !s[j],
        last_true(s) is None ==> forall|j: int| 0 <= j < s.len() ==> !s[j],
    decreases s.len(),
{
    assert(s =~= s.take(s.len() as int));
    if s.len() > 0 && !s.last() {
        lemma_last_true(s.drop_last());
        assert forall|j: int| 0 <= j < s.len() - 1 implies s.drop_last()[j] == s[j] by {}
    }
}

/// Which photo is linked to the PDF, and the page count shown, once the
/// photo `idx` has been replaced by a new file: a PDF of `pdf_pages` pages
/// becomes linked to it on its first page; an image file leaves the link
/// as it was, unless the replaced photo was the linked one.
pub open spec fn pdf_after_replace(pdf: PdfLink, idx: usize, pdf_pages: Option<u32>) -> PdfLink {
    match pdf_pages {
        Some(c) => PdfLink { photo: Some(idx), page: 0, page_count: c },
        None => if pdf.photo == Some(idx) {
            PdfLink { photo: None, page_count: 0, ..pdf }
        } else {
            pdf
        },
    }
}

/// What the keys pressed in a frame do.
#[derive(Clone, Copy, PartialEq, Eq, Debug, Structural)]
pub struct KeyActions {
    /// The crop editor closes (keeping the crop).
    pub finish_crop: bool,
    /// The selected photo is removed.
    pub remove_selected: bool,
}

/// The keys pressed in a frame, in the order the program handles them:
/// Escape closes the crop editor when it is open; then Delete or Backspace
/// (`delete`) removes the selected photo when the crop editor is closed,
/// a photo is selected and no text field has the focus.
pub fn key_actions(
    crop_mode: bool,
    has_selection: bool,
    field_focused: bool,
    escape: bool,
    delete: bool,
) -> (a: KeyActions)
    ensures
        a.finish_crop == (crop_mode && escape),
        a.remove_selected == ((!crop_mode || a.finish_crop) && has_selection && !field_focused
            && delete),
{
    let finish_crop = crop_mode && escape;
    let still_cropping = crop_mode && !finish_crop;
    KeyActions {
        finish_crop,
        remove_selected: !still_cropping && has_selection && !field_focused && delete,
    }
}

impl<T> Sheet<T> {
    /// A double click on the sheet, where `hit` is the photo under the
    /// pointer (see `topmost_hit`): it selects that photo and opens the crop
    /// editor on it. On no photo, nothing changes.
    pub fn open_crop_at(&mut self, hit: Option<usize>)
        ensures
            final(self).photos@ == old(self).photos@,
            final(self).pdf == old(self).pdf,
            match hit {
                Some(i) => if i < old(self).photos@.len() {
                    final(self).selected == Some(i) && final(self).crop_mode
                } else {
                    final(self).selected == old(self).selected && final(self).crop_mode
                        == old(self).crop_mode
                },
                None => final(self).selected == old(self).selected && final(self).crop_mode
                    == old(self).crop_mode,
            },
            old(self).wf() ==> final(self).wf(),
    {
        if let Some(i) = hit {
            if i < self.photos.len() {
                self.selected = Some(i);
                self.crop_mode = true;
            }
        }
    }

    /// The indices held by the sheet name photos it holds.
    pub open spec fn wf(&self) -> bool {
        index_in(self.selected, self.photos@.len()) && index_in(self.pdf.photo, self.photos@.len())
    }

    /// An empty sheet, with nothing selected and no PDF.
    pub fn new() -> (s: Sheet<T>)
        ensures
            s.photos@ == Seq::<T>::empty(),
            s.selected is None,
            !s.crop_mode,
            s.pdf == (PdfLink { photo: None, page: 0, page_count: 0 }),
            s.wf(),
    {
        Sheet { photos: Vec::new(), selected: None, crop_mode: false, pdf: PdfLink::none() }
    }

    /// Puts a new photo on top and selects it, leaving the crop editor.
    pub fn push_photo(&mut self, photo: T) -> (idx: usize)
        ensures
            final(self).photos@ == old(self).photos@.push(photo),
            idx == old(self).photos@.len(),
            final(self).selected == Some(idx),
            !final(self).crop_mode,
            final(self).pdf == old(self).pdf,
            old(self).wf() ==> final(self).wf(),
    {
        self.photos.push(photo);
        let idx = self.photos.len() - 1;
        self.selected = Some(idx);
        self.crop_mode = false;
        idx
    }

    /// The selected photo, when the selection names a photo of the sheet.
    pub fn selected_index(&self) -> (r: Option<usize>)
        ensures
            r == (if index_in(self.selected, self.photos@.len()) {
                self.selected
            } else {
                None
            }),
    {
        match self.selected {
            Some(i) => if i < self.photos.len() {
                Some(i)
            } else {
                None
            },
            None => None,
        }
    }

    /// Removes the selected photo. The PDF link follows its photo (and is
    /// dropped, with its page count, when that photo is the one removed);
    /// the crop editor closes and the selection moves to the photo now at
    /// the same place, or the new top one, or nothing when the sheet is
    /// empty. Without a selected photo nothing changes.
    pub fn remove_selected(&mut self)
        ensures
            match old(self).selected {
                Some(i) => if i < old(self).photos@.len() {
                    &&& final(self).photos@ == old(self).photos@.remove(i as int)
                    &&& final(self).pdf == (PdfLink {
                        photo: index_after_removal(old(self).pdf.photo, i),
                        page_count: if old(self).pdf.photo == Some(i) {
                            0
                        } else {
                            old(self).pdf.page_count
                        },
                        ..old(self).pdf
                    })
                    &&& !final(self).crop_mode
                    &&& final(self).selected == if final(self).photos@.len() == 0 {
                        None
                    } else if i < final(self).photos@.len() {
                        Some(i)
                    } else {
                        Some((final(self).photos@.len() - 1) as usize)
                    }
                } else {
                    *final(self) == *old(self)
                },
                None => *final(self) == *old(self),
            },
            old(self).wf() ==> final(self).wf(),
    {
        let i = match self.selected {
            Some(i) => i,
            None => return ,
        };
        if i >= self.photos.len() {
            return ;
        }
        self.photos.remove(i);
        match self.pdf.photo {
            Some(p) => {
                if p == i {
                    self.pdf.photo = None;
                    self.pdf.page_count = 0;
                } else if p > i {
                    self.pdf.photo = Some(p - 1);
                }
            },
            None => {},
        }
        self.crop_mode = false;
        self.selected = if self.photos.len() == 0 {
            None
        } else if i < self.photos.len() {
            Some(i)
        } else {
            Some(self.photos.len() - 1)
        };
    }

    /// Moves the selected photo to the top of the sheet, keeping it
    /// selected; the PDF link follows its photo. Without a selected photo
    /// nothing changes.
    pub fn bring_to_front(&mut self)
        ensures
            match old(self).selected {
                Some(i) => if i < old(self).photos@.len() {
                    &&& final(self).photos@ == raised(old(self).photos@, i as int)
                    &&& final(self).selected == Some((old(self).photos@.len() - 1) as usize)
                    &&& final(self).pdf == (PdfLink {
                        photo: index_after_raise(
                            old(self).pdf.photo,
                            i,
                            (old(self).photos@.len() - 1) as usize,
                        ),
                        ..old(self).pdf
                    })
                    &&& final(self).crop_mode == old(self).crop_mode
                } else {
                    *final(self) == *old(self)
                },
                None => *final(self) == *old(self),
            },
            old(self).wf() ==> final(self).wf(),
    {
        let i = match self.selected {
            Some(i) => i,
            None => return ,
        };
        if i >= self.photos.len() {
            return ;
        }
        let ph = self.photos.remove(i);
        self.photos.push(ph);
        let top = self.photos.len() - 1;
        match self.pdf.photo {
            Some(p) => {
                if p == i {
                    self.pdf.photo = Some(top);
                } else if p > i {
                    self.pdf.photo = Some(p - 1);
                }
            },
            None => {},
        }
        self.selected = Some(top);
    }

    /// Records that photo `idx` now shows a new file (a PDF of `pdf_pages`
    /// pages, or an image when `None`): it becomes selected, the crop editor
    /// closes and the PDF link is updated as `pdf_after_replace` says.
    pub fn mark_replaced(&mut self, idx: usize, pdf_pages: Option<u32>)
        requires
            idx < old(self).photos@.len(),
        ensures
            final(self).photos@ == old(self).photos@,
            final(self).selected == Some(idx),
            !final(self).crop_mode,
            final(self).pdf == pdf_after_replace(old(self).pdf, idx, pdf_pages),
            old(self).wf() ==> final(self).wf(),
    {
        match pdf_pages {
            Some(c) => {
                self.pdf = PdfLink::linked(idx, c);
            },
            None => {
                if self.pdf.photo == Some(idx) {
                    self.pdf.photo = None;
                    self.pdf.page_count = 0;
                }
            },
        }
        self.selected = Some(idx);
        self.crop_mode = false;
    }

    /// The photo under a point of the screen, for a file dropped there:
    /// none while the crop editor is open, before the sheet has been drawn
    /// (`view_ready` false) or without a pointer position (`hits` none);
    /// else the topmost photo that `hits` marks as containing the point.
    pub fn photo_at_screen(&self, view_ready: bool, hits: Option<&Vec<bool>>) -> (r: Option<
        usize,
    >)
        ensures
            r == (if self.crop_mode || !view_ready {
                None
            } else {
                match hits {
                    Some(h) => match last_true(h@) {
                        Some(i) => Some(i as usize),
                        None => None,
                    },
                    None => None,
                }
            }),
    {
        if self.crop_mode || !view_ready {
            return None;
        }
        match hits {
            Some(h) => topmost_hit(h),
            None => None,
        }
    }

    /// Starts a drag where `handles[k]` is the handle of photo `k` under the
    /// pointer and `inside[k]` tells whether photo `k` contains it. The
    /// grabbed photo (see `drag_pick`) becomes selected and the kind of grab
    /// is returned; when nothing is grabbed the selection stays.
    pub fn start_drag(&mut self, handles: &Vec<Option<Handle>>, inside: &Vec<bool>) -> (g: Option<
        Grab,
    >)
        requires
            handles@.len() == old(self).photos@.len(),
            inside@.len() == old(self).photos@.len(),
        ensures
            match drag_pick(old(self).selected, handles@, inside@) {
                Some((i, grab)) => final(self).selected == Some(i) && g == Some(grab),
                None => final(self).selected == old(self).selected && g is None,
            },
            final(self).photos@ == old(self).photos@,
            final(self).pdf == old(self).pdf,
            final(self).crop_mode == old(self).crop_mode,
            old(self).wf() ==> final(self).wf(),
    {
        if let Some(i) = self.selected {
            if i < handles.len() {
                if let Some(h) = handles[i] {
                    return Some(Grab::Resize(h));
                }
            }
        }
        let mut hits: Vec<bool> = Vec::new();
        let mut k: usize = 0;
        while k < handles.len()
            invariant
                k <= handles@.len(),
                inside@.len() == handles@.len(),
                hits@ =~= Seq::new(k as nat, |j: int| handles@[j] is Some || inside@[j]),
            decreases handles@.len() - k,
        {
            hits.push(handles[k].is_some() || inside[k]);
            k = k + 1;
        }
        assert(hits@ =~= Seq::new(handles@.len(), |j: int| handles@[j] is Some || inside@[j]));
        match topmost_hit(&hits) {
            Some(t) => {
                self.selected = Some(t);
                match handles[t] {
                    Some(h) => Some(Grab::Resize(h)),
                    None => Some(Grab::Move),
                }
            },
            None => None,
        }
    }
}

/// Whatever page is asked for, the page shown stays within the document:
/// choosing a page, stepping back or forward when the selector allows it,
/// and learning the page count all leave a page below the page count.
pub proof fn lemma_page_stays_in_document(l: PdfLink, page1: u32, page_count: u32)
    ensures
        l.page_count >= 1 ==> paged_to(l, page1).page < l.page_count,
        page_count >= 1 ==> recounted(l, page_count).page < page_count,
        l.page < l.page_count && l.page > 0 ==> (PdfLink { page: (l.page - 1) as u32, ..l }).page
            < l.page_count,
        l.page + 1 < l.page_count ==> (PdfLink { page: (l.page + 1) as u32, ..l }).page
            < l.page_count,
{
}

/// Moving a photo to the top keeps every photo of the sheet, puts the moved
/// one on top, and any index into the sheet (the selection, the PDF link)
/// still names the same photo afterwards.
pub proof fn lemma_raise_follows_photos<T>(s: Seq<T>, i: usize, o: Option<usize>)
    requires
        i < s.len() <= usize::MAX,
        index_in(o, s.len()),
    ensures
        raised(s, i as int).len() == s.len(),
        raised(s, i as int).to_multiset() == s.to_multiset(),
        raised(s, i as int)[s.len() - 1] == s[i as int],
        o matches Some(p) ==> (index_after_raise(o, i, (s.len() - 1) as usize) matches Some(q)
            && q < s.len() && raised(s, i as int)[q as int] == s[p as int]),
{
    let r = raised(s, i as int);
    s.remove_ensures(i as int);
    s.to_multiset_ensures();
    s.remove(i as int).to_multiset_ensures();
    assert(s.remove(i as int).to_multiset() =~= s.to_multiset().remove(s[i as int]));
    assert(r.to_multiset() =~= s.remove(i as int).to_multiset().insert(s[i as int]));
    assert(s.contains(s[i as int]));
    assert(s.to_multiset().count(s[i as int]) > 0);
    assert(s.to_multiset().remove(s[i as int]).insert(s[i as int]) =~= s.to_multiset());
    if let Some(p) = o {
        if p == i {
            assert(r[s.len() - 1] == s[i as int]);
        } else if p > i {
            assert(r[p - 1] == s.remove(i as int)[p - 1]);
        } else {
            assert(r[p as int] == s.remove(i as int)[p as int]);
        }
    }
}

/// Removing a photo just added (it is the selected one) undoes the
/// addition: the photos are as before and the PDF link, which named one of
/// them, still names the same index.
pub proof fn lemma_add_then_remove<T>(s: Seq<T>, x: T, o: Option<usize>)
    requires
        s.len() < usize::MAX,
        index_in(o, s.len()),
    ensures
        s.push(x).remove(s.len() as int) == s,
        index_after_removal(o, s.len() as usize) == o,
{
    assert(s.push(x).remove(s.len() as int) =~= s);
}

/// Removing a photo keeps the others in their order, and any index into the
/// sheet that named another photo (the PDF link) still names it afterwards.
pub proof fn lemma_removal_follows_photos<T>(s: Seq<T>, i: usize, o: Option<usize>)
    requires
        i < s.len(),
        index_in(o, s.len()),
    ensures
        index_after_removal(o, i) is None <==> (o is None || o == Some(i)),
        o matches Some(p) ==> (p != i ==> (index_after_removal(o, i) matches Some(q) && q
            < s.len() - 1 && s.remove(i as int)[q as int] == s[p as int])),
{
    s.remove_ensures(i as int);
}

/// The grab a press makes is the topmost one: when the selected photo has
/// no handle under the pointer, the photo grabbed has a handle under the
/// pointer or contains it, no photo above it does either (whatever the
/// photos below it have there), and it is grabbed by its handle when one is
/// under the pointer, as a whole otherwise; nothing is grabbed only when no
/// photo has a handle under the pointer or contains it. A handle of the
/// selected photo under the pointer grabs that photo by it.
pub proof fn lemma_drag_grabs_topmost(
    selected: Option<usize>,
    handles: Seq<Option<Handle>>,
    inside: Seq<bool>,
)
    requires
        handles.len() == inside.len(),
        handles.len() <= usize::MAX,
    ensures
        selected is Some && selected.unwrap() < handles.len() && handles[selected.unwrap() as int]
            is Some ==> drag_pick(selected, handles, inside) == Some(
            (selected.unwrap(), Grab::Resize(handles[selected.unwrap() as int]->0)),
        ),
        !(selected is Some && selected.unwrap() < handles.len() && handles[selected.unwrap() as int]
            is Some) ==> match drag_pick(
            selected,
            handles,
            inside,
        ) {
            Some((i, g)) => {
                &&& i < handles.len()
                &&& handles[i as int] is Some || inside[i as int]
                &&& forall|j: int| i < j < handles.len() ==> !(handles[j] is Some) && !inside[j]
                &&& g == match handles[i as int] {
                    Some(h) => Grab::Resize(h),
                    None => Grab::Move,
                }
            },
            None => forall|j: int| 0 <= j < handles.len() ==> !(handles[j] is Some) && !inside[j],
        },
{
    let hit = Seq::new(handles.len(), |k: int| handles[k] is Some || inside[k]);
    lemma_last_true_is_last(hit);
    match last_true(hit) {
        Some(k) => {
            assert(hit[k]);
            assert forall|j: int| k < j < handles.len() implies !(#[trigger] handles[j] is Some)
                && !inside[j] by {
                assert(!hit[j]);
            }
            assert((k as usize) as int == k);
        },
        None => {
            assert forall|j: int| 0 <= j < handles.len() implies !(#[trigger] handles[j] is Some)
                && !inside[j] by {
                assert(!hit[j]);
            }
        },
    }
}

/// `last_true` gives the last index holding `true`, and none when no index
/// does.
proof fn lemma_last_true_is_last(s: Seq<bool>)
    ensures
        match last_true(s) {
            Some(k) => 0 <= k < s.len() && s[k] && forall|j: int| k < j < s.len() ==> !s[j],
            None => forall|j: int| 0 <= j < s.len() ==> !s[j],
        },
    decreases s.len(),
{
    if s.len() > 0 && !s.last() {
        lemma_last_true_is_last(s.drop_last());
        assert forall|j: int| 0 <= j < s.len() - 1 implies s[j] == s.drop_last()[j] by {}
    }
}

} // verus!
