//! Decisions taken on file names: the name shown for a photo, whether a
//! file is a PDF, which decoders to try for an image, and the window that
//! owns the print dialog.
use vstd::prelude::*;
use vstd::string::StringSliceAdditionalSpecFns;

verus! {

/// A byte with ASCII capitals turned into small letters.
pub open spec fn ascii_lower(b: u8) -> u8 {
    if 0x41 <= b && b <= 0x5A {
        (b + 32) as u8
    } else {
        b
    }
}

/// Equal byte strings, ignoring the case of ASCII letters.
pub open spec fn same_ignoring_ascii_case(a: Seq<u8>, b: Seq<u8>) -> bool {
    a.len() == b.len() && forall|i: int| 0 <= i < a.len() ==> ascii_lower(a[i]) == ascii_lower(b[i])
}

fn lower(b: u8) -> (r: u8)
    ensures
        r == ascii_lower(b),
{
    if 0x41 <= b && b <= 0x5A {
        b + 32
    } else {
        b
    }
}

/// Compares two byte strings ignoring the case of ASCII letters.
pub fn eq_ignore_ascii_case(a: &[u8], b: &[u8]) -> (r: bool)
    ensures
        r == same_ignoring_ascii_case(a@, b@),
{
    if a.len() != b.len() {
        return false;
    }
    let mut i: usize = 0;
    while i < a.len()
        invariant
            i <= a@.len(),
            a@.len() == b@.len(),
            forall|j: int| 0 <= j < i ==> ascii_lower(a@[j]) == ascii_lower(b@[j]),
        decreases a@.len() - i,
    {
        if lower(a[i]) != lower(b[i]) {
            return false;
        }
        i = i + 1;
    }
    true
}

/// The bytes of `pdf`.
pub open spec fn pdf_word() -> Seq<u8> {
    seq![0x70u8, 0x64u8, 0x66u8]
}

/// The file extension (as UTF-8 text, if the file has one) names a PDF,
/// whatever the case of its letters.
pub open spec fn names_pdf(ext: Option<Seq<u8>>) -> bool {
    ext matches Some(e) && same_ignoring_ascii_case(e, pdf_word())
}

/// Whether a file with extension `ext` is opened as a PDF.
pub fn is_pdf(ext: Option<&str>) -> (b: bool)
    ensures
        b == names_pdf(
            match ext {
                Some(e) => Some(e.spec_bytes()),
                None => None,
            },
        ),
{
    match ext {
        Some(e) => {
            let word: Vec<u8> = vec![0x70u8, 0x64u8, 0x66u8];
            assert(word@ =~= pdf_word());
            eq_ignore_ascii_case(e.as_bytes(), word.as_slice())
        },
        None => false,
    }
}

/// A way of decoding an image file.
#[derive(Clone, Copy, PartialEq, Eq, Debug, Structural)]
pub enum Decoder {
    /// The `image` crate.
    ImageCrate,
    /// The Windows Imaging Component.
    Wic,
    /// The libheif library built into the program.
    Libheif,
    /// The Windows PDF engine, first page.
    Pdf,
}

/// The decoders to try, in order, for a file with extension `ext`, when the
/// native Windows decoders are available (`native`) or not. The first that
/// succeeds gives the image; when all fail, the error of the first is
/// reported.
pub open spec fn decoder_order(ext: Seq<u8>, native: bool) -> Seq<Decoder> {
    if !native {
        seq![Decoder::ImageCrate]
    } else if same_ignoring_ascii_case(ext, pdf_word()) {
        seq![Decoder::Pdf]
    } else if same_ignoring_ascii_case(ext, seq![0x68u8, 0x65u8, 0x69u8, 0x63u8])
        || same_ignoring_ascii_case(ext, seq![0x68u8, 0x65u8, 0x69u8, 0x66u8])
        || same_ignoring_ascii_case(ext, seq![0x68u8, 0x69u8, 0x66u8]) {
        seq![Decoder::Libheif, Decoder::Wic]
    } else if same_ignoring_ascii_case(ext, seq![0x61u8, 0x76u8, 0x69u8, 0x66u8]) {
        seq![Decoder::Wic, Decoder::Libheif]
    } else {
        seq![Decoder::ImageCrate, Decoder::Wic, Decoder::Libheif]
    }
}

/// Which decoders an extension gets, word by word, whatever the case of
/// its letters. Without the native decoders, only the `image` crate. With
/// them: `pdf` the PDF engine alone; `heic`, `heif` and `hif` libheif and
/// then WIC; `avif` WIC and then libheif; any other extension the `image`
/// crate, then WIC, then libheif.
pub proof fn lemma_decoders_by_extension(ext: Seq<u8>)
    ensures
        decoder_order(ext, false) == seq![Decoder::ImageCrate],
        same_ignoring_ascii_case(ext, seq![0x70u8, 0x64u8, 0x66u8]) ==> decoder_order(ext, true)
            == seq![Decoder::Pdf],
        same_ignoring_ascii_case(ext, seq![0x68u8, 0x65u8, 0x69u8, 0x63u8]) ==> decoder_order(
            ext,
            true,
        ) == seq![Decoder::Libheif, Decoder::Wic],
        same_ignoring_ascii_case(ext, seq![0x68u8, 0x65u8, 0x69u8, 0x66u8]) ==> decoder_order(
            ext,
            true,
        ) == seq![Decoder::Libheif, Decoder::Wic],
        same_ignoring_ascii_case(ext, seq![0x68u8, 0x69u8, 0x66u8]) ==> decoder_order(ext, true)
            == seq![Decoder::Libheif, Decoder::Wic],
        same_ignoring_ascii_case(ext, seq![0x61u8, 0x76u8, 0x69u8, 0x66u8]) ==> decoder_order(
            ext,
            true,
        ) == seq![Decoder::Wic, Decoder::Libheif],
        !same_ignoring_ascii_case(ext, seq![0x70u8, 0x64u8, 0x66u8]) && !same_ignoring_ascii_case(
            ext,
            seq![0x68u8, 0x65u8, 0x69u8, 0x63u8],
        ) && !same_ignoring_ascii_case(ext, seq![0x68u8, 0x65u8, 0x69u8, 0x66u8])
            && !same_ignoring_ascii_case(ext, seq![0x68u8, 0x69u8, 0x66u8])
            && !same_ignoring_ascii_case(ext, seq![0x61u8, 0x76u8, 0x69u8, 0x66u8])
            ==> decoder_order(ext, true) == seq![
            Decoder::ImageCrate,
            Decoder::Wic,
            Decoder::Libheif,
        ],
{
    assert(pdf_word() =~= seq![0x70u8, 0x64u8, 0x66u8]);
    if same_ignoring_ascii_case(ext, seq![0x61u8, 0x76u8, 0x69u8, 0x66u8]) {
        assert(ascii_lower(ext[0]) == ascii_lower(0x61u8));
    }
}

/// The decoders to try for a file with extension `ext` (empty when the
/// file has none): a PDF by the PDF engine; HEIC, HEIF and HIF by libheif
/// and then WIC; AVIF by WIC and then libheif; anything else by the `image`
/// crate, then WIC, then libheif. Without the native decoders, only the
/// `image` crate.
pub fn decoders_for(ext: &str, native: bool) -> (d: Vec<Decoder>)
    ensures
        d@ == decoder_order(ext.spec_bytes(), native),
        !native ==> d@ == seq![Decoder::ImageCrate],
        native && same_ignoring_ascii_case(ext.spec_bytes(), seq![0x70u8, 0x64u8, 0x66u8]) ==> d@
            == seq![Decoder::Pdf],
        native && (same_ignoring_ascii_case(ext.spec_bytes(), seq![0x68u8, 0x65u8, 0x69u8, 0x63u8])
            || same_ignoring_ascii_case(ext.spec_bytes(), seq![0x68u8, 0x65u8, 0x69u8, 0x66u8])
            || same_ignoring_ascii_case(ext.spec_bytes(), seq![0x68u8, 0x69u8, 0x66u8])) ==> d@
            == seq![Decoder::Libheif, Decoder::Wic],
        native && same_ignoring_ascii_case(ext.spec_bytes(), seq![0x61u8, 0x76u8, 0x69u8, 0x66u8])
            ==> d@ == seq![Decoder::Wic, Decoder::Libheif],
{
    proof {
        lemma_decoders_by_extension(ext.spec_bytes());
    }
    if !native {
        return vec![Decoder::ImageCrate];
    }
    let e = ext.as_bytes();
    let pdf: Vec<u8> = vec![0x70u8, 0x64u8, 0x66u8];
    let heic: Vec<u8> = vec![0x68u8, 0x65u8, 0x69u8, 0x63u8];
    let heif: Vec<u8> = vec![0x68u8, 0x65u8, 0x69u8, 0x66u8];
    let hif: Vec<u8> = vec![0x68u8, 0x69u8, 0x66u8];
    let avif: Vec<u8> = vec![0x61u8, 0x76u8, 0x69u8, 0x66u8];
    assert(pdf@ =~= pdf_word());
    assert(heic@ =~= seq![0x68u8, 0x65u8, 0x69u8, 0x63u8]);
    assert(heif@ =~= seq![0x68u8, 0x65u8, 0x69u8, 0x66u8]);
    assert(hif@ =~= seq![0x68u8, 0x69u8, 0x66u8]);
    assert(avif@ =~= seq![0x61u8, 0x76u8, 0x69u8, 0x66u8]);
    let d = if eq_ignore_ascii_case(e, pdf.as_slice()) {
        vec![Decoder::Pdf]
    } else if eq_ignore_ascii_case(e, heic.as_slice()) || eq_ignore_ascii_case(e, heif.as_slice())
        || eq_ignore_ascii_case(e, hif.as_slice()) {
        vec![Decoder::Libheif, Decoder::Wic]
    } else if eq_ignore_ascii_case(e, avif.as_slice()) {
        vec![Decoder::Wic, Decoder::Libheif]
    } else {
        vec![Decoder::ImageCrate, Decoder::Wic, Decoder::Libheif]
    };
    assert(d@ =~= decoder_order(ext.spec_bytes(), native));
    d
}

/// The path ends in a `..` component: it is `..` or ends in `/..`.
pub open spec fn ends_in_parent(path: Seq<char>) -> bool {
    path =~= seq!['.', '.'] || (path.len() >= 3 && path[path.len() - 3] == '/' && path[path.len()
        - 2] == '.' && path[path.len() - 1] == '.')
}

/// A separator of path components on some platform: `/`, or `\\` on
/// Windows.
pub open spec fn is_separator(c: char) -> bool {
    c == '/' || c == '\\'
}

/// The path opens with two separators, as `\\?\`, `\\.\` and network
/// shares do: on Windows such a prefix has rules of its own (after `\\?\`,
/// `/` is no separator; after a share's name, the next name is part of the
/// prefix).
pub open spec fn opens_with_two_separators(path: Seq<char>) -> bool {
    path.len() >= 2 && is_separator(path[0]) && is_separator(path[1])
}

/// A name that is one whole path component on every platform: not empty,
/// not `.` or `..`, and without `/`, `\\` or `:`.
pub open spec fn plain_name(f: Seq<char>) -> bool {
    &&& f.len() > 0
    &&& f != seq!['.']
    &&& f != seq!['.', '.']
    &&& forall|i: int| 0 <= i < f.len() ==> f[i] != '/' && f[i] != '\\' && f[i] != ':'
}

/// The path names no file: it is empty, `.` or `/`.
pub open spec fn names_no_file(path: Seq<char>) -> bool {
    path.len() == 0 || path =~= seq!['.'] || path =~= seq!['/']
}

/// The path ends in `/` followed by the plain name `f`.
pub open spec fn ends_with_component(path: Seq<char>, f: Seq<char>) -> bool {
    &&& plain_name(f)
    &&& path.len() > f.len()
    &&& path[path.len() - f.len() - 1] == '/'
    &&& path.subrange(path.len() - f.len(), path.len() as int) =~= f
}

/// The path without the `/` characters that end it (a trailing separator
/// adds no component).
pub open spec fn without_trailing_slashes(path: Seq<char>) -> Seq<char>
    decreases path.len(),
{
    if path.len() > 0 && path.last() == '/' {
        without_trailing_slashes(path.drop_last())
    } else {
        path
    }
}

/// The last component of a path, as `std::path::Path::file_name` gives it,
/// made into text (`to_string_lossy`, which keeps text that is already
/// UTF-8). Claimed, as `Path::file_name` and `Path::components` behave on
/// every platform, of a path that does not open with two separators, once
/// the `/` characters that end it are set aside: none when what is left is
/// empty or `.`, or ends in a `..` component; what is left when it is a
/// plain name; the name after its last `/` when that name is plain. Where
/// the platform's rules decide (a `\\` that ends the path, a `\\` or a `:`
/// in the last part, a path that opens with two separators), nothing is
/// claimed.
#[verifier::external_body]
fn path_file_name(path: &str) -> (r: Option<String>)
    ensures
        !opens_with_two_separators(path@) && names_no_file(without_trailing_slashes(path@))
            ==> r is None,
        !opens_with_two_separators(path@) && ends_in_parent(without_trailing_slashes(path@))
            ==> r is None,
        !opens_with_two_separators(path@) && plain_name(without_trailing_slashes(path@)) ==> r
            is Some && r.unwrap()@ == without_trailing_slashes(path@),
        forall|f: Seq<char>|
            #[trigger] ends_with_component(without_trailing_slashes(path@), f)
                && !opens_with_two_separators(path@) ==> r is Some && r.unwrap()@ == f,
{
    std::path::Path::new(path).file_name().map(|n| n.to_string_lossy().to_string())
}

/// The name shown for a photo whose file has the last path component
/// `component`: the component itself, or `imagem` when there is none.
pub fn display_name(component: Option<String>) -> (s: String)
    ensures
        s@ == (match component {
            Some(c) => c@,
            None => "imagem"@,
        }),
{
    match component {
        Some(c) => c,
        None => "imagem".to_owned(),
    }
}

/// The name shown for the photo of file `path`: its last component, or
/// `imagem` when the path has none (as when it is `/` or ends in `..`).
/// Separators that end the path add no component.
pub fn file_name(path: &str) -> (s: String)
    ensures
        !opens_with_two_separators(path@) && names_no_file(without_trailing_slashes(path@))
            ==> s@ == "imagem"@,
        !opens_with_two_separators(path@) && ends_in_parent(without_trailing_slashes(path@))
            ==> s@ == "imagem"@,
        !opens_with_two_separators(path@) && plain_name(without_trailing_slashes(path@)) ==> s@
            == without_trailing_slashes(path@),
        forall|f: Seq<char>|
            #[trigger] ends_with_component(without_trailing_slashes(path@), f)
                && !opens_with_two_separators(path@) ==> s@ == f,
{
    display_name(path_file_name(path))
}

/// The window that owns the print dialog: the foreground window when there
/// is one (`foreground` is not null), else the window found by the
/// program's title (`by_title`, null when none was found).
pub fn owner_window(foreground: isize, by_title: isize) -> (w: isize)
    ensures
        w == (if foreground != 0 {
            foreground
        } else {
            by_title
        }),
{
    if foreground != 0 {
        foreground
    } else {
        by_title
    }
}

/// Decoding a file by trying its decoders in turn: the order to try them
/// in, how many were tried, and the error of the first that failed.
pub struct DecodeAttempts {
    pub order: Vec<Decoder>,
    pub tried: usize,
    pub first_error: Option<String>,
}

impl DecodeAttempts {
    /// No decoder tried yet.
    pub fn new(order: Vec<Decoder>) -> (a: DecodeAttempts)
        ensures
            a.order@ == order@,
            a.tried == 0,
            a.first_error is None,
    {
        DecodeAttempts { order, tried: 0, first_error: None }
    }

    /// The decoder to try next; none once every decoder was tried.
    pub fn next_decoder(&self) -> (d: Option<Decoder>)
        ensures
            d == (if self.tried < self.order@.len() {
                Some(self.order@[self.tried as int])
            } else {
                None
            }),
    {
        if self.tried < self.order.len() {
            Some(self.order[self.tried])
        } else {
            None
        }
    }

    /// The decoder tried last failed with `error`: go on to the next one,
    /// keeping the error of the first that failed. (One that succeeds ends
    /// the attempts with its image.)
    pub fn failed(&mut self, error: String)
        requires
            old(self).tried < old(self).order@.len(),
        ensures
            final(self).order@ == old(self).order@,
            final(self).tried == old(self).tried + 1,
            final(self).first_error == (match old(self).first_error {
                Some(e) => Some(e),
                None => Some(error),
            }),
    {
        let n = self.order.len();
        assert(self.tried < n);
        self.tried = self.tried + 1;
        if self.first_error.is_none() {
            self.first_error = Some(error);
        }
    }

    /// The error reported when no decoder succeeded: that of the first
    /// one, or `formato não suportado` when there was none to try.
    pub fn final_error(self) -> (e: String)
        ensures
            e@ == (match self.first_error {
                Some(f) => f@,
                None => "formato não suportado"@,
            }),
    {
        match self.first_error {
            Some(f) => f,
            None => "formato não suportado".to_owned(),
        }
    }
}

} // verus!
