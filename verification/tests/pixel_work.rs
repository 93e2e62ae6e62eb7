use foto_a4::files::{decoders_for, display_name, eq_ignore_ascii_case, file_name, is_pdf, owner_window, DecodeAttempts, Decoder};
use foto_a4::pixels::{decode_rendered_page, pack_rows, print_bitmap, rgba_to_bgrx};

#[test]
fn rows_are_packed_without_padding() {
    let data: Vec<u8> = (0..20).collect();
    assert_eq!(pack_rows(&data, 4, 3, 7), vec![0, 1, 2, 3, 7, 8, 9, 10, 14, 15, 16, 17]);
    assert_eq!(pack_rows(&data, 4, 0, 7), Vec::<u8>::new());
}

#[test]
fn rgba_becomes_bgrx() {
    assert_eq!(rgba_to_bgrx(&[1, 2, 3, 4, 5, 6, 7, 8]), vec![3, 2, 1, 255, 7, 6, 5, 255]);
}

fn image(w: u32, h: u32) -> Vec<u8> {
    let mut v = Vec::new();
    for y in 0..h {
        for x in 0..w {
            v.extend_from_slice(&[x as u8, y as u8, 100, 50]);
        }
    }
    v
}

#[test]
fn whole_photo_is_printed_as_is() {
    let img = image(3, 2);
    let b = print_bitmap(&img, 3, 2, 0, 0, 3, 2);
    assert_eq!((b.width, b.height), (3, 2));
    assert_eq!(b.bgrx, rgba_to_bgrx(&img));
}

#[test]
fn cropped_photo_prints_the_region() {
    let img = image(4, 3);
    let b = print_bitmap(&img, 4, 3, 1, 1, 2, 2);
    assert_eq!((b.width, b.height), (2, 2));
    assert_eq!(
        b.bgrx,
        vec![100, 1, 1, 255, 100, 1, 2, 255, 100, 2, 1, 255, 100, 2, 2, 255]
    );
}

#[test]
fn crop_size_is_brought_within_the_photo() {
    let img = image(4, 3);
    let b = print_bitmap(&img, 4, 3, 3, 2, 10, 0);
    assert_eq!((b.width, b.height), (1, 1));
    assert_eq!(b.bgrx, vec![100, 2, 3, 255]);
    let b = print_bitmap(&img, 4, 3, 4, 0, 2, 3);
    assert_eq!((b.width, b.height), (0, 3));
    assert!(b.bgrx.is_empty());
}

#[test]
fn pdf_extension_in_any_case() {
    assert!(is_pdf(Some("pdf")));
    assert!(is_pdf(Some("PdF")));
    assert!(!is_pdf(Some("pdfx")));
    assert!(!is_pdf(Some("jpg")));
    assert!(!is_pdf(None));
    assert!(eq_ignore_ascii_case(b"HeIc", b"heic"));
    assert!(!eq_ignore_ascii_case(b"heic", b"heif"));
}

#[test]
fn decoders_by_extension() {
    assert_eq!(decoders_for("PDF", true), vec![Decoder::Pdf]);
    assert_eq!(decoders_for("heic", true), vec![Decoder::Libheif, Decoder::Wic]);
    assert_eq!(decoders_for("HIF", true), vec![Decoder::Libheif, Decoder::Wic]);
    assert_eq!(decoders_for("avif", true), vec![Decoder::Wic, Decoder::Libheif]);
    assert_eq!(decoders_for("jpg", true), vec![Decoder::ImageCrate, Decoder::Wic, Decoder::Libheif]);
    assert_eq!(decoders_for("", true), vec![Decoder::ImageCrate, Decoder::Wic, Decoder::Libheif]);
    assert_eq!(decoders_for("heic", false), vec![Decoder::ImageCrate]);
}

#[test]
fn names_shown_for_files() {
    assert_eq!(file_name("fotos/praia.jpg"), "praia.jpg");
    assert_eq!(file_name("a/.."), "imagem");
    assert_eq!(file_name(".."), "imagem");
    assert_eq!(file_name("praia.jpg"), "praia.jpg");
    assert_eq!(file_name("/home/ana/fotos/ferias 2024.png"), "ferias 2024.png");
    assert_eq!(file_name("/"), "imagem");
    assert_eq!(file_name(""), "imagem");
    assert_eq!(file_name("."), "imagem");
    assert_eq!(file_name("fotos/praia.jpg/"), "praia.jpg");
    assert_eq!(file_name("fotos//"), "fotos");
    assert_eq!(file_name("../"), "imagem");
    assert_eq!(file_name("./"), "imagem");
    assert_eq!(display_name(None), "imagem");
    assert_eq!(display_name(Some("x.png".to_string())), "x.png");
}

#[test]
fn print_dialog_owner() {
    assert_eq!(owner_window(42, 7), 42);
    assert_eq!(owner_window(0, 7), 7);
    assert_eq!(owner_window(0, 0), 0);
}

fn png_bytes(img: image::DynamicImage) -> Vec<u8> {
    let mut bytes = Vec::new();
    img.write_to(&mut std::io::Cursor::new(&mut bytes), image::ImageFormat::Png).unwrap();
    bytes
}

#[test]
fn rendered_page_is_decoded_to_rgba() {
    let rgba = image::RgbaImage::from_raw(2, 1, vec![1, 2, 3, 255, 4, 5, 6, 128]).unwrap();
    let (w, h, px) = decode_rendered_page(&png_bytes(image::DynamicImage::ImageRgba8(rgba))).unwrap();
    assert_eq!((w, h), (2, 1));
    assert_eq!(px, vec![1, 2, 3, 255, 4, 5, 6, 128]);
    let rgb = image::RgbImage::from_raw(1, 2, vec![10, 20, 30, 40, 50, 60]).unwrap();
    let (w, h, px) = decode_rendered_page(&png_bytes(image::DynamicImage::ImageRgb8(rgb))).unwrap();
    assert_eq!((w, h), (1, 2));
    assert_eq!(px, vec![10, 20, 30, 255, 40, 50, 60, 255]);
}

#[test]
fn bytes_that_are_no_image_are_refused() {
    assert!(decode_rendered_page(b"%PDF-1.7 not a picture").is_err());
    assert!(decode_rendered_page(&[]).is_err());
}

#[test]
fn decoders_are_tried_in_turn_keeping_the_first_error() {
    let mut a = DecodeAttempts::new(vec![Decoder::ImageCrate, Decoder::Wic, Decoder::Libheif]);
    assert_eq!(a.next_decoder(), Some(Decoder::ImageCrate));
    a.failed("formato desconhecido".to_string());
    assert_eq!(a.next_decoder(), Some(Decoder::Wic));
    a.failed("WIC indisponível".to_string());
    assert_eq!(a.next_decoder(), Some(Decoder::Libheif));
    a.failed("libheif indisponível".to_string());
    assert_eq!(a.next_decoder(), None);
    assert_eq!(a.tried, 3);
    assert_eq!(a.final_error(), "formato desconhecido");
    let empty = DecodeAttempts::new(vec![]);
    assert_eq!(empty.next_decoder(), None);
    assert_eq!(empty.final_error(), "formato não suportado");
}
