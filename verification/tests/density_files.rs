use foto_a4::density::{jpeg_dpi, png_dpi, print_density, read_dpi, Density};

fn png_chunk(kind: &[u8; 4], body: &[u8]) -> Vec<u8> {
    let mut v = (body.len() as u32).to_be_bytes().to_vec();
    v.extend_from_slice(kind);
    v.extend_from_slice(body);
    v.extend_from_slice(&[0, 0, 0, 0]);
    v
}

fn png_with(chunks: &[Vec<u8>]) -> Vec<u8> {
    let mut v = vec![0x89, b'P', b'N', b'G', 0x0D, 0x0A, 0x1A, 0x0A];
    for c in chunks {
        v.extend_from_slice(c);
    }
    v
}

fn phys(x: u32, y: u32, unit: u8) -> Vec<u8> {
    let mut b = x.to_be_bytes().to_vec();
    b.extend_from_slice(&y.to_be_bytes());
    b.push(unit);
    png_chunk(b"pHYs", &b)
}

fn jfif(units: u8, x: u16, y: u16) -> Vec<u8> {
    let mut seg = vec![0xFF, 0xE0, 0x00, 0x10];
    seg.extend_from_slice(b"JFIF\0");
    seg.extend_from_slice(&[1, 1, units]);
    seg.extend_from_slice(&x.to_be_bytes());
    seg.extend_from_slice(&y.to_be_bytes());
    seg.extend_from_slice(&[0, 0]);
    seg
}

#[test]
fn png_phys_in_metres() {
    let data = png_with(&[png_chunk(b"IHDR", &[0; 13]), phys(11811, 5906, 1), png_chunk(b"IDAT", &[1, 2])]);
    assert_eq!(png_dpi(&data), Some(Density::PerMeter(11811, 5906)));
    assert_eq!(read_dpi(&data), Some(Density::PerMeter(11811, 5906)));
}

#[test]
fn png_phys_without_unit_gives_nothing() {
    let data = png_with(&[png_chunk(b"IHDR", &[0; 13]), phys(1, 1, 0)]);
    assert_eq!(png_dpi(&data), None);
}

#[test]
fn png_phys_after_pixel_data_is_ignored() {
    let data = png_with(&[png_chunk(b"IDAT", &[0; 4]), phys(11811, 11811, 1)]);
    assert_eq!(png_dpi(&data), None);
    let data = png_with(&[png_chunk(b"IEND", &[]), phys(11811, 11811, 1)]);
    assert_eq!(png_dpi(&data), None);
}

#[test]
fn png_truncated_or_short_chunk() {
    let mut data = png_with(&[png_chunk(b"IHDR", &[0; 13]), phys(11811, 11811, 1)]);
    data.truncate(data.len() - 6);
    assert_eq!(png_dpi(&data), None);
    let short = png_with(&[png_chunk(b"pHYs", &[0; 8]), phys(11811, 11811, 1)]);
    assert_eq!(png_dpi(&short), Some(Density::PerMeter(11811, 11811)));
    assert_eq!(png_dpi(&[0x89, b'P', b'N', b'G']), None);
}

#[test]
fn png_density_ignores_what_follows() {
    let mut data = png_with(&[phys(3780, 3780, 1)]);
    let before = png_dpi(&data);
    data.extend_from_slice(&[9, 9, 9, 9, 9, 9, 9, 9, 9, 9, 9, 9, 9]);
    assert_eq!(png_dpi(&data), before);
    assert_eq!(before, Some(Density::PerMeter(3780, 3780)));
}

#[test]
fn jpeg_jfif_units() {
    let mut data = vec![0xFF, 0xD8];
    data.extend_from_slice(&jfif(1, 300, 200));
    data.extend_from_slice(&[0xFF, 0xDA, 0, 2]);
    assert_eq!(jpeg_dpi(&data), Some(Density::PerInch(300, 200)));
    assert_eq!(read_dpi(&data), Some(Density::PerInch(300, 200)));
    let mut cm = vec![0xFF, 0xD8];
    cm.extend_from_slice(&jfif(2, 118, 118));
    assert_eq!(jpeg_dpi(&cm), Some(Density::PerCentimeter(118, 118)));
    let mut none = vec![0xFF, 0xD8];
    none.extend_from_slice(&jfif(0, 1, 1));
    assert_eq!(jpeg_dpi(&none), None);
}

#[test]
fn jpeg_skips_other_segments_and_markers() {
    let mut data = vec![0xFF, 0xD8, 0xFF, 0xD0, 0xFF, 0x01];
    data.extend_from_slice(&[0xFF, 0xE1, 0x00, 0x06, b'E', b'x', b'i', b'f']);
    data.extend_from_slice(&jfif(1, 72, 72));
    assert_eq!(jpeg_dpi(&data), Some(Density::PerInch(72, 72)));
}

#[test]
fn jpeg_stops_at_scan_or_bad_marker() {
    let mut data = vec![0xFF, 0xD8, 0xFF, 0xDA, 0x00, 0x02];
    data.extend_from_slice(&jfif(1, 300, 300));
    assert_eq!(jpeg_dpi(&data), None);
    let mut bad = vec![0xFF, 0xD8, 0x00, 0x00, 0x00, 0x00];
    bad.extend_from_slice(&jfif(1, 300, 300));
    assert_eq!(jpeg_dpi(&bad), None);
    let tiny_len = vec![0xFF, 0xD8, 0xFF, 0xE0, 0x00, 0x01, 0, 0];
    assert_eq!(jpeg_dpi(&tiny_len), None);
}

#[test]
fn unknown_signature_records_nothing() {
    assert_eq!(read_dpi(b"GIF89a"), None);
    assert_eq!(read_dpi(&[]), None);
}

#[test]
fn screen_densities_do_not_size_prints() {
    assert_eq!(print_density(Some(Density::PerInch(72, 72))), None);
    assert_eq!(print_density(Some(Density::PerInch(300, 96))), None);
    assert_eq!(print_density(Some(Density::PerInch(300, 300))), Some(Density::PerInch(300, 300)));
    assert_eq!(print_density(Some(Density::PerInch(0, 300))), None);
    assert_eq!(print_density(Some(Density::PerMeter(2835, 2835))), None);
    assert_eq!(print_density(Some(Density::PerMeter(3780, 3780))), None);
    assert_eq!(print_density(Some(Density::PerMeter(2814, 2814))), Some(Density::PerMeter(2814, 2814)));
    assert_eq!(print_density(Some(Density::PerMeter(2815, 11811))), None);
    assert_eq!(print_density(Some(Density::PerMeter(11811, 11811))), Some(Density::PerMeter(11811, 11811)));
    assert_eq!(print_density(Some(Density::PerCentimeter(28, 38))), Some(Density::PerCentimeter(28, 38)));
    assert_eq!(print_density(None), None);
}
