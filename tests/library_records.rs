use calibre_shelf::library::{find_archive, get_id, resource_from_parts, select_cover, year_of, Book, CoverFile, LibraryError};

#[test]
fn catalog_row_becomes_summary() {
    let b = Book::from_row(7, "Dune".to_string(), "Herbert, Frank".to_string(), "1965-06-01", "Dune", true)
        .ok()
        .unwrap();
    assert_eq!(b.id, 7);
    assert_eq!(b.slug, "7-dune");
    assert_eq!(b.title, "Dune");
    assert_eq!(b.authors, "Herbert, Frank");
    assert_eq!(b.year, "1965");
    assert!(b.has_cover);
}

#[test]
fn row_with_unreadable_date_is_malformed() {
    let r = Book::from_row(3, "T".to_string(), "A".to_string(), "n/a", "T", false);
    assert!(matches!(r, Err(LibraryError::MalformedRow(3))));
}

#[test]
fn year_of_takes_four_digits() {
    assert_eq!(year_of("1965-06-01 00:00:00+00:00").unwrap(), "1965");
    assert_eq!(year_of("2001").unwrap(), "2001");
    assert!(year_of("65").is_none());
    assert!(year_of("19x5-01-01").is_none());
}

#[test]
fn get_id_maps_bad_slug_to_invalid_id() {
    assert_eq!(get_id("12-some-book").ok().unwrap(), 12);
    match get_id("no-digits") {
        Err(LibraryError::InvalidId(s)) => assert_eq!(s, "no-digits"),
        _ => panic!("expected InvalidId"),
    }
}

#[test]
fn missing_resource_is_not_found() {
    let r = resource_from_parts(None, Some("text/html".to_string()));
    assert!(matches!(r, Err(LibraryError::NotFound)));
    let r = resource_from_parts(None, None);
    assert!(matches!(r, Err(LibraryError::NotFound)));
}

#[test]
fn resource_keeps_mime_or_defaults() {
    let (m, d) = resource_from_parts(Some(vec![1, 2, 3]), Some("image/png".to_string())).ok().unwrap();
    assert_eq!(m, "image/png");
    assert_eq!(d, vec![1, 2, 3]);
    let (m, d) = resource_from_parts(Some(vec![]), None).ok().unwrap();
    assert_eq!(m, "application/octet-stream");
    assert!(d.is_empty());
}

#[test]
fn cover_png_only() {
    let c = select_cover(false, true).ok().unwrap();
    assert_eq!(c, CoverFile::Png);
    assert_eq!(c.mime(), "image/png");
    assert_eq!(c.file_name(), "cover.png");
}

#[test]
fn cover_prefers_jpeg() {
    let c = select_cover(true, true).ok().unwrap();
    assert_eq!(c, CoverFile::Jpeg);
    assert_eq!(c.mime(), "image/jpeg");
    assert_eq!(c.file_name(), "cover.jpg");
}

#[test]
fn cover_missing_is_not_found() {
    assert!(matches!(select_cover(false, false), Err(LibraryError::NotFound)));
}

#[test]
fn archive_is_first_epub_name() {
    let names: Vec<String> = ["cover.jpg", "metadata.opf", "Dune - Frank Herbert.epub", "other.epub"]
        .iter()
        .map(|s| s.to_string())
        .collect();
    assert_eq!(find_archive(&names), Some(2));
}

#[test]
fn archive_needs_stem_and_exact_extension() {
    let names: Vec<String> = [".epub", "book.epub.bak", "book.EPUB", "bookepub"].iter().map(|s| s.to_string()).collect();
    assert_eq!(find_archive(&names), None);
    assert_eq!(find_archive(&vec![]), None);
}
