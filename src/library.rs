//! The catalog records and errors of the library, and the decisions behind
//! resource and cover lookup. Reading the catalog, the archives and the disk is
//! left to the caller, who hands the results in as plain values.
use vstd::prelude::*;
use vstd::string::*;

use crate::slug::{decoded_id, extract_id, slug_for, slug_spec};

verus! {

/// `std::io::Error`, carried opaque inside `LibraryError::Io`.
#[verifier::external_type_specification]
#[verifier::external_body]
pub struct ExIoError(std::io::Error);

/// `epub::doc::DocError`, carried opaque inside `LibraryError::Epub`.
#[verifier::external_type_specification]
#[verifier::external_body]
pub struct ExDocError(epub::doc::DocError);

/// `rusqlite::Error`, carried opaque inside `LibraryError::Sqlite`.
#[verifier::external_type_specification]
#[verifier::external_body]
pub struct ExSqliteError(rusqlite::Error);

/// One entry of the catalog listing.
#[derive(Debug)]
pub struct Book {
    pub id: u64,
    pub slug: String,
    pub title: String,
    pub authors: String,
    pub year: String,
    pub has_cover: bool,
}

/// What the catalog holds of one book.
pub struct BookInfo {
    /// Book id
    pub id: usize,
    /// Directory of the book in the library, not the archive file itself
    pub path: String,
    /// Book title
    pub title: String,
}

/// One line of a flattened table of contents.
pub struct IndexItem {
    pub label: String,
    pub path: String,
    pub level: u32,
}

pub enum LibraryError {
    NotFound,
    InvalidId(String),
    /// A catalog row whose fields cannot be read as a book.
    MalformedRow(u64),
    Io(std::io::Error),
    Epub(epub::doc::DocError),
    Sqlite(rusqlite::Error),
}

/// The year of a stored date: its first four characters, when they are digits.
pub open spec fn year_spec(date: Seq<char>) -> Option<Seq<char>> {
    if date.len() >= 4 && forall|i: int| 0 <= i < 4 ==> crate::slug::is_digit(#[trigger] date[i]) {
        Some(date.take(4))
    } else {
        None
    }
}

/// Reads the year out of a stored date such as `1965-06-01`.
pub fn year_of(date: &str) -> (r: Option<String>)
    ensures
        r matches Some(y) ==> year_spec(date@) == Some(y@),
        r is None ==> year_spec(date@) is None,
{
    let n = date.unicode_len();
    if n < 4 {
        return None;
    }
    let mut out = String::new();
    let mut i: usize = 0;
    while i < 4
        invariant
            n == date@.len(),
            4 <= n,
            i <= 4,
            out@ == date@.take(i as int),
            forall|j: int| 0 <= j < i ==> crate::slug::is_digit(#[trigger] date@[j]),
        decreases 4 - i,
    {
        let c = date.get_char(i);
        if !('0' <= c && c <= '9') {
            return None;
        }
        crate::slug::push_char(&mut out, c);
        assert(out@ == date@.take(i + 1));
        i = i + 1;
    }
    Some(out)
}

impl Book {
    /// Builds the listing entry of one catalog row: the slug comes from the id
    /// and the sort title, the year from the stored publication date. A date
    /// without a year makes the row malformed.
    pub fn from_row(
        id: u64,
        title: String,
        authors: String,
        pubdate: &str,
        sort_title: &str,
        has_cover: bool,
    ) -> (r: Result<Book, LibraryError>)
        ensures
            r is Ok <==> year_spec(pubdate@) is Some,
            r matches Err(e) ==> e == LibraryError::MalformedRow(id),
            r matches Ok(b) ==> {
                &&& b.id == id
                &&& b.slug@ == slug_spec(id as nat, sort_title@)
                &&& b.title == title
                &&& b.authors == authors
                &&& Some(b.year@) == year_spec(pubdate@)
                &&& b.has_cover == has_cover
            },
    {
        match year_of(pubdate) {
            None => Err(LibraryError::MalformedRow(id)),
            Some(year) => Ok(Book { id, slug: slug_for(id, sort_title), title, authors, year, has_cover }),
        }
    }
}

/// Decodes the book id of a slug; a slug without a readable id is refused
/// with the slug itself.
pub fn get_id(slug: &str) -> (r: Result<usize, LibraryError>)
    ensures
        r is Ok <==> (decoded_id(slug@) matches Some(v) && v <= usize::MAX),
        r matches Ok(n) ==> decoded_id(slug@) == Some(n as nat),
        r matches Err(e) ==> (e matches LibraryError::InvalidId(s) && s@ == slug@),
{
    match extract_id(slug) {
        Ok(id) => Ok(id),
        Err(_) => Err(LibraryError::InvalidId(String::from_str(slug))),
    }
}

pub open spec fn octet_stream() -> Seq<char> {
    seq!['a', 'p', 'p', 'l', 'i', 'c', 'a', 't', 'i', 'o', 'n', '/', 'o', 'c', 't', 'e', 't', '-', 's', 't', 'r', 'e', 'a', 'm']
}

/// Turns what a document gave for a path into a resource: no content is
/// `NotFound`; an unknown MIME type falls back to a generic binary type.
pub fn resource_from_parts(content: Option<Vec<u8>>, mime: Option<String>) -> (r: Result<
    (String, Vec<u8>),
    LibraryError,
>)
    ensures
        content is None ==> r matches Err(LibraryError::NotFound),
        content matches Some(c) ==> (r matches Ok((m, data)) && data == c && m@ == (
        match mime {
            Some(m0) => m0@,
            None => octet_stream(),
        })),
{
    match content {
        None => Err(LibraryError::NotFound),
        Some(data) => {
            let m = match mime {
                Some(m) => m,
                None => {
                    let s = String::from_str("application/octet-stream");
                    proof {
                        reveal_strlit("application/octet-stream");
                    }
                    assert(s@ =~= octet_stream());
                    s
                },
            };
            Ok((m, data))
        },
    }
}

/// A file name whose extension is `epub`: it ends in `.epub` after a
/// non-empty stem.
pub open spec fn is_epub_name(name: Seq<char>) -> bool {
    name.len() > 5 && name.subrange(name.len() - 5, name.len() as int) == ".epub"@
}

fn has_epub_extension(name: &str) -> (r: bool)
    ensures
        r == is_epub_name(name@),
{
    let n = name.unicode_len();
    if n <= 5 {
        return false;
    }
    proof {
        reveal_strlit(".epub");
    }
    let r = name.get_char(n - 5) == '.' && name.get_char(n - 4) == 'e' && name.get_char(n - 3) == 'p'
        && name.get_char(n - 2) == 'u' && name.get_char(n - 1) == 'b';
    assert(r ==> name@.subrange(n - 5, n as int) =~= ".epub"@);
    assert(name@.subrange(n - 5, n as int) == ".epub"@ ==> {
        &&& name@.subrange(n - 5, n as int)[0] == '.'
        &&& name@.subrange(n - 5, n as int)[1] == 'e'
        &&& name@.subrange(n - 5, n as int)[2] == 'p'
        &&& name@.subrange(n - 5, n as int)[3] == 'u'
        &&& name@.subrange(n - 5, n as int)[4] == 'b'
    });
    r
}

/// Picks the archive of a book among the names in its directory: the first
/// one with the `epub` extension, in the order given.
pub fn find_archive(names: &Vec<String>) -> (r: Option<usize>)
    ensures
        r matches Some(i) ==> i < names@.len() && is_epub_name(names@[i as int]@) && forall|j: int|
            0 <= j < i ==> !is_epub_name(#[trigger] names@[j]@),
        r is None ==> forall|j: int| 0 <= j < names@.len() ==> !is_epub_name(#[trigger] names@[j]@),
{
    let mut i: usize = 0;
    while i < names.len()
        invariant
            i <= names@.len(),
            forall|j: int| 0 <= j < i ==> !is_epub_name(#[trigger] names@[j]@),
        decreases names@.len() - i,
    {
        if has_epub_extension(names[i].as_str()) {
            return Some(i);
        }
        i = i + 1;
    }
    None
}

/// The cover image files that are looked for, in this order of preference.
#[derive(PartialEq, Eq, Structural, Clone, Copy, Debug)]
pub enum CoverFile {
    Jpeg,
    Png,
}

impl CoverFile {
    pub open spec fn name_spec(self) -> Seq<char> {
        match self {
            CoverFile::Jpeg => seq!['c', 'o', 'v', 'e', 'r', '.', 'j', 'p', 'g'],
            CoverFile::Png => seq!['c', 'o', 'v', 'e', 'r', '.', 'p', 'n', 'g'],
        }
    }

    pub open spec fn mime_spec(self) -> Seq<char> {
        match self {
            CoverFile::Jpeg => seq!['i', 'm', 'a', 'g', 'e', '/', 'j', 'p', 'e', 'g'],
            CoverFile::Png => seq!['i', 'm', 'a', 'g', 'e', '/', 'p', 'n', 'g'],
        }
    }

    /// The file name in the book's directory.
    pub fn file_name(self) -> (r: String)
        ensures
            r@ == self.name_spec(),
    {
        match self {
            CoverFile::Jpeg => {
                proof {
                    reveal_strlit("cover.jpg");
                }
                let s = String::from_str("cover.jpg");
                assert(s@ =~= self.name_spec());
                s
            },
            CoverFile::Png => {
                proof {
                    reveal_strlit("cover.png");
                }
                let s = String::from_str("cover.png");
                assert(s@ =~= self.name_spec());
                s
            },
        }
    }

    /// The MIME type, from the extension alone.
    pub fn mime(self) -> (r: String)
        ensures
            r@ == self.mime_spec(),
    {
        match self {
            CoverFile::Jpeg => {
                proof {
                    reveal_strlit("image/jpeg");
                }
                let s = String::from_str("image/jpeg");
                assert(s@ =~= self.mime_spec());
                s
            },
            CoverFile::Png => {
                proof {
                    reveal_strlit("image/png");
                }
                let s = String::from_str("image/png");
                assert(s@ =~= self.mime_spec());
                s
            },
        }
    }
}

/// Picks the cover of a book from which candidate files exist as regular
/// files: JPEG before PNG, `NotFound` when neither does.
pub fn select_cover(jpg_is_file: bool, png_is_file: bool) -> (r: Result<CoverFile, LibraryError>)
    ensures
        jpg_is_file ==> r == Ok::<CoverFile, LibraryError>(CoverFile::Jpeg),
        !jpg_is_file && png_is_file ==> r == Ok::<CoverFile, LibraryError>(CoverFile::Png),
        !jpg_is_file && !png_is_file ==> r matches Err(LibraryError::NotFound),
{
    if jpg_is_file {
        Ok(CoverFile::Jpeg)
    } else if png_is_file {
        Ok(CoverFile::Png)
    } else {
        Err(LibraryError::NotFound)
    }
}

} // verus!
