//! HTML pages of the catalog: the book list, a book's table of contents, and
//! the reader page of one chapter. Every text that comes from the catalog or
//! from an archive is escaped before it reaches the markup.
use vstd::prelude::*;
use vstd::string::*;

use crate::library::{Book, IndexItem};
use crate::slug::{decimal, push_decimal};

verus! {

pub open spec fn escape_char(c: char) -> Seq<char> {
    if c == '<' {
        "&lt;"@
    } else if c == '>' {
        "&gt;"@
    } else if c == '&' {
        "&amp;"@
    } else if c == '"' {
        "&quot;"@
    } else if c == '\'' {
        "&#x27;"@
    } else {
        seq![c]
    }
}

/// HTML escaping: each of `<`, `>`, `&`, `"` and `'` becomes an entity, every
/// other character stays as it is.
pub open spec fn escape_html(s: Seq<char>) -> Seq<char>
    decreases s.len(),
{
    if s.len() == 0 {
        Seq::empty()
    } else {
        escape_html(s.drop_last()) + escape_char(s.last())
    }
}

/// Relies on askama's `escape` filter with its `Html` escaper, which replaces
/// `<`, `>`, `&`, `"` and `'` by entities and copies everything else.
#[verifier::external_body]
fn escape(s: &str) -> (r: String)
    ensures
        r@ == escape_html(s@),
{
    match askama::filters::escape(askama::Html, s) {
        Ok(d) => d.to_string(),
        Err(_) => String::new(),
    }
}

fn push_str(out: &mut String, s: &str)
    ensures
        final(out)@ == old(out)@ + s@,
{
    out.append(s);
}

fn push_escaped(out: &mut String, s: &str)
    ensures
        final(out)@ == old(out)@ + escape_html(s@),
{
    let e = escape(s);
    out.append(e.as_str());
}

pub open spec fn page_head(title: Seq<char>) -> Seq<char> {
    "<!DOCTYPE html>\n<html>\n<head>\n<meta charset=\"utf-8\">\n<title>"@ + escape_html(title)
        + "</title>\n<link rel=\"stylesheet\" href=\"/assets/modern-normalize.css\">\n<link rel=\"stylesheet\" href=\"/assets/page.css\">\n</head>\n<body>\n"@
}

pub open spec fn page_tail() -> Seq<char> {
    "</body>\n</html>\n"@
}

fn push_head(out: &mut String, title: &str)
    ensures
        final(out)@ == old(out)@ + page_head(title@),
{
    push_str(out, "<!DOCTYPE html>\n<html>\n<head>\n<meta charset=\"utf-8\">\n<title>");
    push_escaped(out, title);
    push_str(
        out,
        "</title>\n<link rel=\"stylesheet\" href=\"/assets/modern-normalize.css\">\n<link rel=\"stylesheet\" href=\"/assets/page.css\">\n</head>\n<body>\n",
    );
}

/// One entry of the book list: cover, linked title, authors and year.
pub open spec fn book_entry(b: Book) -> Seq<char> {
    "<li>\n"@ + (if b.has_cover {
        "<img class=\"cover\" src=\"/"@ + escape_html(b.slug@) + "/cover\" alt=\"\">\n"@
    } else {
        Seq::empty()
    }) + "<a href=\"/"@ + escape_html(b.slug@) + "\">"@ + escape_html(b.title@)
        + "</a>\n<span class=\"authors\">"@ + escape_html(b.authors@)
        + "</span>\n<span class=\"year\">"@ + escape_html(b.year@) + "</span>\n</li>\n"@
}

pub open spec fn book_entries(bs: Seq<Book>) -> Seq<char>
    decreases bs.len(),
{
    if bs.len() == 0 {
        Seq::empty()
    } else {
        book_entries(bs.drop_last()) + book_entry(bs.last())
    }
}

pub open spec fn home_page(bs: Seq<Book>) -> Seq<char> {
    page_head("My books"@) + "<h1>My books</h1>\n<ul class=\"books\">\n"@ + book_entries(bs)
        + "</ul>\n"@ + page_tail()
}

fn push_book_entry(out: &mut String, b: &Book)
    ensures
        final(out)@ == old(out)@ + book_entry(*b),
{
    let ghost start = out@;
    push_str(out, "<li>\n");
    if b.has_cover {
        push_str(out, "<img class=\"cover\" src=\"/");
        push_escaped(out, b.slug.as_str());
        push_str(out, "/cover\" alt=\"\">\n");
    }
    let ghost mid = out@;
    push_str(out, "<a href=\"/");
    push_escaped(out, b.slug.as_str());
    push_str(out, "\">");
    push_escaped(out, b.title.as_str());
    push_str(out, "</a>\n<span class=\"authors\">");
    push_escaped(out, b.authors.as_str());
    push_str(out, "</span>\n<span class=\"year\">");
    push_escaped(out, b.year.as_str());
    push_str(out, "</span>\n</li>\n");
    assert(out@ =~= start + book_entry(*b));
}

/// The home page: every book of the catalog, in the order given.
pub fn render_home(books: &Vec<Book>) -> (r: String)
    ensures
        r@ == home_page(books@),
{
    let mut out = String::new();
    push_head(&mut out, "My books");
    push_str(&mut out, "<h1>My books</h1>\n<ul class=\"books\">\n");
    let ghost start = out@;
    let mut i: usize = 0;
    while i < books.len()
        invariant
            i <= books@.len(),
            out@ == start + book_entries(books@.take(i as int)),
        decreases books@.len() - i,
    {
        push_book_entry(&mut out, &books[i]);
        assert(books@.take(i + 1).drop_last() =~= books@.take(i as int));
        assert(out@ =~= start + book_entries(books@.take(i + 1)));
        i = i + 1;
    }
    assert(books@.take(books@.len() as int) =~= books@);
    push_str(&mut out, "</ul>\n");
    push_str(&mut out, "</body>\n</html>\n");
    assert(out@ =~= home_page(books@));
    out
}

/// One line of a table of contents, indented by its level.
pub open spec fn index_entry(it: IndexItem, slug: Seq<char>) -> Seq<char> {
    "<li class=\"level-"@ + decimal(it.level as nat) + "\"><a href=\"/"@ + escape_html(slug) + "/"@
        + escape_html(it.path@) + "\">"@ + escape_html(it.label@) + "</a></li>\n"@
}

pub open spec fn index_entries(items: Seq<IndexItem>, slug: Seq<char>) -> Seq<char>
    decreases items.len(),
{
    if items.len() == 0 {
        Seq::empty()
    } else {
        index_entries(items.drop_last(), slug) + index_entry(items.last(), slug)
    }
}

pub open spec fn index_page(title: Seq<char>, items: Seq<IndexItem>, slug: Seq<char>) -> Seq<char> {
    page_head(title) + "<h1>"@ + escape_html(title) + "</h1>\n<p><img class=\"cover\" src=\"/"@
        + escape_html(slug) + "/cover\" alt=\"\"></p>\n<ul class=\"toc\">\n"@ + index_entries(items, slug)
        + "</ul>\n"@ + page_tail()
}

fn push_index_entry(out: &mut String, it: &IndexItem, slug: &str)
    ensures
        final(out)@ == old(out)@ + index_entry(*it, slug@),
{
    let ghost start = out@;
    push_str(out, "<li class=\"level-");
    push_decimal(out, it.level as u64);
    push_str(out, "\"><a href=\"/");
    push_escaped(out, slug);
    push_str(out, "/");
    push_escaped(out, it.path.as_str());
    push_str(out, "\">");
    push_escaped(out, it.label.as_str());
    push_str(out, "</a></li>\n");
    assert(out@ =~= start + index_entry(*it, slug@));
}

/// The table of contents of a book, each line linking to its chapter.
pub fn render_book_index(title: String, book_index: &Vec<IndexItem>, book_slug: &str) -> (r: String)
    ensures
        r@ == index_page(title@, book_index@, book_slug@),
{
    let mut out = String::new();
    push_head(&mut out, title.as_str());
    push_str(&mut out, "<h1>");
    push_escaped(&mut out, title.as_str());
    push_str(&mut out, "</h1>\n<p><img class=\"cover\" src=\"/");
    push_escaped(&mut out, book_slug);
    push_str(&mut out, "/cover\" alt=\"\"></p>\n<ul class=\"toc\">\n");
    let ghost start = out@;
    let mut i: usize = 0;
    while i < book_index.len()
        invariant
            i <= book_index@.len(),
            out@ == start + index_entries(book_index@.take(i as int), book_slug@),
        decreases book_index@.len() - i,
    {
        push_index_entry(&mut out, &book_index[i], book_slug);
        assert(book_index@.take(i + 1).drop_last() =~= book_index@.take(i as int));
        assert(out@ =~= start + index_entries(book_index@.take(i + 1), book_slug@));
        i = i + 1;
    }
    assert(book_index@.take(book_index@.len() as int) =~= book_index@);
    push_str(&mut out, "</ul>\n");
    push_str(&mut out, "</body>\n</html>\n");
    assert(out@ =~= index_page(title@, book_index@, book_slug@));
    out
}

pub open spec fn reader_page(title: Seq<char>, slug: Seq<char>, res_path: Seq<char>) -> Seq<char> {
    page_head(title) + "<nav><a href=\"/"@ + escape_html(slug) + "\">"@ + escape_html(title)
        + "</a></nav>\n<iframe class=\"chapter\" src=\"/_/"@ + escape_html(slug) + "/"@
        + escape_html(res_path) + "\"></iframe>\n"@ + page_tail()
}

/// The reader page of one chapter: a link back to the book's contents and the
/// chapter itself, served from the archive.
pub fn render_page(title: &str, book_slug: &str, res_path: &str) -> (r: String)
    ensures
        r@ == reader_page(title@, book_slug@, res_path@),
{
    let mut out = String::new();
    push_head(&mut out, title);
    push_str(&mut out, "<nav><a href=\"/");
    push_escaped(&mut out, book_slug);
    push_str(&mut out, "\">");
    push_escaped(&mut out, title);
    push_str(&mut out, "</a></nav>\n<iframe class=\"chapter\" src=\"/_/");
    push_escaped(&mut out, book_slug);
    push_str(&mut out, "/");
    push_escaped(&mut out, res_path);
    push_str(&mut out, "\"></iframe>\n");
    push_str(&mut out, "</body>\n</html>\n");
    assert(out@ =~= reader_page(title@, book_slug@, res_path@));
    out
}

} // verus!
