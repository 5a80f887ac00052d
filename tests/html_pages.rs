use calibre_shelf::library::{Book, IndexItem};
use calibre_shelf::templates::{render_book_index, render_home, render_page};

#[test]
fn page_escapes_title_and_paths() {
    let html = render_page("Tom & Jerry <1>", "3-tom", "ch\"1.xhtml");
    assert!(html.contains("<title>Tom &amp; Jerry &lt;1&gt;</title>"));
    assert!(html.contains("src=\"/_/3-tom/ch&quot;1.xhtml\""));
    assert!(!html.contains("Tom & Jerry"));
}

#[test]
fn home_lists_books_in_order() {
    let books = vec![
        Book::from_row(7, "Dune".to_string(), "Herbert, Frank".to_string(), "1965-06-01", "Dune", true).ok().unwrap(),
        Book::from_row(8, "Emma".to_string(), "Austen, Jane".to_string(), "1815-12-23", "Emma", false).ok().unwrap(),
    ];
    let html = render_home(&books);
    let d = html.find("<a href=\"/7-dune\">Dune</a>").unwrap();
    let e = html.find("<a href=\"/8-emma\">Emma</a>").unwrap();
    assert!(d < e);
    assert!(html.contains("src=\"/7-dune/cover\""));
    assert!(!html.contains("/8-emma/cover"));
    assert!(html.contains("<span class=\"year\">1965</span>"));
}

#[test]
fn index_links_each_item_with_level() {
    let items = vec![
        IndexItem { label: "Part I".to_string(), path: "p1.xhtml".to_string(), level: 0 },
        IndexItem { label: "It's here".to_string(), path: "c1.xhtml".to_string(), level: 12 },
    ];
    let html = render_book_index("Dune".to_string(), &items, "7-dune");
    assert!(html.contains("<li class=\"level-0\"><a href=\"/7-dune/p1.xhtml\">Part I</a></li>"));
    assert!(html.contains("<li class=\"level-12\"><a href=\"/7-dune/c1.xhtml\">It&#x27;s here</a></li>"));
}
