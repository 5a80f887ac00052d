use calibre_shelf::toc::{flatten_toc, NavNode};

fn node(label: &str, children: Vec<NavNode>) -> NavNode {
    NavNode { label: label.to_string(), path: format!("{}.xhtml", label.to_lowercase()), children }
}

#[test]
fn flatten_is_preorder_with_depth() {
    let toc = vec![node("A", vec![node("B", vec![]), node("C", vec![node("D", vec![])])])];
    let items = flatten_toc(&toc);
    let got: Vec<(String, String, u32)> = items.into_iter().map(|i| (i.label, i.path, i.level)).collect();
    assert_eq!(
        got,
        vec![
            ("A".to_string(), "a.xhtml".to_string(), 0),
            ("B".to_string(), "b.xhtml".to_string(), 1),
            ("C".to_string(), "c.xhtml".to_string(), 1),
            ("D".to_string(), "d.xhtml".to_string(), 2),
        ]
    );
}

#[test]
fn flatten_keeps_sibling_roots_in_order() {
    let toc = vec![node("X", vec![node("Y", vec![])]), node("Z", vec![])];
    let labels: Vec<(String, u32)> = flatten_toc(&toc).into_iter().map(|i| (i.label, i.level)).collect();
    assert_eq!(labels, vec![("X".to_string(), 0), ("Y".to_string(), 1), ("Z".to_string(), 0)]);
}

#[test]
fn flatten_empty_toc() {
    assert!(flatten_toc(&vec![]).is_empty());
}

#[test]
fn flatten_deep_chain_without_recursion() {
    let mut n = node("leaf", vec![]);
    for _ in 0..2000 {
        n = node("inner", vec![n]);
    }
    let items = flatten_toc(&vec![n]);
    assert_eq!(items.len(), 2001);
    assert_eq!(items[2000].level, 2000);
    assert_eq!(items[2000].label, "leaf");
    std::mem::forget(items);
}
