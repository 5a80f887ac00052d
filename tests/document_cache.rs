use calibre_shelf::cache::DocumentCache;
use std::sync::Arc;

fn load(cache: &mut DocumentCache<String>, id: usize) -> usize {
    cache.try_get_or_insert(id, || Ok::<String, ()>(format!("doc{}", id))).unwrap()
}

#[test]
fn full_cache_evicts_least_recently_used() {
    let mut cache: DocumentCache<String> = DocumentCache::new(3);
    for id in [1, 2, 3] {
        load(&mut cache, id);
    }
    assert_eq!(cache.len(), 3);
    load(&mut cache, 4);
    assert_eq!(cache.len(), 3);
    assert!(cache.get(1).is_none());
    for id in [2, 3, 4] {
        let slot = cache.get(id).unwrap();
        assert_eq!(cache.document(slot), &format!("doc{}", id));
    }
}

#[test]
fn use_refreshes_recency() {
    let mut cache: DocumentCache<String> = DocumentCache::new(3);
    for id in [1, 2, 3] {
        load(&mut cache, id);
    }
    assert!(cache.get(1).is_some());
    load(&mut cache, 4);
    assert!(cache.get(2).is_none());
    assert!(cache.get(1).is_some());
    assert!(cache.get(3).is_some());
    assert!(cache.get(4).is_some());
}

#[test]
fn failed_load_is_not_cached_and_retried() {
    let mut cache: DocumentCache<String> = DocumentCache::new(2);
    let r = cache.try_get_or_insert(9, || Err::<String, &str>("bad archive"));
    assert_eq!(r, Err("bad archive"));
    assert_eq!(cache.len(), 0);
    let mut calls = 0;
    let slot = cache
        .try_get_or_insert(9, || {
            calls += 1;
            Ok::<String, &str>("good".to_string())
        })
        .unwrap();
    assert_eq!(calls, 1);
    assert_eq!(cache.document(slot), "good");
}

#[test]
fn hit_does_not_call_loader() {
    let mut cache: DocumentCache<String> = DocumentCache::new(2);
    load(&mut cache, 5);
    let slot = cache.try_get_or_insert(5, || -> Result<String, ()> { panic!("loaded twice") }).unwrap();
    assert_eq!(cache.document(slot), "doc5");
}

#[test]
fn same_id_shares_one_document() {
    let mut cache: DocumentCache<Arc<String>> = DocumentCache::new(5);
    let a = cache.try_get_or_insert(7, || Ok::<Arc<String>, ()>(Arc::new("dune".to_string()))).unwrap();
    let first = Arc::clone(cache.document(a));
    let b = cache.try_get_or_insert(7, || Ok::<Arc<String>, ()>(Arc::new("other".to_string()))).unwrap();
    let second = Arc::clone(cache.document(b));
    assert!(Arc::ptr_eq(&first, &second));
}

#[test]
fn capacity_one_replaces_entry() {
    let mut cache: DocumentCache<String> = DocumentCache::new(1);
    load(&mut cache, 1);
    let s = load(&mut cache, 2);
    assert_eq!(cache.len(), 1);
    assert_eq!(cache.document(s), "doc2");
    assert!(cache.get(1).is_none());
}
