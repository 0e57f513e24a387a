use pyano::vector_store::{MetaField, NewDocument, StoreError, VecStoreOptions, VectorStore};

fn meta(k: &str, v: &str) -> Vec<MetaField> {
    vec![MetaField { key: k.to_string(), value: v.to_string() }]
}

fn animals() -> VectorStore {
    let mut s = VectorStore::new(4);
    s.initialize();
    s.add_document("cat".to_string(), meta("kind", "pet"), vec![1000, 0, 0, 0]).unwrap();
    s.add_document("dog".to_string(), meta("kind", "pet"), vec![900, 100, 0, 0]).unwrap();
    s.add_document("car".to_string(), meta("kind", "thing"), vec![0, 0, 1000, 0]).unwrap();
    s
}

#[test]
fn search_returns_nearest_in_order() {
    let s = animals();
    let r = s.similarity_search_by_vector(&vec![1000, 0, 0, 0], 2, &VecStoreOptions::default()).unwrap();
    assert_eq!(r.len(), 2);
    assert_eq!(r[0].page_content, "cat");
    assert_eq!(r[1].page_content, "dog");
    assert_eq!(r[0].score, Some(1_000_000));
    assert_eq!(r[1].score, Some(900_000));
    assert!(r[0].score >= r[1].score);
}

#[test]
fn search_scores_never_increase() {
    let s = animals();
    let r = s.similarity_search_by_vector(&vec![1, 2, 3, 4], 10, &VecStoreOptions::default()).unwrap();
    assert_eq!(r.len(), 3);
    for w in r.windows(2) {
        assert!(w[0].score >= w[1].score);
    }
    assert_eq!(r[0].page_content, "car");
}

#[test]
fn search_ties_go_to_smaller_id() {
    let mut s = VectorStore::new(2);
    s.initialize();
    let a = s.add_document("a".to_string(), vec![], vec![1, 1]).unwrap();
    let b = s.add_document("b".to_string(), vec![], vec![1, 1]).unwrap();
    let r = s.similarity_search_by_vector(&vec![2, 3], 2, &VecStoreOptions::default()).unwrap();
    assert_eq!(r[0].id, a);
    assert_eq!(r[1].id, b);
    assert_eq!(r[0].score, Some(5));
}

#[test]
fn search_with_zero_k_is_empty() {
    let s = animals();
    assert!(s.similarity_search_by_vector(&vec![1, 0, 0, 0], 0, &VecStoreOptions::default()).unwrap().is_empty());
}

#[test]
fn search_with_wrong_dimension_fails() {
    let s = animals();
    assert_eq!(s.similarity_search_by_vector(&vec![1, 0, 0], 1, &VecStoreOptions::default()).err(), Some(StoreError::DimensionMismatch));
}

#[test]
fn dot_product_of_extreme_components() {
    let mut s = VectorStore::new(2);
    s.initialize();
    s.add_document("x".to_string(), vec![], vec![i32::MIN, i32::MIN]).unwrap();
    let r = s.similarity_search_by_vector(&vec![i32::MIN, i32::MIN], 1, &VecStoreOptions::default()).unwrap();
    assert_eq!(r[0].score, Some(2 * (1i128 << 62)));
}

#[test]
fn add_then_get_round_trips() {
    let mut s = VectorStore::new(3);
    s.initialize();
    let id = s.add_document("hello".to_string(), meta("lang", "en"), vec![1, 2, 3]).unwrap();
    let d = s.get(id).unwrap();
    assert_eq!(d.id, id);
    assert_eq!(d.page_content, "hello");
    assert_eq!(d.metadata.len(), 1);
    assert_eq!(d.metadata[0].key, "lang");
    assert_eq!(d.metadata[0].value, "en");
    assert_eq!(d.score, None);
}

#[test]
fn wrong_dimension_insert_stores_nothing() {
    let mut s = VectorStore::new(4);
    s.initialize();
    let r = s.add_document("too long".to_string(), vec![], vec![1, 2, 3, 4, 5]);
    assert_eq!(r, Err(StoreError::DimensionMismatch));
    assert_eq!(s.len(), 0);
    assert_eq!(s.get(0).err(), Some(StoreError::NotFound));
    let id = s.add_document("fits".to_string(), vec![], vec![1, 2, 3, 4]).unwrap();
    assert_eq!(id, 0);
}

#[test]
fn uninitialised_store_refuses_work() {
    let mut s = VectorStore::new(2);
    assert_eq!(s.add_document("a".to_string(), vec![], vec![1, 2]), Err(StoreError::NotInitialised));
    assert_eq!(s.similarity_search_by_vector(&vec![1, 2], 1, &VecStoreOptions::default()).err(), Some(StoreError::NotInitialised));
}

#[test]
fn initialise_twice_keeps_data() {
    let mut s = animals();
    s.initialize();
    assert_eq!(s.len(), 3);
    assert_eq!(s.get(1).unwrap().page_content, "dog");
    assert_eq!(s.vector_dimensions(), 4);
}

#[test]
fn delete_removes_only_that_document() {
    let mut s = animals();
    assert_eq!(s.delete(1), Ok(()));
    assert_eq!(s.get(1).err(), Some(StoreError::NotFound));
    assert_eq!(s.delete(1), Err(StoreError::NotFound));
    assert_eq!(s.len(), 2);
    assert_eq!(s.get(2).unwrap().page_content, "car");
    let r = s.similarity_search_by_vector(&vec![1000, 0, 0, 0], 2, &VecStoreOptions::default()).unwrap();
    assert_eq!(r[0].page_content, "cat");
    assert_eq!(r[1].page_content, "car");
}

#[test]
fn threshold_drops_low_scores() {
    let s = animals();
    let opts = VecStoreOptions { score_threshold: Some(950_000) };
    let r = s.similarity_search_by_vector(&vec![1000, 0, 0, 0], 3, &opts).unwrap();
    assert_eq!(r.len(), 1);
    assert_eq!(r[0].page_content, "cat");
    let all = VecStoreOptions { score_threshold: Some(0) };
    assert_eq!(s.similarity_search_by_vector(&vec![1000, 0, 0, 0], 3, &all).unwrap().len(), 3);
    let none = VecStoreOptions { score_threshold: Some(2_000_000) };
    assert!(s.similarity_search_by_vector(&vec![1000, 0, 0, 0], 3, &none).unwrap().is_empty());
}

fn new_doc(text: &str, vector: Vec<i32>) -> NewDocument {
    NewDocument { page_content: text.to_string(), metadata: meta("src", "batch"), vector }
}

#[test]
fn batch_add_assigns_consecutive_ids() {
    let mut s = animals();
    let ids = s
        .add_documents(&vec![new_doc("one", vec![1, 0, 0, 0]), new_doc("two", vec![0, 1, 0, 0])])
        .unwrap();
    assert_eq!(ids, vec![3, 4]);
    assert_eq!(s.get(4).unwrap().page_content, "two");
    assert_eq!(s.get(3).unwrap().metadata[0].value, "batch");
    assert_eq!(s.len(), 5);
}

#[test]
fn batch_with_a_bad_vector_stores_nothing() {
    let mut s = animals();
    let r = s.add_documents(&vec![new_doc("ok", vec![1, 0, 0, 0]), new_doc("bad", vec![1, 0, 0, 0, 0])]);
    assert_eq!(r, Err(StoreError::DimensionMismatch));
    assert_eq!(s.len(), 3);
    assert_eq!(s.get(3).err(), Some(StoreError::NotFound));
}

#[test]
fn empty_batch_adds_nothing() {
    let mut s = animals();
    assert_eq!(s.add_documents(&vec![]), Ok(vec![]));
    assert_eq!(s.len(), 3);
    let mut fresh = VectorStore::new(4);
    assert_eq!(fresh.add_documents(&vec![]), Err(StoreError::NotInitialised));
}
