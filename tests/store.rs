use futura_backend::{
    check_encoding, validate_caller_not_anonymous, Capsule, CapsuleIndex, CapsuleMetadata,
    Identity, Image, Metadata, Settings, StoreError, Text, MAX_VALUE_SIZE,
};

fn who(bytes: &[u8]) -> Identity {
    Identity { bytes: bytes.to_vec() }
}

fn anonymous() -> Identity {
    who(&[4])
}

fn meta(name: &str) -> Metadata {
    Metadata {
        file_name: name.to_string(),
        file_type: "text/plain".to_string(),
        file_size: 3,
        description: None,
        date: Some("2024-01-01".to_string()),
        place: None,
        tags: Some(vec!["a".to_string(), "b".to_string()]),
        people: None,
        visibility: Some(vec![who(&[1, 2, 3])]),
        preview: Some(vec![9, 8]),
    }
}

fn text(content: &str) -> Text {
    Text { id: 77, content: content.to_string(), metadata: meta(content) }
}

fn image(content: &[u8]) -> Image {
    Image { id: 77, content: content.to_vec(), metadata: meta("pic") }
}

fn store_texts(idx: &mut CapsuleIndex, key: &Identity, texts: Vec<Text>) -> Result<(), StoreError> {
    let staged = idx.stage_texts(key, &texts)?;
    idx.commit(key, staged, 64)
}

fn store_images(idx: &mut CapsuleIndex, key: &Identity, images: Vec<Image>) -> Result<(), StoreError> {
    let staged = idx.stage_images(key, &images)?;
    idx.commit(key, staged, 64)
}

fn text_pairs(v: &[Text]) -> Vec<(u64, String)> {
    v.iter().map(|t| (t.id, t.content.clone())).collect()
}

fn image_pairs(v: &[Image]) -> Vec<(u64, Vec<u8>)> {
    v.iter().map(|i| (i.id, i.content.clone())).collect()
}

#[test]
fn texts_get_ids_and_filter_by_id() {
    let mut idx = CapsuleIndex::new();
    let k = who(&[7, 7]);
    store_texts(&mut idx, &k, vec![text("hi")]).unwrap();
    store_texts(&mut idx, &k, vec![text("bye")]).unwrap();
    let all = idx.retrieve_texts(&k, None).unwrap();
    assert_eq!(text_pairs(&all), vec![(0, "hi".to_string()), (1, "bye".to_string())]);
    let one = idx.retrieve_texts(&k, Some(vec![1])).unwrap();
    assert_eq!(text_pairs(&one), vec![(1, "bye".to_string())]);
}

#[test]
fn ids_increase_across_texts_and_images() {
    let mut idx = CapsuleIndex::new();
    let k = who(&[1]);
    store_texts(&mut idx, &k, vec![text("a"), text("b")]).unwrap();
    store_images(&mut idx, &k, vec![image(&[1, 2])]).unwrap();
    store_texts(&mut idx, &k, vec![text("c")]).unwrap();
    let texts = idx.retrieve_texts(&k, None).unwrap();
    let ids: Vec<u64> = texts.iter().map(|t| t.id).collect();
    assert_eq!(ids, vec![0, 1, 3]);
    let images = idx.retrieve_images(&k, None).unwrap();
    assert_eq!(image_pairs(&images), vec![(2, vec![1, 2])]);
}

#[test]
fn incoming_ids_are_replaced() {
    let mut idx = CapsuleIndex::new();
    let k = who(&[1]);
    let mut t = text("x");
    t.id = 5;
    store_texts(&mut idx, &k, vec![t]).unwrap();
    assert_eq!(idx.retrieve_texts(&k, None).unwrap()[0].id, 0);
}

#[test]
fn storing_appends_in_input_order() {
    let mut idx = CapsuleIndex::new();
    let k = who(&[2]);
    store_texts(&mut idx, &k, vec![text("one"), text("two")]).unwrap();
    store_texts(&mut idx, &k, vec![text("three"), text("four")]).unwrap();
    let all = idx.retrieve_texts(&k, None).unwrap();
    let contents: Vec<&str> = all.iter().map(|t| t.content.as_str()).collect();
    assert_eq!(contents, vec!["one", "two", "three", "four"]);
    assert_eq!(all[2].metadata.file_name, "three");
    assert_eq!(all[2].metadata.tags, Some(vec!["a".to_string(), "b".to_string()]));
    assert_eq!(all[2].metadata.visibility.as_ref().unwrap()[0].bytes, vec![1, 2, 3]);
}

#[test]
fn filter_keeps_stored_order_and_skips_unknown_ids() {
    let mut idx = CapsuleIndex::new();
    let k = who(&[3]);
    store_texts(&mut idx, &k, vec![text("t0"), text("t1"), text("t2"), text("t3")]).unwrap();
    let got = idx.retrieve_texts(&k, Some(vec![3, 42, 1])).unwrap();
    assert_eq!(text_pairs(&got), vec![(1, "t1".to_string()), (3, "t3".to_string())]);
    let none = idx.retrieve_texts(&k, Some(vec![42])).unwrap();
    assert!(none.is_empty());
}

#[test]
fn image_filter_selects_by_id() {
    let mut idx = CapsuleIndex::new();
    let k = who(&[3]);
    store_images(&mut idx, &k, vec![image(&[0]), image(&[1]), image(&[2])]).unwrap();
    let got = idx.retrieve_images(&k, Some(vec![0, 2])).unwrap();
    assert_eq!(image_pairs(&got), vec![(0, vec![0]), (2, vec![2])]);
}

#[test]
fn retrieve_without_capsule_is_not_found() {
    let idx = CapsuleIndex::new();
    let k = who(&[5]);
    assert_eq!(idx.retrieve_texts(&k, None).err(), Some(StoreError::NotFound));
    assert_eq!(idx.retrieve_images(&k, Some(vec![0])).err(), Some(StoreError::NotFound));
}

#[test]
fn retrieve_of_empty_kind_is_empty() {
    let mut idx = CapsuleIndex::new();
    let k = who(&[5]);
    store_images(&mut idx, &k, vec![image(&[1])]).unwrap();
    assert_eq!(idx.retrieve_texts(&k, None).err(), Some(StoreError::Empty));
    store_texts(&mut idx, &who(&[6]), vec![text("t")]).unwrap();
    assert_eq!(idx.retrieve_images(&who(&[6]), None).err(), Some(StoreError::Empty));
}

#[test]
fn anonymous_caller_is_refused_everywhere() {
    let mut idx = CapsuleIndex::new();
    let anon = anonymous();
    assert_eq!(idx.stage_texts(&anon, &vec![text("x")]).err(), Some(StoreError::Unauthorized));
    assert_eq!(idx.stage_images(&anon, &vec![image(&[1])]).err(), Some(StoreError::Unauthorized));
    assert_eq!(idx.commit(&anon, Capsule::new(), 1), Err(StoreError::Unauthorized));
    assert_eq!(idx.retrieve_texts(&anon, None).err(), Some(StoreError::Unauthorized));
    assert_eq!(idx.retrieve_images(&anon, None).err(), Some(StoreError::Unauthorized));
    let stats = idx.retrieve_capsule_stats(&anon);
    assert_eq!((stats.total_images, stats.total_texts), (0, 0));
    assert!(idx.snapshot().is_empty());
}

#[test]
fn validate_caller_rejects_only_anonymous() {
    assert_eq!(validate_caller_not_anonymous(anonymous()).err(), Some(StoreError::Unauthorized));
    let ok = validate_caller_not_anonymous(who(&[4, 0])).unwrap();
    assert_eq!(ok.bytes, vec![4, 0]);
    let empty = validate_caller_not_anonymous(who(&[])).unwrap();
    assert!(empty.bytes.is_empty());
}

#[test]
fn oversized_encoding_is_refused_and_state_kept() {
    let mut idx = CapsuleIndex::new();
    let k = who(&[8]);
    store_texts(&mut idx, &k, vec![text("keep")]).unwrap();
    let staged = idx.stage_texts(&k, &vec![text("huge")]).unwrap();
    assert_eq!(idx.commit(&k, staged, MAX_VALUE_SIZE + 1), Err(StoreError::EncodingTooLarge));
    let all = idx.retrieve_texts(&k, None).unwrap();
    assert_eq!(text_pairs(&all), vec![(0, "keep".to_string())]);
    let staged = idx.stage_texts(&k, &vec![text("edge")]).unwrap();
    assert_eq!(idx.commit(&k, staged, MAX_VALUE_SIZE), Ok(()));
    assert_eq!(idx.retrieve_texts(&k, None).unwrap().len(), 2);
}

#[test]
fn encoding_within_bound_is_kept_whole() {
    let bytes = vec![1u8, 2, 3];
    assert_eq!(check_encoding(bytes.clone()), Ok(bytes));
    assert_eq!(check_encoding(vec![]), Ok(vec![]));
}

#[test]
fn stats_count_records_and_default_to_zero() {
    let mut idx = CapsuleIndex::new();
    let k = who(&[9]);
    let s = idx.retrieve_capsule_stats(&k);
    assert_eq!((s.total_images, s.total_texts), (0, 0));
    store_texts(&mut idx, &k, vec![text("a"), text("b")]).unwrap();
    store_images(&mut idx, &k, vec![image(&[1])]).unwrap();
    let s = idx.retrieve_capsule_stats(&k);
    assert_eq!((s.total_images, s.total_texts), (1, 2));
}

#[test]
fn snapshot_and_restore_bring_back_every_capsule() {
    let mut idx = CapsuleIndex::new();
    let a = who(&[10]);
    let b = who(&[11, 12]);
    store_texts(&mut idx, &a, vec![text("a0"), text("a1")]).unwrap();
    store_images(&mut idx, &a, vec![image(&[5, 6])]).unwrap();
    store_texts(&mut idx, &b, vec![text("b0")]).unwrap();
    let saved = idx.snapshot();
    assert_eq!(saved.len(), 2);
    let back = CapsuleIndex::restore(saved).unwrap();
    assert_eq!(
        text_pairs(&back.retrieve_texts(&a, None).unwrap()),
        vec![(0, "a0".to_string()), (1, "a1".to_string())]
    );
    assert_eq!(image_pairs(&back.retrieve_images(&a, None).unwrap()), vec![(2, vec![5, 6])]);
    assert_eq!(text_pairs(&back.retrieve_texts(&b, None).unwrap()), vec![(0, "b0".to_string())]);
    let mut back = back;
    store_texts(&mut back, &a, vec![text("a3")]).unwrap();
    assert_eq!(back.retrieve_texts(&a, Some(vec![3])).unwrap()[0].content, "a3");
}

#[test]
fn restore_refuses_duplicate_keys() {
    let pairs = vec![(who(&[1]), Capsule::new()), (who(&[1]), Capsule::new())];
    assert_eq!(CapsuleIndex::restore(pairs).err(), Some(StoreError::CorruptRecord));
}

#[test]
fn restore_refuses_anonymous_owner() {
    let pairs = vec![(who(&[1]), Capsule::new()), (anonymous(), Capsule::new())];
    assert_eq!(CapsuleIndex::restore(pairs).err(), Some(StoreError::CorruptRecord));
}

#[test]
fn restore_refuses_reused_ids() {
    let mut c = Capsule::new();
    c.texts.push(text("x"));
    c.texts.push(text("y"));
    c.metadata.id_generator = 100;
    assert!(!c.check_ids());
    let pairs = vec![(who(&[1]), c)];
    assert_eq!(CapsuleIndex::restore(pairs).err(), Some(StoreError::CorruptRecord));
}

#[test]
fn commit_refuses_capsule_with_stale_generator() {
    let mut idx = CapsuleIndex::new();
    let mut c = Capsule::new();
    c.texts.push(Text { id: 0, content: "z".to_string(), metadata: meta("z") });
    assert_eq!(idx.commit(&who(&[1]), c, 1), Err(StoreError::CorruptRecord));
    assert_eq!(idx.retrieve_texts(&who(&[1]), None).err(), Some(StoreError::NotFound));
}

#[test]
fn exhausted_generator_refuses_new_records() {
    let mut c = Capsule::new();
    c.metadata.id_generator = u64::MAX;
    let k = who(&[1]);
    let idx = CapsuleIndex::restore(vec![(k.copy(), c)]).unwrap();
    assert_eq!(idx.stage_texts(&k, &vec![text("x")]).err(), Some(StoreError::IdsExhausted));
    assert_eq!(idx.stage_images(&k, &vec![]).err(), None);
}

#[test]
fn new_capsule_is_empty_and_next_id_counts() {
    let mut c = Capsule::new();
    assert!(c.texts.is_empty() && c.images.is_empty());
    assert_eq!(c.metadata.id_generator, 0);
    assert!(c.settings.language.is_none() && c.settings.visibility.is_empty());
    assert_eq!(c.next_id(), 0);
    assert_eq!(c.next_id(), 1);
    assert_eq!(c.metadata.id_generator, 2);
    assert!(c.check_ids());
}

#[test]
fn defaults_of_settings_and_metadata() {
    let s = Settings::new();
    assert!(s.language.is_none());
    let m = CapsuleMetadata::new();
    assert_eq!(m.name, "");
    assert_eq!(m.id_generator, 0);
}

#[test]
fn identity_comparison() {
    assert!(who(&[1, 2]).same(&who(&[1, 2])));
    assert!(!who(&[1, 2]).same(&who(&[1])));
    assert!(anonymous().is_anonymous());
    assert!(!who(&[4, 4]).is_anonymous());
}
