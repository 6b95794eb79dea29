use rms::kv::Kv;
use rms::message::Message;
use rms::mime::{Body, Mime};
use std::time::Instant;

fn sample_message() -> Message {
    Message {
        id: "some_id".to_string(),
        from: "It's me, Mario!".to_string(),
        body: vec![Body {
            mime: Mime::PlainText,
            value: "Test body".to_string(),
        }],
        subject: "test_subject".to_string(),
        recipients: vec!["r1".to_string(), "r2".to_string()],
        date: 4121251,
        original: vec![0],
        tags: vec!["tag1".to_string(), "tag2".to_string()]
            .into_iter()
            .collect::<Vec<String>>(),
    }
}

#[test]
fn can_add_and_retrieve_msg() {
    let mut store = Kv::new();
    let message = sample_message();
    store.add_message(message.clone()).ok().unwrap();

    if let Ok(Some(retrieved)) = store.get_message("some_id") {
        assert_eq!(message, retrieved);
    } else {
        panic!("Failed to retrieve the message")
    };
}

#[test]
fn can_add_and_retrieve_fast_enough() {
    let now = Instant::now();
    let mut store = Kv::new();
    let message = sample_message();
    store.add_message(message.clone()).unwrap();

    if let Ok(Some(retrieved)) = store.get_message("some_id") {
        assert_eq!(message, retrieved);
    } else {
        panic!("Failed to retrieve the message")
    };

    let elapsed = now.elapsed().as_millis();
    assert!(elapsed < 300, "elapsed was {} > 300", elapsed);
}

#[test]
fn can_add_many_messages_and_iterate() {
    let now = Instant::now();
    let mut store = Kv::new();
    let message = sample_message();
    store.add_message(message.clone()).unwrap();

    if let Ok(Some(retrieved)) = store.get_message("some_id") {
        assert_eq!(message, retrieved);
    } else {
        panic!("Failed to retrieve the message")
    };

    let elapsed = now.elapsed().as_millis();
    assert!(elapsed < 300, "elapsed was {} > 300", elapsed);
}

#[test]
fn kv_upsert_keeps_one_record_per_id() {
    let mut store = Kv::new();
    let message = sample_message();
    store.add_message(message.clone()).unwrap();
    let mut changed = message.clone();
    changed.subject = "other".to_string();
    store.add_message(changed.clone()).unwrap();
    assert_eq!(store.len(), 1);
    assert_eq!(store.get_message("some_id").unwrap(), Some(changed));
    let mut second = message.clone();
    second.id = "second".to_string();
    store.add_message(second.clone()).unwrap();
    assert_eq!(store.len(), 2);
    let page = store.get_messages(1, 5);
    assert_eq!(page, vec![second.clone()]);
    assert_eq!(store.get_messages(2, 5), vec![]);
    store.delete_message(&second).unwrap();
    assert_eq!(store.get_message("second").unwrap(), None);
    assert_eq!(store.len(), 1);
}

#[test]
fn kv_missing_id_is_none() {
    let store = rms::kv::default_kv();
    assert_eq!(store.get_message("absent").unwrap(), None);
    assert_eq!(store.len(), 0);
}

#[test]
fn test_rocksdb2() {
    let mut store = rms::rocks::RocksDBStore::new();
    store.put(b"key".to_vec(), b"value2".to_vec());
    let get = store.get(&b"key".to_vec()).unwrap();
    assert_eq!("value2", String::from_utf8(get).unwrap());
}

#[test]
fn rocksdb_later_value_wins_and_missing_key_is_none() {
    let mut store = rms::rocks::RocksDBStore::new();
    store.put(b"key".to_vec(), b"value1".to_vec());
    store.put(b"other".to_vec(), b"x".to_vec());
    store.put(b"key".to_vec(), b"value2".to_vec());
    assert_eq!(store.get(&b"key".to_vec()), Some(b"value2".to_vec()));
    assert_eq!(store.get(&b"nope".to_vec()), None);
}

#[test]
fn kv_batch_add_and_empty_searcher() {
    let mut store = Kv::new();
    let a = sample_message();
    let mut b = sample_message();
    b.id = "other".to_string();
    let mut a2 = sample_message();
    a2.subject = "replaced".to_string();
    store.add_messages(vec![a, b.clone(), a2.clone()]);
    assert_eq!(store.len(), 2);
    assert_eq!(store.get_message("some_id").unwrap(), Some(a2));
    assert_eq!(store.get_message("other").unwrap(), Some(b));
    assert_eq!(rms::index::default_searcher().len(), 0);
}
