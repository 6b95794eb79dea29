use rms::display::{DisplayAs, OutputType, OutputTypeError};
use rms::message::{get_id, Message};
use rms::pipeline::{IndexRun, Phase, SpoolEntry};
use rms::sizing::{size, Sizing, MIB};
use rms::store::{MessageStore, MessageStoreError};

fn mail(subject: &str, date: &str, body: &str) -> Vec<u8> {
    format!("Subject: {}\r\nFrom: someone@example.com\r\nDate: {}\r\n\r\n{}", subject, date, body).into_bytes()
}

fn entry(raw: Vec<u8>, is_new: bool, id: &str) -> SpoolEntry {
    SpoolEntry { raw, is_new, entry_id: id.to_string() }
}

fn indexed_store() -> MessageStore {
    let mut store = MessageStore::new();
    let entries = vec![
        entry(mail("hello world", "Tue, 1 Jul 2003 10:52:37 +0200", "first body"), true, "a"),
        entry(mail("another hello", "Sun, 02 Oct 2016 07:06:22 -0700", "second body"), true, "b"),
        entry(mail("unrelated", "Mon, 03 Oct 2016 07:06:22 -0700", "nothing here"), false, "c"),
    ];
    store.index_entries(entries, None, 4).ok().unwrap();
    store
}

#[test]
fn index_counts_all_and_promotes_only_valid_new_entries() {
    let good1 = mail("one", "Tue, 1 Jul 2003 10:52:37 +0200", "body one");
    let good2 = mail("two", "Sun, 02 Oct 2016 07:06:22 -0700", "body two");
    let bad = b" broken header\r\n\r\nbody".to_vec();
    let mut store = MessageStore::new();
    let entries = vec![entry(good1.clone(), true, "e1"), entry(bad, true, "e2"), entry(good2.clone(), true, "e3")];
    let outcome = store.index_entries(entries, Some(8_000_000), 8).ok().unwrap();
    assert_eq!(outcome.count, 3);
    assert_eq!(outcome.promote, vec!["e1".to_string(), "e3".to_string()]);
    assert_eq!(store.kv.len(), 2);
    assert!(store.get_message(&get_id(&good1)).unwrap().is_some());
    assert!(store.get_message(&get_id(&good2)).unwrap().is_some());
    assert_eq!(store.searcher.len(), 2);
    assert_eq!(outcome.sizing.workers, 1);
}

#[test]
fn adding_twice_keeps_one_message() {
    let raw = mail("twice", "Tue, 1 Jul 2003 10:52:37 +0200", "same bytes");
    let mut store = MessageStore::new();
    store.start_indexing_process().unwrap();
    let m1 = Message::from_data(raw.clone()).unwrap();
    let m2 = Message::from_data(raw.clone()).unwrap();
    assert_eq!(m1.id, m2.id);
    store.add_message(m1.clone()).unwrap();
    store.add_message(m2).unwrap();
    store.finish_indexing_process().unwrap();
    assert_eq!(store.kv.len(), 1);
    assert_eq!(store.searcher.len(), 1);
    assert_eq!(store.get_message(&m1.id).unwrap(), Some(m1));
}

#[test]
fn tag_round_trip_changes_only_tags() {
    let mut store = indexed_store();
    let before = store.get_messages_page(0, 10).unwrap();
    let target = before[0].clone();
    store.tag_message_id(&target.id, vec!["a".to_string(), "b".to_string()]).unwrap();
    let after = store.get_message(&target.id).unwrap().unwrap();
    let mut tags = after.tags.clone();
    tags.sort();
    assert_eq!(tags, vec!["a".to_string(), "b".to_string()]);
    assert_eq!(after.original, target.original);
    assert_eq!(after.date, target.date);
    assert_eq!(after.subject, target.subject);
    assert_eq!(after.from, target.from);
    assert_eq!(after.body, target.body);
    assert_eq!(after.recipients, target.recipients);
    assert_eq!(after.id, target.id);
    assert_eq!(store.searcher.len(), 3);
    let page = store.get_messages_page(0, 10).unwrap();
    assert_eq!(page.len(), 3);
    assert!(page.iter().any(|m| m.id == target.id && m.tags == after.tags));
}

#[test]
fn tag_of_unknown_id_is_not_found() {
    let mut store = indexed_store();
    let r = store.tag_message_id(&"nope".to_string(), vec![]);
    assert!(matches!(r, Err(MessageStoreError::MessageNotFound(_))));
}

#[test]
fn writer_is_exclusive() {
    let mut store = indexed_store();
    let id = store.get_messages_page(0, 1).unwrap()[0].id.clone();
    store.start_indexing_process().unwrap();
    assert!(matches!(store.start_indexing_process(), Err(MessageStoreError::EngineUnavailable(_))));
    assert!(matches!(store.tag_message_id(&id, vec![]), Err(MessageStoreError::EngineUnavailable(_))));
    let entries = vec![entry(mail("x", "Tue, 1 Jul 2003 10:52:37 +0200", "y"), true, "z")];
    assert!(matches!(store.index_entries(entries, None, 2), Err(MessageStoreError::EngineUnavailable(_))));
    store.finish_indexing_process().unwrap();
    assert!(matches!(store.finish_indexing_process(), Err(MessageStoreError::CouldNotAddMessage(_))));
}

#[test]
fn writes_need_the_writer() {
    let mut store = MessageStore::new();
    let m = Message::from_data(mail("s", "Tue, 1 Jul 2003 10:52:37 +0200", "b")).unwrap();
    assert!(matches!(store.add_message(m.clone()), Err(MessageStoreError::CouldNotAddMessage(_))));
    assert!(matches!(store.delete_message(&m), Err(MessageStoreError::CouldNotModifyMessage(_))));
    store.start_indexing_process().unwrap();
    store.add_message(m.clone()).unwrap();
    store.finish_indexing_process().unwrap();
    store.start_indexing_process().unwrap();
    store.delete_message(&m).unwrap();
    store.finish_indexing_process().unwrap();
    assert_eq!(store.get_message(&m.id).unwrap(), None);
    assert_eq!(store.searcher.len(), 0);
}

#[test]
fn pages_are_latest_first() {
    let store = indexed_store();
    let page = store.get_messages_page(0, 10).unwrap();
    let subjects: Vec<String> = page.iter().map(|m| m.subject.clone()).collect();
    assert_eq!(subjects, vec!["unrelated".to_string(), "another hello".to_string(), "hello world".to_string()]);
    let second = store.get_messages_page(1, 1).unwrap();
    assert_eq!(second.len(), 1);
    assert_eq!(second[0].subject, "another hello");
    assert!(store.get_messages_page(5, 1).unwrap().is_empty());
}

#[test]
fn search_finds_exact_words_latest_first() {
    let store = indexed_store();
    let found = store.search_fuzzy(&"HELLO".to_string(), 2).unwrap();
    let subjects: Vec<String> = found.iter().map(|m| m.subject.clone()).collect();
    assert_eq!(subjects, vec!["another hello".to_string(), "hello world".to_string()]);
}

#[test]
fn search_widens_by_edit_distance_within_limit() {
    let store = indexed_store();
    let found = store.search_fuzzy(&"helo".to_string(), 10).unwrap();
    assert!(found.len() <= 10);
    assert_eq!(found.len(), 5);
    assert!(found[..2].iter().all(|m| m.subject.contains("hello")));
    assert_eq!(found[2].subject, "unrelated");
    let one = store.search_fuzzy(&"helo".to_string(), 1).unwrap();
    assert_eq!(one.len(), 1);
    let none = store.search_fuzzy(&"zzzzzzzz".to_string(), 5).unwrap();
    assert!(none.is_empty());
    let body = store.search_fuzzy(&"nothing".to_string(), 5).unwrap();
    assert_eq!(body.len(), 3);
    assert_eq!(body[0].subject, "unrelated");
}

#[test]
fn restored_store_answers_queries() {
    let store = indexed_store();
    let msgs = store.get_messages_page(0, 10).unwrap();
    let restored = MessageStore::restore(msgs.clone(), msgs.clone());
    assert_eq!(restored.kv.len(), 3);
    assert_eq!(restored.get_messages_page(0, 10).unwrap(), msgs);
}

#[test]
fn run_phases_follow_the_state_machine() {
    let mut store = MessageStore::new();
    let mut run = IndexRun::new();
    assert_eq!(run.phase, Phase::Idle);
    run.plan(2, None, 4);
    assert_eq!(run.phase, Phase::Sizing);
    store.open_run(&mut run).unwrap();
    assert_eq!(run.phase, Phase::Streaming);
    let m = Message::from_data(mail("s", "Tue, 1 Jul 2003 10:52:37 +0200", "b"));
    store.ingest(&mut run, m, true, "n1".to_string());
    store.ingest(&mut run, Message::from_data(b" bad".to_vec()), true, "n2".to_string());
    assert_eq!(run.processed, 2);
    assert_eq!(run.committed, 1);
    let promote = store.close_run(&mut run).unwrap();
    assert_eq!(promote, vec!["n1".to_string()]);
    assert_eq!(run.phase, Phase::Idle);
    let mut other = IndexRun::new();
    other.plan(1, None, 4);
    store.start_indexing_process().unwrap();
    assert!(store.open_run(&mut other).is_err());
    assert_eq!(other.phase, Phase::Failed);
}

#[test]
fn sizing_follows_the_curves() {
    assert_eq!(size(10, None, 8), Sizing { workers: 1, mem_per_worker: 400 * MIB });
    assert_eq!(size(1_000_000, Some(16_000_000), 16), Sizing { workers: 8, mem_per_worker: 1_820_444_444 });
    assert_eq!(size(1_000_000, Some(1_000_000), 16), Sizing { workers: 8, mem_per_worker: 113_777_777 });
    assert_eq!(size(30_000, Some(64_000_000), 4), Sizing { workers: 2, mem_per_worker: 417_333_248 });
    assert_eq!(size(1_000_000, None, 1).workers, 1);
    assert_eq!(size(1_000_000_000, Some(u64::MAX), 1000).mem_per_worker, 2000 * MIB);
}

#[test]
fn workers_grow_with_corpus_and_respect_cpus() {
    let hints = [0usize, 3_000, 30_000, 100_000, 1_000_000, 1_000_000_000];
    let mut last = 0;
    for h in hints.iter() {
        let w = size(*h, None, 12).workers;
        assert!(w >= last);
        assert!(w <= 8);
        last = w;
    }
    assert_eq!(last, 8);
    assert_eq!(size(100_000, None, 64).workers, 3);
}

#[test]
fn output_types_parse_ignoring_case() {
    assert_eq!(OutputType::parse("SHORT"), Ok(OutputType::Short));
    assert_eq!(OutputType::parse("full"), Ok(OutputType::Full));
    assert_eq!(OutputType::parse("Raw"), Ok(OutputType::Raw));
    assert_eq!(OutputType::parse("html"), Ok(OutputType::Html));
    assert_eq!(OutputType::parse("summary"), Ok(OutputType::Summary));
    assert_eq!(OutputType::parse("bogus"), Err(OutputTypeError::UnknownTypeError));
    assert_eq!(OutputType::Summary.name(), "Summary");
    assert_eq!(OutputTypeError::UnknownTypeError.message(), "Could not figure out output format");
}

#[test]
fn messages_display_in_each_format() {
    let raw = mail("greetings", "Tue, 1 Jul 2003 10:52:37 +0200", "the body");
    let m = Message::from_data(raw.clone()).unwrap();
    assert_eq!(m.display(&OutputType::Raw), String::from_utf8(raw).unwrap());
    let full = m.display(&OutputType::Full);
    assert!(full.starts_with("From: someone@example.com\nto/cc/bcc: \nDate: "));
    assert!(full.contains("\nSubject: greetings\n\nthe body\n# "));
    assert!(full.ends_with(&format!("{}\n", m.id)));
    let short = m.display(&OutputType::Short);
    assert!(short.starts_with(&format!("{} | ", &m.id[..24])));
    assert!(short.ends_with(" | greetings"));
    assert!(m.display(&OutputType::Summary).ends_with(" | greetings [someone@example.com]"));
    assert_eq!(m.display(&OutputType::Html), "the body");
    let mut bad = m.clone();
    bad.original = vec![0xff, 0xfe];
    assert_eq!(bad.display(&OutputType::Raw), "BAD FILE, please open an issue");
}

#[test]
fn edit_distance_and_words() {
    let k: Vec<char> = "kitten".chars().collect();
    let s: Vec<char> = "sitting".chars().collect();
    assert_eq!(rms::terms::distance(&k, &s), 3);
    assert_eq!(rms::terms::distance(&k, &k), 0);
    assert_eq!(rms::terms::distance(&vec![], &s), 7);
    let text: Vec<char> = "Hello, World-42 élan".chars().collect();
    let ws: Vec<String> = rms::terms::split_words(&text).iter().map(|w| w.iter().collect()).collect();
    assert_eq!(ws, vec!["hello".to_string(), "world".to_string(), "42".to_string(), "élan".to_string()]);
}

#[test]
fn exact_search_is_the_first_round() {
    let store = indexed_store();
    let exact = store.searcher.search(&"Hello".to_string(), 10);
    assert_eq!(exact.len(), 2);
    assert!(store.searcher.search(&"helo".to_string(), 10).is_empty());
    assert_eq!(store.searcher.search(&"hello".to_string(), 1).len(), 1);
}

#[test]
fn store_errors_describe_themselves() {
    let e = MessageStoreError::MessageNotFound("abc".to_string());
    assert_eq!(e.describe(), "Message Store Error Could not find message abc");
    let many = MessageStoreError::CouldNotGetMessages(vec!["a".to_string(), "b".to_string()]);
    assert_eq!(many.describe(), "Message Store Error Could not get messages a, b");
}

#[test]
fn tags_are_kept_once_each() {
    let mut store = indexed_store();
    let id = store.get_messages_page(0, 1).unwrap()[0].id.clone();
    store
        .tag_message_id(&id, vec!["a".to_string(), "b".to_string(), "a".to_string()])
        .unwrap();
    let m = store.get_message(&id).unwrap().unwrap();
    assert_eq!(m.tags, vec!["a".to_string(), "b".to_string()]);
}

#[test]
fn search_lowers_unicode_capitals() {
    let mut store = MessageStore::new();
    let entries = vec![entry(mail("\u{c9}COLE news", "Tue, 1 Jul 2003 10:52:37 +0200", "x"), true, "u")];
    store.index_entries(entries, None, 2).ok().unwrap();
    assert_eq!(store.search_fuzzy(&"\u{c9}cole".to_string(), 1).unwrap().len(), 1);
    assert_eq!(store.searcher.search(&"\u{c9}cole".to_string(), 5).len(), 1);
    assert_eq!(store.searcher.search(&"\u{e9}COLE".to_string(), 5).len(), 1);
}

#[test]
fn every_store_error_has_full_words() {
    assert_eq!(
        MessageStoreError::CouldNotCreateKvError("y".to_string()).describe(),
        "Message Store Error Could not create the KV store"
    );
    assert_eq!(
        MessageStoreError::EngineUnavailable("busy".to_string()).describe(),
        "Message Store Error Could not acquire the index writer busy"
    );
    assert_eq!(
        MessageStoreError::CouldNotGetMessages(vec![]).describe(),
        "Message Store Error Could not get messages "
    );
}
