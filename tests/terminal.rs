use rms::pipeline::{IndexRun, Phase, SpoolEntry};
use rms::store::MessageStore;
use rms::terminal::{
    run, CtrlCRunner, Event, Key, ListRunner, ListStore, QExitRunner, ReaderRunner, ReaderStore, SearchRunner, Store,
};

fn mail(subject: &str, date: &str) -> Vec<u8> {
    format!("Subject: {}\r\nFrom: x@example.com\r\nDate: {}\r\n\r\nbody of {}", subject, date, subject).into_bytes()
}

fn store_with_three() -> MessageStore {
    let mut ms = MessageStore::new();
    let entries = vec![
        SpoolEntry { raw: mail("alpha", "Tue, 1 Jul 2003 10:52:37 +0200"), is_new: true, entry_id: "1".to_string() },
        SpoolEntry { raw: mail("beta", "Sun, 02 Oct 2016 07:06:22 -0700"), is_new: true, entry_id: "2".to_string() },
        SpoolEntry { raw: mail("gamma", "Mon, 03 Oct 2016 07:06:22 -0700"), is_new: true, entry_id: "3".to_string() },
    ];
    ms.index_entries(entries, None, 2).ok().unwrap();
    ms
}

#[test]
fn list_selection_is_clamped() {
    let ms = store_with_three();
    let mut list = ListStore::new();
    list.latest(&ms);
    assert!(list.fetched_first);
    assert_eq!(list.messages.len(), 3);
    assert_eq!(list.messages[0].subject, "gamma");
    list.prev();
    assert_eq!(list.selected, 0);
    list.next();
    list.next();
    assert_eq!(list.selected, 2);
    list.next();
    assert_eq!(list.selected, 3);
    assert!(list.get_selected().is_none());
    list.prev_page();
    assert_eq!(list.selected, 0);
    list.next_page();
    assert_eq!(list.selected, 3);
}

#[test]
fn runners_drive_the_store() {
    let ms = store_with_three();
    let mut store = Store::new();
    store.list_store.latest(&ms);
    assert!(ListRunner {}.run(&Event::Input(Key::Char('j')), &mut store, &ms));
    assert_eq!(store.list_store.selected, 1);
    assert!(ListRunner {}.run(&Event::Input(Key::End), &mut store, &ms));
    assert_eq!(store.list_store.selected, 2);
    assert!(!ListRunner {}.run(&Event::Input(Key::Char('z')), &mut store, &ms));
    assert!(ListRunner {}.run(&Event::Input(Key::Char('\n')), &mut store, &ms));
    assert_eq!(store.reader_store.message.as_ref().unwrap().subject, "alpha");
    assert!(ReaderRunner {}.run(&Event::Input(Key::Down), &mut store, &ms));
    assert_eq!(store.reader_store.scroll, 3);
    assert!(ReaderRunner {}.run(&Event::Input(Key::Up), &mut store, &ms));
    assert!(ReaderRunner {}.run(&Event::Input(Key::Up), &mut store, &ms));
    assert_eq!(store.reader_store.scroll, 0);
    assert!(ReaderRunner {}.run(&Event::Input(Key::Char('t')), &mut store, &ms));
    assert_eq!(store.tags_store.message.as_ref().unwrap().subject, "alpha");
    assert!(ReaderRunner {}.run(&Event::Input(Key::Esc), &mut store, &ms));
    assert!(store.reader_store.message.is_none());
    assert!(!ReaderRunner {}.run(&Event::Input(Key::Down), &mut store, &ms));
    assert!(!CtrlCRunner {}.run(&Event::Input(Key::Char('c')), &mut store));
    assert!(!QExitRunner {}.run(&Event::Tick, &mut store));
    assert!(QExitRunner {}.run(&Event::Input(Key::Char('q')), &mut store));
    assert!(store.exit);
}

#[test]
fn search_box_edits_and_searches() {
    let ms = store_with_three();
    let mut store = Store::new();
    assert!(!SearchRunner {}.run(&Event::Input(Key::Char('b')), &mut store, &ms));
    assert!(SearchRunner {}.run(&Event::Input(Key::Char('/')), &mut store, &ms));
    assert!(store.search_store.searching);
    for c in "betx".chars() {
        assert!(SearchRunner {}.run(&Event::Input(Key::Char(c)), &mut store, &ms));
    }
    assert_eq!(store.search_store.search_term, "betx");
    assert!(SearchRunner {}.run(&Event::Input(Key::Backspace), &mut store, &ms));
    assert_eq!(store.search_store.search_term, "bet");
    assert!(store.search_store.results.iter().any(|m| m.subject == "beta"));
    assert!(SearchRunner {}.run(&Event::Input(Key::Ctrl('\x08')), &mut store, &ms));
    assert_eq!(store.search_store.search_term, "");
    assert!(SearchRunner {}.run(&Event::Input(Key::Esc), &mut store, &ms));
    assert!(!store.search_store.searching);
}

#[test]
fn handler_chain_gives_search_priority() {
    let ms = store_with_three();
    let mut store = Store::new();
    assert!(run(&Event::Input(Key::Char('/')), &mut store, &ms));
    assert!(run(&Event::Input(Key::Char('q')), &mut store, &ms));
    assert!(!store.exit);
    assert_eq!(store.search_store.search_term, "q");
    assert!(run(&Event::Input(Key::Esc), &mut store, &ms));
    assert!(!run(&Event::Tick, &mut store, &ms));
    assert!(run(&Event::Input(Key::Ctrl('c')), &mut store, &ms));
    assert!(store.exit);
}

#[test]
fn reader_scroll_saturates() {
    let mut r = ReaderStore::new();
    r.scroll(-5);
    assert_eq!(r.scroll, 0);
    r.scroll = 65530;
    r.scroll(20);
    assert_eq!(r.scroll, 65535);
    r.scroll_top();
    assert_eq!(r.scroll, 0);
}

#[test]
fn run_can_be_sized_on_this_host() {
    let mut run = IndexRun::new();
    run.plan_for_host(50);
    assert_eq!(run.phase, Phase::Sizing);
    assert_eq!(run.total, 50);
    assert!(run.sizing.workers >= 1);
}
