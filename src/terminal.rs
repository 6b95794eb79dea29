use vstd::prelude::*;
use crate::index::{ranked, views, widened, window, Probe, MAX_DISTANCE};
use crate::message::Message;
use crate::store::MessageStore;
use crate::text::{chars_of, text_of_chars};

verus! {

/// A key as the terminal reports it.
#[derive(PartialEq, Eq, Structural, Clone, Copy, Debug)]
pub enum Key {
    Char(char),
    Alt(char),
    Ctrl(char),
    Up,
    Down,
    PageUp,
    PageDown,
    Home,
    End,
    Esc,
    Backspace,
    Other,
}

/// What the terminal loop hands to the input handlers.
#[derive(PartialEq, Eq, Structural, Clone, Copy, Debug)]
pub enum Event {
    Input(Key),
    Tick,
}

/// How many messages the first listing fetches.
pub const FIRST_FETCH: usize = 1000;

/// How many results a search shows.
pub const SEARCH_LIMIT: usize = 100;

/// The selection after moving by `offset` in a list of `len`: never before
/// the first entry, and one past the last at most.
pub open spec fn moved(selected: int, len: int, offset: int) -> int {
    if selected + offset < 0 {
        0
    } else if selected + offset > len - 1 {
        len
    } else {
        selected + offset
    }
}

/// The list of latest messages and its selection.
pub struct ListStore {
    pub messages: Vec<Message>,
    pub selected: usize,
    pub page_size: usize,
    pub curr_idx: usize,
    pub fetched_first: bool,
}

impl ListStore {
    pub fn new() -> (r: ListStore)
        ensures
            r.messages@.len() == 0,
            r.selected == 0,
            r.page_size == 10,
            r.curr_idx == 0,
            !r.fetched_first,
    {
        ListStore { messages: Vec::new(), selected: 0, page_size: 10, curr_idx: 0, fetched_first: false }
    }

    /// The selected message, if the selection is on one.
    pub fn get_selected(&self) -> (r: Option<&Message>)
        ensures
            r is Some <==> self.selected < self.messages@.len(),
            r matches Some(m) ==> *m == self.messages@[self.selected as int],
    {
        if self.selected < self.messages.len() {
            Some(&self.messages[self.selected])
        } else {
            None
        }
    }

    /// Moves the selection by `offset`.
    pub fn set_selected(&mut self, offset: i128)
        requires
            -0x1_0000_0000_0000_0000 <= offset <= 0x1_0000_0000_0000_0000,
        ensures
            final(self).selected as int == moved(old(self).selected as int, old(self).messages@.len() as int, offset as int),
            final(self).messages == old(self).messages,
            final(self).page_size == old(self).page_size,
            final(self).curr_idx == old(self).curr_idx,
            final(self).fetched_first == old(self).fetched_first,
    {
        let l = self.messages.len() as i128;
        let r = self.selected as i128 + offset;
        let s = if r < 0 {
            0
        } else if r > l - 1 {
            l
        } else {
            r
        };
        self.selected = s as usize;
    }

    pub fn next(&mut self)
        ensures
            final(self).selected as int == moved(old(self).selected as int, old(self).messages@.len() as int, 1),
            final(self).messages == old(self).messages,
            final(self).page_size == old(self).page_size,
            final(self).curr_idx == old(self).curr_idx,
            final(self).fetched_first == old(self).fetched_first,
    {
        self.set_selected(1);
    }

    pub fn prev(&mut self)
        ensures
            final(self).selected as int == moved(old(self).selected as int, old(self).messages@.len() as int, -1),
            final(self).messages == old(self).messages,
            final(self).page_size == old(self).page_size,
            final(self).curr_idx == old(self).curr_idx,
            final(self).fetched_first == old(self).fetched_first,
    {
        self.set_selected(-1);
    }

    pub fn next_page(&mut self)
        ensures
            final(self).selected as int == moved(
                old(self).selected as int,
                old(self).messages@.len() as int,
                old(self).page_size as int,
            ),
            final(self).messages == old(self).messages,
            final(self).page_size == old(self).page_size,
            final(self).curr_idx == old(self).curr_idx,
            final(self).fetched_first == old(self).fetched_first,
    {
        let p = self.page_size as i128;
        self.set_selected(p);
    }

    pub fn prev_page(&mut self)
        ensures
            final(self).selected as int == moved(
                old(self).selected as int,
                old(self).messages@.len() as int,
                -(old(self).page_size as int),
            ),
            final(self).messages == old(self).messages,
            final(self).page_size == old(self).page_size,
            final(self).curr_idx == old(self).curr_idx,
            final(self).fetched_first == old(self).fetched_first,
    {
        let p = self.page_size as i128;
        self.set_selected(-p);
    }

    /// Fetches the latest page: a larger first page, then pages of
    /// `page_size`.
    pub fn latest(&mut self, ms: &MessageStore)
        ensures
            final(self).fetched_first,
            views(final(self).messages@) == window(
                ranked(ms.searcher@.docs, Probe::All),
                old(self).curr_idx as int,
                if old(self).fetched_first {
                    old(self).page_size as int
                } else {
                    FIRST_FETCH as int
                },
            ),
            final(self).selected == old(self).selected,
            final(self).page_size == old(self).page_size,
            final(self).curr_idx == old(self).curr_idx,
    {
        let mut page_size = self.page_size;
        if !self.fetched_first {
            page_size = FIRST_FETCH;
            self.fetched_first = true;
        }
        match ms.get_messages_page(self.curr_idx, page_size) {
            Ok(messages) => self.messages = messages,
            Err(_) => self.messages = Vec::new(),
        }
    }
}

/// The search box and its results.
pub struct SearchStore {
    pub search_term: String,
    pub searching: bool,
    pub results: Vec<Message>,
}

impl SearchStore {
    pub fn new() -> (r: SearchStore)
        ensures
            r.search_term@.len() == 0,
            !r.searching,
            r.results@.len() == 0,
    {
        SearchStore { search_term: String::new(), searching: false, results: Vec::new() }
    }

    pub fn enable_search(&mut self)
        ensures
            final(self).searching,
            final(self).search_term == old(self).search_term,
            final(self).results == old(self).results,
    {
        self.searching = true;
    }

    pub fn disable_search(&mut self)
        ensures
            !final(self).searching,
            final(self).search_term == old(self).search_term,
            final(self).results == old(self).results,
    {
        self.searching = false;
    }

    /// Runs the search for the current term.
    fn refresh(&mut self, ms: &MessageStore)
        ensures
            views(final(self).results@) == widened(
                ms.searcher@.docs,
                old(self).search_term@,
                SEARCH_LIMIT as int,
                MAX_DISTANCE as nat,
            ),
            final(self).search_term == old(self).search_term,
            final(self).searching == old(self).searching,
    {
        self.results = match ms.search_fuzzy(&self.search_term, SEARCH_LIMIT) {
            Ok(r) => r,
            Err(_) => Vec::new(),
        };
    }

    /// Types one more character and searches again.
    pub fn search(&mut self, c: char, ms: &MessageStore)
        ensures
            final(self).search_term@ == old(self).search_term@.push(c),
            final(self).searching == old(self).searching,
            views(final(self).results@) == widened(
                ms.searcher@.docs,
                final(self).search_term@,
                SEARCH_LIMIT as int,
                MAX_DISTANCE as nat,
            ),
    {
        let mut cs = chars_of(self.search_term.as_str());
        cs.push(c);
        self.search_term = text_of_chars(&cs);
        self.refresh(ms);
    }

    /// Replaces the term and searches again.
    pub fn set_search(&mut self, s: String, ms: &MessageStore)
        ensures
            final(self).search_term@ == s@,
            final(self).searching == old(self).searching,
            views(final(self).results@) == widened(
                ms.searcher@.docs,
                s@,
                SEARCH_LIMIT as int,
                MAX_DISTANCE as nat,
            ),
    {
        self.search_term = s;
        self.refresh(ms)
    }

    /// The result at a position.
    pub fn get(&self, idx: usize) -> (r: Option<&Message>)
        ensures
            r is Some <==> idx < self.results@.len(),
            r matches Some(m) ==> *m == self.results@[idx as int],
    {
        if idx < self.results.len() {
            Some(&self.results[idx])
        } else {
            None
        }
    }

    /// Removes the last character of the term and searches again.
    pub fn backspace(&mut self, ms: &MessageStore)
        ensures
            final(self).search_term@ == if old(self).search_term@.len() == 0 {
                old(self).search_term@
            } else {
                old(self).search_term@.drop_last()
            },
            final(self).searching == old(self).searching,
            views(final(self).results@) == widened(
                ms.searcher@.docs,
                final(self).search_term@,
                SEARCH_LIMIT as int,
                MAX_DISTANCE as nat,
            ),
    {
        let mut cs = chars_of(self.search_term.as_str());
        if cs.len() > 0 {
            cs.pop();
        }
        self.search_term = text_of_chars(&cs);
        self.refresh(ms);
    }
}

/// The clamp of a scroll position.
pub open spec fn scrolled(scroll: int, n: int) -> int {
    if scroll + n < 0 {
        0
    } else if scroll + n > 0xffff {
        0xffff
    } else {
        scroll + n
    }
}

/// The message being read and how far it is scrolled.
pub struct ReaderStore {
    pub message: Option<Message>,
    pub scroll: u16,
}

impl ReaderStore {
    pub fn new() -> (r: ReaderStore)
        ensures
            r.message is None,
            r.scroll == 0,
    {
        ReaderStore { message: None, scroll: 0 }
    }

    /// A copy of the message being read.
    pub fn get_message(&self) -> (r: Option<Message>)
        ensures
            r is Some <==> self.message is Some,
            r matches Some(m) ==> m@ == self.message.unwrap()@,
    {
        match &self.message {
            Some(m) => Some(m.duplicate()),
            None => None,
        }
    }

    /// Opens the stored version of a message at the top, or closes the reader.
    pub fn read(&mut self, msg: Option<&Message>, ms: &MessageStore)
        requires
            ms.wf(),
        ensures
            match msg {
                Some(m) => {
                    &&& final(self).scroll == 0
                    &&& (final(self).message is Some <==> ms.kv@.contains_key(m@.id))
                    &&& final(self).message matches Some(r) ==> r@ == ms.kv@[m@.id]
                },
                None => final(self).message is None && final(self).scroll == old(self).scroll,
            },
    {
        match msg {
            Some(m) => {
                self.message = match ms.get_message(&m.id) {
                    Ok(found) => found,
                    Err(_) => None,
                };
                self.scroll = 0;
            },
            None => self.message = None,
        }
    }

    pub fn scroll_top(&mut self)
        ensures
            final(self).scroll == 0,
            final(self).message == old(self).message,
    {
        self.scroll = 0;
    }

    /// Scrolls by `n` lines, within the range of the position.
    pub fn scroll(&mut self, n: i16)
        ensures
            final(self).scroll as int == scrolled(old(self).scroll as int, n as int),
            final(self).message == old(self).message,
    {
        let v: i32 = self.scroll as i32 + n as i32;
        self.scroll = if v < 0 {
            0
        } else if v > 0xffff {
            0xffff
        } else {
            v as u16
        };
    }
}

/// The message whose tags are being edited.
pub struct TagsStore {
    pub message: Option<Message>,
}

impl TagsStore {
    pub fn new() -> (r: TagsStore)
        ensures
            r.message is None,
    {
        TagsStore { message: None }
    }

    pub fn edit(&mut self, message: Option<Message>)
        ensures
            final(self).message == message,
    {
        self.message = message;
    }
}

/// Everything the terminal shows.
pub struct Store {
    pub exit: bool,
    pub list_store: ListStore,
    pub search_store: SearchStore,
    pub reader_store: ReaderStore,
    pub tags_store: TagsStore,
}

impl Store {
    pub fn new() -> (r: Store)
        ensures
            !r.exit,
            r.list_store.messages@.len() == 0,
            r.list_store.selected == 0,
            r.search_store.results@.len() == 0,
            !r.search_store.searching,
            r.reader_store.message is None,
            r.tags_store.message is None,
    {
        Store {
            exit: false,
            list_store: ListStore::new(),
            search_store: SearchStore::new(),
            reader_store: ReaderStore::new(),
            tags_store: TagsStore::new(),
        }
    }
}

/// Whether an event is the given key.
pub open spec fn is_key(e: Event, k: Key) -> bool {
    e == Event::Input(k)
}

/// Leaves on Ctrl-C.
pub struct CtrlCRunner {}

impl CtrlCRunner {
    pub fn run(&self, e: &Event, store: &mut Store) -> (r: bool)
        ensures
            r == is_key(*e, Key::Ctrl('c')),
            *final(store) == if r {
                Store { exit: true, ..*old(store) }
            } else {
                *old(store)
            },
    {
        if *e == Event::Input(Key::Ctrl('c')) {
            store.exit = true;
            true
        } else {
            false
        }
    }
}

/// Leaves on `q`.
pub struct QExitRunner {}

impl QExitRunner {
    pub fn run(&self, e: &Event, store: &mut Store) -> (r: bool)
        ensures
            r == is_key(*e, Key::Char('q')),
            *final(store) == if r {
                Store { exit: true, ..*old(store) }
            } else {
                *old(store)
            },
    {
        if *e == Event::Input(Key::Char('q')) {
            store.exit = true;
            true
        } else {
            false
        }
    }
}

/// Keys that move the list selection by one entry down, one up, one page
/// down and one page up.
pub open spec fn list_down(e: Event) -> bool {
    is_key(e, Key::Down) || is_key(e, Key::Char('j'))
}

pub open spec fn list_up(e: Event) -> bool {
    is_key(e, Key::Up) || is_key(e, Key::Char('k'))
}

pub open spec fn list_page_down(e: Event) -> bool {
    is_key(e, Key::PageDown) || is_key(e, Key::Alt('j')) || is_key(e, Key::Ctrl('d'))
}

pub open spec fn list_page_up(e: Event) -> bool {
    is_key(e, Key::PageUp) || is_key(e, Key::Alt('k')) || is_key(e, Key::Ctrl('u'))
}

/// Keys that clear the search.
pub open spec fn list_clear(e: Event) -> bool {
    is_key(e, Key::Char('d')) || is_key(e, Key::Char('u'))
}

/// Every key the list handles.
pub open spec fn list_handles(e: Event) -> bool {
    list_down(e) || list_up(e) || list_page_down(e) || list_page_up(e) || list_clear(e) || is_key(
        e,
        Key::Home,
    ) || is_key(e, Key::End) || is_key(e, Key::Char('\n'))
}

/// The message that Enter opens: the selected search result while there are
/// results, else the selected list entry.
pub open spec fn to_open(s: Store) -> Option<Message> {
    if s.search_store.results@.len() > 0 {
        if s.list_store.selected < s.search_store.results@.len() {
            Some(s.search_store.results@[s.list_store.selected as int])
        } else {
            None
        }
    } else if s.list_store.selected < s.list_store.messages@.len() {
        Some(s.list_store.messages@[s.list_store.selected as int])
    } else {
        None
    }
}

/// Moves through the list, clears the search, or opens a message.
pub struct ListRunner {}

impl ListRunner {
    pub fn run(&self, e: &Event, store: &mut Store, ms: &MessageStore) -> (r: bool)
        requires
            ms.wf(),
        ensures
            r == list_handles(*e),
            !list_handles(*e) ==> *final(store) == *old(store),
            final(store).exit == old(store).exit,
            final(store).tags_store == old(store).tags_store,
            !is_key(*e, Key::Char('\n')) ==> final(store).reader_store == old(store).reader_store,
            !list_clear(*e) ==> final(store).search_store == old(store).search_store,
            final(store).list_store.messages == old(store).list_store.messages,
            final(store).list_store.selected as int == if list_down(*e) {
                moved(old(store).list_store.selected as int, old(store).list_store.messages@.len() as int, 1)
            } else if list_up(*e) {
                moved(old(store).list_store.selected as int, old(store).list_store.messages@.len() as int, -1)
            } else if list_page_down(*e) {
                moved(
                    old(store).list_store.selected as int,
                    old(store).list_store.messages@.len() as int,
                    old(store).list_store.page_size as int,
                )
            } else if list_page_up(*e) {
                moved(
                    old(store).list_store.selected as int,
                    old(store).list_store.messages@.len() as int,
                    -(old(store).list_store.page_size as int),
                )
            } else if is_key(*e, Key::Home) {
                0
            } else if is_key(*e, Key::End) {
                if old(store).list_store.messages@.len() > 0 {
                    old(store).list_store.messages@.len() - 1
                } else {
                    0
                }
            } else {
                old(store).list_store.selected as int
            },
            list_clear(*e) ==> final(store).search_store.results@.len() == 0
                && final(store).search_store.search_term@.len() == 0
                && final(store).search_store.searching == old(store).search_store.searching,
            is_key(*e, Key::Char('\n')) ==> match to_open(*old(store)) {
                Some(m) => {
                    &&& final(store).reader_store.scroll == 0
                    &&& (final(store).reader_store.message is Some <==> ms.kv@.contains_key(m@.id))
                    &&& final(store).reader_store.message matches Some(x) ==> x@ == ms.kv@[m@.id]
                },
                None => final(store).reader_store.message is None && final(store).reader_store.scroll
                    == old(store).reader_store.scroll,
            },
    {
        match *e {
            Event::Input(Key::Down) | Event::Input(Key::Char('j')) => {
                store.list_store.next();
                true
            },
            Event::Input(Key::Up) | Event::Input(Key::Char('k')) => {
                store.list_store.prev();
                true
            },
            Event::Input(Key::PageDown) | Event::Input(Key::Alt('j')) | Event::Input(Key::Ctrl('d')) => {
                store.list_store.next_page();
                true
            },
            Event::Input(Key::PageUp) | Event::Input(Key::Alt('k')) | Event::Input(Key::Ctrl('u')) => {
                store.list_store.prev_page();
                true
            },
            Event::Input(Key::Char('d')) | Event::Input(Key::Char('u')) => {
                store.search_store.results = Vec::new();
                store.search_store.search_term = String::new();
                true
            },
            Event::Input(Key::Home) => {
                store.list_store.selected = 0;
                true
            },
            Event::Input(Key::End) => {
                store.list_store.selected = if store.list_store.messages.len() > 0 {
                    store.list_store.messages.len() - 1
                } else {
                    0
                };
                true
            },
            Event::Input(Key::Char('\n')) => {
                let target = if store.search_store.results.len() > 0 {
                    match store.search_store.get(store.list_store.selected) {
                        Some(m) => Some(m.duplicate()),
                        None => None,
                    }
                } else {
                    match store.list_store.get_selected() {
                        Some(m) => Some(m.duplicate()),
                        None => None,
                    }
                };
                match &target {
                    Some(m) => store.reader_store.read(Some(m), ms),
                    None => store.reader_store.read(None, ms),
                }
                true
            },
            _ => false,
        }
    }
}

/// Keys the reader handles while a message is open.
pub open spec fn reader_handles(e: Event) -> bool {
    is_key(e, Key::Esc) || is_key(e, Key::Char('q')) || is_key(e, Key::Char('j')) || is_key(e, Key::Down)
        || is_key(e, Key::Char('k')) || is_key(e, Key::Up) || is_key(e, Key::Ctrl('u')) || is_key(
        e,
        Key::PageUp,
    ) || is_key(e, Key::Ctrl('d')) || is_key(e, Key::PageDown) || is_key(e, Key::Char('t')) || is_key(
        e,
        Key::Home,
    )
}

/// How far a reader key scrolls.
pub open spec fn reader_scroll(e: Event) -> int {
    if is_key(e, Key::Char('j')) || is_key(e, Key::Down) {
        3
    } else if is_key(e, Key::Char('k')) || is_key(e, Key::Up) {
        -3
    } else if is_key(e, Key::Ctrl('u')) || is_key(e, Key::PageUp) {
        -20
    } else if is_key(e, Key::Ctrl('d')) || is_key(e, Key::PageDown) {
        20
    } else {
        0
    }
}

/// Scrolls or closes the open message, or starts editing its tags.
pub struct ReaderRunner {}

impl ReaderRunner {
    pub fn run(&self, e: &Event, store: &mut Store, ms: &MessageStore) -> (r: bool)
        requires
            ms.wf(),
        ensures
            r == (old(store).reader_store.message is Some && reader_handles(*e)),
            !r ==> *final(store) == *old(store),
            final(store).exit == old(store).exit,
            final(store).list_store == old(store).list_store,
            final(store).search_store == old(store).search_store,
            r && !is_key(*e, Key::Char('t')) ==> final(store).tags_store == old(store).tags_store,
            r && (is_key(*e, Key::Esc) || is_key(*e, Key::Char('q'))) ==> final(store).reader_store.message is None,
            r && reader_scroll(*e) != 0 ==> final(store).reader_store.scroll as int == scrolled(
                old(store).reader_store.scroll as int,
                reader_scroll(*e),
            ) && final(store).reader_store.message == old(store).reader_store.message,
            r && is_key(*e, Key::Home) ==> final(store).reader_store.scroll == 0
                && final(store).reader_store.message == old(store).reader_store.message,
            r && is_key(*e, Key::Char('t')) ==> final(store).reader_store == old(store).reader_store
                && final(store).tags_store.message is Some
                && final(store).tags_store.message.unwrap()@ == old(store).reader_store.message.unwrap()@,
    {
        if store.reader_store.message.is_none() {
            return false;
        }
        match *e {
            Event::Input(Key::Esc) | Event::Input(Key::Char('q')) => {
                store.reader_store.read(None, ms);
                true
            },
            Event::Input(Key::Char('j')) | Event::Input(Key::Down) => {
                store.reader_store.scroll(3);
                true
            },
            Event::Input(Key::Char('k')) | Event::Input(Key::Up) => {
                store.reader_store.scroll(-3);
                true
            },
            Event::Input(Key::Ctrl('u')) | Event::Input(Key::PageUp) => {
                store.reader_store.scroll(-20);
                true
            },
            Event::Input(Key::Ctrl('d')) | Event::Input(Key::PageDown) => {
                store.reader_store.scroll(20);
                true
            },
            Event::Input(Key::Char('t')) => {
                let m = store.reader_store.get_message();
                store.tags_store.edit(m);
                true
            },
            Event::Input(Key::Home) => {
                store.reader_store.scroll_top();
                true
            },
            _ => false,
        }
    }
}

/// Whether the search box takes the event: while searching, Esc, Enter, any
/// character, Backspace and Ctrl-Backspace; otherwise `/` to start.
pub open spec fn search_handles(searching: bool, e: Event) -> bool {
    if searching {
        match e {
            Event::Input(Key::Esc) | Event::Input(Key::Char(_)) | Event::Input(Key::Backspace) => true,
            Event::Input(Key::Ctrl(c)) => c == '\x08',
            _ => false,
        }
    } else {
        is_key(e, Key::Char('/'))
    }
}

/// Edits the search term and searches as it changes.
pub struct SearchRunner {}

impl SearchRunner {
    pub fn run(&self, e: &Event, store: &mut Store, ms: &MessageStore) -> (r: bool)
        ensures
            r == search_handles(old(store).search_store.searching, *e),
            !r ==> *final(store) == *old(store),
            final(store).exit == old(store).exit,
            final(store).list_store == old(store).list_store,
            final(store).reader_store == old(store).reader_store,
            final(store).tags_store == old(store).tags_store,
            !old(store).search_store.searching && r ==> final(store).search_store.searching
                && final(store).search_store.search_term == old(store).search_store.search_term,
            old(store).search_store.searching && (is_key(*e, Key::Esc) || is_key(*e, Key::Char('\n')))
                ==> !final(store).search_store.searching && final(store).search_store.search_term
                == old(store).search_store.search_term,
            old(store).search_store.searching ==> match *e {
                Event::Input(Key::Char(c)) => c != '\n' ==> final(store).search_store.search_term@
                    == old(store).search_store.search_term@.push(c),
                Event::Input(Key::Backspace) => final(store).search_store.search_term@ == if old(
                    store,
                ).search_store.search_term@.len() == 0 {
                    old(store).search_store.search_term@
                } else {
                    old(store).search_store.search_term@.drop_last()
                },
                Event::Input(Key::Ctrl(c)) => c == '\x08' ==> final(store).search_store.search_term@.len()
                    == 0,
                _ => true,
            },
            old(store).search_store.searching && r && !is_key(*e, Key::Esc) && !is_key(*e, Key::Char('\n'))
                ==> final(store).search_store.searching && views(final(store).search_store.results@)
                == widened(
                ms.searcher@.docs,
                final(store).search_store.search_term@,
                SEARCH_LIMIT as int,
                MAX_DISTANCE as nat,
            ),
    {
        if store.search_store.searching {
            match *e {
                Event::Input(Key::Esc) => {
                    store.search_store.disable_search();
                    true
                },
                Event::Input(Key::Char('\n')) => {
                    store.search_store.disable_search();
                    true
                },
                Event::Input(Key::Char(c)) => {
                    store.search_store.search(c, ms);
                    true
                },
                Event::Input(Key::Backspace) => {
                    store.search_store.backspace(ms);
                    true
                },
                Event::Input(Key::Ctrl('\x08')) => {
                    store.search_store.set_search(String::new(), ms);
                    true
                },
                _ => false,
            }
        } else {
            match *e {
                Event::Input(Key::Char('/')) => {
                    store.search_store.enable_search();
                    true
                },
                _ => false,
            }
        }
    }
}

/// Hands an event to the handlers in turn until one takes it: the search box,
/// the reader, the list, `q`, then Ctrl-C.
pub fn run(e: &Event, store: &mut Store, ms: &MessageStore) -> (r: bool)
    requires
        ms.wf(),
    ensures
        r == (search_handles(old(store).search_store.searching, *e) || (old(store).reader_store.message is Some
            && reader_handles(*e)) || list_handles(*e) || is_key(*e, Key::Char('q')) || is_key(
            *e,
            Key::Ctrl('c'),
        )),
        !r ==> *final(store) == *old(store),
        final(store).exit == (old(store).exit || (!search_handles(old(store).search_store.searching, *e)
            && !(old(store).reader_store.message is Some && reader_handles(*e)) && !list_handles(*e) && (
        is_key(*e, Key::Char('q')) || is_key(*e, Key::Ctrl('c'))))),
{
    if (SearchRunner {}).run(e, store, ms) {
        return true;
    }
    if (ReaderRunner {}).run(e, store, ms) {
        return true;
    }
    if (ListRunner {}).run(e, store, ms) {
        return true;
    }
    if (QExitRunner {}).run(e, store) {
        return true;
    }
    (CtrlCRunner {}).run(e, store)
}

} // verus!
