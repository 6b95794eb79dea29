use vstd::prelude::*;
use vstd::string::StringSliceAdditionalSpecFns;
use vstd::utf8::encode_utf8;
use crate::html::{html2text, html_text};
use crate::mime::{body_views, extract_body, parse_parts, part_bodies, mail_parts, Body, MailPart, Mime};
use crate::text::{after_last_semicolon, after_semicolon, copy_bytes, copy_texts, eq_ignore_case, same_ignoring_ascii_case};

verus! {

/// What mailparse::dateparse reads from a date text, in seconds since the epoch.
pub uninterp spec fn date_seconds(s: Seq<char>) -> Option<i64>;

/// Relies on mailparse::dateparse: a permissive RFC 2822 date grammar.
#[verifier::external_body]
fn parse_date(s: &str) -> (r: Option<i64>)
    ensures
        r == date_seconds(s@),
{
    mailparse::dateparse(s).ok()
}

/// The lower-case hexadecimal SHA-512 digest of some bytes.
pub uninterp spec fn sha512_hex(data: Seq<u8>) -> Seq<char>;

/// Relies on sha2::Sha512 and the lower-hex formatting of its digest.
#[verifier::external_body]
pub fn get_id(data: &[u8]) -> (r: String)
    ensures
        r@ == sha512_hex(data@),
{
    format!("{:x}", <sha2::Sha512 as sha2::Digest>::digest(data))
}

/// A message: its content hash, body candidates, headers of interest, date,
/// raw bytes and user tags.
#[derive(Debug, Clone, PartialEq, Eq)]
pub struct Message {
    pub id: String,
    pub body: Vec<Body>,
    pub subject: String,
    pub from: String,
    pub recipients: Vec<String>,
    pub date: u64,
    pub original: Vec<u8>,
    pub tags: Vec<String>,
}

/// A message as a value: every field by its contents.
pub struct MessageView {
    pub id: Seq<char>,
    pub body: Seq<(Mime, Seq<char>)>,
    pub subject: Seq<char>,
    pub from: Seq<char>,
    pub recipients: Seq<Seq<char>>,
    pub date: u64,
    pub original: Seq<u8>,
    pub tags: Seq<Seq<char>>,
}

impl View for Message {
    type V = MessageView;

    open spec fn view(&self) -> MessageView {
        MessageView {
            id: self.id@,
            body: body_views(self.body@),
            subject: self.subject@,
            from: self.from@,
            recipients: texts(self.recipients@),
            date: self.date,
            original: self.original@,
            tags: texts(self.tags@),
        }
    }
}

/// The short form of a message that lists show.
#[derive(Debug, Clone, PartialEq, Eq)]
pub struct ShortMessage {
    pub id: String,
    pub subject: String,
    pub from: String,
    pub date: u64,
}

/// Why a message could not be read.
#[derive(Debug)]
pub struct MessageError {
    pub message: String,
}

impl MessageError {
    pub fn from(msg: &str) -> (r: Self)
        ensures
            r.message@ == msg@,
    {
        MessageError { message: msg.to_owned() }
    }
}

/// Whether a header key names the given field, ignoring ASCII case.
pub open spec fn key_is(k: Seq<char>, name: Seq<char>) -> bool {
    same_ignoring_ascii_case(k, name)
}

/// The value of the last header named `name`, or nothing.
pub open spec fn header_value(hs: Seq<(String, String)>, name: Seq<char>) -> Seq<char>
    decreases hs.len(),
{
    if hs.len() == 0 {
        Seq::empty()
    } else if key_is(hs.last().0@, name) {
        hs.last().1@
    } else {
        header_value(hs.drop_last(), name)
    }
}

/// Whether a header key is one of the recipient fields.
pub open spec fn is_recipient_key(k: Seq<char>) -> bool {
    key_is(k, "to"@) || key_is(k, "cc"@) || key_is(k, "bcc"@)
}

/// The values of the To, Cc and Bcc headers, in header order.
pub open spec fn recipients_of(hs: Seq<(String, String)>) -> Seq<Seq<char>>
    decreases hs.len(),
{
    if hs.len() == 0 {
        Seq::empty()
    } else if is_recipient_key(hs.last().0@) {
        recipients_of(hs.drop_last()).push(hs.last().1@)
    } else {
        recipients_of(hs.drop_last())
    }
}

/// The date that one header gives, if it is a date header whose text after
/// its last `;` parses; a time before the epoch counts as the unknown date 0.
pub open spec fn header_date(h: (String, String)) -> Option<u64> {
    if key_is(h.0@, "received"@) || key_is(h.0@, "date"@) {
        match date_seconds(after_semicolon(h.1@)) {
            Some(v) => if v >= 0 {
                Some(v as u64)
            } else {
                Some(0)
            },
            None => None,
        }
    } else {
        None
    }
}

/// The date of the first header, in document order, that gives one.
pub open spec fn first_date(hs: Seq<(String, String)>) -> Option<u64>
    decreases hs.len(),
{
    if hs.len() == 0 {
        None
    } else {
        match first_date(hs.drop_last()) {
            Some(d) => Some(d),
            None => header_date(hs.last()),
        }
    }
}

/// The date of a message: the first parseable date header, else zero.
pub open spec fn date_of(hs: Seq<(String, String)>) -> u64 {
    match first_date(hs) {
        Some(d) => d,
        None => 0,
    }
}

/// The views of a list of texts.
pub open spec fn texts(v: Seq<String>) -> Seq<Seq<char>> {
    v.map_values(|s: String| s@)
}

/// What parsing gives for a message whose parts are `ps`: every field is
/// derived from the raw bytes, and there are no tags yet.
pub open spec fn parsed_from(m: Message, raw: Seq<u8>, ps: Seq<MailPart>) -> bool {
    let hs = ps[0].headers@;
    &&& m.id@ == sha512_hex(raw)
    &&& m.original@ == raw
    &&& m.subject@ == header_value(hs, "subject"@)
    &&& m.from@ == header_value(hs, "from"@)
    &&& texts(m.recipients@) == recipients_of(hs)
    &&& m.date == date_of(hs)
    &&& body_views(m.body@) == part_bodies(ps, 0, Mime::PlainText)
    &&& m.tags@.len() == 0
}

/// The message that parsing gives for raw bytes that mailparse takes apart.
pub open spec fn parsed_view(raw: Seq<u8>) -> MessageView {
    let ps = mail_parts(raw).unwrap();
    let hs = ps[0].headers@;
    MessageView {
        id: sha512_hex(raw),
        body: part_bodies(ps, 0, Mime::PlainText),
        subject: header_value(hs, "subject"@),
        from: header_value(hs, "from"@),
        recipients: recipients_of(hs),
        date: date_of(hs),
        original: raw,
        tags: Seq::empty(),
    }
}

/// The header fields of interest: subject, sender, recipients and date.
fn read_headers(hs: &Vec<(String, String)>) -> (r: (String, String, Vec<String>, u64))
    ensures
        r.0@ == header_value(hs@, "subject"@),
        r.1@ == header_value(hs@, "from"@),
        texts(r.2@) == recipients_of(hs@),
        r.3 == date_of(hs@),
{
    let mut subject = String::new();
    let mut from = String::new();
    let mut recipients: Vec<String> = Vec::new();
    let mut date: Option<u64> = None;
    let mut i: usize = 0;
    while i < hs.len()
        invariant
            i <= hs@.len(),
            subject@ == header_value(hs@.subrange(0, i as int), "subject"@),
            from@ == header_value(hs@.subrange(0, i as int), "from"@),
            texts(recipients@) == recipients_of(hs@.subrange(0, i as int)),
            date == first_date(hs@.subrange(0, i as int)),
        decreases hs@.len() - i,
    {
        let h = &hs[i];
        let ghost pre = hs@.subrange(0, i as int);
        assert(hs@.subrange(0, i + 1).drop_last() =~= pre);
        assert(hs@.subrange(0, i + 1).last() == hs@[i as int]);
        if eq_ignore_case(h.0.as_str(), "subject") {
            subject = h.1.clone();
        }
        if eq_ignore_case(h.0.as_str(), "from") {
            from = h.1.clone();
        }
        if eq_ignore_case(h.0.as_str(), "to") || eq_ignore_case(h.0.as_str(), "cc")
            || eq_ignore_case(h.0.as_str(), "bcc") {
            let ghost before = recipients@;
            recipients.push(h.1.clone());
            assert(texts(recipients@) =~= texts(before).push(h.1@));
        }
        if date.is_none() && (eq_ignore_case(h.0.as_str(), "received") || eq_ignore_case(
            h.0.as_str(),
            "date",
        )) {
            let tail = after_last_semicolon(h.1.as_str());
            match parse_date(tail.as_str()) {
                Some(v) => {
                    date = Some(
                        if v >= 0 {
                            v as u64
                        } else {
                            0
                        },
                    );
                },
                None => {},
            }
        }
        i = i + 1;
    }
    assert(hs@.subrange(0, hs@.len() as int) =~= hs@);
    let d = match date {
        Some(d) => d,
        None => 0,
    };
    (subject, from, recipients, d)
}

impl Message {
    /// An exact copy of the message.
    pub fn duplicate(&self) -> (r: Message)
        ensures
            r@ == self@,
    {
        let mut body: Vec<Body> = Vec::new();
        let mut i: usize = 0;
        while i < self.body.len()
            invariant
                i <= self.body@.len(),
                body@ == self.body@.subrange(0, i as int),
            decreases self.body@.len() - i,
        {
            body.push(self.body[i].duplicate());
            i = i + 1;
            assert(body@ =~= self.body@.subrange(0, i as int));
        }
        assert(self.body@.subrange(0, self.body@.len() as int) =~= self.body@);
        let r = Message {
            id: self.id.clone(),
            body,
            subject: self.subject.clone(),
            from: self.from.clone(),
            recipients: copy_texts(&self.recipients),
            date: self.date,
            original: copy_bytes(&self.original),
            tags: copy_texts(&self.tags),
        };
        assert(r@.body =~= self@.body);
        assert(r@.recipients =~= self@.recipients);
        assert(r@.tags =~= self@.tags);
        r
    }

    /// Parses raw message bytes. Fails only when the bytes cannot be taken
    /// apart into headers and a body at all.
    pub fn from_data(data: Vec<u8>) -> (r: Result<Message, MessageError>)
        ensures
            r is Err <==> mail_parts(data@) is None,
            r matches Err(e) ==> e.message@ == "Unable to parse email data"@,
            r matches Ok(m) ==> parsed_from(m, data@, mail_parts(data@).unwrap()) && m@ == parsed_view(
                data@,
            ),
    {
        let parts = match parse_parts(data.as_slice()) {
            Some(p) => p,
            None => {
                return Err(MessageError::from("Unable to parse email data"));
            },
        };
        let m = Self::from_parsedmail(data, &parts);
        assert(m@.tags =~= Seq::<Seq<char>>::empty());
        Ok(m)
    }

    /// The message of raw bytes whose parts are already listed: identity from
    /// the bytes, fields from the headers of the first part, bodies resolved
    /// with plain text preferred.
    pub fn from_parsedmail(data: Vec<u8>, parts: &Vec<MailPart>) -> (r: Message)
        requires
            parts@.len() >= 1,
        ensures
            parsed_from(r, data@, parts@),
    {
        let id = get_id(data.as_slice());
        let (subject, from, recipients, date) = read_headers(&parts[0].headers);
        let body = extract_body(parts, false);
        let m = Message { id, body, subject, from, recipients, date, original: data, tags: Vec::new() };
        assert(m@.tags =~= Seq::<Seq<char>>::empty());
        m
    }

    /// The first body of the given kind (plain text when none is given), else
    /// the first body, else nothing.
    pub fn get_body(&self, mime: Option<Mime>) -> (r: Option<&Body>)
        ensures
            r is None <==> self.body@.len() == 0,
            r matches Some(b) ==> b.view_pair() == body_views(self.body@)[chosen(
                body_views(self.body@),
                wanted(mime),
            )],
    {
        let m = if let Some(x) = mime {
            x
        } else {
            Mime::PlainText
        };
        let ghost bs = body_views(self.body@);
        let mut i: usize = 0;
        while i < self.body.len()
            invariant
                i <= self.body@.len(),
                bs == body_views(self.body@),
                wanted(mime) == m,
                forall|j: int| 0 <= j < i ==> bs[j].0 != m,
            decreases self.body@.len() - i,
        {
            if self.body[i].mime == m {
                proof {
                    lemma_first_kind(bs, m, i as int);
                }
                return Some(&self.body[i]);
            }
            i = i + 1;
        }
        proof {
            lemma_first_kind(bs, m, i as int);
        }
        if self.body.len() > 0 {
            Some(&self.body[0])
        } else {
            None
        }
    }

    /// The first 24 bytes of the id, or the whole id when it is shorter or
    /// 24 bytes would split a character.
    pub fn short_id(&self) -> (r: &str)
        ensures
            encode_utf8(r@) == short_id_bytes(self.id@),
    {
        let s = self.id.as_str();
        proof {
            vstd::utf8::encode_utf8_valid_utf8(self.id@);
        }
        assert(s.spec_bytes() == encode_utf8(self.id@));
        if s.len() >= 24 && s.is_char_boundary(24) {
            let r = s.split_at(24).0;
            assert(r.spec_bytes() == encode_utf8(r@));
            r
        } else {
            s
        }
    }
}

/// The bytes of a short id: the first 24 of the id, or all of it when it is
/// shorter or 24 bytes would split a character.
pub open spec fn short_id_bytes(id: Seq<char>) -> Seq<u8> {
    if (encode_utf8(id).len() as usize) >= 24 && vstd::utf8::is_char_boundary(encode_utf8(id), 24) {
        encode_utf8(id).subrange(0, 24)
    } else {
        encode_utf8(id)
    }
}

/// The kind asked for: plain text unless another is given.
pub open spec fn wanted(mime: Option<Mime>) -> Mime {
    match mime {
        Some(m) => m,
        None => Mime::PlainText,
    }
}

/// The index of the first body of kind `m`, or the length when none is.
pub open spec fn first_kind(bs: Seq<(Mime, Seq<char>)>, m: Mime) -> int
    decreases bs.len(),
{
    if bs.len() == 0 {
        0
    } else if bs[0].0 == m {
        0
    } else {
        1 + first_kind(bs.drop_first(), m)
    }
}

/// The index of the body that a reader wanting kind `m` gets: the first of
/// that kind, else the first of all.
pub open spec fn chosen(bs: Seq<(Mime, Seq<char>)>, m: Mime) -> int {
    if first_kind(bs, m) < bs.len() {
        first_kind(bs, m)
    } else {
        0
    }
}

proof fn lemma_first_kind(bs: Seq<(Mime, Seq<char>)>, m: Mime, i: int)
    requires
        0 <= i <= bs.len(),
        forall|j: int| 0 <= j < i ==> bs[j].0 != m,
        i == bs.len() || bs[i].0 == m,
    ensures
        first_kind(bs, m) == i,
    decreases bs.len(),
{
    if bs.len() > 0 && i > 0 {
        lemma_first_kind(bs.drop_first(), m, i - 1);
    }
}

/// The readable text of a body: plain text as it is, HTML rendered, nothing
/// for other kinds.
pub open spec fn body_text(b: (Mime, Seq<char>)) -> Seq<char> {
    if b.0 == Mime::PlainText {
        b.1
    } else if b.0 == Mime::Html {
        html_text(b.1)
    } else {
        Seq::empty()
    }
}

/// The text that a message is searched by: that of the body a plain-text
/// reader gets, or nothing when it has no body.
pub open spec fn message_text(m: MessageView) -> Seq<char> {
    if m.body.len() == 0 {
        Seq::empty()
    } else {
        body_text(m.body[chosen(m.body, Mime::PlainText)])
    }
}

impl Body {
    /// The readable text of the body.
    pub fn as_text(&self) -> (r: String)
        ensures
            r@ == body_text(self.view_pair()),
    {
        match self.mime {
            Mime::PlainText => self.value.clone(),
            Mime::Html => html2text(self.value.as_str()),
            _ => String::new(),
        }
    }
}

impl Message {
    /// The text that the message is searched by.
    pub fn index_text(&self) -> (r: String)
        ensures
            r@ == message_text(self@),
    {
        match self.get_body(None) {
            Some(b) => b.as_text(),
            None => String::new(),
        }
    }
}

/// Parsing is deterministic: two messages parsed from the same bytes have
/// the same id and are equal in every field.
pub proof fn lemma_parse_deterministic(m1: Message, m2: Message, raw: Seq<u8>)
    requires
        mail_parts(raw) is Some,
        parsed_from(m1, raw, mail_parts(raw).unwrap()),
        parsed_from(m2, raw, mail_parts(raw).unwrap()),
    ensures
        m1@.id == m2@.id,
        m1@ == m2@,
        m1@ == parsed_view(raw),
{
    assert(m1@.tags =~= m2@.tags);
    assert(m1@.tags =~= Seq::<Seq<char>>::empty());
}

/// The texts with repeats removed, each kept where it first occurs.
pub open spec fn distinct(s: Seq<Seq<char>>) -> Seq<Seq<char>>
    decreases s.len(),
{
    if s.len() == 0 {
        s
    } else if distinct(s.drop_last()).contains(s.last()) {
        distinct(s.drop_last())
    } else {
        distinct(s.drop_last()).push(s.last())
    }
}

/// Removing repeats keeps the same texts and leaves none twice.
pub proof fn lemma_distinct(s: Seq<Seq<char>>)
    ensures
        distinct(s).to_set() == s.to_set(),
        distinct(s).no_duplicates(),
    decreases s.len(),
{
    if s.len() > 0 {
        let p = s.drop_last();
        lemma_distinct(p);
        let d = distinct(p);
        assert(p.to_set() == d.to_set());
        assert forall|x: Seq<char>| #[trigger] s.contains(x) <==> p.contains(x) || x == s.last() by {
            if s.contains(x) {
                let i = choose|i: int| 0 <= i < s.len() && s[i] == x;
                if i < s.len() - 1 {
                    assert(p[i] == x);
                }
            }
            if p.contains(x) {
                let i = choose|i: int| 0 <= i < p.len() && p[i] == x;
                assert(s[i] == x);
            }
            if x == s.last() {
                assert(s[s.len() - 1] == x);
            }
        }
        if !d.contains(s.last()) {
            let e = d.push(s.last());
            assert forall|x: Seq<char>| #[trigger] e.contains(x) <==> d.contains(x) || x == s.last() by {
                if e.contains(x) {
                    let i = choose|i: int| 0 <= i < e.len() && e[i] == x;
                    if i < d.len() {
                        assert(d[i] == x);
                    }
                }
                if d.contains(x) {
                    let i = choose|i: int| 0 <= i < d.len() && d[i] == x;
                    assert(e[i] == x);
                }
                if x == s.last() {
                    assert(e[d.len() as int] == x);
                }
            }
            assert(e.to_set() =~= s.to_set()) by {
                assert forall|x: Seq<char>| e.to_set().contains(x) <==> s.to_set().contains(x) by {
                    assert(d.to_set().contains(x) <==> d.contains(x));
                    assert(p.to_set().contains(x) <==> p.contains(x));
                }
            }
            assert forall|i: int, j: int| 0 <= i < e.len() && 0 <= j < e.len() && i != j implies e[i] != e[j] by {
                if i == d.len() {
                    assert(d[j] == e[j]);
                } else if j == d.len() {
                    assert(d[i] == e[i]);
                }
            }
        } else {
            assert(d.to_set() =~= s.to_set()) by {
                assert forall|x: Seq<char>| d.to_set().contains(x) <==> s.to_set().contains(x) by {
                    assert(d.to_set().contains(x) <==> d.contains(x));
                    assert(p.to_set().contains(x) <==> p.contains(x));
                }
            }
        }
    }
}

/// The texts with repeats removed, each kept where it first occurs.
pub fn dedup_texts(v: Vec<String>) -> (r: Vec<String>)
    ensures
        texts(r@) == distinct(texts(v@)),
{
    let ghost sv = texts(v@);
    let mut rest = v;
    let mut out: Vec<String> = Vec::new();
    let mut i: usize = 0;
    let n = rest.len();
    while rest.len() > 0
        invariant
            i + rest@.len() == n,
            n == sv.len(),
            texts(rest@) == sv.subrange(i as int, n as int),
            texts(out@) == distinct(sv.subrange(0, i as int)),
        decreases rest@.len(),
    {
        let ghost rv = rest@;
        let t = rest.remove(0);
        assert(texts(rv)[0] == t@);
        assert(sv.subrange(0, i + 1).drop_last() =~= sv.subrange(0, i as int));
        assert(sv.subrange(0, i + 1).last() == t@);
        let mut seen = false;
        let mut k: usize = 0;
        while k < out.len()
            invariant
                k <= out@.len(),
                seen == texts(out@).subrange(0, k as int).contains(t@),
            decreases out@.len() - k,
        {
            proof {
                let pre = texts(out@).subrange(0, k as int);
                let post = texts(out@).subrange(0, k + 1);
                assert forall|x: Seq<char>| #[trigger] post.contains(x) <==> pre.contains(x) || x == out@[k as int]@ by {
                    if post.contains(x) {
                        let j = choose|j: int| 0 <= j < post.len() && post[j] == x;
                        if j < k {
                            assert(pre[j] == x);
                        }
                    }
                    if pre.contains(x) {
                        let j = choose|j: int| 0 <= j < pre.len() && pre[j] == x;
                        assert(post[j] == x);
                    }
                    if x == out@[k as int]@ {
                        assert(post[k as int] == x);
                    }
                }
            }
            if out[k].eq(&t) {
                seen = true;
            }
            k = k + 1;
        }
        assert(texts(out@).subrange(0, out@.len() as int) =~= texts(out@));
        if !seen {
            let ghost before = texts(out@);
            out.push(t);
            assert(texts(out@) =~= before.push(t@));
        }
        i = i + 1;
        assert forall|j: int| 0 <= j < rest@.len() implies #[trigger] texts(rest@)[j] == sv[i + j] by {
            assert(rest@[j] == rv[j + 1]);
            assert(texts(rv)[j + 1] == sv.subrange(i - 1, n as int)[j + 1]);
        }
        assert(texts(rest@) =~= sv.subrange(i as int, n as int));
    }
    assert(sv.subrange(0, n as int) =~= sv);
    out
}

} // verus!
