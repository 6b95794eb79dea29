use rms::message::{get_id, Message};
use rms::mime::{extract_body, parse_mime, MailPart, Mime};

const ALTERNATIVE: &str = "Subject: Hello\r\nFrom: a@example.com\r\nTo: c@example.com\r\nCc: e@example.com\r\nDate: Sun, 02 Oct 2016 07:06:22 -0700 (PDT)\r\nContent-Type: multipart/alternative; boundary=foobar\r\n\r\n--foobar\r\nContent-Type: text/plain\r\n\r\nplain text body\r\n--foobar\r\nContent-Type: text/html\r\n\r\n<html><body><p>html body</p></body></html>\r\n--foobar--\r\n";

fn part(mimetype: &str, count: usize, text: Option<&str>) -> MailPart {
    MailPart {
        mimetype: mimetype.to_string(),
        subpart_count: count,
        text: text.map(|t| t.to_string()),
        raw: text.map(|t| t.as_bytes().to_vec()),
        headers: vec![],
    }
}

#[test]
fn body_ordering_follows_preference() {
    let parts = vec![
        part("multipart/alternative", 2, Some("")),
        part("text/plain", 0, Some("plain body")),
        part("text/html", 0, Some("<html><body>html</body></html>")),
    ];
    let html_first = extract_body(&parts, true);
    assert_eq!(html_first.len(), 2);
    assert_eq!(html_first[0].mime, Mime::Html);
    let plain_first = extract_body(&parts, false);
    assert_eq!(plain_first.len(), 2);
    assert_eq!(plain_first[0].mime, Mime::PlainText);
    assert_eq!(plain_first[0].value, "plain body");
}

#[test]
fn nested_parts_collapse_to_one_html_body() {
    let parts = vec![
        part("multipart/alternative", 1, Some("")),
        part("multipart/related", 1, Some("")),
        part("text/html", 0, Some("<html><body>deep</body></html>")),
    ];
    let bodies = extract_body(&parts, false);
    assert_eq!(bodies.len(), 1);
    assert_eq!(bodies[0].mime, Mime::Html);
    assert_eq!(bodies[0].value, "<html><body>deep</body></html>");
    assert!(bodies.iter().all(|b| b.mime != Mime::Nested));
}

#[test]
fn same_kind_bodies_are_ordered_by_length() {
    let parts = vec![
        part("multipart/mixed", 3, Some("")),
        part("text/plain", 0, Some("a longer text")),
        part("text/plain", 0, Some("short")),
        part("application/pdf", 0, Some("%PDF")),
    ];
    let bodies = extract_body(&parts, false);
    assert_eq!(bodies.len(), 2);
    assert_eq!(bodies[0].value, "short");
    assert_eq!(bodies[1].value, "a longer text");
    let single = vec![part("application/pdf", 0, Some("%PDF"))];
    let unknown = extract_body(&single, false);
    assert_eq!(unknown.len(), 1);
    assert_eq!(unknown[0].mime, Mime::Unknown);
}

#[test]
fn part_without_text_contributes_nothing() {
    let parts = vec![part("multipart/alternative", 1, Some("")), part("text/plain", 0, None)];
    assert!(extract_body(&parts, false).is_empty());
}

#[test]
fn mime_names_map_to_kinds() {
    assert_eq!(parse_mime(&"text/plain".to_string()), Mime::PlainText);
    assert_eq!(parse_mime(&"text/html".to_string()), Mime::Html);
    assert_eq!(parse_mime(&"multipart/related".to_string()), Mime::Nested);
    assert_eq!(parse_mime(&"multipart/mixed".to_string()), Mime::Nested);
    assert_eq!(parse_mime(&"image/png".to_string()), Mime::Unknown);
}

#[test]
fn parses_headers_date_and_bodies() {
    let m = Message::from_data(ALTERNATIVE.as_bytes().to_vec()).unwrap();
    assert_eq!(m.subject, "Hello");
    assert_eq!(m.from, "a@example.com");
    assert_eq!(m.recipients, vec!["c@example.com".to_string(), "e@example.com".to_string()]);
    assert_eq!(m.date, 1475417182);
    assert_eq!(m.body.len(), 2);
    assert_eq!(m.body[0].mime, Mime::PlainText);
    assert_eq!(m.body[0].value, "plain text body");
    assert_eq!(m.body[1].mime, Mime::Html);
    assert_eq!(m.original, ALTERNATIVE.as_bytes().to_vec());
    assert!(m.tags.is_empty());
    assert_eq!(m.id, get_id(ALTERNATIVE.as_bytes()));
}

#[test]
fn identity_is_stable_across_parses() {
    let a = Message::from_data(ALTERNATIVE.as_bytes().to_vec()).unwrap();
    let b = Message::from_data(ALTERNATIVE.as_bytes().to_vec()).unwrap();
    assert_eq!(a.id, b.id);
    assert_eq!(a, b);
}

#[test]
fn content_id_is_sha512_hex() {
    assert_eq!(
        get_id(b"abc"),
        "ddaf35a193617abacc417349ae20413112e6fa4e89a97ea20a9eeee64b55d39a2192992a274fc1a836ba3c23a3feebbd454d4423643ce80e2a9ac94fa54ca49f"
    );
}

#[test]
fn date_after_semicolon_and_first_parseable_wins() {
    let raw = "Received: from x by y; Tue, 1 Jul 2003 10:52:37 +0200\r\nDate: Sun, 02 Oct 2016 07:06:22 -0700\r\nSubject: s\r\n\r\nbody";
    let m = Message::from_data(raw.as_bytes().to_vec()).unwrap();
    assert_eq!(m.date, 1057049557);
    let raw2 = "Date: not a date\r\nSubject: s\r\n\r\nbody";
    let m2 = Message::from_data(raw2.as_bytes().to_vec()).unwrap();
    assert_eq!(m2.date, 0);
}

#[test]
fn malformed_envelope_is_an_error() {
    assert!(Message::from_data(b" starts with a space\r\n\r\nbody".to_vec()).is_err());
    let e = rms::message::MessageError::from("boom");
    assert_eq!(e.message, "boom");
}

#[test]
fn get_body_prefers_kind_then_first_and_tolerates_empty() {
    let m = Message::from_data(ALTERNATIVE.as_bytes().to_vec()).unwrap();
    assert_eq!(m.get_body(Some(Mime::Html)).unwrap().mime, Mime::Html);
    assert_eq!(m.get_body(None).unwrap().mime, Mime::PlainText);
    assert_eq!(m.get_body(Some(Mime::Unknown)).unwrap().mime, Mime::PlainText);
    let mut empty = m.clone();
    empty.body = vec![];
    assert!(empty.get_body(None).is_none());
    assert_eq!(empty.index_text(), "");
    assert_eq!(m.short_id(), &m.id[..24]);
    let mut short = m.clone();
    short.id = "abc".to_string();
    assert_eq!(short.short_id(), "abc");
}

#[test]
fn html_renders_to_paragraphs() {
    assert_eq!(
        rms::html::html2text("<html><body><p>Hello there</p><p>x</p><p> second  </p></body></html>"),
        "Hello there\n\nsecond"
    );
    let m = Message::from_data(ALTERNATIVE.as_bytes().to_vec()).unwrap();
    assert_eq!(m.body[1].as_text(), "html body");
    assert_eq!(m.body[0].as_text(), "plain text body");
}

#[test]
fn mime_labels_and_default() {
    assert_eq!(Mime::PlainText.as_str(), "text/plain");
    assert_eq!(Mime::Html.as_str(), "text/html");
    assert_eq!(Mime::Nested.as_str(), "Unknown Mime");
    assert_eq!(Mime::Unknown.name(), "Mime:Unknown");
    assert_eq!(Mime::default(), Mime::PlainText);
}

#[test]
fn message_from_listed_parts() {
    let mut top = part("multipart/alternative", 2, Some(""));
    top.headers = vec![
        ("SUBJECT".to_string(), "loud".to_string()),
        ("bcc".to_string(), "hidden@example.com".to_string()),
        ("To".to_string(), "first@example.com".to_string()),
    ];
    let parts = vec![top, part("text/html", 0, Some("<b>x</b>")), part("text/plain", 0, Some("x"))];
    let m = Message::from_parsedmail(b"raw".to_vec(), &parts);
    assert_eq!(m.subject, "loud");
    assert_eq!(m.recipients, vec!["hidden@example.com".to_string(), "first@example.com".to_string()]);
    assert_eq!(m.date, 0);
    assert_eq!(m.id, get_id(b"raw"));
    assert_eq!(m.body[0].mime, Mime::PlainText);
    assert_eq!(m.original, b"raw".to_vec());
}

#[test]
fn raw_body_falls_back_to_utf8_bytes() {
    let mut only = part("text/plain", 0, None);
    only.raw = Some("caf\u{e9}".as_bytes().to_vec());
    let bodies = extract_body(&vec![only.clone()], false);
    assert_eq!(bodies[0].value, "caf\u{e9}");
    only.raw = Some(vec![0xff]);
    let bodies = extract_body(&vec![only], false);
    assert_eq!(bodies[0].value, "");
}

#[test]
fn date_before_epoch_counts_as_unknown() {
    let raw = "Date: Thu, 1 Jan 1970 00:00:00 +0100\r\nDate: Sun, 02 Oct 2016 07:06:22 -0700\r\nSubject: s\r\n\r\nbody";
    let m = Message::from_data(raw.as_bytes().to_vec()).unwrap();
    assert_eq!(m.date, 0);
}

#[test]
fn parse_failure_names_its_reason() {
    match Message::from_data(b" bad".to_vec()) {
        Err(e) => assert_eq!(e.message, "Unable to parse email data"),
        Ok(_) => panic!("a malformed envelope parsed"),
    }
}
