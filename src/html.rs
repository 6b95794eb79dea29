use vstd::prelude::*;
use crate::message::texts;

verus! {

/// The text nodes under the first `body` element of an HTML document, as
/// select reads it.
pub uninterp spec fn html_body_texts(html: Seq<char>) -> Seq<Seq<char>>;

/// Relies on select::document::Document: the text nodes below the first
/// `body` element, in document order.
#[verifier::external_body]
fn body_text_nodes(html: &str) -> (r: Vec<String>)
    ensures
        texts(r@) == html_body_texts(html@),
{
    let document = select::document::Document::from(html);
    match document.find(select::predicate::Name("body")).next() {
        Some(body) => body.find(select::predicate::Text).map(|x| x.text()).collect(),
        None => Vec::new(),
    }
}

/// A text without its leading and trailing Unicode white space.
pub uninterp spec fn trimmed(s: Seq<char>) -> Seq<char>;

/// Relies on str::trim: leading and trailing white space removed.
#[verifier::external_body]
fn trim_text(s: &str) -> (r: String)
    ensures
        r@ == trimmed(s@),
{
    s.trim().to_string()
}

/// Texts joined with a separator between each two.
pub open spec fn joined(parts: Seq<Seq<char>>, sep: Seq<char>) -> Seq<char>
    decreases parts.len(),
{
    if parts.len() == 0 {
        Seq::empty()
    } else if parts.len() == 1 {
        parts[0]
    } else {
        joined(parts.drop_last(), sep) + sep + parts.last()
    }
}

/// Relies on slice::join for strings: the parts with the separator between
/// each two.
#[verifier::external_body]
fn join_paragraphs(parts: &Vec<String>) -> (r: String)
    ensures
        r@ == joined(texts(parts@), "\n\n"@),
{
    parts.join("\n\n")
}

/// Whether a trimmed text node is long enough to keep: more than one byte.
pub open spec fn worth_keeping(t: Seq<char>) -> bool {
    (vstd::utf8::encode_utf8(t).len() as usize) > 1
}

/// The trimmed text nodes worth keeping, in order.
pub open spec fn kept_texts(nodes: Seq<Seq<char>>) -> Seq<Seq<char>>
    decreases nodes.len(),
{
    if nodes.len() == 0 {
        Seq::empty()
    } else if worth_keeping(trimmed(nodes.last())) {
        kept_texts(nodes.drop_last()).push(trimmed(nodes.last()))
    } else {
        kept_texts(nodes.drop_last())
    }
}

/// The readable text of an HTML document: its body's text nodes, trimmed,
/// those of more than one byte, as paragraphs.
pub open spec fn html_text(html: Seq<char>) -> Seq<char> {
    joined(kept_texts(html_body_texts(html)), "\n\n"@)
}

/// Renders an HTML document as plain paragraphs.
pub fn html2text(text: &str) -> (r: String)
    ensures
        r@ == html_text(text@),
{
    let nodes = body_text_nodes(text);
    let mut kept: Vec<String> = Vec::new();
    let mut i: usize = 0;
    while i < nodes.len()
        invariant
            i <= nodes@.len(),
            texts(kept@) == kept_texts(texts(nodes@.subrange(0, i as int))),
        decreases nodes@.len() - i,
    {
        let t = trim_text(nodes[i].as_str());
        assert(texts(nodes@.subrange(0, i + 1)).drop_last() =~= texts(nodes@.subrange(0, i as int)));
        assert(texts(nodes@.subrange(0, i + 1)).last() == nodes@[i as int]@);
        if t.as_str().len() > 1 {
            let ghost before = texts(kept@);
            let ghost tv = t@;
            kept.push(t);
            assert(texts(kept@) =~= before.push(tv));
        }
        i = i + 1;
    }
    assert(nodes@.subrange(0, nodes@.len() as int) =~= nodes@);
    join_paragraphs(&kept)
}

} // verus!
