use vstd::prelude::*;
use vstd::utf8::{decode_utf8, encode_utf8, valid_utf8};
use crate::sort::{keys_ascending, lemma_sort_keyed, lemma_sort_relabel, sort_by_key, sort_keyed};
use crate::text::{has_prefix, starts_with, text_is, utf8_text};

verus! {

/// The kind of a body candidate.
#[derive(PartialEq, Eq, Structural, Clone, Copy, Debug)]
pub enum Mime {
    PlainText,
    Html,
    Unknown,
    Nested,
}

impl Mime {
    /// The content type of the kind, where it has one.
    pub fn as_str(&self) -> (r: &'static str)
        ensures
            r@ == match *self {
                Mime::PlainText => "text/plain"@,
                Mime::Html => "text/html"@,
                _ => "Unknown Mime"@,
            },
    {
        match self {
            Mime::PlainText => "text/plain",
            Mime::Html => "text/html",
            _ => "Unknown Mime",
        }
    }

    /// The kind's name.
    pub fn name(&self) -> (r: &'static str)
        ensures
            r@ == match *self {
                Mime::PlainText => "Mime:PlainText"@,
                Mime::Html => "Mime:Html"@,
                Mime::Unknown => "Mime:Unknown"@,
                Mime::Nested => "Mime:Nested"@,
            },
    {
        match self {
            Mime::PlainText => "Mime:PlainText",
            Mime::Html => "Mime:Html",
            Mime::Unknown => "Mime:Unknown",
            Mime::Nested => "Mime:Nested",
        }
    }
}

impl Default for Mime {
    fn default() -> (r: Mime)
        ensures
            r == Mime::PlainText,
    {
        Mime::PlainText
    }
}

/// The kind that a declared content type maps to.
pub open spec fn mime_of(t: Seq<char>) -> Mime {
    if t == "text/plain"@ {
        Mime::PlainText
    } else if t == "text/html"@ {
        Mime::Html
    } else if has_prefix(t, "multipart/"@) {
        Mime::Nested
    } else {
        Mime::Unknown
    }
}

/// Maps a declared content type to its kind: exact matches give plain text or
/// HTML, multipart types are nested, everything else is unknown.
pub fn parse_mime(t: &String) -> (r: Mime)
    ensures
        r == mime_of(t@),
{
    if text_is(t, "text/plain") {
        Mime::PlainText
    } else if text_is(t, "text/html") {
        Mime::Html
    } else if starts_with(t.as_str(), "multipart/") {
        Mime::Nested
    } else {
        Mime::Unknown
    }
}

/// A body candidate: its kind and its decoded text.
#[derive(Debug, Clone, PartialEq, Eq)]
pub struct Body {
    pub mime: Mime,
    pub value: String,
}

impl Body {
    pub open spec fn view_pair(self) -> (Mime, Seq<char>) {
        (self.mime, self.value@)
    }

    pub fn new(mime: Mime, value: String) -> (r: Body)
        ensures
            r.mime == mime,
            r.value == value,
    {
        Body { mime, value }
    }

    pub fn duplicate(&self) -> (r: Body)
        ensures
            r == *self,
    {
        Body { mime: self.mime, value: self.value.clone() }
    }
}

/// The kinds and texts of a list of bodies.
pub open spec fn body_views(v: Seq<Body>) -> Seq<(Mime, Seq<char>)> {
    v.map_values(|b: Body| b.view_pair())
}

/// One part of a parsed message, as listed depth-first: the message itself
/// first, each part followed by its own subparts.
#[derive(Debug, Clone)]
pub struct MailPart {
    /// The declared content type, lower case, without parameters.
    pub mimetype: String,
    /// How many direct subparts follow this part in the listing.
    pub subpart_count: usize,
    /// The decoded text of the part, where its charset could be decoded.
    pub text: Option<String>,
    /// The body bytes after undoing the transfer encoding.
    pub raw: Option<Vec<u8>>,
    /// The header fields, key and value, in document order.
    pub headers: Vec<(String, String)>,
}

/// The parts that mailparse finds in a raw message, depth-first.
pub uninterp spec fn mail_parts(raw: Seq<u8>) -> Option<Seq<MailPart>>;

/// Relies on mailparse::parse_mail and ParsedMail::parts: the parts of the
/// message in depth-first order, the message itself first.
#[verifier::external_body]
pub(crate) fn parse_parts(raw: &[u8]) -> (r: Option<Vec<MailPart>>)
    ensures
        r is None <==> mail_parts(raw@) is None,
        r matches Some(v) ==> mail_parts(raw@) == Some(v@) && v@.len() >= 1,
{
    let m = mailparse::parse_mail(raw).ok()?;
    Some(m.parts().map(|p| MailPart {
        mimetype: p.ctype.mimetype.clone(),
        subpart_count: p.subparts.len(),
        text: p.get_body().ok(),
        raw: p.get_body_raw().ok(),
        headers: p.headers.iter().map(|h| (h.get_key(), h.get_value())).collect(),
    }).collect())
}

/// The text of a part: its decoded body, else its raw body where that is
/// UTF-8, else nothing.
pub open spec fn part_text(p: MailPart) -> Seq<char> {
    match p.text {
        Some(t) => t@,
        None => match p.raw {
            Some(b) => if valid_utf8(b@) {
                decode_utf8(b@)
            } else {
                Seq::empty()
            },
            None => Seq::empty(),
        },
    }
}

/// Where the listing of the part at `i` ends (exclusive).
pub open spec fn part_end(ps: Seq<MailPart>, i: int) -> int
    decreases ps.len() - i, 0int,
{
    if i < 0 || i >= ps.len() {
        i
    } else {
        children_end(ps, i + 1, ps[i].subpart_count as int)
    }
}

/// Where the listing of `k` sibling parts starting at `j` ends.
pub open spec fn children_end(ps: Seq<MailPart>, j: int, k: int) -> int
    decreases ps.len() - j, k + 1,
{
    if k <= 0 || j < 0 || j >= ps.len() {
        j
    } else {
        let e = part_end(ps, j);
        if e <= j || e > ps.len() {
            j
        } else {
            children_end(ps, e, k - 1)
        }
    }
}

/// The sort key of a candidate: the preferred kind first, then shorter texts
/// (in UTF-8 bytes) first.
pub open spec fn body_key(b: (Mime, Seq<char>), prefer: Mime) -> u128 {
    ((if b.0 == prefer {
        0int
    } else {
        1int
    }) * 0x1_0000_0000_0000_0000 + (encode_utf8(b.1).len() as usize) as int) as u128
}

/// Candidates in order of preference.
pub open spec fn sort_bodies(c: Seq<(Mime, Seq<char>)>, prefer: Mime) -> Seq<(Mime, Seq<char>)> {
    sort_keyed(c.map_values(|b: (Mime, Seq<char>)| (body_key(b, prefer), b))).map_values(
        |x: (u128, (Mime, Seq<char>))| x.1,
    )
}

/// The resolved bodies of the part at `i`: what its subparts contribute, then
/// its own text unless it is nested, in order of preference.
pub open spec fn part_bodies(ps: Seq<MailPart>, i: int, prefer: Mime) -> Seq<(Mime, Seq<char>)>
    decreases ps.len() - i, 0int,
{
    if i < 0 || i >= ps.len() {
        Seq::empty()
    } else {
        let own = mime_of(ps[i].mimetype@);
        let subs = children_bodies(ps, i + 1, ps[i].subpart_count as int, prefer);
        let all = if own == Mime::Nested {
            subs
        } else {
            subs.push((own, part_text(ps[i])))
        };
        sort_bodies(all, prefer)
    }
}

/// What the part at `j` contributes to its parent: itself when it is plain
/// text or HTML with a decodable body, the first of its own bodies when it is
/// nested, nothing otherwise.
pub open spec fn child_contribution(ps: Seq<MailPart>, j: int, prefer: Mime) -> Seq<(Mime, Seq<char>)>
    decreases ps.len() - j, 1int,
{
    if j < 0 || j >= ps.len() {
        Seq::empty()
    } else {
        let m = mime_of(ps[j].mimetype@);
        if m == Mime::PlainText || m == Mime::Html {
            match ps[j].text {
                Some(t) => seq![(m, t@)],
                None => Seq::empty(),
            }
        } else if m == Mime::Nested {
            let b = part_bodies(ps, j, prefer);
            if b.len() > 0 {
                seq![b[0]]
            } else {
                Seq::empty()
            }
        } else {
            Seq::empty()
        }
    }
}

/// What `k` sibling parts starting at `j` contribute, in order.
pub open spec fn children_bodies(ps: Seq<MailPart>, j: int, k: int, prefer: Mime) -> Seq<(Mime, Seq<char>)>
    decreases ps.len() - j, k + 2,
{
    if k <= 0 || j < 0 || j >= ps.len() {
        Seq::empty()
    } else {
        let here = child_contribution(ps, j, prefer);
        let e = part_end(ps, j);
        if e <= j || e > ps.len() {
            here
        } else {
            here + children_bodies(ps, e, k - 1, prefer)
        }
    }
}

/// The text of a part as the library reads it.
fn text_of_part(p: &MailPart) -> (r: String)
    ensures
        r@ == part_text(*p),
{
    match &p.text {
        Some(t) => t.clone(),
        None => match &p.raw {
            Some(b) => match utf8_text(crate::text::copy_bytes(b)) {
                Some(s) => s,
                None => String::new(),
            },
            None => String::new(),
        },
    }
}

/// Orders candidates by preference.
pub fn order_bodies(c: Vec<Body>, prefer: Mime) -> (r: Vec<Body>)
    ensures
        body_views(r@) == sort_bodies(body_views(c@), prefer),
{
    let ghost cv = c@;
    let mut keyed: Vec<(u128, Body)> = Vec::new();
    let mut rest = c;
    let mut i: usize = 0;
    let n = rest.len();
    while rest.len() > 0
        invariant
            i + rest@.len() == n,
            n == cv.len(),
            rest@ == cv.subrange(i as int, n as int),
            keyed@ == cv.subrange(0, i as int).map_values(
                |b: Body| (body_key(b.view_pair(), prefer), b),
            ),
        decreases rest@.len(),
    {
        let b = rest.remove(0);
        let len = b.value.as_str().len();
        let rank: u128 = if b.mime == prefer {
            0
        } else {
            1
        };
        let key: u128 = rank * 0x1_0000_0000_0000_0000u128 + len as u128;
        keyed.push((key, b));
        i = i + 1;
        assert(keyed@ =~= cv.subrange(0, i as int).map_values(
            |b: Body| (body_key(b.view_pair(), prefer), b),
        ));
        assert(rest@ =~= cv.subrange(i as int, n as int));
    }
    assert(cv.subrange(0, n as int) =~= cv);
    let sorted = sort_by_key(keyed);
    let mut out: Vec<Body> = Vec::new();
    let mut rest2 = sorted;
    let ghost sv = rest2@;
    let mut j: usize = 0;
    let m = rest2.len();
    while rest2.len() > 0
        invariant
            j + rest2@.len() == m,
            m == sv.len(),
            rest2@ == sv.subrange(j as int, m as int),
            out@ == sv.subrange(0, j as int).map_values(|x: (u128, Body)| x.1),
        decreases rest2@.len(),
    {
        let x = rest2.remove(0);
        out.push(x.1);
        j = j + 1;
        assert(out@ =~= sv.subrange(0, j as int).map_values(|x: (u128, Body)| x.1));
        assert(rest2@ =~= sv.subrange(j as int, m as int));
    }
    proof {
        assert(sv.subrange(0, m as int) =~= sv);
        let f = |b: Body| b.view_pair();
        let keyed_v = cv.map_values(|b: Body| (body_key(b.view_pair(), prefer), b));
        lemma_sort_relabel(keyed_v, f);
        let g = |x: (u128, Body)| (x.0, f(x.1));
        assert(keyed_v.map_values(g) =~= body_views(cv).map_values(
            |b: (Mime, Seq<char>)| (body_key(b, prefer), b),
        ));
        assert(body_views(out@) =~= sort_keyed(keyed_v).map_values(g).map_values(
            |x: (u128, (Mime, Seq<char>))| x.1,
        ));
    }
    out
}

/// Resolves the part at `i`: its bodies in order of preference, and where its
/// listing ends.
fn resolve_part(ps: &Vec<MailPart>, i: usize, prefer: Mime) -> (r: (Vec<Body>, usize))
    requires
        i < ps@.len(),
    ensures
        body_views(r.0@) == part_bodies(ps@, i as int, prefer),
        r.1 as int == part_end(ps@, i as int),
    decreases ps@.len() - i, 0int,
{
    let n = ps.len();
    let p = &ps[i];
    let own = parse_mime(&p.mimetype);
    let (mut subs, end) = resolve_children(ps, i + 1, p.subpart_count, prefer);
    if own != Mime::Nested {
        let t = text_of_part(p);
        let ghost before = subs@;
        subs.push(Body::new(own, t));
        assert(body_views(subs@) =~= body_views(before).push((own, part_text(ps@[i as int]))));
    }
    let ordered = order_bodies(subs, prefer);
    (ordered, end)
}

/// Resolves `k` sibling parts starting at `j`: their contributions in order,
/// and where their listing ends.
fn resolve_children(ps: &Vec<MailPart>, j: usize, k: usize, prefer: Mime) -> (r: (Vec<Body>, usize))
    requires
        j <= ps@.len(),
    ensures
        body_views(r.0@) == children_bodies(ps@, j as int, k as int, prefer),
        r.1 as int == children_end(ps@, j as int, k as int),
    decreases ps@.len() - j, k + 1,
{
    if k == 0 || j >= ps.len() {
        return (Vec::new(), j);
    }
    let (b, e) = resolve_part(ps, j, prefer);
    let m = parse_mime(&ps[j].mimetype);
    let mut here: Vec<Body> = Vec::new();
    if m == Mime::PlainText || m == Mime::Html {
        match &ps[j].text {
            Some(t) => {
                here.push(Body::new(m, t.clone()));
            },
            None => {},
        }
    } else if m == Mime::Nested {
        if b.len() > 0 {
            here.push(b[0].duplicate());
        }
    }
    assert(body_views(here@) =~= child_contribution(ps@, j as int, prefer));
    if e <= j || e > ps.len() {
        (here, j)
    } else {
        let (mut more, end) = resolve_children(ps, e, k - 1, prefer);
        let ghost hv = body_views(here@);
        let ghost mv = body_views(more@);
        here.append(&mut more);
        assert(body_views(here@) =~= hv + mv);
        (here, end)
    }
}

/// The preferred kind for a caller that asks for HTML or for plain text.
pub open spec fn preferred(prefer_html: bool) -> Mime {
    if prefer_html {
        Mime::Html
    } else {
        Mime::PlainText
    }
}

/// The body candidates of a parsed message, in order of preference: the
/// preferred kind first, and among candidates of one kind the shorter first.
pub fn extract_body(parts: &Vec<MailPart>, prefer_html: bool) -> (r: Vec<Body>)
    requires
        parts@.len() >= 1,
    ensures
        body_views(r@) == part_bodies(parts@, 0, preferred(prefer_html)),
{
    let prefer = if prefer_html {
        Mime::Html
    } else {
        Mime::PlainText
    };
    resolve_part(parts, 0, prefer).0
}

/// Every body in preference order is one of the candidates, and every
/// candidate is among them.
proof fn lemma_sorted_members(c: Seq<(Mime, Seq<char>)>, prefer: Mime)
    ensures
        sort_bodies(c, prefer).len() == c.len(),
        forall|k: int| #![trigger sort_bodies(c, prefer)[k]]
            0 <= k < c.len() ==> exists|j: int| 0 <= j < c.len() && c[j] == sort_bodies(c, prefer)[k],
        forall|j: int| #![trigger c[j]]
            0 <= j < c.len() ==> exists|k: int| 0 <= k < c.len() && c[j] == sort_bodies(c, prefer)[k],
{
    let kc = c.map_values(|b: (Mime, Seq<char>)| (body_key(b, prefer), b));
    lemma_sort_keyed(kc);
    let s = sort_keyed(kc);
    assert forall|k: int| #![trigger sort_bodies(c, prefer)[k]]
        0 <= k < c.len() implies exists|j: int| 0 <= j < c.len() && c[j] == sort_bodies(c, prefer)[k] by {
        let x = s[k];
        vstd::seq_lib::to_multiset_contains(s, x);
        vstd::seq_lib::to_multiset_contains(kc, x);
        assert(s.contains(x));
        assert(kc.contains(x));
        let j = choose|j: int| 0 <= j < kc.len() && kc[j] == x;
        assert(c[j] == x.1);
    }
    assert forall|j: int| #![trigger c[j]]
        0 <= j < c.len() implies exists|k: int| 0 <= k < c.len() && c[j] == sort_bodies(c, prefer)[k] by {
        let x = kc[j];
        vstd::seq_lib::to_multiset_contains(s, x);
        vstd::seq_lib::to_multiset_contains(kc, x);
        assert(kc.contains(x));
        assert(s.contains(x));
        let k = choose|k: int| 0 <= k < s.len() && s[k] == x;
        assert(sort_bodies(c, prefer)[k] == x.1);
    }
}

/// When any candidate is of the preferred kind, the first body in
/// preference order is of that kind.
pub proof fn lemma_preferred_first(c: Seq<(Mime, Seq<char>)>, prefer: Mime, j: int)
    requires
        0 <= j < c.len(),
        c[j].0 == prefer,
    ensures
        sort_bodies(c, prefer).len() > 0,
        sort_bodies(c, prefer)[0].0 == prefer,
{
    lemma_sorted_members(c, prefer);
    let kc = c.map_values(|b: (Mime, Seq<char>)| (body_key(b, prefer), b));
    lemma_sort_keyed(kc);
    let s = sort_keyed(kc);
    let k = choose|k: int| 0 <= k < c.len() && c[j] == sort_bodies(c, prefer)[k];
    assert(keys_ascending(s));
    assert(s[0].0 <= s[k].0);
    assert(s[0].1 == sort_bodies(c, prefer)[0]);
    assert(s[k].1 == sort_bodies(c, prefer)[k]);
    let j0 = choose|j0: int| 0 <= j0 < c.len() && c[j0] == sort_bodies(c, prefer)[0];
    vstd::seq_lib::to_multiset_contains(s, s[k]);
    vstd::seq_lib::to_multiset_contains(kc, s[k]);
    vstd::seq_lib::to_multiset_contains(s, s[0]);
    vstd::seq_lib::to_multiset_contains(kc, s[0]);
    assert(s.contains(s[k]));
    assert(s.contains(s[0]));
    let a = choose|a: int| 0 <= a < kc.len() && kc[a] == s[k];
    let b = choose|b: int| 0 <= b < kc.len() && kc[b] == s[0];
    assert(s[k].0 == body_key(s[k].1, prefer));
    assert(s[0].0 == body_key(s[0].1, prefer));
}

/// No nested candidate survives resolution: every resolved body of a part is
/// plain text, HTML or of an unknown kind.
pub proof fn lemma_no_nested(ps: Seq<MailPart>, i: int, prefer: Mime)
    ensures
        forall|k: int| 0 <= k < part_bodies(ps, i, prefer).len() ==> #[trigger] part_bodies(ps, i, prefer)[k].0
            != Mime::Nested,
    decreases ps.len() - i, 0int,
{
    if 0 <= i < ps.len() {
        let own = mime_of(ps[i].mimetype@);
        let subs = children_bodies(ps, i + 1, ps[i].subpart_count as int, prefer);
        lemma_children_no_nested(ps, i + 1, ps[i].subpart_count as int, prefer);
        let all = if own == Mime::Nested {
            subs
        } else {
            subs.push((own, part_text(ps[i])))
        };
        assert forall|x: int| 0 <= x < all.len() implies all[x].0 != Mime::Nested by {
            if x < subs.len() {
                assert(all[x] == subs[x]);
            }
        }
        lemma_sorted_members(all, prefer);
        assert forall|k: int| 0 <= k < part_bodies(ps, i, prefer).len() implies #[trigger] part_bodies(
            ps,
            i,
            prefer,
        )[k].0 != Mime::Nested by {
            assert(sort_bodies(all, prefer)[k] == part_bodies(ps, i, prefer)[k]);
        }
    }
}

proof fn lemma_children_no_nested(ps: Seq<MailPart>, j: int, k: int, prefer: Mime)
    ensures
        forall|x: int| 0 <= x < children_bodies(ps, j, k, prefer).len() ==> #[trigger] children_bodies(
            ps,
            j,
            k,
            prefer,
        )[x].0 != Mime::Nested,
    decreases ps.len() - j, k + 2,
{
    if !(k <= 0 || j < 0 || j >= ps.len()) {
        let here = child_contribution(ps, j, prefer);
        if mime_of(ps[j].mimetype@) == Mime::Nested {
            lemma_no_nested(ps, j, prefer);
        }
        assert forall|x: int| 0 <= x < here.len() implies here[x].0 != Mime::Nested by {}
        let e = part_end(ps, j);
        if !(e <= j || e > ps.len()) {
            lemma_children_no_nested(ps, e, k - 1, prefer);
            let more = children_bodies(ps, e, k - 1, prefer);
            assert forall|x: int| 0 <= x < (here + more).len() implies (here + more)[x].0 != Mime::Nested by {
                if x >= here.len() {
                    assert((here + more)[x] == more[x - here.len()]);
                }
            }
        }
    }
}

} // verus!
