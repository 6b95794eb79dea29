use vstd::prelude::*;
use vstd::string::StringExecFns;
use crate::message::{body_text, chosen, texts, Message, MessageView};
use crate::mime::Mime;
use crate::text::{lowercase_of, to_lowercase};

verus! {

/// An output format name that is not known.
#[derive(Debug, PartialEq, Eq, Structural, Clone, Copy)]
pub enum OutputTypeError {
    UnknownTypeError,
}

/// How a message is shown.
#[derive(Debug, PartialEq, Eq, Structural, Clone, Copy)]
pub enum OutputType {
    Summary,
    Short,
    Full,
    Raw,
    Html,
}

/// The format that a lower-case name selects.
pub open spec fn output_type_named(name: Seq<char>) -> Result<OutputType, OutputTypeError> {
    if name == "short"@ {
        Ok(OutputType::Short)
    } else if name == "full"@ {
        Ok(OutputType::Full)
    } else if name == "raw"@ {
        Ok(OutputType::Raw)
    } else if name == "html"@ {
        Ok(OutputType::Html)
    } else if name == "summary"@ {
        Ok(OutputType::Summary)
    } else {
        Err(OutputTypeError::UnknownTypeError)
    }
}

impl OutputType {
    /// Reads a format name, ignoring case.
    pub fn parse(input: &str) -> (r: Result<OutputType, OutputTypeError>)
        ensures
            r == output_type_named(lowercase_of(input@)),
    {
        let name = to_lowercase(input);
        Self::from_lower(&name)
    }

    /// Reads a lower-case format name.
    pub fn from_lower(name: &String) -> (r: Result<OutputType, OutputTypeError>)
        ensures
            r == output_type_named(name@),
    {
        if crate::text::text_is(name, "short") {
            Ok(OutputType::Short)
        } else if crate::text::text_is(name, "full") {
            Ok(OutputType::Full)
        } else if crate::text::text_is(name, "raw") {
            Ok(OutputType::Raw)
        } else if crate::text::text_is(name, "html") {
            Ok(OutputType::Html)
        } else if crate::text::text_is(name, "summary") {
            Ok(OutputType::Summary)
        } else {
            Err(OutputTypeError::UnknownTypeError)
        }
    }

    /// The name of the format.
    pub fn name(&self) -> (r: &'static str)
        ensures
            r@ == match *self {
                OutputType::Summary => "Summary"@,
                OutputType::Full => "Full"@,
                OutputType::Html => "Html"@,
                OutputType::Raw => "Raw"@,
                OutputType::Short => "Short"@,
            },
    {
        match self {
            OutputType::Summary => "Summary",
            OutputType::Full => "Full",
            OutputType::Html => "Html",
            OutputType::Raw => "Raw",
            OutputType::Short => "Short",
        }
    }
}

impl OutputTypeError {
    /// What went wrong, in words.
    pub fn message(&self) -> (r: &'static str)
        ensures
            r@ == "Could not figure out output format"@,
    {
        "Could not figure out output format"
    }
}

/// Something that can be shown in each output format.
pub trait DisplayAs {
    fn display(&self, t: &OutputType) -> String;
}

/// Relies on chrono's Local time zone and its formatting: the time in the
/// host's zone, or nothing when the zone has no such local time.
#[verifier::external_body]
fn local_date(secs: i64) -> (r: String) {
    match chrono::TimeZone::timestamp_opt(&chrono::Local, secs, 0).single() {
        Some(dt) => dt.format("%a %b %e %T %Y").to_string(),
        None => String::new(),
    }
}

/// Texts joined with commas.
pub open spec fn comma_joined(parts: Seq<Seq<char>>) -> Seq<char> {
    crate::html::joined(parts, ","@)
}

/// The text of the body a reader wanting kind `m` gets, or nothing.
pub open spec fn shown_body(m: MessageView, kind: Mime) -> Seq<char> {
    if m.body.len() == 0 {
        Seq::empty()
    } else {
        body_text(m.body[chosen(m.body, kind)])
    }
}

/// A message shown in a format, given the text of its date.
pub open spec fn rendered(m: MessageView, short_id: Seq<char>, t: OutputType, date: Seq<char>) -> Seq<char> {
    match t {
        OutputType::Short => short_id + " | "@ + date + " | "@ + m.subject,
        OutputType::Full => "From: "@ + m.from + "\nto/cc/bcc: "@ + comma_joined(m.recipients) + "\nDate: "@
            + date + "\nSubject: "@ + m.subject + "\n\n"@ + shown_body(m, Mime::PlainText) + "\n# "@ + m.id
            + "\n"@,
        OutputType::Html => shown_body(m, Mime::Html),
        OutputType::Summary => date + " | "@ + m.subject + " ["@ + m.from + "]"@,
        OutputType::Raw => if vstd::utf8::valid_utf8(m.original) {
            vstd::utf8::decode_utf8(m.original)
        } else {
            "BAD FILE, please open an issue"@
        },
    }
}

/// The recipients joined with commas.
fn join_commas(v: &Vec<String>) -> (r: String)
    ensures
        r@ == comma_joined(texts(v@)),
{
    let mut out = String::new();
    let mut i: usize = 0;
    while i < v.len()
        invariant
            i <= v@.len(),
            out@ == comma_joined(texts(v@).subrange(0, i as int)),
        decreases v@.len() - i,
    {
        assert(texts(v@).subrange(0, i + 1).drop_last() =~= texts(v@).subrange(0, i as int));
        if i > 0 {
            out.append(",");
        }
        out.append(v[i].as_str());
        i = i + 1;
    }
    assert(texts(v@).subrange(0, v@.len() as int) =~= texts(v@));
    out
}

/// The text of the body a reader wanting kind `m` gets.
fn body_for(msg: &Message, kind: Mime) -> (r: String)
    ensures
        r@ == shown_body(msg@, kind),
{
    match msg.get_body(Some(kind)) {
        Some(b) => b.as_text(),
        None => String::new(),
    }
}

impl DisplayAs for Message {
    /// The message in the given format; dates are in the host's time zone.
    fn display(&self, t: &OutputType) -> (r: String)
        ensures
            exists|date: Seq<char>, short_id: Seq<char>|
                vstd::utf8::encode_utf8(short_id) == crate::message::short_id_bytes(self@.id) && r@
                    == rendered(self@, short_id, *t, date),
    {
        let secs: i64 = if self.date <= 0x7fff_ffff_ffff_ffffu64 {
            self.date as i64
        } else {
            0x7fff_ffff_ffff_ffffi64
        };
        let date = local_date(secs);
        let sid = self.short_id();
        let mut out = String::new();
        match t {
            OutputType::Short => {
                out.append(sid);
                out.append(" | ");
                out.append(date.as_str());
                out.append(" | ");
                out.append(self.subject.as_str());
            },
            OutputType::Full => {
                out.append("From: ");
                out.append(self.from.as_str());
                out.append("\nto/cc/bcc: ");
                let rs = join_commas(&self.recipients);
                out.append(rs.as_str());
                out.append("\nDate: ");
                out.append(date.as_str());
                out.append("\nSubject: ");
                out.append(self.subject.as_str());
                out.append("\n\n");
                let b = body_for(self, Mime::PlainText);
                out.append(b.as_str());
                out.append("\n# ");
                out.append(self.id.as_str());
                out.append("\n");
            },
            OutputType::Html => {
                out = body_for(self, Mime::Html);
            },
            OutputType::Summary => {
                out.append(date.as_str());
                out.append(" | ");
                out.append(self.subject.as_str());
                out.append(" [");
                out.append(self.from.as_str());
                out.append("]");
            },
            OutputType::Raw => {
                out = match crate::text::utf8_text(crate::text::copy_bytes(&self.original)) {
                    Some(s) => s,
                    None => "BAD FILE, please open an issue".to_owned(),
                };
            },
        }
        assert(out@ == rendered(self@, sid@, *t, date@));
        out
    }
}

} // verus!
