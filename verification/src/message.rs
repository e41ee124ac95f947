//! The library's own model of a parsed mail message: the fields the traffic
//! engine reads (Message-ID, recipient headers, raw bytes), held as plain
//! values so that the logic over them can be verified.
use vstd::prelude::*;

verus! {

/// One entry of a recipient header: an optional display name and an optional
/// address. An entry whose address field is missing is kept as such; the
/// flattening step skips it rather than inventing an empty address.
#[derive(Clone, Debug, PartialEq, Eq)]
pub struct MailAddr {
    pub name: Option<String>,
    pub address: Option<String>,
}

/// The shapes a recipient header (To, Cc, Bcc) can take: a single address, a
/// list of addresses, or any other header shape, which contributes no
/// recipients.
#[derive(Clone, Debug, PartialEq, Eq)]
pub enum RecipientHeader {
    Single(MailAddr),
    List(Vec<MailAddr>),
    Other,
}

/// A corpus message: the headers the engine reads and the raw bytes used for
/// re-serialization. Corpus content is fixed after load; workers receive
/// detached copies and never mutate the originals.
#[derive(Clone, Debug, PartialEq, Eq)]
pub struct MailMessage {
    pub message_id: Option<Vec<u8>>,
    pub to: RecipientHeader,
    pub cc: RecipientHeader,
    pub bcc: RecipientHeader,
    pub raw: Vec<u8>,
}

/// The addresses contributed by a list of header entries, in encounter
/// order; entries without an address field are skipped.
pub open spec fn spec_addr_list(l: Seq<MailAddr>) -> Seq<Seq<char>>
    decreases l.len(),
{
    if l.len() == 0 {
        Seq::empty()
    } else {
        match l[0].address {
            Some(a) => seq![a@] + spec_addr_list(l.skip(1)),
            None => spec_addr_list(l.skip(1)),
        }
    }
}

/// The flat address list of one recipient header.
pub open spec fn spec_recipients(h: RecipientHeader) -> Seq<Seq<char>> {
    match h {
        RecipientHeader::Single(a) => match a.address {
            Some(ad) => seq![ad@],
            None => Seq::empty(),
        },
        RecipientHeader::List(l) => spec_addr_list(l@),
        RecipientHeader::Other => Seq::empty(),
    }
}

/// All recipients of a message: To, then Cc, then Bcc, flattened in order.
pub open spec fn spec_flat_recipients(m: MailMessage) -> Seq<Seq<char>> {
    spec_recipients(m.to) + spec_recipients(m.cc) + spec_recipients(m.bcc)
}

/// A failed corpus load: the file at `file_index` was not parseable as a
/// message. Any parse failure is fatal for the whole load.
#[derive(Clone, Debug, PartialEq, Eq)]
pub enum LoadError {
    Parse { file_index: usize },
}

/// What mail parsing yields on these bytes: the projected header fields and
/// the raw bytes, or nothing when no header parses. Parsing is a pure
/// function of the bytes alone.
pub uninterp spec fn spec_parsed(bytes: Seq<u8>) -> Option<MailMessage>;

/// Declares mail_parser's header value type, so that the conversion below
/// can take it; the value stays opaque.
#[verifier::external_type_specification]
#[verifier::external_body]
pub struct ExHeaderValue<'a>(mail_parser::HeaderValue<'a>);

/// Relies on mail_parser's parsed header shapes: a single address or an
/// address list is carried over arm by arm, fields unchanged; every other
/// shape contributes no recipients.
#[verifier::external_body]
fn header_to_recipients(h: &mail_parser::HeaderValue<'_>) -> RecipientHeader {
    let conv = |a: &mail_parser::Addr| MailAddr {
        name: a.name.as_ref().map(|c| c.to_string()),
        address: a.address.as_ref().map(|c| c.to_string()),
    };
    match h {
        mail_parser::HeaderValue::Address(a) => RecipientHeader::Single(conv(a)),
        mail_parser::HeaderValue::AddressList(l) => RecipientHeader::List(l.iter().map(conv).collect()),
        _ => RecipientHeader::Other,
    }
}

/// Relies on `mail_parser::Message::parse`, a pure function of the input
/// bytes, and its accessors: `raw_message` hands back the input bytes
/// unchanged; `message_id`, `to`, `cc` and `bcc` project the parsed headers.
#[verifier::external_body]
pub(crate) fn parse_message(bytes: &Vec<u8>) -> (r: Option<MailMessage>)
    ensures
        r == spec_parsed(bytes@),
        r matches Some(m) ==> m.raw@ == bytes@,
{
    match mail_parser::Message::parse(bytes.as_slice()) {
        Some(m) => Some(MailMessage {
            message_id: m.message_id().map(|s| s.as_bytes().to_vec()),
            to: header_to_recipients(m.to()),
            cc: header_to_recipients(m.cc()),
            bcc: header_to_recipients(m.bcc()),
            raw: m.raw_message().to_vec(),
        }),
        None => None,
    }
}

/// Parses every file of a corpus directory, in load order. The load
/// succeeds exactly when every file parses; one bad file fails the whole
/// load, naming the first offender.
pub fn parse_corpus(files: &Vec<Vec<u8>>) -> (r: Result<Vec<MailMessage>, LoadError>)
    ensures
        r matches Ok(msgs) ==> {
            &&& msgs@.len() == files@.len()
            &&& forall|i: int|
                0 <= i < files@.len() ==> (#[trigger] spec_parsed(files@[i]@)) is Some
            &&& forall|i: int|
                0 <= i < files@.len() ==> (#[trigger] msgs@[i]) == spec_parsed(files@[i]@)->0
            &&& forall|i: int|
                0 <= i < files@.len() ==> (#[trigger] msgs@[i]).raw@ == files@[i]@
        },
        r matches Err(e) ==> {
            &&& e matches LoadError::Parse { file_index }
            &&& 0 <= file_index < files@.len()
            &&& spec_parsed(files@[file_index as int]@) is None
        },
        (forall|i: int| 0 <= i < files@.len() ==> (#[trigger] spec_parsed(files@[i]@)) is Some)
            ==> r is Ok,
{
    let mut out: Vec<MailMessage> = Vec::new();
    let mut i: usize = 0;
    while i < files.len()
        invariant
            i <= files@.len(),
            out@.len() == i,
            forall|j: int| 0 <= j < i ==> (#[trigger] spec_parsed(files@[j]@)) is Some,
            forall|j: int| 0 <= j < i ==> (#[trigger] out@[j]) == spec_parsed(files@[j]@)->0,
            forall|j: int| 0 <= j < i ==> (#[trigger] out@[j]).raw@ == files@[j]@,
        decreases files@.len() - i,
    {
        match parse_message(&files[i]) {
            Some(m) => {
                out.push(m);
            },
            None => {
                return Err(LoadError::Parse { file_index: i });
            },
        }
        i += 1;
    }
    Ok(out)
}

} // verus!
