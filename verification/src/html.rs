use vstd::prelude::*;
use vstd::string::*;
use vstd::utf8::{encode_utf8, is_ascii_chars, is_ascii_chars_encode_utf8};
use html5ever::tendril::TendrilSink;

verus! {

/// The longest document that is handed to the HTML parser. The parser's
/// tree is walked by recursion, once per level of nesting, and a document
/// of this length cannot nest deep enough to exhaust the stack.
pub const MAX_DOCUMENT_LEN: usize = 4096;

/// What comes back when the bytes `input` are parsed as an HTML document
/// by `html5ever::parse_document`, read as UTF-8 into an `RcDom` with the
/// default options, and that document is written out again by
/// `html5ever::serialize` with the default options: the text that was
/// written, or `None` where the parser or the serializer reports an error
/// or what was written is not UTF-8.
pub uninterp spec fn reserialized_html(input: Seq<u8>) -> Option<Seq<char>>;

/// The model of a text that may be missing.
pub open spec fn text_view(text: Option<String>) -> Option<Seq<char>> {
    match text {
        Some(t) => Some(t@),
        None => None,
    }
}

/// What `roundtrip` gives for a document: nothing for one of more than
/// `MAX_DOCUMENT_LEN` bytes, which is never handed to the parser; for any
/// other, what the parser and the serializer make of its bytes.
pub open spec fn roundtrip_of(input: Seq<char>) -> Option<Seq<char>> {
    if encode_utf8(input).len() > MAX_DOCUMENT_LEN {
        None
    } else {
        reserialized_html(encode_utf8(input))
    }
}

/// The sample document.
pub open spec fn sample_document() -> Seq<char> {
    "some empty space"@
}

/// Parses `input` with `html5ever::parse_document` and writes the document
/// out again with `html5ever::serialize`. What is claimed: the outcome,
/// the text or the lack of one, depends on the input alone.
#[verifier::external_body]
fn reserialize(input: &[u8]) -> (html: Option<String>)
    requires
        input@.len() <= MAX_DOCUMENT_LEN,
    ensures
        text_view(html) == reserialized_html(input@),
{
    let opts = html5ever::ParseOpts::default();
    let sink = html5ever::rcdom::RcDom::default();
    let mut reader = input;
    let dom = html5ever::parse_document(sink, opts).from_utf8().read_from(&mut reader).ok()?;
    let mut bytes = Vec::new();
    html5ever::serialize(&mut bytes, &dom.document, Default::default()).ok()?;
    String::from_utf8(bytes).ok()
}

/// Parses a document and writes it out again. A document of more than
/// `MAX_DOCUMENT_LEN` bytes is refused with `None`; every other document
/// goes to the parser, byte for byte, and what comes back is handed on as
/// it is.
pub fn roundtrip(input: &str) -> (html: Option<String>)
    ensures
        text_view(html) == roundtrip_of(input@),
{
    let bytes = input.as_bytes();
    if bytes.len() > MAX_DOCUMENT_LEN {
        None
    } else {
        reserialize(bytes)
    }
}

/// The sample document is sixteen bytes long, so it goes to the parser.
pub proof fn lemma_sample_fits()
    ensures
        encode_utf8(sample_document()).len() == 16,
        roundtrip_of(sample_document()) == reserialized_html(encode_utf8(sample_document())),
{
    reveal_strlit("some empty space");
    assert(is_ascii_chars(sample_document()));
    is_ascii_chars_encode_utf8(sample_document());
}

/// Parses the sample document `some empty space` and writes it out again:
/// the sample always goes to the parser, and what comes back is handed on
/// as it is.
pub fn parse() -> (html: Option<String>)
    ensures
        text_view(html) == reserialized_html(encode_utf8(sample_document())),
{
    proof {
        lemma_sample_fits();
    }
    roundtrip("some empty space")
}

} // verus!
