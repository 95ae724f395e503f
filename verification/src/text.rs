//! Newline-terminated text lines.
//!
//! A request line holds base64 segments separated by `;`. A response line
//! holds one JSON document. Either ends with `\n`.

use crate::error::IpcError;
use vstd::prelude::*;

verus! {

/// `serde_json::Value`, a parsed JSON document. Nothing is known of what
/// is inside one; it is carried from the parser to the caller.
#[verifier::external_type_specification]
#[verifier::external_body]
pub struct ExJsonValue(serde_json::Value);

/// `serde_json::Error`, the parser's complaint. Only its presence is used.
#[verifier::external_type_specification]
#[verifier::external_body]
pub struct ExJsonError(serde_json::Error);

/// The standard, padded base64 text of `bytes`, as `fastcrypto` writes it.
/// It depends on the bytes alone.
pub uninterp spec fn base64_text(bytes: Seq<u8>) -> Seq<char>;

/// The document that `serde_json` reads from the whole of `text`, or `None`
/// where it rejects the text. It depends on the text alone.
pub uninterp spec fn json_document(text: Seq<char>) -> Option<serde_json::Value>;

/// Largest number of bytes that one segment can encode: four times as many
/// must still be a length.
pub open spec fn max_segment_len() -> nat {
    (usize::MAX / 4) as nat
}

/// `segments` with `;` between neighbours.
pub open spec fn joined(segments: Seq<Seq<char>>) -> Seq<char>
    decreases segments.len(),
{
    if segments.len() == 0 {
        Seq::empty()
    } else if segments.len() == 1 {
        segments[0]
    } else {
        joined(segments.drop_last()) + seq![';'] + segments.last()
    }
}

/// The line made of `segments`: joined with `;`, ended by `\n`.
pub open spec fn text_line(segments: Seq<Seq<char>>) -> Seq<char> {
    joined(segments).push('\n')
}

/// The request line for `parts`: each part in base64, in order.
pub open spec fn text_request(parts: Seq<Seq<u8>>) -> Seq<char> {
    text_line(Seq::new(parts.len(), |i: int| base64_text(parts[i])))
}

/// What of a response line is the document: the line without its final
/// `\n`, or all of it where it was cut short of one.
pub open spec fn response_text(line: Seq<char>) -> Seq<char> {
    if line.len() > 0 && line.last() == '\n' {
        line.drop_last()
    } else {
        line
    }
}

/// Calls `fastcrypto::encoding::Base64::from_bytes(..).encoded()`, which
/// gives the standard padded base64 text of `bytes`. The encoder gives up on
/// input whose fourfold length overflows, so such input is kept out.
#[verifier::external_body]
fn base64_encode(bytes: &[u8]) -> (text: String)
    requires
        bytes@.len() <= max_segment_len(),
    ensures
        text@ == base64_text(bytes@),
{
    fastcrypto::encoding::Base64::from_bytes(bytes).encoded()
}

/// Calls `serde_json::from_str` for a `serde_json::Value`: the document
/// that the whole of `text` spells, or the parser's error.
#[verifier::external_body]
fn parse_json(text: &str) -> (result: Result<serde_json::Value, serde_json::Error>)
    ensures
        match result {
            Ok(value) => json_document(text@) == Some(value),
            Err(_) => json_document(text@) is None,
        },
{
    serde_json::from_str::<serde_json::Value>(text)
}

/// Joins already encoded segments into one line: `;` between them, `\n` at
/// the end.
pub fn join_segments(segments: &Vec<String>) -> (line: String)
    ensures
        line@ == text_line(segments.deep_view()),
{
    let mut line = String::new();
    let mut i: usize = 0;
    while i < segments.len()
        invariant
            i <= segments.len(),
            line@ == joined(segments.deep_view().take(i as int)),
        decreases segments.len() - i,
    {
        let ghost before = segments.deep_view().take(i as int);
        let ghost after = segments.deep_view().take(i + 1);
        proof {
            assert(after.drop_last() =~= before);
            assert(after.last() == segments[i as int]@);
        }
        if i > 0 {
            proof {
                reveal_strlit(";");
            }
            line.append(";");
            assert(";"@ =~= seq![';']);
        }
        line.append(segments[i].as_str());
        i += 1;
    }
    proof {
        reveal_strlit("\n");
        assert(segments.deep_view().take(i as int) =~= segments.deep_view());
        assert("\n"@ =~= seq!['\n']);
    }
    line.append("\n");
    assert(line@ =~= text_line(segments.deep_view()));
    line
}

/// Encodes each part in base64, joins the segments with `;` and ends the
/// line with `\n`.
pub fn encode_text_request(parts: &Vec<Vec<u8>>) -> (line: String)
    requires
        forall|i: int| 0 <= i < parts.len() ==> (#[trigger] parts[i]).len() <= max_segment_len(),
    ensures
        line@ == text_request(parts.deep_view()),
{
    let mut segments: Vec<String> = Vec::new();
    let mut i: usize = 0;
    while i < parts.len()
        invariant
            i <= parts.len(),
            segments.len() == i,
            forall|k: int| 0 <= k < parts.len() ==> (#[trigger] parts[k]).len() <= max_segment_len(),
            forall|k: int| 0 <= k < i ==> (#[trigger] segments[k])@ == base64_text(parts[k]@),
        decreases parts.len() - i,
    {
        let segment = base64_encode(parts[i].as_slice());
        segments.push(segment);
        i += 1;
    }
    proof {
        let encoded = Seq::new(
            parts.deep_view().len(),
            |k: int| base64_text(parts.deep_view()[k]),
        );
        assert forall|k: int| 0 <= k < parts.len() implies segments.deep_view()[k] == encoded[k] by {
            assert(parts.deep_view()[k] =~= parts[k]@);
        }
        assert(segments.deep_view() =~= encoded);
    }
    join_segments(&segments)
}

/// A response line without its terminating newline.
pub fn strip_newline(line: &str) -> (text: &str)
    ensures
        text@ == response_text(line@),
{
    let n = line.unicode_len();
    if n > 0 && line.get_char(n - 1) == '\n' {
        let text = line.substring_char(0, n - 1);
        assert(text@ =~= line@.drop_last());
        text
    } else {
        line
    }
}

/// Parses a response line, without its final newline, as one JSON document.
///
/// Fails with `Decode` exactly when the text is not a JSON document.
pub fn decode_text_response(line: &str) -> (result: Result<serde_json::Value, IpcError>)
    ensures
        match result {
            Ok(value) => json_document(response_text(line@)) == Some(value),
            Err(e) => e == IpcError::Decode && json_document(response_text(line@)) is None,
        },
{
    match parse_json(strip_newline(line)) {
        Ok(value) => Ok(value),
        Err(_) => Err(IpcError::Decode),
    }
}

/// A line made of a text and a newline gives the text back: what is decoded
/// from the line of a document is what the parser makes of the document
/// itself.
pub proof fn lemma_response_line_round_trip(text: Seq<char>)
    ensures
        response_text(text.push('\n')) == text,
        json_document(response_text(text.push('\n'))) == json_document(text),
{
    assert(text.push('\n').drop_last() =~= text);
}

} // verus!
