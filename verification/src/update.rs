//! The conditional write: where a corrected document is sent, under which
//! revision, and which answers of the store count as success.

use vstd::prelude::*;
use vstd::string::*;
use vstd::utf8::encode_utf8;

use crate::json::{JsonModel, JsonValue};

verus! {

/// Why a document was not written.
#[derive(Clone, Copy, Debug, PartialEq, Eq)]
pub enum UpdateError {
    /// The document has no string `_id`.
    MissingId,
    /// The document has no string `_rev`.
    MissingRev,
    /// The store answered with a status other than 200 and 201.
    Rejected(u16),
}

/// The write of one document: the address to put it to, and the revision that
/// the store must still hold for the write to be accepted.
#[derive(Debug, PartialEq, Eq)]
pub struct UpdateRequest {
    pub url: String,
    pub revision: String,
}

/// Whether a byte stands for itself in an escaped id: the letters and digits
/// of ASCII and `-`, `.`, `_`, `~`.
pub open spec fn is_unreserved(byte: u8) -> bool {
    ||| 0x30 <= byte <= 0x39
    ||| 0x41 <= byte <= 0x5a
    ||| 0x61 <= byte <= 0x7a
    ||| byte == 0x2d
    ||| byte == 0x2e
    ||| byte == 0x5f
    ||| byte == 0x7e
}

/// The upper-case hexadecimal digit of a value below 16.
pub open spec fn hex_digit(value: u8) -> char {
    if value < 10 {
        ((0x30 + value) as u8) as char
    } else {
        ((0x41 + value - 10) as u8) as char
    }
}

/// The escaped form of a byte: itself where it is unreserved, else `%` and its
/// two hexadecimal digits.
pub open spec fn escaped_byte(byte: u8) -> Seq<char> {
    if is_unreserved(byte) {
        seq![byte as char]
    } else {
        seq!['%', hex_digit(byte / 16), hex_digit(byte % 16)]
    }
}

/// The percent-encoding of a sequence of bytes.
pub open spec fn percent_encoded(bytes: Seq<u8>) -> Seq<char>
    decreases bytes.len(),
{
    if bytes.len() == 0 {
        Seq::empty()
    } else {
        escaped_byte(bytes[0]) + percent_encoded(bytes.drop_first())
    }
}

/// Calls `urlencoding::encode`. The contract restates what that function
/// does and is not proved: the result is the UTF-8 encoding of the text with
/// every byte but the unreserved ones replaced by `%` and two upper-case
/// hexadecimal digits.
#[verifier::external_body]
fn url_encode(text: &str) -> (result: String)
    ensures
        result@ == percent_encoded(encode_utf8(text@)),
{
    urlencoding::encode(text).into_owned()
}

/// The string member `key` of a document.
pub open spec fn text_member(document: JsonModel, key: Seq<char>) -> Option<Seq<char>> {
    match document.member(key) {
        Some(value) => value.as_text(),
        None => None,
    }
}

/// The address of the document `id` in a collection.
pub open spec fn document_url(db_host: Seq<char>, table_name: Seq<char>, id: Seq<char>) -> Seq<
    char,
> {
    db_host + seq!['/'] + table_name + seq!['/'] + percent_encoded(encode_utf8(id))
}

/// Whether the store accepted a write: on the status 200 or 201.
pub open spec fn is_accepted(status: u16) -> bool {
    status == 200 || status == 201
}

fn text_of_member<'a>(document: &'a JsonValue, key: &str) -> (result: Option<&'a str>)
    ensures
        match result {
            Some(text) => text_member(document@, key@) == Some(text@),
            None => text_member(document@, key@) is None,
        },
{
    match document.get(key) {
        Some(value) => value.as_str(),
        None => None,
    }
}

/// Prepares the conditional write of a document: its address, with the id
/// escaped, and its revision. A document without a string `_id` is refused,
/// then one without a string `_rev`.
pub fn update_request(db_host: &str, table_name: &str, doc: &JsonValue) -> (result: Result<
    UpdateRequest,
    UpdateError,
>)
    ensures
        match text_member(doc@, "_id"@) {
            None => result == Err::<UpdateRequest, UpdateError>(UpdateError::MissingId),
            Some(id) => match text_member(doc@, "_rev"@) {
                None => result == Err::<UpdateRequest, UpdateError>(UpdateError::MissingRev),
                Some(rev) => {
                    &&& result matches Ok(request)
                    &&& request.url@ == document_url(db_host@, table_name@, id)
                    &&& request.revision@ == rev
                },
            },
        },
{
    let id: &str = match text_of_member(doc, "_id") {
        Some(id) => id,
        None => {
            return Err(UpdateError::MissingId);
        },
    };
    let rev: &str = match text_of_member(doc, "_rev") {
        Some(rev) => rev,
        None => {
            return Err(UpdateError::MissingRev);
        },
    };
    proof {
        reveal_strlit("/");
    }
    let escaped: String = url_encode(id);
    let mut url: String = String::from_str(db_host);
    url.append("/");
    url.append(table_name);
    url.append("/");
    url.append(escaped.as_str());
    Ok(UpdateRequest { url, revision: String::from_str(rev) })
}

/// Judges the answer of the store to a write: the status 200 or 201 is
/// success, any other a failure that carries the status.
pub fn update_outcome(status: u16) -> (result: Result<(), UpdateError>)
    ensures
        result == if is_accepted(status) {
            Ok::<(), UpdateError>(())
        } else {
            Err::<(), UpdateError>(UpdateError::Rejected(status))
        },
{
    if status == 200 || status == 201 {
        Ok(())
    } else {
        Err(UpdateError::Rejected(status))
    }
}

} // verus!
