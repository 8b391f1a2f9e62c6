//! Handing bytes across a boundary that has no types.
//!
//! A buffer begins with four bytes: the length of what follows, the lowest byte
//! first. One allocation, one pointer, nothing else to return.

use vstd::prelude::*;

use crate::json::{self, Json, JsonV};
use crate::text::Text;

verus! {

/// The four lowest bytes of a number, the lowest first.
pub open spec fn bytes_of(n: nat) -> Seq<u8> {
    seq![(n % 256) as u8].push((n / 256 % 256) as u8).push((n / 65536 % 256) as u8).push(
        (n / 16777216 % 256) as u8,
    )
}

/// The number that four bytes are.
pub open spec fn number_of(bytes: Seq<u8>) -> nat {
    (bytes[0] + 256 * bytes[1] + 65536 * bytes[2] + 16777216 * bytes[3]) as nat
}

pub open spec fn framed(body: Seq<u8>) -> Seq<u8> {
    bytes_of(body.len()) + body
}

/// Puts the length of a body before it.
pub fn respond(body: &Vec<u8>) -> (out: Vec<u8>)
    ensures
        out@ == framed(body@),
{
    let n: usize = body.len();
    let mut out: Vec<u8> = Vec::new();
    out.push((n % 256) as u8);
    out.push((n / 256 % 256) as u8);
    out.push((n / 65536 % 256) as u8);
    out.push((n / 16777216 % 256) as u8);
    assert(out@ =~= bytes_of(n as nat));
    let mut i: usize = 0;
    while i < body.len()
        invariant
            i <= body.len(),
            out@ == bytes_of(body@.len()) + body@.take(i as int),
        decreases body.len() - i,
    {
        out.push(body[i]);
        assert(body@.take(i + 1) =~= body@.take(i as int).push(body@[i as int]));
        i += 1;
    }
    assert(body@.take(body@.len() as int) =~= body@);
    out
}

/// The length and the body can be read back, as long as the length fits in its
/// four bytes.
pub proof fn lemma_framed(body: Seq<u8>)
    requires
        body.len() < 0x1_0000_0000,
    ensures
        number_of(framed(body)) == body.len(),
        framed(body).skip(4) == body,
{
    let n = body.len();
    let head = bytes_of(n);
    assert(framed(body).skip(4) =~= body);
    assert(framed(body)[0] == head[0] && framed(body)[1] == head[1] && framed(body)[2] == head[2]
        && framed(body)[3] == head[3]);
    assert(n % 256 + 256 * (n / 256 % 256) + 65536 * (n / 65536 % 256) + 16777216 * (n / 16777216
        % 256) == n) by (nonlinear_arith)
        requires
            0 <= n < 0x1_0000_0000,
    ;
}

/// A stream that could not be made, as one fact that can be read: an error is
/// data too.
pub open spec fn facts_error(message: Text) -> JsonV {
    JsonV::Object(
        seq![("t"@, JsonV::Str("error"@))].push(("message"@, JsonV::Str(message))),
    )
}

pub fn facts_fault(message: &str) -> (j: Json)
    ensures
        j.deep_view() == facts_error(message@),
{
    let mut fields = json::no_fields();
    crate::json::add(&mut fields, "t", Json::str("error"));
    crate::json::add(&mut fields, "message", Json::str(message));
    assert(fields.deep_view() =~= facts_error(message@)->Object_0);
    Json::object(fields)
}

/// A score that could not be made.
pub fn score_fault(message: &str) -> (j: Json)
    ensures
        j.deep_view() == JsonV::Object(seq![("error"@, JsonV::Str(message@))]),
{
    json::holding("error", Json::str(message))
}


/// A length below two to the eighth stands in the first byte, and a whole number
/// of them in the second; what follows the four bytes is the body.
pub proof fn lemma_lowest_first(body: Seq<u8>)
    requires
        body.len() < 0x1_0000,
    ensures
        framed(body).len() == body.len() + 4,
        framed(body)[0] == body.len() % 256,
        framed(body)[1] == body.len() / 256,
        framed(body)[2] == 0 && framed(body)[3] == 0,
        forall|i: int| 0 <= i < body.len() ==> framed(body)[i + 4] == #[trigger] body[i],
{
}

/// A fault says what went wrong, and that it is an error.
pub proof fn lemma_fault_said(message: Text)
    ensures
        json::field_of(facts_error(message), "t"@) == Some(JsonV::Str("error"@)),
        json::field_of(facts_error(message), "message"@) == Some(JsonV::Str(message)),
{
    broadcast use crate::table::lemma_lookup_push;

    reveal_strlit("t");
    reveal_strlit("message");
    assert("t"@.len() == 1 && "message"@.len() == 7);
    let first = seq![("t"@, JsonV::Str("error"@))];
    assert(first.skip(1) =~= seq![]);
}

}
