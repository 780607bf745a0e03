//! Turning what the transport received into a call's outcome.

use vstd::prelude::*;
use vstd::string::StringExecFns;
use crate::error::Error;

verus! {

/// The text that lossy UTF-8 decoding makes of a byte string.
pub uninterp spec fn lossy_text(b: Seq<u8>) -> Seq<char>;

/// Relies on `String::from_utf8_lossy`: the result depends on the bytes alone,
/// valid UTF-8 comes back as the text it encodes, and no bytes give no text.
#[verifier::external_body]
fn decode_lossy(b: &[u8]) -> (r: String)
    ensures
        r@ == lossy_text(b@),
        vstd::utf8::valid_utf8(b@) ==> r@ == vstd::utf8::decode_utf8(b@),
        b@.len() == 0 ==> r@.len() == 0,
{
    String::from_utf8_lossy(b).into_owned()
}

/// The body text made of chunks: each chunk decoded on its own, in order.
pub open spec fn body_text(chunks: Seq<Seq<u8>>) -> Seq<char>
    decreases chunks.len(),
{
    if chunks.len() == 0 {
        Seq::empty()
    } else {
        body_text(chunks.drop_last()) + lossy_text(chunks.last())
    }
}

/// Status codes of the success class.
pub open spec fn is_success(status: u16) -> bool {
    200 <= status <= 299
}

/// Joins the chunks of a response body, decoding each as UTF-8 with
/// replacement characters for invalid sequences.
pub fn collect_body(chunks: &Vec<Vec<u8>>) -> (r: String)
    ensures
        r@ == body_text(chunks@.map_values(|c: Vec<u8>| c@)),
{
    let ghost views = chunks@.map_values(|c: Vec<u8>| c@);
    let mut r = String::new();
    let mut i: usize = 0;
    while i < chunks.len()
        invariant
            views == chunks@.map_values(|c: Vec<u8>| c@),
            0 <= i <= chunks@.len(),
            r@ == body_text(views.take(i as int)),
        decreases chunks@.len() - i,
    {
        let part = decode_lossy(chunks[i].as_slice());
        r.append(part.as_str());
        proof {
            assert(views.take(i + 1).drop_last() =~= views.take(i as int));
        }
        i = i + 1;
    }
    assert(views.take(chunks@.len() as int) =~= views);
    r
}

/// Classifies a received response: a status of the success class gives the
/// body, any other status gives `HttpError` with the status and the body.
pub fn classify_response(status: u16, body: String) -> (r: Result<String, Error>)
    ensures
        is_success(status) ==> r == Ok::<String, Error>(body),
        !is_success(status) ==> r == Err::<String, Error>(Error::HttpError(status, body)),
{
    if 200 <= status && status <= 299 {
        Ok(body)
    } else {
        Err(Error::HttpError(status, body))
    }
}

/// The outcome of one exchange: `None` where the transport failed, else the
/// status and the chunks of the body.
pub fn finish_request(received: Option<(u16, Vec<Vec<u8>>)>) -> (r: Result<String, Error>)
    ensures
        received is None ==> r == Err::<String, Error>(Error::RequestError),
        received is Some ==> ({
            let s = received->Some_0.0;
            let body = body_text(received->Some_0.1@.map_values(|c: Vec<u8>| c@));
            if is_success(s) {
                r is Ok && r->Ok_0@ == body
            } else {
                r is Err && r->Err_0 is HttpError && r->Err_0->HttpError_0 == s
                    && r->Err_0->HttpError_1@ == body
            }
        }),
{
    match received {
        None => Err(Error::RequestError),
        Some((status, chunks)) => {
            let body = collect_body(&chunks);
            classify_response(status, body)
        },
    }
}

/// The outcome of decoding a success body into a value: a failed decoding
/// is `ParseError`.
pub fn decoded<K>(r: Result<K, ()>) -> (out: Result<K, Error>)
    ensures
        r is Ok ==> out is Ok && out->Ok_0 == r->Ok_0,
        r is Err ==> out is Err && out->Err_0 == Error::ParseError,
{
    match r {
        Ok(v) => Ok(v),
        Err(_) => Err(Error::ParseError),
    }
}

} // verus!
