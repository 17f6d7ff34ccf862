//! The two inbound wire formats, both decoded to the same batch shape.

use crate::batch::{entries_view, first_mentions, grouped, Batch};
use base64::prelude::{Engine, BASE64_URL_SAFE_NO_PAD};
use vstd::prelude::*;

verus! {

/// The error of the `base64` crate's decoders; carried through unread.
#[verifier::external_type_specification]
#[verifier::external_body]
pub struct ExBase64Error(base64::DecodeError);

/// The error of the `rmp_serde` crate's decoders; carried through unread.
#[verifier::external_type_specification]
#[verifier::external_body]
pub struct ExPayloadError(rmp_serde::decode::Error);

/// Why a request was rejected before it touched the store.
#[derive(Debug)]
pub enum DecodeFailure {
    /// The payload is not base64 in the URL-safe alphabet without padding.
    Base64(base64::DecodeError),
    /// The decoded bytes are not a map from keys to lists of numbers.
    Payload(rmp_serde::decode::Error),
    /// The literal at place `index` of the request is not a number.
    Literal { index: usize },
}

/// What `text` decodes to as base64 in the URL-safe alphabet without padding:
/// the bytes, or nothing where `text` is no such encoding.
pub uninterp spec fn base64_url_decoded(text: Seq<char>) -> Option<Seq<u8>>;

/// `Engine::decode` of the `base64` crate on its `URL_SAFE_NO_PAD` engine:
/// returns the decoded bytes exactly when `text` is a valid encoding, and the
/// same outcome for the same text every time.
#[verifier::external_body]
fn base64_url_decode(text: &str) -> (decoded: Result<Vec<u8>, base64::DecodeError>)
    ensures
        match decoded {
            Ok(bytes) => base64_url_decoded(text@) == Some(bytes@),
            Err(_) => base64_url_decoded(text@) is None,
        },
{
    BASE64_URL_SAFE_NO_PAD.decode(text)
}

/// Decodes the transport encoding of a binary request.
pub fn decode_base64(payload: &str) -> (decoded: Result<Vec<u8>, DecodeFailure>)
    ensures
        match decoded {
            Ok(bytes) => base64_url_decoded(payload@) == Some(bytes@),
            Err(error) => base64_url_decoded(payload@) is None && error is Base64,
        },
{
    match base64_url_decode(payload) {
        Ok(bytes) => Ok(bytes),
        Err(error) => Err(DecodeFailure::Base64(error)),
    }
}

/// The pairs of a textual request as entries of one value each; a literal
/// that is no number contributes nothing.
pub open spec fn readings<T>(pairs: Seq<(String, Option<T>)>) -> Seq<(Seq<char>, Seq<T>)> {
    Seq::new(
        pairs.len(),
        |i: int|
            (
                pairs[i].0@,
                match pairs[i].1 {
                    Some(value) => seq![value],
                    None => Seq::empty(),
                },
            ),
    )
}

/// Whether the literal at place `index` is the first of the request that is
/// no number.
pub open spec fn first_bad_literal<T>(pairs: Seq<(String, Option<T>)>, index: int) -> bool {
    &&& 0 <= index < pairs.len()
    &&& pairs[index].1 is None
    &&& forall|j: int| 0 <= j < index ==> (#[trigger] pairs[j]).1 is Some
}

/// Decodes a textual request: pairs of a key and what its literal parsed to,
/// `None` standing for a literal that is no number. One bad literal rejects
/// the whole request; otherwise repeated keys accumulate into one list per
/// key, in request order.
pub fn decode_text<T: Copy>(pairs: &Vec<(String, Option<T>)>) -> (decoded: Result<
    Batch<T>,
    DecodeFailure,
>)
    ensures
        match decoded {
            Ok(batch) => {
                &&& forall|i: int| 0 <= i < pairs@.len() ==> (#[trigger] pairs@[i]).1 is Some
                &&& batch@ == grouped(readings(pairs@))
                &&& batch.spec_keys() == first_mentions(readings(pairs@))
            },
            Err(failure) => failure matches DecodeFailure::Literal { index }
                && first_bad_literal(pairs@, index as int),
        },
{
    let mut batch = Batch::new();
    let ghost all = readings(pairs@);
    let mut i: usize = 0;
    proof {
        assert(all.subrange(0, 0) =~= Seq::<(Seq<char>, Seq<T>)>::empty());
        assert(grouped(Seq::<(Seq<char>, Seq<T>)>::empty()) =~= Map::<
            Seq<char>,
            Seq<T>,
        >::empty());
    }
    while i < pairs.len()
        invariant
            i <= pairs@.len(),
            all == readings(pairs@),
            forall|j: int| 0 <= j < i ==> (#[trigger] pairs@[j]).1 is Some,
            batch@ == grouped(all.subrange(0, i as int)),
            batch.spec_keys() == first_mentions(all.subrange(0, i as int)),
        decreases pairs@.len() - i,
    {
        match pairs[i].1 {
            None => {
                return Err(DecodeFailure::Literal { index: i });
            },
            Some(value) => {
                proof {
                    let done = all.subrange(0, i as int);
                    let next = all.subrange(0, i as int + 1);
                    assert(next =~= done.push(all[i as int]));
                    assert(next.drop_last() =~= done);
                    assert(all[i as int].1 =~= seq![value]);
                    assert(crate::batch::list_of(batch@, all[i as int].0).push(value)
                        =~= crate::batch::list_of(batch@, all[i as int].0) + seq![value]);
                    crate::batch::lemma_grouped_push(done, all[i as int]);
                }
                batch.add(pairs[i].0.clone(), value);
            },
        }
        i += 1;
    }
    assert(all.subrange(0, i as int) =~= all);
    Ok(batch)
}

/// Whether `decoded` is what the outcome `parsed` of reading the decoded bytes
/// as a map from keys to lists of numbers turns into: the batch of the
/// entries read, or the rejection of the request.
pub open spec fn structured_outcome<T>(
    parsed: Result<Vec<(String, Vec<T>)>, rmp_serde::decode::Error>,
    decoded: Result<Batch<T>, DecodeFailure>,
) -> bool {
    match parsed {
        Ok(entries) => decoded matches Ok(batch) && batch@ == grouped(entries_view(entries@))
            && batch.spec_keys() == first_mentions(entries_view(entries@)),
        Err(_) => decoded matches Err(failure) && failure is Payload,
    }
}

/// Turns the outcome of reading the decoded bytes as a map from keys to lists
/// of numbers into a batch, or into the rejection of the request.
pub fn decode_structured<T: Copy>(
    parsed: Result<Vec<(String, Vec<T>)>, rmp_serde::decode::Error>,
) -> (decoded: Result<Batch<T>, DecodeFailure>)
    ensures
        structured_outcome(parsed, decoded),
{
    match parsed {
        Ok(entries) => Ok(Batch::from_entries(&entries)),
        Err(error) => Err(DecodeFailure::Payload(error)),
    }
}

/// Decodes a binary request. The payload is first taken out of its transport
/// encoding; only if that succeeds is `read` asked to read the bytes as a map
/// from keys to lists of numbers, and its outcome decides the rest.
pub fn decode_binary<T: Copy, F>(payload: &str, read: F) -> (decoded: Result<
    Batch<T>,
    DecodeFailure,
>) where F: FnOnce(Vec<u8>) -> Result<Vec<(String, Vec<T>)>, rmp_serde::decode::Error>
    requires
        forall|bytes: Vec<u8>| read.requires((bytes,)),
    ensures
        match base64_url_decoded(payload@) {
            None => decoded matches Err(failure) && failure is Base64,
            Some(content) => exists|
                bytes: Vec<u8>,
                parsed: Result<Vec<(String, Vec<T>)>, rmp_serde::decode::Error>,
            |
                bytes@ == content && read.ensures((bytes,), parsed) && structured_outcome(
                    parsed,
                    decoded,
                ),
        },
{
    match decode_base64(payload) {
        Err(failure) => Err(failure),
        Ok(bytes) => {
            let ghost input = bytes;
            let parsed = read(bytes);
            let ghost outcome = parsed;
            let decoded = decode_structured(parsed);
            assert(input@ == base64_url_decoded(payload@)->0 && read.ensures((input,), outcome)
                && structured_outcome(outcome, decoded));
            decoded
        },
    }
}

} // verus!
