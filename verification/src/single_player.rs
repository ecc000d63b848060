//! Single-player scenarios run by an outside service: the replies it sends
//! and the caller identity read from the user's token before it is sent on.
use vstd::prelude::*;

use crate::text::{split, split_seq, views};

verus! {

/// The markets of a scenario.
#[derive(Debug)]
pub struct MarketIds {
    pub min: i64,
    pub max: i64,
    pub sum: i64,
}

/// A scenario's state.
#[derive(Debug)]
pub struct StatusResponse {
    pub scenario_id: String,
    pub settled: bool,
    pub paused: bool,
    pub dice_roll: i32,
    pub team_account_id: i64,
    pub market_ids: MarketIds,
    /// Every player's dice roll by name, once revealed.
    pub all_dice: Option<Vec<(String, i32)>>,
}

/// What the markets of a scenario settled at.
#[derive(Debug)]
pub struct SettlementValues {
    pub min: i32,
    pub max: i32,
    pub sum: i32,
}

/// The reply to settling a scenario.
#[derive(Debug)]
pub struct SettleResponse {
    pub settled: bool,
    pub settlement_values: SettlementValues,
    pub all_dice: Vec<(String, i32)>,
}

/// A failed single-player request, with its description.
#[derive(Debug)]
pub struct SinglePlayerError {
    pub message: String,
}

/// What the URL-safe, unpadded base64 decoding of a text gives: the bytes,
/// or the decoder's description of what is wrong.
pub uninterp spec fn base64_url_decoded(s: Seq<char>) -> Result<Seq<u8>, Seq<char>>;

/// `base64::engine::general_purpose::URL_SAFE_NO_PAD.decode`: claims only
/// that the result is the decoding named above (a function of the text
/// alone), with the error given by its description.
#[verifier::external_body]
fn decode_base64_url(s: &str) -> (r: Result<Vec<u8>, String>)
    ensures
        match r {
            Ok(v) => base64_url_decoded(s@) == Ok::<Seq<u8>, Seq<char>>(v@),
            Err(e) => base64_url_decoded(s@) == Err::<Seq<u8>, Seq<char>>(e@),
        },
{
    match base64::Engine::decode(&base64::engine::general_purpose::URL_SAFE_NO_PAD, s) {
        Ok(v) => Ok(v),
        Err(e) => Err(e.to_string()),
    }
}

/// The outcome of decoding a token's payload, for a decoding result.
pub open spec fn spec_payload_outcome(decoded: Result<Seq<u8>, Seq<char>>) -> Result<Seq<u8>, Seq<char>> {
    match decoded {
        Ok(v) => Ok(v),
        Err(e) => Err("Failed to decode JWT payload: "@ + e),
    }
}

/// The payload bytes, or the error reported when they could not be decoded.
pub fn payload_outcome(decoded: Result<Vec<u8>, String>) -> (r: Result<Vec<u8>, SinglePlayerError>)
    ensures
        match (r, decoded) {
            (Ok(v), Ok(d)) => v@ == d@,
            (Err(e), Err(d)) => e.message@ == "Failed to decode JWT payload: "@ + d@,
            _ => false,
        },
{
    match decoded {
        Ok(v) => Ok(v),
        Err(d) => {
            let message = String::from_str("Failed to decode JWT payload: ").concat(d.as_str());
            Err(SinglePlayerError { message })
        },
    }
}

/// The decoded payload of a token `header.payload.signature` (read without
/// checking the signature): refused when the token does not have exactly
/// three dot-separated parts or the payload is not valid base64.
pub fn jwt_payload(token: &str) -> (r: Result<Vec<u8>, SinglePlayerError>)
    ensures
        split_seq(token@, "."@).len() != 3 ==> (r matches Err(e) && e.message@ == "Invalid JWT format"@),
        split_seq(token@, "."@).len() == 3 ==> match (r, base64_url_decoded(split_seq(token@, "."@)[1])) {
            (Ok(v), Ok(d)) => v@ == d,
            (Err(e), Err(d)) => e.message@ == "Failed to decode JWT payload: "@ + d,
            _ => false,
        },
{
    proof {
        reveal_strlit(".");
    }
    let parts = split(token, ".");
    if parts.len() != 3 {
        return Err(SinglePlayerError { message: String::from_str("Invalid JWT format") });
    }
    proof {
        assert(views(parts@)[1] == parts@[1]@);
    }
    let decoded = decode_base64_url(parts[1].as_str());
    payload_outcome(decoded)
}

} // verus!
