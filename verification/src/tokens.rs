//! Token budgeter: counts tokens of a string under a fixed byte-pair
//! encoding and truncates a string to a token cap.

use vstd::prelude::*;

verus! {

/// Token cap for a single chunk.
pub const MAX_TOKENS: usize = 8192;

/// The token sequence that the fixed byte-pair encoding assigns to `s`,
/// when encoding succeeds.
pub uninterp spec fn token_encoding(s: Seq<char>) -> Seq<u32>;

/// Whether encoding `s` succeeds: the tokenizer's split regex can give up
/// on pathological inputs, and that outcome depends on the text alone.
pub uninterp spec fn token_encoding_ok(s: Seq<char>) -> bool;

/// The text that the fixed byte-pair encoding decodes `t` to, when the
/// decoding succeeds.
pub uninterp spec fn token_decoding(t: Seq<u32>) -> Seq<char>;

/// Whether decoding `t` succeeds: it fails when the bytes behind the
/// tokens are unknown or not valid UTF-8, an outcome that depends on the
/// token sequence alone.
pub uninterp spec fn token_decoding_ok(t: Seq<u32>) -> bool;

/// Relies on `tiktoken_rs::cl100k_base_singleton` and `CoreBPE::encode`: a
/// fixed encoding table, so both the outcome and the tokens depend on the
/// text alone. The fallible split-regex scan is surfaced as `None` rather
/// than unwrapped; the special-token scan matches literal patterns only
/// and does not fail. Encoding the empty string gives no tokens.
#[verifier::external_body]
fn encode_tokens(s: &str) -> (r: Option<Vec<u32>>)
    ensures
        r matches Some(v) ==> token_encoding_ok(s@) && v@ == token_encoding(s@),
        r is None ==> !token_encoding_ok(s@),
{
    let bpe = tiktoken_rs::cl100k_base_singleton();
    bpe.encode(s, &bpe.special_tokens()).ok().map(|p| p.0)
}

/// Relies on `CoreBPE::decode` of the same fixed table: the outcome
/// depends on the token sequence alone; it fails when the bytes behind the
/// tokens are not valid UTF-8.
#[verifier::external_body]
fn decode_tokens(t: &Vec<u32>) -> (r: Option<String>)
    ensures
        r matches Some(s) ==> token_decoding_ok(t@) && s@ == token_decoding(t@),
        r is None ==> !token_decoding_ok(t@),
{
    tiktoken_rs::cl100k_base_singleton().decode(t).ok()
}

/// How many tokens the fixed encoding assigns to `s`; `None` exactly when
/// encoding fails.
pub fn count_tokens(s: &str) -> (r: Option<usize>)
    ensures
        (r is Some) == token_encoding_ok(s@),
        r matches Some(n) ==> n == token_encoding(s@).len(),
{
    match encode_tokens(s) {
        Some(t) => Some(t.len()),
        None => None,
    }
}

/// The content a chunk keeps: the text itself under the cap, else the
/// decoding of its first `MAX_TOKENS` tokens.
pub open spec fn spec_trimmed(s: Seq<char>) -> Seq<char> {
    if token_encoding(s).len() <= MAX_TOKENS {
        s
    } else {
        token_decoding(token_encoding(s).take(MAX_TOKENS as int))
    }
}

/// Law: trimming is the identity on content within the token cap: for any
/// text that encodes to at most `MAX_TOKENS` tokens, the trimmed content
/// is the text itself.
pub proof fn lemma_trim_keeps_short(s: Seq<char>)
    requires
        token_encoding(s).len() <= MAX_TOKENS,
    ensures
        spec_trimmed(s) == s,
{
}

/// Trims `content` to at most `MAX_TOKENS` tokens: the content itself when
/// it is within the cap, the decoding of its first `MAX_TOKENS` tokens
/// when it is over, and `None` exactly when encoding the content or
/// decoding the truncated token sequence fails.
pub fn trim_to_token_limit(content: &str) -> (r: Option<String>)
    ensures
        r matches Some(t) ==> t@ == spec_trimmed(content@),
        token_encoding_ok(content@) && token_encoding(content@).len() <= MAX_TOKENS ==> (
        r matches Some(t) && t@ == content@),
        (r is Some) == (token_encoding_ok(content@) && (token_encoding(content@).len()
            <= MAX_TOKENS || token_decoding_ok(
            token_encoding(content@).take(MAX_TOKENS as int),
        ))),
{
    let tokens = match encode_tokens(content) {
        Some(t) => t,
        None => {
            return None;
        },
    };
    if tokens.len() <= MAX_TOKENS {
        return Some(content.to_owned());
    }
    let mut prefix: Vec<u32> = Vec::new();
    for i in 0..MAX_TOKENS
        invariant
            tokens@ == token_encoding(content@),
            tokens@.len() > MAX_TOKENS,
            prefix@ == tokens@.take(i as int),
    {
        prefix.push(tokens[i]);
        assert(prefix@ =~= tokens@.take(i + 1));
    }
    decode_tokens(&prefix)
}

} // verus!
