//! The outside crates that the library calls: candle for the model and the
//! sampler, tokenizers for text and tokens, metrics for metric keys.
use vstd::prelude::*;
use candle_core::{Device, Tensor};
use candle_transformers::generation::LogitsProcessor;
use candle_transformers::models::llama::Llama;
use metrics::{Key, KeyName, Label};
use tokenizers::{ModelWrapper, PostProcessor};
use tokenizers::Tokenizer;

verus! {

#[verifier::external_type_specification]
#[verifier::external_body]
pub struct ExTensor(candle_core::Tensor);

#[verifier::external_type_specification]
#[verifier::external_body]
pub struct ExDevice(candle_core::Device);

#[verifier::external_type_specification]
#[verifier::external_body]
pub struct ExCandleError(candle_core::Error);

#[verifier::external_type_specification]
#[verifier::external_body]
pub struct ExLlama(candle_transformers::models::llama::Llama);

#[verifier::external_type_specification]
#[verifier::external_body]
pub struct ExLogitsProcessor(candle_transformers::generation::LogitsProcessor);

#[verifier::external_type_specification]
#[verifier::external_body]
pub struct ExTokenizer(tokenizers::Tokenizer);

#[verifier::external_type_specification]
#[verifier::external_body]
pub struct ExKey(metrics::Key);

#[verifier::external_type_specification]
#[verifier::external_body]
pub struct ExKeyName(metrics::KeyName);

#[verifier::external_type_specification]
#[verifier::external_body]
pub struct ExLabel(metrics::Label);

/// The number of dimensions of a tensor.
pub uninterp spec fn rank_of(t: Tensor) -> nat;

/// Relies on candle's `Llama::forward`: the logits for the position after
/// `ctx`, whose first token sits at cache position `pos`. `Tensor::new` makes
/// the context a batch of one and `Tensor::squeeze` drops that batch again.
/// `forward` takes the last position with `seq_len - 1`, so `ctx` is not empty.
#[verifier::external_body]
pub(crate) fn next_logits(
    llama: &Llama,
    device: &Device,
    ctx: &[u32],
    pos: usize,
) -> (r: Result<Tensor, candle_core::Error>)
    requires
        ctx@.len() > 0,
    ensures
        r matches Ok(t) ==> rank_of(t) == 1,
{
    let input = Tensor::new(vec![ctx], device)?;
    llama.forward(&input, pos)?.squeeze(0)
}

/// The number of elements of a tensor.
pub uninterp spec fn elem_count_of(t: Tensor) -> nat;

/// Whether a logits processor samples without nucleus (top-p) truncation.
pub uninterp spec fn nucleus_free(p: LogitsProcessor) -> bool;

/// Relies on candle's `Tensor::elem_count`.
#[verifier::external_body]
pub(crate) fn elem_count(t: &Tensor) -> (r: usize)
    ensures
        r == elem_count_of(*t),
{
    t.elem_count()
}

/// Relies on candle's `LogitsProcessor::new`: a processor seeded with `seed`,
/// with the temperature that the decimal text `temperature` reads as (none,
/// so greedy sampling, where it does not read as a number) and without top-p.
#[verifier::external_body]
pub(crate) fn new_sampler(seed: u64, temperature: &str) -> (r: LogitsProcessor)
    ensures
        nucleus_free(r),
{
    LogitsProcessor::new(seed, temperature.parse().ok(), None)
}

/// Relies on candle's `LogitsProcessor::sample`: draws one token id from the
/// logits with the processor's own random source and temperature, an index
/// into the logits. Empty logits make it panic, and so do logits of another
/// rank than 1 under a temperature and NaN logits under top-p.
#[verifier::external_body]
pub(crate) fn sample_token(
    sampler: &mut LogitsProcessor,
    logits: &Tensor,
) -> (r: Result<u32, candle_core::Error>)
    requires
        elem_count_of(*logits) > 0,
        rank_of(*logits) == 1,
        nucleus_free(*old(sampler)),
    ensures
        nucleus_free(*final(sampler)),
        r matches Ok(id) ==> (id as nat) < elem_count_of(*logits),
{
    sampler.sample(logits)
}

/// The token ids that a tokenizer encodes a text into, special tokens added,
/// or `None` where it fails.
pub uninterp spec fn token_ids(tokenizer: Tokenizer, text: Seq<char>) -> Option<Seq<u32>>;

/// The text that a tokenizer decodes ids into, special tokens skipped, or
/// `None` where it fails.
pub uninterp spec fn decoded_text(tokenizer: Tokenizer, ids: Seq<u32>) -> Option<Seq<char>>;

/// The truncation length and stride a tokenizer was configured with, if any.
pub uninterp spec fn truncation_of(tokenizer: Tokenizer) -> Option<(usize, usize)>;

/// The number of special tokens a tokenizer's post-processor adds to one sequence.
pub uninterp spec fn added_tokens_of(tokenizer: Tokenizer) -> nat;

/// Whether a tokenizer's model is a BPE with merge dropout, which draws
/// random numbers while encoding.
pub uninterp spec fn bpe_dropout_of(tokenizer: Tokenizer) -> bool;

/// Encoding neither panics nor draws random numbers: the truncation length
/// covers the added special tokens, the stride is shorter than what remains
/// of the length after them (which `Encoding::truncate` asserts), and the
/// model has no dropout.
pub open spec fn encodes_safely(tokenizer: Tokenizer) -> bool {
    &&& match truncation_of(tokenizer) {
        Some((m, stride)) => {
            &&& added_tokens_of(tokenizer) <= m
            &&& (m - added_tokens_of(tokenizer) == 0 || stride < m - added_tokens_of(tokenizer))
        },
        None => true,
    }
    &&& !bpe_dropout_of(tokenizer)
}

/// Relies on tokenizers' `Tokenizer::get_truncation`: its `max_length` and `stride`.
#[verifier::external_body]
pub(crate) fn truncation_params(tokenizer: &Tokenizer) -> (r: Option<(usize, usize)>)
    ensures
        r == truncation_of(*tokenizer),
{
    tokenizer.get_truncation().map(|t| (t.max_length, t.stride))
}

/// Relies on tokenizers' `Tokenizer::get_model`: whether it is a BPE whose
/// `dropout` is set.
#[verifier::external_body]
pub(crate) fn has_bpe_dropout(tokenizer: &Tokenizer) -> (r: bool)
    ensures
        r == bpe_dropout_of(*tokenizer),
{
    match tokenizer.get_model() {
        ModelWrapper::BPE(bpe) => bpe.dropout.is_some(),
        _ => false,
    }
}

/// Relies on tokenizers' `PostProcessor::added_tokens` of the tokenizer's
/// post-processor, for a single sequence; no post-processor adds none.
#[verifier::external_body]
pub(crate) fn added_special_tokens(tokenizer: &Tokenizer) -> (r: usize)
    ensures
        r == added_tokens_of(*tokenizer),
{
    tokenizer.get_post_processor().map_or(0, |p| p.added_tokens(false))
}

/// Relies on tokenizers' `Tokenizer::encode`, with special tokens added: the
/// token ids of `text`, or `None` where the tokenizer fails.
#[verifier::external_body]
pub(crate) fn encode_text(tokenizer: &Tokenizer, text: String) -> (r: Option<Vec<u32>>)
    requires
        encodes_safely(*tokenizer),
    ensures
        match r {
            Some(ids) => token_ids(*tokenizer, text@) == Some(ids@),
            None => token_ids(*tokenizer, text@) is None,
        },
{
    match tokenizer.encode(text, true) {
        Ok(encoding) => Some(encoding.get_ids().to_vec()),
        Err(_) => None,
    }
}

/// A tokenizer's decoder written as JSON by its `Serialize` impl: `None`
/// without a decoder, `Some(None)` where writing it fails.
pub uninterp spec fn decoder_json_of(tokenizer: Tokenizer) -> Option<Option<Seq<char>>>;

/// The key of a `Strip` decoder's stop count in JSON; no other decoder has it.
pub const STOP_KEY: &'static str = "\"stop\":";

/// Every stop count in the JSON text is 0. Inside a JSON string each quote is
/// escaped, so the key can only stand as a key.
pub open spec fn stops_zero(json: Seq<char>) -> bool {
    forall|i: int|
        0 <= i && i + STOP_KEY@.len() <= json.len() && #[trigger] json.subrange(i, i + STOP_KEY@.len())
            == STOP_KEY@ ==> {
            let j = i + STOP_KEY@.len();
            &&& j < json.len()
            &&& json[j] == '0'
            &&& (j + 1 == json.len() || !('0' <= json[j + 1] && json[j + 1] <= '9'))
        }
}

/// Decoding cannot panic: no decoder, or none that strips from the end.
pub open spec fn decodes_safely(tokenizer: Tokenizer) -> bool {
    match decoder_json_of(tokenizer) {
        None => true,
        Some(Some(json)) => stops_zero(json),
        Some(None) => false,
    }
}

/// Relies on tokenizers' `Tokenizer::get_decoder` and serde_json's
/// `to_string` of the decoder.
#[verifier::external_body]
pub(crate) fn decoder_json(tokenizer: &Tokenizer) -> (r: Option<Option<String>>)
    ensures
        match r {
            None => decoder_json_of(*tokenizer) is None,
            Some(None) => decoder_json_of(*tokenizer) == Some(None::<Seq<char>>),
            Some(Some(json)) => decoder_json_of(*tokenizer) == Some(Some(json@)),
        },
{
    tokenizer.get_decoder().map(|d| serde_json::to_string(d).ok())
}

/// Relies on tokenizers' `Tokenizer::decode`, with special tokens skipped: the
/// text of `ids`, or `None` where the tokenizer fails. A `Strip` decoder with
/// a stop count panics on a text shorter than that count, so none may stand
/// in the decoder.
#[verifier::external_body]
pub(crate) fn decode_tokens(tokenizer: &Tokenizer, ids: &[u32]) -> (r: Option<String>)
    requires
        decodes_safely(*tokenizer),
    ensures
        match r {
            Some(text) => decoded_text(*tokenizer, ids@) == Some(text@),
            None => decoded_text(*tokenizer, ids@) is None,
        },
{
    tokenizer.decode(ids, true).ok()
}

/// The name of a metric key.
pub uninterp spec fn key_name_of(key: Key) -> Seq<char>;

/// The labels of a metric key, in order.
pub uninterp spec fn key_labels_of(key: Key) -> Seq<Label>;

/// The text of a metric key name.
pub uninterp spec fn key_name_text(name: KeyName) -> Seq<char>;

/// Relies on metrics' `Key::name`: the key's name.
#[verifier::external_body]
pub(crate) fn key_name(key: &Key) -> (r: &str)
    ensures
        r@ == key_name_of(*key),
{
    key.name()
}

/// Relies on metrics' `Key::from_parts`: a key named `name` that carries the
/// labels of `key`, which `Key::labels` lists.
#[verifier::external_body]
pub(crate) fn renamed_key(key: &Key, name: String) -> (r: Key)
    ensures
        key_name_of(r) == name@,
        key_labels_of(r) == key_labels_of(*key),
{
    Key::from_parts(name, key.labels())
}

/// Relies on metrics' `KeyName::as_str`: the name as text.
#[verifier::external_body]
pub(crate) fn key_name_str(name: &KeyName) -> (r: &str)
    ensures
        r@ == key_name_text(*name),
{
    name.as_str()
}

/// Relies on metrics' `From<String>` for `KeyName`: a key name holding `name`.
#[verifier::external_body]
pub(crate) fn key_name_from(name: String) -> (r: KeyName)
    ensures
        key_name_text(r) == name@,
{
    KeyName::from(name)
}

} // verus!
