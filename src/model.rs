//! The chat model: a conversation in, the assistant's reply out.
use vstd::prelude::*;
use candle_core::Device;
use candle_transformers::models::llama::Llama;
use tokenizers::Tokenizer;
use crate::decode::{complete_output, lemma_outcome_is_prefix, outcome, DecodeSession};
use crate::external::{
    added_special_tokens, decode_tokens, decoded_text, decoder_json, decodes_safely, elem_count,
    encode_text, encodes_safely, has_bpe_dropout, new_sampler, next_logits, sample_token,
    stops_zero, token_ids, truncation_params, STOP_KEY,
};
use vstd::string::*;
use crate::template::{frames, prompt_frames, well_formed};
pub use crate::template::{ChatError, ChatMessage, ChatRole};

verus! {

/// Most tokens one reply may hold.
pub const MAX_TOKENS: usize = 10000;

/// Sampling temperature, as decimal text.
pub const TEMPERATURE: &'static str = "0.7";

/// The ids of the frames, each encoded on its own, concatenated in order;
/// `None` where one of them does not encode.
pub open spec fn prompt_ids(tokenizer: Tokenizer, parts: Seq<Seq<char>>) -> Option<Seq<u32>>
    decreases parts.len(),
{
    if parts.len() == 0 {
        Some(Seq::empty())
    } else {
        match (prompt_ids(tokenizer, parts.drop_last()), token_ids(tokenizer, parts.last())) {
            (Some(a), Some(b)) => Some(a + b),
            _ => None,
        }
    }
}

/// The conversation is well formed and encodes into a non-empty prompt.
pub open spec fn prompt_ready(tokenizer: Tokenizer, msgs: Seq<ChatMessage>) -> bool {
    &&& well_formed(msgs)
    &&& encodes_safely(tokenizer)
    &&& prompt_ids(tokenizer, frames(msgs)) matches Some(ids) && ids.len() > 0
}

/// A prefix of the frames that does not encode leaves the whole prompt unencoded.
proof fn lemma_prompt_ids_none(tokenizer: Tokenizer, parts: Seq<Seq<char>>, k: int)
    requires
        0 <= k <= parts.len(),
        prompt_ids(tokenizer, parts.subrange(0, k)) is None,
    ensures
        prompt_ids(tokenizer, parts) is None,
    decreases parts.len() - k,
{
    if k < parts.len() {
        assert(parts.subrange(0, k + 1).drop_last() =~= parts.subrange(0, k));
        lemma_prompt_ids_none(tokenizer, parts, k + 1);
    } else {
        assert(parts.subrange(0, k) =~= parts);
    }
}

/// The prompt tokens of a conversation: each instruction frame encoded on
/// its own, in order, and concatenated. The tokenizer is read only, so this
/// needs no exclusive access to the model.
pub fn encode_prompt(tokenizer: &Tokenizer, chat: &Vec<ChatMessage>) -> (r: Result<Vec<u32>, ChatError>)
    ensures
        match r {
            Ok(ids) => {
                &&& well_formed(chat@)
                &&& encodes_safely(*tokenizer)
                &&& prompt_ids(*tokenizer, frames(chat@)) == Some(ids@)
                &&& ids@.len() > 0
            },
            Err(e) => if !well_formed(chat@) {
                e == ChatError::MalformedConversation
            } else {
                &&& e == ChatError::TokenizationFailure
                &&& !encodes_safely(*tokenizer) || match prompt_ids(*tokenizer, frames(chat@)) {
                    Some(ids) => ids.len() == 0,
                    None => true,
                }
            },
        },
{
    let fs = prompt_frames(chat)?;
    match truncation_params(tokenizer) {
        Some((m, stride)) => {
            let added = added_special_tokens(tokenizer);
            if added > m || (m - added != 0 && stride >= m - added) {
                return Err(ChatError::TokenizationFailure);
            }
        },
        None => {},
    }
    if has_bpe_dropout(tokenizer) {
        return Err(ChatError::TokenizationFailure);
    }
    let ghost parts = frames(chat@);
    let mut tokens: Vec<u32> = Vec::new();
    let mut k: usize = 0;
    while k < fs.len()
        invariant
            well_formed(chat@),
            encodes_safely(*tokenizer),
            k <= fs@.len(),
            fs@.len() == parts.len(),
            parts == frames(chat@),
            forall|j: int| 0 <= j < fs@.len() ==> #[trigger] fs@[j]@ == parts[j],
            prompt_ids(*tokenizer, parts.subrange(0, k as int)) == Some(tokens@),
        decreases fs@.len() - k,
    {
        proof {
            assert(parts.subrange(0, k + 1).drop_last() =~= parts.subrange(0, k as int));
        }
        match encode_text(tokenizer, fs[k].clone()) {
            Some(mut ids) => tokens.append(&mut ids),
            None => {
                proof {
                    lemma_prompt_ids_none(*tokenizer, parts, k + 1);
                }
                return Err(ChatError::TokenizationFailure);
            },
        }
        k = k + 1;
    }
    proof {
        assert(parts.subrange(0, k as int) =~= parts);
    }
    if tokens.len() == 0 {
        return Err(ChatError::TokenizationFailure);
    }
    Ok(tokens)
}

/// Whether the key of a stop count starts at `i` in `json`.
fn key_at(json: &str, n: usize, i: usize) -> (r: bool)
    requires
        n == json@.len(),
        i + STOP_KEY@.len() <= n,
    ensures
        r == (json@.subrange(i as int, i + STOP_KEY@.len()) == STOP_KEY@),
{
    proof {
        reveal_strlit("\"stop\":");
    }
    let key_len = STOP_KEY.unicode_len();
    let mut k: usize = 0;
    while k < key_len
        invariant
            key_len == STOP_KEY@.len(),
            n == json@.len(),
            i + key_len <= n,
            k <= key_len,
            forall|p: int| 0 <= p < k ==> json@[i + p] == STOP_KEY@[p],
        decreases key_len - k,
    {
        if json.get_char(i + k) != STOP_KEY.get_char(k) {
            assert(json@.subrange(i as int, i + key_len)[k as int] != STOP_KEY@[k as int]);
            return false;
        }
        k = k + 1;
    }
    assert(json@.subrange(i as int, i + key_len) =~= STOP_KEY@);
    true
}

/// Checks that every stop count in a decoder's JSON text is 0.
pub fn json_stops_zero(json: &str) -> (r: bool)
    ensures
        r == stops_zero(json@),
{
    proof {
        reveal_strlit("\"stop\":");
    }
    let n = json.unicode_len();
    let key_len = STOP_KEY.unicode_len();
    if n < key_len {
        return true;
    }
    let mut i: usize = 0;
    while i <= n - key_len
        invariant
            n == json@.len(),
            key_len == STOP_KEY@.len(),
            0 < key_len <= n,
            i <= n - key_len + 1,
            forall|p: int|
                0 <= p < i && #[trigger] json@.subrange(p, p + STOP_KEY@.len()) == STOP_KEY@ ==> {
                    let j = p + STOP_KEY@.len();
                    &&& j < json@.len()
                    &&& json@[j] == '0'
                    &&& (j + 1 == json@.len() || !('0' <= json@[j + 1] && json@[j + 1] <= '9'))
                },
        decreases n - key_len + 1 - i,
    {
        if key_at(json, n, i) {
            let j = i + key_len;
            if j >= n || json.get_char(j) != '0' {
                return false;
            }
            if j + 1 < n {
                let c = json.get_char(j + 1);
                if '0' <= c && c <= '9' {
                    return false;
                }
            }
        }
        i = i + 1;
    }
    true
}

/// The assistant message holding the text of `output`. A decoder that
/// strips from the end is refused, as decoding could panic on it.
pub fn decode_reply(tokenizer: &Tokenizer, output: &Vec<u32>) -> (r: Result<ChatMessage, ChatError>)
    ensures
        match r {
            Ok(m) => {
                &&& m.role == ChatRole::Assistant
                &&& decodes_safely(*tokenizer)
                &&& decoded_text(*tokenizer, output@) == Some(m.content@)
            },
            Err(e) => {
                &&& e == ChatError::TokenizationFailure
                &&& (!decodes_safely(*tokenizer) || decoded_text(*tokenizer, output@) is None)
            },
        },
{
    match decoder_json(tokenizer) {
        None => {},
        Some(None) => return Err(ChatError::TokenizationFailure),
        Some(Some(json)) => if !json_stops_zero(json.as_str()) {
            return Err(ChatError::TokenizationFailure);
        },
    }
    match decode_tokens(tokenizer, output.as_slice()) {
        Some(content) => Ok(ChatMessage { role: ChatRole::Assistant, content }),
        None => Err(ChatError::TokenizationFailure),
    }
}

/// A loaded model with its tokenizer. One session at a time may use it: the
/// caller serialises access, as the model's incremental cache belongs to one
/// token history.
pub struct ChatModel {
    llama: Llama,
    tokenizer: Tokenizer,
    device: Device,
    eos_token_id: u32,
    use_kv_cache: bool,
    cache_used: bool,
}

impl ChatModel {
    /// The end-of-sequence token of the model.
    pub closed spec fn eos(&self) -> u32 {
        self.eos_token_id
    }

    /// Whether the model was loaded with its incremental cache on.
    pub closed spec fn cached(&self) -> bool {
        self.use_kv_cache
    }

    /// Whether a session has already filled the model's cache.
    pub closed spec fn cache_dirty(&self) -> bool {
        self.cache_used
    }

    /// The model's tokenizer.
    pub closed spec fn tok(&self) -> Tokenizer {
        self.tokenizer
    }

    /// Wraps a loaded model. `use_kv_cache` must be what the model's cache was
    /// made with. The llama cache of candle cannot be emptied, so a model
    /// loaded with its cache on serves one session only; with it off, every
    /// step resubmits the whole history and sessions stay independent.
    pub fn new(llama: Llama, tokenizer: Tokenizer, device: Device, eos_token_id: u32, use_kv_cache: bool) -> (r: Self)
        ensures
            r.eos() == eos_token_id,
            r.cached() == use_kv_cache,
            !r.cache_dirty(),
            r.tok() == tokenizer,
    {
        ChatModel { llama, tokenizer, device, eos_token_id, use_kv_cache, cache_used: false }
    }

    pub fn eos_token_id(&self) -> (r: u32)
        ensures
            r == self.eos(),
    {
        self.eos_token_id
    }

    /// The decode loop: samples, with a sampler seeded by `seed`, up to
    /// `max_steps` tokens after `prompt`, stopping at the end-of-sequence
    /// token. With the cache on, each step after the first submits only the
    /// newest token, and a second session is refused: the cache still holds
    /// the first one's history.
    pub fn generate(&mut self, prompt: Vec<u32>, seed: u64, max_steps: usize) -> (r: Result<Vec<u32>, ChatError>)
        requires
            prompt@.len() > 0,
        ensures
            final(self).eos() == old(self).eos(),
            final(self).cached() == old(self).cached(),
            final(self).tok() == old(self).tok(),
            final(self).cache_dirty() == (old(self).cache_dirty() || old(self).cached()),
            old(self).cached() && old(self).cache_dirty() ==> r == Err::<Vec<u32>, ChatError>(ChatError::BackendFailure),
            !(old(self).cached() && old(self).cache_dirty()) && max_steps == 0 ==> (r matches Ok(o) && o@.len() == 0),
            match r {
                Ok(output) => {
                    &&& complete_output(output@, old(self).eos(), max_steps as nat)
                    &&& outcome(output@, old(self).eos(), max_steps as nat) == output@
                },
                Err(e) => e == ChatError::BackendFailure,
            },
    {
        if self.use_kv_cache && self.cache_used {
            return Err(ChatError::BackendFailure);
        }
        self.cache_used = self.cache_used || self.use_kv_cache;
        let mut sampler = new_sampler(seed, TEMPERATURE);
        let mut session = DecodeSession::new(prompt, self.eos_token_id, max_steps, self.use_kv_cache);
        while !session.is_finished()
            invariant
                session@.inv(),
                session@.eos == self.eos(),
                session@.max_steps == max_steps,
                session@.tokens.len() > 0,
                crate::external::nucleus_free(sampler),
                self.eos() == old(self).eos(),
                self.cached() == old(self).cached(),
                self.tok() == old(self).tok(),
                self.cache_dirty() == (old(self).cache_dirty() || old(self).cached()),
            decreases max_steps - session@.output.len(),
        {
            let (ctx, pos) = session.next_input();
            let logits = match next_logits(&self.llama, &self.device, ctx, pos) {
                Ok(l) => l,
                Err(_) => return Err(ChatError::BackendFailure),
            };
            if elem_count(&logits) == 0 {
                return Err(ChatError::BackendFailure);
            }
            let t = match sample_token(&mut sampler, &logits) {
                Ok(t) => t,
                Err(_) => return Err(ChatError::BackendFailure),
            };
            session.absorb(t);
        }
        let output = session.into_output();
        proof {
            lemma_outcome_is_prefix(output@, output@.len() as int, self.eos(), max_steps as nat);
            assert(output@.subrange(0, output@.len() as int) =~= output@);
        }
        Ok(output)
    }

    /// One session: templates and encodes the conversation, generates the
    /// reply with a sampler seeded by `seed` and decodes it into an assistant
    /// message.
    pub fn chat_completions(&mut self, chat: Vec<ChatMessage>, seed: u64) -> (r: Result<ChatMessage, ChatError>)
        ensures
            final(self).tok() == old(self).tok(),
            final(self).eos() == old(self).eos(),
            final(self).cached() == old(self).cached(),
            final(self).cache_dirty() == (old(self).cache_dirty() || (old(self).cached() && prompt_ready(
                old(self).tok(),
                chat@,
            ))),
            prompt_ready(old(self).tok(), chat@) && old(self).cached() && old(self).cache_dirty() ==> r
                == Err::<ChatMessage, ChatError>(ChatError::BackendFailure),
            !well_formed(chat@) ==> r == Err::<ChatMessage, ChatError>(ChatError::MalformedConversation),
            well_formed(chat@) && (!encodes_safely(old(self).tok())
                || prompt_ids(old(self).tok(), frames(chat@)) is None) ==> r == Err::<ChatMessage, ChatError>(
                ChatError::TokenizationFailure),
            match r {
                Ok(m) => {
                    &&& well_formed(chat@)
                    &&& m.role == ChatRole::Assistant
                    &&& exists|out: Seq<u32>| #[trigger]
                        complete_output(out, old(self).eos(), MAX_TOKENS as nat) && out.len() > 0
                            && decoded_text(old(self).tok(), out) == Some(m.content@)
                },
                Err(e) => e == ChatError::MalformedConversation ==> !well_formed(chat@),
            },
    {
        let prompt = encode_prompt(&self.tokenizer, &chat)?;
        let output = self.generate(prompt, seed, MAX_TOKENS)?;
        decode_reply(&self.tokenizer, &output)
    }
}

} // verus!
