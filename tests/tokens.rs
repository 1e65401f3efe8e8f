use std::collections::HashMap;

use llama_inference::model::{
    decode_reply, encode_prompt, json_stops_zero, ChatError, ChatMessage, ChatRole,
};
use tokenizers::decoders::fuse::Fuse;
use tokenizers::decoders::strip::Strip;
use tokenizers::models::bpe::BPE;
use tokenizers::TruncationParams;
use tokenizers::models::wordlevel::WordLevel;
use tokenizers::pre_tokenizers::whitespace::WhitespaceSplit;
use tokenizers::Tokenizer;

fn word_tokenizer() -> Tokenizer {
    let mut vocab = HashMap::new();
    for (word, id) in [("<unk>", 0u32), ("[INST]", 1), ("[/INST]", 2), ("hello", 3), ("world", 4)] {
        vocab.insert(word.to_string(), id);
    }
    let model = WordLevel::builder()
        .vocab(vocab)
        .unk_token("<unk>".to_string())
        .build()
        .unwrap();
    let mut tokenizer = Tokenizer::new(model);
    tokenizer.with_pre_tokenizer(WhitespaceSplit);
    tokenizer
}

fn msg(role: ChatRole, content: &str) -> ChatMessage {
    ChatMessage { role, content: content.to_string() }
}

#[test]
fn prompt_tokens_of_one_turn() {
    let tokenizer = word_tokenizer();
    let chat = vec![msg(ChatRole::User, "hello")];
    assert_eq!(encode_prompt(&tokenizer, &chat).unwrap(), vec![1, 3, 2]);
}

#[test]
fn prompt_tokens_concatenate_frames() {
    let tokenizer = word_tokenizer();
    let chat = vec![
        msg(ChatRole::User, "hello"),
        msg(ChatRole::Assistant, "world"),
        msg(ChatRole::User, "hello"),
    ];
    assert_eq!(encode_prompt(&tokenizer, &chat).unwrap(), vec![1, 3, 2, 4, 1, 3, 2]);
}

#[test]
fn prompt_tokens_of_malformed_conversation() {
    let tokenizer = word_tokenizer();
    let chat = vec![msg(ChatRole::Assistant, "world")];
    assert_eq!(encode_prompt(&tokenizer, &chat), Err(ChatError::MalformedConversation));
}

#[test]
fn reply_is_decoded_text() {
    let tokenizer = word_tokenizer();
    let reply = decode_reply(&tokenizer, &vec![3, 4]).unwrap();
    assert_eq!(reply.role, ChatRole::Assistant);
    assert_eq!(reply.content, "hello world");
}

#[test]
fn decode_round_trips_encoded_words() {
    let tokenizer = word_tokenizer();
    let ids = tokenizer.encode("hello world", true).unwrap().get_ids().to_vec();
    assert_eq!(decode_reply(&tokenizer, &ids).unwrap().content, "hello world");
}

#[test]
fn no_tokens_decode_to_empty_reply() {
    let tokenizer = word_tokenizer();
    let reply = decode_reply(&tokenizer, &vec![]).unwrap();
    assert_eq!(reply.role, ChatRole::Assistant);
    assert_eq!(reply.content, "");
}

#[test]
fn system_text_joins_first_user_turn() {
    let tokenizer = word_tokenizer();
    let chat = vec![msg(ChatRole::System, "hello "), msg(ChatRole::User, "world")];
    assert_eq!(encode_prompt(&tokenizer, &chat).unwrap(), vec![1, 3, 4, 2]);
}

#[test]
fn decoder_json_stop_counts() {
    assert!(json_stops_zero(r#"{"type":"Strip","content":" ","start":1,"stop":0}"#));
    assert!(!json_stops_zero(r#"{"type":"Strip","content":" ","start":0,"stop":2}"#));
    assert!(!json_stops_zero(r#"{"type":"Strip","content":" ","start":0,"stop":10}"#));
    assert!(json_stops_zero(r#"{"type":"Fuse"}"#));
    assert!(json_stops_zero(""));
}

#[test]
fn decoder_stripping_from_end_is_refused() {
    let mut tokenizer = word_tokenizer();
    tokenizer.with_decoder(Strip::new(' ', 0, 1));
    assert!(matches!(
        decode_reply(&tokenizer, &vec![3]),
        Err(ChatError::TokenizationFailure)
    ));
}

#[test]
fn decoder_stripping_only_from_start_is_used() {
    let mut tokenizer = word_tokenizer();
    tokenizer.with_decoder(Fuse::new());
    let reply = decode_reply(&tokenizer, &vec![3, 4]).unwrap();
    assert_eq!(reply.content, "helloworld");
    let mut tokenizer = word_tokenizer();
    tokenizer.with_decoder(Strip::new('h', 1, 0));
    let reply = decode_reply(&tokenizer, &vec![3]).unwrap();
    assert_eq!(reply.content, "ello");
}

#[test]
fn stride_as_long_as_truncation_is_refused() {
    let mut tokenizer = word_tokenizer();
    tokenizer
        .with_truncation(Some(TruncationParams { max_length: 2, stride: 2, ..Default::default() }))
        .unwrap();
    let chat = vec![msg(ChatRole::User, "hello")];
    assert_eq!(encode_prompt(&tokenizer, &chat), Err(ChatError::TokenizationFailure));
}

#[test]
fn shorter_stride_truncates() {
    let mut tokenizer = word_tokenizer();
    tokenizer
        .with_truncation(Some(TruncationParams { max_length: 2, stride: 1, ..Default::default() }))
        .unwrap();
    let chat = vec![msg(ChatRole::User, "hello")];
    assert_eq!(encode_prompt(&tokenizer, &chat).unwrap(), vec![1, 3]);
}

#[test]
fn bpe_dropout_is_refused() {
    let model = BPE::builder().dropout(0.5).build().unwrap();
    let tokenizer = Tokenizer::new(model);
    let chat = vec![msg(ChatRole::User, "hello")];
    assert_eq!(encode_prompt(&tokenizer, &chat), Err(ChatError::TokenizationFailure));
}
