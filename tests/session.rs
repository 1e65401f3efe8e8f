use llama_inference::decode::{generate_from_samples, DecodeSession};
use llama_inference::model::{ChatError, ChatMessage, ChatRole};
use llama_inference::template::{check_turns, prompt_frames, prompt_text};
use llama_inference::utils::{prefixed_name, Prefix, PrefixLayer};
use metrics::{Key, KeyName, Label};

const EOS_ID: u32 = 2;

fn msg(role: ChatRole, content: &str) -> ChatMessage {
    ChatMessage { role, content: content.to_string() }
}

#[test]
fn single_user_turn_prompt() {
    let chat = vec![msg(ChatRole::User, "Hi")];
    assert_eq!(prompt_text(&chat).unwrap(), "[INST] Hi [/INST] ");
}

#[test]
fn multi_turn_prompt() {
    let chat = vec![
        msg(ChatRole::User, "A"),
        msg(ChatRole::Assistant, "B"),
        msg(ChatRole::User, "C"),
    ];
    assert_eq!(prompt_text(&chat).unwrap(), "[INST] A [/INST] B [INST] C [/INST] ");
    let frames = prompt_frames(&chat).unwrap();
    assert_eq!(frames, vec!["[INST] A [/INST] B ".to_string(), "[INST] C [/INST] ".to_string()]);
}

#[test]
fn conversation_ending_with_reply() {
    let chat = vec![msg(ChatRole::User, "A"), msg(ChatRole::Assistant, "B")];
    assert_eq!(prompt_text(&chat).unwrap(), "[INST] A [/INST] B ");
}

#[test]
fn system_message_leads_first_user_turn() {
    let chat = vec![
        msg(ChatRole::System, "Be brief."),
        msg(ChatRole::User, "A"),
        msg(ChatRole::Assistant, "B"),
        msg(ChatRole::User, "C"),
    ];
    assert_eq!(
        prompt_text(&chat).unwrap(),
        "[INST] Be brief.A [/INST] B [INST] C [/INST] "
    );
}

#[test]
fn frames_split_back_into_turns() {
    let chat = vec![
        msg(ChatRole::User, "first question"),
        msg(ChatRole::Assistant, "an answer"),
        msg(ChatRole::User, "second"),
    ];
    let frames = prompt_frames(&chat).unwrap();
    let mut turns = Vec::new();
    for f in &frames {
        let rest = f.strip_prefix("[INST] ").unwrap();
        let (user, reply) = rest.split_once(" [/INST] ").unwrap();
        turns.push(user.to_string());
        if !reply.is_empty() {
            turns.push(reply.strip_suffix(" ").unwrap().to_string());
        }
    }
    assert_eq!(turns, vec!["first question", "an answer", "second"]);
}

#[test]
fn malformed_conversations_are_rejected() {
    let cases = vec![
        vec![],
        vec![msg(ChatRole::System, "S")],
        vec![msg(ChatRole::Assistant, "B")],
        vec![msg(ChatRole::User, "A"), msg(ChatRole::User, "B")],
        vec![msg(ChatRole::User, "A"), msg(ChatRole::System, "S")],
        vec![msg(ChatRole::System, "S"), msg(ChatRole::System, "T"), msg(ChatRole::User, "A")],
        vec![msg(ChatRole::User, "A"), msg(ChatRole::Assistant, "B"), msg(ChatRole::Assistant, "C")],
    ];
    for chat in cases {
        assert!(!check_turns(&chat));
        assert_eq!(prompt_text(&chat), Err(ChatError::MalformedConversation));
        assert!(matches!(prompt_frames(&chat), Err(ChatError::MalformedConversation)));
    }
}

#[test]
fn eos_first_gives_one_token() {
    for max_steps in [1usize, 2, 5, 10000] {
        let samples = vec![EOS_ID; 8];
        let out = generate_from_samples(vec![1, 10, 11], &samples, EOS_ID, max_steps, false);
        assert_eq!(out, vec![EOS_ID]);
        let out = generate_from_samples(vec![1, 10, 11], &samples, EOS_ID, max_steps, true);
        assert_eq!(out, vec![EOS_ID]);
    }
}

#[test]
fn stops_at_eos_before_step_limit() {
    let samples = vec![5, 6, EOS_ID, 7, 8];
    let out = generate_from_samples(vec![1], &samples, EOS_ID, 10, true);
    assert_eq!(out, vec![5, 6, EOS_ID]);
}

#[test]
fn step_limit_truncates() {
    let samples = vec![5, 6, 7, 8, EOS_ID];
    let out = generate_from_samples(vec![1], &samples, EOS_ID, 3, false);
    assert_eq!(out, vec![5, 6, 7]);
    let out = generate_from_samples(vec![1], &samples, EOS_ID, 0, false);
    assert!(out.is_empty());
}

#[test]
fn eos_on_last_step() {
    let samples = vec![5, 6, EOS_ID];
    let out = generate_from_samples(vec![1], &samples, EOS_ID, 3, true);
    assert_eq!(out, vec![5, 6, EOS_ID]);
}

#[test]
fn same_samples_same_output() {
    let prompt = vec![1, 20, 21, 22];
    let samples = vec![9, 8, 7, 6, 5, 4];
    let a = generate_from_samples(prompt.clone(), &samples, EOS_ID, 4, true);
    let b = generate_from_samples(prompt.clone(), &samples, EOS_ID, 4, true);
    let c = generate_from_samples(prompt, &samples, EOS_ID, 4, false);
    assert_eq!(a, b);
    assert_eq!(a, c);
    assert_eq!(a, vec![9, 8, 7, 6]);
}

#[test]
fn session_submits_full_then_newest_token() {
    let mut s = DecodeSession::new(vec![1, 2, 3], EOS_ID, 5, true);
    let (ctx, pos) = s.next_input();
    assert_eq!((ctx.to_vec(), pos), (vec![1, 2, 3], 0));
    s.absorb(7);
    let (ctx, pos) = s.next_input();
    assert_eq!((ctx.to_vec(), pos), (vec![7], 3));
    s.absorb(8);
    let (ctx, pos) = s.next_input();
    assert_eq!((ctx.to_vec(), pos), (vec![8], 4));
    assert!(!s.is_finished());
    s.absorb(EOS_ID);
    assert!(s.is_finished());
    assert_eq!(s.output(), &vec![7, 8, EOS_ID]);
}

#[test]
fn session_without_cache_resubmits_everything() {
    let mut s = DecodeSession::new(vec![1, 2], EOS_ID, 2, false);
    s.absorb(7);
    let (ctx, pos) = s.next_input();
    assert_eq!((ctx.to_vec(), pos), (vec![1, 2, 7], 0));
    s.absorb(8);
    assert!(s.is_finished());
    assert_eq!(s.into_output(), vec![7, 8]);
}

#[test]
fn metric_names_get_prefix() {
    assert_eq!(prefixed_name("requests"), "llama_inference_requests");
    assert_eq!(prefixed_name(""), "llama_inference_");
}

#[test]
fn prefix_layer_renames_keys_and_keeps_labels() {
    let prefix: Prefix<u8> = PrefixLayer.layer(3u8);
    assert_eq!(*prefix.inner(), 3u8);
    let key = Key::from_parts("tokens", vec![Label::new("route", "chat")]);
    let renamed = prefix.prefix_key(&key);
    assert_eq!(renamed.name(), "llama_inference_tokens");
    let labels: Vec<&Label> = renamed.labels().collect();
    assert_eq!(labels, vec![&Label::new("route", "chat")]);
    let name = prefix.prefix_key_name(KeyName::from("duration".to_string()));
    assert_eq!(name.as_str(), "llama_inference_duration");
}
