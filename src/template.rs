//! Conversation to prompt templating in the instruction-frame format.
use vstd::prelude::*;
use vstd::string::*;

verus! {

/// Opens the instruction frame around a user turn.
pub const INST_OPEN: &'static str = "[INST] ";

/// Closes the instruction frame around a user turn.
pub const INST_CLOSE: &'static str = " [/INST] ";

/// Follows an assistant reply inside its frame.
pub const REPLY_END: &'static str = " ";

#[derive(PartialEq, Eq, Structural, Clone, Copy, Debug)]
pub enum ChatRole {
    System,
    User,
    Assistant,
}

pub struct ChatMessage {
    pub role: ChatRole,
    pub content: String,
}

/// Why a request could not be served.
#[derive(PartialEq, Eq, Structural, Clone, Copy, Debug)]
pub enum ChatError {
    /// The turns do not follow the system? (user assistant?)+ order.
    MalformedConversation,
    /// The model failed to produce logits or a token.
    BackendFailure,
    /// Text could not be encoded into tokens, or tokens decoded into text.
    TokenizationFailure,
}

/// Index of the first turn after an optional leading system message.
pub open spec fn body_start(msgs: Seq<ChatMessage>) -> int {
    if msgs.len() > 0 && msgs[0].role == ChatRole::System {
        1
    } else {
        0
    }
}

/// The role that the turn at offset `i` after the system message must have.
pub open spec fn expected_role(i: int) -> ChatRole {
    if i % 2 == 0 {
        ChatRole::User
    } else {
        ChatRole::Assistant
    }
}

/// The turn invariant: after an optional leading system message, at least one
/// turn, alternating user and assistant and starting with user.
pub open spec fn well_formed(msgs: Seq<ChatMessage>) -> bool {
    let s = body_start(msgs);
    &&& msgs.len() > s
    &&& forall|i: int| s <= i < msgs.len() ==> #[trigger] msgs[i].role == expected_role(i - s)
}

/// Number of (user, assistant?) windows.
pub open spec fn window_count(msgs: Seq<ChatMessage>) -> int {
    (msgs.len() - body_start(msgs) + 1) / 2
}

/// User text of window `k`; the system message, if any, leads the first one.
pub open spec fn window_user(msgs: Seq<ChatMessage>, k: int) -> Seq<char> {
    let u = msgs[body_start(msgs) + 2 * k].content@;
    if k == 0 && body_start(msgs) == 1 {
        msgs[0].content@ + u
    } else {
        u
    }
}

/// Assistant reply of window `k`, when the window has one.
pub open spec fn window_reply(msgs: Seq<ChatMessage>, k: int) -> Option<Seq<char>> {
    let j = body_start(msgs) + 2 * k + 1;
    if j < msgs.len() {
        Some(msgs[j].content@)
    } else {
        None
    }
}

/// The text of one instruction frame.
pub open spec fn frame(user: Seq<char>, reply: Option<Seq<char>>) -> Seq<char> {
    let head = INST_OPEN@ + user + INST_CLOSE@;
    match reply {
        Some(a) => head + a + REPLY_END@,
        None => head,
    }
}

/// The frames of a well-formed conversation, in order.
pub open spec fn frames(msgs: Seq<ChatMessage>) -> Seq<Seq<char>> {
    Seq::new(window_count(msgs) as nat, |k: int| frame(window_user(msgs, k), window_reply(msgs, k)))
}

/// The frames joined end to end.
pub open spec fn join(parts: Seq<Seq<char>>) -> Seq<char>
    decreases parts.len(),
{
    if parts.len() == 0 {
        Seq::empty()
    } else {
        join(parts.drop_last()) + parts.last()
    }
}

/// Splitting a frame at its markers gives back its turns: the opening marker,
/// then the user text, then the closing marker, then, when the window has a
/// reply, the reply and its end marker, and nothing more.
pub proof fn lemma_frame_split(user: Seq<char>, reply: Option<Seq<char>>)
    ensures
        ({
            let f = frame(user, reply);
            let o = INST_OPEN@.len() as int;
            let u = o + user.len();
            let c = u + INST_CLOSE@.len();
            &&& f.subrange(0, o) == INST_OPEN@
            &&& f.subrange(o, u) == user
            &&& f.subrange(u, c) == INST_CLOSE@
            &&& match reply {
                None => f.len() == c,
                Some(a) => {
                    &&& f.subrange(c, c + a.len()) == a
                    &&& f.subrange(c + a.len(), f.len() as int) == REPLY_END@
                },
            }
        }),
{
    let f = frame(user, reply);
    let o = INST_OPEN@.len() as int;
    let u = o + user.len();
    let c = u + INST_CLOSE@.len();
    let head = INST_OPEN@ + user + INST_CLOSE@;
    assert(head.subrange(0, o) =~= INST_OPEN@);
    assert(head.subrange(o, u) =~= user);
    assert(head.subrange(u, c) =~= INST_CLOSE@);
    match reply {
        None => {},
        Some(a) => {
            assert(f.subrange(0, o) =~= INST_OPEN@);
            assert(f.subrange(o, u) =~= user);
            assert(f.subrange(u, c) =~= INST_CLOSE@);
            assert(f.subrange(c, c + a.len()) =~= a);
            assert(f.subrange(c + a.len(), f.len() as int) =~= REPLY_END@);
        },
    }
}

/// Every turn of a well-formed conversation can be read back from its frame:
/// frame `k` holds, between its markers, the content of the `k`-th user turn
/// (after the system message, in the first frame), and
/// after the closing marker the content of the assistant turn that follows.
pub proof fn lemma_turns_recovered(msgs: Seq<ChatMessage>, k: int)
    requires
        well_formed(msgs),
        0 <= k < window_count(msgs),
    ensures
        ({
            let f = frames(msgs)[k];
            let s = body_start(msgs);
            let user = msgs[s + 2 * k].content@;
            let o = INST_OPEN@.len() as int;
            let lead = if k == 0 && s == 1 {
                msgs[0].content@.len()
            } else {
                0
            };
            let u = o + lead + user.len();
            let c = u + INST_CLOSE@.len();
            &&& msgs[s + 2 * k].role == ChatRole::User
            &&& f.subrange(0, o) == INST_OPEN@
            &&& (k == 0 && s == 1) ==> f.subrange(o, o + msgs[0].content@.len()) == msgs[0].content@
            &&& f.subrange(o + lead, u) == user
            &&& f.subrange(u, c) == INST_CLOSE@
            &&& s + 2 * k + 1 < msgs.len() ==> {
                &&& msgs[s + 2 * k + 1].role == ChatRole::Assistant
                &&& f.subrange(c, c + msgs[s + 2 * k + 1].content@.len()) == msgs[s + 2 * k + 1].content@
            }
            &&& s + 2 * k + 1 >= msgs.len() ==> f.len() == c
        }),
{
    let s = body_start(msgs);
    let wu = window_user(msgs, k);
    let o = INST_OPEN@.len() as int;
    lemma_frame_split(wu, window_reply(msgs, k));
    let f = frames(msgs)[k];
    assert(f == frame(wu, window_reply(msgs, k)));
    assert(msgs[s + 2 * k].role == expected_role(2 * k));
    if s + 2 * k + 1 < msgs.len() {
        assert(msgs[s + 2 * k + 1].role == expected_role(2 * k + 1));
    }
    let user = msgs[s + 2 * k].content@;
    if k == 0 && s == 1 {
        let sys = msgs[0].content@;
        let lead = sys.len() as int;
        assert(wu =~= sys + user);
        assert(f.subrange(o, o + wu.len()) == wu);
        assert(f.subrange(o, o + sys.len()) =~= wu.subrange(0, sys.len() as int));
        assert(wu.subrange(0, sys.len() as int) =~= sys);
        assert(f.subrange(o + lead, o + wu.len()) =~= wu.subrange(lead, wu.len() as int));
        assert(wu.subrange(lead, wu.len() as int) =~= user);
    }
}

/// Checks the turn invariant.
pub fn check_turns(chat: &Vec<ChatMessage>) -> (r: bool)
    ensures
        r == well_formed(chat@),
{
    let n = chat.len();
    let start: usize = if n > 0 && chat[0].role == ChatRole::System {
        1
    } else {
        0
    };
    if n <= start {
        return false;
    }
    let mut i: usize = start;
    while i < n
        invariant
            start == body_start(chat@),
            start <= i <= n,
            n == chat@.len(),
            forall|j: int| start <= j < i ==> #[trigger] chat@[j].role == expected_role(j - start),
        decreases n - i,
    {
        let want = if (i - start) % 2 == 0 {
            ChatRole::User
        } else {
            ChatRole::Assistant
        };
        if chat[i].role != want {
            return false;
        }
        i = i + 1;
    }
    true
}

/// Builds the text of window `k` of a well-formed conversation.
fn build_frame(chat: &Vec<ChatMessage>, start: usize, k: usize) -> (r: String)
    requires
        well_formed(chat@),
        start == body_start(chat@),
        0 <= k < window_count(chat@),
    ensures
        r@ == frame(window_user(chat@, k as int), window_reply(chat@, k as int)),
{
    let n = chat.len();
    assert(2 * k + start < n);
    let u = start + 2 * k;
    let mut s = String::from_str(INST_OPEN);
    if k == 0 && start == 1 {
        s.append(chat[0].content.as_str());
    }
    s.append(chat[u].content.as_str());
    s.append(INST_CLOSE);
    if u < n - 1 {
        s.append(chat[u + 1].content.as_str());
        s.append(REPLY_END);
    }
    proof {
        let ghost m = chat@;
        if k == 0 && start == 1 {
            assert(s@ =~= INST_OPEN@ + (m[0].content@ + m[u as int].content@)
                + INST_CLOSE@ + (if u + 1 < m.len() { m[u + 1].content@ + REPLY_END@ } else { Seq::empty() }));
        }
    }
    s
}

/// Splits a conversation into its instruction frames, one per
/// (user, assistant?) window, in order.
pub fn prompt_frames(chat: &Vec<ChatMessage>) -> (r: Result<Vec<String>, ChatError>)
    ensures
        match r {
            Ok(fs) => well_formed(chat@) && fs@.len() == window_count(chat@) && forall|k: int|
                0 <= k < fs@.len() ==> #[trigger] fs@[k]@ == frames(chat@)[k],
            Err(e) => !well_formed(chat@) && e == ChatError::MalformedConversation,
        },
{
    if !check_turns(chat) {
        return Err(ChatError::MalformedConversation);
    }
    let start: usize = if chat[0].role == ChatRole::System {
        1
    } else {
        0
    };
    let rest = chat.len() - start;
    let count = rest / 2 + rest % 2;
    let mut fs: Vec<String> = Vec::new();
    let mut k: usize = 0;
    while k < count
        invariant
            well_formed(chat@),
            start == body_start(chat@),
            count == window_count(chat@),
            k <= count,
            fs@.len() == k,
            forall|j: int| 0 <= j < k ==> #[trigger] fs@[j]@ == frames(chat@)[j],
        decreases count - k,
    {
        let f = build_frame(chat, start, k);
        fs.push(f);
        k = k + 1;
    }
    Ok(fs)
}

/// The prompt text of a conversation, before tokenization: its frames joined.
pub fn prompt_text(chat: &Vec<ChatMessage>) -> (r: Result<String, ChatError>)
    ensures
        match r {
            Ok(t) => well_formed(chat@) && t@ == join(frames(chat@)),
            Err(e) => !well_formed(chat@) && e == ChatError::MalformedConversation,
        },
{
    let fs = prompt_frames(chat)?;
    let mut t = String::new();
    let mut k: usize = 0;
    while k < fs.len()
        invariant
            k <= fs@.len(),
            fs@.len() == frames(chat@).len(),
            forall|j: int| 0 <= j < fs@.len() ==> #[trigger] fs@[j]@ == frames(chat@)[j],
            t@ == join(frames(chat@).subrange(0, k as int)),
        decreases fs@.len() - k,
    {
        proof {
            let ghost p = frames(chat@).subrange(0, k + 1);
            assert(p.drop_last() =~= frames(chat@).subrange(0, k as int));
        }
        t.append(fs[k].as_str());
        k = k + 1;
    }
    proof {
        assert(frames(chat@).subrange(0, k as int) =~= frames(chat@));
    }
    Ok(t)
}

} // verus!
