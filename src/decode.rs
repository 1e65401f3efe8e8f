//! The generation session: its state, one decode step, and the stop rule.
use vstd::prelude::*;
use vstd::slice::slice_subrange;

verus! {

/// The mathematical state of a generation session.
pub struct SessionState {
    /// The prompt followed by every token sampled so far.
    pub tokens: Seq<u32>,
    /// The tokens sampled so far.
    pub output: Seq<u32>,
    /// How many tokens the model's incremental cache has absorbed.
    pub cursor: nat,
    /// Number of decode steps allowed.
    pub max_steps: nat,
    /// The end-of-sequence token.
    pub eos: u32,
    /// Whether steps after the first submit only the newest token.
    pub use_cache: bool,
}

/// A session has stopped once it sampled the end-of-sequence token or used
/// up its steps.
pub open spec fn stopped(output: Seq<u32>, eos: u32, max_steps: nat) -> bool {
    output.len() >= max_steps || (output.len() > 0 && output.last() == eos)
}

/// What a finished decode returns, whatever the model sampled: at most
/// `max_steps` tokens, no end-of-sequence token but possibly the last, and
/// fewer than `max_steps` tokens only when the last one is end-of-sequence.
pub open spec fn complete_output(output: Seq<u32>, eos: u32, max_steps: nat) -> bool {
    &&& output.len() <= max_steps
    &&& forall|i: int| 0 <= i < output.len() - 1 ==> #[trigger] output[i] != eos
    &&& stopped(output, eos, max_steps)
}

impl SessionState {
    /// Length of the prompt the session started from.
    pub open spec fn prompt_len(self) -> int {
        self.tokens.len() - self.output.len()
    }

    pub open spec fn finished(self) -> bool {
        stopped(self.output, self.eos, self.max_steps)
    }

    /// Whether the next step submits the whole token buffer.
    pub open spec fn full_step(self) -> bool {
        !self.use_cache || self.output.len() == 0
    }

    /// First index of the tokens submitted by the next step.
    pub open spec fn input_start(self) -> int {
        if self.full_step() {
            0
        } else {
            self.tokens.len() - 1
        }
    }

    /// Cache position handed to the model with the next step's input.
    pub open spec fn input_pos(self) -> nat {
        if self.full_step() {
            0
        } else {
            self.cursor
        }
    }

    /// The state after the model sampled `t` from the next step's input.
    pub open spec fn advance(self, t: u32) -> SessionState {
        SessionState {
            tokens: self.tokens.push(t),
            output: self.output.push(t),
            cursor: if self.full_step() {
                self.tokens.len()
            } else {
                self.cursor + 1
            },
            ..self
        }
    }

    pub open spec fn inv(self) -> bool {
        &&& self.output.len() <= self.tokens.len()
        &&& self.output =~= self.tokens.subrange(self.prompt_len(), self.tokens.len() as int)
        &&& self.output.len() <= self.max_steps
        &&& forall|i: int| 0 <= i < self.output.len() - 1 ==> #[trigger] self.output[i] != self.eos
        &&& self.output.len() > 0 ==> self.cursor == self.tokens.len() - 1
        &&& self.output.len() == 0 ==> self.cursor == 0
    }
}

/// The output of a session whose `k`-th step samples `samples[k]`: the samples
/// up to and including the first end-of-sequence token, at most `max_steps`.
pub open spec fn outcome(samples: Seq<u32>, eos: u32, max_steps: nat) -> Seq<u32>
    decreases samples.len(),
{
    if samples.len() == 0 || max_steps == 0 {
        Seq::empty()
    } else if samples[0] == eos {
        seq![eos]
    } else {
        seq![samples[0]].add(outcome(samples.drop_first(), eos, (max_steps - 1) as nat))
    }
}

/// The first `k` samples are the outcome when none of them but the last is
/// end-of-sequence and the session stops after them.
pub proof fn lemma_outcome_is_prefix(samples: Seq<u32>, k: int, eos: u32, max_steps: nat)
    requires
        0 <= k <= samples.len(),
        k <= max_steps,
        forall|i: int| 0 <= i < k - 1 ==> #[trigger] samples[i] != eos,
        k == samples.len() || stopped(samples.subrange(0, k), eos, max_steps),
    ensures
        outcome(samples, eos, max_steps) =~= samples.subrange(0, k),
    decreases samples.len(),
{
    if samples.len() == 0 || max_steps == 0 {
    } else if samples[0] == eos {
        if k > 1 {
            assert(samples[0] != eos);
        }
        if k == 0 {
            assert(samples.subrange(0, 0).len() == 0);
        }
    } else {
        let rest = samples.drop_first();
        if k == 0 {
            assert(samples.subrange(0, 0).len() == 0);
        } else {
            assert forall|i: int| 0 <= i < k - 2 implies #[trigger] rest[i] != eos by {
                assert(rest[i] == samples[i + 1]);
            }
            if k != samples.len() {
                let p = samples.subrange(0, k);
                let q = rest.subrange(0, k - 1);
                assert(q =~= p.drop_first());
                if p.len() > 0 && p.last() == eos {
                    assert(q.last() == p.last());
                }
            }
            lemma_outcome_is_prefix(rest, k - 1, eos, (max_steps - 1) as nat);
            assert(samples.subrange(0, k) =~= seq![samples[0]].add(rest.subrange(0, k - 1)));
        }
    }
}

/// The stop rule. With a sample for every step, a session returns at most
/// `max_steps` tokens, none of them end-of-sequence but possibly the last, and
/// it stops strictly before `max_steps` exactly when one of its first
/// `max_steps - 1` samples is end-of-sequence.
pub proof fn lemma_stop_rule(samples: Seq<u32>, eos: u32, max_steps: nat)
    requires
        samples.len() >= max_steps,
    ensures
        complete_output(outcome(samples, eos, max_steps), eos, max_steps),
        outcome(samples, eos, max_steps).len() < max_steps <==> exists|i: int|
            0 <= i < max_steps - 1 && #[trigger] samples[i] == eos,
    decreases samples.len(),
{
    let o = outcome(samples, eos, max_steps);
    if samples.len() == 0 || max_steps == 0 {
    } else if samples[0] == eos {
        if max_steps > 1 {
            assert(0 < max_steps - 1 && samples[0] == eos);
        }
    } else {
        let rest = samples.drop_first();
        let m = (max_steps - 1) as nat;
        lemma_stop_rule(rest, eos, m);
        let o2 = outcome(rest, eos, m);
        assert(o =~= seq![samples[0]].add(o2));
        assert forall|i: int| 0 <= i < o.len() - 1 implies #[trigger] o[i] != eos by {
            if i > 0 {
                assert(o[i] == o2[i - 1]);
            }
        }
        if o2.len() > 0 {
            assert(o.last() == o2.last());
        }
        if o.len() < max_steps {
            let j = choose|j: int| 0 <= j < m - 1 && #[trigger] rest[j] == eos;
            assert(samples[j + 1] == eos);
        }
        if exists|i: int| 0 <= i < max_steps - 1 && #[trigger] samples[i] == eos {
            let i = choose|i: int| 0 <= i < max_steps - 1 && #[trigger] samples[i] == eos;
            assert(i > 0);
            assert(rest[i - 1] == eos);
        }
    }
}

/// Determinism: a session's output depends on nothing but the samples of its
/// steps, so two runs whose steps sample the same tokens return the same
/// output, whatever was drawn beyond the last step.
pub proof fn lemma_deterministic(a: Seq<u32>, b: Seq<u32>, eos: u32, max_steps: nat)
    requires
        a.len() >= max_steps,
        b.len() >= max_steps,
        a.subrange(0, max_steps as int) == b.subrange(0, max_steps as int),
    ensures
        outcome(a, eos, max_steps) == outcome(b, eos, max_steps),
    decreases max_steps,
{
    if max_steps > 0 {
        assert(a[0] == a.subrange(0, max_steps as int)[0]);
        assert(b[0] == b.subrange(0, max_steps as int)[0]);
        let m = (max_steps - 1) as nat;
        assert(a.drop_first().subrange(0, m as int) =~= a.subrange(0, max_steps as int).drop_first());
        assert(b.drop_first().subrange(0, m as int) =~= b.subrange(0, max_steps as int).drop_first());
        lemma_deterministic(a.drop_first(), b.drop_first(), eos, m);
    }
}

/// Generation session state, owned by one decode run.
pub struct DecodeSession {
    tokens: Vec<u32>,
    output: Vec<u32>,
    cursor: usize,
    max_steps: usize,
    eos_token_id: u32,
    use_cache: bool,
}

impl View for DecodeSession {
    type V = SessionState;

    closed spec fn view(&self) -> SessionState {
        SessionState {
            tokens: self.tokens@,
            output: self.output@,
            cursor: self.cursor as nat,
            max_steps: self.max_steps as nat,
            eos: self.eos_token_id,
            use_cache: self.use_cache,
        }
    }
}

impl DecodeSession {
    /// A fresh session over `prompt`.
    pub fn new(prompt: Vec<u32>, eos_token_id: u32, max_steps: usize, use_cache: bool) -> (r: Self)
        ensures
            r@.inv(),
            r@.tokens == prompt@,
            r@.output.len() == 0,
            r@.cursor == 0,
            r@.max_steps == max_steps,
            r@.eos == eos_token_id,
            r@.use_cache == use_cache,
    {
        let r = DecodeSession {
            tokens: prompt,
            output: Vec::new(),
            cursor: 0,
            max_steps,
            eos_token_id,
            use_cache,
        };
        proof {
            assert(r@.output =~= r@.tokens.subrange(r@.prompt_len(), r@.tokens.len() as int));
        }
        r
    }

    pub fn is_finished(&self) -> (r: bool)
        requires
            self@.inv(),
        ensures
            r == self@.finished(),
    {
        self.output.len() >= self.max_steps || (self.output.len() > 0 && self.output[self.output.len()
            - 1] == self.eos_token_id)
    }

    /// The tokens to submit to the model on the next step, with the cache
    /// position that goes with them.
    pub fn next_input(&self) -> (r: (&[u32], usize))
        requires
            self@.inv(),
        ensures
            r.0@ == self@.tokens.subrange(self@.input_start(), self@.tokens.len() as int),
            r.1 == self@.input_pos(),
    {
        let n = self.tokens.len();
        if !self.use_cache || self.output.len() == 0 {
            (slice_subrange(self.tokens.as_slice(), 0, n), 0)
        } else {
            (slice_subrange(self.tokens.as_slice(), n - 1, n), self.cursor)
        }
    }

    /// Records the token sampled from the last input.
    pub fn absorb(&mut self, t: u32)
        requires
            old(self)@.inv(),
            !old(self)@.finished(),
        ensures
            final(self)@ == old(self)@.advance(t),
            final(self)@.inv(),
    {
        let ghost s0 = self@;
        let n = self.tokens.len();
        if !self.use_cache || self.output.len() == 0 {
            self.cursor = n;
        } else {
            self.cursor = self.cursor + 1;
        }
        self.tokens.push(t);
        self.output.push(t);
        proof {
            let s = self@;
            assert(s.output =~= s.tokens.subrange(s.prompt_len(), s.tokens.len() as int));
            assert forall|i: int| 0 <= i < s.output.len() - 1 implies #[trigger] s.output[i] != s.eos by {
                assert(s.output[i] == s0.output[i]);
            }
            assert(s =~= s0.advance(t));
        }
    }

    pub fn output(&self) -> (r: &Vec<u32>)
        ensures
            r@ == self@.output,
    {
        &self.output
    }

    pub fn into_output(self) -> (r: Vec<u32>)
        ensures
            r@ == self@.output,
    {
        self.output
    }
}

/// Runs a session over `prompt` whose `k`-th step samples `samples[k]`, as a
/// model with fixed logits per step does under a fixed seed; it stops early
/// when the samples run out.
pub fn generate_from_samples(
    prompt: Vec<u32>,
    samples: &Vec<u32>,
    eos_token_id: u32,
    max_steps: usize,
    use_cache: bool,
) -> (r: Vec<u32>)
    ensures
        r@ == outcome(samples@, eos_token_id, max_steps as nat),
{
    let mut session = DecodeSession::new(prompt, eos_token_id, max_steps, use_cache);
    let mut k: usize = 0;
    while k < samples.len() && !session.is_finished()
        invariant
            session@.inv(),
            session@.eos == eos_token_id,
            session@.max_steps == max_steps,
            k <= samples@.len(),
            session@.output == samples@.subrange(0, k as int),
        decreases samples@.len() - k,
    {
        let _ = session.next_input();
        session.absorb(samples[k]);
        k = k + 1;
        assert(session@.output =~= samples@.subrange(0, k as int));
    }
    proof {
        let o = session@.output;
        assert forall|i: int| 0 <= i < k - 1 implies #[trigger] samples@[i] != eos_token_id by {
            assert(samples@[i] == o[i]);
        }
        lemma_outcome_is_prefix(samples@, k as int, eos_token_id, max_steps as nat);
    }
    session.into_output()
}

} // verus!
