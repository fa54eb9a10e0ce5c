use crate::tokenizer::{bpe_decoder, bpe_special_decoder, TokenizerError};
use vstd::prelude::*;
use vstd::utf8::{encode_utf8, valid_utf8};

verus! {

/// The most tokens the decoder is asked for in one transcription.
pub const MAX_DECODE_STEPS: usize = 448;

/// The tokens of `tokens` below `end_of_text`, in order: the text tokens, without the
/// special ones.
pub open spec fn text_token_seq(tokens: Seq<u32>, end_of_text: u32) -> Seq<u32> {
    tokens.filter(|t: u32| t < end_of_text)
}

/// Keeps the tokens below `end_of_text`, in order.
pub fn text_tokens(tokens: &[u32], end_of_text: u32) -> (r: Vec<u32>)
    ensures
        r@ == text_token_seq(tokens@, end_of_text),
{
    let mut out: Vec<u32> = Vec::new();
    let mut i: usize = 0;
    while i < tokens.len()
        invariant
            i <= tokens@.len(),
            out@ == text_token_seq(tokens@.take(i as int), end_of_text),
        decreases tokens@.len() - i,
    {
        let t = tokens[i];
        proof {
            reveal_with_fuel(Seq::<_>::filter, 1);
            assert(tokens@.take(i + 1).drop_last() =~= tokens@.take(i as int));
        }
        if t < end_of_text {
            out.push(t);
        }
        i = i + 1;
    }
    assert(tokens@.take(i as int) =~= tokens@);
    out
}

/// The state of greedy decoding: the prompt followed by the tokens the model chose, until
/// it chose end of text or the step budget ran out.
pub struct GreedyDecoding {
    tokens: Vec<u32>,
    end_of_text: u32,
    steps: usize,
    finished: bool,
}

impl GreedyDecoding {
    /// The tokens so far, prompt first.
    pub closed spec fn token_seq(&self) -> Seq<u32> {
        self.tokens@
    }

    /// The end-of-text token.
    pub closed spec fn end_of_text_token(&self) -> u32 {
        self.end_of_text
    }

    /// How many tokens the model has been asked for.
    pub closed spec fn steps_taken(&self) -> nat {
        self.steps as nat
    }

    /// Whether the model has chosen end of text.
    pub closed spec fn has_finished(&self) -> bool {
        self.finished
    }

    /// The decoding's invariant: at most one token added per step, within the budget.
    pub closed spec fn wf(&self) -> bool {
        &&& self.steps <= MAX_DECODE_STEPS
        &&& 3 <= self.tokens@.len() <= 3 + self.steps
    }

    /// Starts decoding with the prompt: start of transcript, language, task.
    pub fn new(start_of_transcript: u32, language: u32, task: u32, end_of_text: u32) -> (d: Self)
        ensures
            d.wf(),
            d.token_seq() == seq![start_of_transcript, language, task],
            d.end_of_text_token() == end_of_text,
            d.steps_taken() == 0,
            !d.has_finished(),
    {
        let tokens = vec![start_of_transcript, language, task];
        GreedyDecoding { tokens, end_of_text, steps: 0, finished: false }
    }

    /// The tokens so far, prompt first.
    pub fn tokens(&self) -> (r: &Vec<u32>)
        ensures
            r@ == self.token_seq(),
    {
        &self.tokens
    }

    /// Whether the model should be asked for another token: it has not chosen end of
    /// text and fewer than [`MAX_DECODE_STEPS`] tokens were asked for.
    pub fn wants_next(&self) -> (r: bool)
        ensures
            r == (!self.has_finished() && self.steps_taken() < MAX_DECODE_STEPS),
    {
        !self.finished && self.steps < MAX_DECODE_STEPS
    }

    /// Takes the token the model chose: end of text finishes decoding, any other token
    /// is appended.
    pub fn accept(&mut self, next: u32)
        requires
            old(self).wf(),
            !old(self).has_finished(),
            old(self).steps_taken() < MAX_DECODE_STEPS,
        ensures
            final(self).wf(),
            final(self).steps_taken() == old(self).steps_taken() + 1,
            final(self).end_of_text_token() == old(self).end_of_text_token(),
            next == old(self).end_of_text_token() ==> final(self).has_finished() && final(self).token_seq()
                == old(self).token_seq(),
            next != old(self).end_of_text_token() ==> !final(self).has_finished()
                && final(self).token_seq() == old(self).token_seq().push(next),
            old(self).token_seq().is_prefix_of(final(self).token_seq()),
    {
        self.steps = self.steps + 1;
        if next == self.end_of_text {
            self.finished = true;
            assert(self.tokens@.is_prefix_of(self.tokens@));
        } else {
            self.tokens.push(next);
            assert(old(self).tokens@.is_prefix_of(self.tokens@));
        }
    }

    /// The text tokens decoded so far: those below end of text.
    pub fn text_tokens(&self) -> (r: Vec<u32>)
        ensures
            r@ == text_token_seq(self.token_seq(), self.end_of_text_token()),
    {
        text_tokens(self.tokens.as_slice(), self.end_of_text)
    }
}

/// Decoding always keeps the prompt at the head of the tokens and adds at most one token
/// per step.
pub proof fn lemma_decoding_bounds(d: GreedyDecoding)
    requires
        d.wf(),
    ensures
        3 <= d.token_seq().len() <= 3 + d.steps_taken(),
        d.steps_taken() <= MAX_DECODE_STEPS,
{
}

/// The text tokens never include a token at or above end of text.
pub proof fn lemma_text_tokens_below(tokens: Seq<u32>, end_of_text: u32)
    ensures
        forall|i: int|
            0 <= i < text_token_seq(tokens, end_of_text).len() ==> #[trigger] text_token_seq(
                tokens,
                end_of_text,
            )[i] < end_of_text,
        text_token_seq(tokens, end_of_text).len() <= tokens.len(),
{
    let f = |t: u32| t < end_of_text;
    assert forall|i: int| 0 <= i < tokens.filter(f).len() implies f(#[trigger] tokens.filter(f)[i]) by {
        tokens.lemma_filter_pred(f, i);
    }
    tokens.lemma_filter_len(f);
}

/// The bytes of token `t`: from the ordinary `decoder` table first, else from the
/// `specials` table; `None` where neither has it.
pub open spec fn token_bytes(decoder: Map<u32, Seq<u8>>, specials: Map<u32, Seq<u8>>, t: u32) -> Option<
    Seq<u8>,
> {
    if decoder.contains_key(t) {
        Some(decoder[t])
    } else if specials.contains_key(t) {
        Some(specials[t])
    } else {
        None
    }
}

/// The bytes of `tokens` one after another; `None` where some token has no bytes.
pub open spec fn decoded_bytes(decoder: Map<u32, Seq<u8>>, specials: Map<u32, Seq<u8>>, tokens: Seq<u32>) -> Option<
    Seq<u8>,
>
    decreases tokens.len(),
{
    if tokens.len() == 0 {
        Some(Seq::empty())
    } else {
        match (
            decoded_bytes(decoder, specials, tokens.drop_last()),
            token_bytes(decoder, specials, tokens.last()),
        ) {
            (Some(init), Some(last)) => Some(init + last),
            _ => None,
        }
    }
}

/// The bytes of `tokens`, where each token has bytes and together they are valid UTF-8.
pub open spec fn decoded_text_bytes(decoder: Map<u32, Seq<u8>>, specials: Map<u32, Seq<u8>>, tokens: Seq<u32>) -> Option<
    Seq<u8>,
> {
    match decoded_bytes(decoder, specials, tokens) {
        Some(b) => if valid_utf8(b) {
            Some(b)
        } else {
            None
        },
        None => None,
    }
}

/// Calls `tiktoken_rs::CoreBPE::decode`, which joins the bytes of the tokens (each
/// looked up in the ordinary table, else in the special one, failing on a token in
/// neither) and turns them into a `String`, failing where they are not valid UTF-8.
#[verifier::external_body]
fn bpe_decode(bpe: &tiktoken_rs::CoreBPE, tokens: &[u32]) -> (r: Result<String, anyhow::Error>)
    ensures
        match r {
            Ok(s) => decoded_text_bytes(bpe_decoder(*bpe), bpe_special_decoder(*bpe), tokens@)
                == Some(encode_utf8(s@)),
            Err(_) => decoded_text_bytes(bpe_decoder(*bpe), bpe_special_decoder(*bpe), tokens@) is None,
        },
{
    bpe.decode(tokens)
}

/// Decodes the text tokens of `tokens` (those below `end_of_text`) to a string: the
/// string whose UTF-8 bytes are the bytes of those tokens one after another. Fails
/// with `Decoding` where a text token is unknown to `bpe` or the bytes are not valid
/// UTF-8.
pub fn decode_text(bpe: &tiktoken_rs::CoreBPE, tokens: &[u32], end_of_text: u32) -> (r: Result<
    String,
    TokenizerError,
>)
    ensures
        match r {
            Ok(s) => decoded_text_bytes(
                bpe_decoder(*bpe),
                bpe_special_decoder(*bpe),
                text_token_seq(tokens@, end_of_text),
            ) == Some(encode_utf8(s@)),
            Err(e) => e is Decoding && decoded_text_bytes(
                bpe_decoder(*bpe),
                bpe_special_decoder(*bpe),
                text_token_seq(tokens@, end_of_text),
            ) is None,
        },
{
    let text = text_tokens(tokens, end_of_text);
    match bpe_decode(bpe, text.as_slice()) {
        Ok(s) => Ok(s),
        Err(e) => Err(TokenizerError::Decoding(e)),
    }
}

} // verus!
