//! The bookkeeping of text generation: how many tokens the context holds,
//! when to stop, and the text produced so far. The model itself is driven
//! by the caller, which asks this state what to do next.

use vstd::prelude::*;
use vstd::utf8::{decode_utf8, valid_utf8};

verus! {

broadcast use vstd::string::group_string_axioms;

/// The text that a fresh `encoding_rs` UTF-8 decoder (with BOM sniffing)
/// makes of one token's bytes in a single non-final call.
pub uninterp spec fn token_text(bytes: Seq<u8>) -> Seq<char>;

/// Decodes one token's bytes with a fresh `encoding_rs::UTF_8` decoder, given
/// room for the worst case, in one call of `Decoder::decode_to_string` that is
/// not marked last.
///
/// Trusted: the result is `token_text` of the bytes, and for well-formed
/// UTF-8 that does not open with a byte order mark, and is short enough for
/// the worst-case room to be counted in a `usize`, it is the decoded text.
/// Malformed input (replaced by U+FFFD), a leading byte order mark (sniffed
/// and removed) and an unfinished last sequence (held back) are left to the
/// name.
#[verifier::external_body]
fn decode_token(bytes: &[u8]) -> (r: String)
    ensures
        r@ == token_text(bytes@),
        bytes@.len() * 3 + 3 <= usize::MAX && valid_utf8(bytes@) && !(bytes@.len() >= 3 && bytes@[0] == 0xEF && bytes@[1] == 0xBB
            && bytes@[2] == 0xBF) ==> r@ == decode_utf8(bytes@),
{
    let mut decoder = encoding_rs::UTF_8.new_decoder();
    let mut text = String::with_capacity(decoder.max_utf8_buffer_length(bytes.len()).unwrap_or(0));
    let _ = decoder.decode_to_string(bytes, &mut text, false);
    text
}

/// What the model produced at one step.
#[derive(Clone, Debug)]
pub enum TokenEvent {
    /// The end-of-generation token.
    EndOfGeneration,
    /// A token, as the bytes of its text.
    Piece(Vec<u8>),
}

/// The state of one generation.
pub struct Generation {
    position: usize,
    max_tokens: usize,
    finished: bool,
    text: String,
}

impl Generation {
    /// How many tokens the context holds: the prompt's and those accepted since.
    pub closed spec fn position(&self) -> nat {
        self.position as nat
    }

    /// The number of tokens the context may hold.
    pub closed spec fn limit(&self) -> nat {
        self.max_tokens as nat
    }

    /// Whether the end-of-generation token has come.
    pub closed spec fn finished(&self) -> bool {
        self.finished
    }

    /// The text of the tokens accepted so far.
    pub closed spec fn text(&self) -> Seq<char> {
        self.text@
    }

    /// Whether another token is wanted: generation has not finished and the
    /// context is not full.
    pub open spec fn wants(&self) -> bool {
        !self.finished() && self.position() < self.limit()
    }

    /// A generation after a prompt of `prompt_tokens` tokens, which may fill
    /// the context up to `max_tokens` tokens.
    pub fn new(prompt_tokens: usize, max_tokens: usize) -> (g: Self)
        ensures
            g.position() == prompt_tokens,
            g.limit() == max_tokens,
            !g.finished(),
            g.text() == Seq::<char>::empty(),
    {
        Generation { position: prompt_tokens, max_tokens, finished: false, text: String::new() }
    }

    /// Whether another token is wanted.
    pub fn wants_token(&self) -> (b: bool)
        ensures
            b == self.wants(),
    {
        !self.finished && self.position < self.max_tokens
    }

    /// The position at which the next accepted token goes.
    pub fn next_position(&self) -> (p: usize)
        ensures
            p == self.position(),
    {
        self.position
    }

    /// Takes in what the model produced: the end-of-generation token ends
    /// generation and adds nothing; any other token's bytes are decoded,
    /// their text appended, and the token takes the next position.
    pub fn accept(&mut self, event: TokenEvent)
        requires
            old(self).wants(),
        ensures
            final(self).limit() == old(self).limit(),
            match event {
                TokenEvent::EndOfGeneration => {
                    &&& final(self).finished()
                    &&& final(self).position() == old(self).position()
                    &&& final(self).text() == old(self).text()
                },
                TokenEvent::Piece(p) => {
                    &&& !final(self).finished()
                    &&& final(self).position() == old(self).position() + 1
                    &&& final(self).text() == old(self).text() + token_text(p@)
                },
            },
    {
        match event {
            TokenEvent::EndOfGeneration => {
                self.finished = true;
            },
            TokenEvent::Piece(p) => {
                let piece = decode_token(p.as_slice());
                self.text.append(piece.as_str());
                self.position = self.position + 1;
            },
        }
    }

    /// The text produced.
    pub fn into_text(self) -> (r: String)
        ensures
            r@ == self.text(),
    {
        self.text
    }
}

} // verus!
