use crate::error::{Error, ParseError};
use crate::token::{byte_offset_of, str_eq, SpecStep, SpecToken, Token, Tokenizer, token_step};
use vstd::prelude::*;

verus! {

/// A parsed second directive: the caller seconds the proposal under
/// discussion.  The command carries no data.
#[derive(Debug, Clone, Copy, PartialEq, Eq, Structural)]
pub struct SecondCommand;

/// The outcome of a second-command attempt: decline, the command together
/// with the cursor position just past its keyword, or a lexical failure
/// anchored at a character position.
pub enum SecondStep {
    Decline,
    Cmd(int),
    Fail(ParseError, int),
}

/// A second-command attempt at `pos`: the bare word `second` is the whole
/// command; anything else declines, and a lexical failure on the first
/// token is passed through.
pub open spec fn spec_parse_second(s: Seq<char>, pos: int) -> SecondStep {
    match token_step(s, pos) {
        SpecStep::End => SecondStep::Decline,
        SpecStep::Fail(off) => SecondStep::Fail(ParseError::UnterminatedQuote, off),
        SpecStep::Tok(t, p) => match t {
            SpecToken::Word(w) => if w == "second"@ {
                SecondStep::Cmd(p)
            } else {
                SecondStep::Decline
            },
            SpecToken::Quote(_) => SecondStep::Decline,
        },
    }
}

impl SecondCommand {
    /// Try to parse a second command at the cursor.  On success the
    /// advanced cursor is adopted into `input`; a declined or failed
    /// attempt leaves `input` exactly as it was.
    pub fn parse(input: &mut Tokenizer) -> (r: Result<Option<SecondCommand>, Error>)
        requires
            old(input).wf(),
        ensures
            final(input).wf(),
            final(input).text_view() == old(input).text_view(),
            match spec_parse_second(old(input).text_view(), old(input).cursor()) {
                SecondStep::Decline => r == Ok::<Option<SecondCommand>, Error>(None)
                    && *final(input) == *old(input),
                SecondStep::Cmd(p) => (r matches Ok(Some(_)) && final(input).cursor() == p),
                SecondStep::Fail(k, off) => (r matches Err(e) && e.kind == k && e.offset as int
                    == byte_offset_of(old(input).text_view(), off) && *final(input) == *old(input)),
            },
    {
        let first = match input.peek_token() {
            Err(e) => {
                return Err(e);
            },
            Ok(None) => {
                return Ok(None);
            },
            Ok(Some(tok)) => tok,
        };
        let kw = match first {
            Token::Quote(_) => {
                return Ok(None);
            },
            Token::Word(w) => w,
        };
        if !str_eq(kw.as_str(), "second") {
            return Ok(None);
        }
        let mut toks = input.clone();
        match toks.next_token() {
            Ok(_) => {},
            Err(_) => {
                return Ok(None);  // never reached: peek already succeeded
            },
        }
        *input = toks;
        Ok(Some(SecondCommand))
    }
}

} // verus!
