use crate::error::{Error, ParseError};
use crate::token::{
    byte_offset_of, lemma_token_step_advances, str_eq, SpecStep, SpecToken, Token, Tokenizer,
    token_step,
};
use vstd::prelude::*;

verus! {

/// A parsed note directive: record a summary under a title, or remove the
/// note with that title.
#[derive(Debug, Clone, PartialEq, Eq)]
pub enum NoteCommand {
    Summary { title: String },
    Remove { title: String },
}

/// The mathematical form of a note command.
pub enum SpecNote {
    Summary(Seq<char>),
    Remove(Seq<char>),
}

impl View for NoteCommand {
    type V = SpecNote;

    open spec fn view(&self) -> SpecNote {
        match self {
            NoteCommand::Summary { title } => SpecNote::Summary(title@),
            NoteCommand::Remove { title } => SpecNote::Remove(title@),
        }
    }
}

/// The note command built from a title, under the remove flag.
pub open spec fn make_note(remove: bool, title: Seq<char>) -> SpecNote {
    if remove {
        SpecNote::Remove(title)
    } else {
        SpecNote::Summary(title)
    }
}

/// The outcome of one grammar attempt: the input is not this grammar's
/// (decline), a command together with the cursor position just past it, or
/// a failure with its kind and the character position it is anchored at.
pub enum NoteStep {
    Decline,
    Cmd(SpecNote, int),
    Fail(ParseError, int),
}

/// Scan the body of a note command, after its keyword: a bare word equal
/// to `remove` sets the remove flag and scanning continues (repeating it
/// has no further effect); any other word, or a quoted span, is the title
/// and ends the command.  Running out of tokens fails with a missing
/// title, anchored at the cursor; a lexical failure is passed through.
pub open spec fn note_scan(s: Seq<char>, pos: int, remove: bool) -> NoteStep
    decreases s.len() - pos,
        when 0 <= pos <= s.len()
{
    match token_step(s, pos) {
        SpecStep::End => NoteStep::Fail(ParseError::MissingTitle, pos),
        SpecStep::Fail(off) => NoteStep::Fail(ParseError::UnterminatedQuote, off),
        SpecStep::Tok(t, p) => if pos < p <= s.len() {
            match t {
                SpecToken::Word(w) => if w == "remove"@ {
                    note_scan(s, p, true)
                } else {
                    NoteStep::Cmd(make_note(remove, w), p)
                },
                SpecToken::Quote(q) => NoteStep::Cmd(make_note(remove, q), p),
            }
        } else {
            // never reached: a successful step advances the cursor
            NoteStep::Decline
        },
    }
}

/// A whole note-command attempt at `pos`: decline unless the first token
/// is the bare word `note`; otherwise scan the body.
pub open spec fn spec_parse_note(s: Seq<char>, pos: int) -> NoteStep {
    match token_step(s, pos) {
        SpecStep::End => NoteStep::Decline,
        SpecStep::Fail(off) => NoteStep::Fail(ParseError::UnterminatedQuote, off),
        SpecStep::Tok(t, p) => match t {
            SpecToken::Word(w) => if w == "note"@ {
                note_scan(s, p, false)
            } else {
                NoteStep::Decline
            },
            SpecToken::Quote(_) => NoteStep::Decline,
        },
    }
}

impl NoteCommand {
    /// Try to parse a note command at the cursor.  On success the advanced
    /// cursor is adopted into `input`; a declined or failed attempt leaves
    /// `input` exactly as it was.
    pub fn parse(input: &mut Tokenizer) -> (r: Result<Option<NoteCommand>, Error>)
        requires
            old(input).wf(),
        ensures
            final(input).wf(),
            final(input).text_view() == old(input).text_view(),
            match spec_parse_note(old(input).text_view(), old(input).cursor()) {
                NoteStep::Decline => r == Ok::<Option<NoteCommand>, Error>(None) && *final(input)
                    == *old(input),
                NoteStep::Cmd(c, p) => (r matches Ok(Some(cmd)) && cmd@ == c
                    && final(input).cursor() == p),
                NoteStep::Fail(k, off) => (r matches Err(e) && e.kind == k && e.offset as int
                    == byte_offset_of(old(input).text_view(), off) && *final(input) == *old(input)),
            },
    {
        let ghost s = old(input).text_view();
        let ghost pos0 = old(input).cursor();
        let first = match input.peek_token() {
            Err(e) => {
                return Err(e);
            },
            Ok(None) => {
                return Ok(None);
            },
            Ok(Some(tok)) => tok,
        };
        let kw = match first {
            Token::Quote(_) => {
                return Ok(None);
            },
            Token::Word(w) => w,
        };
        if !str_eq(kw.as_str(), "note") {
            return Ok(None);
        }
        let mut toks = input.clone();
        match toks.next_token() {
            Ok(_) => {},
            Err(_) => {
                return Ok(None);  // never reached: peek already succeeded
            },
        }
        proof {
            lemma_token_step_advances(s, pos0);
        }
        let ghost target = spec_parse_note(s, pos0);
        let mut remove = false;
        loop
            invariant
                toks.wf(),
                toks.text_view() == s,
                s == old(input).text_view(),
                *input == *old(input),
                input.wf(),
                note_scan(s, toks.cursor(), remove) == target,
                target == spec_parse_note(s, pos0),
                pos0 == old(input).cursor(),
            decreases s.len() - toks.cursor(),
        {
            let ghost cur = toks.cursor();
            proof {
                lemma_token_step_advances(s, cur);
            }
            match toks.next_token() {
                Err(e) => {
                    return Err(e);
                },
                Ok(None) => {
                    return Err(toks.error(ParseError::MissingTitle));
                },
                Ok(Some(Token::Word(w))) => {
                    if str_eq(w.as_str(), "remove") {
                        remove = true;
                    } else {
                        let cmd = if remove {
                            NoteCommand::Remove { title: w }
                        } else {
                            NoteCommand::Summary { title: w }
                        };
                        *input = toks;
                        return Ok(Some(cmd));
                    }
                },
                Ok(Some(Token::Quote(q))) => {
                    let cmd = if remove {
                        NoteCommand::Remove { title: q }
                    } else {
                        NoteCommand::Summary { title: q }
                    };
                    *input = toks;
                    return Ok(Some(cmd));
                },
            }
        }
    }
}

} // verus!
