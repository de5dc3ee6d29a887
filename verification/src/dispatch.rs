use crate::error::{Error, ParseError};
use crate::label::{RelabelCommand, RelabelStep, SpecDelta, spec_parse_relabel};
use crate::note::{NoteCommand, NoteStep, SpecNote, spec_parse_note};
use crate::second::{SecondCommand, SecondStep, spec_parse_second};
use crate::token::{byte_offset_of, SpecStep, SpecToken, Tokenizer, token_step};
use vstd::prelude::*;

verus! {

/// A recognized directive, one variant per registered grammar.
#[derive(Debug, Clone, PartialEq, Eq)]
pub enum Command {
    Note(NoteCommand),
    Second(SecondCommand),
    Relabel(RelabelCommand),
}

/// The mathematical form of a command.
pub enum SpecCommand {
    Note(SpecNote),
    Second,
    Relabel(Seq<SpecDelta>),
}

impl View for Command {
    type V = SpecCommand;

    open spec fn view(&self) -> SpecCommand {
        match self {
            Command::Note(n) => SpecCommand::Note(n@),
            Command::Second(_) => SpecCommand::Second,
            Command::Relabel(r) => SpecCommand::Relabel(r@),
        }
    }
}

/// What dispatching a text yields: the first grammar, in registration
/// order (note, second, relabel), that does not decline decides the
/// outcome; if every grammar declines there is no command in the text.
/// A failure carries its kind and the character position it is anchored
/// at.
pub open spec fn spec_parse_command(s: Seq<char>) -> Result<
    Option<SpecCommand>,
    (ParseError, int),
> {
    match spec_parse_note(s, 0) {
        NoteStep::Cmd(c, _) => Ok(Some(SpecCommand::Note(c))),
        NoteStep::Fail(k, off) => Err((k, off)),
        NoteStep::Decline => match spec_parse_second(s, 0) {
            SecondStep::Cmd(_) => Ok(Some(SpecCommand::Second)),
            SecondStep::Fail(k, off) => Err((k, off)),
            SecondStep::Decline => match spec_parse_relabel(s, 0) {
                RelabelStep::Cmd(ds, _) => Ok(Some(SpecCommand::Relabel(ds))),
                RelabelStep::Fail(k, off) => Err((k, off)),
                RelabelStep::Decline => Ok(None),
            },
        },
    }
}

/// Try each registered grammar, in a fixed order, against the start of
/// `text`.  The first grammar that recognizes its keyword decides the
/// outcome; grammars that decline leave no trace.  If every grammar
/// declines the result is `Ok(None)`: most comments hold no command, and
/// that case is silent.
pub fn parse_command(text: &str) -> (r: Result<Option<Command>, Error>)
    ensures
        match spec_parse_command(text@) {
            Ok(None) => r == Ok::<Option<Command>, Error>(None),
            Ok(Some(sc)) => (r matches Ok(Some(cmd)) && cmd@ == sc),
            Err((k, off)) => (r matches Err(e) && e.kind == k && e.offset as int == byte_offset_of(
                text@,
                off,
            )),
        },
{
    let mut toks = Tokenizer::new(text);
    match NoteCommand::parse(&mut toks) {
        Err(e) => {
            return Err(e);
        },
        Ok(Some(n)) => {
            return Ok(Some(Command::Note(n)));
        },
        Ok(None) => {},
    }
    match SecondCommand::parse(&mut toks) {
        Err(e) => {
            return Err(e);
        },
        Ok(Some(sc)) => {
            return Ok(Some(Command::Second(sc)));
        },
        Ok(None) => {},
    }
    match RelabelCommand::parse(&mut toks) {
        Err(e) => {
            return Err(e);
        },
        Ok(Some(rc)) => {
            return Ok(Some(Command::Relabel(rc)));
        },
        Ok(None) => {},
    }
    Ok(None)
}

/// Non-command pass-through: a text whose leading token lexes cleanly and
/// is neither `note`, `second` nor `label` is no command at all — every
/// grammar declines and dispatch yields the silent empty result.  In
/// particular ordinary prose that contains none of the registered
/// keywords is passed through untouched.
pub proof fn lemma_non_command_pass_through(s: Seq<char>)
    requires
        !(token_step(s, 0) is Fail),
        token_step(s, 0) matches SpecStep::Tok(t, _) ==> match t {
            SpecToken::Word(w) => w != "note"@ && w != "second"@ && w != "label"@,
            SpecToken::Quote(_) => true,
        },
    ensures
        spec_parse_command(s) == Ok::<Option<SpecCommand>, (ParseError, int)>(None),
{
    assert(spec_parse_note(s, 0) is Decline);
    assert(spec_parse_second(s, 0) is Decline);
    assert(spec_parse_relabel(s, 0) is Decline);
}

} // verus!
