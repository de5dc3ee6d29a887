use crate::error::{Error, ParseError};
use crate::token::{
    byte_offset_of, lemma_token_step_advances, str_eq, SpecStep, SpecToken, Token, Tokenizer,
    token_step,
};
use vstd::prelude::*;
use vstd::string::*;

verus! {

/// A label name.  Names compare exactly and case-sensitively; only the
/// access-control patterns match case-insensitively.
#[derive(Debug, Clone, PartialEq, Eq)]
pub struct Label {
    pub name: String,
}

impl View for Label {
    type V = Seq<char>;

    open spec fn view(&self) -> Seq<char> {
        self.name@
    }
}

impl DeepView for Label {
    type V = Seq<char>;

    open spec fn deep_view(&self) -> Seq<char> {
        self.name@
    }
}

/// One parsed directive: add a label or remove it.  Directives keep their
/// original occurrence order; the order is semantically significant to the
/// delta resolver.
#[derive(Debug, Clone, PartialEq, Eq)]
pub enum LabelDelta {
    Add(Label),
    Remove(Label),
}

/// The mathematical form of a directive.
pub enum SpecDelta {
    Add(Seq<char>),
    Remove(Seq<char>),
}

impl View for LabelDelta {
    type V = SpecDelta;

    open spec fn view(&self) -> SpecDelta {
        match self {
            LabelDelta::Add(l) => SpecDelta::Add(l@),
            LabelDelta::Remove(l) => SpecDelta::Remove(l@),
        }
    }
}

impl DeepView for LabelDelta {
    type V = SpecDelta;

    open spec fn deep_view(&self) -> SpecDelta {
        self.view()
    }
}

impl LabelDelta {
    /// The label this directive speaks of, whichever way it points.
    pub fn label(&self) -> (l: &Label)
        ensures
            l@ == spec_delta_label(self@),
    {
        match self {
            LabelDelta::Add(l) => l,
            LabelDelta::Remove(l) => l,
        }
    }
}

/// The label name inside a directive.
pub open spec fn spec_delta_label(d: SpecDelta) -> Seq<char> {
    match d {
        SpecDelta::Add(l) => l,
        SpecDelta::Remove(l) => l,
    }
}

/// A parsed relabel command: the ordered list of directives as written.
#[derive(Debug, Clone, PartialEq, Eq)]
pub struct RelabelCommand(pub Vec<LabelDelta>);

impl View for RelabelCommand {
    type V = Seq<SpecDelta>;

    open spec fn view(&self) -> Seq<SpecDelta> {
        self.0.deep_view()
    }
}

/// The directive denoted by a word token, if any: a `+` or `-` sign
/// followed by a non-empty label name.
pub open spec fn spec_delta_of_word(w: Seq<char>) -> Option<SpecDelta> {
    if w.len() >= 2 && w[0] == '+' {
        Some(SpecDelta::Add(w.skip(1)))
    } else if w.len() >= 2 && w[0] == '-' {
        Some(SpecDelta::Remove(w.skip(1)))
    } else {
        None
    }
}

/// The outcome of a relabel-command attempt: decline, the directive list
/// together with the cursor position just past it, or a failure with its
/// kind and the character position it is anchored at.
pub enum RelabelStep {
    Decline,
    Cmd(Seq<SpecDelta>, int),
    Fail(ParseError, int),
}

/// Scan the body of a relabel command, after its keyword: every following
/// word of the shape `+name` or `-name` appends a directive; the first
/// token of any other shape ends the list and is left unconsumed.  An
/// empty list fails, anchored at the cursor; a lexical failure is passed
/// through.
pub open spec fn relabel_scan(s: Seq<char>, pos: int, acc: Seq<SpecDelta>) -> RelabelStep
    decreases s.len() - pos,
        when 0 <= pos <= s.len()
{
    match token_step(s, pos) {
        SpecStep::Fail(off) => RelabelStep::Fail(ParseError::UnterminatedQuote, off),
        SpecStep::End => if acc.len() == 0 {
            RelabelStep::Fail(ParseError::MissingLabelDelta, pos)
        } else {
            RelabelStep::Cmd(acc, pos)
        },
        SpecStep::Tok(t, p) => if pos < p <= s.len() {
            match t {
                SpecToken::Word(w) => match spec_delta_of_word(w) {
                    Some(d) => relabel_scan(s, p, acc.push(d)),
                    None => if acc.len() == 0 {
                        RelabelStep::Fail(ParseError::MissingLabelDelta, pos)
                    } else {
                        RelabelStep::Cmd(acc, pos)
                    },
                },
                SpecToken::Quote(_) => if acc.len() == 0 {
                    RelabelStep::Fail(ParseError::MissingLabelDelta, pos)
                } else {
                    RelabelStep::Cmd(acc, pos)
                },
            }
        } else {
            // never reached: a successful step advances the cursor
            RelabelStep::Decline
        },
    }
}

/// A whole relabel-command attempt at `pos`: decline unless the first
/// token is the bare word `label`; otherwise scan the directive list.
pub open spec fn spec_parse_relabel(s: Seq<char>, pos: int) -> RelabelStep {
    match token_step(s, pos) {
        SpecStep::End => RelabelStep::Decline,
        SpecStep::Fail(off) => RelabelStep::Fail(ParseError::UnterminatedQuote, off),
        SpecStep::Tok(t, p) => match t {
            SpecToken::Word(w) => if w == "label"@ {
                relabel_scan(s, p, Seq::empty())
            } else {
                RelabelStep::Decline
            },
            SpecToken::Quote(_) => RelabelStep::Decline,
        },
    }
}

/// The directive denoted by one word, if it has the `+name` or `-name`
/// shape.
fn delta_of_word(w: &str) -> (r: Option<LabelDelta>)
    ensures
        match spec_delta_of_word(w@) {
            None => r is None,
            Some(d) => (r matches Some(ld) && ld@ == d),
        },
{
    let n = w.unicode_len();
    if n < 2 {
        return None;
    }
    let c0 = w.get_char(0);
    if c0 == '+' {
        let name = w.substring_char(1, n).to_owned();
        proof {
            assert(name@ =~= w@.skip(1));
        }
        Some(LabelDelta::Add(Label { name }))
    } else if c0 == '-' {
        let name = w.substring_char(1, n).to_owned();
        proof {
            assert(name@ =~= w@.skip(1));
        }
        Some(LabelDelta::Remove(Label { name }))
    } else {
        None
    }
}

impl RelabelCommand {
    /// Try to parse a relabel command at the cursor.  On success the
    /// advanced cursor is adopted into `input`; a declined or failed
    /// attempt leaves `input` exactly as it was.
    pub fn parse(input: &mut Tokenizer) -> (r: Result<Option<RelabelCommand>, Error>)
        requires
            old(input).wf(),
        ensures
            final(input).wf(),
            final(input).text_view() == old(input).text_view(),
            match spec_parse_relabel(old(input).text_view(), old(input).cursor()) {
                RelabelStep::Decline => r == Ok::<Option<RelabelCommand>, Error>(None)
                    && *final(input) == *old(input),
                RelabelStep::Cmd(ds, p) => (r matches Ok(Some(cmd)) && cmd@ == ds
                    && final(input).cursor() == p),
                RelabelStep::Fail(k, off) => (r matches Err(e) && e.kind == k && e.offset as int
                    == byte_offset_of(old(input).text_view(), off) && *final(input) == *old(input)),
            },
    {
        let ghost s = old(input).text_view();
        let ghost pos0 = old(input).cursor();
        let first = match input.peek_token() {
            Err(e) => {
                return Err(e);
            },
            Ok(None) => {
                return Ok(None);
            },
            Ok(Some(tok)) => tok,
        };
        let kw = match first {
            Token::Quote(_) => {
                return Ok(None);
            },
            Token::Word(w) => w,
        };
        if !str_eq(kw.as_str(), "label") {
            return Ok(None);
        }
        let mut toks = input.clone();
        match toks.next_token() {
            Ok(_) => {},
            Err(_) => {
                return Ok(None);  // never reached: peek already succeeded
            },
        }
        proof {
            lemma_token_step_advances(s, pos0);
        }
        let ghost target = spec_parse_relabel(s, pos0);
        let mut acc: Vec<LabelDelta> = Vec::new();
        proof {
            assert(acc.deep_view() =~= Seq::<SpecDelta>::empty());
        }
        loop
            invariant
                toks.wf(),
                toks.text_view() == s,
                s == old(input).text_view(),
                *input == *old(input),
                input.wf(),
                relabel_scan(s, toks.cursor(), acc.deep_view()) == target,
                target == spec_parse_relabel(s, pos0),
                pos0 == old(input).cursor(),
            decreases s.len() - toks.cursor(),
        {
            let ghost cur = toks.cursor();
            proof {
                lemma_token_step_advances(s, cur);
            }
            let tok = match toks.peek_token() {
                Err(e) => {
                    return Err(e);
                },
                Ok(None) => {
                    if acc.len() == 0 {
                        return Err(toks.error(ParseError::MissingLabelDelta));
                    }
                    *input = toks;
                    return Ok(Some(RelabelCommand(acc)));
                },
                Ok(Some(tok)) => tok,
            };
            let w = match tok {
                Token::Quote(_) => {
                    if acc.len() == 0 {
                        return Err(toks.error(ParseError::MissingLabelDelta));
                    }
                    *input = toks;
                    return Ok(Some(RelabelCommand(acc)));
                },
                Token::Word(w) => w,
            };
            match delta_of_word(w.as_str()) {
                None => {
                    if acc.len() == 0 {
                        return Err(toks.error(ParseError::MissingLabelDelta));
                    }
                    *input = toks;
                    return Ok(Some(RelabelCommand(acc)));
                },
                Some(ld) => {
                    let ghost old_acc = acc.deep_view();
                    match toks.next_token() {
                        Ok(_) => {},
                        Err(_) => {
                            return Ok(None);  // never reached: peek already succeeded
                        },
                    }
                    acc.push(ld);
                    proof {
                        assert(acc.deep_view() =~= old_acc.push(ld@));
                    }
                },
            }
        }
    }
}

} // verus!
