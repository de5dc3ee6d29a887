use triagebot::dispatch::{parse_command, Command};
use triagebot::error::ParseError;
use triagebot::label::{Label, LabelDelta, RelabelCommand};
use triagebot::note::NoteCommand;
use triagebot::second::SecondCommand;
use triagebot::token::{Token, Tokenizer};

fn collect_tokens(text: &str) -> Vec<Token> {
    let mut toks = Tokenizer::new(text);
    let mut out = Vec::new();
    while let Some(tok) = toks.next_token().unwrap() {
        out.push(tok);
    }
    out
}

#[test]
fn tokenize_words_and_quotes() {
    let tokens = collect_tokens("alpha  \"two words\"\tbeta");
    assert_eq!(
        tokens,
        vec![
            Token::Word("alpha".to_string()),
            Token::Quote("two words".to_string()),
            Token::Word("beta".to_string()),
        ]
    );
}

#[test]
fn tokenize_resolves_escapes_inside_quotes() {
    let tokens = collect_tokens("note \"a\\\"b\\\\c\"");
    assert_eq!(
        tokens,
        vec![
            Token::Word("note".to_string()),
            Token::Quote("a\"b\\c".to_string()),
        ]
    );
}

#[test]
fn tokenize_empty_and_whitespace_only() {
    assert_eq!(collect_tokens(""), vec![]);
    assert_eq!(collect_tokens("  \t \r\n "), vec![]);
}

#[test]
fn tokenize_twice_yields_identical_sequences() {
    let text = "note remove \"My Title\" trailing words";
    assert_eq!(collect_tokens(text), collect_tokens(text));
}

#[test]
fn unterminated_quote_is_anchored_at_the_opening_delimiter() {
    let mut toks = Tokenizer::new("word \"oops");
    assert_eq!(toks.next_token().unwrap(), Some(Token::Word("word".to_string())));
    let err = toks.next_token().unwrap_err();
    assert_eq!(err.kind, ParseError::UnterminatedQuote);
    assert_eq!(err.offset, 5);
}

#[test]
fn offsets_count_bytes_not_characters() {
    // the first word holds a two-byte character, so the quote at character
    // position 2 sits at byte offset 3
    let mut toks = Tokenizer::new("\u{e9} \"x");
    assert_eq!(
        toks.next_token().unwrap(),
        Some(Token::Word("\u{e9}".to_string()))
    );
    let err = toks.next_token().unwrap_err();
    assert_eq!(err.kind, ParseError::UnterminatedQuote);
    assert_eq!(err.offset, 3);
}

#[test]
fn peek_does_not_consume() {
    let mut toks = Tokenizer::new("one two");
    assert_eq!(toks.peek_token().unwrap(), Some(Token::Word("one".to_string())));
    assert_eq!(toks.peek_token().unwrap(), Some(Token::Word("one".to_string())));
    assert_eq!(toks.next_token().unwrap(), Some(Token::Word("one".to_string())));
    assert_eq!(toks.next_token().unwrap(), Some(Token::Word("two".to_string())));
    assert_eq!(toks.next_token().unwrap(), None);
}

#[test]
fn note_remove_quoted_title() {
    let cmd = parse_command("note remove \"My Title\"").unwrap();
    assert_eq!(
        cmd,
        Some(Command::Note(NoteCommand::Remove { title: "My Title".to_string() }))
    );
}

#[test]
fn note_quoted_title_is_a_summary() {
    let cmd = parse_command("note \"My Title\"").unwrap();
    assert_eq!(
        cmd,
        Some(Command::Note(NoteCommand::Summary { title: "My Title".to_string() }))
    );
}

#[test]
fn note_alone_is_missing_its_title() {
    let err = parse_command("note").unwrap_err();
    assert_eq!(err.kind, ParseError::MissingTitle);
    assert_eq!(err.offset, 4);
}

#[test]
fn note_remove_alone_is_missing_its_title() {
    let err = parse_command("note remove").unwrap_err();
    assert_eq!(err.kind, ParseError::MissingTitle);
    assert_eq!(err.offset, 11);
}

#[test]
fn note_bare_word_title() {
    let cmd = parse_command("note standup").unwrap();
    assert_eq!(
        cmd,
        Some(Command::Note(NoteCommand::Summary { title: "standup".to_string() }))
    );
}

#[test]
fn note_literal_remove_title_needs_quoting() {
    // an unquoted `remove` is always the flag, never the title
    let cmd = parse_command("note \"remove\"").unwrap();
    assert_eq!(
        cmd,
        Some(Command::Note(NoteCommand::Summary { title: "remove".to_string() }))
    );
}

#[test]
fn repeated_remove_flag_is_idempotent() {
    let cmd = parse_command("note remove remove \"My Title\"").unwrap();
    assert_eq!(
        cmd,
        Some(Command::Note(NoteCommand::Remove { title: "My Title".to_string() }))
    );
}

#[test]
fn second_keyword_alone() {
    let cmd = parse_command("second").unwrap();
    assert_eq!(cmd, Some(Command::Second(SecondCommand)));
}

#[test]
fn seconded_is_not_the_second_keyword() {
    assert_eq!(parse_command("seconded").unwrap(), None);
}

#[test]
fn relabel_collects_signed_deltas() {
    let cmd = parse_command("label +I-nominated -needs-triage").unwrap();
    assert_eq!(
        cmd,
        Some(Command::Relabel(RelabelCommand(vec![
            LabelDelta::Add(Label { name: "I-nominated".to_string() }),
            LabelDelta::Remove(Label { name: "needs-triage".to_string() }),
        ])))
    );
}

#[test]
fn relabel_stops_at_the_first_unsigned_word() {
    let cmd = parse_command("label +bug please").unwrap();
    assert_eq!(
        cmd,
        Some(Command::Relabel(RelabelCommand(vec![LabelDelta::Add(Label {
            name: "bug".to_string(),
        })])))
    );
}

#[test]
fn relabel_without_deltas_is_an_error() {
    let err = parse_command("label").unwrap_err();
    assert_eq!(err.kind, ParseError::MissingLabelDelta);
    assert_eq!(err.offset, 5);
}

#[test]
fn prose_without_keywords_passes_through() {
    assert_eq!(parse_command("").unwrap(), None);
    assert_eq!(parse_command("just an ordinary comment").unwrap(), None);
    assert_eq!(
        parse_command("please note that this starts with another word").unwrap(),
        None
    );
    assert_eq!(parse_command("\"note\" quoted keywords do not count").unwrap(), None);
}

#[test]
fn lexical_error_on_the_first_token_stops_dispatch() {
    let err = parse_command("\"unterminated").unwrap_err();
    assert_eq!(err.kind, ParseError::UnterminatedQuote);
    assert_eq!(err.offset, 0);
}

#[test]
fn committed_keyword_with_malformed_body_is_not_reinterpreted() {
    // the note grammar owns the input once it sees its keyword; the error
    // surfaces instead of falling through to another grammar
    let err = parse_command("note \"unterminated").unwrap_err();
    assert_eq!(err.kind, ParseError::UnterminatedQuote);
    assert_eq!(err.offset, 5);
}

#[test]
fn parse_error_messages() {
    assert_eq!(
        ParseError::MissingTitle.message(),
        "missing required summary title"
    );
    assert_eq!(ParseError::UnterminatedQuote.message(), "unterminated quote");
    assert_eq!(ParseError::MissingLabelDelta.message(), "missing label delta");
}
