use crate::error::{Error, ParseError};
use vstd::prelude::*;
use vstd::string::*;
use vstd::utf8::{encode_scalar, encode_utf8};

verus! {

// ---------------------------------------------------------------------------
// Character classes
// ---------------------------------------------------------------------------

/// The characters that separate unquoted words: ASCII whitespace.
pub open spec fn is_whitespace_char(c: char) -> bool {
    c == ' ' || c == '\t' || c == '\n' || c == '\x0C' || c == '\r'
}

/// The delimiter that opens and closes a quoted span.
pub open spec fn is_quote_char(c: char) -> bool {
    c == '"'
}

/// The character that escapes the next character inside a quoted span.
pub open spec fn is_escape_char(c: char) -> bool {
    c == '\\'
}

/// Characters that may stand inside an unquoted word: everything that is
/// neither whitespace nor a quote delimiter.
pub open spec fn is_word_char(c: char) -> bool {
    !is_whitespace_char(c) && !is_quote_char(c)
}

fn whitespace_char(c: char) -> (b: bool)
    ensures
        b == is_whitespace_char(c),
{
    c == ' ' || c == '\t' || c == '\n' || c == '\x0C' || c == '\r'
}

fn word_char(c: char) -> (b: bool)
    ensures
        b == is_word_char(c),
{
    !whitespace_char(c) && c != '"'
}

// ---------------------------------------------------------------------------
// Byte offsets
//
// The cursor walks the text character by character, but diagnostics carry
// byte offsets into the original input, so that a caller can point at the
// offending position in the raw comment.  The offset of character position
// `n` is the UTF-8 length of the first `n` characters.
// ---------------------------------------------------------------------------

/// The number of bytes that the first `n` characters of `s` occupy in UTF-8.
pub open spec fn byte_offset_of(s: Seq<char>, n: int) -> int {
    encode_utf8(s.take(n)).len() as int
}

/// UTF-8 encoding distributes over concatenation of character sequences.
pub proof fn lemma_encode_utf8_concat(a: Seq<char>, b: Seq<char>)
    ensures
        encode_utf8(a + b) == encode_utf8(a) + encode_utf8(b),
    decreases a.len(),
{
    if a.len() == 0 {
        assert(a + b =~= b);
        assert(encode_utf8(a) + encode_utf8(b) =~= encode_utf8(b));
    } else {
        assert((a + b).drop_first() =~= a.drop_first() + b);
        lemma_encode_utf8_concat(a.drop_first(), b);
        assert((a + b)[0] == a[0]);
        assert(encode_utf8(a + b) =~= encode_utf8(a) + encode_utf8(b));
    }
}

/// Stepping the cursor past character `n` advances the byte offset by the
/// UTF-8 width of that character.
pub proof fn lemma_byte_offset_step(s: Seq<char>, n: int)
    requires
        0 <= n < s.len(),
    ensures
        byte_offset_of(s, n + 1) == byte_offset_of(s, n) + encode_scalar(s[n] as u32).len(),
{
    let single = seq![s[n]];
    assert(s.take(n + 1) =~= s.take(n) + single);
    lemma_encode_utf8_concat(s.take(n), single);
    assert(single.drop_first() =~= Seq::<char>::empty());
    assert(encode_utf8(single.drop_first()) =~= Seq::<u8>::empty());
    assert(encode_utf8(single) =~= encode_scalar(single[0] as u32) + encode_utf8(
        single.drop_first(),
    ));
    assert(encode_utf8(single) =~= encode_scalar(s[n] as u32));
}

/// A byte offset inside the text never exceeds the total UTF-8 length.
pub proof fn lemma_byte_offset_le_total(s: Seq<char>, n: int)
    requires
        0 <= n <= s.len(),
    ensures
        byte_offset_of(s, n) + encode_utf8(s.skip(n)).len() == encode_utf8(s).len(),
        byte_offset_of(s, n) <= encode_utf8(s).len(),
{
    assert(s =~= s.take(n) + s.skip(n));
    lemma_encode_utf8_concat(s.take(n), s.skip(n));
}

/// The UTF-8 width of a single character, between 1 and 4 bytes.
fn utf8_width(c: char) -> (w: usize)
    ensures
        w == encode_scalar(c as u32).len(),
        1 <= w <= 4,
{
    let u = c as u32;
    if u < 0x80 {
        1
    } else if u < 0x800 {
        2
    } else if u < 0x10000 {
        3
    } else {
        4
    }
}

/// The byte offset of character position `n` in `text`.
pub fn byte_offset(text: &str, n: usize) -> (off: usize)
    requires
        n <= text@.len(),
    ensures
        off == byte_offset_of(text@, n as int),
{
    let ghost s = text@;
    let total = text.as_bytes().len();
    let mut i: usize = 0;
    let mut off: usize = 0;
    proof {
        assert(s.take(0) =~= Seq::<char>::empty());
    }
    while i < n
        invariant
            i <= n <= s.len(),
            s == text@,
            total == encode_utf8(s).len(),
            off == byte_offset_of(s, i as int),
            off <= total,
        decreases n - i,
    {
        let c = text.get_char(i);
        proof {
            lemma_byte_offset_step(s, i as int);
            lemma_byte_offset_le_total(s, i as int + 1);
        }
        off = off + utf8_width(c);
        i = i + 1;
    }
    off
}

// ---------------------------------------------------------------------------
// Specification of the token stream
// ---------------------------------------------------------------------------

/// The first position at or after `i` whose character is not whitespace, or
/// the end of the text.
pub open spec fn skip_ws(s: Seq<char>, i: int) -> int
    decreases s.len() - i,
        when 0 <= i <= s.len()
{
    if i >= s.len() {
        s.len() as int
    } else if is_whitespace_char(s[i]) {
        skip_ws(s, i + 1)
    } else {
        i
    }
}

/// The first position at or after `i` whose character cannot stand in a
/// word, or the end of the text.
pub open spec fn word_end(s: Seq<char>, i: int) -> int
    decreases s.len() - i,
        when 0 <= i <= s.len()
{
    if i >= s.len() {
        s.len() as int
    } else if is_word_char(s[i]) {
        word_end(s, i + 1)
    } else {
        i
    }
}

/// The outcome of scanning a quoted span whose content starts at some
/// position: either the span never closes, or it closes and yields its
/// unescaped content together with the position just past the closing
/// delimiter.
pub enum QuoteScan {
    Unterminated,
    Closed { content: Seq<char>, end: int },
}

/// Scan the inside of a quoted span starting at `i` (just past the opening
/// delimiter).  A backslash makes the following character literal; the first
/// unescaped quote delimiter closes the span.
pub open spec fn scan_quote(s: Seq<char>, i: int) -> QuoteScan
    decreases s.len() - i,
        when 0 <= i <= s.len()
{
    if i >= s.len() {
        QuoteScan::Unterminated
    } else if is_quote_char(s[i]) {
        QuoteScan::Closed { content: Seq::empty(), end: i + 1 }
    } else if is_escape_char(s[i]) {
        if i + 1 >= s.len() {
            QuoteScan::Unterminated
        } else {
            match scan_quote(s, i + 2) {
                QuoteScan::Unterminated => QuoteScan::Unterminated,
                QuoteScan::Closed { content, end } => QuoteScan::Closed {
                    content: seq![s[i + 1]] + content,
                    end,
                },
            }
        }
    } else {
        match scan_quote(s, i + 1) {
            QuoteScan::Unterminated => QuoteScan::Unterminated,
            QuoteScan::Closed { content, end } => QuoteScan::Closed {
                content: seq![s[i]] + content,
                end,
            },
        }
    }
}

/// The mathematical form of a token: a word, or the unescaped content of a
/// quoted span.
pub enum SpecToken {
    Word(Seq<char>),
    Quote(Seq<char>),
}

/// What one step of the tokenizer finds at a position: nothing but trailing
/// whitespace, a token together with the position just past it, or a
/// lexical failure anchored at a position.
pub enum SpecStep {
    End,
    Tok(SpecToken, int),
    Fail(int),
}

/// The token found at `pos`: skip whitespace, then read either a quoted
/// span or a maximal word.  An unterminated quote fails, anchored at the
/// opening delimiter.
pub open spec fn token_step(s: Seq<char>, pos: int) -> SpecStep {
    let i = skip_ws(s, pos);
    if i >= s.len() {
        SpecStep::End
    } else if is_quote_char(s[i]) {
        match scan_quote(s, i + 1) {
            QuoteScan::Unterminated => SpecStep::Fail(i),
            QuoteScan::Closed { content, end } => SpecStep::Tok(SpecToken::Quote(content), end),
        }
    } else {
        SpecStep::Tok(SpecToken::Word(s.subrange(i, word_end(s, i))), word_end(s, i))
    }
}

pub proof fn lemma_skip_ws(s: Seq<char>, i: int)
    requires
        0 <= i <= s.len(),
    ensures
        i <= skip_ws(s, i) <= s.len(),
        skip_ws(s, i) < s.len() ==> !is_whitespace_char(s[skip_ws(s, i)]),
    decreases s.len() - i,
{
    if i < s.len() && is_whitespace_char(s[i]) {
        lemma_skip_ws(s, i + 1);
    }
}

pub proof fn lemma_word_end(s: Seq<char>, i: int)
    requires
        0 <= i <= s.len(),
    ensures
        i <= word_end(s, i) <= s.len(),
        word_end(s, i) < s.len() ==> !is_word_char(s[word_end(s, i)]),
    decreases s.len() - i,
{
    if i < s.len() && is_word_char(s[i]) {
        lemma_word_end(s, i + 1);
    }
}

pub proof fn lemma_scan_quote(s: Seq<char>, i: int)
    requires
        0 <= i <= s.len(),
    ensures
        scan_quote(s, i) matches QuoteScan::Closed { end, .. } ==> i < end <= s.len(),
    decreases s.len() - i,
{
    if i < s.len() && !is_quote_char(s[i]) {
        if is_escape_char(s[i]) {
            if i + 1 < s.len() {
                lemma_scan_quote(s, i + 2);
            }
        } else {
            lemma_scan_quote(s, i + 1);
        }
    }
}

/// A successful tokenizer step always advances the cursor.
pub proof fn lemma_token_step_advances(s: Seq<char>, pos: int)
    requires
        0 <= pos <= s.len(),
    ensures
        token_step(s, pos) matches SpecStep::Tok(_, p) ==> pos < p <= s.len(),
        token_step(s, pos) matches SpecStep::Fail(off) ==> pos <= off <= s.len(),
{
    lemma_skip_ws(s, pos);
    let i = skip_ws(s, pos);
    if i < s.len() {
        if is_quote_char(s[i]) {
            lemma_scan_quote(s, i + 1);
        } else {
            lemma_word_end(s, i);
            assert(word_end(s, i) == word_end(s, i + 1));
        }
    }
}

/// The full token sequence of a text, or nothing if the text has a lexical
/// failure.
pub open spec fn spec_tokens_from(s: Seq<char>, pos: int) -> Option<Seq<SpecToken>>
    decreases s.len() - pos,
        when 0 <= pos <= s.len()
{
    match token_step(s, pos) {
        SpecStep::End => Some(Seq::empty()),
        SpecStep::Fail(_) => None,
        SpecStep::Tok(t, p) => if pos < p <= s.len() {
            match spec_tokens_from(s, p) {
                None => None,
                Some(rest) => Some(seq![t] + rest),
            }
        } else {
            // never reached: a successful step advances the cursor
            None
        },
    }
}

/// The token sequence drawn from a whole text.
pub open spec fn spec_tokens(s: Seq<char>) -> Option<Seq<SpecToken>> {
    spec_tokens_from(s, 0)
}

/// Tokenizing is deterministic: the token sequence is a function of the
/// text alone, so tokenizing the same text twice yields structurally
/// identical sequences.
pub proof fn lemma_tokenize_deterministic(s1: Seq<char>, s2: Seq<char>)
    requires
        s1 == s2,
    ensures
        spec_tokens(s1) == spec_tokens(s2),
{
}

// ---------------------------------------------------------------------------
// Executable tokens and the tokenizer
// ---------------------------------------------------------------------------

/// A token drawn from the input text: a maximal run of non-whitespace,
/// non-quote characters, or the unescaped content of a quoted span.
/// Tokens carry no surrounding whitespace.
#[derive(Debug, Clone, PartialEq, Eq)]
pub enum Token {
    Word(String),
    Quote(String),
}

impl View for Token {
    type V = SpecToken;

    open spec fn view(&self) -> SpecToken {
        match self {
            Token::Word(w) => SpecToken::Word(w@),
            Token::Quote(q) => SpecToken::Quote(q@),
        }
    }
}

/// Character-for-character equality of two string slices.
pub fn str_eq(a: &str, b: &str) -> (r: bool)
    ensures
        r == (a@ == b@),
{
    let alen = a.unicode_len();
    let blen = b.unicode_len();
    if alen != blen {
        return false;
    }
    let mut i: usize = 0;
    while i < alen
        invariant
            i <= alen,
            alen == a@.len(),
            alen == b@.len(),
            forall|j: int| 0 <= j < i ==> a@[j] == b@[j],
        decreases alen - i,
    {
        if a.get_char(i) != b.get_char(i) {
            return false;
        }
        i = i + 1;
    }
    proof {
        assert(a@ =~= b@);
    }
    true
}

/// A cursor over one input text: the text and the character position of the
/// next unread character.  Cloning yields an independent cursor, which
/// grammars use for speculative parses; a failed attempt never disturbs
/// the cursor it was cloned from.
pub struct Tokenizer {
    text: String,
    pos: usize,
}

impl Clone for Tokenizer {
    fn clone(&self) -> (r: Self)
        ensures
            r == *self,
    {
        Tokenizer { text: self.text.clone(), pos: self.pos }
    }
}

impl Tokenizer {
    /// The characters of the input text.
    pub closed spec fn text_view(&self) -> Seq<char> {
        self.text@
    }

    /// The character position of the cursor.
    pub closed spec fn cursor(&self) -> int {
        self.pos as int
    }

    /// The cursor stands inside the text.
    pub open spec fn wf(&self) -> bool {
        0 <= self.cursor() <= self.text_view().len()
    }

    /// A fresh cursor at the start of `text`.
    pub fn new(text: &str) -> (t: Tokenizer)
        ensures
            t.wf(),
            t.text_view() == text@,
            t.cursor() == 0,
    {
        Tokenizer { text: text.to_owned(), pos: 0 }
    }

    /// A diagnostic anchored at the cursor's current byte offset.
    pub fn error(&self, kind: ParseError) -> (e: Error)
        requires
            self.wf(),
        ensures
            e.kind == kind,
            e.offset as int == byte_offset_of(self.text_view(), self.cursor()),
    {
        Error { kind, offset: byte_offset(self.text.as_str(), self.pos) }
    }

    /// One scanning step over `text` starting at character position `pos`,
    /// shared by `next_token` and `peek_token`.
    fn scan(text: &str, pos: usize) -> (r: Result<Option<(Token, usize)>, Error>)
        requires
            pos as int <= text@.len(),
        ensures
            match token_step(text@, pos as int) {
                SpecStep::End => r == Ok::<Option<(Token, usize)>, Error>(None),
                SpecStep::Tok(t, p) => (r matches Ok(Some((tok, np))) && tok@ == t && np as int
                    == p && p <= text@.len()),
                SpecStep::Fail(off) => (r matches Err(e) && e.kind == ParseError::UnterminatedQuote
                    && e.offset as int == byte_offset_of(text@, off)),
            },
    {
        let ghost s = text@;
        let len = text.unicode_len();
        let mut i: usize = pos;
        while i < len && whitespace_char(text.get_char(i))
            invariant
                pos <= i <= len,
                len == s.len(),
                s == text@,
                skip_ws(s, pos as int) == skip_ws(s, i as int),
            decreases len - i,
        {
            proof {
                assert(skip_ws(s, i as int) == skip_ws(s, i + 1));
            }
            i = i + 1;
        }
        proof {
            assert(skip_ws(s, pos as int) == i as int);
        }
        if i >= len {
            return Ok(None);
        }
        let c = text.get_char(i);
        if c == '"' {
            let open_i = i;
            let mut j: usize = i + 1;
            let mut content = String::new();
            proof {
                match scan_quote(s, open_i + 1) {
                    QuoteScan::Unterminated => {},
                    QuoteScan::Closed { content: rest, end } => {
                        assert(Seq::<char>::empty() + rest =~= rest);
                    },
                }
            }
            loop
                invariant
                    open_i + 1 <= j <= len,
                    len == s.len(),
                    s == text@,
                    open_i < len,
                    is_quote_char(s[open_i as int]),
                    pos <= open_i,
                    skip_ws(s, pos as int) == open_i as int,
                    scan_quote(s, j as int) is Unterminated ==> scan_quote(s, open_i + 1)
                        is Unterminated,
                    scan_quote(s, j as int) matches QuoteScan::Closed { content: rest, end }
                        ==> scan_quote(s, open_i + 1) == (QuoteScan::Closed {
                        content: content@ + rest,
                        end,
                    }),
                decreases len - j,
            {
                if j >= len {
                    return Err(
                        Error {
                            kind: ParseError::UnterminatedQuote,
                            offset: byte_offset(text, open_i),
                        },
                    );
                }
                let cj = text.get_char(j);
                if cj == '"' {
                    proof {
                        assert(scan_quote(s, j as int) == (QuoteScan::Closed {
                            content: Seq::<char>::empty(),
                            end: j + 1,
                        }));
                        assert(content@ + Seq::<char>::empty() =~= content@);
                    }
                    return Ok(Some((Token::Quote(content), j + 1)));
                } else if cj == '\\' {
                    if j + 1 >= len {
                        return Err(
                            Error {
                                kind: ParseError::UnterminatedQuote,
                                offset: byte_offset(text, open_i),
                            },
                        );
                    }
                    let ghost old_content = content@;
                    let sub = text.substring_char(j + 1, j + 2);
                    content.append(sub);
                    proof {
                        assert(sub@ =~= seq![s[j + 1]]);
                        assert(content@ == old_content + seq![s[j + 1]]);
                        match scan_quote(s, j + 2) {
                            QuoteScan::Unterminated => {},
                            QuoteScan::Closed { content: rest2, end } => {
                                assert(scan_quote(s, j as int) == (QuoteScan::Closed {
                                    content: seq![s[j + 1]] + rest2,
                                    end,
                                }));
                                assert(content@ + rest2 =~= old_content + (seq![s[j + 1]] + rest2));
                            },
                        }
                    }
                    j = j + 2;
                } else {
                    let ghost old_content = content@;
                    let sub = text.substring_char(j, j + 1);
                    content.append(sub);
                    proof {
                        assert(sub@ =~= seq![s[j as int]]);
                        assert(content@ == old_content + seq![s[j as int]]);
                        match scan_quote(s, j + 1) {
                            QuoteScan::Unterminated => {},
                            QuoteScan::Closed { content: rest2, end } => {
                                assert(scan_quote(s, j as int) == (QuoteScan::Closed {
                                    content: seq![s[j as int]] + rest2,
                                    end,
                                }));
                                assert(content@ + rest2 =~= old_content + (seq![s[j as int]]
                                    + rest2));
                            },
                        }
                    }
                    j = j + 1;
                }
            }
        } else {
            let start = i;
            let mut j: usize = i;
            while j < len && word_char(text.get_char(j))
                invariant
                    start <= j <= len,
                    len == s.len(),
                    s == text@,
                    word_end(s, start as int) == word_end(s, j as int),
                decreases len - j,
            {
                proof {
                    assert(word_end(s, j as int) == word_end(s, j + 1));
                }
                j = j + 1;
            }
            proof {
                assert(word_end(s, start as int) == j as int);
            }
            let w = text.substring_char(start, j).to_owned();
            Ok(Some((Token::Word(w), j)))
        }
    }

    /// Consume and return the next token, or `None` at the end of the
    /// input, or a diagnostic for an unterminated quote.  A failed or empty
    /// step leaves the cursor unchanged.
    pub fn next_token(&mut self) -> (r: Result<Option<Token>, Error>)
        requires
            old(self).wf(),
        ensures
            final(self).wf(),
            final(self).text_view() == old(self).text_view(),
            match token_step(old(self).text_view(), old(self).cursor()) {
                SpecStep::End => r == Ok::<Option<Token>, Error>(None) && *final(self) == *old(
                    self,
                ),
                SpecStep::Tok(t, p) => (r matches Ok(Some(tok)) && tok@ == t && final(self).cursor()
                    == p),
                SpecStep::Fail(off) => (r matches Err(e) && e.kind == ParseError::UnterminatedQuote
                    && e.offset as int == byte_offset_of(old(self).text_view(), off) && *final(self)
                    == *old(self)),
            },
    {
        match Self::scan(self.text.as_str(), self.pos) {
            Ok(Some((tok, np))) => {
                self.pos = np;
                Ok(Some(tok))
            },
            Ok(None) => Ok(None),
            Err(e) => Err(e),
        }
    }

    /// Return the next token without consuming it.
    pub fn peek_token(&self) -> (r: Result<Option<Token>, Error>)
        requires
            self.wf(),
        ensures
            match token_step(self.text_view(), self.cursor()) {
                SpecStep::End => r == Ok::<Option<Token>, Error>(None),
                SpecStep::Tok(t, _) => (r matches Ok(Some(tok)) && tok@ == t),
                SpecStep::Fail(off) => (r matches Err(e) && e.kind == ParseError::UnterminatedQuote
                    && e.offset as int == byte_offset_of(self.text_view(), off)),
            },
    {
        match Self::scan(self.text.as_str(), self.pos) {
            Ok(Some((tok, _))) => Ok(Some(tok)),
            Ok(None) => Ok(None),
            Err(e) => Err(e),
        }
    }
}

} // verus!
