//! The scanner: from a character buffer to a token stream.
//!
//! [`Lexer`] owns the input and a cursor.  The cursor never exceeds the
//! input length, and once the end is reached every further call yields the
//! end-of-input token again.  The spec-level model is [`spec_scan`]: the
//! full token sequence (or the first lexical error) that scanning from a
//! position produces.

use crate::token::Token;
use crate::token::TokenV;
use vstd::prelude::*;
use vstd::string::StrSliceExecFns;
use vstd::string::StringExecFns;

verus! {

/// ASCII whitespace skipped between tokens: space, tab, newline,
/// carriage return.
pub open spec fn is_ws_char(c: char) -> bool {
    c == ' ' || c == '\t' || c == '\n' || c == '\r'
}

/// An ASCII decimal digit.
pub open spec fn is_digit_char(c: char) -> bool {
    48 <= c as u32 && c as u32 <= 57
}

/// An ASCII lowercase letter, the alphabet of the literal keywords.
pub open spec fn is_lower_char(c: char) -> bool {
    97 <= c as u32 && c as u32 <= 122
}

/// The character the scanner sees at `pos`: the buffer's character inside
/// the buffer, the NUL sentinel at or past its end.
pub open spec fn char_at(s: Seq<char>, pos: int) -> char {
    if 0 <= pos < s.len() {
        s[pos]
    } else {
        '\0'
    }
}

/// The cursor after a single one-character step: past `pos`, but never past
/// the end of the buffer.
pub open spec fn advance(s: Seq<char>, pos: int) -> int {
    if pos < s.len() {
        pos + 1
    } else {
        s.len() as int
    }
}

/// The first position at or after `pos` that does not hold whitespace
/// (or the end of the buffer).
pub open spec fn ws_end(s: Seq<char>, pos: int) -> int
    decreases s.len() - pos
        when 0 <= pos <= s.len()
{
    if pos < s.len() && is_ws_char(s[pos]) {
        ws_end(s, pos + 1)
    } else {
        pos
    }
}

/// The first position at or after `pos` that does not hold a digit
/// (or the end of the buffer).
pub open spec fn digit_end(s: Seq<char>, pos: int) -> int
    decreases s.len() - pos
        when 0 <= pos <= s.len()
{
    if pos < s.len() && is_digit_char(s[pos]) {
        digit_end(s, pos + 1)
    } else {
        pos
    }
}

/// The first position at or after `pos` that does not hold a lowercase
/// letter (or the end of the buffer).
pub open spec fn lower_end(s: Seq<char>, pos: int) -> int
    decreases s.len() - pos
        when 0 <= pos <= s.len()
{
    if pos < s.len() && is_lower_char(s[pos]) {
        lower_end(s, pos + 1)
    } else {
        pos
    }
}

/// The first position at or after `pos` that ends a quoted run: a closing
/// double quote, a NUL character, or the end of the buffer.
pub open spec fn qstr_end(s: Seq<char>, pos: int) -> int
    decreases s.len() - pos
        when 0 <= pos <= s.len()
{
    if pos < s.len() && s[pos] != '"' && s[pos] != '\0' {
        qstr_end(s, pos + 1)
    } else {
        pos
    }
}

/// `ws_end` is the end of the whitespace run that starts at `pos`.
pub proof fn lemma_ws_end(s: Seq<char>, pos: int)
    requires
        0 <= pos <= s.len(),
    ensures
        pos <= ws_end(s, pos) <= s.len(),
        forall|i: int| pos <= i < ws_end(s, pos) ==> is_ws_char(#[trigger] s[i]),
        ws_end(s, pos) < s.len() ==> !is_ws_char(s[ws_end(s, pos)]),
    decreases s.len() - pos,
{
    if pos < s.len() && is_ws_char(s[pos]) {
        lemma_ws_end(s, pos + 1);
    }
}

/// `digit_end` is the end of the digit run that starts at `pos`.
pub proof fn lemma_digit_end(s: Seq<char>, pos: int)
    requires
        0 <= pos <= s.len(),
    ensures
        pos <= digit_end(s, pos) <= s.len(),
        forall|i: int| pos <= i < digit_end(s, pos) ==> is_digit_char(#[trigger] s[i]),
        digit_end(s, pos) < s.len() ==> !is_digit_char(s[digit_end(s, pos)]),
    decreases s.len() - pos,
{
    if pos < s.len() && is_digit_char(s[pos]) {
        lemma_digit_end(s, pos + 1);
    }
}

/// `lower_end` is the end of the lowercase run that starts at `pos`.
pub proof fn lemma_lower_end(s: Seq<char>, pos: int)
    requires
        0 <= pos <= s.len(),
    ensures
        pos <= lower_end(s, pos) <= s.len(),
        forall|i: int| pos <= i < lower_end(s, pos) ==> is_lower_char(#[trigger] s[i]),
        lower_end(s, pos) < s.len() ==> !is_lower_char(s[lower_end(s, pos)]),
    decreases s.len() - pos,
{
    if pos < s.len() && is_lower_char(s[pos]) {
        lemma_lower_end(s, pos + 1);
    }
}

/// `qstr_end` is the position of the first quote or NUL at or after `pos`.
pub proof fn lemma_qstr_end(s: Seq<char>, pos: int)
    requires
        0 <= pos <= s.len(),
    ensures
        pos <= qstr_end(s, pos) <= s.len(),
        forall|i: int|
            pos <= i < qstr_end(s, pos) ==> (#[trigger] s[i]) != '"' && s[i] != '\0',
        qstr_end(s, pos) < s.len() ==> (s[qstr_end(s, pos)] == '"' || s[qstr_end(s, pos)]
            == '\0'),
    decreases s.len() - pos,
{
    if pos < s.len() && s[pos] != '"' && s[pos] != '\0' {
        lemma_qstr_end(s, pos + 1);
    }
}

/// The model of a lexical error: an unrecognized lowercase run, or a
/// character that cannot begin any token.
pub enum LexErrorV {
    UnknownLiteral(Seq<char>),
    UnrecognizedChar(char),
}

/// A lexical error: the current input cannot begin any recognized token.
#[derive(Debug, PartialEq, Eq)]
pub enum LexError {
    /// A lowercase run that is none of the keywords `true`, `false`, `null`.
    UnknownLiteral(String),
    /// A character that no token class starts with.
    UnrecognizedChar(char),
}

impl View for LexError {
    type V = LexErrorV;

    open spec fn view(&self) -> LexErrorV {
        match self {
            LexError::UnknownLiteral(s) => LexErrorV::UnknownLiteral(s@),
            LexError::UnrecognizedChar(c) => LexErrorV::UnrecognizedChar(*c),
        }
    }
}

/// The outcome of classifying one token at a position: the token and the
/// cursor position after it, or a lexical error.
pub enum ScanStep {
    Tok(TokenV, int),
    Fail(LexErrorV),
}

/// One scanning step from `pos`: skip whitespace, classify the next token
/// by its first character, and consume the whole lexeme plus the final
/// one-character advance.
pub open spec fn spec_step(s: Seq<char>, pos: int) -> ScanStep {
    let p = ws_end(s, pos);
    let c = char_at(s, p);
    if c == '\0' {
        ScanStep::Tok(TokenV::EOF, advance(s, p))
    } else if c == '{' {
        ScanStep::Tok(TokenV::LSquirly, p + 1)
    } else if c == '}' {
        ScanStep::Tok(TokenV::RSquirly, p + 1)
    } else if c == '[' {
        ScanStep::Tok(TokenV::LSquare, p + 1)
    } else if c == ']' {
        ScanStep::Tok(TokenV::RSquare, p + 1)
    } else if c == ':' {
        ScanStep::Tok(TokenV::Colon, p + 1)
    } else if c == ',' {
        ScanStep::Tok(TokenV::Comma, p + 1)
    } else if c == '"' {
        let e = qstr_end(s, p + 1);
        ScanStep::Tok(TokenV::Word(s.subrange(p + 1, e)), advance(s, e))
    } else if is_lower_char(c) {
        let e = lower_end(s, p);
        let w = s.subrange(p, e);
        if w == "true"@ {
            ScanStep::Tok(TokenV::True, e)
        } else if w == "false"@ {
            ScanStep::Tok(TokenV::False, e)
        } else if w == "null"@ {
            ScanStep::Tok(TokenV::Null, e)
        } else {
            ScanStep::Fail(LexErrorV::UnknownLiteral(w))
        }
    } else if is_digit_char(c) {
        let e = digit_end(s, p);
        ScanStep::Tok(TokenV::Int(s.subrange(p, e)), e)
    } else {
        ScanStep::Fail(LexErrorV::UnrecognizedChar(c))
    }
}

/// A successful scanning step lands inside the buffer, and strictly past
/// `pos` unless it produced the end-of-input token.
pub proof fn lemma_step_bounds(s: Seq<char>, pos: int)
    requires
        0 <= pos <= s.len(),
    ensures
        (spec_step(s, pos) matches ScanStep::Tok(t, p2) ==> pos <= p2 <= s.len() && (!(t
            is EOF) ==> pos < p2)),
{
    lemma_ws_end(s, pos);
    let p = ws_end(s, pos);
    if p < s.len() {
        let c = s[p];
        if c == '"' {
            lemma_qstr_end(s, p + 1);
        } else if is_lower_char(c) {
            lemma_lower_end(s, p);
        } else if is_digit_char(c) {
            lemma_digit_end(s, p);
        }
    }
}

/// The full scan from `pos`: the ordered token sequence ending in the
/// end-of-input token, or the first lexical error encountered.
pub open spec fn spec_scan(s: Seq<char>, pos: int) -> Result<Seq<TokenV>, LexErrorV>
    decreases s.len() - pos
        when 0 <= pos <= s.len()
{
    match spec_step(s, pos) {
        ScanStep::Fail(e) => Err(e),
        ScanStep::Tok(t, p2) => if t is EOF {
            Ok(seq![TokenV::EOF])
        } else {
            proof {
                lemma_step_bounds(s, pos);
            }
            match spec_scan(s, p2) {
                Err(e) => Err(e),
                Ok(rest) => Ok(seq![t] + rest),
            }
        },
    }
}

/// A successful scan is terminated by the end-of-input token exactly once:
/// it is the last element, and no earlier one.
pub proof fn lemma_scan_terminator(s: Seq<char>, pos: int)
    requires
        0 <= pos <= s.len(),
    ensures
        (spec_scan(s, pos) matches Ok(ts) ==> ts.len() >= 1 && ts[ts.len() - 1] is EOF && forall|
            i: int,
        | 0 <= i < ts.len() - 1 ==> !((#[trigger] ts[i]) is EOF)),
    decreases s.len() - pos,
{
    lemma_step_bounds(s, pos);
    match spec_step(s, pos) {
        ScanStep::Tok(t, p2) => {
            if !(t is EOF) {
                lemma_scan_terminator(s, p2);
                match spec_scan(s, p2) {
                    Ok(rest) => {
                        let ts = seq![t] + rest;
                        assert(ts[ts.len() - 1] == rest[rest.len() - 1]);
                        assert forall|i: int| 0 <= i < ts.len() - 1 implies !((#[trigger] ts[i])
                            is EOF) by {
                            if i >= 1 {
                                assert(ts[i] == rest[i - 1]);
                            }
                        }
                    },
                    Err(_) => {},
                }
            }
        },
        ScanStep::Fail(_) => {},
    }
}

/// A token sequence prefixed onto the outcome of a scan of the rest of the
/// input.
pub open spec fn prepend_scan(ts: Seq<TokenV>, r: Result<Seq<TokenV>, LexErrorV>) -> Result<
    Seq<TokenV>,
    LexErrorV,
> {
    match r {
        Ok(rest) => Ok(ts + rest),
        Err(e) => Err(e),
    }
}

fn is_ascii_whitespace(c: char) -> (r: bool)
    ensures
        r == is_ws_char(c),
{
    c == ' ' || c == '\t' || c == '\n' || c == '\r'
}

fn is_ascii_digit(c: char) -> (r: bool)
    ensures
        r == is_digit_char(c),
{
    let u = c as u32;
    48 <= u && u <= 57
}

fn is_ascii_lowercase(c: char) -> (r: bool)
    ensures
        r == is_lower_char(c),
{
    let u = c as u32;
    97 <= u && u <= 122
}

fn ends_quoted_run(c: char) -> (r: bool)
    ensures
        r == (c == '"' || c == '\0'),
{
    c == '"' || c == '\0'
}

/// The scanner: the input buffer and a cursor over it.
pub struct Lexer {
    /// input text
    input: String,
    /// current cursor position, counted in characters
    current_position: usize,
}

impl Lexer {
    /// The input as a character sequence.
    pub closed spec fn input_chars(&self) -> Seq<char> {
        self.input@
    }

    /// The cursor position.
    pub closed spec fn cursor(&self) -> int {
        self.current_position as int
    }

    /// Well-formedness: the cursor stays inside `[0, len]`.
    pub open spec fn wf(&self) -> bool {
        0 <= self.cursor() <= self.input_chars().len() <= usize::MAX
    }

    /// A fresh scanner over `input`, with the cursor at the start.
    pub fn new(input: String) -> (l: Lexer)
        ensures
            l.wf(),
            l.input_chars() == input@,
            l.cursor() == 0,
    {
        // counting the characters once records that their number fits in
        // usize, which wf() carries from here on
        let _char_count: usize = input.as_str().unicode_len();
        Lexer { input, current_position: 0 }
    }

    fn get_current_char(&self) -> (c: char)
        requires
            self.wf(),
        ensures
            c == char_at(self.input_chars(), self.cursor()),
    {
        let n = self.input.as_str().unicode_len();
        if self.current_position < n {
            self.input.as_str().get_char(self.current_position)
        } else {
            '\0'
        }
    }

    fn peek_next_char(&self) -> (c: char)
        requires
            self.wf(),
        ensures
            c == char_at(self.input_chars(), self.cursor() + 1),
    {
        let n = self.input.as_str().unicode_len();
        if self.current_position < n && self.current_position + 1 < n {
            self.input.as_str().get_char(self.current_position + 1)
        } else {
            '\0'
        }
    }

    fn move_current_position_once(&mut self)
        requires
            old(self).wf(),
        ensures
            final(self).wf(),
            final(self).input_chars() == old(self).input_chars(),
            final(self).cursor() == advance(old(self).input_chars(), old(self).cursor()),
    {
        let n = self.input.as_str().unicode_len();
        if self.current_position < n {
            self.current_position = self.current_position + 1;
        }
    }

    fn skip_next_whitespaces(&mut self)
        requires
            old(self).wf(),
        ensures
            final(self).wf(),
            final(self).input_chars() == old(self).input_chars(),
            final(self).cursor() == ws_end(old(self).input_chars(), old(self).cursor()),
    {
        let ghost s = self.input_chars();
        let ghost start = self.cursor();
        proof {
            lemma_ws_end(s, start);
        }
        while is_ascii_whitespace(self.get_current_char())
            invariant
                self.wf(),
                self.input_chars() == s,
                start <= self.cursor() <= s.len(),
                forall|i: int| start <= i < self.cursor() ==> is_ws_char(#[trigger] s[i]),
            decreases s.len() - self.cursor(),
        {
            self.move_current_position_once();
        }
    }

    fn read_int(&mut self) -> (r: String)
        requires
            old(self).wf(),
            is_digit_char(char_at(old(self).input_chars(), old(self).cursor())),
        ensures
            final(self).wf(),
            final(self).input_chars() == old(self).input_chars(),
            final(self).cursor() == digit_end(old(self).input_chars(), old(self).cursor()) - 1,
            r@ == old(self).input_chars().subrange(
                old(self).cursor(),
                digit_end(old(self).input_chars(), old(self).cursor()),
            ),
    {
        let ghost s = self.input_chars();
        let ghost start0 = self.cursor();
        proof {
            lemma_digit_end(s, start0);
        }
        let start = self.current_position;
        while is_ascii_digit(self.peek_next_char())
            invariant
                self.wf(),
                self.input_chars() == s,
                start == start0,
                start0 <= self.cursor() < s.len(),
                forall|i: int| start0 <= i <= self.cursor() ==> is_digit_char(#[trigger] s[i]),
            decreases s.len() - self.cursor(),
        {
            self.move_current_position_once();
        }
        proof {
            assert(digit_end(s, start0) == self.cursor() + 1);
        }
        let end = self.current_position + 1;
        let sub = self.input.as_str().substring_char(start, end);
        sub.to_owned()
    }

    fn read_ident(&mut self) -> (r: String)
        requires
            old(self).wf(),
            is_lower_char(char_at(old(self).input_chars(), old(self).cursor())),
        ensures
            final(self).wf(),
            final(self).input_chars() == old(self).input_chars(),
            final(self).cursor() == lower_end(old(self).input_chars(), old(self).cursor()) - 1,
            r@ == old(self).input_chars().subrange(
                old(self).cursor(),
                lower_end(old(self).input_chars(), old(self).cursor()),
            ),
    {
        let ghost s = self.input_chars();
        let ghost start0 = self.cursor();
        proof {
            lemma_lower_end(s, start0);
        }
        let start = self.current_position;
        while is_ascii_lowercase(self.peek_next_char())
            invariant
                self.wf(),
                self.input_chars() == s,
                start == start0,
                start0 <= self.cursor() < s.len(),
                forall|i: int| start0 <= i <= self.cursor() ==> is_lower_char(#[trigger] s[i]),
            decreases s.len() - self.cursor(),
        {
            self.move_current_position_once();
        }
        proof {
            assert(lower_end(s, start0) == self.cursor() + 1);
        }
        let end = self.current_position + 1;
        let sub = self.input.as_str().substring_char(start, end);
        sub.to_owned()
    }

    fn read_inside_double_quotes(&mut self) -> (r: String)
        requires
            old(self).wf(),
            char_at(old(self).input_chars(), old(self).cursor()) == '"',
        ensures
            final(self).wf(),
            final(self).input_chars() == old(self).input_chars(),
            final(self).cursor() == qstr_end(old(self).input_chars(), old(self).cursor() + 1),
            r@ == old(self).input_chars().subrange(
                old(self).cursor() + 1,
                qstr_end(old(self).input_chars(), old(self).cursor() + 1),
            ),
    {
        let ghost s = self.input_chars();
        let ghost start0 = self.cursor();
        proof {
            lemma_qstr_end(s, start0 + 1);
        }
        self.move_current_position_once();
        let start = self.current_position;
        while !ends_quoted_run(self.get_current_char())
            invariant
                self.wf(),
                self.input_chars() == s,
                start == start0 + 1,
                start0 + 1 <= self.cursor() <= s.len(),
                forall|i: int|
                    start0 + 1 <= i < self.cursor() ==> (#[trigger] s[i]) != '"' && s[i] != '\0',
            decreases s.len() - self.cursor(),
        {
            self.move_current_position_once();
        }
        proof {
            assert(qstr_end(s, start0 + 1) == self.cursor());
        }
        let sub = self.input.as_str().substring_char(start, self.current_position);
        sub.to_owned()
    }

    /// The next token of the input, or the lexical error that stops the
    /// scan.  Behaves exactly as one step of [`spec_step`]: whitespace is
    /// skipped, the token is classified by its first character, and the
    /// cursor ends just past the consumed lexeme.
    pub fn next_token(&mut self) -> (r: Result<Token, LexError>)
        requires
            old(self).wf(),
        ensures
            final(self).wf(),
            final(self).input_chars() == old(self).input_chars(),
            (match spec_step(old(self).input_chars(), old(self).cursor()) {
                ScanStep::Tok(t, p2) => r matches Ok(tok) && tok@ == t && final(self).cursor()
                    == p2,
                ScanStep::Fail(e) => r matches Err(err) && err@ == e,
            }),
    {
        let ghost s = self.input_chars();
        let ghost pos0 = self.cursor();
        self.skip_next_whitespaces();
        let ghost p = self.cursor();
        let c = self.get_current_char();
        let token: Token;
        if c == '\0' {
            token = Token::EOF;
        } else if c == '{' {
            token = Token::LSquirly;
        } else if c == '}' {
            token = Token::RSquirly;
        } else if c == '[' {
            token = Token::LSquare;
        } else if c == ']' {
            token = Token::RSquare;
        } else if c == ':' {
            token = Token::Colon;
        } else if c == ',' {
            token = Token::Comma;
        } else if c == '"' {
            let word = self.read_inside_double_quotes();
            proof {
                lemma_qstr_end(s, p + 1);
            }
            token = Token::Word(word);
        } else if is_ascii_lowercase(c) {
            proof {
                lemma_lower_end(s, p);
            }
            let ident = self.read_ident();
            if ident == String::from_str("true") {
                token = Token::True;
            } else if ident == String::from_str("false") {
                token = Token::False;
            } else if ident == String::from_str("null") {
                token = Token::Null;
            } else {
                return Err(LexError::UnknownLiteral(ident));
            }
        } else if is_ascii_digit(c) {
            proof {
                lemma_digit_end(s, p);
            }
            let int_text = self.read_int();
            token = Token::Int(int_text);
        } else {
            return Err(LexError::UnrecognizedChar(c));
        }
        self.move_current_position_once();
        Ok(token)
    }

    /// The whole token stream, up to and including the end-of-input token,
    /// or the first lexical error encountered (fail-fast).
    pub fn read_all_tokens(&mut self) -> (r: Result<Vec<Token>, LexError>)
        requires
            old(self).wf(),
        ensures
            final(self).wf(),
            final(self).input_chars() == old(self).input_chars(),
            (match spec_scan(old(self).input_chars(), old(self).cursor()) {
                Ok(ts) => r matches Ok(v) && v.deep_view() == ts,
                Err(e) => r matches Err(err) && err@ == e,
            }),
    {
        let ghost s = self.input_chars();
        let ghost pos0 = self.cursor();
        let mut actual_tokens: Vec<Token> = Vec::new();
        proof {
            assert(actual_tokens.deep_view() =~= Seq::<TokenV>::empty());
            assert(prepend_scan(actual_tokens.deep_view(), spec_scan(s, pos0)) == spec_scan(
                s,
                pos0,
            )) by {
                if spec_scan(s, pos0) is Ok {
                    assert(Seq::<TokenV>::empty() + spec_scan(s, pos0)->Ok_0 =~= spec_scan(
                        s,
                        pos0,
                    )->Ok_0);
                }
            }
        }
        loop
            invariant
                self.wf(),
                self.input_chars() == s,
                s == old(self).input_chars(),
                pos0 == old(self).cursor(),
                0 <= pos0 <= s.len(),
                prepend_scan(actual_tokens.deep_view(), spec_scan(s, self.cursor())) == spec_scan(
                    s,
                    pos0,
                ),
            decreases s.len() - self.cursor(),
        {
            let ghost cur = self.cursor();
            let ghost acc = actual_tokens.deep_view();
            let step = self.next_token();
            match step {
                Err(e) => {
                    proof {
                        assert(spec_scan(s, cur) == Err::<Seq<TokenV>, LexErrorV>(e@));
                    }
                    return Err(e);
                },
                Ok(token) => {
                    let is_eof = matches!(&token, Token::EOF);
                    proof {
                        lemma_step_bounds(s, cur);
                    }
                    let ghost t = token@;
                    actual_tokens.push(token);
                    proof {
                        assert(actual_tokens.deep_view() =~= acc + seq![t]);
                    }
                    if is_eof {
                        proof {
                            assert(spec_scan(s, cur) == Ok::<_, LexErrorV>(seq![TokenV::EOF]));
                            assert(acc + seq![TokenV::EOF] =~= actual_tokens.deep_view());
                        }
                        return Ok(actual_tokens);
                    }
                    proof {
                        let rest = spec_scan(s, self.cursor());
                        if rest is Ok {
                            assert(spec_scan(s, cur) == Ok::<_, LexErrorV>(
                                seq![t] + rest->Ok_0,
                            ));
                            assert(acc + (seq![t] + rest->Ok_0) =~= (acc + seq![t])
                                + rest->Ok_0);
                        }
                    }
                },
            }
        }
    }
}

} // verus!
