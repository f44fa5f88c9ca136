//! The validator: structural well-formedness of a complete token stream.
//!
//! [`JsonValidator`] scans an input string once and then decides validity
//! by four independent rules, all of which must hold: outer wrapping,
//! bracket balance, no trailing commas, and no leading zeroes in integer
//! literals.  Structural invalidity is a normal negative verdict, never an
//! error; a lexical error upstream also yields a negative verdict.

use crate::lexer::LexError;
use crate::lexer::LexErrorV;
use crate::lexer::Lexer;
use crate::lexer::ScanStep;
use crate::lexer::is_ws_char;
use crate::lexer::lemma_ws_end;
use crate::lexer::spec_scan;
use crate::lexer::spec_step;
use crate::lexer::ws_end;
use crate::token::Token;
use crate::token::TokenV;
use crate::token::spec_is_close_bracket;
use crate::token::spec_is_open_bracket;
use crate::token::spec_matching_open;
use vstd::prelude::*;
use vstd::string::StrSliceExecFns;

verus! {

/// Outer wrapping: the sequence ends in the end-of-input token, and the
/// document starts with an open bracket whose close bracket of the same
/// kind stands right before the end-of-input token.
pub open spec fn spec_wrapped(ts: Seq<TokenV>) -> bool {
    &&& ts.len() >= 2
    &&& ts[ts.len() - 1] is EOF
    &&& {
        ||| (ts[0] is LSquirly && ts[ts.len() - 2] is RSquirly)
        ||| (ts[0] is LSquare && ts[ts.len() - 2] is RSquare)
    }
}

/// Bracket balance from position `i` on, given the stack of open brackets
/// seen so far: opens are pushed, closes must match the top of the stack,
/// and at the end the stack must be empty.
pub open spec fn balanced_from(ts: Seq<TokenV>, i: int, stack: Seq<TokenV>) -> bool
    decreases ts.len() - i
        when 0 <= i <= ts.len()
{
    if i == ts.len() {
        stack.len() == 0
    } else if spec_is_open_bracket(ts[i]) {
        balanced_from(ts, i + 1, stack.push(ts[i]))
    } else if spec_is_close_bracket(ts[i]) {
        &&& stack.len() > 0
        &&& stack.last() == spec_matching_open(ts[i])
        &&& balanced_from(ts, i + 1, stack.drop_last())
    } else {
        balanced_from(ts, i + 1, stack)
    }
}

/// Bracket balance of the whole sequence.
pub open spec fn spec_balanced(ts: Seq<TokenV>) -> bool {
    balanced_from(ts, 0, Seq::empty())
}

/// No comma stands immediately before a close bracket.
pub open spec fn spec_no_trailing_commas(ts: Seq<TokenV>) -> bool {
    forall|i: int|
        1 <= i < ts.len() ==> !(ts[i - 1] is Comma && spec_is_close_bracket(#[trigger] ts[i]))
}

/// An integer literal's text passes the leading-zero rule: `"0"` alone is
/// allowed, a longer literal must not start with `'0'`.
pub open spec fn spec_int_text_ok(text: Seq<char>) -> bool {
    text.len() <= 1 || text[0] != '0'
}

/// Every integer literal in the sequence passes the leading-zero rule.
pub open spec fn spec_no_leading_zeroes(ts: Seq<TokenV>) -> bool {
    forall|i: int|
        0 <= i < ts.len() ==> ((#[trigger] ts[i]) matches TokenV::Int(text)
            ==> spec_int_text_ok(text))
}

/// A complete token sequence denotes a well-formed document: all four
/// structural rules hold.
pub open spec fn spec_valid_tokens(ts: Seq<TokenV>) -> bool {
    &&& spec_wrapped(ts)
    &&& spec_balanced(ts)
    &&& spec_no_trailing_commas(ts)
    &&& spec_no_leading_zeroes(ts)
}

/// The verdict over a scan outcome: a lexical error is never valid.
pub open spec fn spec_valid_scan(r: Result<Seq<TokenV>, LexErrorV>) -> bool {
    match r {
        Ok(ts) => spec_valid_tokens(ts),
        Err(_) => false,
    }
}

/// The verdict over a raw input: scan it from the start and validate the
/// token sequence.
pub open spec fn spec_json_valid(s: Seq<char>) -> bool {
    spec_valid_scan(spec_scan(s, 0))
}

/// The validator: holds the outcome of scanning one input to exhaustion.
pub struct JsonValidator {
    tokens: Result<Vec<Token>, LexError>,
}

impl JsonValidator {
    /// The scan outcome this validator judges, as a mathematical value.
    pub closed spec fn scan(&self) -> Result<Seq<TokenV>, LexErrorV> {
        match &self.tokens {
            Ok(v) => Ok(v.deep_view()),
            Err(e) => Err(e@),
        }
    }

    /// A validator over the token stream scanned from `input`.
    pub fn new(input: String) -> (v: JsonValidator)
        ensures
            v.scan() == spec_scan(input@, 0),
    {
        let tokens = Lexer::new(input).read_all_tokens();
        JsonValidator { tokens }
    }

    /// Whether the input is well-formed: the scan must have produced a
    /// token sequence that satisfies all four structural rules.
    pub fn is_valid(&self) -> (r: bool)
        ensures
            r == spec_valid_scan(self.scan()),
    {
        match &self.tokens {
            Ok(tokens) => {
                JsonValidator::is_wrapped_in_correct_brackets(tokens)
                    && JsonValidator::are_brackets_balanced(tokens)
                    && JsonValidator::no_trailing_commas(tokens)
                    && JsonValidator::no_leading_zeroes_in_numbers(tokens)
            },
            Err(_) => false,
        }
    }

    fn no_leading_zeroes_in_numbers(tokens: &Vec<Token>) -> (r: bool)
        ensures
            r == spec_no_leading_zeroes(tokens.deep_view()),
    {
        let ghost ts = tokens.deep_view();
        let n = tokens.len();
        let mut i: usize = 0;
        while i < n
            invariant
                n == tokens.len(),
                ts == tokens.deep_view(),
                0 <= i <= n,
                forall|j: int|
                    0 <= j < i ==> ((#[trigger] ts[j]) matches TokenV::Int(text)
                        ==> spec_int_text_ok(text)),
            decreases n - i,
        {
            match &tokens[i] {
                Token::Int(x) => {
                    let l = x.as_str().unicode_len();
                    if l > 1 {
                        if x.as_str().get_char(0) == '0' {
                            proof {
                                assert(ts[i as int] == tokens@[i as int]@);
                                assert(ts[i as int] matches TokenV::Int(text)
                                    && !spec_int_text_ok(text));
                            }
                            return false;
                        }
                    }
                },
                _ => {},
            }
            i = i + 1;
        }
        true
    }

    fn no_trailing_commas(tokens: &Vec<Token>) -> (r: bool)
        ensures
            r == spec_no_trailing_commas(tokens.deep_view()),
    {
        let ghost ts = tokens.deep_view();
        let n = tokens.len();
        let mut i: usize = 1;
        while i < n
            invariant
                n == tokens.len(),
                ts == tokens.deep_view(),
                1 <= i,
                forall|j: int|
                    1 <= j < i && j < n ==> !(ts[j - 1] is Comma && spec_is_close_bracket(
                        #[trigger] ts[j],
                    )),
            decreases n - i,
        {
            if tokens[i - 1].is_comma() && tokens[i].is_close_bracket() {
                proof {
                    assert(ts[i - 1] == tokens@[i - 1]@);
                    assert(ts[i as int] == tokens@[i as int]@);
                }
                return false;
            }
            i = i + 1;
        }
        true
    }

    fn is_wrapped_in_correct_brackets(tokens: &Vec<Token>) -> (r: bool)
        ensures
            r == spec_wrapped(tokens.deep_view()),
    {
        let n = tokens.len();
        if n >= 2 {
            let last_is_eof = matches!(&tokens[n - 1], Token::EOF);
            let object_wrapped = matches!(&tokens[0], Token::LSquirly) && matches!(
                &tokens[n - 2],
                Token::RSquirly,
            );
            let array_wrapped = matches!(&tokens[0], Token::LSquare) && matches!(
                &tokens[n - 2],
                Token::RSquare,
            );
            last_is_eof && (object_wrapped || array_wrapped)
        } else {
            false
        }
    }

    fn are_brackets_balanced(tokens: &Vec<Token>) -> (r: bool)
        ensures
            r == spec_balanced(tokens.deep_view()),
    {
        let ghost ts = tokens.deep_view();
        let n = tokens.len();
        let mut stack: Vec<Token> = Vec::new();
        let mut i: usize = 0;
        proof {
            assert(stack.deep_view() =~= Seq::<TokenV>::empty());
        }
        while i < n
            invariant
                n == tokens.len(),
                ts == tokens.deep_view(),
                0 <= i <= n,
                forall|j: int|
                    0 <= j < stack.deep_view().len() ==> spec_is_open_bracket(
                        #[trigger] stack.deep_view()[j],
                    ),
                spec_balanced(ts) == balanced_from(ts, i as int, stack.deep_view()),
            decreases n - i,
        {
            let ghost stack0 = stack.deep_view();
            let token = &tokens[i];
            if token.is_open_bracket() {
                if matches!(token, Token::LSquirly) {
                    stack.push(Token::LSquirly);
                } else {
                    stack.push(Token::LSquare);
                }
                proof {
                    assert(stack.deep_view() =~= stack0.push(ts[i as int]));
                }
            } else if token.is_close_bracket() {
                let expected_open = token.convert_to_open_bracket();
                match stack.pop() {
                    Some(top) => {
                        let kinds_match = (matches!(&expected_open, Token::LSquirly) && matches!(
                            &top,
                            Token::LSquirly,
                        )) || (matches!(&expected_open, Token::LSquare) && matches!(
                            &top,
                            Token::LSquare,
                        ));
                        if !kinds_match {
                            return false;
                        }
                        proof {
                            assert(stack.deep_view() =~= stack0.drop_last());
                        }
                    },
                    None => {
                        return false;
                    },
                }
            }
            i = i + 1;
        }
        stack.len() == 0
    }
}

/// The verdict for a raw input string: scan it and validate the tokens.
pub fn is_string_a_valid_json(input: String) -> (r: bool)
    ensures
        r == spec_json_valid(input@),
{
    JsonValidator::new(input).is_valid()
}

/// Any input that consists of one matched bracket pair — `{}` or `[]` —
/// with nothing but whitespace in between is valid.
pub proof fn lemma_matched_pair_valid(s: Seq<char>)
    requires
        s.len() >= 2,
        (s[0] == '{' && s[s.len() - 1] == '}') || (s[0] == '[' && s[s.len() - 1] == ']'),
        forall|i: int| 0 < i < s.len() - 1 ==> is_ws_char(#[trigger] s[i]),
    ensures
        spec_json_valid(s),
{
    let n = s.len() as int;
    assert(ws_end(s, 0) == 0);
    lemma_ws_end(s, 1);
    let e = ws_end(s, 1);
    assert(e == n - 1) by {
        if e < n - 1 {
            assert(is_ws_char(s[e]));
        }
        if e > n - 1 {
            assert(is_ws_char(s[n - 1]));
        }
    }
    assert(ws_end(s, n) == n);
    assert(spec_scan(s, n) == Ok::<Seq<TokenV>, LexErrorV>(seq![TokenV::EOF]));
    if s[0] == '{' {
        let ts = seq![TokenV::LSquirly, TokenV::RSquirly, TokenV::EOF];
        assert(spec_step(s, 1) == ScanStep::Tok(TokenV::RSquirly, n));
        assert(spec_scan(s, 1) == Ok::<Seq<TokenV>, LexErrorV>(
            seq![TokenV::RSquirly] + seq![TokenV::EOF],
        ));
        assert(spec_step(s, 0) == ScanStep::Tok(TokenV::LSquirly, 1));
        assert(seq![TokenV::LSquirly] + (seq![TokenV::RSquirly] + seq![TokenV::EOF]) =~= ts);
        assert(spec_scan(s, 0) == Ok::<Seq<TokenV>, LexErrorV>(ts));
        lemma_pair_tokens_valid(TokenV::LSquirly, TokenV::RSquirly, ts);
    } else {
        let ts = seq![TokenV::LSquare, TokenV::RSquare, TokenV::EOF];
        assert(spec_step(s, 1) == ScanStep::Tok(TokenV::RSquare, n));
        assert(spec_scan(s, 1) == Ok::<Seq<TokenV>, LexErrorV>(
            seq![TokenV::RSquare] + seq![TokenV::EOF],
        ));
        assert(spec_step(s, 0) == ScanStep::Tok(TokenV::LSquare, 1));
        assert(seq![TokenV::LSquare] + (seq![TokenV::RSquare] + seq![TokenV::EOF]) =~= ts);
        assert(spec_scan(s, 0) == Ok::<Seq<TokenV>, LexErrorV>(ts));
        lemma_pair_tokens_valid(TokenV::LSquare, TokenV::RSquare, ts);
    }
}

/// The three-token sequence of one matched bracket pair followed by the
/// end-of-input token satisfies all four structural rules.
proof fn lemma_pair_tokens_valid(open: TokenV, close: TokenV, ts: Seq<TokenV>)
    requires
        (open == TokenV::LSquirly && close == TokenV::RSquirly) || (open == TokenV::LSquare
            && close == TokenV::RSquare),
        ts =~= seq![open, close, TokenV::EOF],
    ensures
        spec_valid_tokens(ts),
{
    let st1 = Seq::<TokenV>::empty().push(open);
    assert(st1.drop_last().len() == 0);
    assert(balanced_from(ts, 3, st1.drop_last()));
    assert(balanced_from(ts, 2, st1.drop_last()));
    assert(balanced_from(ts, 1, st1));
    assert(balanced_from(ts, 0, Seq::<TokenV>::empty()));
}

/// A token sequence whose brackets are not balanced is never valid,
/// whatever the other rules say.
pub proof fn lemma_unbalanced_invalid(ts: Seq<TokenV>)
    requires
        !spec_balanced(ts),
    ensures
        !spec_valid_tokens(ts),
{
}

/// An input whose scan yields a token sequence with unbalanced brackets —
/// an extra close, an extra open, or a mismatched kind — is never valid.
pub proof fn lemma_unbalanced_input_invalid(s: Seq<char>, ts: Seq<TokenV>)
    requires
        spec_scan(s, 0) == Ok::<Seq<TokenV>, LexErrorV>(ts),
        !spec_balanced(ts),
    ensures
        !spec_json_valid(s),
{
    lemma_unbalanced_invalid(ts);
}

/// A token sequence in which a comma stands immediately before a close
/// bracket — at any position, hence at any nesting depth — is never valid.
pub proof fn lemma_trailing_comma_invalid(ts: Seq<TokenV>, i: int)
    requires
        1 <= i < ts.len(),
        ts[i - 1] is Comma,
        spec_is_close_bracket(ts[i]),
    ensures
        !spec_valid_tokens(ts),
{
    assert(!spec_no_trailing_commas(ts)) by {
        assert(ts[i - 1] is Comma && spec_is_close_bracket(ts[i]));
    }
}

/// A token sequence holding an integer literal of more than one digit
/// whose first digit is `'0'` is never valid.
pub proof fn lemma_leading_zero_invalid(ts: Seq<TokenV>, i: int)
    requires
        0 <= i < ts.len(),
        ts[i] matches TokenV::Int(text) && text.len() > 1 && text[0] == '0',
    ensures
        !spec_valid_tokens(ts),
{
    assert(!spec_no_leading_zeroes(ts)) by {
        assert(ts[i] matches TokenV::Int(text) && !spec_int_text_ok(text));
    }
}

/// The literal `"0"` alone does not violate the leading-zero rule: a
/// sequence whose every integer literal is the single digit zero passes it.
pub proof fn lemma_single_zero_passes(ts: Seq<TokenV>)
    requires
        forall|i: int|
            0 <= i < ts.len() ==> ((#[trigger] ts[i]) matches TokenV::Int(text) ==> text
                == seq!['0']),
    ensures
        spec_no_leading_zeroes(ts),
{
}

} // verus!
