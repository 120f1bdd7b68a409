//! Lexer for the scripting language: source text in, a finite, forward-only
//! stream of tokens out.
//!
//! At each position the lexer skips spaces and newlines, then tries the
//! reserved words (`var`, `function`, `return`) as literal prefixes — first
//! match wins, with no word-boundary check — and otherwise dispatches on the
//! current character: a punctuator, a maximal run of decimal digits (with
//! unsigned wraparound), an identifier (ASCII letters and `$` only; digits
//! and `_` end a run), or a double-quoted string without escapes.  Any other
//! character is a fatal error.

use vstd::prelude::*;

verus! {

/// One lexical token.
#[derive(Debug)]
pub enum Token {
    Punctuator(char),
    Number(u64),
    Identifier(String),
    Keyword(String),
    StringLiteral(String),
}

/// Mathematical model of a [`Token`].
pub enum TokenV {
    Punctuator(char),
    Number(u64),
    Identifier(Seq<char>),
    Keyword(Seq<char>),
    StringLiteral(Seq<char>),
}

impl View for Token {
    type V = TokenV;

    closed spec fn view(&self) -> TokenV {
        match self {
            Token::Punctuator(c) => TokenV::Punctuator(*c),
            Token::Number(n) => TokenV::Number(*n),
            Token::Identifier(s) => TokenV::Identifier(s@),
            Token::Keyword(s) => TokenV::Keyword(s@),
            Token::StringLiteral(s) => TokenV::StringLiteral(s@),
        }
    }
}

impl Clone for Token {
    fn clone(&self) -> (r: Self)
        ensures
            r@ == self@,
    {
        match self {
            Token::Punctuator(c) => Token::Punctuator(*c),
            Token::Number(n) => Token::Number(*n),
            Token::Identifier(s) => Token::Identifier(s.clone()),
            Token::Keyword(s) => Token::Keyword(s.clone()),
            Token::StringLiteral(s) => Token::StringLiteral(s.clone()),
        }
    }
}

impl PartialEq for Token {
    fn eq(&self, other: &Self) -> bool {
        match (self, other) {
            (Token::Punctuator(a), Token::Punctuator(b)) => *a == *b,
            (Token::Number(a), Token::Number(b)) => *a == *b,
            (Token::Identifier(a), Token::Identifier(b)) => *a == *b,
            (Token::Keyword(a), Token::Keyword(b)) => *a == *b,
            (Token::StringLiteral(a), Token::StringLiteral(b)) => *a == *b,
            _ => false,
        }
    }
}

impl vstd::std_specs::cmp::PartialEqSpecImpl for Token {
    open spec fn obeys_eq_spec() -> bool {
        true
    }

    open spec fn eq_spec(&self, other: &Self) -> bool {
        self@ == other@
    }
}

/// The fatal lexer condition: a character outside the supported alphabet.
#[derive(Debug, Clone, Copy, PartialEq, Eq, Structural)]
pub enum LexError {
    UnsupportedCharacter(char),
}

/// Whitespace the lexer skips.
pub open spec fn is_ws(c: char) -> bool {
    c == ' ' || c == '\n'
}

/// A decimal digit.
pub open spec fn is_digit(c: char) -> bool {
    '0' <= c && c <= '9'
}

/// A character that may start an identifier.
pub open spec fn is_ident_start(c: char) -> bool {
    ('a' <= c && c <= 'z') || ('A' <= c && c <= 'Z') || c == '_' || c == '$'
}

/// A character inside an identifier run: ASCII letters and `$` only.
pub open spec fn is_ident_char(c: char) -> bool {
    ('a' <= c && c <= 'z') || ('A' <= c && c <= 'Z') || c == '$'
}

/// A single-character punctuator.
pub open spec fn is_punctuator(c: char) -> bool {
    c == '+' || c == '-' || c == '=' || c == ';' || c == '(' || c == ')' || c == '{' || c == '}'
        || c == ',' || c == '.'
}

/// The first position at or after `pos` that holds no whitespace.
pub open spec fn spec_skip_ws(input: Seq<char>, pos: int) -> int
    decreases input.len() - pos,
{
    if !(0 <= pos < input.len()) {
        pos
    } else if is_ws(input[pos]) {
        spec_skip_ws(input, pos + 1)
    } else {
        pos
    }
}

/// The end of the maximal digit run starting at `pos`.
pub open spec fn digit_run_end(input: Seq<char>, pos: int) -> int
    decreases input.len() - pos,
{
    if !(0 <= pos < input.len()) {
        pos
    } else if is_digit(input[pos]) {
        digit_run_end(input, pos + 1)
    } else {
        pos
    }
}

/// The end of the maximal identifier run starting at `pos`.
pub open spec fn ident_run_end(input: Seq<char>, pos: int) -> int
    decreases input.len() - pos,
{
    if !(0 <= pos < input.len()) {
        pos
    } else if is_ident_char(input[pos]) {
        ident_run_end(input, pos + 1)
    } else {
        pos
    }
}

/// The position of the closing quote at or after `pos`, or the end of the
/// input if the string literal is never closed.
pub open spec fn string_run_end(input: Seq<char>, pos: int) -> int
    decreases input.len() - pos,
{
    if !(0 <= pos < input.len()) {
        pos
    } else if input[pos] == '"' {
        pos
    } else {
        string_run_end(input, pos + 1)
    }
}

/// One accumulation step of the decimal value, with unsigned wraparound.
pub open spec fn wrap_step(v: u64, d: u64) -> u64 {
    vstd::wrapping::u64_specs::wrapping_add(vstd::wrapping::u64_specs::wrapping_mul(v, 10), d)
}

/// The numeric value of a digit character.
pub open spec fn digit_val(c: char) -> u64 {
    (c as u32 - '0' as u32) as u64
}

/// The value of a digit run, accumulated left to right with wraparound.
pub open spec fn digits_value(s: Seq<char>) -> u64
    decreases s.len(),
{
    if s.len() == 0 {
        0
    } else {
        wrap_step(digits_value(s.drop_last()), digit_val(s.last()))
    }
}

/// Whether the word `w` occurs literally at `pos`.
pub open spec fn word_at(input: Seq<char>, pos: int, w: Seq<char>) -> bool {
    &&& 0 <= pos
    &&& pos + w.len() <= input.len()
    &&& input.subrange(pos, pos + w.len()) == w
}

/// The first reserved word that occurs literally at `pos`, if any, in the
/// fixed order `var`, `function`, `return`.
pub open spec fn spec_reserved(input: Seq<char>, pos: int) -> Option<Seq<char>> {
    if word_at(input, pos, "var"@) {
        Some("var"@)
    } else if word_at(input, pos, "function"@) {
        Some("function"@)
    } else if word_at(input, pos, "return"@) {
        Some("return"@)
    } else {
        None
    }
}

/// What one lexing step at `pos` produces: a token and the position after
/// it, exhaustion (at the position where skipping whitespace ended), or the
/// fatal condition at the position of the unsupported character.
pub enum LexStep {
    Token(TokenV, int),
    End(int),
    Fatal(int),
}

/// The lexer's single-step function.
pub open spec fn spec_next_token(input: Seq<char>, pos: int) -> LexStep {
    let p = spec_skip_ws(input, pos);
    if !(p < input.len()) {
        LexStep::End(p)
    } else {
        match spec_reserved(input, p) {
            Some(w) => LexStep::Token(TokenV::Keyword(w), p + w.len()),
            None => {
                let c = input[p];
                if is_punctuator(c) {
                    LexStep::Token(TokenV::Punctuator(c), p + 1)
                } else if is_digit(c) {
                    let e = digit_run_end(input, p);
                    LexStep::Token(TokenV::Number(digits_value(input.subrange(p, e))), e)
                } else if is_ident_start(c) {
                    let e = ident_run_end(input, p);
                    LexStep::Token(TokenV::Identifier(input.subrange(p, e)), e)
                } else if c == '"' {
                    let e = string_run_end(input, p + 1);
                    LexStep::Token(
                        TokenV::StringLiteral(input.subrange(p + 1, e)),
                        if e < input.len() {
                            e + 1
                        } else {
                            e
                        },
                    )
                } else {
                    LexStep::Fatal(p)
                }
            },
        }
    }
}

/// Relies on String::push: appends exactly one character to the string.
#[verifier::external_body]
pub(crate) fn push_char(s: &mut String, c: char)
    ensures
        final(s)@ == old(s)@.push(c),
{
    s.push(c);
}

/// The lexer: the source as characters plus the current position.
pub struct JsLexer {
    pos: usize,
    input: Vec<char>,
}

/// Mathematical model of a [`JsLexer`].
pub struct JsLexerV {
    pub input: Seq<char>,
    pub pos: usize,
}

impl View for JsLexer {
    type V = JsLexerV;

    closed spec fn view(&self) -> JsLexerV {
        JsLexerV { input: self.input@, pos: self.pos }
    }
}

impl JsLexer {
    /// The position never runs past the end of the input.
    pub open spec fn wf(&self) -> bool {
        self@.pos <= self@.input.len()
    }

    /// A lexer over the given source text, positioned at its start.
    pub fn new(js: String) -> (r: JsLexer)
        ensures
            r@.input == js@,
            r@.pos == 0,
            r.wf(),
    {
        let mut input: Vec<char> = Vec::new();
        let s = js.as_str();
        let n = s.unicode_len();
        let mut i: usize = 0;
        while i < n
            invariant
                i <= n,
                n == s@.len(),
                input@ == s@.take(i as int),
            decreases n - i,
        {
            input.push(s.get_char(i));
            i = i + 1;
            proof {
                assert(input@ =~= s@.take(i as int));
            }
        }
        proof {
            assert(input@ =~= js@);
        }
        JsLexer { pos: 0, input }
    }
}

} // verus!

verus! {

impl JsLexer {
    /// Whether `keyword` occurs literally at the current position.
    fn contains(&self, keyword: &str) -> (r: bool)
        requires
            self.wf(),
        ensures
            r == word_at(self@.input, self@.pos as int, keyword@),
    {
        let klen = keyword.unicode_len();
        if klen > self.input.len() - self.pos {
            return false;
        }
        let ghost input = self@.input;
        let ghost pos = self@.pos as int;
        let mut i: usize = 0;
        while i < klen
            invariant
                i <= klen,
                klen == keyword@.len(),
                pos == self@.pos,
                input == self@.input,
                input.len() <= usize::MAX,
                self.wf(),
                pos + klen <= input.len(),
                forall|j: int| 0 <= j < i ==> input[pos + j] == keyword@[j],
            decreases klen - i,
        {
            if keyword.get_char(i) != self.input[self.pos + i] {
                proof {
                    assert(input.subrange(pos, pos + klen)[i as int] != keyword@[i as int]);
                }
                return false;
            }
            i = i + 1;
        }
        proof {
            assert(input.subrange(pos, pos + klen) =~= keyword@);
        }
        true
    }

    /// The first reserved word at the current position, if any.
    fn check_reserved_word(&self) -> (r: Option<String>)
        requires
            self.wf(),
        ensures
            match r {
                Some(w) => spec_reserved(self@.input, self@.pos as int) == Some(w@),
                None => spec_reserved(self@.input, self@.pos as int) is None,
            },
    {
        if self.contains("var") {
            return Some(String::from_str("var"));
        }
        if self.contains("function") {
            return Some(String::from_str("function"));
        }
        if self.contains("return") {
            return Some(String::from_str("return"));
        }
        None
    }

    /// Consumes the maximal digit run at the current position, accumulating
    /// its decimal value with unsigned wraparound.
    fn cunsume_number(&mut self) -> (num: u64)
        requires
            old(self).wf(),
        ensures
            final(self).wf(),
            final(self)@.input == old(self)@.input,
            final(self)@.pos == digit_run_end(old(self)@.input, old(self)@.pos as int),
            num == digits_value(
                old(self)@.input.subrange(old(self)@.pos as int, final(self)@.pos as int),
            ),
    {
        let mut num: u64 = 0;
        let ghost input = self@.input;
        let ghost start = self@.pos as int;
        proof {
            assert(input.subrange(start, start) =~= Seq::<char>::empty());
        }
        loop
            invariant
                self.wf(),
                input == old(self)@.input,
                input == self@.input,
                start == old(self)@.pos as int,
                start <= self@.pos as int,
                digit_run_end(input, start) == digit_run_end(input, self@.pos as int),
                num == digits_value(input.subrange(start, self@.pos as int)),
            decreases input.len() - self@.pos,
        {
            if self.pos >= self.input.len() {
                return num;
            }
            let c = self.input[self.pos];
            if c >= '0' && c <= '9' {
                let d = (c as u32 - '0' as u32) as u64;
                num = num.wrapping_mul(10).wrapping_add(d);
                self.pos = self.pos + 1;
                proof {
                    let p = self@.pos as int;
                    assert(input.subrange(start, p).drop_last() =~= input.subrange(start, p - 1));
                    assert(input.subrange(start, p).last() == input[p - 1]);
                }
            } else {
                return num;
            }
        }
    }

    /// Consumes the maximal identifier run at the current position.
    fn consume_indentifier(&mut self) -> (result: String)
        requires
            old(self).wf(),
        ensures
            final(self).wf(),
            final(self)@.input == old(self)@.input,
            final(self)@.pos == ident_run_end(old(self)@.input, old(self)@.pos as int),
            result@ == old(self)@.input.subrange(old(self)@.pos as int, final(self)@.pos as int),
    {
        let mut result = String::new();
        let ghost input = self@.input;
        let ghost start = self@.pos as int;
        proof {
            assert(input.subrange(start, start) =~= Seq::<char>::empty());
        }
        loop
            invariant
                self.wf(),
                input == old(self)@.input,
                input == self@.input,
                start == old(self)@.pos as int,
                start <= self@.pos as int,
                ident_run_end(input, start) == ident_run_end(input, self@.pos as int),
                result@ == input.subrange(start, self@.pos as int),
            decreases input.len() - self@.pos,
        {
            if self.pos >= self.input.len() {
                return result;
            }
            let c = self.input[self.pos];
            if (c >= 'a' && c <= 'z') || (c >= 'A' && c <= 'Z') || c == '$' {
                push_char(&mut result, c);
                self.pos = self.pos + 1;
                proof {
                    let p = self@.pos as int;
                    assert(input.subrange(start, p) =~= input.subrange(start, p - 1).push(
                        input[p - 1],
                    ));
                }
            } else {
                return result;
            }
        }
    }

    /// Consumes a string literal: skips the opening quote, then reads raw
    /// characters until a closing quote (consumed) or the end of the input.
    fn consume_string(&mut self) -> (result: String)
        requires
            old(self).wf(),
            (old(self)@.pos as int) < old(self)@.input.len(),
        ensures
            final(self).wf(),
            final(self)@.input == old(self)@.input,
            result@ == old(self)@.input.subrange(
                old(self)@.pos as int + 1,
                string_run_end(old(self)@.input, old(self)@.pos as int + 1),
            ),
            final(self)@.pos as int == ({
                let e = string_run_end(old(self)@.input, old(self)@.pos as int + 1);
                if e < old(self)@.input.len() {
                    e + 1
                } else {
                    e
                }
            }),
    {
        let mut result = String::new();
        let ghost input = self@.input;
        let n = self.input.len();
        proof {
            assert(self@.pos < n);
        }
        self.pos = self.pos + 1;
        let ghost start = self@.pos as int;
        proof {
            assert(input.subrange(start, start) =~= Seq::<char>::empty());
        }
        loop
            invariant
                self.wf(),
                input == old(self)@.input,
                input == self@.input,
                start == old(self)@.pos as int + 1,
                start <= self@.pos as int,
                string_run_end(input, start) == string_run_end(input, self@.pos as int),
                result@ == input.subrange(start, self@.pos as int),
            decreases input.len() - self@.pos,
        {
            if self.pos >= self.input.len() {
                return result;
            }
            let c = self.input[self.pos];
            if c == '"' {
                proof {
                    assert(string_run_end(input, self@.pos as int) == self@.pos as int);
                }
                self.pos = self.pos + 1;
                return result;
            }
            push_char(&mut result, c);
            self.pos = self.pos + 1;
            proof {
                let p = self@.pos as int;
                assert(input.subrange(start, p) =~= input.subrange(start, p - 1).push(
                    input[p - 1],
                ));
            }
        }
    }

    /// Produces the next token, `None` at exhaustion, or the fatal error on
    /// an unsupported character.
    pub fn next(&mut self) -> (r: Result<Option<Token>, LexError>)
        requires
            old(self).wf(),
        ensures
            final(self).wf(),
            final(self)@.input == old(self)@.input,
            match spec_next_token(old(self)@.input, old(self)@.pos as int) {
                LexStep::End(p) => r == Ok::<Option<Token>, LexError>(None::<Token>)
                    && final(self)@.pos == p,
                LexStep::Token(t, e) => (r matches Ok(Some(tok)) && tok@ == t) && final(self)@.pos
                    == e,
                LexStep::Fatal(p) => r == Err::<Option<Token>, LexError>(
                    LexError::UnsupportedCharacter(old(self)@.input[p]),
                ) && final(self)@.pos == p,
            },
    {
        let ghost input = self@.input;
        let ghost start = self@.pos as int;
        if self.pos >= self.input.len() {
            return Ok(None);
        }
        while self.pos < self.input.len() && (self.input[self.pos] == ' ' || self.input[self.pos]
            == '\n')
            invariant
                self.wf(),
                input == old(self)@.input,
                input == self@.input,
                start == old(self)@.pos as int,
                start <= self@.pos as int,
                spec_skip_ws(input, start) == spec_skip_ws(input, self@.pos as int),
            decreases input.len() - self@.pos,
        {
            self.pos = self.pos + 1;
        }
        proof {
            assert(spec_skip_ws(input, self@.pos as int) == self@.pos as int);
        }
        if self.pos >= self.input.len() {
            return Ok(None);
        }
        if let Some(keyword) = self.check_reserved_word() {
            let klen = keyword.as_str().unicode_len();
            proof {
                assert(self@.pos + klen <= input.len());
            }
            self.pos = self.pos + klen;
            return Ok(Some(Token::Keyword(keyword)));
        }
        let c = self.input[self.pos];
        if c == '+' || c == '-' || c == '=' || c == ';' || c == '(' || c == ')' || c == '{' || c
            == '}' || c == ',' || c == '.' {
            self.pos = self.pos + 1;
            Ok(Some(Token::Punctuator(c)))
        } else if c >= '0' && c <= '9' {
            let num = self.cunsume_number();
            Ok(Some(Token::Number(num)))
        } else if (c >= 'a' && c <= 'z') || (c >= 'A' && c <= 'Z') || c == '_' || c == '$' {
            let result = self.consume_indentifier();
            Ok(Some(Token::Identifier(result)))
        } else if c == '"' {
            let result = self.consume_string();
            Ok(Some(Token::StringLiteral(result)))
        } else {
            Err(LexError::UnsupportedCharacter(c))
        }
    }
}

} // verus!

verus! {

/// A run of digits reaching the end of the input ends the digit run there.
proof fn lemma_digit_run_all(input: Seq<char>, i: int)
    requires
        0 <= i <= input.len(),
        forall|j: int| i <= j < input.len() ==> is_digit(#[trigger] input[j]),
    ensures
        digit_run_end(input, i) == input.len(),
    decreases input.len() - i,
{
    if i < input.len() {
        lemma_digit_run_all(input, i + 1);
    }
}

/// Digit-only, non-empty input lexes to exactly one number token that
/// carries the input's decimal value, read left to right with unsigned
/// wraparound; the next step after it reports exhaustion.
pub proof fn lemma_digits_lex_to_one_number(input: Seq<char>)
    requires
        input.len() > 0,
        forall|j: int| 0 <= j < input.len() ==> is_digit(#[trigger] input[j]),
    ensures
        spec_next_token(input, 0) == LexStep::Token(
            TokenV::Number(digits_value(input)),
            input.len() as int,
        ),
        spec_next_token(input, input.len() as int) == LexStep::End(input.len() as int),
{
    reveal_strlit("var");
    reveal_strlit("function");
    reveal_strlit("return");
    assert(is_digit(input[0]));
    assert(!is_ws(input[0]));
    assert(spec_skip_ws(input, 0) == 0);
    if word_at(input, 0, "var"@) {
        assert(input.subrange(0, 3)[0] == 'v');
        assert(false);
    }
    if word_at(input, 0, "function"@) {
        assert(input.subrange(0, 8)[0] == 'f');
        assert(false);
    }
    if word_at(input, 0, "return"@) {
        assert(input.subrange(0, 6)[0] == 'r');
        assert(false);
    }
    lemma_digit_run_all(input, 0);
    assert(input.subrange(0, input.len() as int) =~= input);
}

} // verus!
