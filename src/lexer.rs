//! The scanner that turns source text into tokens, one at a time.
use vstd::prelude::*;
use crate::text::{
    is_alnum, is_alnum_char, is_alpha, is_alpha_char, is_digit, is_digit_char, is_space,
    is_space_char, push_char, string_of_chars,
};
use crate::token::{keyword_kind, Token, TokenKind};

verus! {

/// The character that stands for the end of input.
pub const EOF_CHAR: char = '\0';

/// The character at `i`, or the end-of-input character past the end.
pub open spec fn char_at(s: Seq<char>, i: int) -> char {
    if 0 <= i < s.len() {
        s[i]
    } else {
        '\0'
    }
}

/// The position after `i`; the end of input is never passed.
pub open spec fn step(s: Seq<char>, i: int) -> int {
    if i < s.len() {
        i + 1
    } else {
        i
    }
}

/// The first position at or after `i` that does not hold whitespace.
pub open spec fn skip_space(s: Seq<char>, i: int) -> int
    decreases s.len() - i,
{
    if 0 <= i < s.len() && is_space_char(s[i]) {
        skip_space(s, i + 1)
    } else {
        i
    }
}

/// The end of the run of letters, digits and underscores that starts at `i`.
pub open spec fn word_end(s: Seq<char>, i: int) -> int
    decreases s.len() - i,
{
    if 0 <= i < s.len() && (is_alnum_char(s[i]) || s[i] == '_') {
        word_end(s, i + 1)
    } else {
        i
    }
}

/// The end of the run of decimal digits that starts at `i`.
pub open spec fn number_end(s: Seq<char>, i: int) -> int
    decreases s.len() - i,
{
    if 0 <= i < s.len() && is_digit_char(s[i]) {
        number_end(s, i + 1)
    } else {
        i
    }
}

/// The first position at or after `i` holding a double quote or the end of input.
pub open spec fn quote_end(s: Seq<char>, i: int) -> int
    decreases s.len() - i,
{
    if 0 <= i < s.len() && s[i] != '"' && s[i] != '\0' {
        quote_end(s, i + 1)
    } else {
        i
    }
}

/// Every scan for the end of a run moves forward and stops at the end of input.
pub proof fn lemma_ends_forward(s: Seq<char>, i: int)
    requires
        0 <= i <= s.len(),
    ensures
        i <= skip_space(s, i) <= s.len(),
        i <= word_end(s, i) <= s.len(),
        i <= number_end(s, i) <= s.len(),
        i <= quote_end(s, i) <= s.len(),
    decreases s.len() - i,
{
    if i < s.len() {
        lemma_ends_forward(s, i + 1);
    }
}

/// The kind of a token that is one punctuation character long.
pub open spec fn single_kind(c: char) -> Option<TokenKind> {
    if c == '+' {
        Some(TokenKind::Plus)
    } else if c == '-' {
        Some(TokenKind::Minus)
    } else if c == '/' {
        Some(TokenKind::Slash)
    } else if c == '*' {
        Some(TokenKind::Asterisk)
    } else if c == '%' {
        Some(TokenKind::Percentage)
    } else if c == '(' {
        Some(TokenKind::LeftParen)
    } else if c == ')' {
        Some(TokenKind::RightParen)
    } else if c == '{' {
        Some(TokenKind::LeftBrace)
    } else if c == '}' {
        Some(TokenKind::RightBrace)
    } else if c == '[' {
        Some(TokenKind::LeftSquare)
    } else if c == ']' {
        Some(TokenKind::RightSquare)
    } else if c == ':' {
        Some(TokenKind::Colon)
    } else if c == ';' {
        Some(TokenKind::Semicolon)
    } else if c == ',' {
        Some(TokenKind::Comma)
    } else {
        None
    }
}

/// For an operator that may take a second character: the second character, the kind
/// with it, and the kind without it.
pub open spec fn pair_kind(c: char) -> Option<(char, TokenKind, TokenKind)> {
    if c == '=' {
        Some(('=', TokenKind::Equal, TokenKind::Assign))
    } else if c == '!' {
        Some(('=', TokenKind::NotEqual, TokenKind::Bang))
    } else if c == '<' {
        Some(('=', TokenKind::LessThanEqual, TokenKind::LessThan))
    } else if c == '>' {
        Some(('=', TokenKind::GreaterThanEqual, TokenKind::GreaterThan))
    } else if c == '&' {
        Some(('&', TokenKind::AndAnd, TokenKind::Illegal))
    } else if c == '|' {
        Some(('|', TokenKind::OrOr, TokenKind::Illegal))
    } else {
        None
    }
}

/// The token that starts at or after position `start` (whitespace skipped): its kind,
/// its text, and the position right after it.
pub open spec fn scan(s: Seq<char>, start: int) -> (TokenKind, Seq<char>, int) {
    let i = skip_space(s, start);
    let c = char_at(s, i);
    if pair_kind(c) is Some {
        let (second, long, short) = pair_kind(c)->0;
        if char_at(s, i + 1) == second {
            (long, seq![c, second], i + 2)
        } else {
            (short, seq![c], i + 1)
        }
    } else if single_kind(c) is Some {
        (single_kind(c)->0, seq![c], i + 1)
    } else if c == '"' {
        let e = quote_end(s, i + 1);
        (TokenKind::String, s.subrange(i + 1, e), step(s, e))
    } else if c == '\0' {
        (TokenKind::Eof, Seq::empty(), step(s, i))
    } else if is_alpha_char(c) || c == '_' {
        let e = word_end(s, i);
        (keyword_kind(s.subrange(i, e)), s.subrange(i, e), e)
    } else if is_digit_char(c) {
        let e = number_end(s, i);
        (TokenKind::Integer, s.subrange(i, e), e)
    } else {
        (TokenKind::Illegal, seq![c], i + 1)
    }
}

pub struct Lexer {
    input: Vec<char>,
    /// Position of the character under examination.
    cur: usize,
    /// The character under examination.
    ch: char,
}

impl Lexer {
    /// The characters being scanned.
    pub closed spec fn chars(&self) -> Seq<char> {
        self.input@
    }

    /// The position of the character under examination.
    pub closed spec fn pos(&self) -> int {
        self.cur as int
    }

    pub closed spec fn wf(&self) -> bool {
        &&& self.cur <= self.input@.len()
        &&& self.ch == char_at(self.input@, self.cur as int)
    }

    /// A well-formed lexer never stands past the end of its input.
    pub proof fn lemma_within(&self)
        requires
            self.wf(),
        ensures
            0 <= self.pos() <= self.chars().len(),
    {
    }

    /// How many characters are left to scan.
    pub open spec fn remaining(&self) -> nat {
        (self.chars().len() - self.pos()) as nat
    }

    pub fn new(input: &str) -> (r: Self)
        ensures
            r.wf(),
            r.chars() == input@,
            r.pos() == 0,
    {
        let chars = crate::text::chars_of(input);
        let ch = if chars.len() > 0 { chars[0] } else { EOF_CHAR };
        Lexer { input: chars, cur: 0, ch }
    }

    /// Give the next character.
    pub fn peek_char(&self) -> (r: char)
        requires
            self.wf(),
        ensures
            r == char_at(self.chars(), self.pos() + 1),
    {
        if self.cur < self.input.len() && self.cur + 1 < self.input.len() {
            self.input[self.cur + 1]
        } else {
            EOF_CHAR
        }
    }

    /// Move to the next character; at the end of input the position stays.
    pub fn eat_char(&mut self)
        requires
            old(self).wf(),
        ensures
            final(self).wf(),
            final(self).chars() == old(self).chars(),
            final(self).pos() == step(old(self).chars(), old(self).pos()),
    {
        if self.cur < self.input.len() {
            self.cur = self.cur + 1;
            self.ch = if self.cur < self.input.len() { self.input[self.cur] } else { EOF_CHAR };
        }
    }

    pub fn skip_whitespace(&mut self)
        requires
            old(self).wf(),
        ensures
            final(self).wf(),
            final(self).chars() == old(self).chars(),
            final(self).pos() == skip_space(old(self).chars(), old(self).pos()),
    {
        while self.cur < self.input.len() && is_space(self.ch)
            invariant
                self.wf(),
                self.chars() == old(self).chars(),
                skip_space(self.chars(), self.pos()) == skip_space(
                    old(self).chars(),
                    old(self).pos(),
                ),
            decreases self.remaining(),
        {
            self.eat_char();
        }
    }

    /// Reads a word of letters, digits and underscores.
    pub fn eat_identifier(&mut self) -> (r: String)
        requires
            old(self).wf(),
        ensures
            final(self).wf(),
            final(self).chars() == old(self).chars(),
            final(self).pos() == word_end(old(self).chars(), old(self).pos()),
            r@ == old(self).chars().subrange(old(self).pos(), final(self).pos()),
            old(self).pos() < old(self).chars().len() && is_alpha_char(
                char_at(old(self).chars(), old(self).pos()),
            ) ==> old(self).pos() < final(self).pos(),
    {
        let start = self.cur;
        while self.cur < self.input.len() && (is_alnum(self.ch) || self.ch == '_')
            invariant
                self.wf(),
                self.chars() == old(self).chars(),
                start == old(self).pos(),
                start <= self.cur,
                word_end(self.chars(), self.pos()) == word_end(old(self).chars(), old(self).pos()),
            decreases self.remaining(),
        {
            self.eat_char();
        }
        string_of_chars(&self.input, start, self.cur)
    }

    /// Reads a run of decimal digits.
    pub fn eat_number(&mut self) -> (r: String)
        requires
            old(self).wf(),
        ensures
            final(self).wf(),
            final(self).chars() == old(self).chars(),
            final(self).pos() == number_end(old(self).chars(), old(self).pos()),
            r@ == old(self).chars().subrange(old(self).pos(), final(self).pos()),
    {
        let start = self.cur;
        while self.cur < self.input.len() && is_digit(self.ch)
            invariant
                self.wf(),
                self.chars() == old(self).chars(),
                start == old(self).pos(),
                start <= self.cur,
                number_end(self.chars(), self.pos()) == number_end(
                    old(self).chars(),
                    old(self).pos(),
                ),
            decreases self.remaining(),
        {
            self.eat_char();
        }
        string_of_chars(&self.input, start, self.cur)
    }

    /// Reads the text of a string literal whose opening quote is under examination,
    /// stopping on the closing quote or at the end of input.
    pub fn eat_string(&mut self) -> (r: String)
        requires
            old(self).wf(),
            old(self).pos() < old(self).chars().len(),
        ensures
            final(self).wf(),
            final(self).chars() == old(self).chars(),
            final(self).pos() == quote_end(old(self).chars(), old(self).pos() + 1),
            r@ == old(self).chars().subrange(old(self).pos() + 1, final(self).pos()),
    {
        self.eat_char();
        let start = self.cur;
        while self.cur < self.input.len() && self.ch != '"' && self.ch != EOF_CHAR
            invariant
                self.wf(),
                self.chars() == old(self).chars(),
                start == old(self).pos() + 1,
                start <= self.cur,
                quote_end(self.chars(), self.pos()) == quote_end(
                    old(self).chars(),
                    old(self).pos() + 1,
                ),
            decreases self.remaining(),
        {
            self.eat_char();
        }
        string_of_chars(&self.input, start, self.cur)
    }

    /// Retrieve the current token and advance position in the input string. A NUL
    /// character reads as the end of input; scanning goes on after it.
    pub fn next_token(&mut self) -> (r: Token)
        requires
            old(self).wf(),
        ensures
            final(self).wf(),
            final(self).chars() == old(self).chars(),
            (r.kind, r.literal@, final(self).pos()) == scan(old(self).chars(), old(self).pos()),
            old(self).pos() <= final(self).pos(),
            r.kind != TokenKind::Eof ==> old(self).pos() < final(self).pos(),
    {
        self.skip_whitespace();
        let ghost s = self.chars();
        let ghost i = self.pos();
        proof {
            lemma_ends_forward(s, old(self).pos());
            lemma_ends_forward(s, i);
            if i + 1 <= s.len() {
                lemma_ends_forward(s, i + 1);
            }
        }
        let c = self.ch;
        let mut literal = String::new();
        if c == '=' || c == '!' || c == '<' || c == '>' || c == '&' || c == '|' {
            let second = if c == '&' || c == '|' { c } else { '=' };
            let ghost pair = pair_kind(c)->0;
            assert(pair_kind(c) is Some && pair.0 == second);
            push_char(&mut literal, c);
            let kind = if self.peek_char() == second {
                push_char(&mut literal, second);
                self.eat_char();
                if c == '=' {
                    TokenKind::Equal
                } else if c == '!' {
                    TokenKind::NotEqual
                } else if c == '<' {
                    TokenKind::LessThanEqual
                } else if c == '>' {
                    TokenKind::GreaterThanEqual
                } else if c == '&' {
                    TokenKind::AndAnd
                } else {
                    TokenKind::OrOr
                }
            } else if c == '=' {
                TokenKind::Assign
            } else if c == '!' {
                TokenKind::Bang
            } else if c == '<' {
                TokenKind::LessThan
            } else if c == '>' {
                TokenKind::GreaterThan
            } else {
                TokenKind::Illegal
            };
            self.eat_char();
            proof {
                assert(literal@ =~= scan(s, old(self).pos()).1);
            }
            return Token { kind, literal };
        }
        let single = if c == '+' {
            Some(TokenKind::Plus)
        } else if c == '-' {
            Some(TokenKind::Minus)
        } else if c == '/' {
            Some(TokenKind::Slash)
        } else if c == '*' {
            Some(TokenKind::Asterisk)
        } else if c == '%' {
            Some(TokenKind::Percentage)
        } else if c == '(' {
            Some(TokenKind::LeftParen)
        } else if c == ')' {
            Some(TokenKind::RightParen)
        } else if c == '{' {
            Some(TokenKind::LeftBrace)
        } else if c == '}' {
            Some(TokenKind::RightBrace)
        } else if c == '[' {
            Some(TokenKind::LeftSquare)
        } else if c == ']' {
            Some(TokenKind::RightSquare)
        } else if c == ':' {
            Some(TokenKind::Colon)
        } else if c == ';' {
            Some(TokenKind::Semicolon)
        } else if c == ',' {
            Some(TokenKind::Comma)
        } else {
            None
        };
        if let Some(kind) = single {
            push_char(&mut literal, c);
            self.eat_char();
            proof {
                assert(literal@ =~= scan(s, old(self).pos()).1);
            }
            return Token { kind, literal };
        }
        if c == '"' {
            let text = self.eat_string();
            self.eat_char();
            return Token { kind: TokenKind::String, literal: text };
        }
        if c == EOF_CHAR {
            self.eat_char();
            proof {
                assert(literal@ =~= scan(s, old(self).pos()).1);
            }
            return Token { kind: TokenKind::Eof, literal };
        }
        if is_alpha(c) || c == '_' {
            let word = self.eat_identifier();
            let kind = TokenKind::lookup_identifier(word.as_str());
            return Token { kind, literal: word };
        }
        if is_digit(c) {
            let digits = self.eat_number();
            return Token { kind: TokenKind::Integer, literal: digits };
        }
        push_char(&mut literal, c);
        self.eat_char();
        proof {
            assert(literal@ =~= scan(s, old(self).pos()).1);
        }
        Token { kind: TokenKind::Illegal, literal }
    }
}

} // verus!
