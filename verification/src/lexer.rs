//! The tokenizer: converts a source string into a deterministic, restartable
//! sequence of tokens.
//!
//! The mathematical model of scanning is given by spec functions over the
//! sequence of source characters: `ws_end` (whitespace skipping), `alpha_end`
//! and `digit_end` (maximal runs), `token_at` / `token_end` (the token starting
//! at a position and the position just past it), and `spec_tokens` (the whole
//! token stream of an input). The executable `Lexer` is proved to produce
//! exactly that stream.

use vstd::prelude::*;
use vstd::string::StrSliceExecFns;
use vstd::string::StringExecFns;

use crate::token::Token;
use crate::token::TokenType;
use crate::token::TokenV;

verus! {

broadcast use vstd::string::group_string_axioms;

// ===========================================================================
// CHARACTER CLASSES
// ===========================================================================
/// The whitespace characters skipped between tokens (the ASCII ones of the
/// standard whitespace test).
pub open spec fn is_ws_char(c: char) -> bool {
    c == ' ' || c == '\t' || c == '\n' || c == '\r' || c == '\u{b}' || c == '\u{c}'
}

/// An alphabetic (identifier) character; the input is ASCII, so these are the
/// letters.
pub open spec fn is_letter_char(c: char) -> bool {
    ('a' as u32 <= c as u32 && c as u32 <= 'z' as u32) || ('A' as u32 <= c as u32 && c as u32
        <= 'Z' as u32)
}

/// An ASCII decimal digit.
pub open spec fn is_digit_char(c: char) -> bool {
    '0' as u32 <= c as u32 && c as u32 <= '9' as u32
}

fn is_whitespace(c: char) -> (r: bool)
    ensures
        r == is_ws_char(c),
{
    c == ' ' || c == '\t' || c == '\n' || c == '\r' || c == '\u{b}' || c == '\u{c}'
}

fn is_letter(c: char) -> (r: bool)
    ensures
        r == is_letter_char(c),
{
    let u = c as u32;
    (97 <= u && u <= 122) || (65 <= u && u <= 90)
}

fn is_digit(c: char) -> (r: bool)
    ensures
        r == is_digit_char(c),
{
    let u = c as u32;
    48 <= u && u <= 57
}

// ===========================================================================
// THE SCANNER, AS SPEC FUNCTIONS
// ===========================================================================
/// The character under examination at position `i`: the sentinel '\0' once the
/// input is exhausted.
pub open spec fn cur_char(s: Seq<char>, i: int) -> char {
    if 0 <= i < s.len() {
        s[i]
    } else {
        '\0'
    }
}

/// First position at or after `i` that does not hold whitespace.
pub open spec fn ws_end(s: Seq<char>, i: int) -> int
    decreases s.len() - i,
        when 0 <= i <= s.len()
{
    if i < s.len() && is_ws_char(s[i]) {
        ws_end(s, i + 1)
    } else {
        i
    }
}

/// End of the maximal run of alphabetic characters starting at `i`.
pub open spec fn alpha_end(s: Seq<char>, i: int) -> int
    decreases s.len() - i,
        when 0 <= i <= s.len()
{
    if i < s.len() && is_letter_char(s[i]) {
        alpha_end(s, i + 1)
    } else {
        i
    }
}

/// End of the maximal run of digits starting at `i`.
pub open spec fn digit_end(s: Seq<char>, i: int) -> int
    decreases s.len() - i,
        when 0 <= i <= s.len()
{
    if i < s.len() && is_digit_char(s[i]) {
        digit_end(s, i + 1)
    } else {
        i
    }
}

/// Kind of a token made of one single character (delimiters and the
/// one-character operators; anything unrecognized is `Illegal`).
pub open spec fn single_char_kind(c: char) -> TokenType {
    if c == ';' {
        TokenType::Semicolon
    } else if c == '(' {
        TokenType::LParen
    } else if c == ')' {
        TokenType::RParen
    } else if c == ',' {
        TokenType::Comma
    } else if c == '+' {
        TokenType::Plus
    } else if c == '-' {
        TokenType::Minus
    } else if c == '/' {
        TokenType::Slash
    } else if c == '*' {
        TokenType::Asterisk
    } else if c == '<' {
        TokenType::LT
    } else if c == '>' {
        TokenType::GT
    } else if c == '{' {
        TokenType::LBrace
    } else if c == '}' {
        TokenType::RBrace
    } else {
        TokenType::Illegal
    }
}

/// An alphabetic run is matched against the fixed keyword set; anything else
/// is an identifier.
pub open spec fn keyword_kind(lit: Seq<char>) -> TokenType {
    if lit == "fn"@ {
        TokenType::Function
    } else if lit == "let"@ {
        TokenType::Let
    } else if lit == "true"@ {
        TokenType::True
    } else if lit == "false"@ {
        TokenType::False
    } else if lit == "if"@ {
        TokenType::If
    } else if lit == "else"@ {
        TokenType::Else
    } else if lit == "return"@ {
        TokenType::Return
    } else {
        TokenType::Ident
    }
}

/// Position just past the token starting at `i` (where `s[i]` starts a token:
/// it is not whitespace and not the terminator).
pub open spec fn token_end(s: Seq<char>, i: int) -> int {
    let c = s[i];
    if is_letter_char(c) {
        alpha_end(s, i)
    } else if is_digit_char(c) {
        digit_end(s, i)
    } else if (c == '=' || c == '!') && i + 1 < s.len() && s[i + 1] == '=' {
        i + 2
    } else {
        i + 1
    }
}

/// The token starting at `i`. Its literal is always the exact source
/// substring `s[i .. token_end(s, i)]`.
pub open spec fn token_at(s: Seq<char>, i: int) -> TokenV {
    let c = s[i];
    let lit = s.subrange(i, token_end(s, i));
    let kind = if is_letter_char(c) {
        keyword_kind(lit)
    } else if is_digit_char(c) {
        TokenType::Int
    } else if c == '=' {
        if i + 1 < s.len() && s[i + 1] == '=' {
            TokenType::Equal
        } else {
            TokenType::Assign
        }
    } else if c == '!' {
        if i + 1 < s.len() && s[i + 1] == '=' {
            TokenType::NotEqual
        } else {
            TokenType::Bang
        }
    } else {
        single_char_kind(c)
    };
    TokenV { kind, literal: lit }
}

/// The token scanned when the cursor stands at `i`: whitespace is skipped
/// first; the scan ends (yielding nothing) exactly at the end of the input.
/// Any byte not matched by a rule — a NUL included — yields `Illegal`.
pub open spec fn spec_token(s: Seq<char>, i: int) -> Option<TokenV> {
    let w = ws_end(s, i);
    if w < s.len() {
        Some(token_at(s, w))
    } else {
        None
    }
}

/// The cursor position after one scan from `i`.
pub open spec fn spec_token_pos(s: Seq<char>, i: int) -> int {
    let w = ws_end(s, i);
    if w < s.len() {
        token_end(s, w)
    } else {
        w
    }
}

// ===========================================================================
// BOUNDS AND PROGRESS LEMMAS
// ===========================================================================
pub proof fn lemma_ws_end(s: Seq<char>, i: int)
    requires
        0 <= i <= s.len(),
    ensures
        i <= ws_end(s, i) <= s.len(),
        ws_end(s, i) < s.len() ==> !is_ws_char(s[ws_end(s, i)]),
    decreases s.len() - i,
{
    if i < s.len() && is_ws_char(s[i]) {
        lemma_ws_end(s, i + 1);
    }
}

pub proof fn lemma_alpha_end(s: Seq<char>, i: int)
    requires
        0 <= i <= s.len(),
    ensures
        i <= alpha_end(s, i) <= s.len(),
        alpha_end(s, i) < s.len() ==> !is_letter_char(s[alpha_end(s, i)]),
        forall|j: int| i <= j < alpha_end(s, i) ==> is_letter_char(s[j]),
    decreases s.len() - i,
{
    if i < s.len() && is_letter_char(s[i]) {
        lemma_alpha_end(s, i + 1);
    }
}

pub proof fn lemma_digit_end(s: Seq<char>, i: int)
    requires
        0 <= i <= s.len(),
    ensures
        i <= digit_end(s, i) <= s.len(),
        digit_end(s, i) < s.len() ==> !is_digit_char(s[digit_end(s, i)]),
        forall|j: int| i <= j < digit_end(s, i) ==> is_digit_char(s[j]),
    decreases s.len() - i,
{
    if i < s.len() && is_digit_char(s[i]) {
        lemma_digit_end(s, i + 1);
    }
}

/// Scanning one token never moves the cursor backwards, never past the end,
/// and consumes at least one character whenever a token is produced.
pub proof fn lemma_spec_token_pos(s: Seq<char>, i: int)
    requires
        0 <= i <= s.len(),
    ensures
        i <= spec_token_pos(s, i) <= s.len(),
        spec_token(s, i) is Some ==> i < spec_token_pos(s, i),
{
    lemma_ws_end(s, i);
    let w = ws_end(s, i);
    if w < s.len() {
        if is_letter_char(s[w]) {
            lemma_alpha_end(s, w);
            assert(alpha_end(s, w) > w);  // one unfolding: s[w] is a letter
        } else if is_digit_char(s[w]) {
            lemma_digit_end(s, w);
            assert(digit_end(s, w) > w);
        }
    }
}

/// The whole token stream of the input, scanning from position `i`.
pub open spec fn spec_tokens(s: Seq<char>, i: int) -> Seq<TokenV>
    decreases s.len() - i,
        when 0 <= i <= s.len()
        via spec_tokens_decreases
{
    match spec_token(s, i) {
        Some(t) => seq![t] + spec_tokens(s, spec_token_pos(s, i)),
        None => Seq::empty(),
    }
}

#[via_fn]
proof fn spec_tokens_decreases(s: Seq<char>, i: int) {
    lemma_spec_token_pos(s, i);
}

/// Each token consumes at least one character, so there are no more tokens
/// than characters.
pub proof fn lemma_spec_tokens_len(s: Seq<char>, i: int)
    requires
        0 <= i <= s.len(),
    ensures
        spec_tokens(s, i).len() <= s.len() - i,
    decreases s.len() - i,
{
    lemma_spec_token_pos(s, i);
    if spec_token(s, i) is Some {
        lemma_spec_tokens_len(s, spec_token_pos(s, i));
    }
}

// ===========================================================================
// THE EXECUTABLE LEXER
// ===========================================================================
/// Scans an ASCII source string left to right, one token per call.
pub struct Lexer<'a> {
    input: &'a str,
    position: usize,  // Current position in input (points to current char).
    read_position: usize,  // Current reading position in input (after current char).
    ch: char,  // Current char under examination.
}

impl<'a> Lexer<'a> {
    /// The scan position is monotonically non-decreasing and the current
    /// character always mirrors it.
    pub closed spec fn wf(&self) -> bool {
        &&& self.input.is_ascii()
        &&& self.input@.len() + 2 <= usize::MAX
        &&& self.position <= self.input@.len()
        &&& self.read_position == self.position + 1
        &&& self.ch == cur_char(self.input@, self.position as int)
    }

    /// The source characters being scanned.
    pub closed spec fn src(&self) -> Seq<char> {
        self.input@
    }

    /// The current scan position.
    pub closed spec fn pos(&self) -> int {
        self.position as int
    }

    /// Facts every well-formed lexer provides about its model.
    pub proof fn lemma_wf(&self)
        requires
            self.wf(),
        ensures
            0 <= self.pos() <= self.src().len(),
            self.src().len() + 2 <= usize::MAX,
    {
    }

    pub fn new(input: &'a str) -> (l: Lexer<'a>)
        requires
            input.is_ascii(),
            input@.len() + 2 <= usize::MAX,
        ensures
            l.wf(),
            l.src() == input@,
            l.pos() == 0,
    {
        let mut l = Lexer { input, position: 0, read_position: 0, ch: '\0' };
        // Initialize the lexer by reading the first character before
        // returning.
        l.read_char();
        l
    }

    // Read the next character and advance our position in the input string.
    // position points to the current char, read_position points to the next
    // char.
    fn read_char(&mut self)
        requires
            old(self).input.is_ascii(),
            old(self).input@.len() + 2 <= usize::MAX,
            old(self).read_position <= old(self).input@.len(),
        ensures
            final(self).input == old(self).input,
            final(self).position == old(self).read_position,
            final(self).read_position == old(self).read_position + 1,
            final(self).ch == cur_char(old(self).input@, old(self).read_position as int),
    {
        if self.read_position >= self.input.len() {
            self.ch = '\0';
        } else {
            self.ch = self.input.get_char(self.read_position);
        }
        self.position = self.read_position;
        self.read_position = self.read_position + 1;
    }

    // Return the next character without advancing our position in the input.
    fn peek_char(&self) -> (c: char)
        requires
            self.input.is_ascii(),
            self.input@.len() + 2 <= usize::MAX,
        ensures
            c == cur_char(self.input@, self.read_position as int),
    {
        if self.read_position >= self.input.len() {
            '\0'
        } else {
            self.input.get_char(self.read_position)
        }
    }

    fn skip_whitespace(&mut self)
        requires
            old(self).wf(),
        ensures
            final(self).wf(),
            final(self).input == old(self).input,
            final(self).pos() == ws_end(old(self).src(), old(self).pos()),
    {
        while is_whitespace(self.ch)
            invariant
                self.wf(),
                self.input == old(self).input,
                ws_end(old(self).src(), old(self).pos()) == ws_end(self.src(), self.pos()),
            decreases self.input@.len() - self.position,
        {
            self.read_char();
        }
    }

    // Return a slice of the input string from the current position until
    // the next non-alphabetic character.
    fn read_identifier(&mut self) -> (ident: &'a str)
        requires
            old(self).wf(),
        ensures
            final(self).wf(),
            final(self).input == old(self).input,
            final(self).pos() == alpha_end(old(self).src(), old(self).pos()),
            ident@ == old(self).src().subrange(
                old(self).pos(),
                alpha_end(old(self).src(), old(self).pos()),
            ),
    {
        let pos = self.position;
        while is_letter(self.ch)
            invariant
                self.wf(),
                self.input == old(self).input,
                pos <= self.position,
                alpha_end(old(self).src(), old(self).pos()) == alpha_end(self.src(), self.pos()),
                pos == old(self).position,
            decreases self.input@.len() - self.position,
        {
            self.read_char();
        }
        self.input.substring_ascii(pos, self.position)
    }

    // Return a slice of the number in base 10 from the current position.
    fn read_number(&mut self) -> (num: &'a str)
        requires
            old(self).wf(),
        ensures
            final(self).wf(),
            final(self).input == old(self).input,
            final(self).pos() == digit_end(old(self).src(), old(self).pos()),
            num@ == old(self).src().subrange(
                old(self).pos(),
                digit_end(old(self).src(), old(self).pos()),
            ),
    {
        let pos = self.position;
        while is_digit(self.ch)
            invariant
                self.wf(),
                self.input == old(self).input,
                pos <= self.position,
                digit_end(old(self).src(), old(self).pos()) == digit_end(self.src(), self.pos()),
                pos == old(self).position,
            decreases self.input@.len() - self.position,
        {
            self.read_char();
        }
        self.input.substring_ascii(pos, self.position)
    }

    // Match an alphabetic run against the fixed keyword set.
    fn lookup_ident(ident: &str) -> (k: TokenType)
        ensures
            k == keyword_kind(ident@),
    {
        if str_eq(ident, "fn") {
            TokenType::Function
        } else if str_eq(ident, "let") {
            TokenType::Let
        } else if str_eq(ident, "true") {
            TokenType::True
        } else if str_eq(ident, "false") {
            TokenType::False
        } else if str_eq(ident, "if") {
            TokenType::If
        } else if str_eq(ident, "else") {
            TokenType::Else
        } else if str_eq(ident, "return") {
            TokenType::Return
        } else {
            TokenType::Ident
        }
    }

    /// Scan the next token. Yields `None` once the end of the input is
    /// reached; the terminal state is stable, so calling past the end yields
    /// no further tokens.
    pub fn next(&mut self) -> (t: Option<Token>)
        requires
            old(self).wf(),
        ensures
            final(self).wf(),
            final(self).src() == old(self).src(),
            final(self).pos() == spec_token_pos(old(self).src(), old(self).pos()),
            match spec_token(old(self).src(), old(self).pos()) {
                Some(tv) => t is Some && t->Some_0@ == tv,
                None => t is None,
            },
    {
        proof {
            lemma_ws_end(old(self).src(), old(self).pos());
        }
        self.skip_whitespace();

        if self.position >= self.input.len() {
            return None;
        }
        let token = self.ch;
        if is_letter(token) {
            // read_identifier() returns a slice of the input string; the
            // resulting run is matched against the keyword set.
            let ident = self.read_identifier();
            let kind = Self::lookup_ident(ident);
            return Some(Token::new(kind, ident));
        }
        if is_digit(token) {
            let num = self.read_number();
            return Some(Token::new(TokenType::Int, num));
        }
        let start = self.position;
        let kind = match token {
            ';' => TokenType::Semicolon,
            '(' => TokenType::LParen,
            ')' => TokenType::RParen,
            ',' => TokenType::Comma,
            '+' => TokenType::Plus,
            '-' => TokenType::Minus,
            '/' => TokenType::Slash,
            '*' => TokenType::Asterisk,
            '<' => TokenType::LT,
            '>' => TokenType::GT,
            '{' => TokenType::LBrace,
            '}' => TokenType::RBrace,
            '=' => {
                // We don't know yet whether this is assign or equal; peek the
                // next char. The lookahead never consumes without confirming.
                if self.peek_char() == '=' {
                    self.read_char();
                    TokenType::Equal
                } else {
                    TokenType::Assign
                }
            },
            '!' => {
                if self.peek_char() == '=' {
                    self.read_char();
                    TokenType::NotEqual
                } else {
                    TokenType::Bang
                }
            },
            _ => TokenType::Illegal,
        };
        let lit = self.input.substring_ascii(start, self.position + 1);
        let tok = Token::new(kind, lit);
        self.read_char();
        Some(tok)
    }

    /// Scan the next token, reporting the end of the input as the single
    /// `EOF` token, whose literal is empty: it consumed no source text.
    pub fn next_token(&mut self) -> (t: Token)
        requires
            old(self).wf(),
        ensures
            final(self).wf(),
            final(self).src() == old(self).src(),
            final(self).pos() == spec_token_pos(old(self).src(), old(self).pos()),
            match spec_token(old(self).src(), old(self).pos()) {
                Some(tv) => t@ == tv,
                None => t@ == (TokenV { kind: TokenType::EOF, literal: Seq::empty() }),
            },
    {
        match self.next() {
            Some(t) => t,
            None => {
                proof {
                    reveal_strlit("");
                    assert(""@ =~= Seq::<char>::empty());
                }
                Token::new(TokenType::EOF, "")
            },
        }
    }

    /// Scan the remaining input to the end, returning every token in order;
    /// the scan is exhausted afterwards.
    pub fn tokens(&mut self) -> (v: Vec<Token>)
        requires
            old(self).wf(),
        ensures
            final(self).wf(),
            final(self).src() == old(self).src(),
            v@.map_values(|t: Token| t@) == spec_tokens(old(self).src(), old(self).pos()),
            v@.len() <= old(self).src().len() - old(self).pos(),
            spec_token(final(self).src(), final(self).pos()) is None,
    {
        let mut v: Vec<Token> = Vec::new();
        loop
            invariant
                self.wf(),
                self.src() == old(self).src(),
                v@.map_values(|t: Token| t@) + spec_tokens(self.src(), self.pos())
                    =~= spec_tokens(old(self).src(), old(self).pos()),
            ensures
                self.wf(),
                self.src() == old(self).src(),
                v@.map_values(|t: Token| t@) =~= spec_tokens(old(self).src(), old(self).pos()),
                spec_token(self.src(), self.pos()) is None,
            decreases self.input@.len() - self.position,
        {
            proof {
                lemma_spec_token_pos(self.src(), self.pos());
            }
            match self.next() {
                Some(t) => {
                    proof {
                        assert(v@.push(t).map_values(|t: Token| t@) =~= v@.map_values(
                            |t: Token| t@,
                        ).push(t@));
                    }
                    v.push(t);
                },
                None => {
                    break ;
                },
            }
        }
        proof {
            lemma_spec_tokens_len(old(self).src(), old(self).pos());
        }
        v
    }
}

// String equality, character by character.
fn str_eq(a: &str, b: &str) -> (r: bool)
    ensures
        r == (a@ == b@),
{
    let n = a.unicode_len();
    let m = b.unicode_len();
    if n != m {
        return false;
    }
    let mut i: usize = 0;
    while i < n
        invariant
            n == a@.len(),
            n == b@.len(),
            i <= n,
            forall|j: int| 0 <= j < i ==> a@[j] == b@[j],
        decreases n - i,
    {
        if a.get_char(i) != b.get_char(i) {
            return false;
        }
        i = i + 1;
    }
    proof {
        assert(a@ =~= b@);
    }
    true
}

// ===========================================================================
// LAWS OF THE SCANNER
// ===========================================================================
/// `s[i]` starts a token of exactly one character: it is no letter, digit or
/// whitespace, and an `=` or `!` here is not followed by `=`.
pub open spec fn single_char_token_start(s: Seq<char>, i: int) -> bool {
    &&& 0 <= i < s.len()
    &&& !is_letter_char(s[i])
    &&& !is_digit_char(s[i])
    &&& !is_ws_char(s[i])
    &&& ((s[i] == '=' || s[i] == '!') ==> !(i + 1 < s.len() && s[i + 1] == '='))
}

/// Round-trip literal identity: a single-character token carries exactly the
/// source character it consumed as its literal, and consumes exactly that one
/// character.
pub proof fn lemma_single_char_literal(s: Seq<char>, i: int)
    requires
        single_char_token_start(s, i),
    ensures
        token_end(s, i) == i + 1,
        token_at(s, i).literal =~= seq![s[i]],
{
}

/// Lookahead correctness: an `=` or `!` followed by `=` forms one
/// two-character token (`Equal` / `NotEqual`); otherwise it forms a
/// one-character token (`Assign` / `Bang`) and scanning continues at the very
/// next character.
pub proof fn lemma_lookahead(s: Seq<char>, i: int)
    requires
        0 <= i < s.len(),
        s[i] == '=' || s[i] == '!',
    ensures
        (i + 1 < s.len() && s[i + 1] == '=') ==> {
            &&& token_at(s, i).kind == (if s[i] == '=' {
                TokenType::Equal
            } else {
                TokenType::NotEqual
            })
            &&& token_at(s, i).literal =~= seq![s[i], '=']
            &&& token_end(s, i) == i + 2
        },
        !(i + 1 < s.len() && s[i + 1] == '=') ==> {
            &&& token_at(s, i).kind == (if s[i] == '=' {
                TokenType::Assign
            } else {
                TokenType::Bang
            })
            &&& token_at(s, i).literal =~= seq![s[i]]
            &&& token_end(s, i) == i + 1
        },
{
}

/// Keyword classification: tokenizing an input that is one maximal alphabetic
/// run yields exactly one token, whose kind is the matching keyword, or
/// `Ident` for any other run.
pub proof fn lemma_keyword_classification(s: Seq<char>)
    requires
        s.len() > 0,
        forall|j: int| 0 <= j < s.len() ==> is_letter_char(#[trigger] s[j]),
    ensures
        spec_tokens(s, 0) =~= seq![TokenV { kind: keyword_kind(s), literal: s }],
        !(s == "fn"@ || s == "let"@ || s == "true"@ || s == "false"@ || s == "if"@ || s == "else"@
            || s == "return"@) ==> keyword_kind(s) == TokenType::Ident,
{
    assert(ws_end(s, 0) == 0);
    lemma_alpha_end(s, 0);
    assert forall|j: int| 0 <= j < s.len() implies alpha_end(s, j) == s.len() by {
        lemma_alpha_end_all_letters(s, j);
    }
    assert(token_end(s, 0) == s.len());
    assert(s.subrange(0, s.len() as int) =~= s);
    assert(spec_token_pos(s, 0) == s.len());
    assert(ws_end(s, s.len() as int) == s.len());
    assert(spec_tokens(s, s.len() as int) =~= Seq::<TokenV>::empty());
}

proof fn lemma_alpha_end_all_letters(s: Seq<char>, i: int)
    requires
        0 <= i <= s.len(),
        forall|j: int| i <= j < s.len() ==> is_letter_char(#[trigger] s[j]),
    ensures
        alpha_end(s, i) == s.len(),
    decreases s.len() - i,
{
    if i < s.len() {
        lemma_alpha_end_all_letters(s, i + 1);
    }
}

/// The literal of every scanned token equals the exact source substring that
/// produced it.
pub proof fn lemma_literal_is_source_substring(s: Seq<char>, i: int)
    requires
        0 <= i <= s.len(),
        spec_token(s, i) is Some,
    ensures
        spec_token(s, i)->Some_0.literal == s.subrange(ws_end(s, i), spec_token_pos(s, i)),
{
}


/// Tokenizing an input that is one maximal digit run yields exactly one `Int`
/// token carrying the run as its literal.
pub proof fn lemma_digit_run(s: Seq<char>)
    requires
        s.len() > 0,
        forall|j: int| 0 <= j < s.len() ==> is_digit_char(#[trigger] s[j]),
    ensures
        spec_tokens(s, 0) =~= seq![TokenV { kind: TokenType::Int, literal: s }],
{
    assert(ws_end(s, 0) == 0);
    assert forall|j: int| 0 <= j < s.len() implies digit_end(s, j) == s.len() by {
        lemma_digit_end_all_digits(s, j);
    }
    assert(token_end(s, 0) == s.len());
    assert(s.subrange(0, s.len() as int) =~= s);
    assert(spec_token_pos(s, 0) == s.len());
    assert(ws_end(s, s.len() as int) == s.len());
    assert(spec_tokens(s, s.len() as int) =~= Seq::<TokenV>::empty());
}

proof fn lemma_digit_end_all_digits(s: Seq<char>, i: int)
    requires
        0 <= i <= s.len(),
        forall|j: int| i <= j < s.len() ==> is_digit_char(#[trigger] s[j]),
    ensures
        digit_end(s, i) == s.len(),
    decreases s.len() - i,
{
    if i < s.len() {
        lemma_digit_end_all_digits(s, i + 1);
    }
}


/// A maximal alphabetic run: if `[i, j)` holds letters and `j` does not, the
/// scan of a run starting at `i` ends exactly at `j`.
pub proof fn lemma_alpha_end_run(s: Seq<char>, i: int, j: int)
    requires
        0 <= i <= j <= s.len(),
        forall|k: int| i <= k < j ==> is_letter_char(#[trigger] s[k]),
        j == s.len() || !is_letter_char(s[j]),
    ensures
        alpha_end(s, i) == j,
    decreases j - i,
{
    if i < j {
        lemma_alpha_end_run(s, i + 1, j);
    }
}

/// A maximal digit run: if `[i, j)` holds digits and `j` does not, the scan
/// of a run starting at `i` ends exactly at `j`.
pub proof fn lemma_digit_end_run(s: Seq<char>, i: int, j: int)
    requires
        0 <= i <= j <= s.len(),
        forall|k: int| i <= k < j ==> is_digit_char(#[trigger] s[k]),
        j == s.len() || !is_digit_char(s[j]),
    ensures
        digit_end(s, i) == j,
    decreases j - i,
{
    if i < j {
        lemma_digit_end_run(s, i + 1, j);
    }
}


/// Scanning a window `let <name> = <lit>;` that starts at position `i` yields
/// its five tokens in five steps, consuming exactly the window — no scan step
/// looks past the closing semicolon.
pub proof fn lemma_tokenize_let_at(s: Seq<char>, i: int, name: Seq<char>, lit: Seq<char>)
    requires
        0 <= i,
        i + name.len() + lit.len() + 8 <= s.len(),
        name.len() > 0,
        forall|j: int| 0 <= j < name.len() ==> is_letter_char(#[trigger] name[j]),
        lit.len() > 0,
        forall|j: int| 0 <= j < lit.len() ==> is_digit_char(#[trigger] lit[j]),
        s.subrange(i, i + name.len() + lit.len() + 8) == "let"@ + seq![' '] + name + seq![
            ' ',
            '=',
            ' ',
        ] + lit + seq![';'],
    ensures
        ({
            let n = name.len() as int;
            let m = lit.len() as int;
            &&& spec_token(s, i) == Some(TokenV { kind: TokenType::Let, literal: "let"@ })
            &&& spec_token_pos(s, i) == i + 3
            &&& spec_token(s, i + 3) == Some(TokenV { kind: keyword_kind(name), literal: name })
            &&& spec_token_pos(s, i + 3) == i + 4 + n
            &&& spec_token(s, i + 4 + n) == Some(
                TokenV { kind: TokenType::Assign, literal: seq!['='] },
            )
            &&& spec_token_pos(s, i + 4 + n) == i + 6 + n
            &&& spec_token(s, i + 6 + n) == Some(TokenV { kind: TokenType::Int, literal: lit })
            &&& spec_token_pos(s, i + 6 + n) == i + 7 + n + m
            &&& spec_token(s, i + 7 + n + m) == Some(
                TokenV { kind: TokenType::Semicolon, literal: seq![';'] },
            )
            &&& spec_token_pos(s, i + 7 + n + m) == i + 8 + n + m
        }),
{
    reveal_strlit("let");
    reveal_strlit("fn");
    reveal_strlit("true");
    reveal_strlit("false");
    reveal_strlit("if");
    reveal_strlit("else");
    reveal_strlit("return");
    let n = name.len() as int;
    let m = lit.len() as int;
    let w = "let"@ + seq![' '] + name + seq![' ', '=', ' '] + lit + seq![';'];
    assert(w.len() == n + m + 8);
    let sub = s.subrange(i, i + n + m + 8);
    assert(sub == w);
    assert(s[i] == 'l') by {
        assert(sub[0] == s[i]);
    }
    assert(s[i + 1] == 'e') by {
        assert(sub[1] == s[i + 1]);
    }
    assert(s[i + 2] == 't') by {
        assert(sub[2] == s[i + 2]);
    }
    assert(s[i + 3] == ' ') by {
        assert(sub[3] == s[i + 3]);
    }
    assert forall|k: int| i + 4 <= k < i + 4 + n implies s[k] == name[k - (i + 4)] by {
        assert(sub[k - i] == s[k]);
        assert(w[k - i] == name[k - i - 4]);
    }
    assert forall|k: int| i + 4 <= k < i + 4 + n implies is_letter_char(s[k]) by {
        assert(s[k] == name[k - (i + 4)]);
        assert(is_letter_char(name[k - (i + 4)]));
    }
    assert(s[i + 4 + n] == ' ') by {
        assert(sub[4 + n] == s[i + 4 + n]);
    }
    assert(s[i + 5 + n] == '=') by {
        assert(sub[5 + n] == s[i + 5 + n]);
    }
    assert(s[i + 6 + n] == ' ') by {
        assert(sub[6 + n] == s[i + 6 + n]);
    }
    assert forall|k: int| i + 7 + n <= k < i + 7 + n + m implies s[k] == lit[k - (i + 7 + n)] by {
        assert(sub[k - i] == s[k]);
        assert(w[k - i] == lit[k - i - 7 - n]);
    }
    assert forall|k: int| i + 7 + n <= k < i + 7 + n + m implies is_digit_char(s[k]) by {
        assert(s[k] == lit[k - (i + 7 + n)]);
        assert(is_digit_char(lit[k - (i + 7 + n)]));
    }
    assert(s[i + 7 + n + m] == ';') by {
        assert(sub[7 + n + m] == s[i + 7 + n + m]);
    }

    // `let` is an alphabetic run that matches the keyword.
    assert(ws_end(s, i) == i);
    lemma_alpha_end_run(s, i, i + 3);
    assert(token_end(s, i) == i + 3);
    assert(s.subrange(i, i + 3) =~= "let"@);
    assert(keyword_kind(s.subrange(i, i + 3)) == TokenType::Let);

    // The name is the next alphabetic run.
    assert(!is_ws_char(s[i + 4]));
    assert(ws_end(s, i + 4) == i + 4);
    assert(ws_end(s, i + 3) == i + 4);
    lemma_alpha_end_run(s, i + 4, i + 4 + n);
    assert(token_end(s, i + 4) == i + 4 + n);
    assert(s.subrange(i + 4, i + 4 + n) =~= name);

    // The `=`, with a space after it, stays Assign.
    assert(!is_ws_char(s[i + 5 + n]));
    assert(ws_end(s, i + 5 + n) == i + 5 + n);
    assert(ws_end(s, i + 4 + n) == i + 5 + n);
    assert(s[i + 5 + n + 1] != '=');
    assert(token_end(s, i + 5 + n) == i + 6 + n);
    assert(s.subrange(i + 5 + n, i + 6 + n) =~= seq!['=']);

    // The literal is the next digit run.
    assert(!is_ws_char(s[i + 7 + n]));
    assert(ws_end(s, i + 7 + n) == i + 7 + n);
    assert(ws_end(s, i + 6 + n) == i + 7 + n);
    lemma_digit_end_run(s, i + 7 + n, i + 7 + n + m);
    assert(token_end(s, i + 7 + n) == i + 7 + n + m);
    assert(s.subrange(i + 7 + n, i + 7 + n + m) =~= lit);

    // The closing semicolon.
    assert(ws_end(s, i + 7 + n + m) == i + 7 + n + m);
    assert(token_end(s, i + 7 + n + m) == i + 8 + n + m);
    assert(s.subrange(i + 7 + n + m, i + 8 + n + m) =~= seq![';']);
}

/// Scanning a window `return <lit>;` that starts at position `i` yields its
/// three tokens in three steps, consuming exactly the window.
pub proof fn lemma_tokenize_return_at(s: Seq<char>, i: int, lit: Seq<char>)
    requires
        0 <= i,
        i + lit.len() + 8 <= s.len(),
        lit.len() > 0,
        forall|j: int| 0 <= j < lit.len() ==> is_digit_char(#[trigger] lit[j]),
        s.subrange(i, i + lit.len() + 8) == "return"@ + seq![' '] + lit + seq![';'],
    ensures
        ({
            let m = lit.len() as int;
            &&& spec_token(s, i) == Some(TokenV { kind: TokenType::Return, literal: "return"@ })
            &&& spec_token_pos(s, i) == i + 6
            &&& spec_token(s, i + 6) == Some(TokenV { kind: TokenType::Int, literal: lit })
            &&& spec_token_pos(s, i + 6) == i + 7 + m
            &&& spec_token(s, i + 7 + m) == Some(
                TokenV { kind: TokenType::Semicolon, literal: seq![';'] },
            )
            &&& spec_token_pos(s, i + 7 + m) == i + 8 + m
        }),
{
    reveal_strlit("let");
    reveal_strlit("fn");
    reveal_strlit("true");
    reveal_strlit("false");
    reveal_strlit("if");
    reveal_strlit("else");
    reveal_strlit("return");
    let m = lit.len() as int;
    let w = "return"@ + seq![' '] + lit + seq![';'];
    assert(w.len() == m + 8);
    let sub = s.subrange(i, i + m + 8);
    assert(sub == w);
    assert(s[i] == 'r') by {
        assert(sub[0] == s[i]);
    }
    assert(s[i + 1] == 'e') by {
        assert(sub[1] == s[i + 1]);
    }
    assert(s[i + 2] == 't') by {
        assert(sub[2] == s[i + 2]);
    }
    assert(s[i + 3] == 'u') by {
        assert(sub[3] == s[i + 3]);
    }
    assert(s[i + 4] == 'r') by {
        assert(sub[4] == s[i + 4]);
    }
    assert(s[i + 5] == 'n') by {
        assert(sub[5] == s[i + 5]);
    }
    assert(s[i + 6] == ' ') by {
        assert(sub[6] == s[i + 6]);
    }
    assert forall|k: int| i + 7 <= k < i + 7 + m implies s[k] == lit[k - (i + 7)] by {
        assert(sub[k - i] == s[k]);
        assert(w[k - i] == lit[k - i - 7]);
    }
    assert forall|k: int| i + 7 <= k < i + 7 + m implies is_digit_char(s[k]) by {
        assert(s[k] == lit[k - (i + 7)]);
        assert(is_digit_char(lit[k - (i + 7)]));
    }
    assert(s[i + 7 + m] == ';') by {
        assert(sub[7 + m] == s[i + 7 + m]);
    }

    // `return` is an alphabetic run that matches the keyword.
    assert(ws_end(s, i) == i);
    lemma_alpha_end_run(s, i, i + 6);
    assert(token_end(s, i) == i + 6);
    assert(s.subrange(i, i + 6) =~= "return"@);
    assert(keyword_kind(s.subrange(i, i + 6)) == TokenType::Return);

    // The literal is the next digit run.
    assert(!is_ws_char(s[i + 7]));
    assert(ws_end(s, i + 7) == i + 7);
    assert(ws_end(s, i + 6) == i + 7);
    lemma_digit_end_run(s, i + 7, i + 7 + m);
    assert(token_end(s, i + 7) == i + 7 + m);
    assert(s.subrange(i + 7, i + 7 + m) =~= lit);

    // The closing semicolon.
    assert(ws_end(s, i + 7 + m) == i + 7 + m);
    assert(token_end(s, i + 7 + m) == i + 8 + m);
    assert(s.subrange(i + 7 + m, i + 8 + m) =~= seq![';']);
}

/// Scanning a window `let <name> = <value>;` whose value is an alphabetic
/// run, starting at position `i`, yields its five tokens in five steps,
/// consuming exactly the window.
pub proof fn lemma_tokenize_let_ident_at(s: Seq<char>, i: int, name: Seq<char>, value: Seq<char>)
    requires
        0 <= i,
        i + name.len() + value.len() + 8 <= s.len(),
        name.len() > 0,
        forall|j: int| 0 <= j < name.len() ==> is_letter_char(#[trigger] name[j]),
        value.len() > 0,
        forall|j: int| 0 <= j < value.len() ==> is_letter_char(#[trigger] value[j]),
        s.subrange(i, i + name.len() + value.len() + 8) == "let"@ + seq![' '] + name + seq![
            ' ',
            '=',
            ' ',
        ] + value + seq![';'],
    ensures
        ({
            let n = name.len() as int;
            let m = value.len() as int;
            &&& spec_token(s, i) == Some(TokenV { kind: TokenType::Let, literal: "let"@ })
            &&& spec_token_pos(s, i) == i + 3
            &&& spec_token(s, i + 3) == Some(TokenV { kind: keyword_kind(name), literal: name })
            &&& spec_token_pos(s, i + 3) == i + 4 + n
            &&& spec_token(s, i + 4 + n) == Some(
                TokenV { kind: TokenType::Assign, literal: seq!['='] },
            )
            &&& spec_token_pos(s, i + 4 + n) == i + 6 + n
            &&& spec_token(s, i + 6 + n) == Some(
                TokenV { kind: keyword_kind(value), literal: value },
            )
            &&& spec_token_pos(s, i + 6 + n) == i + 7 + n + m
            &&& spec_token(s, i + 7 + n + m) == Some(
                TokenV { kind: TokenType::Semicolon, literal: seq![';'] },
            )
            &&& spec_token_pos(s, i + 7 + n + m) == i + 8 + n + m
        }),
{
    reveal_strlit("let");
    reveal_strlit("fn");
    reveal_strlit("true");
    reveal_strlit("false");
    reveal_strlit("if");
    reveal_strlit("else");
    reveal_strlit("return");
    let n = name.len() as int;
    let m = value.len() as int;
    let w = "let"@ + seq![' '] + name + seq![' ', '=', ' '] + value + seq![';'];
    assert(w.len() == n + m + 8);
    let sub = s.subrange(i, i + n + m + 8);
    assert(sub == w);
    assert(s[i] == 'l') by {
        assert(sub[0] == s[i]);
    }
    assert(s[i + 1] == 'e') by {
        assert(sub[1] == s[i + 1]);
    }
    assert(s[i + 2] == 't') by {
        assert(sub[2] == s[i + 2]);
    }
    assert(s[i + 3] == ' ') by {
        assert(sub[3] == s[i + 3]);
    }
    assert forall|k: int| i + 4 <= k < i + 4 + n implies s[k] == name[k - (i + 4)] by {
        assert(sub[k - i] == s[k]);
        assert(w[k - i] == name[k - i - 4]);
    }
    assert forall|k: int| i + 4 <= k < i + 4 + n implies is_letter_char(s[k]) by {
        assert(s[k] == name[k - (i + 4)]);
        assert(is_letter_char(name[k - (i + 4)]));
    }
    assert(s[i + 4 + n] == ' ') by {
        assert(sub[4 + n] == s[i + 4 + n]);
    }
    assert(s[i + 5 + n] == '=') by {
        assert(sub[5 + n] == s[i + 5 + n]);
    }
    assert(s[i + 6 + n] == ' ') by {
        assert(sub[6 + n] == s[i + 6 + n]);
    }
    assert forall|k: int| i + 7 + n <= k < i + 7 + n + m implies s[k] == value[k - (i + 7 + n)] by {
        assert(sub[k - i] == s[k]);
        assert(w[k - i] == value[k - i - 7 - n]);
    }
    assert forall|k: int| i + 7 + n <= k < i + 7 + n + m implies is_letter_char(s[k]) by {
        assert(s[k] == value[k - (i + 7 + n)]);
        assert(is_letter_char(value[k - (i + 7 + n)]));
    }
    assert(s[i + 7 + n + m] == ';') by {
        assert(sub[7 + n + m] == s[i + 7 + n + m]);
    }

    // `let` is an alphabetic run that matches the keyword.
    assert(ws_end(s, i) == i);
    lemma_alpha_end_run(s, i, i + 3);
    assert(token_end(s, i) == i + 3);
    assert(s.subrange(i, i + 3) =~= "let"@);
    assert(keyword_kind(s.subrange(i, i + 3)) == TokenType::Let);

    // The name is the next alphabetic run.
    assert(!is_ws_char(s[i + 4]));
    assert(ws_end(s, i + 4) == i + 4);
    assert(ws_end(s, i + 3) == i + 4);
    lemma_alpha_end_run(s, i + 4, i + 4 + n);
    assert(token_end(s, i + 4) == i + 4 + n);
    assert(s.subrange(i + 4, i + 4 + n) =~= name);

    // The `=`, with a space after it, stays Assign.
    assert(!is_ws_char(s[i + 5 + n]));
    assert(ws_end(s, i + 5 + n) == i + 5 + n);
    assert(ws_end(s, i + 4 + n) == i + 5 + n);
    assert(s[i + 5 + n + 1] != '=');
    assert(token_end(s, i + 5 + n) == i + 6 + n);
    assert(s.subrange(i + 5 + n, i + 6 + n) =~= seq!['=']);

    // The value is the next alphabetic run.
    assert(!is_ws_char(s[i + 7 + n]));
    assert(ws_end(s, i + 7 + n) == i + 7 + n);
    assert(ws_end(s, i + 6 + n) == i + 7 + n);
    lemma_alpha_end_run(s, i + 7 + n, i + 7 + n + m);
    assert(token_end(s, i + 7 + n) == i + 7 + n + m);
    assert(s.subrange(i + 7 + n, i + 7 + n + m) =~= value);

    // The closing semicolon.
    assert(ws_end(s, i + 7 + n + m) == i + 7 + n + m);
    assert(token_end(s, i + 7 + n + m) == i + 8 + n + m);
    assert(s.subrange(i + 7 + n + m, i + 8 + n + m) =~= seq![';']);
}

} // verus!
