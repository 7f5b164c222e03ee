//! The tokenizer: turns source text into a stream of tokens.
//!
//! `next_token` skips whitespace and `#`-comments (counting lines), then
//! returns one token: a keyword, an identifier (an ASCII letter followed by
//! ASCII letters and digits), a numeric literal (digits and dots), or any
//! other character verbatim as a one-character symbol.  Called again after the
//! end of the input it keeps returning the end-of-input token.  A literal that
//! is not a valid number (two dots, no digits, or a value outside the exact
//! range of [`Numeral`]) comes back as an `Invalid` token, which the parser
//! treats as fatal.
//!
//! The spec function [`scan`] states what one call returns and where it leaves
//! the cursor and the line counter; `next_token` is proved to implement it.

use vstd::prelude::*;
use crate::numeral::{Numeral, spec_literal, is_digit_char};
use vstd::string::StrSliceExecFns;
use vstd::std_specs::iter::IteratorSpec;

verus! {

broadcast use vstd::string::next_postcondition, vstd::string::axiom_spec_iter;

/// ASCII whitespace: space, tab, newline, carriage return, form feed.
pub open spec fn is_space_char(c: char) -> bool {
    c == ' ' || c == '\t' || c == '\n' || c == '\r' || c == '\x0c'
}

/// An ASCII letter; identifiers start with one.
pub open spec fn is_letter_char(c: char) -> bool {
    ('a' <= c && c <= 'z') || ('A' <= c && c <= 'Z')
}

/// A character that may continue an identifier.
pub open spec fn is_word_char(c: char) -> bool {
    is_letter_char(c) || is_digit_char(c)
}

/// A character that may appear in a numeric literal.
pub open spec fn is_literal_char(c: char) -> bool {
    is_digit_char(c) || c == '.'
}

fn is_space(c: char) -> (r: bool)
    ensures
        r == is_space_char(c),
{
    c == ' ' || c == '\t' || c == '\n' || c == '\r' || c == '\x0c'
}

fn is_word(c: char) -> (r: bool)
    ensures
        r == is_word_char(c),
{
    ('a' <= c && c <= 'z') || ('A' <= c && c <= 'Z') || ('0' <= c && c <= '9')
}

fn is_literal(c: char) -> (r: bool)
    ensures
        r == is_literal_char(c),
{
    ('0' <= c && c <= '9') || c == '.'
}

/// The value of a token, with text as a sequence of characters.
pub enum TokenModel {
    Eof,
    Def,
    External,
    If,
    Then,
    Else,
    For,
    In,
    Identifier(Seq<char>),
    Number(Numeral),
    Symbol(char),
    Invalid(Seq<char>),
}

/// One lexical unit of the source language.
pub enum Token {
    /// End of the input; returned again on every later call.
    Eof,
    /// The keyword `def`.
    Def,
    /// The keyword that introduces an external declaration.
    External,
    /// The keyword `if`.
    If,
    /// The keyword `then`.
    Then,
    /// The keyword `else`.
    Else,
    /// The keyword `for`.
    For,
    /// The keyword `in`.
    In,
    /// A name that is not a keyword; carries its text.
    Identifier(String),
    /// A numeric literal; carries its exact value.
    Number(Numeral),
    /// Any other character, verbatim: operators and punctuation.
    Symbol(char),
    /// A malformed numeric literal; carries its text.  Fatal to a parse run.
    Invalid(String),
}

impl View for Token {
    type V = TokenModel;

    open spec fn view(&self) -> TokenModel {
        match self {
            Token::Eof => TokenModel::Eof,
            Token::Def => TokenModel::Def,
            Token::External => TokenModel::External,
            Token::If => TokenModel::If,
            Token::Then => TokenModel::Then,
            Token::Else => TokenModel::Else,
            Token::For => TokenModel::For,
            Token::In => TokenModel::In,
            Token::Identifier(s) => TokenModel::Identifier(s@),
            Token::Number(n) => TokenModel::Number(*n),
            Token::Symbol(c) => TokenModel::Symbol(*c),
            Token::Invalid(s) => TokenModel::Invalid(s@),
        }
    }
}

/// The keyword that introduces an external declaration, spelled out.
pub open spec fn kw_external() -> Seq<char> {
    seq!['e', 'x', 't', 'e', 'r', 'n']
}

/// Whether a word is one of the fixed keywords.
pub open spec fn is_keyword(w: Seq<char>) -> bool {
    w == "def"@ || w == kw_external() || w == "if"@ || w == "then"@ || w == "else"@
        || w == "for"@ || w == "in"@
}

/// The token a word denotes: keyword spelling always wins, any other word is
/// an identifier carrying its own text.
pub open spec fn keyword_or_identifier(w: Seq<char>) -> TokenModel {
    if w == "def"@ {
        TokenModel::Def
    } else if w == kw_external() {
        TokenModel::External
    } else if w == "if"@ {
        TokenModel::If
    } else if w == "then"@ {
        TokenModel::Then
    } else if w == "else"@ {
        TokenModel::Else
    } else if w == "for"@ {
        TokenModel::For
    } else if w == "in"@ {
        TokenModel::In
    } else {
        TokenModel::Identifier(w)
    }
}

/// The position just past the newline that ends a comment starting at `i`,
/// or the end of the input.
pub open spec fn comment_end(s: Seq<char>, i: int) -> int
    decreases s.len() - i,
{
    if i >= s.len() {
        i
    } else if s[i] == '\n' {
        i + 1
    } else {
        comment_end(s, i + 1)
    }
}

/// Whether the comment starting at `i` runs into a newline (rather than the
/// end of the input).
pub open spec fn comment_hits_newline(s: Seq<char>, i: int) -> bool
    decreases s.len() - i,
{
    if i >= s.len() {
        false
    } else if s[i] == '\n' {
        true
    } else {
        comment_hits_newline(s, i + 1)
    }
}

/// The first position at or after `i` that cannot continue an identifier.
pub open spec fn word_end(s: Seq<char>, i: int) -> int
    decreases s.len() - i,
{
    if i >= s.len() || !is_word_char(s[i]) {
        i
    } else {
        word_end(s, i + 1)
    }
}

/// The first position at or after `i` that cannot continue a numeric literal.
pub open spec fn literal_end(s: Seq<char>, i: int) -> int
    decreases s.len() - i,
{
    if i >= s.len() || !is_literal_char(s[i]) {
        i
    } else {
        literal_end(s, i + 1)
    }
}

pub proof fn lemma_comment_end_bounds(s: Seq<char>, i: int)
    ensures
        comment_end(s, i) >= i,
        i <= s.len() ==> comment_end(s, i) <= s.len(),
    decreases s.len() - i,
{
    if i < s.len() && s[i] != '\n' {
        lemma_comment_end_bounds(s, i + 1);
    }
}

pub proof fn lemma_word_end_bounds(s: Seq<char>, i: int)
    ensures
        word_end(s, i) >= i,
        i <= s.len() ==> word_end(s, i) <= s.len(),
    decreases s.len() - i,
{
    if i < s.len() && is_word_char(s[i]) {
        lemma_word_end_bounds(s, i + 1);
    }
}

pub proof fn lemma_literal_end_bounds(s: Seq<char>, i: int)
    ensures
        literal_end(s, i) >= i,
        i <= s.len() ==> literal_end(s, i) <= s.len(),
    decreases s.len() - i,
{
    if i < s.len() && is_literal_char(s[i]) {
        lemma_literal_end_bounds(s, i + 1);
    }
}

/// One step of tokenization: from a cursor and a line count, the next token,
/// the cursor after it, and the line count after it.
pub open spec fn scan(s: Seq<char>, pos: int, line: int) -> (TokenModel, int, int)
    decreases s.len() - pos,
        via scan_decreases
{
    if pos < 0 || pos >= s.len() {
        (TokenModel::Eof, pos, line)
    } else if is_space_char(s[pos]) {
        scan(s, pos + 1, line + if s[pos] == '\n' { 1int } else { 0int })
    } else if s[pos] == '#' {
        scan(
            s,
            comment_end(s, pos + 1),
            line + if comment_hits_newline(s, pos + 1) { 1int } else { 0int },
        )
    } else if is_letter_char(s[pos]) {
        let j = word_end(s, pos + 1);
        (keyword_or_identifier(s.subrange(pos, j)), j, line)
    } else if is_literal_char(s[pos]) {
        let j = literal_end(s, pos + 1);
        let w = s.subrange(pos, j);
        (
            match spec_literal(w) {
                Some(n) => TokenModel::Number(n),
                None => TokenModel::Invalid(w),
            },
            j,
            line,
        )
    } else {
        (TokenModel::Symbol(s[pos]), pos + 1, line)
    }
}

#[via_fn]
proof fn scan_decreases(s: Seq<char>, pos: int, line: int) {
    if 0 <= pos < s.len() && !is_space_char(s[pos]) && s[pos] == '#' {
        lemma_comment_end_bounds(s, pos + 1);
    }
}

/// Scanning moves forward and stays inside the input: the cursor after a
/// token is past the cursor before it unless the token is end-of-input, in
/// which case the cursor lands exactly on the end; lines never decrease.
pub proof fn lemma_scan_bounds(s: Seq<char>, pos: int, line: int)
    requires
        0 <= pos <= s.len(),
    ensures
        pos <= scan(s, pos, line).1 <= s.len(),
        scan(s, pos, line).0 != TokenModel::Eof ==> scan(s, pos, line).1 > pos,
        scan(s, pos, line).0 == TokenModel::Eof ==> scan(s, pos, line).1 == s.len(),
        scan(s, pos, line).2 >= line,
    decreases s.len() - pos,
{
    if pos < s.len() {
        if is_space_char(s[pos]) {
            lemma_scan_bounds(s, pos + 1, line + if s[pos] == '\n' { 1int } else { 0int });
        } else if s[pos] == '#' {
            lemma_comment_end_bounds(s, pos + 1);
            lemma_scan_bounds(
                s,
                comment_end(s, pos + 1),
                line + if comment_hits_newline(s, pos + 1) { 1int } else { 0int },
            );
        } else if is_letter_char(s[pos]) {
            lemma_word_end_bounds(s, pos + 1);
        } else if is_literal_char(s[pos]) {
            lemma_literal_end_bounds(s, pos + 1);
        }
    }
}

/// Whether the input from position `i` on holds only whitespace and comments.
pub open spec fn blank_from(s: Seq<char>, i: int) -> bool
    decreases s.len() - i,
        via blank_from_decreases
{
    if i >= s.len() {
        true
    } else if is_space_char(s[i]) {
        blank_from(s, i + 1)
    } else if s[i] == '#' {
        blank_from(s, comment_end(s, i + 1))
    } else {
        false
    }
}

#[via_fn]
proof fn blank_from_decreases(s: Seq<char>, i: int) {
    if i < s.len() && !is_space_char(s[i]) && s[i] == '#' {
        lemma_comment_end_bounds(s, i + 1);
    }
}

/// Law: from a position on, the input holds only whitespace and comments if
/// and only if scanning from there yields the end-of-input token.  In
/// particular, a whole input of whitespace and comments tokenizes to exactly
/// one end-of-input token.
pub proof fn lemma_blank_input_scans_to_eof(s: Seq<char>, pos: int, line: int)
    requires
        0 <= pos <= s.len(),
    ensures
        blank_from(s, pos) <==> scan(s, pos, line).0 == TokenModel::Eof,
    decreases s.len() - pos,
{
    if pos < s.len() {
        if is_space_char(s[pos]) {
            lemma_blank_input_scans_to_eof(
                s,
                pos + 1,
                line + if s[pos] == '\n' { 1int } else { 0int },
            );
        } else if s[pos] == '#' {
            lemma_comment_end_bounds(s, pos + 1);
            lemma_blank_input_scans_to_eof(
                s,
                comment_end(s, pos + 1),
                line + if comment_hits_newline(s, pos + 1) { 1int } else { 0int },
            );
        }
    }
}

pub proof fn lemma_word_end_all(s: Seq<char>, i: int)
    requires
        0 <= i <= s.len(),
        forall|j: int| i <= j < s.len() ==> is_word_char(s[j]),
    ensures
        word_end(s, i) == s.len(),
    decreases s.len() - i,
{
    if i < s.len() {
        lemma_word_end_all(s, i + 1);
    }
}

/// Law: a valid identifier that is not a keyword — an ASCII letter followed
/// by ASCII letters and digits — tokenizes to an identifier token carrying
/// exactly its own text, consuming the whole input and staying on its line.
pub proof fn lemma_identifier_scans_to_itself(s: Seq<char>, line: int)
    requires
        s.len() > 0,
        is_letter_char(s[0]),
        forall|i: int| 1 <= i < s.len() ==> is_word_char(s[i]),
        !is_keyword(s),
    ensures
        scan(s, 0, line) == (TokenModel::Identifier(s), s.len() as int, line),
{
    lemma_word_end_all(s, 1);
    assert(s.subrange(0, s.len() as int) =~= s);
}

/// The token under the cursor and the cursor after it do not depend on the
/// line counter; only the new line count does.
pub proof fn lemma_scan_line_independent(s: Seq<char>, pos: int, l1: int, l2: int)
    ensures
        scan(s, pos, l1).0 == scan(s, pos, l2).0,
        scan(s, pos, l1).1 == scan(s, pos, l2).1,
    decreases s.len() - pos,
{
    if 0 <= pos < s.len() {
        if is_space_char(s[pos]) {
            lemma_scan_line_independent(
                s,
                pos + 1,
                l1 + if s[pos] == '\n' { 1int } else { 0int },
                l2 + if s[pos] == '\n' { 1int } else { 0int },
            );
        } else if s[pos] == '#' {
            lemma_comment_end_bounds(s, pos + 1);
            lemma_scan_line_independent(
                s,
                comment_end(s, pos + 1),
                l1 + if comment_hits_newline(s, pos + 1) { 1int } else { 0int },
                l2 + if comment_hits_newline(s, pos + 1) { 1int } else { 0int },
            );
        }
    }
}

/// The tokenizer.  Owns the input text, a cursor, and a 1-based line counter
/// that grows by one for every newline consumed.
pub struct Lexer {
    text: String,
    chars: Vec<char>,
    pos: usize,
    /// The 1-based line the cursor stands on; errors cite it.
    pub line: usize,
}

impl Lexer {
    /// The input as a sequence of characters.
    pub closed spec fn input(&self) -> Seq<char> {
        self.chars@
    }

    /// The cursor: how many characters have been consumed.
    pub closed spec fn position(&self) -> int {
        self.pos as int
    }

    /// The line counter, as an integer.
    pub closed spec fn line_number(&self) -> int {
        self.line as int
    }

    /// The 1-based line the cursor stands on.
    pub fn current_line(&self) -> (l: usize)
        ensures
            l as int == self.line_number(),
    {
        self.line
    }

    /// The lexer's invariant: the cursor is inside the input and the line
    /// counter cannot outrun the cursor.
    pub closed spec fn wf(&self) -> bool {
        &&& self.text@ == self.chars@
        &&& self.pos <= self.chars@.len()
        &&& 1 <= self.line
        &&& self.line <= self.pos + 1
        &&& self.chars@.len() < usize::MAX
    }

    /// What well-formedness gives every user of a lexer: the cursor is
    /// inside the input and the line counter is positive.
    pub proof fn lemma_wf_bounds(&self)
        requires
            self.wf(),
        ensures
            0 <= self.position() <= self.input().len(),
            self.line_number() >= 1,
    {
    }

    /// A fresh lexer over `input`, at the start, on line one.
    #[verifier::loop_isolation(false)]
    pub fn new(input: &str) -> (r: Lexer)
        requires
            input@.len() < usize::MAX,
        ensures
            r.wf(),
            r.input() == input@,
            r.position() == 0,
            r.line_number() == 1,
    {
        let mut chars: Vec<char> = Vec::new();
        let mut it = input.chars();
        loop
            invariant
                it.obeys_prophetic_iter_laws(),
                it.decrease() is Some,
                chars@ + it.remaining() == input@,
            decreases it.decrease()->0,
        {
            match it.next() {
                Some(c) => {
                    chars.push(c);
                    proof {
                        assert(chars@ + it.remaining() =~= input@);
                    }
                },
                None => {
                    break ;
                },
            }
        }
        proof {
            assert(chars@ =~= input@);
        }
        Lexer { text: input.to_owned(), chars, pos: 0, line: 1 }
    }

    /// Consumes and returns one token, as [`scan`] describes: the returned
    /// token, the new cursor and the new line counter are exactly the scan of
    /// the old state.  A numeral in the token is well formed.
    #[verifier::loop_isolation(false)]
    pub fn next_token(&mut self) -> (t: Token)
        requires
            old(self).wf(),
        ensures
            final(self).wf(),
            final(self).input() == old(self).input(),
            ({
                let (tok, p2, l2) = scan(old(self).input(), old(self).position(), old(self).line_number());
                &&& t@ == tok
                &&& final(self).position() == p2
                &&& final(self).line_number() == l2
            }),
            t@ matches TokenModel::Number(n) ==> n.wf(),
    {
        let ghost s = self.chars@;
        let ghost pos0 = self.pos as int;
        let ghost line0 = self.line as int;
        loop
            invariant
                self.wf(),
                self.chars@ == s,
                pos0 <= self.pos as int,
                scan(s, pos0, line0) == scan(s, self.pos as int, self.line as int),
            decreases s.len() - self.pos,
        {
            if self.pos >= self.chars.len() {
                return Token::Eof;
            }
            let c = self.chars[self.pos];
            if is_space(c) {
                if c == '\n' {
                    self.line = self.line + 1;
                }
                self.pos = self.pos + 1;
            } else if c == '#' {
                let mut i: usize = self.pos + 1;
                while i < self.chars.len() && self.chars[i] != '\n'
                    invariant
                        self.pos < i <= self.chars@.len(),
                        self.chars@ == s,
                        comment_end(s, self.pos + 1) == comment_end(s, i as int),
                        comment_hits_newline(s, self.pos + 1) == comment_hits_newline(s, i as int),
                    decreases s.len() - i,
                {
                    i = i + 1;
                }
                if i < self.chars.len() {
                    // the comment ends at a newline, which is consumed
                    self.line = self.line + 1;
                    self.pos = i + 1;
                } else {
                    self.pos = i;
                }
            } else if is_word(c) && !is_literal(c) {
                // an ASCII letter: an identifier or a keyword
                let start = self.pos;
                let ghost line_at = self.line as int;
                proof {
                    assert(scan(s, pos0, line0) == scan(s, start as int, line_at));
                }
                self.pos = self.pos + 1;
                while self.pos < self.chars.len() && is_word(self.chars[self.pos])
                    invariant
                        self.wf(),
                        self.chars@ == s,
                        self.line as int == line_at,
                        start < self.pos <= self.chars@.len(),
                        word_end(s, start as int + 1) == word_end(s, self.pos as int),
                    decreases s.len() - self.pos,
                {
                    self.pos = self.pos + 1;
                }
                proof {
                    assert(word_end(s, start as int + 1) == self.pos as int);
                    assert(is_letter_char(s[start as int]));
                }
                let ghost w = s.subrange(start as int, self.pos as int);
                if is_external_word(&self.chars, start, self.pos) {
                    proof {
                        reveal_strlit("def");
                        assert(w != "def"@);
                        assert(keyword_or_identifier(w) == TokenModel::External);
                    }
                    return Token::External;
                }
                let word = self.text.as_str().substring_char(start, self.pos).to_owned();
                return keyword_or_identifier_token(word);
            } else if is_literal(c) {
                let start = self.pos;
                let ghost line_at = self.line as int;
                proof {
                    assert(scan(s, pos0, line0) == scan(s, start as int, line_at));
                }
                self.pos = self.pos + 1;
                while self.pos < self.chars.len() && is_literal(self.chars[self.pos])
                    invariant
                        self.wf(),
                        self.chars@ == s,
                        self.line as int == line_at,
                        start < self.pos <= self.chars@.len(),
                        literal_end(s, start as int + 1) == literal_end(s, self.pos as int),
                    decreases s.len() - self.pos,
                {
                    self.pos = self.pos + 1;
                }
                proof {
                    assert(literal_end(s, start as int + 1) == self.pos as int);
                    assert(!is_letter_char(s[start as int]));
                }
                match Numeral::from_literal(&self.chars, start, self.pos) {
                    Some(n) => {
                        return Token::Number(n);
                    },
                    None => {
                        let text = self.text.as_str().substring_char(start, self.pos).to_owned();
                        return Token::Invalid(text);
                    },
                }
            } else {
                self.pos = self.pos + 1;
                return Token::Symbol(c);
            }
        }
    }
}

/// Compares a word against the external-declaration keyword character by
/// character.
fn is_external_word(chars: &Vec<char>, start: usize, end: usize) -> (r: bool)
    requires
        start <= end <= chars@.len(),
    ensures
        r == (chars@.subrange(start as int, end as int) == kw_external()),
{
    let ghost sub = chars@.subrange(start as int, end as int);
    if end - start != 6 {
        proof {
            assert(sub.len() == end - start);
        }
        return false;
    }
    let r = chars[start] == 'e' && chars[start + 1] == 'x' && chars[start + 2] == 't' && chars[start
        + 3] == 'e' && chars[start + 4] == 'r' && chars[start + 5] == 'n';
    proof {
        if r {
            assert(sub =~= kw_external());
        } else {
            if sub == kw_external() {
                assert(sub[0] == 'e' && sub[1] == 'x' && sub[2] == 't' && sub[3] == 'e' && sub[4]
                    == 'r' && sub[5] == 'n');
            }
        }
    }
    r
}

fn eq_text(a: &String, b: &str) -> (r: bool)
    ensures
        r == (a@ == b@),
{
    let owned = b.to_owned();
    *a == owned
}

/// Maps the text of a word that is not the external-declaration keyword to
/// its token.
fn keyword_or_identifier_token(word: String) -> (t: Token)
    requires
        word@ != kw_external(),
    ensures
        t@ == keyword_or_identifier(word@),
{
    if eq_text(&word, "def") {
        Token::Def
    } else if eq_text(&word, "if") {
        Token::If
    } else if eq_text(&word, "then") {
        Token::Then
    } else if eq_text(&word, "else") {
        Token::Else
    } else if eq_text(&word, "for") {
        Token::For
    } else if eq_text(&word, "in") {
        Token::In
    } else {
        Token::Identifier(word)
    }
}

} // verus!
