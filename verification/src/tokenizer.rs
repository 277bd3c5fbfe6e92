//! The lexer: an eager character-to-token state machine with fail-fast
//! truncation on the first lexical error.
//!
//! The mathematical model is `spec_tokenize`, which maps the input
//! character sequence to the complete token sequence, always terminated
//! by exactly one end-of-input sentinel.

use vstd::prelude::*;
use vstd::string::StrSliceExecFns;
use vstd::string::StringExecFns;

use crate::ast::{Keyword, Token, TokenV, toks_v};
use crate::error::ParseError;

verus! {

// ---------------------------------------------------------------------------
// Character classes
// ---------------------------------------------------------------------------

pub open spec fn is_space_char(c: char) -> bool {
    c == ' ' || c == '\t' || c == '\n' || c == '\r'
}

pub open spec fn is_digit_char(c: char) -> bool {
    48 <= c as u32 && c as u32 <= 57
}

pub open spec fn is_alpha_char(c: char) -> bool {
    (65 <= c as u32 && c as u32 <= 90) || (97 <= c as u32 && c as u32 <= 122)
}

/// Characters that may continue an identifier-or-keyword lexeme.
pub open spec fn is_ident_char(c: char) -> bool {
    is_alpha_char(c) || is_digit_char(c) || c == '_'
}

// ---------------------------------------------------------------------------
// Lexeme boundaries
// ---------------------------------------------------------------------------

/// The position of the first closing double quote at or after `i`,
/// if there is one.
pub open spec fn string_close(s: Seq<char>, i: int) -> Option<int>
    decreases s.len() - i,
{
    if i < 0 || i >= s.len() {
        None
    } else if s[i] == '"' {
        Some(i)
    } else {
        string_close(s, i + 1)
    }
}

/// The end of the maximal run of characters satisfying `p` that starts
/// at `i` (maximal munch).
pub open spec fn run_end(s: Seq<char>, i: int, p: spec_fn(char) -> bool) -> int
    decreases s.len() - i,
{
    if 0 <= i && i < s.len() && p(s[i]) {
        run_end(s, i + 1, p)
    } else {
        i
    }
}

/// The digit run as a predicate, shared by the scanner and its callers.
pub open spec fn digit_pred() -> spec_fn(char) -> bool {
    |d: char| is_digit_char(d)
}

/// The identifier run as a predicate, shared by the scanner and its callers.
pub open spec fn ident_pred() -> spec_fn(char) -> bool {
    |d: char| is_ident_char(d)
}

/// The numeric value of a sequence of ASCII digits, most significant first.
pub open spec fn digit_of(c: char) -> nat {
    (c as u32 - 48) as nat
}

pub open spec fn digits_val(s: Seq<char>) -> nat
    decreases s.len(),
{
    if s.len() == 0 {
        0
    } else {
        10 * digits_val(s.drop_last()) + digit_of(s.last())
    }
}

// ---------------------------------------------------------------------------
// Keywords
// ---------------------------------------------------------------------------

/// `s` spells the word whose lowercase form is `low` and uppercase form
/// is `up`, with each position in either case independently.
pub open spec fn ci_eq(s: Seq<char>, low: Seq<char>, up: Seq<char>) -> bool {
    &&& s.len() == low.len()
    &&& s.len() == up.len()
    &&& forall|k: int| 0 <= k < s.len() ==> s[k] == low[k] || s[k] == up[k]
}

/// Case-insensitive keyword lookup, tried in a fixed order.
pub open spec fn kw_of(s: Seq<char>) -> Option<Keyword> {
    if ci_eq(s, "select"@, "SELECT"@) {
        Some(Keyword::Select)
    } else if ci_eq(s, "create"@, "CREATE"@) {
        Some(Keyword::Create)
    } else if ci_eq(s, "table"@, "TABLE"@) {
        Some(Keyword::Table)
    } else if ci_eq(s, "where"@, "WHERE"@) {
        Some(Keyword::Where)
    } else if ci_eq(s, "from"@, "FROM"@) {
        Some(Keyword::From)
    } else if ci_eq(s, "order"@, "ORDER"@) {
        Some(Keyword::Order)
    } else if ci_eq(s, "by"@, "BY"@) {
        Some(Keyword::By)
    } else if ci_eq(s, "and"@, "AND"@) {
        Some(Keyword::And)
    } else if ci_eq(s, "or"@, "OR"@) {
        Some(Keyword::Or)
    } else if ci_eq(s, "not"@, "NOT"@) {
        Some(Keyword::Not)
    } else {
        None
    }
}

/// The token an identifier-shaped lexeme turns into: a keyword if it
/// matches one of the reserved words, an identifier otherwise.
pub open spec fn word_token(lex: Seq<char>) -> TokenV {
    match kw_of(lex) {
        Some(k) => TokenV::Keyword(k),
        None => TokenV::Identifier(lex),
    }
}

// ---------------------------------------------------------------------------
// One scanning step
// ---------------------------------------------------------------------------

/// The kind of a lexical error, mirroring the `ParseError` variant
/// the scanner reports.
pub enum LexErrorKind {
    /// An unclassifiable character, or a bare `!`.
    UnexpectedToken,
    /// A digit run whose value does not fit in a u64.
    ExpectedNumber,
    /// An unterminated string literal.
    UnexpectedEndOfInput,
}

/// The outcome of one scanning step at position `i`: a token together
/// with the position just past its lexeme, a lexical error, or the end
/// of the input.
pub enum ScanStep {
    Token(TokenV, int),
    Fail(LexErrorKind),
    End,
}

/// One step of the character-level state machine: skip whitespace, then
/// classify the token starting at the first non-space character.
pub open spec fn spec_scan(s: Seq<char>, i: int) -> ScanStep
    decreases s.len() - i,
{
    if i < 0 || i >= s.len() {
        ScanStep::End
    } else {
        let c = s[i];
        if is_space_char(c) {
            spec_scan(s, i + 1)
        } else if c == '"' {
            match string_close(s, i + 1) {
                Some(j) => ScanStep::Token(TokenV::StringLiteral(s.subrange(i + 1, j)), j + 1),
                None => ScanStep::Fail(LexErrorKind::UnexpectedEndOfInput),
            }
        } else if is_digit_char(c) {
            let j = run_end(s, i, digit_pred());
            if digits_val(s.subrange(i, j)) <= u64::MAX {
                ScanStep::Token(TokenV::Number(digits_val(s.subrange(i, j)) as u64), j)
            } else {
                ScanStep::Fail(LexErrorKind::ExpectedNumber)
            }
        } else if is_alpha_char(c) || c == '_' {
            let j = run_end(s, i, ident_pred());
            ScanStep::Token(word_token(s.subrange(i, j)), j)
        } else if c == '(' {
            ScanStep::Token(TokenV::LeftParentheses, i + 1)
        } else if c == ')' {
            ScanStep::Token(TokenV::RightParentheses, i + 1)
        } else if c == ',' {
            ScanStep::Token(TokenV::Comma, i + 1)
        } else if c == ';' {
            ScanStep::Token(TokenV::Semicolon, i + 1)
        } else if c == '=' {
            // A doubled `==` is consumed whole but still yields Equal.
            if i + 1 < s.len() && s[i + 1] == '=' {
                ScanStep::Token(TokenV::Equal, i + 2)
            } else {
                ScanStep::Token(TokenV::Equal, i + 1)
            }
        } else if c == '!' {
            if i + 1 < s.len() && s[i + 1] == '=' {
                ScanStep::Token(TokenV::NotEqual, i + 2)
            } else {
                ScanStep::Fail(LexErrorKind::UnexpectedToken)
            }
        } else if c == '>' {
            if i + 1 < s.len() && s[i + 1] == '=' {
                ScanStep::Token(TokenV::GreaterThanOrEqual, i + 2)
            } else {
                ScanStep::Token(TokenV::GreaterThan, i + 1)
            }
        } else if c == '<' {
            if i + 1 < s.len() && s[i + 1] == '=' {
                ScanStep::Token(TokenV::LessThanOrEqual, i + 2)
            } else {
                ScanStep::Token(TokenV::LessThan, i + 1)
            }
        } else if c == '+' {
            ScanStep::Token(TokenV::Plus, i + 1)
        } else if c == '-' {
            ScanStep::Token(TokenV::Minus, i + 1)
        } else if c == '*' {
            ScanStep::Token(TokenV::Multiply, i + 1)
        } else if c == '/' {
            ScanStep::Token(TokenV::Divide, i + 1)
        } else {
            ScanStep::Fail(LexErrorKind::UnexpectedToken)
        }
    }
}

// ---------------------------------------------------------------------------
// Bounds of the scanning step
// ---------------------------------------------------------------------------

pub proof fn lemma_string_close_bounds(s: Seq<char>, i: int)
    ensures
        string_close(s, i) matches Some(j) ==> i <= j < s.len() && s[j] == '"',
    decreases s.len() - i,
{
    if 0 <= i && i < s.len() && s[i] != '"' {
        lemma_string_close_bounds(s, i + 1);
    }
}

pub proof fn lemma_run_end_bounds(s: Seq<char>, i: int, p: spec_fn(char) -> bool)
    requires
        0 <= i <= s.len(),
    ensures
        i <= run_end(s, i, p) <= s.len(),
        forall|k: int| i <= k < run_end(s, i, p) ==> p(s[k]),
        run_end(s, i, p) < s.len() ==> !p(s[run_end(s, i, p)]),
    decreases s.len() - i,
{
    if i < s.len() && p(s[i]) {
        lemma_run_end_bounds(s, i + 1, p);
    }
}

/// A successful scanning step always makes progress and never yields
/// the sentinel itself.
pub proof fn lemma_scan_bounds(s: Seq<char>, i: int)
    ensures
        spec_scan(s, i) matches ScanStep::Token(t, j) ==> i < j <= s.len() && !(t is Eof),
    decreases s.len() - i,
{
    if 0 <= i && i < s.len() {
        let c = s[i];
        if is_space_char(c) {
            lemma_scan_bounds(s, i + 1);
        } else if c == '"' {
            lemma_string_close_bounds(s, i + 1);
        } else if is_digit_char(c) {
            lemma_run_end_bounds(s, i, digit_pred());
        } else if is_alpha_char(c) || c == '_' {
            lemma_run_end_bounds(s, i, ident_pred());
        }
    }
}

// ---------------------------------------------------------------------------
// The whole token sequence
// ---------------------------------------------------------------------------

/// The complete token sequence for the input from position `i` on:
/// scanning proceeds token by token and stops at the end of the input
/// or at the first lexical error, appending the end-of-input sentinel
/// either way.
pub open spec fn spec_tokenize(s: Seq<char>, i: int) -> Seq<TokenV>
    decreases s.len() - i,
{
    proof {
        lemma_scan_bounds(s, i);
    }
    match spec_scan(s, i) {
        ScanStep::Token(t, j) => seq![t] + spec_tokenize(s, j),
        ScanStep::Fail(_) => seq![TokenV::Eof],
        ScanStep::End => seq![TokenV::Eof],
    }
}

/// The token sequence is never empty, ends with the sentinel, and holds
/// the sentinel nowhere else.
pub proof fn lemma_tokenize_shape(s: Seq<char>, i: int)
    ensures
        spec_tokenize(s, i).len() >= 1,
        spec_tokenize(s, i).last() == TokenV::Eof,
        forall|k: int|
            0 <= k < spec_tokenize(s, i).len() - 1 ==> !(#[trigger] spec_tokenize(s, i)[k]
                is Eof),
    decreases s.len() - i,
{
    lemma_scan_bounds(s, i);
    match spec_scan(s, i) {
        ScanStep::Token(t, j) => {
            lemma_tokenize_shape(s, j);
            let whole = spec_tokenize(s, i);
            let rest = spec_tokenize(s, j);
            assert(whole.last() == rest.last());
            assert forall|k: int| 0 <= k < whole.len() - 1 implies !(#[trigger] whole[k]
                is Eof) by {
                if k > 0 {
                    assert(whole[k] == rest[k - 1]);
                }
            }
        },
        ScanStep::Fail(_) => {},
        ScanStep::End => {},
    }
}

} // verus!

verus! {

// ---------------------------------------------------------------------------
// The executable tokenizer
// ---------------------------------------------------------------------------

/// Relies on String::push: appends exactly the given character.
#[verifier::external_body]
fn push_char(s: &mut String, c: char)
    ensures
        final(s)@ == old(s)@.push(c),
{
    s.push(c)
}

/// Case-insensitive comparison of `s` against a word given in its
/// lowercase and uppercase spellings.
fn str_eq_ci(s: &str, low: &str, up: &str) -> (r: bool)
    requires
        low@.len() == up@.len(),
    ensures
        r == ci_eq(s@, low@, up@),
{
    let n = s.unicode_len();
    if n != low.unicode_len() {
        return false;
    }
    let mut i: usize = 0;
    while i < n
        invariant
            n == s@.len(),
            n == low@.len(),
            n == up@.len(),
            i <= n,
            forall|k: int| 0 <= k < i ==> s@[k] == low@[k] || s@[k] == up@[k],
        decreases n - i,
    {
        let c = s.get_char(i);
        let l = low.get_char(i);
        let u = up.get_char(i);
        if c != l && c != u {
            return false;
        }
        i = i + 1;
    }
    true
}

impl Keyword {
    /// Classifies a lexeme as one of the ten reserved words, compared
    /// case-insensitively, or `None` if it matches none of them.
    pub fn from_str(s: &str) -> (r: Option<Keyword>)
        ensures
            r == kw_of(s@),
    {
        proof {
            reveal_strlit("select");
            reveal_strlit("SELECT");
            reveal_strlit("create");
            reveal_strlit("CREATE");
            reveal_strlit("table");
            reveal_strlit("TABLE");
            reveal_strlit("where");
            reveal_strlit("WHERE");
            reveal_strlit("from");
            reveal_strlit("FROM");
            reveal_strlit("order");
            reveal_strlit("ORDER");
            reveal_strlit("by");
            reveal_strlit("BY");
            reveal_strlit("and");
            reveal_strlit("AND");
            reveal_strlit("or");
            reveal_strlit("OR");
            reveal_strlit("not");
            reveal_strlit("NOT");
        }
        if str_eq_ci(s, "select", "SELECT") {
            Some(Keyword::Select)
        } else if str_eq_ci(s, "create", "CREATE") {
            Some(Keyword::Create)
        } else if str_eq_ci(s, "table", "TABLE") {
            Some(Keyword::Table)
        } else if str_eq_ci(s, "where", "WHERE") {
            Some(Keyword::Where)
        } else if str_eq_ci(s, "from", "FROM") {
            Some(Keyword::From)
        } else if str_eq_ci(s, "order", "ORDER") {
            Some(Keyword::Order)
        } else if str_eq_ci(s, "by", "BY") {
            Some(Keyword::By)
        } else if str_eq_ci(s, "and", "AND") {
            Some(Keyword::And)
        } else if str_eq_ci(s, "or", "OR") {
            Some(Keyword::Or)
        } else if str_eq_ci(s, "not", "NOT") {
            Some(Keyword::Not)
        } else {
            None
        }
    }
}

/// The eager lexer: the whole input is tokenized at construction time,
/// and the resulting sequence is then read through a cursor.
pub struct Tokenizer {
    pub input: Vec<char>,
    pub position: usize,
    pub tokens: Vec<Token>,
    pub cursor: usize,
}

impl Tokenizer {
    /// The mathematical token sequence this tokenizer holds.
    pub open spec fn toks(&self) -> Seq<TokenV> {
        toks_v(self.tokens@)
    }

    /// Well-formed after construction: the input is fully scanned and
    /// the stored tokens are exactly the model's token sequence.
    pub open spec fn wf(&self) -> bool {
        &&& self.position == self.input@.len()
        &&& self.toks() == spec_tokenize(self.input@, 0)
        &&& self.cursor <= self.toks().len()
    }
}

} // verus!

verus! {

/// Tokens that hold no sentinel anywhere.
pub open spec fn no_eof(ts: Seq<TokenV>) -> bool {
    forall|k: int| 0 <= k < ts.len() ==> !(#[trigger] ts[k] is Eof)
}

/// The `ParseError` variant matching a lexical error kind.
pub open spec fn kind_matches(k: LexErrorKind, e: ParseError) -> bool {
    match k {
        LexErrorKind::UnexpectedToken => e is UnexpectedToken,
        LexErrorKind::ExpectedNumber => e is ExpectedNumber,
        LexErrorKind::UnexpectedEndOfInput => e is UnexpectedEndOfInput,
    }
}

/// What one call of `tokenize_next_token` does, phrased over the
/// scanning step of the model at the pre-call position.
pub open spec fn next_token_post(
    pre: Tokenizer,
    post: Tokenizer,
    r: Option<Result<Token, ParseError>>,
) -> bool {
    match spec_scan(pre.input@, pre.position as int) {
        ScanStep::Token(tv, j) => post.position == j && (r matches Some(Ok(t)) && t@ == tv),
        ScanStep::Fail(k) => post.position <= pre.input@.len() && (r matches Some(Err(e))
            && kind_matches(k, e)),
        ScanStep::End => post.position == pre.input@.len() && (r matches Some(Ok(t)) && t
            == Token::Eof),
    }
}

fn is_digit_char_exec(c: char) -> (b: bool)
    ensures
        b == is_digit_char(c),
{
    let u = c as u32;
    48 <= u && u <= 57
}

fn is_ident_char_exec(c: char) -> (b: bool)
    ensures
        b == is_ident_char(c),
{
    let u = c as u32;
    (65 <= u && u <= 90) || (97 <= u && u <= 122) || (48 <= u && u <= 57) || c == '_'
}

impl Tokenizer {
    /// Returns the next character without advancing the position.
    fn peek(&self) -> (r: Option<char>)
        ensures
            r == (if self.position < self.input@.len() {
                Some(self.input@[self.position as int])
            } else {
                None::<char>
            }),
    {
        if self.position < self.input.len() {
            Some(self.input[self.position])
        } else {
            None
        }
    }

    /// Returns the next character and advances the position.
    fn advance(&mut self) -> (r: Option<char>)
        ensures
            final(self).input@ == old(self).input@,
            final(self).tokens@ == old(self).tokens@,
            final(self).cursor == old(self).cursor,
            old(self).position < old(self).input@.len() ==> {
                &&& final(self).position == old(self).position + 1
                &&& r == Some(old(self).input@[old(self).position as int])
            },
            old(self).position >= old(self).input@.len() ==> {
                &&& final(self).position == old(self).position
                &&& r == None::<char>
            },
    {
        if self.position < self.input.len() {
            let ch = self.input[self.position];
            self.position = self.position + 1;
            Some(ch)
        } else {
            None
        }
    }

    /// Scans a string literal: the characters between the opening quote
    /// and the first closing quote, verbatim; reaching the end of the
    /// input first is an unterminated-string error.
    fn tokenize_string_literal(&mut self) -> (r: Result<Token, ParseError>)
        requires
            old(self).position < old(self).input@.len(),
            old(self).input@[old(self).position as int] == '"',
        ensures
            final(self).input@ == old(self).input@,
            final(self).tokens@ == old(self).tokens@,
            final(self).cursor == old(self).cursor,
            final(self).position <= final(self).input@.len(),
            match string_close(old(self).input@, old(self).position + 1) {
                Some(j) => {
                    &&& final(self).position == j + 1
                    &&& (r matches Ok(t) && t@ == TokenV::StringLiteral(
                        old(self).input@.subrange(old(self).position + 1, j),
                    ))
                },
                None => {
                    &&& final(self).position == final(self).input@.len()
                    &&& (r matches Err(e) && e is UnexpectedEndOfInput)
                },
            },
    {
        let ghost s = self.input@;
        let ghost start = self.position as int;
        let mut value = String::new();
        let _ = self.advance();
        loop
            invariant
                self.input@ == s,
                s == old(self).input@,
                self.tokens@ == old(self).tokens@,
                self.cursor == old(self).cursor,
                start == old(self).position,
                start + 1 <= self.position <= s.len(),
                value@ == s.subrange(start + 1, self.position as int),
                string_close(s, start + 1) == string_close(s, self.position as int),
            decreases s.len() - self.position,
        {
            match self.peek() {
                None => {
                    return Err(
                        ParseError::UnexpectedEndOfInput(
                            String::from_str("Unterminated string literal"),
                        ),
                    );
                },
                Some(c) => {
                    if c == '"' {
                        proof {
                            assert(string_close(s, self.position as int) == Some(
                                self.position as int,
                            ));
                        }
                        let _ = self.advance();
                        return Ok(Token::StringLiteral(value));
                    }
                    push_char(&mut value, c);
                    let ghost p = self.position as int;
                    let _ = self.advance();
                    proof {
                        assert(s.subrange(start + 1, p + 1) =~= s.subrange(start + 1, p).push(
                            s[p],
                        ));
                    }
                },
            }
        }
    }

    /// Scans the maximal run of ASCII digits and parses it as a u64; a
    /// value that does not fit is an error, not a truncation.
    fn tokenize_number(&mut self) -> (r: Result<Token, ParseError>)
        requires
            old(self).position < old(self).input@.len(),
            is_digit_char(old(self).input@[old(self).position as int]),
        ensures
            final(self).input@ == old(self).input@,
            final(self).tokens@ == old(self).tokens@,
            final(self).cursor == old(self).cursor,
            final(self).position == run_end(
                old(self).input@,
                old(self).position as int,
                digit_pred(),
            ),
            ({
                let s = old(self).input@;
                let start = old(self).position as int;
                let v = digits_val(s.subrange(start, run_end(s, start, digit_pred())));
                if v <= u64::MAX {
                    r matches Ok(t) && t@ == TokenV::Number(v as u64)
                } else {
                    r matches Err(e) && e is ExpectedNumber
                }
            }),
    {
        let ghost s = self.input@;
        let ghost start = self.position as int;
        let ghost j = run_end(s, start, digit_pred());
        proof {
            lemma_run_end_bounds(s, start, digit_pred());
        }
        let mut text = String::new();
        let mut acc: u64 = 0;
        let mut overflow = false;
        while self.position < self.input.len() && is_digit_char_exec(self.input[self.position])
            invariant
                self.input@ == s,
                s == old(self).input@,
                self.tokens@ == old(self).tokens@,
                self.cursor == old(self).cursor,
                start == old(self).position,
                j == run_end(s, start, digit_pred()),
                start <= self.position <= j <= s.len(),
                forall|k: int| start <= k < j ==> is_digit_char(s[k]),
                j < s.len() ==> !is_digit_char(s[j]),
                text@ == s.subrange(start, self.position as int),
                !overflow ==> acc == digits_val(s.subrange(start, self.position as int)),
                overflow ==> digits_val(s.subrange(start, self.position as int)) > u64::MAX,
            decreases s.len() - self.position,
        {
            let c = self.input[self.position];
            let u = c as u32;
            push_char(&mut text, c);
            let d: u64 = (u - 48) as u64;
            let ghost p = self.position as int;
            let ghost pref = s.subrange(start, p);
            proof {
                assert(s.subrange(start, p + 1) =~= pref.push(s[p]));
                assert(s.subrange(start, p + 1).drop_last() =~= pref);
                assert(digits_val(s.subrange(start, p + 1)) == 10 * digits_val(pref) + digit_of(
                    s[p],
                ));
            }
            if !overflow {
                let wide: u128 = (acc as u128) * 10 + (d as u128);
                if wide > u64::MAX as u128 {
                    overflow = true;
                } else {
                    acc = wide as u64;
                }
            } else {
                proof {
                    assert(digits_val(s.subrange(start, p + 1)) >= digits_val(pref));
                }
            }
            self.position = self.position + 1;
        }
        proof {
            // The loop stops exactly at the end of the digit run.
            if self.position < j {
                assert(is_digit_char(s[self.position as int]));
            }
            assert(self.position == j);
        }
        if overflow {
            let mut m = String::from_str("Invalid number: ");
            m.append(text.as_str());
            Err(ParseError::ExpectedNumber(m))
        } else {
            Ok(Token::Number(acc))
        }
    }

    /// Scans the maximal run of alphanumeric or underscore characters,
    /// then classifies the lexeme as a keyword or an identifier.
    fn tokenize_identifier_or_keyword(&mut self) -> (r: Result<Token, ParseError>)
        requires
            old(self).position < old(self).input@.len(),
            is_alpha_char(old(self).input@[old(self).position as int]) || old(self).input@[old(
                self,
            ).position as int] == '_',
        ensures
            final(self).input@ == old(self).input@,
            final(self).tokens@ == old(self).tokens@,
            final(self).cursor == old(self).cursor,
            final(self).position == run_end(
                old(self).input@,
                old(self).position as int,
                ident_pred(),
            ),
            ({
                let s = old(self).input@;
                let start = old(self).position as int;
                r matches Ok(t) && t@ == word_token(
                    s.subrange(start, run_end(s, start, ident_pred())),
                )
            }),
    {
        let ghost s = self.input@;
        let ghost start = self.position as int;
        let ghost j = run_end(s, start, ident_pred());
        proof {
            lemma_run_end_bounds(s, start, ident_pred());
        }
        let mut value = String::new();
        while self.position < self.input.len() && is_ident_char_exec(self.input[self.position])
            invariant
                self.input@ == s,
                s == old(self).input@,
                self.tokens@ == old(self).tokens@,
                self.cursor == old(self).cursor,
                start == old(self).position,
                j == run_end(s, start, ident_pred()),
                start <= self.position <= j <= s.len(),
                forall|k: int| start <= k < j ==> is_ident_char(s[k]),
                j < s.len() ==> !is_ident_char(s[j]),
                value@ == s.subrange(start, self.position as int),
            decreases s.len() - self.position,
        {
            let c = self.input[self.position];
            push_char(&mut value, c);
            let ghost p = self.position as int;
            self.position = self.position + 1;
            proof {
                assert(s.subrange(start, p + 1) =~= s.subrange(start, p).push(s[p]));
            }
        }
        proof {
            if self.position < j {
                assert(is_ident_char(s[self.position as int]));
            }
            assert(self.position == j);
        }
        match Keyword::from_str(value.as_str()) {
            Some(keyword) => Ok(Token::Keyword(keyword)),
            None => Ok(Token::Identifier(value)),
        }
    }
}

} // verus!

verus! {

impl Tokenizer {
    /// Scans the next token: skips whitespace, then classifies the next
    /// lexeme exactly as the scanning step of the model does.
    fn tokenize_next_token(&mut self) -> (r: Option<Result<Token, ParseError>>)
        requires
            old(self).position <= old(self).input@.len(),
        ensures
            final(self).input@ == old(self).input@,
            final(self).tokens@ == old(self).tokens@,
            final(self).cursor == old(self).cursor,
            final(self).position <= final(self).input@.len(),
            next_token_post(*old(self), *final(self), r),
    {
        let ghost s = self.input@;
        loop
            invariant
                self.input@ == s,
                s == old(self).input@,
                self.tokens@ == old(self).tokens@,
                self.cursor == old(self).cursor,
                self.position <= s.len(),
                spec_scan(s, old(self).position as int) == spec_scan(s, self.position as int),
            decreases s.len() - self.position,
        {
            let ghost p0 = self.position as int;
            match self.peek() {
                None => {
                    return Some(Ok(Token::Eof));
                },
                Some(c) => {
                    if c == ' ' || c == '\t' || c == '\n' || c == '\r' {
                        let _ = self.advance();
                    } else if c == '"' {
                        let res = self.tokenize_string_literal();
                        proof {
                            lemma_string_close_bounds(s, p0 + 1);
                        }
                        return Some(res);
                    } else if is_digit_char_exec(c) {
                        let res = self.tokenize_number();
                        proof {
                            lemma_run_end_bounds(s, p0, digit_pred());
                        }
                        return Some(res);
                    } else if is_ident_char_exec(c) {
                        let res = self.tokenize_identifier_or_keyword();
                        proof {
                            lemma_run_end_bounds(s, p0, ident_pred());
                        }
                        return Some(res);
                    } else if c == '(' {
                        let _ = self.advance();
                        return Some(Ok(Token::LeftParentheses));
                    } else if c == ')' {
                        let _ = self.advance();
                        return Some(Ok(Token::RightParentheses));
                    } else if c == ',' {
                        let _ = self.advance();
                        return Some(Ok(Token::Comma));
                    } else if c == ';' {
                        let _ = self.advance();
                        return Some(Ok(Token::Semicolon));
                    } else if c == '=' {
                        let _ = self.advance();
                        match self.peek() {
                            Some('=') => {
                                let _ = self.advance();
                                return Some(Ok(Token::Equal));
                            },
                            _ => {
                                return Some(Ok(Token::Equal));
                            },
                        }
                    } else if c == '!' {
                        let _ = self.advance();
                        match self.peek() {
                            Some('=') => {
                                let _ = self.advance();
                                return Some(Ok(Token::NotEqual));
                            },
                            _ => {
                                return Some(
                                    Err(
                                        ParseError::UnexpectedToken(
                                            String::from_str("Unexpected '!' without '='"),
                                        ),
                                    ),
                                );
                            },
                        }
                    } else if c == '>' {
                        let _ = self.advance();
                        match self.peek() {
                            Some('=') => {
                                let _ = self.advance();
                                return Some(Ok(Token::GreaterThanOrEqual));
                            },
                            _ => {
                                return Some(Ok(Token::GreaterThan));
                            },
                        }
                    } else if c == '<' {
                        let _ = self.advance();
                        match self.peek() {
                            Some('=') => {
                                let _ = self.advance();
                                return Some(Ok(Token::LessThanOrEqual));
                            },
                            _ => {
                                return Some(Ok(Token::LessThan));
                            },
                        }
                    } else if c == '+' {
                        let _ = self.advance();
                        return Some(Ok(Token::Plus));
                    } else if c == '-' {
                        let _ = self.advance();
                        return Some(Ok(Token::Minus));
                    } else if c == '*' {
                        let _ = self.advance();
                        return Some(Ok(Token::Multiply));
                    } else if c == '/' {
                        let _ = self.advance();
                        return Some(Ok(Token::Divide));
                    } else {
                        let _ = self.advance();
                        let mut m = String::from_str("Unexpected character '");
                        push_char(&mut m, c);
                        m.append("'");
                        return Some(Err(ParseError::UnexpectedToken(m)));
                    }
                },
            }
        }
    }

    /// The eager tokenization pass: accumulates tokens until the end of
    /// the input or the first lexical error; on an error it pushes the
    /// sentinel and discards the remainder of the input. The sentinel is
    /// appended at the end if not already the last token.
    fn tokenize_input(&mut self)
        requires
            old(self).position <= old(self).input@.len(),
            (old(self).tokens@.len() == 0 && old(self).position == 0 && old(self).cursor == 0)
                || old(self).wf(),
        ensures
            final(self).input@ == old(self).input@,
            final(self).cursor == old(self).cursor,
            final(self).wf(),
            old(self).wf() ==> final(self).tokens@ == old(self).tokens@ && final(self).position
                == old(self).position,
    {
        let ghost s = self.input@;
        loop
            invariant_except_break
                self.input@ == s,
                s == old(self).input@,
                self.cursor == old(self).cursor,
                self.position <= s.len(),
                (no_eof(self.toks()) && spec_tokenize(s, 0) == self.toks() + spec_tokenize(
                    s,
                    self.position as int,
                )) || (self.toks() == spec_tokenize(s, 0) && self.position == s.len()),
                old(self).wf() ==> self.tokens@ == old(self).tokens@ && self.position == old(
                    self,
                ).position,
            ensures
                self.input@ == s,
                s == old(self).input@,
                self.cursor == old(self).cursor,
                self.position == s.len(),
                (self.toks() == spec_tokenize(s, 0)) || (no_eof(self.toks()) && self.toks()
                    + seq![TokenV::Eof] == spec_tokenize(s, 0)),
                old(self).wf() ==> self.tokens@ == old(self).tokens@ && self.position == old(
                    self,
                ).position,
            decreases s.len() - self.position,
        {
            let ghost p0 = self.position as int;
            let ghost toks0 = self.toks();
            let t = self.tokenize_next_token();
            proof {
                lemma_scan_bounds(s, p0);
            }
            match t {
                Some(Ok(tok)) => {
                    if matches!(tok, Token::Eof) {
                        proof {
                            // Only the end of the input yields the sentinel.
                            assert(spec_scan(s, p0) is End);
                            assert(spec_tokenize(s, p0) =~= seq![TokenV::Eof]);
                        }
                        break;
                    } else {
                        self.tokens.push(tok);
                        proof {
                            let tv = spec_scan(s, p0)->Token_0;
                            assert(self.toks() =~= toks0 + seq![tv]);
                            assert(spec_tokenize(s, p0) == seq![tv] + spec_tokenize(
                                s,
                                self.position as int,
                            ));
                            assert(spec_tokenize(s, 0) =~= self.toks() + spec_tokenize(
                                s,
                                self.position as int,
                            ));
                        }
                    }
                },
                Some(Err(_e)) => {
                    self.tokens.push(Token::Eof);
                    self.position = self.input.len();
                    proof {
                        assert(spec_tokenize(s, p0) =~= seq![TokenV::Eof]);
                        assert(self.toks() =~= toks0 + seq![TokenV::Eof]);
                        assert(self.toks() =~= spec_tokenize(s, 0));
                    }
                    break;
                },
                None => {
                    proof {
                        assert(false);
                    }
                    break;
                },
            }
        }
        proof {
            lemma_tokenize_shape(s, 0);
        }
        let ghost toks1 = self.toks();
        let n = self.tokens.len();
        let needs_eof = n == 0 || !matches!(&self.tokens[n - 1], Token::Eof);
        if needs_eof {
            proof {
                // The finished case always ends with the sentinel, so the
                // sentinel is still owed here.
                if self.toks() == spec_tokenize(s, 0) {
                    assert(self.toks().last() == TokenV::Eof);
                    assert(self.toks()[n - 1] is Eof);
                    assert(false);
                }
            }
            self.tokens.push(Token::Eof);
            proof {
                assert(self.toks() =~= toks1 + seq![TokenV::Eof]);
            }
        } else {
            proof {
                if !(self.toks() == spec_tokenize(s, 0)) {
                    assert(self.toks()[n - 1] is Eof);
                    assert(false);
                }
            }
        }
    }
}

} // verus!

verus! {

impl Tokenizer {
    /// Creates a tokenizer and eagerly tokenizes the entire input: the
    /// stored sequence is exactly the model's token sequence for the
    /// input text, and the cursor starts at its beginning.
    pub fn new(input: &str) -> (t: Tokenizer)
        ensures
            t.wf(),
            t.input@ == input@,
            t.cursor == 0,
            t.toks() == spec_tokenize(input@, 0),
    {
        let n = input.unicode_len();
        let mut chars: Vec<char> = Vec::new();
        let mut i: usize = 0;
        while i < n
            invariant
                n == input@.len(),
                i <= n,
                chars@ == input@.subrange(0, i as int),
            decreases n - i,
        {
            let c = input.get_char(i);
            chars.push(c);
            i = i + 1;
            proof {
                assert(input@.subrange(0, i as int) =~= input@.subrange(0, i - 1).push(
                    input@[i - 1],
                ));
            }
        }
        proof {
            assert(chars@ =~= input@);
        }
        let mut tokenizer = Tokenizer { input: chars, position: 0, tokens: Vec::new(), cursor: 0 };
        tokenizer.tokenize_input();
        tokenizer
    }

    /// Returns a copy of the whole token sequence. Tokenization happened
    /// once at construction; repeated retrieval is pure and returns the
    /// identical sequence, and the tokenizer itself is left unchanged.
    pub fn tokenize_string(&mut self) -> (r: Result<Vec<Token>, ParseError>)
        requires
            old(self).wf(),
        ensures
            final(self).input@ == old(self).input@,
            final(self).tokens@ == old(self).tokens@,
            final(self).position == old(self).position,
            final(self).cursor == old(self).cursor,
            final(self).wf(),
            r matches Ok(v) && v@ == final(self).tokens@,
    {
        self.tokenize_input();
        let copy = self.tokens.clone();
        proof {
            assert(copy@ =~= self.tokens@);
        }
        Ok(copy)
    }

    /// Returns the token at the cursor without consuming it, or `None`
    /// once the recorded sequence is exhausted.
    pub fn peek_token(&self) -> (r: Option<Token>)
        ensures
            r == (if self.cursor < self.tokens@.len() {
                Some(self.tokens@[self.cursor as int])
            } else {
                None::<Token>
            }),
    {
        if self.cursor < self.tokens.len() {
            Some(self.tokens[self.cursor].clone())
        } else {
            None
        }
    }

    /// Returns the token at the cursor and advances past it; once the
    /// recorded sequence is exhausted it keeps returning the sentinel.
    pub fn next(&mut self) -> (r: Option<Token>)
        ensures
            final(self).input@ == old(self).input@,
            final(self).tokens@ == old(self).tokens@,
            final(self).position == old(self).position,
            if old(self).cursor < old(self).tokens@.len() {
                &&& final(self).cursor == old(self).cursor + 1
                &&& r == Some(old(self).tokens@[old(self).cursor as int])
            } else {
                &&& final(self).cursor == old(self).cursor
                &&& r == Some(Token::Eof)
            },
    {
        if self.cursor < self.tokens.len() {
            let token = self.tokens[self.cursor].clone();
            self.cursor = self.cursor + 1;
            Some(token)
        } else {
            Some(Token::Eof)
        }
    }
}

} // verus!
