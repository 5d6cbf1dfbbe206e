//! The lexer: converts source text into an ordered sequence of positioned
//! tokens.
//!
//! The executable [`Scanner`] is specified against a functional model of the
//! scan: [`spec_next`] says which token (or error) one call of
//! [`Scanner::next`] produces and where the cursor lands, and [`spec_scan`]
//! folds that over the whole input.

use vstd::prelude::*;
use vstd::string::StrSliceExecFns;
use vstd::string::StringExecFns;

use crate::number::{number_of_lexeme, parse_number};
use crate::token::{token_view, tokens_view, Position, Token, TokenV, TokenWithPosition};

verus! {

/// A lexical error. An unterminated string and an invalid numeric literal
/// abort the scan; unexpected characters are skipped and recovered locally.
#[derive(Debug, Clone, Copy, PartialEq, Eq, Structural)]
pub enum LexerError {
    UnterminatedString,
    InvalidNumber,
}

impl LexerError {
    /// A one-line diagnostic for this error.
    pub fn message(&self) -> (r: String)
        ensures
            *self == LexerError::UnterminatedString ==> r@ == "Unterminated string."@,
            *self == LexerError::InvalidNumber ==> r@ == "Invalid number."@,
    {
        match self {
            LexerError::UnterminatedString => String::from_str("Unterminated string."),
            LexerError::InvalidNumber => String::from_str("Invalid number."),
        }
    }
}

/// The mathematical shape of a [`Position`]: unbounded line and column.
pub struct PosV {
    pub line: int,
    pub column: int,
}

/// The ghost counterpart of a source position.
pub open spec fn pv(p: Position) -> PosV {
    PosV { line: p.line as int, column: p.column as int }
}

/// The position one character past `p`: a newline starts the next line at
/// column 1, anything else moves one column right.
pub open spec fn pos_after(p: PosV, c: char) -> PosV {
    if c == '\n' {
        PosV { line: p.line + 1, column: 1 }
    } else {
        PosV { line: p.line, column: p.column + 1 }
    }
}

/// The position after consuming `src[i..j]` starting from `p`.
pub open spec fn pos_after_range(p: PosV, src: Seq<char>, i: int, j: int) -> PosV
    decreases j - i,
{
    if i >= j {
        p
    } else {
        pos_after_range(pos_after(p, src[i]), src, i + 1, j)
    }
}

/// Consuming one more character on the right extends the range by one step.
pub proof fn lemma_pos_after_range_snoc(p: PosV, src: Seq<char>, i: int, j: int)
    requires
        i <= j,
    ensures
        pos_after_range(p, src, i, j + 1) == pos_after(pos_after_range(p, src, i, j), src[j]),
    decreases j - i,
{
    reveal_with_fuel(pos_after_range, 3);
    if i < j {
        lemma_pos_after_range_snoc(pos_after(p, src[i]), src, i + 1, j);
    }
}

/// Whether a character is an ASCII decimal digit.
pub open spec fn is_digit(c: char) -> bool {
    48 <= (c as u32) <= 57
}

/// Whether a character is an ASCII decimal digit.
pub fn digit(c: char) -> (r: bool)
    ensures
        r == is_digit(c),
{
    (c as u32) >= 48 && (c as u32) <= 57
}

/// Whether a character is alphabetic in the sense of `char::is_alphabetic`.
pub uninterp spec fn is_alpha(c: char) -> bool;

/// Relies on `char::is_alphabetic`: a pure classification of the character.
#[verifier::external_body]
fn alpha(c: char) -> (r: bool)
    ensures
        r == is_alpha(c),
{
    c.is_alphabetic()
}

/// Whether a character is alphanumeric in the sense of
/// `char::is_alphanumeric`.
pub uninterp spec fn is_alnum(c: char) -> bool;

/// Relies on `char::is_alphanumeric`: a pure classification of the
/// character.
#[verifier::external_body]
fn alnum(c: char) -> (r: bool)
    ensures
        r == is_alnum(c),
{
    c.is_alphanumeric()
}

/// Whether a character is whitespace in the sense of
/// `char::is_whitespace`.
pub uninterp spec fn is_wspace(c: char) -> bool;

/// Relies on `char::is_whitespace`: a pure classification of the character.
#[verifier::external_body]
fn wspace(c: char) -> (r: bool)
    ensures
        r == is_wspace(c),
{
    c.is_whitespace()
}

/// The first index at or after `i` holding a non-digit, or the end of the
/// input.
pub open spec fn digits_end(src: Seq<char>, i: int) -> int
    decreases src.len() - i,
{
    if i < src.len() && is_digit(src[i]) {
        digits_end(src, i + 1)
    } else {
        i
    }
}

/// The first index at or after `i` holding a non-alphanumeric character,
/// or the end of the input.
pub open spec fn alnum_end(src: Seq<char>, i: int) -> int
    decreases src.len() - i,
{
    if i < src.len() && is_alnum(src[i]) {
        alnum_end(src, i + 1)
    } else {
        i
    }
}

/// The first index at or after `i` holding a newline, or the end of the
/// input.
pub open spec fn comment_end(src: Seq<char>, i: int) -> int
    decreases src.len() - i,
{
    if i < src.len() && src[i] != '\n' {
        comment_end(src, i + 1)
    } else {
        i
    }
}

/// The first index at or after `i` holding a double quote, or the end of
/// the input.
pub open spec fn string_end(src: Seq<char>, i: int) -> int
    decreases src.len() - i,
{
    if i < src.len() && src[i] != '"' {
        string_end(src, i + 1)
    } else {
        i
    }
}

pub proof fn lemma_digits_end_bounds(src: Seq<char>, i: int)
    ensures
        i <= digits_end(src, i),
        i <= src.len() ==> digits_end(src, i) <= src.len(),
    decreases src.len() - i,
{
    if i < src.len() && is_digit(src[i]) {
        lemma_digits_end_bounds(src, i + 1);
    }
}

pub proof fn lemma_alnum_end_bounds(src: Seq<char>, i: int)
    ensures
        i <= alnum_end(src, i),
        i <= src.len() ==> alnum_end(src, i) <= src.len(),
    decreases src.len() - i,
{
    if i < src.len() && is_alnum(src[i]) {
        lemma_alnum_end_bounds(src, i + 1);
    }
}

pub proof fn lemma_comment_end_bounds(src: Seq<char>, i: int)
    ensures
        i <= comment_end(src, i),
        i <= src.len() ==> comment_end(src, i) <= src.len(),
    decreases src.len() - i,
{
    if i < src.len() && src[i] != '\n' {
        lemma_comment_end_bounds(src, i + 1);
    }
}

pub proof fn lemma_string_end_bounds(src: Seq<char>, i: int)
    ensures
        i <= string_end(src, i),
        i <= src.len() ==> string_end(src, i) <= src.len(),
    decreases src.len() - i,
{
    if i < src.len() && src[i] != '"' {
        lemma_string_end_bounds(src, i + 1);
    }
}

/// The token an identifier lexeme stands for: its keyword, or an
/// identifier carrying the lexeme.
pub open spec fn spec_keyword(s: Seq<char>) -> TokenV {
    if s == "false"@ {
        TokenV::Bool(false)
    } else if s == "true"@ {
        TokenV::Bool(true)
    } else if s == "and"@ {
        TokenV::And
    } else if s == "class"@ {
        TokenV::Class
    } else if s == "else"@ {
        TokenV::Else
    } else if s == "for"@ {
        TokenV::For
    } else if s == "fun"@ {
        TokenV::Fun
    } else if s == "if"@ {
        TokenV::If
    } else if s == "nil"@ {
        TokenV::Nil
    } else if s == "or"@ {
        TokenV::Or
    } else if s == "print"@ {
        TokenV::Print
    } else if s == "return"@ {
        TokenV::Return
    } else if s == "super"@ {
        TokenV::Super
    } else if s == "this"@ {
        TokenV::This
    } else if s == "var"@ {
        TokenV::Var
    } else if s == "while"@ {
        TokenV::While
    } else {
        TokenV::Identifier(s)
    }
}

/// The outcome of one call of [`Scanner::next`] from cursor `i` at
/// position `p`, with `tp` the candidate start position of the token.
pub enum LexStep {
    /// End of input: the cursor rests at the end, at position `q`.
    Done { q: PosV },
    /// A token `t` whose lexeme starts at `tpos`; the cursor moves to `j`,
    /// position `q`.
    Tok { t: TokenV, tpos: PosV, j: int, q: PosV },
    /// A lexical error; the cursor moves to `j`, position `q`.
    Fail { e: LexerError, j: int, q: PosV },
}

/// One scanning step: skip whitespace, comments and unexpected characters,
/// then produce the token starting at the cursor, an error, or the end of
/// the input.
pub open spec fn spec_next(src: Seq<char>, i: int, p: PosV, tp: PosV) -> LexStep
    decreases src.len() - i,
    via spec_next_decreases
{
    let len = src.len() as int;
    if i >= len {
        LexStep::Done { q: p }
    } else if src[i] == '!' && i + 1 < len && src[i + 1] == '=' {
        LexStep::Tok {
            t: TokenV::BangEqual,
            tpos: tp,
            j: i + 2,
            q: pos_after(pos_after(p, src[i]), src[i + 1]),
        }
    } else if src[i] == '=' && i + 1 < len && src[i + 1] == '=' {
        LexStep::Tok {
            t: TokenV::EqualEqual,
            tpos: tp,
            j: i + 2,
            q: pos_after(pos_after(p, src[i]), src[i + 1]),
        }
    } else if src[i] == '<' && i + 1 < len && src[i + 1] == '=' {
        LexStep::Tok {
            t: TokenV::LessEqual,
            tpos: tp,
            j: i + 2,
            q: pos_after(pos_after(p, src[i]), src[i + 1]),
        }
    } else if src[i] == '>' && i + 1 < len && src[i + 1] == '=' {
        LexStep::Tok {
            t: TokenV::GreaterEqual,
            tpos: tp,
            j: i + 2,
            q: pos_after(pos_after(p, src[i]), src[i + 1]),
        }
    } else if src[i] == '/' && i + 1 < len && src[i + 1] == '/' {
        let j = comment_end(src, i + 2);
        spec_next(src, j, pos_after_range(p, src, i, j), tp)
    } else {
        let c = src[i];
        let p1 = pos_after(p, c);
        if c == '(' {
            LexStep::Tok { t: TokenV::LeftParen, tpos: tp, j: i + 1, q: p1 }
        } else if c == ')' {
            LexStep::Tok { t: TokenV::RightParen, tpos: tp, j: i + 1, q: p1 }
        } else if c == '{' {
            LexStep::Tok { t: TokenV::LeftBrace, tpos: tp, j: i + 1, q: p1 }
        } else if c == '}' {
            LexStep::Tok { t: TokenV::RightBrace, tpos: tp, j: i + 1, q: p1 }
        } else if c == ',' {
            LexStep::Tok { t: TokenV::Comma, tpos: tp, j: i + 1, q: p1 }
        } else if c == '.' {
            LexStep::Tok { t: TokenV::Dot, tpos: tp, j: i + 1, q: p1 }
        } else if c == '-' {
            LexStep::Tok { t: TokenV::Minus, tpos: tp, j: i + 1, q: p1 }
        } else if c == '+' {
            LexStep::Tok { t: TokenV::Plus, tpos: tp, j: i + 1, q: p1 }
        } else if c == ';' {
            LexStep::Tok { t: TokenV::Semicolon, tpos: tp, j: i + 1, q: p1 }
        } else if c == '*' {
            LexStep::Tok { t: TokenV::Star, tpos: tp, j: i + 1, q: p1 }
        } else if c == '!' {
            LexStep::Tok { t: TokenV::Bang, tpos: tp, j: i + 1, q: p1 }
        } else if c == '=' {
            LexStep::Tok { t: TokenV::Equal, tpos: tp, j: i + 1, q: p1 }
        } else if c == '<' {
            LexStep::Tok { t: TokenV::Less, tpos: tp, j: i + 1, q: p1 }
        } else if c == '>' {
            LexStep::Tok { t: TokenV::Greater, tpos: tp, j: i + 1, q: p1 }
        } else if c == '/' {
            LexStep::Tok { t: TokenV::Slash, tpos: tp, j: i + 1, q: p1 }
        } else if c == '"' {
            let j = string_end(src, i + 1);
            if j >= len {
                LexStep::Fail {
                    e: LexerError::UnterminatedString,
                    j: len,
                    q: pos_after_range(p, src, i, len),
                }
            } else {
                LexStep::Tok {
                    t: TokenV::String(src.subrange(i + 1, j)),
                    tpos: tp,
                    j: j + 1,
                    q: pos_after_range(p, src, i, j + 1),
                }
            }
        } else if is_digit(c) {
            let j0 = digits_end(src, i + 1);
            let j = if j0 < len && src[j0] == '.' && j0 + 1 < len && is_digit(src[j0 + 1]) {
                digits_end(src, j0 + 1)
            } else {
                j0
            };
            match number_of_lexeme(src.subrange(i, j)) {
                Some(bits) => LexStep::Tok {
                    t: TokenV::Number(bits),
                    tpos: tp,
                    j,
                    q: pos_after_range(p, src, i, j),
                },
                None => LexStep::Fail {
                    e: LexerError::InvalidNumber,
                    j,
                    q: pos_after_range(p, src, i, j),
                },
            }
        } else if is_alpha(c) {
            let j = alnum_end(src, i + 1);
            LexStep::Tok {
                t: spec_keyword(src.subrange(i, j)),
                tpos: tp,
                j,
                q: pos_after_range(p, src, i, j),
            }
        } else if is_wspace(c) {
            spec_next(src, i + 1, p1, p1)
        } else {
            // An unexpected character: reported, skipped, and locally
            // recovered. Skipped text attributes no position: the next
            // token's position is that of the first character of its own
            // lexeme.
            spec_next(src, i + 1, p1, p1)
        }
    }
}

#[via_fn]
proof fn spec_next_decreases(src: Seq<char>, i: int, p: PosV, tp: PosV) {
    let len = src.len() as int;
    if i < len && src[i] == '/' && i + 1 < len && src[i + 1] == '/' {
        lemma_comment_end_bounds(src, i + 2);
    }
}

/// Whether the text that one scanning step skips before its token (or
/// before the end of the input) holds an unexpected character: one that
/// is no punctuation or operator, no quote, no digit, not alphabetic and
/// not whitespace. Such a character is reported and skipped; it is the
/// only locally recovered class of lexical error.
pub open spec fn spec_unexpected_skipped(src: Seq<char>, i: int) -> bool
    decreases src.len() - i,
    via spec_unexpected_skipped_decreases
{
    let len = src.len() as int;
    if i >= len {
        false
    } else if src[i] == '!' && i + 1 < len && src[i + 1] == '=' {
        false
    } else if src[i] == '=' && i + 1 < len && src[i + 1] == '=' {
        false
    } else if src[i] == '<' && i + 1 < len && src[i + 1] == '=' {
        false
    } else if src[i] == '>' && i + 1 < len && src[i + 1] == '=' {
        false
    } else if src[i] == '/' && i + 1 < len && src[i + 1] == '/' {
        spec_unexpected_skipped(src, comment_end(src, i + 2))
    } else {
        let c = src[i];
        if c == '(' || c == ')' || c == '{' || c == '}' || c == ',' || c == '.' || c == '-'
            || c == '+' || c == ';' || c == '*' || c == '!' || c == '=' || c == '<' || c == '>'
            || c == '/' || c == '"' || is_digit(c) || is_alpha(c) {
            false
        } else if is_wspace(c) {
            spec_unexpected_skipped(src, i + 1)
        } else {
            true
        }
    }
}

#[via_fn]
proof fn spec_unexpected_skipped_decreases(src: Seq<char>, i: int) {
    let len = src.len() as int;
    if i < len && src[i] == '/' && i + 1 < len && src[i + 1] == '/' {
        lemma_comment_end_bounds(src, i + 2);
    }
}

/// A scanning step always moves the cursor strictly forward, and never
/// past the end of the input.
pub proof fn lemma_next_progress(src: Seq<char>, i: int, p: PosV, tp: PosV)
    requires
        i <= src.len(),
    ensures
        spec_next(src, i, p, tp) matches LexStep::Tok { j, .. } ==> i < j <= src.len(),
        spec_next(src, i, p, tp) matches LexStep::Fail { j, .. } ==> i < j <= src.len(),
    decreases src.len() - i,
{
    let len = src.len() as int;
    if i >= len {
    } else if src[i] == '!' && i + 1 < len && src[i + 1] == '=' {
    } else if src[i] == '=' && i + 1 < len && src[i + 1] == '=' {
    } else if src[i] == '<' && i + 1 < len && src[i + 1] == '=' {
    } else if src[i] == '>' && i + 1 < len && src[i + 1] == '=' {
    } else if src[i] == '/' && i + 1 < len && src[i + 1] == '/' {
        let j = comment_end(src, i + 2);
        lemma_comment_end_bounds(src, i + 2);
        lemma_next_progress(src, j, pos_after_range(p, src, i, j), tp);
    } else {
        let c = src[i];
        if c == '"' {
            lemma_string_end_bounds(src, i + 1);
        } else if c == '(' || c == ')' || c == '{' || c == '}' || c == ',' || c == '.' || c == '-'
            || c == '+' || c == ';' || c == '*' || c == '!' || c == '=' || c == '<' || c == '>'
            || c == '/' {
        } else if is_digit(c) {
            let j0 = digits_end(src, i + 1);
            lemma_digits_end_bounds(src, i + 1);
            if j0 < len && src[j0] == '.' && j0 + 1 < len && is_digit(src[j0 + 1]) {
                lemma_digits_end_bounds(src, j0 + 1);
            }
        } else if is_alpha(c) {
            lemma_alnum_end_bounds(src, i + 1);
        } else if is_wspace(c) {
            lemma_next_progress(src, i + 1, pos_after(p, c), pos_after(p, c));
        } else {
            lemma_next_progress(src, i + 1, pos_after(p, c), pos_after(p, c));
        }
    }
}

/// The token sequence of a whole scan from cursor `i` at position `p`:
/// all tokens until the end of the input, or the first aborting error.
pub open spec fn spec_scan(src: Seq<char>, i: int, p: PosV) -> Result<Seq<TokenV>, LexerError>
    decreases src.len() - i,
    via spec_scan_decreases
{
    if i > src.len() {
        Ok(Seq::empty())
    } else {
        match spec_next(src, i, p, p) {
            LexStep::Done { .. } => Ok(Seq::empty()),
            LexStep::Fail { e, .. } => Err(e),
            LexStep::Tok { t, j, q, .. } => match spec_scan(src, j, q) {
                Ok(rest) => Ok(seq![t] + rest),
                Err(e) => Err(e),
            },
        }
    }
}

#[via_fn]
proof fn spec_scan_decreases(src: Seq<char>, i: int, p: PosV) {
    if i <= src.len() {
        lemma_next_progress(src, i, p, p);
    }
}

/// Whether a token is one of the punctuation or operator categories,
/// whose lexeme is fixed text.
pub open spec fn is_operator_token(t: TokenV) -> bool {
    ||| t matches TokenV::LeftParen
    ||| t matches TokenV::RightParen
    ||| t matches TokenV::LeftBrace
    ||| t matches TokenV::RightBrace
    ||| t matches TokenV::Comma
    ||| t matches TokenV::Dot
    ||| t matches TokenV::Minus
    ||| t matches TokenV::Plus
    ||| t matches TokenV::Semicolon
    ||| t matches TokenV::Slash
    ||| t matches TokenV::Star
    ||| t matches TokenV::Bang
    ||| t matches TokenV::BangEqual
    ||| t matches TokenV::Equal
    ||| t matches TokenV::EqualEqual
    ||| t matches TokenV::Greater
    ||| t matches TokenV::GreaterEqual
    ||| t matches TokenV::Less
    ||| t matches TokenV::LessEqual
}

/// The kernel of lexeme round-tripping that the character classes leave
/// decidable: the text of a punctuation or operator token, scanned alone,
/// reproduces exactly that token, from any starting position. (For
/// identifiers, keywords and strings the corresponding fact rests on
/// `char::is_alphabetic` and its kin, which the library knows only as
/// opaque classifications.)
pub proof fn lemma_operator_text_round_trip(t: TokenV, p: PosV)
    requires
        is_operator_token(t),
    ensures
        spec_scan(crate::printer::token_text(t), 0, p) == Ok::<Seq<TokenV>, LexerError>(seq![t]),
{
    reveal_strlit("(");
    reveal_strlit(")");
    reveal_strlit("{");
    reveal_strlit("}");
    reveal_strlit(",");
    reveal_strlit(".");
    reveal_strlit("-");
    reveal_strlit("+");
    reveal_strlit(";");
    reveal_strlit("/");
    reveal_strlit("*");
    reveal_strlit("!");
    reveal_strlit("!=");
    reveal_strlit("=");
    reveal_strlit("==");
    reveal_strlit(">");
    reveal_strlit(">=");
    reveal_strlit("<");
    reveal_strlit("<=");
    reveal_with_fuel(spec_scan, 3);
    reveal_with_fuel(spec_next, 2);
    let src = crate::printer::token_text(t);
    assert(seq![t] + Seq::<TokenV>::empty() =~= seq![t]);
    assert(spec_scan(src, 0, p) == Ok::<Seq<TokenV>, LexerError>(seq![t]));
}

/// Characters the scanner treats by their class alone: not punctuation,
/// not a quote, not a digit.
pub open spec fn is_unreserved(c: char) -> bool {
    &&& c != '(' && c != ')' && c != '{' && c != '}' && c != ',' && c != '.'
    &&& c != '-' && c != '+' && c != ';' && c != '*' && c != '!' && c != '='
    &&& c != '<' && c != '>' && c != '/' && c != '"'
    &&& !is_digit(c)
}

/// An alphanumeric stretch followed by a non-alphanumeric character (or
/// the end) ends the identifier scan right there.
proof fn lemma_alnum_end_until(src: Seq<char>, i: int, j: int)
    requires
        0 <= i <= j <= src.len(),
        forall|k: int| i <= k < j ==> is_alnum(#[trigger] src[k]),
        j == src.len() || !is_alnum(src[j]),
    ensures
        alnum_end(src, i) == j,
    decreases j - i,
{
    if i < j {
        lemma_alnum_end_until(src, i + 1, j);
    }
}

/// Lexeme round-tripping for words: an alphabetic-then-alphanumeric
/// lexeme, scanned alone, reproduces exactly the keyword or identifier
/// token it stands for, from any starting position. (That every letter is
/// unreserved is a fact about the character classes, which the library
/// knows only opaquely; it is stated here as a hypothesis.)
pub proof fn lemma_word_text_round_trip(word: Seq<char>, p: PosV)
    requires
        word.len() > 0,
        is_alpha(word[0]),
        is_unreserved(word[0]),
        forall|k: int| 1 <= k < word.len() ==> is_alnum(#[trigger] word[k]),
    ensures
        spec_scan(word, 0, p) == Ok::<Seq<TokenV>, LexerError>(seq![spec_keyword(word)]),
{
    let len = word.len() as int;
    lemma_alnum_end_until(word, 1, len);
    assert(word.subrange(0, len) =~= word);
    reveal_with_fuel(spec_scan, 3);
    reveal_with_fuel(spec_next, 2);
    assert(seq![spec_keyword(word)] + Seq::<TokenV>::empty() =~= seq![spec_keyword(word)]);
}

/// A quote right after a quote-free stretch is where the string body ends.
proof fn lemma_string_end_at(src: Seq<char>, i: int, j: int)
    requires
        0 <= i <= j < src.len(),
        forall|k: int| i <= k < j ==> src[k] != '"',
        src[j] == '"',
    ensures
        string_end(src, i) == j,
    decreases j - i,
{
    if i < j {
        lemma_string_end_at(src, i + 1, j);
    }
}

/// A stretch of digits reaching the end of the input ends the digit scan
/// at the end.
proof fn lemma_digits_end_all(src: Seq<char>, i: int)
    requires
        0 <= i <= src.len(),
        forall|k: int| i <= k < src.len() ==> is_digit(#[trigger] src[k]),
    ensures
        digits_end(src, i) == src.len(),
    decreases src.len() - i,
{
    if i < src.len() {
        lemma_digits_end_all(src, i + 1);
    }
}

/// Lexeme round-tripping for string literals: the lexeme of a string
/// token (its content between two quotes), scanned alone, reproduces
/// exactly that token, from any starting position.
pub proof fn lemma_string_text_round_trip(content: Seq<char>, p: PosV)
    requires
        forall|k: int| 0 <= k < content.len() ==> content[k] != '"',
    ensures
        spec_scan(seq!['"'] + content + seq!['"'], 0, p) == Ok::<Seq<TokenV>, LexerError>(
            seq![TokenV::String(content)],
        ),
{
    let src = seq!['"'] + content + seq!['"'];
    let len = src.len() as int;
    assert(src[0] == '"');
    assert(src[len - 1] == '"');
    assert(forall|k: int| 1 <= k < len - 1 ==> src[k] == content[k - 1] && src[k] != '"');
    lemma_string_end_at(src, 1, len - 1);
    assert(src.subrange(1, len - 1) =~= content);
    reveal_with_fuel(spec_scan, 3);
    reveal_with_fuel(spec_next, 2);
    assert(seq![TokenV::String(content)] + Seq::<TokenV>::empty() =~= seq![
        TokenV::String(content),
    ]);
}

/// Lexeme round-tripping for whole numeric lexemes: a nonempty run of
/// digits that reads as some number, scanned alone, reproduces exactly
/// the number token holding it, from any starting position.
pub proof fn lemma_number_text_round_trip(digits: Seq<char>, bits: u64, p: PosV)
    requires
        digits.len() > 0,
        forall|k: int| 0 <= k < digits.len() ==> is_digit(#[trigger] digits[k]),
        number_of_lexeme(digits) == Some(bits),
    ensures
        spec_scan(digits, 0, p) == Ok::<Seq<TokenV>, LexerError>(seq![TokenV::Number(bits)]),
{
    let len = digits.len() as int;
    lemma_digits_end_all(digits, 1);
    assert(digits.subrange(0, len) =~= digits);
    reveal_with_fuel(spec_scan, 3);
    reveal_with_fuel(spec_next, 2);
    assert(seq![TokenV::Number(bits)] + Seq::<TokenV>::empty() =~= seq![TokenV::Number(bits)]);
}

/// A stretch of digits followed by a non-digit (or the end) ends the
/// digit scan right there.
proof fn lemma_digits_end_until(src: Seq<char>, i: int, j: int)
    requires
        0 <= i <= j <= src.len(),
        forall|k: int| i <= k < j ==> is_digit(#[trigger] src[k]),
        j == src.len() || !is_digit(src[j]),
    ensures
        digits_end(src, i) == j,
    decreases j - i,
{
    if i < j {
        lemma_digits_end_until(src, i + 1, j);
    }
}

/// Lexeme round-tripping for fractional numeric lexemes: digits, a dot,
/// and more digits, reading as some number, scanned alone, reproduce
/// exactly the number token holding it.
pub proof fn lemma_fraction_text_round_trip(
    whole: Seq<char>,
    frac: Seq<char>,
    bits: u64,
    p: PosV,
)
    requires
        whole.len() > 0,
        frac.len() > 0,
        forall|k: int| 0 <= k < whole.len() ==> is_digit(#[trigger] whole[k]),
        forall|k: int| 0 <= k < frac.len() ==> is_digit(#[trigger] frac[k]),
        number_of_lexeme(whole + seq!['.'] + frac) == Some(bits),
    ensures
        spec_scan(whole + seq!['.'] + frac, 0, p) == Ok::<Seq<TokenV>, LexerError>(
            seq![TokenV::Number(bits)],
        ),
{
    let src = whole + seq!['.'] + frac;
    let len = src.len() as int;
    let w = whole.len() as int;
    assert(forall|k: int| 0 <= k < w ==> src[k] == whole[k]);
    assert(src[w] == '.');
    assert(forall|k: int| w + 1 <= k < len ==> src[k] == frac[k - w - 1]);
    lemma_digits_end_until(src, 1, w);
    lemma_digits_end_until(src, w + 1, len);
    assert(src.subrange(0, len) =~= src);
    reveal_with_fuel(spec_scan, 3);
    reveal_with_fuel(spec_next, 2);
    assert(seq![TokenV::Number(bits)] + Seq::<TokenV>::empty() =~= seq![TokenV::Number(bits)]);
}

/// One lexeme, as text together with the token it stands for.
pub enum Lexeme {
    /// A punctuation or operator token: fixed text.
    Op(TokenV),
    /// An identifier or keyword: letters then alphanumerics.
    Word(Seq<char>),
    /// A numeric lexeme: digits, optionally a dot and more digits.
    Num(Seq<char>),
    /// A string literal: its content, to stand between two quotes.
    Str(Seq<char>),
}

/// The lexeme's text: exactly what the scanner consumed to produce its
/// token.
pub open spec fn lexeme_text(l: Lexeme) -> Seq<char> {
    match l {
        Lexeme::Op(t) => crate::printer::token_text(t),
        Lexeme::Word(w) => w,
        Lexeme::Num(d) => d,
        Lexeme::Str(c) => seq!['"'] + c + seq!['"'],
    }
}

/// The token the lexeme stands for.
pub open spec fn lexeme_token(l: Lexeme) -> TokenV {
    match l {
        Lexeme::Op(t) => t,
        Lexeme::Word(w) => spec_keyword(w),
        Lexeme::Num(d) => TokenV::Number(number_of_lexeme(d)->Some_0),
        Lexeme::Str(c) => TokenV::String(c),
    }
}

/// A nonempty all-digit stretch.
pub open spec fn digit_run(s: Seq<char>) -> bool {
    s.len() > 0 && forall|k: int| 0 <= k < s.len() ==> is_digit(#[trigger] s[k])
}

/// Whether a lexeme is well formed: the shape the scanner itself produces.
pub open spec fn wf_lexeme(l: Lexeme) -> bool {
    match l {
        Lexeme::Op(t) => is_operator_token(t),
        Lexeme::Word(w) => w.len() > 0 && is_alpha(w[0]) && is_unreserved(w[0]) && (forall|k: int|
            1 <= k < w.len() ==> is_alnum(#[trigger] w[k])),
        Lexeme::Num(d) => (digit_run(d) || exists|w: Seq<char>, f: Seq<char>|
            digit_run(w) && digit_run(f) && d == w + seq!['.'] + f) && number_of_lexeme(d) is Some,
        Lexeme::Str(c) => forall|k: int| 0 <= k < c.len() ==> c[k] != '"',
    }
}

/// The facts about the space character that the whole-stream round trip
/// rests on: a space is whitespace, and neither alphabetic nor
/// alphanumeric. They are true of `char`'s classifications, which the
/// library knows only opaquely, so the law carries them as hypotheses.
pub open spec fn space_is_plain() -> bool {
    &&& is_wspace(' ')
    &&& !is_alpha(' ')
    &&& !is_alnum(' ')
}

/// A well-formed lexeme standing at the cursor, followed by a space, is
/// scanned as exactly its token, consuming exactly its text.
proof fn lemma_front_token(src: Seq<char>, i: int, l: Lexeme, p: PosV, tp: PosV)
    requires
        wf_lexeme(l),
        space_is_plain(),
        0 <= i,
        i + lexeme_text(l).len() < src.len(),
        forall|k: int| 0 <= k < lexeme_text(l).len() ==> src[i + k] == lexeme_text(l)[k],
        src[i + lexeme_text(l).len()] == ' ',
    ensures
        spec_next(src, i, p, tp) == (LexStep::Tok {
            t: lexeme_token(l),
            tpos: tp,
            j: i + lexeme_text(l).len(),
            q: pos_after_range(p, src, i, i + lexeme_text(l).len()),
        }),
{
    let lex = lexeme_text(l);
    let n = lex.len() as int;
    reveal_with_fuel(pos_after_range, 4);
    match l {
        Lexeme::Op(t) => {
            reveal_strlit("(");
            reveal_strlit(")");
            reveal_strlit("{");
            reveal_strlit("}");
            reveal_strlit(",");
            reveal_strlit(".");
            reveal_strlit("-");
            reveal_strlit("+");
            reveal_strlit(";");
            reveal_strlit("/");
            reveal_strlit("*");
            reveal_strlit("!");
            reveal_strlit("!=");
            reveal_strlit("=");
            reveal_strlit("==");
            reveal_strlit(">");
            reveal_strlit(">=");
            reveal_strlit("<");
            reveal_strlit("<=");
            assert(src[i + 0] == lex[0]);
            if n >= 2 {
                assert(src[i + 1] == lex[1]);
            }
            // Case-split on the operator, so that its fixed text becomes
            // concrete in each branch.
            match t {
                TokenV::LeftParen => {},
                TokenV::RightParen => {},
                TokenV::LeftBrace => {},
                TokenV::RightBrace => {},
                TokenV::Comma => {},
                TokenV::Dot => {},
                TokenV::Minus => {},
                TokenV::Plus => {},
                TokenV::Semicolon => {},
                TokenV::Slash => {},
                TokenV::Star => {},
                TokenV::Bang => {},
                TokenV::Equal => {},
                TokenV::Greater => {},
                TokenV::Less => {},
                TokenV::BangEqual => {},
                TokenV::EqualEqual => {},
                TokenV::GreaterEqual => {},
                TokenV::LessEqual => {},
                _ => {},
            }
        },
        Lexeme::Word(w) => {
            assert(src[i + 0] == w[0]);
            assert forall|m: int| i + 1 <= m < i + n implies is_alnum(#[trigger] src[m]) by {
                assert(src[i + (m - i)] == w[m - i]);
            }
            lemma_alnum_end_until(src, i + 1, i + n);
            assert(src.subrange(i, i + n) =~= w);
        },
        Lexeme::Num(d) => {
            assert(src[i + 0] == d[0]);
            if digit_run(d) {
                assert forall|m: int| i + 1 <= m < i + n implies is_digit(#[trigger] src[m]) by {
                    assert(src[i + (m - i)] == d[m - i]);
                }
                lemma_digits_end_until(src, i + 1, i + n);
            } else {
                let (w, f) = choose|w: Seq<char>, f: Seq<char>|
                    digit_run(w) && digit_run(f) && d == w + seq!['.'] + f;
                let wn = w.len() as int;
                assert forall|m: int| i <= m < i + wn implies #[trigger] src[m] == w[m - i]
                    && is_digit(src[m]) by {
                    assert(src[i + (m - i)] == d[m - i]);
                    assert(d[m - i] == w[m - i]);
                }
                assert(src[i + wn] == '.') by {
                    assert(src[i + wn] == d[wn]);
                }
                assert forall|m: int| i + wn + 1 <= m < i + n implies is_digit(
                    #[trigger] src[m],
                ) by {
                    assert(src[i + (m - i)] == d[m - i]);
                    assert(d[m - i] == f[m - i - wn - 1]);
                }
                lemma_digits_end_until(src, i + 1, i + wn);
                lemma_digits_end_until(src, i + wn + 1, i + n);
            }
            assert(src.subrange(i, i + n) =~= d);
        },
        Lexeme::Str(c) => {
            let cn = c.len() as int;
            assert(src[i + 0] == lex[0]);
            assert forall|m: int| i + 1 <= m < i + 1 + cn implies #[trigger] src[m] == c[m - i - 1]
                && src[m] != '"' by {
                assert(src[i + (m - i)] == lex[m - i]);
                assert(lex[m - i] == c[m - i - 1]);
            }
            assert(src[i + (1 + cn)] == lex[1 + cn]);
            lemma_string_end_at(src, i + 1, i + 1 + cn);
            assert(src.subrange(i + 1, i + 1 + cn) =~= c);
        },
    }
}

/// The text of a lexeme sequence: each lexeme followed by one space.
pub open spec fn join_spaced(ls: Seq<Lexeme>) -> Seq<char>
    decreases ls.len(),
{
    if ls.len() == 0 {
        Seq::empty()
    } else {
        lexeme_text(ls[0]) + seq![' '] + join_spaced(ls.drop_first())
    }
}

/// The tokens a lexeme sequence stands for.
pub open spec fn tokens_of(ls: Seq<Lexeme>) -> Seq<TokenV> {
    ls.map(|k: int, l: Lexeme| lexeme_token(l))
}

/// Scanning a suffix that holds the spaced text of a lexeme sequence
/// yields exactly its tokens.
proof fn lemma_scan_lexemes(src: Seq<char>, i: int, ls: Seq<Lexeme>, p: PosV)
    requires
        space_is_plain(),
        forall|k: int| 0 <= k < ls.len() ==> wf_lexeme(#[trigger] ls[k]),
        0 <= i,
        src.len() == i + join_spaced(ls).len(),
        forall|k: int| 0 <= k < join_spaced(ls).len() ==> src[i + k] == join_spaced(ls)[k],
    ensures
        spec_scan(src, i, p) == Ok::<Seq<TokenV>, LexerError>(tokens_of(ls)),
    decreases ls.len(),
{
    if ls.len() == 0 {
        assert(tokens_of(ls) =~= Seq::<TokenV>::empty());
    } else {
        let l = ls[0];
        let rest = ls.drop_first();
        let lex = lexeme_text(l);
        let n = lex.len() as int;
        let whole = join_spaced(ls);
        assert(whole == lex + seq![' '] + join_spaced(rest));
        assert forall|k: int| 0 <= k < n implies #[trigger] src[i + k] == lex[k] by {
            assert(src[i + k] == whole[k]);
            assert(whole[k] == (lex + seq![' '])[k]);
        }
        assert(src[i + n] == ' ') by {
            assert(src[i + n] == whole[n]);
            assert(whole[n] == (lex + seq![' '])[n]);
        }
        lemma_front_token(src, i, l, p, p);
        let j = i + n;
        let q = pos_after_range(p, src, i, j);
        let q1 = pos_after(q, ' ');
        // The space after the token is skipped as whitespace.
        assert(spec_next(src, j, q, q) == spec_next(src, j + 1, q1, q1));
        assert(spec_scan(src, j, q) == spec_scan(src, j + 1, q1));
        assert forall|k: int| 0 <= k < join_spaced(rest).len() implies #[trigger] src[j + 1 + k]
            == join_spaced(rest)[k] by {
            assert(src[i + (n + 1 + k)] == whole[n + 1 + k]);
            assert(whole[n + 1 + k] == join_spaced(rest)[k]);
        }
        lemma_scan_lexemes(src, j + 1, rest, q1);
        assert(seq![lexeme_token(l)] + tokens_of(rest) =~= tokens_of(ls));
    }
}

/// Lexeme round-tripping, whole streams: scanning the concatenation of
/// any well-formed lexemes, one space between them, reproduces exactly
/// the token sequence they stand for. The three facts in
/// [`space_is_plain`] record what the law assumes of the space character.
pub proof fn lemma_lexemes_round_trip(ls: Seq<Lexeme>, p: PosV)
    requires
        space_is_plain(),
        forall|k: int| 0 <= k < ls.len() ==> wf_lexeme(#[trigger] ls[k]),
    ensures
        spec_scan(join_spaced(ls), 0, p) == Ok::<Seq<TokenV>, LexerError>(tokens_of(ls)),
{
    lemma_scan_lexemes(join_spaced(ls), 0, ls, p);
}

/// Consuming a middle point splits the position bookkeeping of a range.
pub proof fn lemma_pos_after_range_concat(p: PosV, src: Seq<char>, i: int, k: int, j: int)
    requires
        i <= k <= j,
    ensures
        pos_after_range(p, src, i, j) == pos_after_range(pos_after_range(p, src, i, k), src, k, j),
    decreases k - i,
{
    if i < k {
        lemma_pos_after_range_concat(pos_after(p, src[i]), src, i + 1, k, j);
    }
}

/// Relies on `core::iter::Iterator::collect` for `String`: the string
/// holding exactly the given characters, in order.
#[verifier::external_body]
fn chars_to_string(v: &Vec<char>) -> (r: String)
    ensures
        r@ == v@,
{
    v.iter().collect()
}

/// A fresh vector holding `v[a..b]`.
fn copy_range(v: &Vec<char>, a: usize, b: usize) -> (r: Vec<char>)
    requires
        a <= b,
        b <= v@.len(),
    ensures
        r@ == v@.subrange(a as int, b as int),
{
    let mut r: Vec<char> = Vec::new();
    let mut k: usize = a;
    while k < b
        invariant
            a <= k <= b,
            b <= v@.len(),
            r@ == v@.subrange(a as int, k as int),
        decreases b - k,
    {
        let c = v[k];
        r.push(c);
        k = k + 1;
        proof {
            assert(v@.subrange(a as int, k as int) =~= v@.subrange(a as int, k - 1).push(
                v@[k - 1],
            ));
        }
    }
    r
}

/// Whether a string equals the given literal text.
fn str_is(s: &String, lit: &str) -> (r: bool)
    ensures
        r == (s@ == lit@),
{
    let other = String::from_str(lit);
    s.eq(&other)
}

/// The keyword token an identifier lexeme stands for, or an identifier
/// token carrying the lexeme.
fn keyword_or_identifier(lexeme: String) -> (t: Token)
    ensures
        token_view(t) == spec_keyword(lexeme@),
{
    if str_is(&lexeme, "false") {
        Token::Bool(false)
    } else if str_is(&lexeme, "true") {
        Token::Bool(true)
    } else if str_is(&lexeme, "and") {
        Token::And
    } else if str_is(&lexeme, "class") {
        Token::Class
    } else if str_is(&lexeme, "else") {
        Token::Else
    } else if str_is(&lexeme, "for") {
        Token::For
    } else if str_is(&lexeme, "fun") {
        Token::Fun
    } else if str_is(&lexeme, "if") {
        Token::If
    } else if str_is(&lexeme, "nil") {
        Token::Nil
    } else if str_is(&lexeme, "or") {
        Token::Or
    } else if str_is(&lexeme, "print") {
        Token::Print
    } else if str_is(&lexeme, "return") {
        Token::Return
    } else if str_is(&lexeme, "super") {
        Token::Super
    } else if str_is(&lexeme, "this") {
        Token::This
    } else if str_is(&lexeme, "var") {
        Token::Var
    } else if str_is(&lexeme, "while") {
        Token::While
    } else {
        Token::Identifier(lexeme)
    }
}

/// A cursor over a piece of source text that yields positioned tokens.
pub struct Scanner {
    /// The source text, character by character.
    source: Vec<char>,
    /// The cursor: the index of the next character to consume.
    pos: usize,
    /// The line/column position of the cursor.
    position: Position,
    /// Whether an unexpected character has been skipped.
    has_failed: bool,
}

impl Scanner {
    /// The characters of the source text being scanned.
    pub closed spec fn src(&self) -> Seq<char> {
        self.source@
    }

    /// The cursor index.
    pub closed spec fn cursor(&self) -> int {
        self.pos as int
    }

    /// The position of the cursor.
    pub closed spec fn at(&self) -> PosV {
        pv(self.position)
    }

    /// Whether an unexpected character has been reported so far.
    pub closed spec fn failed(&self) -> bool {
        self.has_failed
    }

    /// The scanner's internal consistency: the cursor is inside the text
    /// and the tracked position cannot outrun the characters consumed.
    pub closed spec fn wf(&self) -> bool {
        &&& self.pos <= self.source@.len()
        &&& self.source@.len() < usize::MAX
        &&& 1 <= self.position.line <= self.pos + 1
        &&& 1 <= self.position.column <= self.pos + 1
    }

    /// A fresh scanner at the start of the given source text.
    pub fn new(source_code: &str) -> (s: Self)
        requires
            source_code@.len() < usize::MAX,
        ensures
            s.wf(),
            s.src() == source_code@,
            s.cursor() == 0,
            s.at() == (PosV { line: 1, column: 1 }),
            !s.failed(),
    {
        let n = source_code.unicode_len();
        let mut v: Vec<char> = Vec::new();
        let mut i: usize = 0;
        while i < n
            invariant
                i <= n,
                n == source_code@.len(),
                n < usize::MAX,
                v@ == source_code@.subrange(0, i as int),
            decreases n - i,
        {
            let c = source_code.get_char(i);
            v.push(c);
            i = i + 1;
            proof {
                assert(source_code@.subrange(0, i as int) =~= source_code@.subrange(
                    0,
                    i - 1,
                ).push(source_code@[i - 1]));
            }
        }
        proof {
            assert(v@ =~= source_code@);
        }
        Scanner { source: v, pos: 0, position: Position { line: 1, column: 1 }, has_failed: false }
    }

    /// Whether the cursor has reached the end of the text.
    fn is_at_end(&self) -> (r: bool)
        ensures
            r == (self.cursor() == self.src().len()),
    {
        self.pos == self.source.len()
    }

    /// Consume one character, updating the position.
    fn advance(&mut self) -> (c: char)
        requires
            old(self).wf(),
            old(self).cursor() < old(self).src().len(),
        ensures
            final(self).wf(),
            final(self).src() == old(self).src(),
            final(self).failed() == old(self).failed(),
            c == old(self).src()[old(self).cursor()],
            final(self).cursor() == old(self).cursor() + 1,
            final(self).at() == pos_after(old(self).at(), c),
    {
        let c = self.source[self.pos];
        self.pos = self.pos + 1;
        if c == '\n' {
            self.position.advance_line();
        } else {
            self.position.advance_column();
        }
        c
    }

    /// Consume the two given characters if they stand at the cursor.
    fn matches_two(&mut self, a: char, b: char) -> (m: bool)
        requires
            old(self).wf(),
        ensures
            final(self).wf(),
            ({
                let src = old(self).src();
                let i = old(self).cursor();
                if i + 2 <= src.len() && src[i] == a && src[i + 1] == b {
                    m && final(self).src() == src && final(self).failed() == old(self).failed()
                        && final(self).cursor() == i + 2 && final(self).at() == pos_after(
                        pos_after(old(self).at(), a),
                        b,
                    )
                } else {
                    !m && *final(self) == *old(self)
                }
            }),
    {
        if self.pos < self.source.len() && self.pos + 1 < self.source.len() {
            let c0 = self.source[self.pos];
            let c1 = self.source[self.pos + 1];
            if c0 == a && c1 == b {
                let _ = self.advance();
                let _ = self.advance();
                return true;
            }
        }
        false
    }

    /// Consume characters while they are digits.
    fn skip_digits(&mut self)
        requires
            old(self).wf(),
        ensures
            final(self).wf(),
            final(self).src() == old(self).src(),
            final(self).failed() == old(self).failed(),
            final(self).cursor() == digits_end(old(self).src(), old(self).cursor()),
            final(self).at() == pos_after_range(
                old(self).at(),
                old(self).src(),
                old(self).cursor(),
                final(self).cursor(),
            ),
    {
        let ghost src = self.source@;
        let ghost i0 = self.pos as int;
        let ghost p0 = pv(self.position);
        let ghost hf0 = self.has_failed;
        loop
            invariant_except_break
                self.wf(),
                self.source@ == src,
                self.has_failed == hf0,
                i0 <= self.pos as int,
                digits_end(src, self.pos as int) == digits_end(src, i0),
                pv(self.position) == pos_after_range(p0, src, i0, self.pos as int),
            ensures
                self.wf(),
                self.source@ == src,
                self.has_failed == hf0,
                self.pos as int == digits_end(src, i0),
                pv(self.position) == pos_after_range(p0, src, i0, self.pos as int),
            decreases src.len() - self.pos as int,
        {
            if self.pos == self.source.len() {
                break;
            }
            let c = self.source[self.pos];
            if !digit(c) {
                break;
            }
            proof {
                lemma_pos_after_range_snoc(p0, src, i0, self.pos as int);
            }
            let _ = self.advance();
        }
    }

    /// Consume characters while they are alphanumeric.
    fn skip_alnum(&mut self)
        requires
            old(self).wf(),
        ensures
            final(self).wf(),
            final(self).src() == old(self).src(),
            final(self).failed() == old(self).failed(),
            final(self).cursor() == alnum_end(old(self).src(), old(self).cursor()),
            final(self).at() == pos_after_range(
                old(self).at(),
                old(self).src(),
                old(self).cursor(),
                final(self).cursor(),
            ),
    {
        let ghost src = self.source@;
        let ghost i0 = self.pos as int;
        let ghost p0 = pv(self.position);
        let ghost hf0 = self.has_failed;
        loop
            invariant_except_break
                self.wf(),
                self.source@ == src,
                self.has_failed == hf0,
                i0 <= self.pos as int,
                alnum_end(src, self.pos as int) == alnum_end(src, i0),
                pv(self.position) == pos_after_range(p0, src, i0, self.pos as int),
            ensures
                self.wf(),
                self.source@ == src,
                self.has_failed == hf0,
                self.pos as int == alnum_end(src, i0),
                pv(self.position) == pos_after_range(p0, src, i0, self.pos as int),
            decreases src.len() - self.pos as int,
        {
            if self.pos == self.source.len() {
                break;
            }
            let c = self.source[self.pos];
            if !alnum(c) {
                break;
            }
            proof {
                lemma_pos_after_range_snoc(p0, src, i0, self.pos as int);
            }
            let _ = self.advance();
        }
    }

    /// Consume characters until a newline or the end of the text.
    fn skip_comment(&mut self)
        requires
            old(self).wf(),
        ensures
            final(self).wf(),
            final(self).src() == old(self).src(),
            final(self).failed() == old(self).failed(),
            final(self).cursor() == comment_end(old(self).src(), old(self).cursor()),
            final(self).at() == pos_after_range(
                old(self).at(),
                old(self).src(),
                old(self).cursor(),
                final(self).cursor(),
            ),
    {
        let ghost src = self.source@;
        let ghost i0 = self.pos as int;
        let ghost p0 = pv(self.position);
        let ghost hf0 = self.has_failed;
        loop
            invariant_except_break
                self.wf(),
                self.source@ == src,
                self.has_failed == hf0,
                i0 <= self.pos as int,
                comment_end(src, self.pos as int) == comment_end(src, i0),
                pv(self.position) == pos_after_range(p0, src, i0, self.pos as int),
            ensures
                self.wf(),
                self.source@ == src,
                self.has_failed == hf0,
                self.pos as int == comment_end(src, i0),
                pv(self.position) == pos_after_range(p0, src, i0, self.pos as int),
            decreases src.len() - self.pos as int,
        {
            if self.pos == self.source.len() {
                break;
            }
            let c = self.source[self.pos];
            if c == '\n' {
                break;
            }
            proof {
                lemma_pos_after_range_snoc(p0, src, i0, self.pos as int);
            }
            let _ = self.advance();
        }
    }

    /// Consume characters until a double quote or the end of the text.
    fn skip_string(&mut self)
        requires
            old(self).wf(),
        ensures
            final(self).wf(),
            final(self).src() == old(self).src(),
            final(self).failed() == old(self).failed(),
            final(self).cursor() == string_end(old(self).src(), old(self).cursor()),
            final(self).at() == pos_after_range(
                old(self).at(),
                old(self).src(),
                old(self).cursor(),
                final(self).cursor(),
            ),
    {
        let ghost src = self.source@;
        let ghost i0 = self.pos as int;
        let ghost p0 = pv(self.position);
        let ghost hf0 = self.has_failed;
        loop
            invariant_except_break
                self.wf(),
                self.source@ == src,
                self.has_failed == hf0,
                i0 <= self.pos as int,
                string_end(src, self.pos as int) == string_end(src, i0),
                pv(self.position) == pos_after_range(p0, src, i0, self.pos as int),
            ensures
                self.wf(),
                self.source@ == src,
                self.has_failed == hf0,
                self.pos as int == string_end(src, i0),
                pv(self.position) == pos_after_range(p0, src, i0, self.pos as int),
            decreases src.len() - self.pos as int,
        {
            if self.pos == self.source.len() {
                break;
            }
            let c = self.source[self.pos];
            if c == '"' {
                break;
            }
            proof {
                lemma_pos_after_range_snoc(p0, src, i0, self.pos as int);
            }
            let _ = self.advance();
        }
    }

    /// Whether any unexpected character has been reported and skipped so
    /// far; scanning continues past such characters.
    pub fn has_failed(&self) -> (r: bool)
        ensures
            r == self.failed(),
    {
        self.has_failed
    }

    /// Produce the next token of the text: exactly the outcome that
    /// [`spec_next`] gives for the scanner's current state. The failure
    /// flag records whether an unexpected character was skipped on the
    /// way to this token.
    #[verifier::loop_isolation(false)]
    pub fn next(&mut self) -> (r: Option<Result<TokenWithPosition, LexerError>>)
        requires
            old(self).wf(),
        ensures
            final(self).wf(),
            final(self).src() == old(self).src(),
            final(self).failed() == (old(self).failed() || spec_unexpected_skipped(
                old(self).src(),
                old(self).cursor(),
            )),
            ({
                let step = spec_next(old(self).src(), old(self).cursor(), old(self).at(), old(self).at());
                match r {
                    None => step == (LexStep::Done { q: final(self).at() }) && final(self).cursor()
                        == final(self).src().len(),
                    Some(s) => match s {
                        Ok(t) => step == (LexStep::Tok {
                            t: token_view(t.token_type),
                            tpos: pv(t.position),
                            j: final(self).cursor(),
                            q: final(self).at(),
                        }),
                        Err(e) => step == (LexStep::Fail {
                            e,
                            j: final(self).cursor(),
                            q: final(self).at(),
                        }),
                    },
                }
            }),
    {
        let ghost src = self.source@;
        let ghost i0 = self.pos as int;
        let ghost p0 = pv(self.position);
        let ghost f0 = self.has_failed;
        let mut token_position = self.position;
        loop
            invariant
                self.wf(),
                self.source@ == src,
                i0 <= self.pos as int,
                spec_next(src, i0, p0, p0) == spec_next(
                    src,
                    self.pos as int,
                    pv(self.position),
                    pv(token_position),
                ),
                (f0 || spec_unexpected_skipped(src, i0)) == (self.failed()
                    || spec_unexpected_skipped(src, self.pos as int)),
            decreases src.len() - self.pos as int,
        {
            let ghost i = self.pos as int;
            let ghost p = pv(self.position);
            let ghost tp = pv(token_position);
            if self.is_at_end() {
                return None;
            }
            if self.matches_two('!', '=') {
                return Some(Ok(TokenWithPosition::new(Token::BangEqual, token_position)));
            }
            if self.matches_two('=', '=') {
                return Some(Ok(TokenWithPosition::new(Token::EqualEqual, token_position)));
            }
            if self.matches_two('<', '=') {
                return Some(Ok(TokenWithPosition::new(Token::LessEqual, token_position)));
            }
            if self.matches_two('>', '=') {
                return Some(Ok(TokenWithPosition::new(Token::GreaterEqual, token_position)));
            }
            if self.matches_two('/', '/') {
                self.skip_comment();
                proof {
                    lemma_comment_end_bounds(src, i + 2);
                    reveal_with_fuel(pos_after_range, 3);
                }
                continue;
            }
            let start = self.pos;
            let c = self.advance();
            if c == '(' {
                return Some(Ok(TokenWithPosition::new(Token::LeftParen, token_position)));
            }
            if c == ')' {
                return Some(Ok(TokenWithPosition::new(Token::RightParen, token_position)));
            }
            if c == '{' {
                return Some(Ok(TokenWithPosition::new(Token::LeftBrace, token_position)));
            }
            if c == '}' {
                return Some(Ok(TokenWithPosition::new(Token::RightBrace, token_position)));
            }
            if c == ',' {
                return Some(Ok(TokenWithPosition::new(Token::Comma, token_position)));
            }
            if c == '.' {
                return Some(Ok(TokenWithPosition::new(Token::Dot, token_position)));
            }
            if c == '-' {
                return Some(Ok(TokenWithPosition::new(Token::Minus, token_position)));
            }
            if c == '+' {
                return Some(Ok(TokenWithPosition::new(Token::Plus, token_position)));
            }
            if c == ';' {
                return Some(Ok(TokenWithPosition::new(Token::Semicolon, token_position)));
            }
            if c == '*' {
                return Some(Ok(TokenWithPosition::new(Token::Star, token_position)));
            }
            if c == '!' {
                return Some(Ok(TokenWithPosition::new(Token::Bang, token_position)));
            }
            if c == '=' {
                return Some(Ok(TokenWithPosition::new(Token::Equal, token_position)));
            }
            if c == '<' {
                return Some(Ok(TokenWithPosition::new(Token::Less, token_position)));
            }
            if c == '>' {
                return Some(Ok(TokenWithPosition::new(Token::Greater, token_position)));
            }
            if c == '/' {
                return Some(Ok(TokenWithPosition::new(Token::Slash, token_position)));
            }
            if c == '"' {
                self.skip_string();
                proof {
                    lemma_string_end_bounds(src, i + 1);
                }
                if self.is_at_end() {
                    return Some(Err(LexerError::UnterminatedString));
                }
                let close = self.pos;
                let _ = self.advance();
                proof {
                    lemma_pos_after_range_snoc(pos_after(p, c), src, i + 1, close as int);
                }
                let content = copy_range(&self.source, start + 1, close);
                let text = chars_to_string(&content);
                return Some(Ok(TokenWithPosition::new(Token::String(text), token_position)));
            }
            if digit(c) {
                self.skip_digits();
                proof {
                    lemma_digits_end_bounds(src, i + 1);
                }
                if self.pos < self.source.len() && self.source[self.pos] == '.' && self.pos + 1
                    < self.source.len() && digit(self.source[self.pos + 1]) {
                    let ghost j0 = self.pos as int;
                    let _ = self.advance();
                    self.skip_digits();
                    proof {
                        lemma_digits_end_bounds(src, j0 + 1);
                        lemma_pos_after_range_concat(p, src, i, j0, self.pos as int);
                        lemma_pos_after_range_snoc(p, src, i, j0);
                        lemma_pos_after_range_concat(
                            pos_after_range(p, src, i, j0 + 1),
                            src,
                            j0 + 1,
                            j0 + 1,
                            self.pos as int,
                        );
                        lemma_pos_after_range_concat(p, src, i, j0 + 1, self.pos as int);
                    }
                }
                let lexeme = copy_range(&self.source, start, self.pos);
                let lexeme_text = chars_to_string(&lexeme);
                match parse_number(lexeme_text.as_str()) {
                    Some(bits) => {
                        return Some(Ok(TokenWithPosition::new(Token::Number(bits), token_position)));
                    },
                    None => {
                        return Some(Err(LexerError::InvalidNumber));
                    },
                }
            }
            if alpha(c) {
                self.skip_alnum();
                proof {
                    lemma_alnum_end_bounds(src, i + 1);
                }
                let lexeme = copy_range(&self.source, start, self.pos);
                let text = chars_to_string(&lexeme);
                let tok = keyword_or_identifier(text);
                return Some(Ok(TokenWithPosition::new(tok, token_position)));
            }
            if wspace(c) {
                token_position = self.position;
                continue;
            }
            // Unexpected character: report it and skip it; the next
            // token's position starts after the skipped text.
            self.has_failed = true;
            token_position = self.position;
        }
    }

    /// Scan the whole text: all tokens in order, or the first aborting
    /// lexical error; exactly the outcome of [`spec_scan`] on the text.
    #[verifier::loop_isolation(false)]
    pub fn try_scan_all(self) -> (r: Result<Vec<Token>, LexerError>)
        requires
            self.wf(),
        ensures
            ({
                let scan = spec_scan(self.src(), self.cursor(), self.at());
                match r {
                    Ok(v) => scan == Ok::<Seq<TokenV>, LexerError>(tokens_view(v@)),
                    Err(e) => scan == Err::<Seq<TokenV>, LexerError>(e),
                }
            }),
    {
        let mut scanner = self;
        let ghost src = scanner.source@;
        let ghost i0 = scanner.pos as int;
        let ghost p0 = pv(scanner.position);
        let mut tokens: Vec<Token> = Vec::new();
        loop
            invariant
                scanner.wf(),
                scanner.src() == src,
                ({
                    let whole = spec_scan(src, i0, p0);
                    let rest = spec_scan(src, scanner.cursor(), scanner.at());
                    match rest {
                        Ok(ts) => whole == Ok::<Seq<TokenV>, LexerError>(tokens_view(tokens@) + ts),
                        Err(e) => whole == Err::<Seq<TokenV>, LexerError>(e),
                    }
                }),
            decreases src.len() - scanner.cursor(),
        {
            let ghost i = scanner.cursor();
            let ghost p = scanner.at();
            proof {
                lemma_next_progress(src, i, p, p);
            }
            match scanner.next() {
                None => {
                    proof {
                        assert(tokens_view(tokens@) + Seq::<TokenV>::empty() =~= tokens_view(
                            tokens@,
                        ));
                    }
                    return Ok(tokens);
                },
                Some(step) => match step {
                    Ok(t) => {
                        let ghost prev = tokens@;
                        tokens.push(t.token_type);
                        proof {
                            assert(tokens_view(prev.push(t.token_type)) =~= tokens_view(prev).push(
                                token_view(t.token_type),
                            ));
                            let rest = spec_scan(src, scanner.cursor(), scanner.at());
                            if rest is Ok {
                                assert(tokens_view(prev) + (seq![token_view(t.token_type)]
                                    + rest->Ok_0) =~= tokens_view(prev.push(t.token_type))
                                    + rest->Ok_0);
                            }
                        }
                    },
                    Err(e) => {
                        return Err(e);
                    },
                },
            }
        }
    }
}

} // verus!
