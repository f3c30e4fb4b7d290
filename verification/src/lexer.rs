use vstd::prelude::*;
use crate::float::{ask, float_is_finite, follows, host_ready, is_finite, FloatReply, FloatTask, SpecFloatReply, SpecFloatTask};
use crate::span::Span;
use crate::text::{string_of,
    byte_offset, char_index_of, char_width, chars_of, digits_value, is_char_offset, is_digit,
    is_white_space, lemma_byte_offset_step, lemma_byte_offset_strict, lemma_char_index_unique,
    spec_is_identifier_part, spec_is_identifier_start, string_from_chars, upper_seq, upper_equals,
    is_ascii_digit, is_identifier_part, is_identifier_start, is_whitespace, push_char, utf8_width,
};
use crate::token::{Keyword, SpannedToken, SpecSpanned, SpecToken, Token};

verus! {

/// A lexing failure.
#[derive(Debug, Clone, PartialEq, Eq)]
pub enum LexError {
    UnexpectedCharacter { character: char, position: usize },
    UnterminatedString { start: usize },
    InvalidNumber { value: String, span: Span },
}

pub enum SpecLexError {
    UnexpectedCharacter { character: char, position: usize },
    UnterminatedString { start: usize },
    InvalidNumber { value: Seq<char>, span: Span },
}

impl View for LexError {
    type V = SpecLexError;

    open spec fn view(&self) -> SpecLexError {
        match self {
            LexError::UnexpectedCharacter { character, position } => SpecLexError::UnexpectedCharacter {
                character: *character,
                position: *position,
            },
            LexError::UnterminatedString { start } => SpecLexError::UnterminatedString { start: *start },
            LexError::InvalidNumber { value, span } => SpecLexError::InvalidNumber { value: value@, span: *span },
        }
    }
}

pub type FloatModel = spec_fn(SpecFloatTask) -> SpecFloatReply;

// ---------------------------------------------------------------------------
// The token grammar, as functions on the source characters.

/// Byte offset of character index `i`.
pub open spec fn off(cs: Seq<char>, i: int) -> usize {
    byte_offset(cs, i) as usize
}

pub open spec fn spanned(token: SpecToken, cs: Seq<char>, i: int, j: int) -> SpecSpanned {
    SpecSpanned { token, span: Span { start: off(cs, i), end: off(cs, j) } }
}

/// First index at or after `i` that does not continue an identifier.
pub open spec fn ident_end(cs: Seq<char>, i: int) -> int
    decreases cs.len() - i,
{
    if 0 <= i < cs.len() && spec_is_identifier_part(cs[i]) {
        ident_end(cs, i + 1)
    } else {
        i
    }
}

/// First index at or after `i` that is not a decimal digit.
pub open spec fn digits_end(cs: Seq<char>, i: int) -> int
    decreases cs.len() - i,
{
    if 0 <= i < cs.len() && is_digit(cs[i]) {
        digits_end(cs, i + 1)
    } else {
        i
    }
}

pub proof fn lemma_ident_end(cs: Seq<char>, i: int)
    requires
        0 <= i <= cs.len(),
    ensures
        i <= ident_end(cs, i) <= cs.len(),
        forall|k: int| i <= k < ident_end(cs, i) ==> spec_is_identifier_part(#[trigger] cs[k]),
    decreases cs.len() - i,
{
    if i < cs.len() && spec_is_identifier_part(cs[i]) {
        lemma_ident_end(cs, i + 1);
    }
}

pub proof fn lemma_digits_end(cs: Seq<char>, i: int)
    requires
        0 <= i <= cs.len(),
    ensures
        i <= digits_end(cs, i) <= cs.len(),
        forall|k: int| i <= k < digits_end(cs, i) ==> is_digit(#[trigger] cs[k]),
    decreases cs.len() - i,
{
    if i < cs.len() && is_digit(cs[i]) {
        lemma_digits_end(cs, i + 1);
    }
}

/// The token for an identifier-shaped word: a keyword, a word operator, a
/// Boolean or NULL literal (all matched without regard to ASCII case), or
/// else an identifier holding the word as written.
pub open spec fn word_token(word: Seq<char>) -> SpecToken {
    let u = upper_seq(word);
    if u == "SELECT"@ {
        SpecToken::Keyword(Keyword::Select)
    } else if u == "FROM"@ {
        SpecToken::Keyword(Keyword::From)
    } else if u == "WHERE"@ {
        SpecToken::Keyword(Keyword::Where)
    } else if u == "INSERT"@ {
        SpecToken::Keyword(Keyword::Insert)
    } else if u == "INTO"@ {
        SpecToken::Keyword(Keyword::Into)
    } else if u == "VALUES"@ {
        SpecToken::Keyword(Keyword::Values)
    } else if u == "CREATE"@ {
        SpecToken::Keyword(Keyword::Create)
    } else if u == "TABLE"@ {
        SpecToken::Keyword(Keyword::Table)
    } else if u == "AS"@ {
        SpecToken::Keyword(Keyword::As)
    } else if u == "PRIMARY"@ {
        SpecToken::Keyword(Keyword::Primary)
    } else if u == "KEY"@ {
        SpecToken::Keyword(Keyword::Key)
    } else if u == "AND"@ {
        SpecToken::And
    } else if u == "OR"@ {
        SpecToken::Or
    } else if u == "NOT"@ {
        SpecToken::Not
    } else if u == "TRUE"@ {
        SpecToken::Boolean(true)
    } else if u == "FALSE"@ {
        SpecToken::Boolean(false)
    } else if u == "NULL"@ {
        SpecToken::Null
    } else {
        SpecToken::Identifier(word)
    }
}

pub open spec fn all_digits(s: Seq<char>) -> bool {
    forall|k: int| 0 <= k < s.len() ==> is_digit(#[trigger] s[k])
}

/// What `str::parse::<i64>` gives: an optional sign, at least one digit,
/// and a value within range.
pub open spec fn spec_parse_i64(text: Seq<char>) -> Option<i64> {
    let negative = text.len() > 0 && text[0] == '-';
    let signed = text.len() > 0 && (text[0] == '-' || text[0] == '+');
    let digits = if signed { text.drop_first() } else { text };
    if digits.len() == 0 || !all_digits(digits) {
        None
    } else if negative {
        if digits_value(digits) <= 0x8000_0000_0000_0000 {
            Some((-(digits_value(digits) as int)) as i64)
        } else {
            None
        }
    } else if digits_value(digits) <= 0x7fff_ffff_ffff_ffff {
        Some(digits_value(digits) as i64)
    } else {
        None
    }
}

/// The text holds one of the characters that make a number a float.
pub open spec fn has_float_marker(text: Seq<char>) -> bool {
    exists|k: int| 0 <= k < text.len() && (text[k] == '.' || text[k] == 'e' || text[k] == 'E')
}

/// The token for a numeric literal's text, or `None` when it is invalid:
/// a float (parsed by the float host, and finite) when the text holds `.`,
/// `e` or `E`, an `i64` otherwise.
pub open spec fn number_token(text: Seq<char>, fl: FloatModel) -> Option<SpecToken> {
    if has_float_marker(text) {
        match fl(SpecFloatTask::Parse(text)) {
            SpecFloatReply::Number(bits) => if is_finite(bits) {
                Some(SpecToken::Float(bits))
            } else {
                None
            },
            _ => None,
        }
    } else {
        match spec_parse_i64(text) {
            Some(v) => Some(SpecToken::Integer(v)),
            None => None,
        }
    }
}

/// The extent of a number starting at `i`: digits, an optional fraction
/// (`.` and digits) and an optional exponent (`e`/`E`, an optional sign and
/// at least one digit). `Err(k)` when the exponent has no digits, `k` being
/// where the digits should start.
pub open spec fn number_end(cs: Seq<char>, i: int) -> Result<int, int> {
    let a = digits_end(cs, i);
    let b = if a < cs.len() && cs[a] == '.' {
        digits_end(cs, a + 1)
    } else {
        a
    };
    if b < cs.len() && (cs[b] == 'e' || cs[b] == 'E') {
        let c = if b + 1 < cs.len() && (cs[b + 1] == '+' || cs[b + 1] == '-') {
            b + 2
        } else {
            b + 1
        };
        let d = digits_end(cs, c);
        if d == c {
            Err(c)
        } else {
            Ok(d)
        }
    } else {
        Ok(b)
    }
}

#[verifier::rlimit(30)]
pub proof fn lemma_number_end(cs: Seq<char>, i: int)
    requires
        0 <= i < cs.len(),
        is_digit(cs[i]) || (cs[i] == '.' && i + 1 < cs.len() && is_digit(cs[i + 1])),
    ensures
        match number_end(cs, i) {
            Ok(e) => i < e <= cs.len(),
            Err(e) => i < e <= cs.len(),
        },
{
    lemma_digits_end(cs, i);
    lemma_digits_end(cs, i + 1);
    let a = digits_end(cs, i);
    if a < cs.len() && cs[a] == '.' {
        lemma_digits_end(cs, a + 1);
    }
    let b = if a < cs.len() && cs[a] == '.' {
        digits_end(cs, a + 1)
    } else {
        a
    };
    if b < cs.len() && (cs[b] == 'e' || cs[b] == 'E') {
        let c = if b + 1 < cs.len() && (cs[b + 1] == '+' || cs[b + 1] == '-') {
            b + 2
        } else {
            b + 1
        };
        lemma_digits_end(cs, c);
    }
}

/// The body of a string literal from index `j` (just after the opening
/// quote): a doubled quote stands for one quote, a single quote ends the
/// literal. `None` when the input ends first; otherwise the value and the
/// index after the closing quote.
pub open spec fn string_body(cs: Seq<char>, j: int, acc: Seq<char>) -> Option<(Seq<char>, int)>
    decreases cs.len() - j,
{
    if j < 0 || j >= cs.len() {
        None
    } else if cs[j] == '\'' {
        if j + 1 < cs.len() && cs[j + 1] == '\'' {
            string_body(cs, j + 2, acc.push('\''))
        } else {
            Some((acc, j + 1))
        }
    } else {
        string_body(cs, j + 1, acc.push(cs[j]))
    }
}

pub proof fn lemma_string_body(cs: Seq<char>, j: int, acc: Seq<char>)
    requires
        0 <= j,
    ensures
        string_body(cs, j, acc) matches Some((v, e)) ==> j < e <= cs.len(),
    decreases cs.len() - j,
{
    if j < cs.len() {
        if cs[j] == '\'' {
            if j + 1 < cs.len() && cs[j + 1] == '\'' {
                lemma_string_body(cs, j + 2, acc.push('\''));
            }
        } else {
            lemma_string_body(cs, j + 1, acc.push(cs[j]));
        }
    }
}

/// Punctuation and operators at index `i`: the token and how many
/// characters it spans.
pub open spec fn punctuation(cs: Seq<char>, i: int) -> Option<(SpecToken, int)> {
    let c = cs[i];
    let next_is = |d: char| i + 1 < cs.len() && cs[i + 1] == d;
    if c == ',' {
        Some((SpecToken::Comma, 1))
    } else if c == ';' {
        Some((SpecToken::Semicolon, 1))
    } else if c == '(' {
        Some((SpecToken::LParen, 1))
    } else if c == ')' {
        Some((SpecToken::RParen, 1))
    } else if c == '+' {
        Some((SpecToken::Plus, 1))
    } else if c == '-' {
        Some((SpecToken::Minus, 1))
    } else if c == '*' {
        Some((SpecToken::Star, 1))
    } else if c == '/' {
        Some((SpecToken::Slash, 1))
    } else if c == '%' {
        Some((SpecToken::Percent, 1))
    } else if c == '=' {
        Some((SpecToken::Equal, 1))
    } else if c == '>' {
        if next_is('=') {
            Some((SpecToken::GreaterThanOrEqual, 2))
        } else {
            Some((SpecToken::GreaterThan, 1))
        }
    } else if c == '<' {
        if next_is('=') {
            Some((SpecToken::LessThanOrEqual, 2))
        } else if next_is('>') {
            Some((SpecToken::NotEqual, 2))
        } else {
            Some((SpecToken::LessThan, 1))
        }
    } else if c == '!' && next_is('=') {
        Some((SpecToken::NotEqual, 2))
    } else {
        None
    }
}

/// A number starts at `i`: a digit, or a `.` followed by a digit.
pub open spec fn starts_number(cs: Seq<char>, i: int) -> bool {
    is_digit(cs[i]) || (cs[i] == '.' && i + 1 < cs.len() && is_digit(cs[i + 1]))
}

/// Prepends `t` to a successful result.
pub open spec fn cons_ok(t: SpecSpanned, rest: Result<Seq<SpecSpanned>, SpecLexError>) -> Result<
    Seq<SpecSpanned>,
    SpecLexError,
> {
    match rest {
        Ok(ts) => Ok(seq![t] + ts),
        Err(e) => Err(e),
    }
}

/// Prepends `p` to a successful result.
pub open spec fn prefix_ok(p: Seq<SpecSpanned>, rest: Result<Seq<SpecSpanned>, SpecLexError>) -> Result<
    Seq<SpecSpanned>,
    SpecLexError,
> {
    match rest {
        Ok(ts) => Ok(p + ts),
        Err(e) => Err(e),
    }
}

/// The tokens of `cs` from character index `i` on, ending with an `Eof`
/// token whose span is empty at the end of the text; or the first error.
pub open spec fn lex_from(cs: Seq<char>, i: int, fl: FloatModel) -> Result<Seq<SpecSpanned>, SpecLexError>
    decreases cs.len() - i,
{
    if i < 0 || i >= cs.len() {
        Ok(seq![spanned(SpecToken::Eof, cs, cs.len() as int, cs.len() as int)])
    } else if is_white_space(cs[i]) {
        lex_from(cs, i + 1, fl)
    } else if spec_is_identifier_start(cs[i]) {
        let j = ident_end(cs, i);
        proof {
            lemma_ident_end(cs, i + 1);
        }
        cons_ok(spanned(word_token(cs.subrange(i, j)), cs, i, j), lex_from(cs, j, fl))
    } else if starts_number(cs, i) {
        proof {
            lemma_number_end(cs, i);
        }
        match number_end(cs, i) {
            Err(k) => Err(
                SpecLexError::InvalidNumber {
                    value: cs.subrange(i, k),
                    span: Span { start: off(cs, i), end: off(cs, k) },
                },
            ),
            Ok(e) => match number_token(cs.subrange(i, e), fl) {
                Some(t) => cons_ok(spanned(t, cs, i, e), lex_from(cs, e, fl)),
                None => Err(
                    SpecLexError::InvalidNumber {
                        value: cs.subrange(i, e),
                        span: Span { start: off(cs, i), end: off(cs, e) },
                    },
                ),
            },
        }
    } else if cs[i] == '\'' {
        proof {
            lemma_string_body(cs, i + 1, seq![]);
        }
        match string_body(cs, i + 1, seq![]) {
            None => Err(SpecLexError::UnterminatedString { start: off(cs, i) }),
            Some((v, e)) => cons_ok(spanned(SpecToken::String(v), cs, i, e), lex_from(cs, e, fl)),
        }
    } else {
        match punctuation(cs, i) {
            Some((t, w)) => cons_ok(spanned(t, cs, i, i + w), lex_from(cs, i + w, fl)),
            None => Err(SpecLexError::UnexpectedCharacter { character: cs[i], position: off(cs, i) }),
        }
    }
}

/// The tokens of a whole source text.
pub open spec fn spec_tokenize(source: Seq<char>, fl: FloatModel) -> Result<Seq<SpecSpanned>, SpecLexError> {
    lex_from(source, 0, fl)
}

/// Every byte offset of the text fits in a `usize`.
pub open spec fn fits_in_memory(cs: Seq<char>) -> bool {
    byte_offset(cs, cs.len() as int) <= usize::MAX
}


pub proof fn lemma_byte_offset_mono(cs: Seq<char>, i: int, j: int)
    requires
        0 <= i <= j <= cs.len(),
    ensures
        byte_offset(cs, i) <= byte_offset(cs, j),
{
    if i < j {
        lemma_byte_offset_strict(cs, i, j);
    }
}

pub proof fn lemma_prefix_cons(p: Seq<SpecSpanned>, t: SpecSpanned, r: Result<Seq<SpecSpanned>, SpecLexError>)
    ensures
        prefix_ok(p, cons_ok(t, r)) == prefix_ok(p.push(t), r),
{
    if let Ok(ts) = r {
        assert(p + (seq![t] + ts) =~= p.push(t) + ts);
    }
}

/// The result of a lexing step: a token followed by the rest, or an error.
pub open spec fn step(r: Result<SpannedToken, LexError>, rest: Result<Seq<SpecSpanned>, SpecLexError>) -> Result<
    Seq<SpecSpanned>,
    SpecLexError,
> {
    match r {
        Ok(t) => cons_ok(t@, rest),
        Err(e) => Err(e@),
    }
}

pub open spec fn tokens_view(ts: Seq<SpannedToken>) -> Seq<SpecSpanned> {
    ts.map_values(|t: SpannedToken| t@)
}

pub open spec fn lex_result_view(r: Result<Vec<SpannedToken>, LexError>) -> Result<Seq<SpecSpanned>, SpecLexError> {
    match r {
        Ok(v) => Ok(tokens_view(v@)),
        Err(e) => Err(e@),
    }
}

/// A copy of `chars[from..to]`.
fn sub_chars(chars: &Vec<char>, from: usize, to: usize) -> (part: Vec<char>)
    requires
        from <= to <= chars.len(),
    ensures
        part@ == chars@.subrange(from as int, to as int),
{
    let mut part: Vec<char> = Vec::new();
    let mut i = from;
    while i < to
        invariant
            from <= i <= to <= chars.len(),
            part@ == chars@.subrange(from as int, i as int),
        decreases to - i,
    {
        part.push(chars[i]);
        assert(chars@.subrange(from as int, i + 1) =~= chars@.subrange(from as int, i as int).push(chars@[i as int]));
        i = i + 1;
    }
    part
}

fn string_of_chars(chars: &Vec<char>) -> (s: String)
    ensures
        s@ == chars@,
{
    let s = string_from_chars(chars, 0, chars.len());
    assert(chars@.subrange(0, chars@.len() as int) =~= chars@);
    s
}

/// The token of an identifier-shaped word.
#[verifier::rlimit(30)]
fn word_token_of(word: &Vec<char>) -> (t: Token)
    ensures
        t@ == word_token(word@),
{
    if upper_equals(word, "SELECT") {
        Token::Keyword(Keyword::Select)
    } else if upper_equals(word, "FROM") {
        Token::Keyword(Keyword::From)
    } else if upper_equals(word, "WHERE") {
        Token::Keyword(Keyword::Where)
    } else if upper_equals(word, "INSERT") {
        Token::Keyword(Keyword::Insert)
    } else if upper_equals(word, "INTO") {
        Token::Keyword(Keyword::Into)
    } else if upper_equals(word, "VALUES") {
        Token::Keyword(Keyword::Values)
    } else if upper_equals(word, "CREATE") {
        Token::Keyword(Keyword::Create)
    } else if upper_equals(word, "TABLE") {
        Token::Keyword(Keyword::Table)
    } else if upper_equals(word, "AS") {
        Token::Keyword(Keyword::As)
    } else if upper_equals(word, "PRIMARY") {
        Token::Keyword(Keyword::Primary)
    } else if upper_equals(word, "KEY") {
        Token::Keyword(Keyword::Key)
    } else if upper_equals(word, "AND") {
        Token::And
    } else if upper_equals(word, "OR") {
        Token::Or
    } else if upper_equals(word, "NOT") {
        Token::Not
    } else if upper_equals(word, "TRUE") {
        Token::Boolean(true)
    } else if upper_equals(word, "FALSE") {
        Token::Boolean(false)
    } else if upper_equals(word, "NULL") {
        Token::Null
    } else {
        Token::Identifier(string_of_chars(word))
    }
}

pub proof fn lemma_digits_value_take(s: Seq<char>, k: int)
    requires
        0 <= k < s.len(),
    ensures
        digits_value(s.take(k + 1)) == digits_value(s.take(k)) * 10 + ((s[k] as u32) - 48) as nat,
{
    assert(s.take(k + 1).drop_last() =~= s.take(k));
}

pub proof fn lemma_digits_value_grows(s: Seq<char>, k: int, n: int)
    requires
        0 <= k <= n <= s.len(),
        all_digits(s),
    ensures
        digits_value(s.take(k)) <= digits_value(s.take(n)),
    decreases n - k,
{
    if k < n {
        lemma_digits_value_grows(s, k, n - 1);
        lemma_digits_value_take(s, n - 1);
    }
}

/// `str::parse::<i64>` on a character sequence.
#[verifier::rlimit(30)]
fn parse_i64(text: &Vec<char>) -> (v: Option<i64>)
    ensures
        v == spec_parse_i64(text@),
{
    let n = text.len();
    let negative = n > 0 && text[0] == '-';
    let signed = n > 0 && (text[0] == '-' || text[0] == '+');
    let first: usize = if signed { 1 } else { 0 };
    let ghost digits = if signed { text@.drop_first() } else { text@ };
    if first >= n {
        return None;
    }
    let limit: u128 = if negative { 0x8000_0000_0000_0000u128 } else { 0x7fff_ffff_ffff_ffffu128 };
    let mut acc: u128 = 0;
    let mut i = first;
    assert(digits =~= text@.subrange(first as int, n as int));
    assert(digits.take(0) =~= Seq::<char>::empty());
    while i < n
        invariant
            n == text.len(),
            first <= i <= n,
            first == (if signed { 1int } else { 0int }),
            digits == text@.subrange(first as int, n as int),
            acc <= limit,
            limit == (if negative { 0x8000_0000_0000_0000u128 } else { 0x7fff_ffff_ffff_ffffu128 }),
            negative == (n > 0 && text@[0] == '-'),
            signed == (n > 0 && (text@[0] == '-' || text@[0] == '+')),
            acc == digits_value(digits.take(i - first)),
            forall|k: int| 0 <= k < i - first ==> is_digit(#[trigger] digits[k]),
        decreases n - i,
    {
        let c = text[i];
        assert(digits[i - first] == text@[i as int]);
        if !is_ascii_digit(c) {
            assert(!all_digits(digits));
            return None;
        }
        proof {
            lemma_digits_value_take(digits, i - first);
        }
        let d: u32 = (c as u32) - 48;
        assert(d <= 9);
        acc = acc * 10 + (d as u128);
        assert(acc == digits_value(digits.take(i + 1 - first)));
        if acc > limit {
            proof {
                if all_digits(digits) {
                    lemma_digits_value_grows(digits, i + 1 - first, digits.len() as int);
                    assert(digits.take(digits.len() as int) =~= digits);
                    assert(digits_value(digits) > limit);
                }
                let dd = if signed { text@.drop_first() } else { text@ };
                assert(dd == digits);
                assert(spec_parse_i64(text@) is None);
            }
            return None;
        }
        i = i + 1;
    }
    assert(digits.take(n - first) =~= digits);
    if negative {
        if acc == 0x8000_0000_0000_0000u128 {
            Some(i64::MIN)
        } else {
            let m: i64 = acc as i64;
            Some(-m)
        }
    } else {
        Some(acc as i64)
    }
}


fn contains_float_marker(text: &Vec<char>) -> (b: bool)
    ensures
        b == has_float_marker(text@),
{
    let mut i: usize = 0;
    while i < text.len()
        invariant
            i <= text.len(),
            forall|k: int| 0 <= k < i ==> !(text@[k] == '.' || text@[k] == 'e' || text@[k] == 'E'),
        decreases text.len() - i,
    {
        let c = text[i];
        if c == '.' || c == 'e' || c == 'E' {
            return true;
        }
        i = i + 1;
    }
    false
}

/// The token of a numeric literal's text (see [`number_token`]).
#[verifier::rlimit(30)]
fn number_token_of<F: Fn(FloatTask) -> FloatReply>(text: &Vec<char>, host: &F) -> (t: Option<Token>)
    requires
        host_ready(host),
    ensures
        forall|m: FloatModel| follows(host, m) ==> (match t {
            Some(tok) => number_token(text@, m) == Some(tok@),
            None => number_token(text@, m) is None,
        }),
{
    if contains_float_marker(text) {
        let reply = ask(host, FloatTask::Parse(string_of_chars(text)));
        match reply {
            FloatReply::Number(bits) => {
                if float_is_finite(bits) {
                    Some(Token::Float(bits))
                } else {
                    None
                }
            },
            _ => None,
        }
    } else {
        match parse_i64(text) {
            Some(v) => Some(Token::Integer(v)),
            None => None,
        }
    }
}

/// The keyword, operator, literal or identifier token for `text[start..end]`.
pub fn parse_identifier_or_keyword(text: &str, start: usize, end: usize) -> (t: SpannedToken)
    requires
        start <= end,
        is_char_offset(text@, start as int),
        is_char_offset(text@, end as int),
    ensures
        t@ == (SpecSpanned {
            token: word_token(text@.subrange(char_index_of(text@, start as int), char_index_of(text@, end as int))),
            span: Span { start, end },
        }),
{
    let value = Span::new(start, end).slice(text);
    let word = chars_of(value);
    SpannedToken::new(word_token_of(&word), Span::new(start, end))
}

/// The error for an invalid numeric literal at `text[start..end]`.
pub fn invalid_number(text: &str, start: usize, end: usize) -> (e: LexError)
    requires
        start <= end,
        is_char_offset(text@, start as int),
        is_char_offset(text@, end as int),
    ensures
        e@ == (SpecLexError::InvalidNumber {
            value: text@.subrange(char_index_of(text@, start as int), char_index_of(text@, end as int)),
            span: Span { start, end },
        }),
{
    let value = Span::new(start, end).slice(text);
    let word = chars_of(value);
    LexError::InvalidNumber { value: string_of_chars(&word), span: Span::new(start, end) }
}

/// The token for the numeric literal `text[start..end]`.
pub fn parse_number<F: Fn(FloatTask) -> FloatReply>(text: &str, start: usize, end: usize, host: &F) -> (r: Result<SpannedToken, LexError>)
    requires
        start <= end,
        is_char_offset(text@, start as int),
        is_char_offset(text@, end as int),
        host_ready(host),
    ensures
        forall|m: FloatModel| follows(host, m) ==> {
            let word = text@.subrange(char_index_of(text@, start as int), char_index_of(text@, end as int));
            match r {
                Ok(t) => number_token(word, m) == Some(t@.token) && t@.span == Span { start, end },
                Err(e) => number_token(word, m) is None && e@ == (SpecLexError::InvalidNumber {
                    value: word,
                    span: Span { start, end },
                }),
            }
        },
{
    let value = Span::new(start, end).slice(text);
    let word = chars_of(value);
    match number_token_of(&word, host) {
        Some(t) => Ok(SpannedToken::new(t, Span::new(start, end))),
        None => Err(LexError::InvalidNumber { value: string_of_chars(&word), span: Span::new(start, end) }),
    }
}

/// A string-literal token with the given value and span.
pub fn parse_string(value: String, start: usize, end: usize) -> (t: SpannedToken)
    ensures
        t@ == (SpecSpanned { token: SpecToken::String(value@), span: Span { start, end } }),
{
    SpannedToken::new(Token::String(value), Span::new(start, end))
}

/// Splits a source text into tokens.
pub struct Lexer {
    chars: Vec<char>,
    index: usize,
    position: usize,
}

impl Lexer {
    /// The characters of the source text.
    pub closed spec fn source(&self) -> Seq<char> {
        self.chars@
    }

    /// Index of the next character to read.
    pub closed spec fn cursor(&self) -> int {
        self.index as int
    }

    pub closed spec fn wf(&self) -> bool {
        &&& self.index <= self.chars.len()
        &&& self.position == byte_offset(self.chars@, self.index as int)
        &&& fits_in_memory(self.chars@)
    }

    /// A lexer at the start of `source`. The text's UTF-8 length must fit in a `usize`.
    pub fn new(source: &str) -> (lexer: Lexer)
        requires
            fits_in_memory(source@),
        ensures
            lexer.wf(),
            lexer.source() == source@,
            lexer.cursor() == 0,
    {
        Lexer { chars: chars_of(source), index: 0, position: 0 }
    }

    fn current(&self) -> (c: Option<char>)
        ensures
            c == (if self.index < self.chars.len() { Some(self.chars@[self.index as int]) } else { None }),
    {
        if self.index < self.chars.len() {
            Some(self.chars[self.index])
        } else {
            None
        }
    }

    fn peek_next(&self) -> (c: Option<char>)
        ensures
            c == (if self.index + 1 < self.chars.len() { Some(self.chars@[self.index + 1]) } else { None }),
    {
        if self.index < self.chars.len() && self.index + 1 < self.chars.len() {
            Some(self.chars[self.index + 1])
        } else {
            None
        }
    }

    fn advance(&mut self)
        requires
            old(self).wf(),
        ensures
            final(self).wf(),
            final(self).chars@ == old(self).chars@,
            final(self).index == (if old(self).index < old(self).chars.len() { old(self).index + 1 } else { old(self).index as int }),
    {
        if self.index < self.chars.len() {
            proof {
                lemma_byte_offset_step(self.chars@, self.index as int);
                lemma_byte_offset_mono(self.chars@, self.index + 1, self.chars.len() as int);
            }
            self.position = self.position + char_width(self.chars[self.index]);
            self.index = self.index + 1;
        }
    }
}

impl Lexer {
    fn lex_simple(&mut self, token: Token) -> (t: SpannedToken)
        requires
            old(self).wf(),
            old(self).index < old(self).chars.len(),
        ensures
            final(self).wf(),
            final(self).chars@ == old(self).chars@,
            final(self).index == old(self).index + 1,
            t.token == token,
            t.span == (Span { start: off(old(self).chars@, old(self).index as int), end: off(old(self).chars@, old(self).index + 1) }),
    {
        let start = self.position;
        self.advance();
        SpannedToken::new(token, Span::new(start, self.position))
    }

    fn lex_double(&mut self, token: Token) -> (t: SpannedToken)
        requires
            old(self).wf(),
            old(self).index + 1 < old(self).chars.len(),
        ensures
            final(self).wf(),
            final(self).chars@ == old(self).chars@,
            final(self).index == old(self).index + 2,
            t.token == token,
            t.span == (Span { start: off(old(self).chars@, old(self).index as int), end: off(old(self).chars@, old(self).index + 2) }),
    {
        let start = self.position;
        self.advance();
        self.advance();
        SpannedToken::new(token, Span::new(start, self.position))
    }

    #[verifier::rlimit(30)]
    fn lex_identifier(&mut self) -> (t: SpannedToken)
        requires
            old(self).wf(),
            old(self).index < old(self).chars.len(),
            spec_is_identifier_start(old(self).chars@[old(self).index as int]),
        ensures
            final(self).wf(),
            final(self).chars@ == old(self).chars@,
            final(self).index == ident_end(old(self).chars@, old(self).index as int),
            t@ == spanned(
                word_token(old(self).chars@.subrange(old(self).index as int, final(self).index as int)),
                old(self).chars@,
                old(self).index as int,
                final(self).index as int,
            ),
    {
        let start = self.position;
        let from = self.index;
        let ghost cs = self.chars@;
        while self.index < self.chars.len() && is_identifier_part(self.chars[self.index])
            invariant
                self.wf(),
                self.chars@ == cs,
                from <= self.index,
                ident_end(cs, self.index as int) == ident_end(cs, from as int),
            decreases self.chars.len() - self.index,
        {
            self.advance();
        }
        let word = sub_chars(&self.chars, from, self.index);
        SpannedToken::new(word_token_of(&word), Span::new(start, self.position))
    }

    fn skip_digits(&mut self)
        requires
            old(self).wf(),
        ensures
            final(self).wf(),
            final(self).chars@ == old(self).chars@,
            final(self).index == digits_end(old(self).chars@, old(self).index as int),
    {
        let ghost cs = self.chars@;
        let ghost from = self.index;
        while self.index < self.chars.len() && is_ascii_digit(self.chars[self.index])
            invariant
                self.wf(),
                self.chars@ == cs,
                from <= self.index,
                digits_end(cs, self.index as int) == digits_end(cs, from as int),
            decreases self.chars.len() - self.index,
        {
            self.advance();
        }
    }

    #[verifier::rlimit(30)]
    fn lex_number<F: Fn(FloatTask) -> FloatReply>(&mut self, host: &F) -> (r: Result<SpannedToken, LexError>)
        requires
            old(self).wf(),
            old(self).index < old(self).chars.len(),
            starts_number(old(self).chars@, old(self).index as int),
            host_ready(host),
        ensures
            final(self).wf(),
            final(self).chars@ == old(self).chars@,
            old(self).index < final(self).index,
            forall|m: FloatModel| follows(host, m) ==> lex_from(old(self).chars@, old(self).index as int, m)
                == step(r, lex_from(final(self).chars@, final(self).index as int, m)),
    {
        let ghost cs = self.chars@;
        let ghost i = self.index as int;
        proof {
            lemma_number_end(cs, i);
        }
        let start = self.position;
        let from = self.index;
        self.skip_digits();
        if self.index < self.chars.len() && self.chars[self.index] == '.' {
            self.advance();
            self.skip_digits();
        }
        if self.index < self.chars.len() && (self.chars[self.index] == 'e' || self.chars[self.index] == 'E') {
            self.advance();
            if self.index < self.chars.len() && (self.chars[self.index] == '+' || self.chars[self.index] == '-') {
                self.advance();
            }
            let exponent_start = self.index;
            self.skip_digits();
            if exponent_start == self.index {
                let value = sub_chars(&self.chars, from, self.index);
                return Err(LexError::InvalidNumber { value: string_of_chars(&value), span: Span::new(start, self.position) });
            }
        }
        let text = sub_chars(&self.chars, from, self.index);
        match number_token_of(&text, host) {
            Some(t) => Ok(SpannedToken::new(t, Span::new(start, self.position))),
            None => Err(LexError::InvalidNumber { value: string_of_chars(&text), span: Span::new(start, self.position) }),
        }
    }

    #[verifier::rlimit(30)]
    fn lex_string(&mut self) -> (r: Result<SpannedToken, LexError>)
        requires
            old(self).wf(),
            old(self).index < old(self).chars.len(),
            old(self).chars@[old(self).index as int] == '\'',
        ensures
            final(self).wf(),
            final(self).chars@ == old(self).chars@,
            old(self).index < final(self).index,
            match (r, string_body(old(self).chars@, old(self).index + 1, seq![])) {
                (Ok(t), Some((v, e))) => e == final(self).index && t@ == spanned(SpecToken::String(v), old(self).chars@, old(self).index as int, e),
                (Err(err), None) => err@ == SpecLexError::UnterminatedString { start: off(old(self).chars@, old(self).index as int) },
                _ => false,
            },
    {
        let ghost cs = self.chars@;
        let ghost i = self.index as int;
        let start = self.position;
        self.advance();
        let mut value = String::new();
        while self.index < self.chars.len()
            invariant
                self.wf(),
                self.chars@ == cs,
                i < self.index,
                start == off(cs, i),
                cs == old(self).chars@,
                i == old(self).index,
                string_body(cs, i + 1, seq![]) == string_body(cs, self.index as int, value@),
            decreases self.chars.len() - self.index,
        {
            let c = self.chars[self.index];
            if c == '\'' {
                if self.index + 1 < self.chars.len() && self.chars[self.index + 1] == '\'' {
                    push_char(&mut value, '\'');
                    self.advance();
                    self.advance();
                    continue;
                }
                let ghost j = self.index as int;
                assert(string_body(cs, j, value@) == Some((value@, j + 1)));
                self.advance();
                let t = parse_string(value, start, self.position);
                assert(t@ == spanned(SpecToken::String(value@), cs, i, j + 1));
                return Ok(t);
            }
            push_char(&mut value, c);
            self.advance();
        }
        Err(LexError::UnterminatedString { start })
    }
}

impl Lexer {
    /// Splits the rest of the source into tokens, ending with `Eof`.
    #[verifier::rlimit(30)]
    pub fn tokenize<F: Fn(FloatTask) -> FloatReply>(self, host: &F) -> (r: Result<Vec<SpannedToken>, LexError>)
        requires
            self.wf(),
            host_ready(host),
        ensures
            forall|m: FloatModel| follows(host, m) ==> lex_result_view(r) == lex_from(self.source(), self.cursor(), m),
    {
        let mut lexer = self;
        let ghost cs = lexer.chars@;
        let ghost i0 = lexer.index as int;
        let mut tokens: Vec<SpannedToken> = Vec::new();
        assert forall|m: FloatModel| follows(host, m) implies lex_from(cs, i0, m) == prefix_ok(
            tokens_view(tokens@),
            lex_from(cs, i0, m),
        ) by {
            if let Ok(ts) = lex_from(cs, i0, m) {
                assert(tokens_view(tokens@) + ts =~= ts);
            }
        };
        while lexer.index < lexer.chars.len()
            invariant
                lexer.wf(),
                lexer.chars@ == cs,
                i0 <= lexer.index,
                cs == self.source(),
                i0 == self.cursor(),
                host_ready(host),
                forall|m: FloatModel| follows(host, m) ==> lex_from(cs, i0, m) == prefix_ok(
                    tokens_view(tokens@),
                    lex_from(cs, lexer.index as int, m),
                ),
            decreases lexer.chars.len() - lexer.index,
        {
            let ghost idx = lexer.index as int;
            let c = lexer.chars[lexer.index];
            if is_whitespace(c) {
                lexer.advance();
                continue;
            }
            let token: SpannedToken;
            if is_identifier_start(c) {
                proof {
                    lemma_ident_end(cs, idx + 1);
                }
                token = lexer.lex_identifier();
            } else if is_ascii_digit(c) || (c == '.' && lexer.index + 1 < lexer.chars.len() && is_ascii_digit(lexer.chars[lexer.index + 1])) {
                match lexer.lex_number(host) {
                    Ok(t) => {
                        token = t;
                    },
                    Err(e) => {
                        proof {
                            assert forall|m: FloatModel| follows(host, m) implies lex_result_view(Err(e)) == lex_from(cs, i0, m) by {
                                assert(lex_from(cs, idx, m) == Err::<Seq<SpecSpanned>, SpecLexError>(e@));
                            };
                        }
                        return Err(e);
                    },
                }
            } else if c == '\'' {
                proof {
                    lemma_string_body(cs, idx + 1, seq![]);
                }
                match lexer.lex_string() {
                    Ok(t) => {
                        token = t;
                    },
                    Err(e) => {
                        return Err(e);
                    },
                }
            } else {
                let next = lexer.peek_next();
                if c == ',' {
                    token = lexer.lex_simple(Token::Comma);
                } else if c == ';' {
                    token = lexer.lex_simple(Token::Semicolon);
                } else if c == '(' {
                    token = lexer.lex_simple(Token::LParen);
                } else if c == ')' {
                    token = lexer.lex_simple(Token::RParen);
                } else if c == '+' {
                    token = lexer.lex_simple(Token::Plus);
                } else if c == '-' {
                    token = lexer.lex_simple(Token::Minus);
                } else if c == '*' {
                    token = lexer.lex_simple(Token::Star);
                } else if c == '/' {
                    token = lexer.lex_simple(Token::Slash);
                } else if c == '%' {
                    token = lexer.lex_simple(Token::Percent);
                } else if c == '=' {
                    token = lexer.lex_simple(Token::Equal);
                } else if c == '>' && next == Some('=') {
                    token = lexer.lex_double(Token::GreaterThanOrEqual);
                } else if c == '>' {
                    token = lexer.lex_simple(Token::GreaterThan);
                } else if c == '<' && next == Some('=') {
                    token = lexer.lex_double(Token::LessThanOrEqual);
                } else if c == '<' && next == Some('>') {
                    token = lexer.lex_double(Token::NotEqual);
                } else if c == '<' {
                    token = lexer.lex_simple(Token::LessThan);
                } else if c == '!' && next == Some('=') {
                    token = lexer.lex_double(Token::NotEqual);
                } else {
                    let e = LexError::UnexpectedCharacter { character: c, position: lexer.position };
                    proof {
                        assert(punctuation(cs, idx) is None);
                        assert forall|m: FloatModel| follows(host, m) implies lex_result_view(Err(e)) == lex_from(cs, i0, m) by {
                            assert(lex_from(cs, idx, m) == Err::<Seq<SpecSpanned>, SpecLexError>(e@));
                        };
                    }
                    return Err(e);
                }
            }
            proof {
                assert forall|m: FloatModel| follows(host, m) implies lex_from(cs, i0, m) == prefix_ok(
                    tokens_view(tokens@.push(token)),
                    lex_from(cs, lexer.index as int, m),
                ) by {
                    assert(lex_from(cs, idx, m) == cons_ok(token@, lex_from(cs, lexer.index as int, m)));
                    lemma_prefix_cons(tokens_view(tokens@), token@, lex_from(cs, lexer.index as int, m));
                    assert(tokens_view(tokens@.push(token)) =~= tokens_view(tokens@).push(token@));
                };
            }
            tokens.push(token);
        }
        let eof = SpannedToken::new(Token::Eof, Span::new(lexer.position, lexer.position));
        proof {
            assert forall|m: FloatModel| follows(host, m) implies lex_from(cs, i0, m) == Ok::<Seq<SpecSpanned>, SpecLexError>(
                tokens_view(tokens@.push(eof)),
            ) by {
                assert(tokens_view(tokens@.push(eof)) =~= tokens_view(tokens@) + seq![eof@]);
            };
        }
        tokens.push(eof);
        Ok(tokens)
    }
}

} // verus!
