//! What the interactive prompt does with a line of input.

use vstd::prelude::*;
use crate::error::{BackendError, SpecBackendError};
use crate::lexer::{all_digits, lemma_digits_value_grows, lemma_digits_value_take};
use crate::messages::lines_view;
use crate::text::{
    chars_of, digits_value, eq_ignore_case, is_ascii_digit, is_white_space, is_whitespace, lower, string_from_chars,
    string_of, to_lower,
};

verus! {

// ---------------------------------------------------------------------------
// Words of a line.

/// The first index from `i` on that does not hold whitespace.
pub open spec fn skip_space(s: Seq<char>, i: int) -> int
    decreases s.len() - i,
{
    if 0 <= i < s.len() && is_white_space(s[i]) {
        skip_space(s, i + 1)
    } else {
        i
    }
}

/// The first index from `i` on that holds whitespace (or the end).
pub open spec fn word_end(s: Seq<char>, i: int) -> int
    decreases s.len() - i,
{
    if 0 <= i < s.len() && !is_white_space(s[i]) {
        word_end(s, i + 1)
    } else {
        i
    }
}

/// The end of the text without its trailing whitespace, looking back from `j`.
pub open spec fn trim_end(s: Seq<char>, j: int) -> int
    decreases j,
{
    if 0 < j <= s.len() && is_white_space(s[j - 1]) {
        trim_end(s, j - 1)
    } else {
        j
    }
}

pub proof fn lemma_skip_space(s: Seq<char>, i: int)
    requires
        0 <= i <= s.len(),
    ensures
        i <= skip_space(s, i) <= s.len(),
        skip_space(s, i) < s.len() ==> !is_white_space(s[skip_space(s, i)]),
        forall|k: int| i <= k < skip_space(s, i) ==> is_white_space(#[trigger] s[k]),
    decreases s.len() - i,
{
    if i < s.len() && is_white_space(s[i]) {
        lemma_skip_space(s, i + 1);
    }
}

pub proof fn lemma_word_end(s: Seq<char>, i: int)
    requires
        0 <= i <= s.len(),
    ensures
        i <= word_end(s, i) <= s.len(),
        word_end(s, i) < s.len() ==> is_white_space(s[word_end(s, i)]),
        forall|k: int| i <= k < word_end(s, i) ==> !is_white_space(#[trigger] s[k]),
    decreases s.len() - i,
{
    if i < s.len() && !is_white_space(s[i]) {
        lemma_word_end(s, i + 1);
    }
}

pub proof fn lemma_trim_end(s: Seq<char>, j: int)
    requires
        0 <= j <= s.len(),
    ensures
        0 <= trim_end(s, j) <= j,
        trim_end(s, j) > 0 ==> !is_white_space(s[trim_end(s, j) - 1]),
        forall|k: int| trim_end(s, j) <= k < j ==> is_white_space(#[trigger] s[k]),
    decreases j,
{
    if 0 < j && is_white_space(s[j - 1]) {
        lemma_trim_end(s, j - 1);
    }
}

/// The whitespace-separated words of `s` from index `i` on (what
/// `str::split_whitespace` gives).
pub open spec fn words_from(s: Seq<char>, i: int) -> Seq<Seq<char>>
    decreases s.len() - i,
{
    if i < 0 || i > s.len() {
        Seq::empty()
    } else {
        let a = skip_space(s, i);
        if a >= s.len() {
            Seq::empty()
        } else {
            proof {
                lemma_skip_space(s, i);
                lemma_word_end(s, a);
            }
            let b = word_end(s, a);
            seq![s.subrange(a, b)] + words_from(s, b)
        }
    }
}

pub open spec fn words(s: Seq<char>) -> Seq<Seq<char>> {
    words_from(s, 0)
}

/// The text without leading and trailing whitespace (what `str::trim` gives).
pub open spec fn trimmed(s: Seq<char>) -> Seq<char> {
    let a = skip_space(s, 0);
    let b = trim_end(s, s.len() as int);
    if a < b {
        s.subrange(a, b)
    } else {
        Seq::empty()
    }
}

/// The words of a line.
#[verifier::rlimit(30)]
pub fn split_words(line: &str) -> (parts: Vec<String>)
    ensures
        lines_view(parts@) == words(line@),
{
    let chars = chars_of(line);
    let ghost s = line@;
    let n = chars.len();
    let mut parts: Vec<String> = Vec::new();
    let mut i: usize = 0;
    assert(lines_view(parts@) + words_from(s, 0) =~= words_from(s, 0));
    while i < n
        invariant
            chars@ == s,
            s == line@,
            n == chars.len(),
            i <= n,
            lines_view(parts@) + words_from(s, i as int) == words(s),
        decreases n - i,
    {
        let mut a = i;
        while a < n && is_whitespace(chars[a])
            invariant
                chars@ == s,
                n == chars.len(),
                i <= a <= n,
                skip_space(s, i as int) == skip_space(s, a as int),
            decreases n - a,
        {
            a = a + 1;
        }
        if a >= n {
            proof {
                lemma_skip_space(s, i as int);
                assert(words_from(s, i as int) =~= Seq::<Seq<char>>::empty());
                assert(lines_view(parts@) + Seq::<Seq<char>>::empty() =~= lines_view(parts@));
                assert(lines_view(parts@) == words(s));
            }
            return parts;
        }
        let mut b = a;
        while b < n && !is_whitespace(chars[b])
            invariant
                chars@ == s,
                n == chars.len(),
                a <= b <= n,
                word_end(s, a as int) == word_end(s, b as int),
            decreases n - b,
        {
            b = b + 1;
        }
        proof {
            lemma_skip_space(s, i as int);
            lemma_word_end(s, a as int);
        }
        let word = string_from_chars(&chars, a, b);
        let ghost before = parts@;
        parts.push(word);
        assert(lines_view(parts@) =~= lines_view(before).push(s.subrange(a as int, b as int)));
        assert(lines_view(parts@) + words_from(s, b as int) =~= lines_view(before) + words_from(s, i as int));
        i = b;
    }
    assert(words_from(s, n as int) =~= Seq::<Seq<char>>::empty());
    assert(lines_view(parts@) =~= words(s));
    parts
}

/// The line without leading and trailing whitespace.
#[verifier::rlimit(30)]
pub fn trim_line(line: &str) -> (text: String)
    ensures
        text@ == trimmed(line@),
{
    let chars = chars_of(line);
    let ghost s = line@;
    let n = chars.len();
    let mut a: usize = 0;
    while a < n && is_whitespace(chars[a])
        invariant
            chars@ == s,
            n == chars.len(),
            a <= n,
            skip_space(s, 0) == skip_space(s, a as int),
        decreases n - a,
    {
        a = a + 1;
    }
    let mut b: usize = n;
    while b > 0 && is_whitespace(chars[b - 1])
        invariant
            chars@ == s,
            n == chars.len(),
            b <= n,
            trim_end(s, n as int) == trim_end(s, b as int),
        decreases b,
    {
        b = b - 1;
    }
    if a < b {
        string_from_chars(&chars, a, b)
    } else {
        String::new()
    }
}

// ---------------------------------------------------------------------------
// `.seed`.

/// The line's first word is `.seed`, without regard to ASCII case.
pub open spec fn spec_is_seed_command(line: Seq<char>) -> bool {
    words(line).len() > 0 && eq_ignore_case(words(line)[0], ".seed"@)
}

/// Whether a line is the `.seed` meta-command (see [`spec_is_seed_command`]).
pub fn is_seed_command(line: &str) -> (b: bool)
    ensures
        b == spec_is_seed_command(line@),
{
    let parts = split_words(line);
    if parts.len() == 0 {
        return false;
    }
    assert(parts@[0]@ == words(line@)[0]);
    crate::text::eq_ignore_ascii_case(parts[0].as_str(), ".seed")
}

/// What `str::parse::<usize>` gives: an optional `+`, at least one digit,
/// and a value within range.
pub open spec fn spec_parse_usize(text: Seq<char>) -> Option<usize> {
    let digits = if text.len() > 0 && text[0] == '+' {
        text.drop_first()
    } else {
        text
    };
    if digits.len() == 0 || !all_digits(digits) || digits_value(digits) > usize::MAX {
        None
    } else {
        Some(digits_value(digits) as usize)
    }
}

/// `str::parse::<usize>`.
#[verifier::rlimit(30)]
pub fn parse_usize(text: &str) -> (v: Option<usize>)
    ensures
        v == spec_parse_usize(text@),
{
    let chars = chars_of(text);
    let n = chars.len();
    let signed = n > 0 && chars[0] == '+';
    let first: usize = if signed { 1 } else { 0 };
    let ghost digits = if signed { text@.drop_first() } else { text@ };
    if first >= n {
        return None;
    }
    let limit: u128 = usize::MAX as u128;
    let mut acc: u128 = 0;
    let mut i = first;
    assert(digits =~= chars@.subrange(first as int, n as int));
    assert(digits.take(0) =~= Seq::<char>::empty());
    while i < n
        invariant
            n == chars.len(),
            chars@ == text@,
            first <= i <= n,
            first == (if signed { 1int } else { 0int }),
            signed == (n > 0 && text@[0] == '+'),
            digits == chars@.subrange(first as int, n as int),
            digits == (if signed { text@.drop_first() } else { text@ }),
            acc <= limit,
            limit == usize::MAX,
            acc == digits_value(digits.take(i - first)),
            forall|k: int| 0 <= k < i - first ==> crate::text::is_digit(#[trigger] digits[k]),
        decreases n - i,
    {
        let c = chars[i];
        assert(digits[i - first] == chars@[i as int]);
        if !is_ascii_digit(c) {
            assert(!all_digits(digits));
            return None;
        }
        proof {
            lemma_digits_value_take(digits, i - first);
        }
        let d: u32 = (c as u32) - 48;
        assert(d <= 9);
        acc = acc * 10 + (d as u128);
        assert(acc == digits_value(digits.take(i + 1 - first)));
        if acc > limit {
            proof {
                if all_digits(digits) {
                    lemma_digits_value_grows(digits, i + 1 - first, digits.len() as int);
                    assert(digits.take(digits.len() as int) =~= digits);
                }
            }
            return None;
        }
        i = i + 1;
    }
    assert(digits.take(n - first) =~= digits);
    Some(acc as usize)
}

/// The table and row count of a `.seed <table> <count>` line, or why the
/// line is not one.
pub open spec fn seed_request(line: Seq<char>) -> Result<(Seq<char>, usize), SpecBackendError> {
    let w = words(line);
    if w.len() != 3 {
        Err(SpecBackendError::Execution("usage: .seed <table> <count>"@))
    } else {
        match spec_parse_usize(w[2]) {
            None => Err(SpecBackendError::Execution("seed count must be an integer"@)),
            Some(n) => Ok((w[1], n)),
        }
    }
}

/// The arguments of a `.seed` line (see [`seed_request`]).
pub fn seed_arguments(line: &str) -> (r: Result<(String, usize), BackendError>)
    ensures
        match (r, seed_request(line@)) {
            (Ok((t, n)), Ok((st, sn))) => t@ == st && n == sn,
            (Err(e), Err(se)) => e@ == se,
            _ => false,
        },
{
    let parts = split_words(line);
    if parts.len() != 3 {
        return Err(BackendError::Execution(string_of("usage: .seed <table> <count>")));
    }
    assert(parts@[2]@ == words(line@)[2]);
    assert(parts@[1]@ == words(line@)[1]);
    match parse_usize(parts[2].as_str()) {
        None => Err(BackendError::Execution(string_of("seed count must be an integer"))),
        Some(count) => Ok((parts[1].clone(), count)),
    }
}

// ---------------------------------------------------------------------------
// Lines.

/// What the prompt does with a line.
#[derive(Debug, PartialEq)]
pub enum ReplCommand {
    /// `exit` or `quit`: leave the prompt.
    Quit,
    /// A blank line: ask again.
    Skip,
    /// The `.seed` meta-command, with the trimmed line.
    Seed(String),
    /// A SQL statement, with the trimmed line.
    Statement(String),
}

pub enum SpecReplCommand {
    Quit,
    Skip,
    Seed(Seq<char>),
    Statement(Seq<char>),
}

impl View for ReplCommand {
    type V = SpecReplCommand;

    open spec fn view(&self) -> SpecReplCommand {
        match self {
            ReplCommand::Quit => SpecReplCommand::Quit,
            ReplCommand::Skip => SpecReplCommand::Skip,
            ReplCommand::Seed(s) => SpecReplCommand::Seed(s@),
            ReplCommand::Statement(s) => SpecReplCommand::Statement(s@),
        }
    }
}

/// The prompt's reading of a line: trimmed, `exit`/`quit` (any case) leave,
/// a blank line is skipped, a line whose first word is `.seed` seeds, and
/// anything else is a statement.
pub open spec fn line_command(line: Seq<char>) -> SpecReplCommand {
    let t = trimmed(line);
    if eq_ignore_case(t, "exit"@) || eq_ignore_case(t, "quit"@) {
        SpecReplCommand::Quit
    } else if t.len() == 0 {
        SpecReplCommand::Skip
    } else if spec_is_seed_command(t) {
        SpecReplCommand::Seed(t)
    } else {
        SpecReplCommand::Statement(t)
    }
}

/// What the prompt does with a line (see [`line_command`]).
pub fn classify_line(line: &str) -> (c: ReplCommand)
    ensures
        c@ == line_command(line@),
{
    let t = trim_line(line);
    if crate::text::eq_ignore_ascii_case(t.as_str(), "exit") || crate::text::eq_ignore_ascii_case(t.as_str(), "quit") {
        ReplCommand::Quit
    } else if chars_of(t.as_str()).len() == 0 {
        ReplCommand::Skip
    } else if is_seed_command(t.as_str()) {
        ReplCommand::Seed(t)
    } else {
        ReplCommand::Statement(t)
    }
}

} // verus!
