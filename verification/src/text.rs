use vstd::prelude::*;

verus! {

/// Number of bytes in the UTF-8 encoding of `c`.
pub open spec fn utf8_width(c: char) -> nat {
    if (c as u32) < 0x80 {
        1
    } else if (c as u32) < 0x800 {
        2
    } else if (c as u32) < 0x10000 {
        3
    } else {
        4
    }
}

/// Byte offset of the character at index `i` of `chars` (the UTF-8 length of `chars[..i]`).
pub open spec fn byte_offset(chars: Seq<char>, i: int) -> nat
    decreases i,
{
    if i <= 0 || chars.len() == 0 {
        0
    } else if i > chars.len() {
        byte_offset(chars, chars.len() as int)
    } else {
        byte_offset(chars, i - 1) + utf8_width(chars[i - 1])
    }
}

/// `offset` falls between two characters of `chars` (or at either end).
pub open spec fn is_char_offset(chars: Seq<char>, offset: int) -> bool {
    exists|i: int| 0 <= i <= chars.len() && byte_offset(chars, i) == offset
}

/// The character index whose byte offset is `offset`.
pub open spec fn char_index_of(chars: Seq<char>, offset: int) -> int {
    choose|i: int| 0 <= i <= chars.len() && byte_offset(chars, i) == offset
}

pub proof fn lemma_byte_offset_step(chars: Seq<char>, i: int)
    requires
        0 <= i < chars.len(),
    ensures
        byte_offset(chars, i + 1) == byte_offset(chars, i) + utf8_width(chars[i]),
{
}

/// Byte offsets grow strictly with the character index.
pub proof fn lemma_byte_offset_strict(chars: Seq<char>, i: int, j: int)
    requires
        0 <= i < j <= chars.len(),
    ensures
        byte_offset(chars, i) < byte_offset(chars, j),
    decreases j - i,
{
    if j > i + 1 {
        lemma_byte_offset_strict(chars, i, j - 1);
    }
}

/// Different character indices have different byte offsets.
pub proof fn lemma_char_index_unique(chars: Seq<char>, i: int)
    requires
        0 <= i <= chars.len(),
    ensures
        is_char_offset(chars, byte_offset(chars, i) as int),
        char_index_of(chars, byte_offset(chars, i) as int) == i,
{
    let k = char_index_of(chars, byte_offset(chars, i) as int);
    if k < i {
        lemma_byte_offset_strict(chars, k, i);
    } else if i < k {
        lemma_byte_offset_strict(chars, i, k);
    }
}

/// The UTF-8 width of one character.
pub fn char_width(c: char) -> (width: usize)
    ensures
        width == utf8_width(c),
{
    let code: u32 = c as u32;
    if code < 0x80 {
        1
    } else if code < 0x800 {
        2
    } else if code < 0x10000 {
        3
    } else {
        4
    }
}

/// The characters of `s`, in order.
pub fn chars_of(s: &str) -> (chars: Vec<char>)
    ensures
        chars@ == s@,
{
    let mut chars: Vec<char> = Vec::new();
    for c in it: s.chars()
        invariant
            chars@ == it.seq().take(it.index()),
    {
        chars.push(c);
    }
    chars
}


/// `c` is an ASCII decimal digit.
pub open spec fn is_digit(c: char) -> bool {
    '0' <= c && c <= '9'
}

pub open spec fn is_ascii_letter(c: char) -> bool {
    ('a' <= c && c <= 'z') || ('A' <= c && c <= 'Z')
}

/// The Unicode `White_Space` property (what `char::is_whitespace` tests).
pub open spec fn is_white_space(c: char) -> bool {
    let u = c as u32;
    ||| 0x09 <= u <= 0x0d
    ||| u == 0x20
    ||| u == 0x85
    ||| u == 0xa0
    ||| u == 0x1680
    ||| 0x2000 <= u <= 0x200a
    ||| u == 0x2028
    ||| u == 0x2029
    ||| u == 0x202f
    ||| u == 0x205f
    ||| u == 0x3000
}

/// ASCII upper-casing of one character; other characters are unchanged.
pub open spec fn upper(c: char) -> char {
    if 'a' <= c && c <= 'z' {
        ((c as u32) - 32) as char
    } else {
        c
    }
}

/// ASCII lower-casing of one character; other characters are unchanged.
pub open spec fn lower(c: char) -> char {
    if 'A' <= c && c <= 'Z' {
        ((c as u32) + 32) as char
    } else {
        c
    }
}

pub open spec fn upper_seq(s: Seq<char>) -> Seq<char> {
    s.map_values(|c: char| upper(c))
}

/// Equality up to ASCII case (what `eq_ignore_ascii_case` tests).
pub open spec fn eq_ignore_case(a: Seq<char>, b: Seq<char>) -> bool {
    a.len() == b.len() && forall|i: int| 0 <= i < a.len() ==> lower(#[trigger] a[i]) == lower(b[i])
}

/// Equality up to ASCII case is symmetric and transitive.
pub proof fn lemma_eq_ignore_case(a: Seq<char>, b: Seq<char>, c: Seq<char>)
    ensures
        eq_ignore_case(a, b) ==> eq_ignore_case(b, a),
        eq_ignore_case(a, b) && eq_ignore_case(b, c) ==> eq_ignore_case(a, c),
{
    if eq_ignore_case(a, b) {
        assert forall|i: int| 0 <= i < b.len() implies lower(#[trigger] b[i]) == lower(a[i]) by {
            assert(lower(a[i]) == lower(b[i]));
        };
        if eq_ignore_case(b, c) {
            assert forall|i: int| 0 <= i < a.len() implies lower(#[trigger] a[i]) == lower(c[i]) by {
                assert(lower(a[i]) == lower(b[i]));
                assert(lower(b[i]) == lower(c[i]));
            };
        }
    }
}

/// Characters equal up to ASCII case have the same upper-case form, and a
/// character's upper-case form is an upper-case letter `k` exactly when it
/// equals `k` up to case.
pub proof fn lemma_char_case(c: char, d: char)
    ensures
        lower(c) == lower(d) ==> upper(c) == upper(d),
        'A' <= d <= 'Z' ==> ((upper(c) == d) == (lower(c) == lower(d))),
{
}

/// Words equal up to ASCII case have the same upper-case form.
pub proof fn lemma_eq_ignore_case_upper(a: Seq<char>, b: Seq<char>)
    requires
        eq_ignore_case(a, b),
    ensures
        upper_seq(a) == upper_seq(b),
{
    assert forall|i: int| 0 <= i < a.len() implies upper(a[i]) == upper(b[i]) by {
        assert(lower(a[i]) == lower(b[i]));
        lemma_char_case(a[i], b[i]);
    };
    assert(upper_seq(a) =~= upper_seq(b));
}

/// A word's upper-case form is `k`, a word of upper-case ASCII letters,
/// exactly when the word equals `k` up to ASCII case.
pub proof fn lemma_upper_form(w: Seq<char>, k: Seq<char>)
    requires
        forall|i: int| 0 <= i < k.len() ==> 'A' <= #[trigger] k[i] <= 'Z',
    ensures
        (upper_seq(w) == k) == eq_ignore_case(w, k),
{
    if upper_seq(w) == k {
        assert forall|i: int| 0 <= i < w.len() implies lower(#[trigger] w[i]) == lower(k[i]) by {
            assert(upper_seq(w)[i] == upper(w[i]));
            lemma_char_case(w[i], k[i]);
        };
    }
    if eq_ignore_case(w, k) {
        assert forall|i: int| 0 <= i < w.len() implies upper_seq(w)[i] == k[i] by {
            assert(lower(w[i]) == lower(k[i]));
            lemma_char_case(w[i], k[i]);
        };
        assert(upper_seq(w) =~= k);
    }
}

/// The value of a sequence of decimal digits.
pub open spec fn digits_value(s: Seq<char>) -> nat
    decreases s.len(),
{
    if s.len() == 0 {
        0
    } else {
        digits_value(s.drop_last()) * 10 + ((s.last() as u32) - 48) as nat
    }
}

/// The decimal digit character for `d < 10`.
pub open spec fn digit_char(d: nat) -> char {
    ((d + 48) as u32) as char
}

/// The decimal text of a natural number.
pub open spec fn nat_text(n: nat) -> Seq<char>
    decreases n,
{
    if n < 10 {
        seq![digit_char(n)]
    } else {
        nat_text(n / 10).push(digit_char(n % 10))
    }
}

/// The decimal text of an integer (with a leading `-` when negative).
pub open spec fn int_text(i: int) -> Seq<char> {
    if i < 0 {
        seq!['-'] + nat_text((-i) as nat)
    } else {
        nat_text(i as nat)
    }
}

/// The `Debug` text of a string: the text between double quotes, with the
/// escapes that Rust's `Debug` for `str` writes (`\t`, `\r`, `\n`, `\\`,
/// `\"`, `\0`, and `\u{..}` for grapheme-extending and non-printable
/// characters). Which characters are escaped follows the Unicode tables of
/// the standard library, so the text is named here rather than spelled out.
pub uninterp spec fn quoted(text: Seq<char>) -> Seq<char>;

/// Trusted: the `Debug` text of a string, written by the standard library's
/// `<str as Debug>::fmt` (through `format!("{:?}")`). The contract claims
/// only that the result is [`quoted`] of the text: a function of the text
/// alone.
#[verifier::external_body]
fn debug_quote(text: &str) -> (q: String)
    ensures
        q@ == quoted(text@),
{
    format!("{:?}", text)
}

pub fn is_ascii_digit(c: char) -> (b: bool)
    ensures
        b == is_digit(c),
{
    '0' <= c && c <= '9'
}

/// An identifier starts with an ASCII letter or an underscore.
pub open spec fn spec_is_identifier_start(c: char) -> bool {
    is_ascii_letter(c) || c == '_'
}

/// An identifier continues with ASCII letters, digits and underscores.
pub open spec fn spec_is_identifier_part(c: char) -> bool {
    is_ascii_letter(c) || is_digit(c) || c == '_'
}

pub fn is_identifier_start(character: char) -> (b: bool)
    ensures
        b == spec_is_identifier_start(character),
{
    ('a' <= character && character <= 'z') || ('A' <= character && character <= 'Z') || character == '_'
}

pub fn is_identifier_part(character: char) -> (b: bool)
    ensures
        b == spec_is_identifier_part(character),
{
    ('a' <= character && character <= 'z') || ('A' <= character && character <= 'Z') || ('0'
        <= character && character <= '9') || character == '_'
}

pub fn is_whitespace(c: char) -> (b: bool)
    ensures
        b == is_white_space(c),
{
    let u: u32 = c as u32;
    (0x09 <= u && u <= 0x0d) || u == 0x20 || u == 0x85 || u == 0xa0 || u == 0x1680 || (0x2000 <= u
        && u <= 0x200a) || u == 0x2028 || u == 0x2029 || u == 0x202f || u == 0x205f || u == 0x3000
}

pub fn to_upper(c: char) -> (u: char)
    ensures
        u == upper(c),
{
    if 'a' <= c && c <= 'z' {
        let code: u32 = (c as u32) - 32;
        let b: u8 = code as u8;
        b as char
    } else {
        c
    }
}

pub fn to_lower(c: char) -> (l: char)
    ensures
        l == lower(c),
{
    if 'A' <= c && c <= 'Z' {
        let code: u32 = (c as u32) + 32;
        let b: u8 = code as u8;
        b as char
    } else {
        c
    }
}

/// Appends one character. Trusted: this calls `String::push`, whose
/// documentation says it appends the character to the end of the string;
/// the contract claims exactly that of the string's characters.
#[verifier::external_body]
pub fn push_char(s: &mut String, c: char)
    ensures
        final(s)@ == old(s)@.push(c),
{
    s.push(c);
}

/// Appends a string slice.
pub fn push_str(s: &mut String, t: &str)
    ensures
        final(s)@ == old(s)@ + t@,
{
    let chars = chars_of(t);
    let ghost start = s@;
    let mut i: usize = 0;
    while i < chars.len()
        invariant
            chars@ == t@,
            i <= chars.len(),
            s@ == start + t@.take(i as int),
        decreases chars.len() - i,
    {
        push_char(s, chars[i]);
        assert(t@.take(i + 1) =~= t@.take(i as int).push(t@[i as int]));
        i = i + 1;
    }
    assert(t@.take(chars.len() as int) =~= t@);
}

/// A new string holding `t`.
pub fn string_of(t: &str) -> (s: String)
    ensures
        s@ == t@,
{
    let mut s = String::new();
    push_str(&mut s, t);
    assert(s@ =~= t@);
    s
}

/// A new string holding the characters `chars[from..to]`.
pub fn string_from_chars(chars: &Vec<char>, from: usize, to: usize) -> (s: String)
    requires
        from <= to <= chars.len(),
    ensures
        s@ == chars@.subrange(from as int, to as int),
{
    let mut s = String::new();
    let mut i: usize = from;
    while i < to
        invariant
            from <= i <= to <= chars.len(),
            s@ == chars@.subrange(from as int, i as int),
        decreases to - i,
    {
        push_char(&mut s, chars[i]);
        assert(chars@.subrange(from as int, i + 1) =~= chars@.subrange(from as int, i as int).push(chars@[i as int]));
        i = i + 1;
    }
    s
}

/// Equality up to ASCII case.
pub fn eq_ignore_ascii_case(a: &str, b: &str) -> (eq: bool)
    ensures
        eq == eq_ignore_case(a@, b@),
{
    let x = chars_of(a);
    let y = chars_of(b);
    if x.len() != y.len() {
        return false;
    }
    let mut i: usize = 0;
    while i < x.len()
        invariant
            x@ == a@,
            y@ == b@,
            x.len() == y.len(),
            i <= x.len(),
            forall|k: int| 0 <= k < i ==> lower(#[trigger] a@[k]) == lower(b@[k]),
        decreases x.len() - i,
    {
        if to_lower(x[i]) != to_lower(y[i]) {
            return false;
        }
        i = i + 1;
    }
    true
}

/// `text` equals the upper-case `keyword` up to ASCII case of `text`.
pub fn upper_equals(text: &Vec<char>, keyword: &str) -> (eq: bool)
    ensures
        eq == (upper_seq(text@) == keyword@),
{
    let k = chars_of(keyword);
    if text.len() != k.len() {
        return false;
    }
    let mut i: usize = 0;
    while i < k.len()
        invariant
            k@ == keyword@,
            text.len() == k.len(),
            i <= k.len(),
            forall|j: int| 0 <= j < i ==> upper(#[trigger] text@[j]) == keyword@[j],
        decreases k.len() - i,
    {
        if to_upper(text[i]) != k[i] {
            assert(upper_seq(text@)[i as int] != keyword@[i as int]);
            return false;
        }
        i = i + 1;
    }
    assert(upper_seq(text@) =~= keyword@);
    true
}

fn digit_of(d: u64) -> (c: char)
    requires
        d < 10,
    ensures
        c == digit_char(d as nat),
{
    let b: u8 = (d as u8) + 48;
    b as char
}

/// Appends the decimal text of `n`.
pub fn push_u64_text(s: &mut String, n: u64)
    ensures
        final(s)@ == old(s)@ + nat_text(n as nat),
    decreases n,
{
    if n < 10 {
        push_char(s, digit_of(n));
        assert(nat_text(n as nat) =~= seq![digit_char(n as nat)]);
    } else {
        push_u64_text(s, n / 10);
        push_char(s, digit_of(n % 10));
        assert(nat_text(n as nat) == nat_text((n / 10) as nat).push(digit_char((n % 10) as nat)));
    }
}

/// Appends the decimal text of `i`.
pub fn push_i64_text(s: &mut String, i: i64)
    ensures
        final(s)@ == old(s)@ + int_text(i as int),
{
    if i < 0 {
        push_char(s, '-');
        let magnitude: u64 = if i == i64::MIN {
            9223372036854775808u64
        } else {
            (-i) as u64
        };
        push_u64_text(s, magnitude);
    } else {
        push_u64_text(s, i as u64);
    }
}

/// Appends the `Debug` text of a string (quotes and escapes included).
pub fn push_quoted(s: &mut String, t: &str)
    ensures
        final(s)@ == old(s)@ + quoted(t@),
{
    let q = debug_quote(t);
    push_str(s, q.as_str());
}

} // verus!
