//! The JSON tokenizer: source text to tokens with byte spans.
//!
//! Tokens carry half-open byte-offset spans into the source, as well as the
//! matching character offsets used to extract offending substrings for
//! diagnostics. A lexical problem becomes an `Error` token at the offending
//! span, never a panic.

use vstd::prelude::*;
use vstd::string::StrSliceExecFns;

verus! {

/// A lexical token of the JSON grammar.
#[derive(Debug, Clone, Copy, PartialEq, Eq, Structural)]
pub enum Token {
    /// End of input.
    EOF,
    /// Spaces and tabs.
    Whitespace,
    /// A line break.
    Newline,
    /// The `true` literal.
    True,
    /// The `false` literal.
    False,
    /// The `null` literal.
    Null,
    /// `{`
    LBrace,
    /// `}`
    RBrace,
    /// `[`
    LBrak,
    /// `]`
    RBrak,
    /// `,`
    Comma,
    /// `:`
    Colon,
    /// A string literal, quotes included.
    String,
    /// A number literal.
    Number,
    /// An unrecognized or unterminated piece of input.
    Error,
}

/// A token with its character span and byte span in the source.
#[derive(Debug, Clone, Copy)]
pub struct Lexeme {
    /// The token kind.
    pub kind: Token,
    /// Start, in characters.
    pub cs: usize,
    /// End, in characters (half-open).
    pub ce: usize,
    /// Start, in bytes.
    pub bs: usize,
    /// End, in bytes (half-open).
    pub be: usize,
}

/// The UTF-8 width of a character, by code point range.
pub open spec fn utf8_width(c: char) -> nat {
    if (c as int) < 0x80 {
        1
    } else if (c as int) < 0x800 {
        2
    } else if (c as int) < 0x10000 {
        3
    } else {
        4
    }
}

/// The UTF-8 width of a character, executable form.
fn utf8_width_exec(c: char) -> (r: usize)
    ensures
        r == utf8_width(c),
        1 <= r <= 4,
{
    if (c as u32) < 0x80 {
        1
    } else if (c as u32) < 0x800 {
        2
    } else if (c as u32) < 0x10000 {
        3
    } else {
        4
    }
}

/// All lexeme spans lie within the source and are well ordered.
pub open spec fn lexemes_ok(ls: Seq<Lexeme>, n_chars: nat) -> bool {
    forall|i: int|
        0 <= i < ls.len() ==> (#[trigger] ls[i]).cs <= ls[i].ce && ls[i].ce <= n_chars && (
        ls[i].kind is String ==> ls[i].cs + 2 <= ls[i].ce)
}

/// The characters of a string, in order.
#[verifier::loop_isolation(false)]
pub fn str_chars(s: &str) -> (r: Vec<char>)
    ensures
        r@ == s@,
{
    let n = s.unicode_len();
    let mut out: Vec<char> = Vec::new();
    let mut i: usize = 0;
    while i < n
        invariant
            i <= n,
            out@.len() == i as int,
            forall|j: int| 0 <= j < i as int ==> out@[j] == s@[j],
        decreases n - i,
    {
        let c = s.get_char(i);
        out.push(c);
        i += 1;
    }
    proof {
        assert(out@ =~= s@);
    }
    out
}

/// Whether a character is an ASCII digit.
fn is_digit(c: char) -> (r: bool)
    ensures
        r == is_digit_s(c),
{
    ('0' as u32) <= (c as u32) && (c as u32) <= ('9' as u32)
}

/// Whether a character is an ASCII letter.
fn is_letter(c: char) -> (r: bool)
    ensures
        r == is_letter_s(c),
{
    (('a' as u32) <= (c as u32) && (c as u32) <= ('z' as u32)) || (('A' as u32) <= (c as u32) && (
    c as u32) <= ('Z' as u32))
}

/// The UTF-8 byte count of a character range, summed right to left.
pub open spec fn bytes_of(chars: Seq<char>, i: int, j: int) -> int
    decreases j - i,
{
    if i >= j {
        0
    } else {
        bytes_of(chars, i, j - 1) + utf8_width(chars[j - 1])
    }
}

/// A character range takes at most four bytes per character.
pub proof fn lemma_bytes_of_bound(chars: Seq<char>, i: int, j: int)
    requires
        i <= j,
    ensures
        0 <= bytes_of(chars, i, j) <= 4 * (j - i),
    decreases j - i,
{
    if i < j {
        lemma_bytes_of_bound(chars, i, j - 1);
    }
}

/// The end of a run of spaces and tabs.
pub open spec fn ws_end(chars: Seq<char>, i: int) -> int
    decreases chars.len() - i when 0 <= i <= chars.len()
{
    if i < chars.len() && (chars[i] == ' ' || chars[i] == '\t') {
        ws_end(chars, i + 1)
    } else {
        i
    }
}

/// The end of a run of ASCII digits.
pub open spec fn digits_end(chars: Seq<char>, i: int) -> int
    decreases chars.len() - i when 0 <= i <= chars.len()
{
    if i < chars.len() && is_digit_s(chars[i]) {
        digits_end(chars, i + 1)
    } else {
        i
    }
}

/// The end of a run of ASCII letters and digits.
pub open spec fn ident_end(chars: Seq<char>, i: int) -> int
    decreases chars.len() - i when 0 <= i <= chars.len()
{
    if i < chars.len() && (is_letter_s(chars[i]) || is_digit_s(chars[i])) {
        ident_end(chars, i + 1)
    } else {
        i
    }
}

/// Whether a character is an ASCII digit, in the model.
pub open spec fn is_digit_s(c: char) -> bool {
    '0' as int <= c as int <= '9' as int
}

/// Whether a character is an ASCII letter, in the model.
pub open spec fn is_letter_s(c: char) -> bool {
    ('a' as int <= c as int <= 'z' as int) || ('A' as int <= c as int <= 'Z' as int)
}

/// Scans a string literal's body from just after the opening quote: the
/// position after the closing quote and whether one was found; a backslash
/// consumes the following character.
pub open spec fn str_scan(chars: Seq<char>, i: int) -> (int, bool)
    decreases chars.len() - i when 0 <= i <= chars.len()
{
    if i >= chars.len() {
        (i, false)
    } else if chars[i] == '"' {
        (i + 1, true)
    } else if chars[i] == '\\' {
        if i + 1 < chars.len() {
            str_scan(chars, i + 2)
        } else {
            (i + 1, false)
        }
    } else {
        str_scan(chars, i + 1)
    }
}

/// The string scan stays in bounds and moves past the closing quote.
pub proof fn lemma_str_scan(chars: Seq<char>, i: int)
    requires
        0 <= i <= chars.len(),
    ensures
        i <= str_scan(chars, i).0 <= chars.len(),
        str_scan(chars, i).1 ==> str_scan(chars, i).0 >= i + 1,
    decreases chars.len() - i,
{
    if i < chars.len() && chars[i] != '"' {
        if chars[i] == '\\' {
            if i + 1 < chars.len() {
                lemma_str_scan(chars, i + 2);
            }
        } else {
            lemma_str_scan(chars, i + 1);
        }
    }
}

/// The scans stay in bounds and never move backwards.
pub proof fn lemma_scan_bounds(chars: Seq<char>, i: int)
    requires
        0 <= i <= chars.len(),
    ensures
        i <= ws_end(chars, i) <= chars.len(),
        i <= digits_end(chars, i) <= chars.len(),
        i <= ident_end(chars, i) <= chars.len(),
    decreases chars.len() - i,
{
    if i < chars.len() {
        lemma_scan_bounds(chars, i + 1);
    }
}

/// Scans a number from its first character (a digit or minus sign): the end
/// position and whether the literal is well formed. A lone minus is one
/// ill-formed character; the integer part is `0` or a nonzero-led digit run;
/// a fraction needs a digit after the dot; an exponent needs a digit after
/// `e`/`E` and an optional sign, else it is left unconsumed.
pub open spec fn num_scan(chars: Seq<char>, i: int) -> (int, bool)
    recommends
        0 <= i < chars.len(),
{
    let i1 = if chars[i] == '-' {
        i + 1
    } else {
        i
    };
    if chars[i] == '-' && (i1 >= chars.len() || !is_digit_s(chars[i1])) {
        (i1, false)
    } else {
        let i2 = if chars[i1] == '0' {
            i1 + 1
        } else {
            digits_end(chars, i1 + 1)
        };
        let i3 = if i2 + 1 < chars.len() && chars[i2] == '.' && is_digit_s(chars[i2 + 1]) {
            digits_end(chars, i2 + 2)
        } else {
            i2
        };
        let i4 = if i3 < chars.len() && (chars[i3] == 'e' || chars[i3] == 'E') {
            let js = if i3 + 1 < chars.len() && (chars[i3 + 1] == '+' || chars[i3 + 1] == '-') {
                i3 + 2
            } else {
                i3 + 1
            };
            if js < chars.len() && is_digit_s(chars[js]) {
                digits_end(chars, js)
            } else {
                i3
            }
        } else {
            i3
        };
        (i4, true)
    }
}

/// The keyword or error classification of an identifier run.
pub open spec fn ident_kind(chars: Seq<char>, i: int, j: int) -> Token {
    if j - i == 4 && chars[i] == 't' && chars[i + 1] == 'r' && chars[i + 2] == 'u' && chars[i + 3]
        == 'e' {
        Token::True
    } else if j - i == 4 && chars[i] == 'n' && chars[i + 1] == 'u' && chars[i + 2] == 'l' && chars[i
        + 3] == 'l' {
        Token::Null
    } else if j - i == 5 && chars[i] == 'f' && chars[i + 1] == 'a' && chars[i + 2] == 'l' && chars[i
        + 3] == 's' && chars[i + 4] == 'e' {
        Token::False
    } else {
        Token::Error
    }
}

/// The next token starting at a position: its kind and end position.
pub open spec fn next_token(chars: Seq<char>, i: int) -> (Token, int)
    recommends
        0 <= i < chars.len(),
{
    let c = chars[i];
    if c == ' ' || c == '\t' {
        (Token::Whitespace, ws_end(chars, i + 1))
    } else if c == '\n' {
        (Token::Newline, i + 1)
    } else if c == '\r' {
        (Token::Newline, if i + 1 < chars.len() && chars[i + 1] == '\n' {
            i + 2
        } else {
            i + 1
        })
    } else if c == '{' {
        (Token::LBrace, i + 1)
    } else if c == '}' {
        (Token::RBrace, i + 1)
    } else if c == '[' {
        (Token::LBrak, i + 1)
    } else if c == ']' {
        (Token::RBrak, i + 1)
    } else if c == ',' {
        (Token::Comma, i + 1)
    } else if c == ':' {
        (Token::Colon, i + 1)
    } else if c == '"' {
        let (j, closed) = str_scan(chars, i + 1);
        (
            if closed {
                Token::String
            } else {
                Token::Error
            },
            j,
        )
    } else if is_letter_s(c) {
        let j = ident_end(chars, i + 1);
        (ident_kind(chars, i, j), j)
    } else if is_digit_s(c) || c == '-' {
        let (j, ok) = num_scan(chars, i);
        (
            if ok {
                Token::Number
            } else {
                Token::Error
            },
            j,
        )
    } else {
        (Token::Error, i + 1)
    }
}

/// The next token ends after its start and within the input.
pub proof fn lemma_next_token(chars: Seq<char>, i: int)
    requires
        0 <= i < chars.len(),
    ensures
        i < next_token(chars, i).1 <= chars.len(),
        next_token(chars, i).0 is String ==> next_token(chars, i).1 >= i + 2,
{
    lemma_scan_bounds(chars, i + 1);
    let c = chars[i];
    if c == '"' {
        lemma_str_scan(chars, i + 1);
    } else if !(c == ' ' || c == '\t' || c == '\n' || c == '\r' || c == '{' || c == '}' || c
        == '[' || c == ']' || c == ',' || c == ':' || is_letter_s(c)) && (is_digit_s(c) || c
        == '-') {
        let i1 = if c == '-' {
            i + 1
        } else {
            i
        };
        if !(c == '-' && (i1 >= chars.len() || !is_digit_s(chars[i1]))) {
            let i2 = if chars[i1] == '0' {
                i1 + 1
            } else {
                digits_end(chars, i1 + 1)
            };
            lemma_scan_bounds(chars, i1 + 1);
            if i2 + 1 < chars.len() && chars[i2] == '.' && is_digit_s(chars[i2 + 1]) {
                lemma_scan_bounds(chars, i2 + 2);
            }
            let i3 = if i2 + 1 < chars.len() && chars[i2] == '.' && is_digit_s(chars[i2 + 1]) {
                digits_end(chars, i2 + 2)
            } else {
                i2
            };
            if i3 < chars.len() && (chars[i3] == 'e' || chars[i3] == 'E') {
                let js = if i3 + 1 < chars.len() && (chars[i3 + 1] == '+' || chars[i3 + 1]
                    == '-') {
                    i3 + 2
                } else {
                    i3 + 1
                };
                if js < chars.len() && is_digit_s(chars[js]) {
                    lemma_scan_bounds(chars, js);
                }
            }
        }
    }
}

/// The bracket nesting depth after a token.
pub open spec fn depth_after(kind: Token, depth: int) -> int {
    match kind {
        Token::LBrace => depth + 1,
        Token::LBrak => depth + 1,
        Token::RBrace => if depth > 0 {
            depth - 1
        } else {
            depth
        },
        Token::RBrak => if depth > 0 {
            depth - 1
        } else {
            depth
        },
        _ => depth,
    }
}

/// The lexemes of the source from a position onward, with running byte
/// offset and bracket depth; lexing stops once the depth ceiling is passed.
pub open spec fn lex_s(chars: Seq<char>, i: int, depth: int, b: int) -> Seq<Lexeme>
    decreases chars.len() - i when 0 <= i <= chars.len()
{
    if i >= chars.len() || depth > 256 {
        Seq::empty()
    } else {
        proof {
            lemma_next_token(chars, i);
        }
        let (kind, j) = next_token(chars, i);
        let b2 = b + bytes_of(chars, i, j);
        let lx = Lexeme {
            kind,
            cs: i as usize,
            ce: j as usize,
            bs: b as usize,
            be: b2 as usize,
        };
        seq![lx] + lex_s(chars, j, depth_after(kind, depth), b2)
    }
}

/// The end of a run of spaces and tabs, executable form.
fn scan_ws(chars: &Vec<char>, i: usize) -> (r: usize)
    requires
        i <= chars@.len(),
    ensures
        r as int == ws_end(chars@, i as int),
        i <= r <= chars@.len(),
    decreases chars@.len() - i,
{
    if i < chars.len() && (chars[i] == ' ' || chars[i] == '\t') {
        scan_ws(chars, i + 1)
    } else {
        i
    }
}

/// The end of a run of ASCII digits, executable form.
fn scan_digits(chars: &Vec<char>, i: usize) -> (r: usize)
    requires
        i <= chars@.len(),
    ensures
        r as int == digits_end(chars@, i as int),
        i <= r <= chars@.len(),
    decreases chars@.len() - i,
{
    if i < chars.len() && is_digit(chars[i]) {
        scan_digits(chars, i + 1)
    } else {
        i
    }
}

/// The end of a run of letters and digits, executable form.
fn scan_ident(chars: &Vec<char>, i: usize) -> (r: usize)
    requires
        i <= chars@.len(),
    ensures
        r as int == ident_end(chars@, i as int),
        i <= r <= chars@.len(),
    decreases chars@.len() - i,
{
    if i < chars.len() && (is_letter(chars[i]) || is_digit(chars[i])) {
        scan_ident(chars, i + 1)
    } else {
        i
    }
}

/// Scans a string literal's body, executable form.
fn scan_string(chars: &Vec<char>, i: usize) -> (r: (usize, bool))
    requires
        i <= chars@.len(),
    ensures
        (r.0 as int, r.1) == str_scan(chars@, i as int),
        i <= r.0 <= chars@.len(),
    decreases chars@.len() - i,
{
    if i >= chars.len() {
        (i, false)
    } else if chars[i] == '"' {
        (i + 1, true)
    } else if chars[i] == '\\' {
        if i + 1 < chars.len() {
            scan_string(chars, i + 2)
        } else {
            (i + 1, false)
        }
    } else {
        scan_string(chars, i + 1)
    }
}

/// Scans a number, executable form.
fn scan_number(chars: &Vec<char>, i: usize) -> (r: (usize, bool))
    requires
        i < chars@.len(),
        chars@.len() * 4 < usize::MAX,
    ensures
        (r.0 as int, r.1) == num_scan(chars@, i as int),
        i < r.0 <= chars@.len(),
{
    let n = chars.len();
    let i1 = if chars[i] == '-' {
        i + 1
    } else {
        i
    };
    if chars[i] == '-' && (i1 >= n || !is_digit(chars[i1])) {
        return (i1, false);
    }
    let i2 = if chars[i1] == '0' {
        i1 + 1
    } else {
        scan_digits(chars, i1 + 1)
    };
    let i3 = if i2 + 1 < n && chars[i2] == '.' && is_digit(chars[i2 + 1]) {
        scan_digits(chars, i2 + 2)
    } else {
        i2
    };
    let i4 = if i3 < n && (chars[i3] == 'e' || chars[i3] == 'E') {
        let js = if i3 + 1 < n && (chars[i3 + 1] == '+' || chars[i3 + 1] == '-') {
            i3 + 2
        } else {
            i3 + 1
        };
        if js < n && is_digit(chars[js]) {
            scan_digits(chars, js)
        } else {
            i3
        }
    } else {
        i3
    };
    (i4, true)
}

/// The next token starting at a position, executable form.
fn next_token_exec(chars: &Vec<char>, i: usize) -> (r: (Token, usize))
    requires
        i < chars@.len(),
        chars@.len() * 4 < usize::MAX,
    ensures
        (r.0, r.1 as int) == next_token(chars@, i as int),
        i < r.1 <= chars@.len(),
{
    proof {
        lemma_next_token(chars@, i as int);
    }
    let n = chars.len();
    let c = chars[i];
    if c == ' ' || c == '\t' {
        (Token::Whitespace, scan_ws(chars, i + 1))
    } else if c == '\n' {
        (Token::Newline, i + 1)
    } else if c == '\r' {
        if i + 1 < n && chars[i + 1] == '\n' {
            (Token::Newline, i + 2)
        } else {
            (Token::Newline, i + 1)
        }
    } else if c == '{' {
        (Token::LBrace, i + 1)
    } else if c == '}' {
        (Token::RBrace, i + 1)
    } else if c == '[' {
        (Token::LBrak, i + 1)
    } else if c == ']' {
        (Token::RBrak, i + 1)
    } else if c == ',' {
        (Token::Comma, i + 1)
    } else if c == ':' {
        (Token::Colon, i + 1)
    } else if c == '"' {
        let (j, closed) = scan_string(chars, i + 1);
        (
            if closed {
                Token::String
            } else {
                Token::Error
            },
            j,
        )
    } else if is_letter(c) {
        let j = scan_ident(chars, i + 1);
        let len = j - i;
        let kind = if len == 4 && keyword_eq(chars, i, 't', 'r', 'u', 'e') {
            Token::True
        } else if len == 4 && keyword_eq(chars, i, 'n', 'u', 'l', 'l') {
            Token::Null
        } else if len == 5 && keyword_eq(chars, i, 'f', 'a', 'l', 's') && chars[i + 4] == 'e' {
            Token::False
        } else {
            Token::Error
        };
        (kind, j)
    } else if is_digit(c) || c == '-' {
        let (j, ok) = scan_number(chars, i);
        (
            if ok {
                Token::Number
            } else {
                Token::Error
            },
            j,
        )
    } else {
        (Token::Error, i + 1)
    }
}

/// The UTF-8 byte count of a character range, executable form.
#[verifier::loop_isolation(false)]
fn bytes_between(chars: &Vec<char>, from: usize, to: usize) -> (r: usize)
    requires
        from <= to <= chars@.len(),
        chars@.len() * 4 < usize::MAX,
    ensures
        r as int == bytes_of(chars@, from as int, to as int),
        r <= 4 * (to - from),
{
    let mut acc: usize = 0;
    let mut k = from;
    while k < to
        invariant
            from <= k <= to,
            acc as int == bytes_of(chars@, from as int, k as int),
            acc <= 4 * (k - from),
        decreases to - k,
    {
        acc += utf8_width_exec(chars[k]);
        k += 1;
    }
    acc
}

/// Tokenizes the source characters into lexemes with byte and character
/// spans: exactly the lexeme sequence of the source. Lexical problems become
/// `Error` lexemes, never failures.
#[verifier::loop_isolation(false)]
#[verifier::rlimit(100)]
pub fn lex(chars: &Vec<char>) -> (r: Vec<Lexeme>)
    requires
        chars@.len() * 4 < usize::MAX,
    ensures
        r@ == lex_s(chars@, 0, 0, 0),
        lexemes_ok(r@, chars@.len()),
{
    let n = chars.len();
    let mut out: Vec<Lexeme> = Vec::new();
    let mut i: usize = 0;
    let mut b: usize = 0;
    let mut depth: usize = 0;
    while i < n && depth <= 256
        invariant
            i <= n,
            b <= i * 4,
            depth <= 257,
            lexemes_ok(out@, chars@.len()),
            lex_s(chars@, 0, 0, 0) =~= out@ + lex_s(chars@, i as int, depth as int, b as int),
        decreases n - i,
    {
        let (kind, end) = next_token_exec(chars, i);
        let width = bytes_between(chars, i, end);
        proof {
            lemma_next_token(chars@, i as int);
            lemma_bytes_of_bound(chars@, i as int, end as int);
        }
        let lexeme = Lexeme { kind, cs: i, ce: end, bs: b, be: b + width };
        let ghost before = out@;
        out.push(lexeme);
        proof {
            assert(before + lex_s(chars@, i as int, depth as int, b as int) =~= out@ + lex_s(
                chars@,
                end as int,
                depth_after(kind, depth as int),
                b as int + width,
            ));
        }
        depth = match kind {
            Token::LBrace | Token::LBrak => depth + 1,
            Token::RBrace | Token::RBrak => {
                if depth > 0 {
                    depth - 1
                } else {
                    depth
                }
            },
            _ => depth,
        };
        b += width;
        i = end;
    }
    proof {
        assert(lex_s(chars@, i as int, depth as int, b as int) =~= Seq::<Lexeme>::empty());
        assert(out@ + Seq::<Lexeme>::empty() =~= out@);
    }
    out
}

/// Whether four consecutive characters match the given ones.
fn keyword_eq(chars: &Vec<char>, at: usize, c0: char, c1: char, c2: char, c3: char) -> (r: bool)
    requires
        at + 4 <= chars@.len(),
    ensures
        r == (chars@[at as int] == c0 && chars@[at as int + 1] == c1 && chars@[at as int + 2] == c2
            && chars@[at as int + 3] == c3),
{
    let n = chars.len();
    chars[at] == c0 && chars[at + 1] == c1 && chars[at + 2] == c2 && chars[at + 3] == c3
}

/// Tokenizes source text: the tokens and their byte spans.
pub fn tokenize(source: &str) -> (r: (Vec<Token>, Vec<(usize, usize)>))
    requires
        source@.len() * 4 < usize::MAX,
    ensures
        r.0@.len() == r.1@.len(),
{
    let chars = str_chars(source);
    let lexemes = lex(&chars);
    let mut tokens: Vec<Token> = Vec::new();
    let mut spans: Vec<(usize, usize)> = Vec::new();
    let mut i: usize = 0;
    #[verifier::loop_isolation(false)]
    while i < lexemes.len()
        invariant
            tokens@.len() == spans@.len(),
            i <= lexemes.len(),
        decreases lexemes.len() - i,
    {
        let l = lexemes[i];
        tokens.push(l.kind);
        spans.push((l.bs, l.be));
        i += 1;
    }
    (tokens, spans)
}

} // verus!

verus! {

/// The kind of a lexical failure.
#[derive(Debug, Clone, Copy, PartialEq, Eq, Structural)]
pub enum LexerError {
    /// An unrecognized token.
    Invalid,
    /// A string literal with no closing quote.
    UnterminatedString,
}

/// Classifies an `Error` lexeme: a stretch opening with a quote is an
/// unterminated string, anything else an invalid token.
pub fn error_kind(l: &Lexeme, chars: &Vec<char>) -> (r: Option<LexerError>)
    ensures
        r is Some <==> l.kind is Error,
        r matches Some(k) ==> (l.cs < chars@.len() && chars@[l.cs as int] == '"' <==> k
            is UnterminatedString),
{
    if !matches!(l.kind, Token::Error) {
        return None;
    }
    if l.cs < chars.len() && chars[l.cs] == '"' {
        Some(LexerError::UnterminatedString)
    } else {
        Some(LexerError::Invalid)
    }
}

impl LexerError {
    /// The message text of this lexical failure.
    pub fn message(&self) -> (r: String)
        ensures
            self is Invalid ==> r@ == "invalid token"@,
            self is UnterminatedString ==> r@ == "unterminated string"@,
    {
        match self {
            LexerError::Invalid => "invalid token".to_owned(),
            LexerError::UnterminatedString => "unterminated string".to_owned(),
        }
    }
}

} // verus!
