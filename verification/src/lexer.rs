//! The lexer: source text to tokens, by longest match.
//!
//! At each position the lexer takes the longest piece of input that some token
//! rule (or the rule for blanks and `%%` comments) accepts; where a keyword and
//! an identifier accept the same piece, the keyword wins.  Those are the only
//! two rules that ever accept the same piece, so each rule is given a distinct
//! priority below and the choice is always unique.

use vstd::prelude::*;
use crate::error::CustomError;
use crate::text::{chars_of, string_of};
use crate::token::Token;
use vstd::string::StringSliceAdditionalSpecFns;

verus! {

/// The two variants of the token rules.  `Standard` accepts negative number
/// literals (`-?[0-9]+`, `-?[0-9]*\.[0-9]+`) and any character but a quote in
/// a character literal; `Basic` accepts only unsigned numbers and letters in
/// character literals.
#[derive(Debug, PartialEq, Eq, Structural, Clone, Copy)]
pub enum Dialect {
    Standard,
    Basic,
}

/// The rules a piece of input can match.
#[derive(Debug, PartialEq, Eq, Structural, Clone, Copy)]
pub enum Rule {
    Fixed,
    Skip,
    Integer,
    Float,
    Identifier,
    Char,
    Str,
}

pub open spec fn is_digit(c: char) -> bool {
    '0' <= c && c <= '9'
}

pub open spec fn is_upper(c: char) -> bool {
    'A' <= c && c <= 'Z'
}

pub open spec fn is_lower(c: char) -> bool {
    'a' <= c && c <= 'z'
}

pub open spec fn is_alnum(c: char) -> bool {
    is_digit(c) || is_upper(c) || is_lower(c)
}

pub open spec fn is_blank(c: char) -> bool {
    c == ' ' || c == '\n' || c == '\t' || c == '\x0c'
}

pub open spec fn all_digits(w: Seq<char>) -> bool {
    forall|k: int| 0 <= k < w.len() ==> #[trigger] is_digit(w[k])
}

/// Blanks (`[ \n\t\f]+`) or a comment (`%%[^\n]*`).
pub open spec fn is_skip_lexeme(w: Seq<char>) -> bool {
    &&& w.len() > 0
    &&& (forall|k: int| 0 <= k < w.len() ==> #[trigger] is_blank(w[k]))
        || (w.len() >= 2 && w[0] == '%' && w[1] == '%' && forall|k: int|
        2 <= k < w.len() ==> #[trigger] w[k] != '\n')
}

/// The lexeme without its leading minus sign, where the dialect allows one.
pub open spec fn unsigned_part(d: Dialect, w: Seq<char>) -> Seq<char> {
    if d == Dialect::Standard && w.len() > 0 && w[0] == '-' {
        w.drop_first()
    } else {
        w
    }
}

pub open spec fn is_integer_lexeme(d: Dialect, w: Seq<char>) -> bool {
    let u = unsigned_part(d, w);
    u.len() > 0 && all_digits(u)
}

pub open spec fn is_float_lexeme(d: Dialect, w: Seq<char>) -> bool {
    let u = unsigned_part(d, w);
    exists|p: int|
        0 <= p < u.len() - 1 && #[trigger] u[p] == '.' && all_digits(u.take(p)) && all_digits(
            u.skip(p + 1),
        )
}

pub open spec fn is_identifier_lexeme(w: Seq<char>) -> bool {
    w.len() > 0 && is_upper(w[0]) && forall|k: int| 1 <= k < w.len() ==> #[trigger] is_alnum(w[k])
}

pub open spec fn is_char_lexeme(d: Dialect, w: Seq<char>) -> bool {
    &&& w.len() == 3
    &&& w[0] == '\''
    &&& w[2] == '\''
    &&& if d == Dialect::Standard {
        w[1] != '\''
    } else {
        is_upper(w[1]) || is_lower(w[1])
    }
}

/// The inside of a string literal: `(?:[^"\\]|\\.)*`, where `.` is any
/// character but a newline.
pub open spec fn is_string_body(b: Seq<char>) -> bool
    decreases b.len(),
{
    if b.len() == 0 {
        true
    } else if b[0] == '"' {
        false
    } else if b[0] == '\\' {
        b.len() >= 2 && b[1] != '\n' && is_string_body(b.subrange(2, b.len() as int))
    } else {
        is_string_body(b.subrange(1, b.len() as int))
    }
}

pub open spec fn is_string_lexeme(w: Seq<char>) -> bool {
    &&& w.len() >= 2
    &&& w[0] == '"'
    &&& w[w.len() - 1] == '"'
    &&& is_string_body(w.subrange(1, w.len() - 1))
}

/// The punctuation and operator tokens, by their text.
pub open spec fn symbol_token(w: Seq<char>) -> Option<Token> {
    if w.len() == 1 {
        let c = w[0];
        if c == '+' {
            Some(Token::Plus)
        } else if c == '-' {
            Some(Token::Minus)
        } else if c == '*' {
            Some(Token::Multiply)
        } else if c == '/' {
            Some(Token::Divide)
        } else if c == '!' {
            Some(Token::Not)
        } else if c == '>' {
            Some(Token::GreaterThan)
        } else if c == '<' {
            Some(Token::LessThan)
        } else if c == '=' {
            Some(Token::Assign)
        } else if c == ';' {
            Some(Token::Semicolon)
        } else if c == '{' {
            Some(Token::OpenBrace)
        } else if c == '}' {
            Some(Token::CloseBrace)
        } else if c == '(' {
            Some(Token::OpenParen)
        } else if c == ')' {
            Some(Token::CloseParen)
        } else if c == ',' {
            Some(Token::Comma)
        } else if c == ':' {
            Some(Token::Colon)
        } else if c == '[' {
            Some(Token::OpenBracket)
        } else if c == ']' {
            Some(Token::CloseBracket)
        } else {
            None
        }
    } else if w.len() == 2 {
        let (a, b) = (w[0], w[1]);
        if a == '&' && b == '&' {
            Some(Token::And)
        } else if a == '|' && b == '|' {
            Some(Token::Or)
        } else if a == '>' && b == '=' {
            Some(Token::GreaterEqual)
        } else if a == '<' && b == '=' {
            Some(Token::LessEqual)
        } else if a == '=' && b == '=' {
            Some(Token::Equal)
        } else if a == '!' && b == '=' {
            Some(Token::NotEqual)
        } else {
            None
        }
    } else {
        None
    }
}

/// The keyword tokens, by their text.
pub open spec fn keyword_token(w: Seq<char>) -> Option<Token> {
    if w =~= seq!['V', 'A', 'R', '_', 'G', 'L', 'O', 'B', 'A', 'L'] {
        Some(Token::VarGlobal)
    } else if w =~= seq!['D', 'E', 'C', 'L', 'A', 'R', 'A', 'T', 'I', 'O', 'N'] {
        Some(Token::Declaration)
    } else if w =~= seq!['I', 'N', 'S', 'T', 'R', 'U', 'C', 'T', 'I', 'O', 'N'] {
        Some(Token::Instruction)
    } else if w =~= seq!['C', 'O', 'N', 'S', 'T'] {
        Some(Token::Const)
    } else if w =~= seq!['R', 'E', 'A', 'D'] {
        Some(Token::Read)
    } else if w =~= seq!['W', 'R', 'I', 'T', 'E'] {
        Some(Token::Write)
    } else if w =~= seq!['I', 'F'] {
        Some(Token::If)
    } else if w =~= seq!['E', 'L', 'S', 'E'] {
        Some(Token::Else)
    } else if w =~= seq!['F', 'O', 'R'] {
        Some(Token::For)
    } else if w =~= seq!['I', 'N', 'T', 'E', 'G', 'E', 'R'] {
        Some(Token::IntegerType)
    } else if w =~= seq!['F', 'L', 'O', 'A', 'T'] {
        Some(Token::FloatType)
    } else if w =~= seq!['C', 'H', 'A', 'R'] {
        Some(Token::CharType)
    } else {
        None
    }
}

/// The tokens spelled by a fixed text.
pub open spec fn fixed_token(w: Seq<char>) -> Option<Token> {
    match symbol_token(w) {
        Some(t) => Some(t),
        None => keyword_token(w),
    }
}

pub open spec fn rule_matches(d: Dialect, r: Rule, w: Seq<char>) -> bool {
    match r {
        Rule::Fixed => fixed_token(w) is Some,
        Rule::Skip => is_skip_lexeme(w),
        Rule::Integer => is_integer_lexeme(d, w),
        Rule::Float => is_float_lexeme(d, w),
        Rule::Identifier => is_identifier_lexeme(w),
        Rule::Char => is_char_lexeme(d, w),
        Rule::Str => is_string_lexeme(w),
    }
}

/// Tie-break between rules that accept a piece of the same length: higher wins.
pub open spec fn priority(r: Rule) -> int {
    match r {
        Rule::Fixed => 6,
        Rule::Integer => 5,
        Rule::Float => 4,
        Rule::Char => 3,
        Rule::Skip => 2,
        Rule::Identifier => 1,
        Rule::Str => 0,
    }
}

pub open spec fn matches_at(d: Dialect, s: Seq<char>, i: int, r: Rule, n: int) -> bool {
    0 < n && 0 <= i && i + n <= s.len() && rule_matches(d, r, s.subrange(i, i + n))
}

/// `(r, n)` is the match at `i`: rule `r` accepts the `n` characters from `i`,
/// and every other match there is shorter, or as long with a lower priority.
pub open spec fn is_longest(d: Dialect, s: Seq<char>, i: int, r: Rule, n: int) -> bool {
    &&& matches_at(d, s, i, r, n)
    &&& forall|r2: Rule, n2: int|
        #[trigger] matches_at(d, s, i, r2, n2) && !(r2 == r && n2 == n) ==> n2 < n || (n2 == n
            && priority(r2) < priority(r))
}

/// The rule and length of the match at `i`, if any rule matches there.
pub open spec fn longest_match(d: Dialect, s: Seq<char>, i: int) -> Option<(Rule, int)> {
    if exists|r: Rule, n: int| is_longest(d, s, i, r, n) {
        Some(choose|r: Rule, n: int| is_longest(d, s, i, r, n))
    } else {
        None
    }
}

/// The value of a string of decimal digits.
pub open spec fn decimal(ds: Seq<char>) -> nat
    decreases ds.len(),
{
    if ds.len() == 0 {
        0
    } else {
        decimal(ds.drop_last()) * 10 + (ds.last() as nat - '0' as nat) as nat
    }
}

/// The value an integer literal denotes.
pub open spec fn integer_value(d: Dialect, w: Seq<char>) -> int {
    let u = unsigned_part(d, w);
    if u.len() < w.len() {
        -decimal(u)
    } else {
        decimal(u) as int
    }
}

pub open spec fn fits_i16(v: int) -> bool {
    -32768 <= v && v <= 32767
}

/// The longest identifier the language accepts.
pub open spec fn max_identifier_len() -> nat {
    8
}

/// Whether the piece matched by `r` makes a token (it does unless it is a
/// blank or comment, an identifier longer than eight characters, or an integer
/// out of the range of `i16`).
pub open spec fn makes_token(d: Dialect, r: Rule, w: Seq<char>) -> bool {
    match r {
        Rule::Skip => false,
        Rule::Integer => fits_i16(integer_value(d, w)),
        Rule::Identifier => w.len() <= max_identifier_len(),
        _ => true,
    }
}

/// `t` is the token made from the piece `w` matched by `r`.
pub open spec fn denotes(d: Dialect, r: Rule, w: Seq<char>, t: Token) -> bool {
    match r {
        Rule::Fixed => fixed_token(w) == Some(t),
        Rule::Skip => false,
        Rule::Integer => fits_i16(integer_value(d, w)) && t == Token::Integer(
            integer_value(d, w) as i16,
        ),
        Rule::Float => t matches Token::Float(x) && x@ == w,
        Rule::Identifier => w.len() <= max_identifier_len() && (t matches Token::Identifier(x)
            && x@ == w),
        Rule::Char => t == Token::Char(w[1]),
        Rule::Str => t matches Token::StringLiteral(x) && x@ == w,
    }
}

/// `e` is the error reported for the piece `w` matched by `r` at `pos`.
pub open spec fn rejects(d: Dialect, r: Rule, w: Seq<char>, pos: (usize, usize), e: CustomError) -> bool {
    match r {
        Rule::Integer => !fits_i16(integer_value(d, w)) && (e matches CustomError::IntegerOverflow(
            x,
            p,
        ) && x@ == w && p == pos),
        Rule::Identifier => w.len() > max_identifier_len() && (
        e matches CustomError::IdentifierTooLong(x, p) && x@ == w && p == pos),
        _ => false,
    }
}

/// Line and column after reading `w` from line `line`, column `col`.
pub open spec fn advance(line: nat, col: nat, w: Seq<char>) -> (nat, nat)
    decreases w.len(),
{
    if w.len() == 0 {
        (line, col)
    } else {
        let (l, c) = advance(line, col, w.drop_last());
        if w.last() == '\n' {
            (l + 1, 1)
        } else {
            (l, c + 1)
        }
    }
}

/// Line and column (from 1) of position `i` of `s`.
pub open spec fn position_of(s: Seq<char>, i: int) -> (nat, nat) {
    advance(1, 1, s.take(i))
}

pub open spec fn as_pos(p: (nat, nat)) -> (usize, usize) {
    (p.0 as usize, p.1 as usize)
}

/// `toks` is what the lexer makes of `s` from position `i` on, when it meets
/// no error.
pub open spec fn lexes(d: Dialect, s: Seq<char>, i: int, toks: Seq<crate::token::SpannedToken>) -> bool
    decreases s.len() - i,
{
    if i < 0 || i >= s.len() {
        toks.len() == 0
    } else {
        match longest_match(d, s, i) {
            None => false,
            Some((r, n)) => {
                if n <= 0 {
                    false
                } else if r == Rule::Skip {
                    lexes(d, s, i + n, toks)
                } else {
                    &&& toks.len() > 0
                    &&& denotes(d, r, s.subrange(i, i + n), toks[0].token)
                    &&& (toks[0].line, toks[0].column) == as_pos(position_of(s, i))
                    &&& lexes(d, s, i + n, toks.drop_first())
                }
            },
        }
    }
}

/// `e` is the first error the lexer meets in `s` from position `i` on.
pub open spec fn lex_fails(d: Dialect, s: Seq<char>, i: int, e: CustomError) -> bool
    decreases s.len() - i,
{
    if i < 0 || i >= s.len() {
        false
    } else {
        match longest_match(d, s, i) {
            None => e == CustomError::UnrecognizedToken(as_pos(position_of(s, i))),
            Some((r, n)) => {
                if n <= 0 {
                    false
                } else if r == Rule::Skip || makes_token(d, r, s.subrange(i, i + n)) {
                    lex_fails(d, s, i + n, e)
                } else {
                    rejects(d, r, s.subrange(i, i + n), as_pos(position_of(s, i)), e)
                }
            },
        }
    }
}

} // verus!

verus! {

/// End of the run of characters satisfying `pred` that starts at `from`.
fn run_end_blank(s: &Vec<char>, from: usize) -> (r: usize)
    requires
        from <= s@.len(),
    ensures
        from <= r <= s@.len(),
        forall|k: int| from <= k < r ==> #[trigger] is_blank(s@[k]),
        r < s@.len() ==> !is_blank(s@[r as int]),
{
    let mut r = from;
    while r < s.len() && (s[r] == ' ' || s[r] == '\n' || s[r] == '\t' || s[r] == '\x0c')
        invariant
            from <= r <= s@.len(),
            forall|k: int| from <= k < r ==> #[trigger] is_blank(s@[k]),
        decreases s@.len() - r,
    {
        r = r + 1;
    }
    r
}

fn run_end_digit(s: &Vec<char>, from: usize) -> (r: usize)
    requires
        from <= s@.len(),
    ensures
        from <= r <= s@.len(),
        forall|k: int| from <= k < r ==> #[trigger] is_digit(s@[k]),
        r < s@.len() ==> !is_digit(s@[r as int]),
{
    let mut r = from;
    while r < s.len() && ('0' <= s[r] && s[r] <= '9')
        invariant
            from <= r <= s@.len(),
            forall|k: int| from <= k < r ==> #[trigger] is_digit(s@[k]),
        decreases s@.len() - r,
    {
        r = r + 1;
    }
    r
}

fn run_end_alnum(s: &Vec<char>, from: usize) -> (r: usize)
    requires
        from <= s@.len(),
    ensures
        from <= r <= s@.len(),
        forall|k: int| from <= k < r ==> #[trigger] is_alnum(s@[k]),
        r < s@.len() ==> !is_alnum(s@[r as int]),
{
    let mut r = from;
    while r < s.len() && (('0' <= s[r] && s[r] <= '9') || ('A' <= s[r] && s[r] <= 'Z') || ('a'
        <= s[r] && s[r] <= 'z'))
        invariant
            from <= r <= s@.len(),
            forall|k: int| from <= k < r ==> #[trigger] is_alnum(s@[k]),
        decreases s@.len() - r,
    {
        r = r + 1;
    }
    r
}

fn run_end_line(s: &Vec<char>, from: usize) -> (r: usize)
    requires
        from <= s@.len(),
    ensures
        from <= r <= s@.len(),
        forall|k: int| from <= k < r ==> #[trigger] s@[k] != '\n',
        r < s@.len() ==> s@[r as int] == '\n',
{
    let mut r = from;
    while r < s.len() && s[r] != '\n'
        invariant
            from <= r <= s@.len(),
            forall|k: int| from <= k < r ==> #[trigger] s@[k] != '\n',
        decreases s@.len() - r,
    {
        r = r + 1;
    }
    r
}

/// Length of the longest blank or comment piece at `i` (0 when there is none).
fn skip_len(d: Dialect, s: &Vec<char>, i: usize) -> (len: usize)
    requires
        i < s@.len(),
    ensures
        i + len <= s@.len(),
        len > 0 ==> matches_at(d, s@, i as int, Rule::Skip, len as int),
        forall|n2: int| #[trigger] matches_at(d, s@, i as int, Rule::Skip, n2) ==> n2 <= len,
{
    let n = s.len();
    let c = s[i];
    if c == ' ' || c == '\n' || c == '\t' || c == '\x0c' {
        let r = run_end_blank(s, i);
        let len = r - i;
        assert(is_skip_lexeme(s@.subrange(i as int, r as int))) by {
            assert forall|k: int| 0 <= k < len implies #[trigger] is_blank(
                s@.subrange(i as int, r as int)[k],
            ) by {
                assert(is_blank(s@[i + k]));
            }
        }
        assert forall|n2: int| #[trigger] matches_at(d, s@, i as int, Rule::Skip, n2) implies n2
            <= len by {
            let w = s@.subrange(i as int, i + n2);
            if n2 > len {
                assert(w[len as int] == s@[r as int]);
                assert(w[0] == c);
            }
        }
        len
    } else if c == '%' && i + 1 < n && s[i + 1] == '%' {
        let r = run_end_line(s, i + 2);
        let len = r - i;
        assert(is_skip_lexeme(s@.subrange(i as int, r as int))) by {
            let w = s@.subrange(i as int, r as int);
            assert forall|k: int| 2 <= k < w.len() implies #[trigger] w[k] != '\n' by {
                assert(w[k] == s@[i + k]);
            }
        }
        assert forall|n2: int| #[trigger] matches_at(d, s@, i as int, Rule::Skip, n2) implies n2
            <= len by {
            let w = s@.subrange(i as int, i + n2);
            if n2 > len {
                assert(w[len as int] == s@[r as int]);
                assert(w[0] == c);
                assert(!is_blank(w[0]));
            }
        }
        len
    } else {
        assert forall|n2: int| #[trigger] matches_at(d, s@, i as int, Rule::Skip, n2) implies n2
            <= 0 by {
            let w = s@.subrange(i as int, i + n2);
            assert(w[0] == c);
            if n2 >= 2 {
                assert(w[1] == s@[i + 1]);
            }
            assert(!is_blank(w[0]));
        }
        0
    }
}

/// Length of the longest identifier-shaped piece at `i` (0 when there is none).
fn identifier_len(d: Dialect, s: &Vec<char>, i: usize) -> (len: usize)
    requires
        i < s@.len(),
    ensures
        i + len <= s@.len(),
        len > 0 ==> matches_at(d, s@, i as int, Rule::Identifier, len as int),
        forall|n2: int| #[trigger] matches_at(d, s@, i as int, Rule::Identifier, n2) ==> n2 <= len,
{
    let n = s.len();
    let c = s[i];
    if 'A' <= c && c <= 'Z' {
        let r = run_end_alnum(s, i + 1);
        let len = r - i;
        assert(is_identifier_lexeme(s@.subrange(i as int, r as int))) by {
            let w = s@.subrange(i as int, r as int);
            assert forall|k: int| 1 <= k < w.len() implies #[trigger] is_alnum(w[k]) by {
                assert(w[k] == s@[i + k]);
            }
        }
        assert forall|n2: int| #[trigger] matches_at(d, s@, i as int, Rule::Identifier, n2) implies n2
            <= len by {
            let w = s@.subrange(i as int, i + n2);
            if n2 > len {
                assert(w[len as int] == s@[r as int]);
            }
        }
        len
    } else {
        assert forall|n2: int| #[trigger] matches_at(d, s@, i as int, Rule::Identifier, n2) implies n2
            <= 0 by {
            let w = s@.subrange(i as int, i + n2);
            assert(w[0] == c);
        }
        0
    }
}

/// Length of the character literal at `i` (0 when there is none).
fn char_len(d: Dialect, s: &Vec<char>, i: usize) -> (len: usize)
    requires
        i < s@.len(),
    ensures
        i + len <= s@.len(),
        len > 0 ==> matches_at(d, s@, i as int, Rule::Char, len as int),
        forall|n2: int| #[trigger] matches_at(d, s@, i as int, Rule::Char, n2) ==> n2 <= len,
{
    let n = s.len();
    if n - i > 2 && s[i] == '\'' && s[i + 2] == '\'' {
        let m = s[i + 1];
        let ok = match d {
            Dialect::Standard => m != '\'',
            Dialect::Basic => ('A' <= m && m <= 'Z') || ('a' <= m && m <= 'z'),
        };
        let ghost w = s@.subrange(i as int, i + 3);
        assert(w[0] == s@[i as int] && w[1] == m && w[2] == s@[i + 2]);
        if ok {
            3
        } else {
            0
        }
    } else {
        assert forall|n2: int| #[trigger] matches_at(d, s@, i as int, Rule::Char, n2) implies n2
            <= 0 by {
            let w = s@.subrange(i as int, i + n2);
            if n2 == 3 {
                assert(w[0] == s@[i as int] && w[2] == s@[i + 2]);
            }
        }
        0
    }
}

} // verus!

verus! {

/// Where the digits of a number literal at `i` start (after a minus sign the
/// dialect allows).
fn number_start(d: Dialect, s: &Vec<char>, i: usize) -> (start: usize)
    requires
        i < s@.len(),
    ensures
        i <= start <= i + 1,
        start <= s@.len(),
        forall|e: int|
            i < e <= s@.len() ==> #[trigger] unsigned_part(d, s@.subrange(i as int, e))
                =~= s@.subrange(start as int, e),
{
    let n = s.len();
    if d == Dialect::Standard && s[i] == '-' {
        assert forall|e: int|
            i < e <= s@.len() implies #[trigger] unsigned_part(
            d,
            s@.subrange(i as int, e),
        ) =~= s@.subrange(i + 1, e) by {
            assert(s@.subrange(i as int, e)[0] == s@[i as int]);
        }
        i + 1
    } else {
        assert forall|e: int|
            i < e <= s@.len() implies #[trigger] unsigned_part(
            d,
            s@.subrange(i as int, e),
        ) =~= s@.subrange(i as int, e) by {
            assert(s@.subrange(i as int, e)[0] == s@[i as int]);
        }
        i
    }
}

/// Length of the longest integer literal at `i` (0 when there is none).
fn integer_len(d: Dialect, s: &Vec<char>, i: usize) -> (len: usize)
    requires
        i < s@.len(),
    ensures
        i + len <= s@.len(),
        len > 0 ==> matches_at(d, s@, i as int, Rule::Integer, len as int),
        forall|n2: int| #[trigger] matches_at(d, s@, i as int, Rule::Integer, n2) ==> n2 <= len,
{
    let start = number_start(d, s, i);
    let r = run_end_digit(s, start);
    assert forall|n2: int| #[trigger] matches_at(d, s@, i as int, Rule::Integer, n2) implies n2
        <= (if r > start { r - i } else { 0 }) by {
        let u = unsigned_part(d, s@.subrange(i as int, i + n2));
        assert(u =~= s@.subrange(start as int, i + n2));
        if r == start {
            assert(is_digit(u[0]));
            assert(u[0] == s@[start as int]);
        } else if i + n2 > r {
            assert(is_digit(u[r - start]));
            assert(u[r - start] == s@[r as int]);
        }
    }
    if r > start {
        assert(is_integer_lexeme(d, s@.subrange(i as int, r as int))) by {
            let u = unsigned_part(d, s@.subrange(i as int, r as int));
            assert(u =~= s@.subrange(start as int, r as int));
            assert forall|k: int| 0 <= k < u.len() implies #[trigger] is_digit(u[k]) by {
                assert(u[k] == s@[start + k]);
            }
        }
        r - i
    } else {
        0
    }
}

/// Length of the longest float literal at `i` (0 when there is none).
fn float_len(d: Dialect, s: &Vec<char>, i: usize) -> (len: usize)
    requires
        i < s@.len(),
    ensures
        i + len <= s@.len(),
        len > 0 ==> matches_at(d, s@, i as int, Rule::Float, len as int),
        forall|n2: int| #[trigger] matches_at(d, s@, i as int, Rule::Float, n2) ==> n2 <= len,
{
    let n = s.len();
    let start = number_start(d, s, i);
    let a = run_end_digit(s, start);
    let b = if a < n && s[a] == '.' {
        run_end_digit(s, a + 1)
    } else {
        a
    };
    let len = if a < n && s[a] == '.' && b > a + 1 {
        b - i
    } else {
        0
    };
    assert forall|n2: int| #[trigger] matches_at(d, s@, i as int, Rule::Float, n2) implies n2
        <= len by {
        let u = unsigned_part(d, s@.subrange(i as int, i + n2));
        assert(u =~= s@.subrange(start as int, i + n2));
        let p = choose|p: int|
            0 <= p < u.len() - 1 && #[trigger] u[p] == '.' && all_digits(u.take(p)) && all_digits(
                u.skip(p + 1),
            );
        if p < a - start {
            assert(u[p] == s@[start + p]);
            assert(is_digit(s@[start + p]));
        } else if p > a - start {
            assert(u.take(p)[a - start] == s@[a as int]);
            assert(is_digit(u.take(p)[a - start]));
        } else {
            assert(u[p] == s@[a as int]);
            assert(u.skip(p + 1)[0] == s@[a + 1]);
            assert(is_digit(u.skip(p + 1)[0]));
            if i + n2 > b {
                assert(u.skip(p + 1)[b - a - 1] == s@[b as int]);
                assert(is_digit(u.skip(p + 1)[b - a - 1]));
            }
        }
    }
    if len > 0 {
        assert(is_float_lexeme(d, s@.subrange(i as int, b as int))) by {
            let u = unsigned_part(d, s@.subrange(i as int, b as int));
            assert(u =~= s@.subrange(start as int, b as int));
            let p = a - start;
            assert(u[p] == '.');
            assert forall|k: int| 0 <= k < u.take(p).len() implies #[trigger] is_digit(u.take(p)[k]) by {
                assert(u.take(p)[k] == s@[start + k]);
            }
            assert forall|k: int| 0 <= k < u.skip(p + 1).len() implies #[trigger] is_digit(
                u.skip(p + 1)[k],
            ) by {
                assert(u.skip(p + 1)[k] == s@[a + 1 + k]);
            }
        }
    }
    len
}

} // verus!

verus! {

proof fn lemma_body_concat(a: Seq<char>, b: Seq<char>)
    requires
        is_string_body(a),
        is_string_body(b),
    ensures
        is_string_body(a + b),
    decreases a.len(),
{
    if a.len() == 0 {
        assert(a + b =~= b);
    } else if a[0] == '\\' {
        let a2 = a.subrange(2, a.len() as int);
        lemma_body_concat(a2, b);
        assert((a + b).subrange(2, (a + b).len() as int) =~= a2 + b);
    } else {
        let a1 = a.subrange(1, a.len() as int);
        lemma_body_concat(a1, b);
        assert((a + b).subrange(1, (a + b).len() as int) =~= a1 + b);
    }
}

/// Length of the string literal at `i` (0 when there is none).
fn string_len(d: Dialect, s: &Vec<char>, i: usize) -> (len: usize)
    requires
        i < s@.len(),
    ensures
        i + len <= s@.len(),
        len > 0 ==> matches_at(d, s@, i as int, Rule::Str, len as int),
        forall|n2: int| #[trigger] matches_at(d, s@, i as int, Rule::Str, n2) ==> n2 <= len,
{
    let n = s.len();
    if s[i] != '"' {
        assert forall|n2: int| #[trigger] matches_at(d, s@, i as int, Rule::Str, n2) implies n2
            <= 0 by {
            assert(s@.subrange(i as int, i + n2)[0] == s@[i as int]);
        }
        return 0;
    }
    // Every `e` that could close a literal opened at `i`.
    assert forall|n2: int| #[trigger] matches_at(d, s@, i as int, Rule::Str, n2) implies {
        let e = i + n2 - 1;
        &&& i + 1 <= e < s@.len()
        &&& s@[e] == '"'
        &&& is_string_body(s@.subrange(i + 1, e))
    } by {
        let w = s@.subrange(i as int, i + n2);
        assert(w[w.len() - 1] == s@[i + n2 - 1]);
        assert(w.subrange(1, w.len() - 1) =~= s@.subrange(i + 1, i + n2 - 1));
    }
    let mut j = i + 1;
    assert(s@.subrange(i + 1, j as int) =~= Seq::<char>::empty());
    while j < n
        invariant
            n == s@.len(),
            i < s@.len(),
            s@[i as int] == '"',
            i + 1 <= j <= n,
            is_string_body(s@.subrange(i + 1, j as int)),
            forall|e: int|
                i + 1 <= e < n && #[trigger] s@[e] == '"' && is_string_body(s@.subrange(i + 1, e))
                    ==> j <= e && is_string_body(s@.subrange(j as int, e)),
            forall|n2: int| #[trigger] matches_at(d, s@, i as int, Rule::Str, n2) ==> {
                let e = i + n2 - 1;
                &&& i + 1 <= e < s@.len()
                &&& s@[e] == '"'
                &&& is_string_body(s@.subrange(i + 1, e))
            },
        decreases n - j,
    {
        let c = s[j];
        if c == '"' {
            let len = j + 1 - i;
            assert(matches_at(d, s@, i as int, Rule::Str, len as int)) by {
                let w = s@.subrange(i as int, j + 1);
                assert(w.subrange(1, w.len() - 1) =~= s@.subrange(i + 1, j as int));
                assert(w[0] == s@[i as int]);
                assert(w[w.len() - 1] == s@[j as int]);
            }
            assert forall|n2: int| #[trigger] matches_at(d, s@, i as int, Rule::Str, n2) implies n2
                <= len by {
                let e = i + n2 - 1;
                assert(s@[e] == '"');
                if e > j {
                    assert(s@.subrange(j as int, e)[0] == c);
                }
            }
            return len;
        } else if c == '\\' {
            if j + 1 < n && s[j + 1] != '\n' {
                proof {
                    let chunk = s@.subrange(j as int, j + 2);
                    assert(chunk.subrange(2, 2) =~= Seq::<char>::empty());
                    assert(is_string_body(chunk.subrange(2, 2)));
                    assert(chunk[0] == c && chunk[1] == s@[j + 1]);
                    assert(is_string_body(chunk));
                    lemma_body_concat(s@.subrange(i + 1, j as int), chunk);
                    assert(s@.subrange(i + 1, j + 2) =~= s@.subrange(i + 1, j as int) + chunk);
                    assert forall|e: int|
                        i + 1 <= e < n && #[trigger] s@[e] == '"' && is_string_body(
                            s@.subrange(i + 1, e),
                        ) implies j + 2 <= e && is_string_body(s@.subrange(j + 2, e)) by {
                        let b = s@.subrange(j as int, e);
                        if e > j {
                            assert(b[0] == c);
                            assert(b.subrange(2, b.len() as int) =~= s@.subrange(j + 2, e));
                        }
                    }
                }
                j = j + 2;
            } else {
                assert forall|n2: int| #[trigger] matches_at(d, s@, i as int, Rule::Str, n2) implies n2
                    <= 0 by {
                    let e = i + n2 - 1;
                    assert(s@[e] == '"');
                    let b = s@.subrange(j as int, e);
                    if e > j {
                        assert(b[0] == c);
                        assert(b[1] == s@[j + 1]);
                    }
                }
                return 0;
            }
        } else {
            proof {
                let chunk = s@.subrange(j as int, j + 1);
                assert(chunk.subrange(1, 1) =~= Seq::<char>::empty());
                assert(is_string_body(chunk.subrange(1, 1)));
                assert(chunk[0] == c);
                assert(is_string_body(chunk));
                lemma_body_concat(s@.subrange(i + 1, j as int), chunk);
                assert(s@.subrange(i + 1, j + 1) =~= s@.subrange(i + 1, j as int) + chunk);
                assert forall|e: int|
                    i + 1 <= e < n && #[trigger] s@[e] == '"' && is_string_body(
                        s@.subrange(i + 1, e),
                    ) implies j + 1 <= e && is_string_body(s@.subrange(j + 1, e)) by {
                    let b = s@.subrange(j as int, e);
                    if e > j {
                        assert(b[0] == c);
                        assert(b.subrange(1, b.len() as int) =~= s@.subrange(j + 1, e));
                    }
                }
            }
            j = j + 1;
        }
    }
    assert forall|n2: int| #[trigger] matches_at(d, s@, i as int, Rule::Str, n2) implies n2 <= 0 by {
        let e = i + n2 - 1;
        assert(s@[e] == '"');
    }
    0
}

} // verus!

verus! {

/// Whether the `n` characters at `i` spell `w`.
fn spells(s: &Vec<char>, i: usize, n: usize, w: &[char]) -> (b: bool)
    requires
        i + n <= s@.len(),
    ensures
        b == (s@.subrange(i as int, i + n) =~= w@),
{
    let sl = s.len();
    if n != w.len() {
        return false;
    }
    let mut k: usize = 0;
    while k < n
        invariant
            i + n <= s@.len(),
            sl == s@.len(),
            n == w@.len(),
            k <= n,
            forall|j: int| 0 <= j < k ==> s@[i + j] == w@[j],
        decreases n - k,
    {
        if s[i + k] != w[k] {
            assert(s@.subrange(i as int, i + n)[k as int] != w@[k as int]);
            return false;
        }
        k = k + 1;
    }
    true
}

fn symbol_token_at(s: &Vec<char>, i: usize, n: usize) -> (t: Option<Token>)
    requires
        i + n <= s@.len(),
    ensures
        t == symbol_token(s@.subrange(i as int, i + n)),
{
    let ghost w = s@.subrange(i as int, i + n);
    let sl = s.len();
    if n == 1 {
        assert(w[0] == s@[i as int]);
        let c = s[i];
        if c == '+' {
            Some(Token::Plus)
        } else if c == '-' {
            Some(Token::Minus)
        } else if c == '*' {
            Some(Token::Multiply)
        } else if c == '/' {
            Some(Token::Divide)
        } else if c == '!' {
            Some(Token::Not)
        } else if c == '>' {
            Some(Token::GreaterThan)
        } else if c == '<' {
            Some(Token::LessThan)
        } else if c == '=' {
            Some(Token::Assign)
        } else if c == ';' {
            Some(Token::Semicolon)
        } else if c == '{' {
            Some(Token::OpenBrace)
        } else if c == '}' {
            Some(Token::CloseBrace)
        } else if c == '(' {
            Some(Token::OpenParen)
        } else if c == ')' {
            Some(Token::CloseParen)
        } else if c == ',' {
            Some(Token::Comma)
        } else if c == ':' {
            Some(Token::Colon)
        } else if c == '[' {
            Some(Token::OpenBracket)
        } else if c == ']' {
            Some(Token::CloseBracket)
        } else {
            None
        }
    } else if n == 2 {
        assert(w[0] == s@[i as int] && w[1] == s@[i + 1]);
        let a = s[i];
        let b = s[i + 1];
        if a == '&' && b == '&' {
            Some(Token::And)
        } else if a == '|' && b == '|' {
            Some(Token::Or)
        } else if a == '>' && b == '=' {
            Some(Token::GreaterEqual)
        } else if a == '<' && b == '=' {
            Some(Token::LessEqual)
        } else if a == '=' && b == '=' {
            Some(Token::Equal)
        } else if a == '!' && b == '=' {
            Some(Token::NotEqual)
        } else {
            None
        }
    } else {
        None
    }
}

fn keyword_token_at(s: &Vec<char>, i: usize, n: usize) -> (t: Option<Token>)
    requires
        i + n <= s@.len(),
    ensures
        t == keyword_token(s@.subrange(i as int, i + n)),
{
    let w1 = ['V', 'A', 'R', '_', 'G', 'L', 'O', 'B', 'A', 'L'];
    assert(w1@ =~= seq!['V', 'A', 'R', '_', 'G', 'L', 'O', 'B', 'A', 'L']);
    if spells(s, i, n, &w1) {
        return Some(Token::VarGlobal);
    }
    let w2 = ['D', 'E', 'C', 'L', 'A', 'R', 'A', 'T', 'I', 'O', 'N'];
    assert(w2@ =~= seq!['D', 'E', 'C', 'L', 'A', 'R', 'A', 'T', 'I', 'O', 'N']);
    if spells(s, i, n, &w2) {
        return Some(Token::Declaration);
    }
    let w3 = ['I', 'N', 'S', 'T', 'R', 'U', 'C', 'T', 'I', 'O', 'N'];
    assert(w3@ =~= seq!['I', 'N', 'S', 'T', 'R', 'U', 'C', 'T', 'I', 'O', 'N']);
    if spells(s, i, n, &w3) {
        return Some(Token::Instruction);
    }
    let w4 = ['C', 'O', 'N', 'S', 'T'];
    assert(w4@ =~= seq!['C', 'O', 'N', 'S', 'T']);
    if spells(s, i, n, &w4) {
        return Some(Token::Const);
    }
    let w5 = ['R', 'E', 'A', 'D'];
    assert(w5@ =~= seq!['R', 'E', 'A', 'D']);
    if spells(s, i, n, &w5) {
        return Some(Token::Read);
    }
    let w6 = ['W', 'R', 'I', 'T', 'E'];
    assert(w6@ =~= seq!['W', 'R', 'I', 'T', 'E']);
    if spells(s, i, n, &w6) {
        return Some(Token::Write);
    }
    let w7 = ['I', 'F'];
    assert(w7@ =~= seq!['I', 'F']);
    if spells(s, i, n, &w7) {
        return Some(Token::If);
    }
    let w8 = ['E', 'L', 'S', 'E'];
    assert(w8@ =~= seq!['E', 'L', 'S', 'E']);
    if spells(s, i, n, &w8) {
        return Some(Token::Else);
    }
    let w9 = ['F', 'O', 'R'];
    assert(w9@ =~= seq!['F', 'O', 'R']);
    if spells(s, i, n, &w9) {
        return Some(Token::For);
    }
    let w10 = ['I', 'N', 'T', 'E', 'G', 'E', 'R'];
    assert(w10@ =~= seq!['I', 'N', 'T', 'E', 'G', 'E', 'R']);
    if spells(s, i, n, &w10) {
        return Some(Token::IntegerType);
    }
    let w11 = ['F', 'L', 'O', 'A', 'T'];
    assert(w11@ =~= seq!['F', 'L', 'O', 'A', 'T']);
    if spells(s, i, n, &w11) {
        return Some(Token::FloatType);
    }
    let w12 = ['C', 'H', 'A', 'R'];
    assert(w12@ =~= seq!['C', 'H', 'A', 'R']);
    if spells(s, i, n, &w12) {
        return Some(Token::CharType);
    }
    None
}

fn fixed_token_at(s: &Vec<char>, i: usize, n: usize) -> (t: Option<Token>)
    requires
        i + n <= s@.len(),
    ensures
        t == fixed_token(s@.subrange(i as int, i + n)),
{
    match symbol_token_at(s, i, n) {
        Some(t) => Some(t),
        None => keyword_token_at(s, i, n),
    }
}

proof fn lemma_fixed_len(w: Seq<char>)
    ensures
        fixed_token(w) is Some ==> 1 <= w.len() <= 11,
{
}

/// Length of the longest fixed token at `i` (0 when there is none), with the token.
fn fixed_len(d: Dialect, s: &Vec<char>, i: usize) -> (r: (usize, Option<Token>))
    requires
        i < s@.len(),
    ensures
        i + r.0 <= s@.len(),
        r.0 > 0 ==> matches_at(d, s@, i as int, Rule::Fixed, r.0 as int),
        r.0 > 0 ==> r.1 == fixed_token(s@.subrange(i as int, i + r.0)),
        forall|n2: int| #[trigger] matches_at(d, s@, i as int, Rule::Fixed, n2) ==> n2 <= r.0,
{
    let rest = s.len() - i;
    let mut k: usize = if rest < 11 {
        rest
    } else {
        11
    };
    while k > 0
        invariant
            i < s@.len(),
            k <= 11,
            i + k <= s@.len(),
            forall|n2: int|
                #[trigger] matches_at(d, s@, i as int, Rule::Fixed, n2) ==> n2 <= k,
        decreases k,
    {
        let t = fixed_token_at(s, i, k);
        if t.is_some() {
            return (k, t);
        }
        assert forall|n2: int| #[trigger] matches_at(d, s@, i as int, Rule::Fixed, n2) implies n2
            <= k - 1 by {
            lemma_fixed_len(s@.subrange(i as int, i + n2));
        }
        k = k - 1;
    }
    (0, None)
}

} // verus!

verus! {

proof fn lemma_longest_unique(d: Dialect, s: Seq<char>, i: int, r: Rule, n: int)
    requires
        is_longest(d, s, i, r, n),
    ensures
        longest_match(d, s, i) == Some((r, n)),
{
    let c = choose|r2: Rule, n2: int| is_longest(d, s, i, r2, n2);
    assert(is_longest(d, s, i, c.0, c.1));
    assert(matches_at(d, s, i, c.0, c.1));
    assert(matches_at(d, s, i, r, n));
}

proof fn lemma_no_match(d: Dialect, s: Seq<char>, i: int)
    requires
        forall|r: Rule, n: int| !#[trigger] matches_at(d, s, i, r, n),
    ensures
        longest_match(d, s, i) is None,
{
}

/// The match at `i`: its rule, its length, and for a fixed token the token.
fn longest_at(d: Dialect, s: &Vec<char>, i: usize) -> (res: Option<(Rule, usize, Option<Token>)>)
    requires
        i < s@.len(),
    ensures
        match res {
            None => longest_match(d, s@, i as int) is None,
            Some((r, n, t)) => {
                &&& longest_match(d, s@, i as int) == Some((r, n as int))
                &&& i + n <= s@.len()
                &&& (r == Rule::Fixed ==> t == fixed_token(s@.subrange(i as int, i + n)))
            },
        },
{
    let (lf, tf) = fixed_len(d, s, i);
    let li = integer_len(d, s, i);
    let lfl = float_len(d, s, i);
    let lc = char_len(d, s, i);
    let lsk = skip_len(d, s, i);
    let lid = identifier_len(d, s, i);
    let lst = string_len(d, s, i);
    let mut m = lf;
    if li > m {
        m = li;
    }
    if lfl > m {
        m = lfl;
    }
    if lc > m {
        m = lc;
    }
    if lsk > m {
        m = lsk;
    }
    if lid > m {
        m = lid;
    }
    if lst > m {
        m = lst;
    }
    if m == 0 {
        proof {
            assert forall|r: Rule, n: int| !#[trigger] matches_at(d, s@, i as int, r, n) by {
                match r {
                    Rule::Fixed => {},
                    Rule::Integer => {},
                    Rule::Float => {},
                    Rule::Char => {},
                    Rule::Skip => {},
                    Rule::Identifier => {},
                    Rule::Str => {},
                }
            }
            lemma_no_match(d, s@, i as int);
        }
        return None;
    }
    let r = if lf == m {
        Rule::Fixed
    } else if li == m {
        Rule::Integer
    } else if lfl == m {
        Rule::Float
    } else if lc == m {
        Rule::Char
    } else if lsk == m {
        Rule::Skip
    } else if lid == m {
        Rule::Identifier
    } else {
        Rule::Str
    };
    proof {
        assert forall|r2: Rule, n2: int| #[trigger]
            matches_at(d, s@, i as int, r2, n2) && !(r2 == r && n2 == m) implies n2 < m || (n2 == m
            && priority(r2) < priority(r)) by {
            match r2 {
                Rule::Fixed => {},
                Rule::Integer => {},
                Rule::Float => {},
                Rule::Char => {},
                Rule::Skip => {},
                Rule::Identifier => {},
                Rule::Str => {},
            }
        }
        lemma_longest_unique(d, s@, i as int, r, m as int);
    }
    Some((r, m, tf))
}

} // verus!

verus! {

/// What `str::parse::<i16>` gives for the text `w`: an optional `+` or `-`,
/// then at least one decimal digit, with the value in the range of `i16`.
pub open spec fn parse_i16(w: Seq<char>) -> Option<int> {
    let signed = w.len() > 0 && (w[0] == '-' || w[0] == '+');
    let ds = if signed {
        w.drop_first()
    } else {
        w
    };
    let v = if signed && w[0] == '-' {
        -decimal(ds)
    } else {
        decimal(ds) as int
    };
    if ds.len() > 0 && all_digits(ds) && fits_i16(v) {
        Some(v)
    } else {
        None
    }
}

proof fn lemma_decimal_push(w: Seq<char>, c: char)
    ensures
        decimal(w.push(c)) == decimal(w) * 10 + (c as nat - '0' as nat) as nat,
{
    assert(w.push(c).drop_last() =~= w);
}

/// The value of the decimal digits `w[from..to]`, or `None` once it exceeds 32768.
fn decimal_upto_32768(w: &Vec<char>, from: usize, to: usize) -> (r: Option<u32>)
    requires
        from <= to <= w@.len(),
        all_digits(w@.subrange(from as int, to as int)),
    ensures
        match r {
            Some(v) => v == decimal(w@.subrange(from as int, to as int)) && v <= 32768,
            None => decimal(w@.subrange(from as int, to as int)) > 32768,
        },
{
    let mut acc: u32 = 0;
    let mut k = from;
    assert(w@.subrange(from as int, from as int) =~= Seq::<char>::empty());
    while k < to
        invariant
            from <= k <= to <= w@.len(),
            all_digits(w@.subrange(from as int, to as int)),
            acc == decimal(w@.subrange(from as int, k as int)),
            acc <= 32768,
        decreases to - k,
    {
        let c = w[k];
        assert(is_digit(w@.subrange(from as int, to as int)[k - from]));
        assert(w@.subrange(from as int, to as int)[k - from] == c);
        proof {
            lemma_decimal_push(w@.subrange(from as int, k as int), c);
            assert(w@.subrange(from as int, k + 1) =~= w@.subrange(from as int, k as int).push(c));
        }
        let digit = (c as u32) - ('0' as u32);
        let next = acc * 10 + digit;
        if next > 32768 {
            proof {
                lemma_decimal_grows(w@.subrange(from as int, to as int), (k + 1 - from) as int);
                assert(w@.subrange(from as int, to as int).take((k + 1 - from) as int) =~= w@.subrange(
                    from as int,
                    k + 1,
                ));
            }
            return None;
        }
        acc = next;
        k = k + 1;
    }
    Some(acc)
}

/// A prefix of a digit string has no larger a value than the whole.
proof fn lemma_decimal_grows(w: Seq<char>, k: int)
    requires
        0 <= k <= w.len(),
        all_digits(w),
    ensures
        decimal(w.take(k)) <= decimal(w),
    decreases w.len() - k,
{
    if k < w.len() {
        lemma_decimal_grows(w, k + 1);
        assert(w.take(k + 1).drop_last() =~= w.take(k));
        assert(is_digit(w[k]));
    } else {
        assert(w.take(k) =~= w);
    }
}

/// Checks an integer literal: its value when `str::parse::<i16>` accepts the
/// text, else `IntegerOverflow` with the text and `position`.
#[verifier::loop_isolation(false)]
pub fn validate_integer(slice: &str, position: (usize, usize)) -> (r: Result<i16, CustomError>)
    ensures
        match parse_i16(slice@) {
            Some(v) => r == Ok::<i16, CustomError>(v as i16),
            None => r matches Err(CustomError::IntegerOverflow(x, p)) && x@ == slice@ && p == position,
        },
{
    let w = chars_of(slice);
    let n = w.len();
    let signed = n > 0 && (w[0] == '-' || w[0] == '+');
    let negative = signed && w[0] == '-';
    let from: usize = if signed {
        1
    } else {
        0
    };
    let ghost ds = if signed {
        w@.drop_first()
    } else {
        w@
    };
    assert(ds =~= w@.subrange(from as int, n as int));
    // check that the rest is all digits
    let mut k = from;
    while k < n
        invariant
            from <= k <= n,
            n == w@.len(),
            w@ == slice@,
            ds =~= w@.subrange(from as int, n as int),
            forall|j: int| from <= j < k ==> #[trigger] is_digit(w@[j]),
        decreases n - k,
    {
        if !('0' <= w[k] && w[k] <= '9') {
            assert(ds[k - from] == w@[k as int]);
            assert(!is_digit(ds[k - from]));
            assert(!all_digits(ds));
            return Err(CustomError::IntegerOverflow(slice.to_owned(), position));
        }
        k = k + 1;
    }
    if from == n {
        return Err(CustomError::IntegerOverflow(slice.to_owned(), position));
    }
    assert forall|j: int| 0 <= j < ds.len() implies #[trigger] is_digit(ds[j]) by {
        assert(ds[j] == w@[from + j]);
    }
    match decimal_upto_32768(&w, from, n) {
        None => Err(CustomError::IntegerOverflow(slice.to_owned(), position)),
        Some(v) => {
            if negative {
                let r: i32 = 0 - (v as i32);
                Ok(r as i16)
            } else if v <= 32767 {
                Ok(v as i16)
            } else {
                Err(CustomError::IntegerOverflow(slice.to_owned(), position))
            }
        },
    }
}

/// The longest identifier the language accepts, in bytes.
pub const MAX_IDENTIFIER_LEN: usize = 8;

/// Checks an identifier: the identifier itself when it is at most eight bytes
/// long, else `IdentifierTooLong` with the text and `position`.
pub fn validate_identifier(slice: &str, position: (usize, usize)) -> (r: Result<String, CustomError>)
    ensures
        slice.len() <= 8 ==> (r matches Ok(x) && x@ == slice@),
        slice.len() > 8 ==> (r matches Err(CustomError::IdentifierTooLong(x, p)) && x@
            == slice@ && p == position),
{
    if slice.len() > MAX_IDENTIFIER_LEN {
        Err(CustomError::IdentifierTooLong(slice.to_owned(), position))
    } else {
        Ok(slice.to_owned())
    }
}

} // verus!

verus! {

proof fn lemma_integer_lexeme_parses(d: Dialect, w: Seq<char>)
    requires
        is_integer_lexeme(d, w),
    ensures
        parse_i16(w) == (if fits_i16(integer_value(d, w)) {
            Some(integer_value(d, w))
        } else {
            None
        }),
{
    let u = unsigned_part(d, w);
    assert(is_digit(u[0]));
    if !(d == Dialect::Standard && w[0] == '-') {
        assert(u =~= w);
    }
}

proof fn lemma_identifier_ascii(w: Seq<char>)
    requires
        is_identifier_lexeme(w),
    ensures
        vstd::utf8::is_ascii_chars(w),
{
    assert forall|k: int| 0 <= k < w.len() implies '\0' <= #[trigger] w[k] <= '\u{7f}' by {
        if k > 0 {
            assert(is_alnum(w[k]));
        }
    }
}

/// The token (or the error) made from the `n` characters at `i`, which rule
/// `r` matched there.
fn make_token(
    d: Dialect,
    s: &Vec<char>,
    i: usize,
    n: usize,
    r: Rule,
    fixed: Option<Token>,
    position: (usize, usize),
) -> (res: Result<Token, CustomError>)
    requires
        r != Rule::Skip,
        matches_at(d, s@, i as int, r, n as int),
        r == Rule::Fixed ==> fixed == fixed_token(s@.subrange(i as int, i + n)),
    ensures
        match res {
            Ok(t) => denotes(d, r, s@.subrange(i as int, i + n), t),
            Err(e) => rejects(d, r, s@.subrange(i as int, i + n), position, e),
        },
{
    let ghost w = s@.subrange(i as int, i + n);
    let _len = s.len();
    match r {
        Rule::Fixed => {
            match fixed {
                Some(t) => Ok(t),
                None => Ok(Token::Plus),
            }
        },
        Rule::Integer => {
            let text = string_of(s, i, i + n);
            proof {
                lemma_integer_lexeme_parses(d, w);
            }
            match validate_integer(text.as_str(), position) {
                Ok(v) => Ok(Token::Integer(v)),
                Err(e) => Err(e),
            }
        },
        Rule::Float => Ok(Token::Float(string_of(s, i, i + n))),
        Rule::Identifier => {
            let text = string_of(s, i, i + n);
            proof {
                lemma_identifier_ascii(w);
                vstd::utf8::is_ascii_chars_encode_utf8(w);
            }
            match validate_identifier(text.as_str(), position) {
                Ok(x) => Ok(Token::Identifier(x)),
                Err(e) => Err(e),
            }
        },
        Rule::Char => {
            assert(w[1] == s@[i + 1]);
            Ok(Token::Char(s[i + 1]))
        },
        _ => Ok(Token::StringLiteral(string_of(s, i, i + n))),
    }
}

} // verus!

verus! {

proof fn lemma_position_step(s: Seq<char>, i: int)
    requires
        0 <= i < s.len(),
    ensures
        position_of(s, i + 1) == (if s[i] == '\n' {
            (position_of(s, i).0 + 1, 1nat)
        } else {
            (position_of(s, i).0, position_of(s, i).1 + 1)
        }),
{
    assert(s.take(i + 1).drop_last() =~= s.take(i));
}

proof fn lemma_position_bounds(s: Seq<char>, i: int)
    requires
        0 <= i <= s.len(),
    ensures
        1 <= position_of(s, i).0 <= i + 1,
        1 <= position_of(s, i).1 <= i + 1,
    decreases i,
{
    if i > 0 {
        lemma_position_bounds(s, i - 1);
        lemma_position_step(s, i - 1);
    } else {
        assert(s.take(0) =~= Seq::<char>::empty());
    }
}

/// Line and column of position `to`, given those of position `from`.
fn advance_to(s: &Vec<char>, from: usize, to: usize, line: usize, col: usize) -> (r: (usize, usize))
    requires
        from <= to <= s@.len(),
        s@.len() < usize::MAX,
        (line as nat, col as nat) == position_of(s@, from as int),
    ensures
        (r.0 as nat, r.1 as nat) == position_of(s@, to as int),
{
    let mut k = from;
    let mut l = line;
    let mut c = col;
    while k < to
        invariant
            from <= k <= to <= s@.len(),
            s@.len() < usize::MAX,
            (l as nat, c as nat) == position_of(s@, k as int),
        decreases to - k,
    {
        proof {
            lemma_position_step(s@, k as int);
            lemma_position_bounds(s@, k as int);
        }
        if s[k] == '\n' {
            l = l + 1;
            c = 1;
        } else {
            c = c + 1;
        }
        k = k + 1;
    }
    (l, c)
}

proof fn lemma_denotes_makes_token(d: Dialect, r: Rule, w: Seq<char>, t: Token)
    requires
        denotes(d, r, w, t),
    ensures
        r != Rule::Skip,
        makes_token(d, r, w),
{
}

proof fn lemma_rejects_no_token(d: Dialect, r: Rule, w: Seq<char>, p: (usize, usize), e: CustomError)
    requires
        rejects(d, r, w, p, e),
    ensures
        r != Rule::Skip,
        !makes_token(d, r, w),
{
}

/// Splits `input` into tokens, stopping at the first error.
///
/// The result is exactly what `lexes` (or, for an error, `lex_fails`) says
/// of `input`: each token is the longest match at its place, blanks and
/// comments are dropped, and each token carries the line and column where it
/// starts.
pub fn tokenize(d: Dialect, input: &str) -> (res: Result<Vec<crate::token::SpannedToken>, CustomError>)
    requires
        input@.len() < usize::MAX,
    ensures
        match res {
            Ok(v) => lexes(d, input@, 0, v@),
            Err(e) => lex_fails(d, input@, 0, e),
        },
{
    let s = chars_of(input);
    let n = s.len();
    let mut acc: Vec<crate::token::SpannedToken> = Vec::new();
    let mut i: usize = 0;
    let mut line: usize = 1;
    let mut col: usize = 1;
    assert(s@.take(0) =~= Seq::<char>::empty());
    assert forall|t: Seq<crate::token::SpannedToken>| #[trigger] lexes(d, s@, 0, acc@ + t) == lexes(d, s@, 0, t) by {
        assert(acc@ + t =~= t);
    }
    while i < n
        invariant
            n == s@.len(),
            s@ == input@,
            s@.len() < usize::MAX,
            i <= n,
            (line as nat, col as nat) == position_of(s@, i as int),
            forall|t: Seq<crate::token::SpannedToken>| #[trigger] lexes(d, s@, 0, acc@ + t) == lexes(d, s@, i as int, t),
            forall|e: CustomError| #[trigger] lex_fails(d, s@, 0, e) == lex_fails(d, s@, i as int, e),
        decreases n - i,
    {
        proof {
            lemma_position_bounds(s@, i as int);
        }
        match longest_at(d, &s, i) {
            None => {
                let e = CustomError::UnrecognizedToken((line, col));
                assert(lex_fails(d, s@, i as int, e));
                return Err(e);
            },
            Some((r, len, fixed)) => {
                let ghost w = s@.subrange(i as int, i + len);
                assert(is_longest(d, s@, i as int, r, len as int));
                if r == Rule::Skip {
                    assert forall|t: Seq<crate::token::SpannedToken>| #[trigger] lexes(d, s@, 0, acc@ + t)
                        == lexes(d, s@, i + len, t) by {
                        assert(lexes(d, s@, i as int, t) == lexes(d, s@, i + len, t));
                    }
                    assert forall|e: CustomError| #[trigger] lex_fails(d, s@, 0, e) == lex_fails(
                        d,
                        s@,
                        i + len,
                        e,
                    ) by {
                        assert(lex_fails(d, s@, i as int, e) == lex_fails(d, s@, i + len, e));
                    }
                } else {
                    match make_token(d, &s, i, len, r, fixed, (line, col)) {
                        Ok(t) => {
                            let st = crate::token::SpannedToken { token: t, line, column: col };
                            proof {
                                lemma_denotes_makes_token(d, r, w, st.token);
                                assert forall|t2: Seq<crate::token::SpannedToken>| #[trigger] lexes(
                                    d,
                                    s@,
                                    0,
                                    acc@.push(st) + t2,
                                ) == lexes(d, s@, i + len, t2) by {
                                    let t3 = seq![st] + t2;
                                    assert(acc@.push(st) + t2 =~= acc@ + t3);
                                    assert(t3[0] == st);
                                    assert(t3.drop_first() =~= t2);
                                    assert(lexes(d, s@, 0, acc@ + t3) == lexes(d, s@, i as int, t3));
                                }
                                assert forall|e: CustomError| #[trigger] lex_fails(d, s@, 0, e)
                                    == lex_fails(d, s@, i + len, e) by {
                                    assert(lex_fails(d, s@, i as int, e) == lex_fails(
                                        d,
                                        s@,
                                        i + len,
                                        e,
                                    ));
                                }
                            }
                            acc.push(st);
                        },
                        Err(e) => {
                            proof {
                                lemma_rejects_no_token(d, r, w, (line, col), e);
                                assert(lex_fails(d, s@, i as int, e));
                            }
                            return Err(e);
                        },
                    }
                }
                let (l2, c2) = advance_to(&s, i, i + len, line, col);
                line = l2;
                col = c2;
                i = i + len;
            },
        }
    }
    assert(lexes(d, s@, 0, acc@ + Seq::<crate::token::SpannedToken>::empty()) == lexes(
        d,
        s@,
        i as int,
        Seq::<crate::token::SpannedToken>::empty(),
    ));
    assert(acc@ + Seq::<crate::token::SpannedToken>::empty() =~= acc@);
    Ok(acc)
}

} // verus!

verus! {

/// Where the next token starts: position `i` moved past blanks and comments.
pub open spec fn skip_from(d: Dialect, s: Seq<char>, i: int) -> int
    decreases s.len() - i,
{
    if i < 0 || i >= s.len() {
        i
    } else {
        match longest_match(d, s, i) {
            Some((r, n)) => if r == Rule::Skip && n > 0 {
                skip_from(d, s, i + n)
            } else {
                i
            },
            None => i,
        }
    }
}

/// A lexer over one input, handing out one token at a time.
pub struct Lexer {
    dialect: Dialect,
    chars: Vec<char>,
    pos: usize,
    line: usize,
    column: usize,
    token_line: usize,
    token_column: usize,
}

impl Lexer {
    pub closed spec fn dialect(&self) -> Dialect {
        self.dialect
    }

    /// The whole input.
    pub closed spec fn input(&self) -> Seq<char> {
        self.chars@
    }

    /// How far the lexer has read.
    pub closed spec fn position(&self) -> int {
        self.pos as int
    }

    /// Line and column where the last token handed out starts.
    pub closed spec fn span_start(&self) -> (usize, usize) {
        (self.token_line, self.token_column)
    }

    pub closed spec fn wf(&self) -> bool {
        &&& self.pos <= self.chars@.len()
        &&& self.chars@.len() < usize::MAX
        &&& (self.line as nat, self.column as nat) == position_of(self.chars@, self.pos as int)
    }

    /// A lexer at the start of `input`.
    pub fn new(d: Dialect, input: &str) -> (l: Lexer)
        requires
            input@.len() < usize::MAX,
        ensures
            l.wf(),
            l.dialect() == d,
            l.input() == input@,
            l.position() == 0,
    {
        let chars = chars_of(input);
        assert(chars@.take(0) =~= Seq::<char>::empty());
        Lexer { dialect: d, chars, pos: 0, line: 1, column: 1, token_line: 1, token_column: 1 }
    }

    /// Line and column where the last token handed out starts.
    pub fn span(&self) -> (r: (usize, usize))
        ensures
            r == self.span_start(),
    {
        (self.token_line, self.token_column)
    }

    /// The next token, the error met in its place, or `None` at the end of
    /// the input.  After an error the lexer goes on behind the offending piece
    /// (one character when no rule matched).
    pub fn next(&mut self) -> (r: Option<Result<Token, CustomError>>)
        requires
            old(self).wf(),
        ensures
            final(self).wf(),
            final(self).input() == old(self).input(),
            final(self).dialect() == old(self).dialect(),
            ({
                let d = old(self).dialect();
                let s = old(self).input();
                let j = skip_from(d, s, old(self).position());
                match r {
                    None => j >= s.len() && final(self).position() == j,
                    Some(res) => {
                        &&& j < s.len()
                        &&& final(self).span_start() == as_pos(position_of(s, j))
                        &&& match longest_match(d, s, j) {
                            None => res == Err::<Token, CustomError>(
                                CustomError::UnrecognizedToken(as_pos(position_of(s, j))),
                            ) && final(self).position() == j + 1,
                            Some((rule, n)) => final(self).position() == j + n && match res {
                                Ok(t) => denotes(d, rule, s.subrange(j, j + n), t),
                                Err(e) => rejects(d, rule, s.subrange(j, j + n), as_pos(position_of(s, j)), e),
                            },
                        }
                    },
                }
            }),
    {
        let d = self.dialect;
        let n = self.chars.len();
        let ghost s = old(self).chars@;
        let ghost start = old(self).pos as int;
        assert(skip_from(d, s, start) == skip_from(d, s, self.pos as int));
        loop
            invariant
                self.wf(),
                self.chars@ == s,
                s == old(self).chars@,
                start == old(self).pos,
                d == old(self).dialect,
                self.dialect == d,
                n == s.len(),
                skip_from(d, s, start) == skip_from(d, s, self.pos as int),
            decreases n - self.pos,
        {
            if self.pos >= n {
                return None;
            }
            let i = self.pos;
            proof {
                lemma_position_bounds(s, i as int);
            }
            match longest_at(d, &self.chars, i) {
                None => {
                    let p = (self.line, self.column);
                    self.token_line = self.line;
                    self.token_column = self.column;
                    let (l2, c2) = advance_to(&self.chars, i, i + 1, self.line, self.column);
                    self.line = l2;
                    self.column = c2;
                    self.pos = i + 1;
                    return Some(Err(CustomError::UnrecognizedToken(p)));
                },
                Some((r, len, fixed)) => {
                    assert(is_longest(d, s, i as int, r, len as int));
                    if r == Rule::Skip {
                        let (l2, c2) = advance_to(&self.chars, i, i + len, self.line, self.column);
                        self.line = l2;
                        self.column = c2;
                        self.pos = i + len;
                    } else {
                        let p = (self.line, self.column);
                        let res = make_token(d, &self.chars, i, len, r, fixed, p);
                        self.token_line = self.line;
                        self.token_column = self.column;
                        let (l2, c2) = advance_to(&self.chars, i, i + len, self.line, self.column);
                        self.line = l2;
                        self.column = c2;
                        self.pos = i + len;
                        return Some(res);
                    }
                },
            }
        }
    }
}

} // verus!

verus! {

/// What every token of the lexer satisfies: an identifier has at most eight
/// characters, and a string literal starts and ends with a double quote.
pub open spec fn token_well_formed(t: Token) -> bool {
    match t {
        Token::Identifier(x) => x@.len() <= max_identifier_len(),
        Token::StringLiteral(x) => crate::semantics::quoted(x@),
        _ => true,
    }
}

/// Every token the lexer makes is well formed: no identifier it makes is
/// longer than eight characters, and every string literal keeps its quotes.
pub proof fn lemma_lexed_tokens_well_formed(
    d: Dialect,
    s: Seq<char>,
    i: int,
    toks: Seq<crate::token::SpannedToken>,
)
    requires
        lexes(d, s, i, toks),
    ensures
        forall|k: int| 0 <= k < toks.len() ==> #[trigger] token_well_formed(toks[k].token),
    decreases s.len() - i,
{
    if 0 <= i < s.len() {
        let m = longest_match(d, s, i);
        assert(m is Some);
        let (r, n) = m.unwrap();
        assert(is_longest(d, s, i, r, n));
        assert(rule_matches(d, r, s.subrange(i, i + n)));
        if r == Rule::Skip {
            lemma_lexed_tokens_well_formed(d, s, i + n, toks);
        } else {
            lemma_lexed_tokens_well_formed(d, s, i + n, toks.drop_first());
            assert forall|k: int| 0 <= k < toks.len() implies #[trigger] token_well_formed(toks[k].token) by {
                if k > 0 {
                    assert(toks[k] == toks.drop_first()[k - 1]);
                }
            }
        }
    }
}

} // verus!

verus! {

/// What a token says, with the texts it carries as character sequences.
pub enum TokenV {
    Plain(Token),
    Integer(i16),
    Float(Seq<char>),
    Identifier(Seq<char>),
    Char(char),
    Str(Seq<char>),
}

pub open spec fn token_view(t: Token) -> TokenV {
    match t {
        Token::Integer(v) => TokenV::Integer(v),
        Token::Float(x) => TokenV::Float(x@),
        Token::Identifier(x) => TokenV::Identifier(x@),
        Token::Char(c) => TokenV::Char(c),
        Token::StringLiteral(x) => TokenV::Str(x@),
        _ => TokenV::Plain(t),
    }
}

/// Lexing is a function of the input: two token sequences that both lex
/// the same input say the same tokens at the same places.
pub proof fn lemma_lexes_unique(
    d: Dialect,
    s: Seq<char>,
    i: int,
    a: Seq<crate::token::SpannedToken>,
    b: Seq<crate::token::SpannedToken>,
)
    requires
        lexes(d, s, i, a),
        lexes(d, s, i, b),
    ensures
        a.len() == b.len(),
        forall|k: int| 0 <= k < a.len() ==> {
            &&& #[trigger] token_view(a[k].token) == token_view(b[k].token)
            &&& a[k].line == b[k].line
            &&& a[k].column == b[k].column
        },
    decreases s.len() - i,
{
    if 0 <= i < s.len() {
        let (r, n) = longest_match(d, s, i).unwrap();
        if r == Rule::Skip {
            lemma_lexes_unique(d, s, i + n, a, b);
        } else {
            lemma_lexes_unique(d, s, i + n, a.drop_first(), b.drop_first());
            assert(token_view(a[0].token) == token_view(b[0].token)) by {
                match r {
                    Rule::Fixed => {},
                    Rule::Integer => {},
                    Rule::Char => {},
                    _ => {},
                }
            }
            assert forall|k: int| 0 <= k < a.len() implies {
                &&& #[trigger] token_view(a[k].token) == token_view(b[k].token)
                &&& a[k].line == b[k].line
                &&& a[k].column == b[k].column
            } by {
                if k > 0 {
                    assert(a[k] == a.drop_first()[k - 1]);
                    assert(b[k] == b.drop_first()[k - 1]);
                }
            }
        }
    }
}

} // verus!

verus! {

/// How each punctuation or operator token is spelled in source text.
pub open spec fn symbol_text(t: Token) -> Option<Seq<char>> {
    match t {
        Token::Plus => Some(seq!['+']),
        Token::Minus => Some(seq!['-']),
        Token::Multiply => Some(seq!['*']),
        Token::Divide => Some(seq!['/']),
        Token::Not => Some(seq!['!']),
        Token::GreaterThan => Some(seq!['>']),
        Token::LessThan => Some(seq!['<']),
        Token::Assign => Some(seq!['=']),
        Token::Semicolon => Some(seq![';']),
        Token::OpenBrace => Some(seq!['{']),
        Token::CloseBrace => Some(seq!['}']),
        Token::OpenParen => Some(seq!['(']),
        Token::CloseParen => Some(seq![')']),
        Token::Comma => Some(seq![',']),
        Token::Colon => Some(seq![':']),
        Token::OpenBracket => Some(seq!['[']),
        Token::CloseBracket => Some(seq![']']),
        Token::And => Some(seq!['&', '&']),
        Token::Or => Some(seq!['|', '|']),
        Token::GreaterEqual => Some(seq!['>', '=']),
        Token::LessEqual => Some(seq!['<', '=']),
        Token::Equal => Some(seq!['=', '=']),
        Token::NotEqual => Some(seq!['!', '=']),
        _ => None,
    }
}

/// A text is read as a punctuation or operator token exactly when it is
/// that token's spelling: `<` is `LessThan`, `>` is `GreaterThan`, `<=` is
/// `LessEqual`, and so on.  So distinct symbols give distinct tokens, and
/// each symbol token has one spelling.
pub proof fn lemma_symbol_spelling(w: Seq<char>, t: Token)
    ensures
        symbol_token(w) == Some(t) <==> symbol_text(t) == Some(w),
{
    if w.len() == 1 {
        assert(w =~= seq![w[0]]);
    } else if w.len() == 2 {
        assert(w =~= seq![w[0], w[1]]);
    }
    if symbol_text(t) == Some(w) {
        assert(symbol_token(w) == Some(t));
    }
}

/// Distinct texts never read as the same punctuation or operator token.
pub proof fn lemma_symbol_tokens_distinct(w1: Seq<char>, w2: Seq<char>)
    requires
        symbol_token(w1) is Some,
        symbol_token(w1) == symbol_token(w2),
    ensures
        w1 == w2,
{
    lemma_symbol_spelling(w1, symbol_token(w1).unwrap());
    lemma_symbol_spelling(w2, symbol_token(w1).unwrap());
}

} // verus!

verus! {

/// How each keyword token is spelled in source text.
pub open spec fn keyword_text(t: Token) -> Option<Seq<char>> {
    match t {
        Token::VarGlobal => Some(seq!['V', 'A', 'R', '_', 'G', 'L', 'O', 'B', 'A', 'L']),
        Token::Declaration => Some(seq!['D', 'E', 'C', 'L', 'A', 'R', 'A', 'T', 'I', 'O', 'N']),
        Token::Instruction => Some(seq!['I', 'N', 'S', 'T', 'R', 'U', 'C', 'T', 'I', 'O', 'N']),
        Token::Const => Some(seq!['C', 'O', 'N', 'S', 'T']),
        Token::Read => Some(seq!['R', 'E', 'A', 'D']),
        Token::Write => Some(seq!['W', 'R', 'I', 'T', 'E']),
        Token::If => Some(seq!['I', 'F']),
        Token::Else => Some(seq!['E', 'L', 'S', 'E']),
        Token::For => Some(seq!['F', 'O', 'R']),
        Token::IntegerType => Some(seq!['I', 'N', 'T', 'E', 'G', 'E', 'R']),
        Token::FloatType => Some(seq!['F', 'L', 'O', 'A', 'T']),
        Token::CharType => Some(seq!['C', 'H', 'A', 'R']),
        _ => None,
    }
}

/// A text is read as a keyword token exactly when it is that keyword's
/// spelling; so distinct keywords give distinct tokens.
pub proof fn lemma_keyword_spelling(w: Seq<char>, t: Token)
    ensures
        keyword_token(w) == Some(t) <==> keyword_text(t) == Some(w),
{
    if keyword_text(t) == Some(w) {
        let k = w;
        assert(keyword_token(k) == Some(t)) by {
            if t is VarGlobal {
                assert(k =~= seq!['V', 'A', 'R', '_', 'G', 'L', 'O', 'B', 'A', 'L']);
            }
        }
    }
}

} // verus!
