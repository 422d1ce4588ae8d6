//! The lexer: a source line is scanned left to right into tokens, greedily.
//! Maximal digit runs (optionally `.` and more digits) form a number token,
//! maximal runs of ASCII letters and underscores form an identifier, each
//! recognized operator or parenthesis is its own token, whitespace
//! separates, and anything else is a lexing error naming the character and
//! its offset. A numeric literal beyond the 64-bit range is reported as an
//! error of its own, at the literal's offset.

use vstd::prelude::*;

verus! {

/// Operator symbols.
#[derive(Debug, Clone, Copy, PartialEq, Eq, Structural)]
pub enum OpSymbol {
    Plus,
    Minus,
    Star,
    Slash,
    Equal,
}

/// Punctuation symbols.
#[derive(Debug, Clone, Copy, PartialEq, Eq, Structural)]
pub enum PunctSymbol {
    LeftParen,
    RightParen,
}

/// A lexical token. A number carries the literal's value as the exact
/// fraction `num / den`; a plain integer literal has `den == 1`, and a
/// decimal literal `den` equal to the power of ten of its fraction digits.
#[derive(Debug, PartialEq)]
pub enum Token {
    Number { num: u64, den: u64 },
    Identifier(String),
    Operator(OpSymbol),
    Punctuation(PunctSymbol),
    EndOfInput,
}

/// Ghost mirror of `Token`, with the identifier as a character sequence.
pub enum TokenV {
    Number { num: u64, den: u64 },
    Identifier(Seq<char>),
    Operator(OpSymbol),
    Punctuation(PunctSymbol),
    EndOfInput,
}

impl View for Token {
    type V = TokenV;

    open spec fn view(&self) -> TokenV {
        match self {
            Token::Number { num, den } => TokenV::Number { num: *num, den: *den },
            Token::Identifier(name) => TokenV::Identifier(name@),
            Token::Operator(op) => TokenV::Operator(*op),
            Token::Punctuation(p) => TokenV::Punctuation(*p),
            Token::EndOfInput => TokenV::EndOfInput,
        }
    }
}

/// Why lexing failed.
#[derive(Debug, Clone, Copy, PartialEq)]
pub enum LexError {
    /// A character outside the language, at its offset.
    UnrecognizedChar { offset: usize, character: char },
    /// A numeric literal that leaves the 64-bit range, at its offset.
    NumberTooLarge { offset: usize },
}

/// The view of a token list.
pub open spec fn toks_view(ts: Seq<Token>) -> Seq<TokenV> {
    ts.map_values(|t: Token| t@)
}

/// Decimal digit.
pub open spec fn is_digit(c: char) -> bool {
    48 <= c as u32 && c as u32 <= 57
}

/// ASCII letter or underscore; what identifiers are made of.
pub open spec fn is_ident_char(c: char) -> bool {
    (65 <= c as u32 && c as u32 <= 90) || (97 <= c as u32 && c as u32 <= 122) || c == '_'
}

/// Whitespace separating tokens.
pub open spec fn is_space(c: char) -> bool {
    c == ' ' || c == '\t' || c == '\r' || c == '\n'
}

/// The numeric value of a digit character.
pub open spec fn digit_val(c: char) -> u64 {
    ((c as u32) - 48) as u64
}

/// Accumulate a run of digits from `i` into `acc`; `None` records that the
/// value left the 64-bit range. Returns the position after the run and the
/// accumulated value.
pub open spec fn scan_int(s: Seq<char>, i: int, acc: Option<u64>) -> (int, Option<u64>)
    decreases s.len() - i,
    when 0 <= i
{
    if i < s.len() && is_digit(s[i]) {
        let step = match acc {
            Some(a) => if a <= (u64::MAX - digit_val(s[i])) / 10 {
                Some((a * 10 + digit_val(s[i])) as u64)
            } else {
                None
            },
            None => None,
        };
        scan_int(s, i + 1, step)
    } else {
        (i, acc)
    }
}

/// Accumulate fraction digits: the numerator as in `scan_int`, and the
/// denominator multiplied by ten per digit, both saturating to `None`.
pub open spec fn scan_frac(s: Seq<char>, i: int, num: Option<u64>, den: Option<u64>) -> (
    int,
    Option<u64>,
    Option<u64>,
)
    decreases s.len() - i,
    when 0 <= i
{
    if i < s.len() && is_digit(s[i]) {
        let num2 = match num {
            Some(a) => if a <= (u64::MAX - digit_val(s[i])) / 10 {
                Some((a * 10 + digit_val(s[i])) as u64)
            } else {
                None
            },
            None => None,
        };
        let den2 = match den {
            Some(d) => if d <= u64::MAX / 10 {
                Some((d * 10) as u64)
            } else {
                None
            },
            None => None,
        };
        scan_frac(s, i + 1, num2, den2)
    } else {
        (i, num, den)
    }
}

/// The end of the identifier run beginning at `i`.
pub open spec fn ident_end(s: Seq<char>, i: int) -> int
    decreases s.len() - i,
    when 0 <= i
{
    if i < s.len() && is_ident_char(s[i]) {
        ident_end(s, i + 1)
    } else {
        i
    }
}

/// Positions returned by `scan_int` stay within the line and advance over
/// at least the first digit.
pub proof fn lemma_scan_int_bounds(s: Seq<char>, i: int, acc: Option<u64>)
    requires
        0 <= i <= s.len(),
    ensures
        i <= scan_int(s, i, acc).0 <= s.len(),
        i < s.len() && is_digit(s[i]) ==> scan_int(s, i, acc).0 >= i + 1,
    decreases s.len() - i,
{
    if i < s.len() && is_digit(s[i]) {
        let step = match acc {
            Some(a) => if a <= (u64::MAX - digit_val(s[i])) / 10 {
                Some((a * 10 + digit_val(s[i])) as u64)
            } else {
                None
            },
            None => None,
        };
        lemma_scan_int_bounds(s, i + 1, step);
    }
}

/// The same bounds for the fraction scan.
pub proof fn lemma_scan_frac_bounds(s: Seq<char>, i: int, num: Option<u64>, den: Option<u64>)
    requires
        0 <= i <= s.len(),
    ensures
        i <= scan_frac(s, i, num, den).0 <= s.len(),
    decreases s.len() - i,
{
    if i < s.len() && is_digit(s[i]) {
        let num2 = match num {
            Some(a) => if a <= (u64::MAX - digit_val(s[i])) / 10 {
                Some((a * 10 + digit_val(s[i])) as u64)
            } else {
                None
            },
            None => None,
        };
        let den2 = match den {
            Some(d) => if d <= u64::MAX / 10 {
                Some((d * 10) as u64)
            } else {
                None
            },
            None => None,
        };
        lemma_scan_frac_bounds(s, i + 1, num2, den2);
    }
}

/// The same bounds for identifier runs.
pub proof fn lemma_ident_end_bounds(s: Seq<char>, i: int)
    requires
        0 <= i <= s.len(),
    ensures
        i <= ident_end(s, i) <= s.len(),
        i < s.len() && is_ident_char(s[i]) ==> ident_end(s, i) >= i + 1,
    decreases s.len() - i,
{
    if i < s.len() && is_ident_char(s[i]) {
        lemma_ident_end_bounds(s, i + 1);
    }
}

/// Prepend a token to the rest of a lexing outcome.
pub open spec fn cons_tok(t: TokenV, rest: Result<Seq<TokenV>, LexError>) -> Result<
    Seq<TokenV>,
    LexError,
> {
    match rest {
        Ok(r) => Ok(seq![t] + r),
        Err(e) => Err(e),
    }
}

/// Lex the line from position `i` on: the token starting at `i` (greedily
/// scanned) followed by the lexing of what remains, ending in `EndOfInput`.
pub open spec fn lex_from(s: Seq<char>, i: int) -> Result<Seq<TokenV>, LexError>
    decreases s.len() - i,
    when 0 <= i
    via lex_from_dec
{
    if i >= s.len() {
        Ok(seq![TokenV::EndOfInput])
    } else {
        let c = s[i];
        if is_space(c) {
            lex_from(s, i + 1)
        } else if is_digit(c) {
            let (j, acc) = scan_int(s, i, Some(0u64));
            match acc {
                None => Err(LexError::NumberTooLarge { offset: i as usize }),
                Some(num) => if j < s.len() && s[j] == '.' && j + 1 < s.len() && is_digit(
                    s[j + 1],
                ) {
                    let (k, num2, den2) = scan_frac(s, j + 1, Some(num), Some(1u64));
                    match (num2, den2) {
                        (Some(n2), Some(d2)) => cons_tok(
                            TokenV::Number { num: n2, den: d2 },
                            lex_from(s, k),
                        ),
                        _ => Err(LexError::NumberTooLarge { offset: i as usize }),
                    }
                } else {
                    cons_tok(TokenV::Number { num, den: 1 }, lex_from(s, j))
                },
            }
        } else if is_ident_char(c) {
            let j = ident_end(s, i);
            cons_tok(TokenV::Identifier(s.subrange(i, j)), lex_from(s, j))
        } else if c == '+' {
            cons_tok(TokenV::Operator(OpSymbol::Plus), lex_from(s, i + 1))
        } else if c == '-' {
            cons_tok(TokenV::Operator(OpSymbol::Minus), lex_from(s, i + 1))
        } else if c == '*' {
            cons_tok(TokenV::Operator(OpSymbol::Star), lex_from(s, i + 1))
        } else if c == '/' {
            cons_tok(TokenV::Operator(OpSymbol::Slash), lex_from(s, i + 1))
        } else if c == '=' {
            cons_tok(TokenV::Operator(OpSymbol::Equal), lex_from(s, i + 1))
        } else if c == '(' {
            cons_tok(TokenV::Punctuation(PunctSymbol::LeftParen), lex_from(s, i + 1))
        } else if c == ')' {
            cons_tok(TokenV::Punctuation(PunctSymbol::RightParen), lex_from(s, i + 1))
        } else {
            Err(LexError::UnrecognizedChar { offset: i as usize, character: c })
        }
    }
}

#[via_fn]
proof fn lex_from_dec(s: Seq<char>, i: int) {
    if 0 <= i < s.len() {
        if is_digit(s[i]) {
            lemma_scan_int_bounds(s, i, Some(0u64));
            let (j, acc) = scan_int(s, i, Some(0u64));
            if j + 1 < s.len() {
                lemma_scan_frac_bounds(s, j + 1, acc, Some(1u64));
                if acc is Some {
                    lemma_scan_frac_bounds(s, j + 1, Some(acc->0), Some(1u64));
                }
            }
        }
        if is_ident_char(s[i]) {
            lemma_ident_end_bounds(s, i);
        }
    }
}

/// What the whole line lexes to.
pub open spec fn lex_spec(s: Seq<char>) -> Result<Seq<TokenV>, LexError> {
    lex_from(s, 0)
}

/// The view of a lexing result.
pub open spec fn lex_result_view(r: Result<Vec<Token>, LexError>) -> Result<
    Seq<TokenV>,
    LexError,
> {
    match r {
        Ok(v) => Ok(toks_view(v@)),
        Err(e) => Err(e),
    }
}

proof fn lemma_toks_view_push(ts: Seq<Token>, t: Token)
    ensures
        toks_view(ts.push(t)) == toks_view(ts).push(t@),
{
    assert(toks_view(ts.push(t)) =~= toks_view(ts).push(t@));
}

/// The numeric value of a digit character, executably.
fn digit_val_ex(c: char) -> (d: u64)
    requires
        is_digit(c),
    ensures
        d == digit_val(c),
        d <= 9,
{
    ((c as u32) - 48) as u64
}

/// The saturating accumulation step shared by the scanners.
fn acc_step(acc: Option<u64>, d: u64) -> (r: Option<u64>)
    requires
        d <= 9,
    ensures
        r == match acc {
            Some(a) => if a <= (u64::MAX - d) / 10 {
                Some((a * 10 + d) as u64)
            } else {
                None::<u64>
            },
            None => None::<u64>,
        },
{
    match acc {
        Some(a) => {
            if a <= (u64::MAX - d) / 10 {
                proof {
                    vstd::arithmetic::div_mod::lemma_fundamental_div_mod(
                        (u64::MAX - d) as int,
                        10,
                    );
                }
                Some(a * 10 + d)
            } else {
                None
            }
        },
        None => None,
    }
}

/// Executable mirror of `scan_int`, starting with an empty accumulator.
fn scan_int_ex(s: &str, from: usize) -> (r: (usize, Option<u64>))
    requires
        from as int <= s@.len(),
    ensures
        (r.0 as int, r.1) == scan_int(s@, from as int, Some(0u64)),
{
    let n = s.unicode_len();
    let mut i: usize = from;
    let mut acc: Option<u64> = Some(0);
    while i < n
        invariant
            from <= i <= n,
            n == s@.len(),
            scan_int(s@, from as int, Some(0u64)) == scan_int(s@, i as int, acc),
        decreases n - i,
    {
        let c = s.get_char(i);
        if 48 <= c as u32 && c as u32 <= 57 {
            let d = digit_val_ex(c);
            acc = acc_step(acc, d);
            i += 1;
        } else {
            return (i, acc);
        }
    }
    (i, acc)
}

/// Executable mirror of `scan_frac`, starting from the integer part's value
/// and a denominator of one.
fn scan_frac_ex(s: &str, from: usize, num0: u64) -> (r: (usize, Option<u64>, Option<u64>))
    requires
        from as int <= s@.len(),
    ensures
        (r.0 as int, r.1, r.2) == scan_frac(s@, from as int, Some(num0), Some(1u64)),
{
    let n = s.unicode_len();
    let mut i: usize = from;
    let mut num: Option<u64> = Some(num0);
    let mut den: Option<u64> = Some(1);
    while i < n
        invariant
            from <= i <= n,
            n == s@.len(),
            scan_frac(s@, from as int, Some(num0), Some(1u64)) == scan_frac(
                s@,
                i as int,
                num,
                den,
            ),
        decreases n - i,
    {
        let c = s.get_char(i);
        if 48 <= c as u32 && c as u32 <= 57 {
            let d = digit_val_ex(c);
            num = acc_step(num, d);
            den = match den {
                Some(dd) => {
                    if dd <= u64::MAX / 10 {
                        proof {
                            vstd::arithmetic::div_mod::lemma_fundamental_div_mod(
                                u64::MAX as int,
                                10,
                            );
                        }
                        Some(dd * 10)
                    } else {
                        None
                    }
                },
                None => None,
            };
            i += 1;
        } else {
            return (i, num, den);
        }
    }
    (i, num, den)
}

/// Executable mirror of `ident_end`.
fn ident_end_ex(s: &str, from: usize) -> (j: usize)
    requires
        from as int <= s@.len(),
    ensures
        j as int == ident_end(s@, from as int),
        from <= j <= s@.len(),
{
    let n = s.unicode_len();
    let mut i: usize = from;
    while i < n
        invariant
            from <= i <= n,
            n == s@.len(),
            ident_end(s@, from as int) == ident_end(s@, i as int),
        decreases n - i,
    {
        let c = s.get_char(i);
        if (65 <= c as u32 && c as u32 <= 90) || (97 <= c as u32 && c as u32 <= 122) || c
            == '_' {
            i += 1;
        } else {
            return i;
        }
    }
    i
}

/// The loop relation of `lex`: the tokens taken so far, followed by what the
/// rest of the line lexes to, is what the whole line lexes to.
spec fn lex_prefix(s: Seq<char>, i: int, done: Seq<TokenV>) -> bool {
    match lex_from(s, i) {
        Ok(rest) => lex_from(s, 0) == Ok::<Seq<TokenV>, LexError>(done + rest),
        Err(e) => lex_from(s, 0) == Err::<Seq<TokenV>, LexError>(e),
    }
}

/// Lex one line into tokens; the executable mirror of `lex_spec`. The token
/// list always ends with `EndOfInput`.
pub fn lex(s: &str) -> (r: Result<Vec<Token>, LexError>)
    ensures
        lex_result_view(r) == lex_spec(s@),
{
    let n = s.unicode_len();
    let mut i: usize = 0;
    let mut out: Vec<Token> = Vec::new();
    while i < n
        invariant
            0 <= i <= n,
            n == s@.len(),
            lex_prefix(s@, i as int, toks_view(out@)),
        decreases n - i,
    {
        let ghost i0 = i as int;
        let ghost done0 = toks_view(out@);
        let c = s.get_char(i);
        let u = c as u32;
        if u == 32 || u == 9 || u == 13 || u == 10 {
            i += 1;
        } else if 48 <= u && u <= 57 {
            let (j, acc) = scan_int_ex(s, i);
            proof {
                lemma_scan_int_bounds(s@, i as int, Some(0u64));
            }
            match acc {
                None => {
                    return Err(LexError::NumberTooLarge { offset: i });
                },
                Some(num) => {
                    let has_frac = j < n && s.get_char(j) == '.' && j + 1 < n && {
                        let c2 = s.get_char(j + 1);
                        48 <= c2 as u32 && c2 as u32 <= 57
                    };
                    if has_frac {
                        let (k, num2, den2) = scan_frac_ex(s, j + 1, num);
                        proof {
                            lemma_scan_frac_bounds(s@, j as int + 1, Some(num), Some(1u64));
                        }
                        match (num2, den2) {
                            (Some(n2), Some(d2)) => {
                                let tok = Token::Number { num: n2, den: d2 };
                                proof {
                                    lemma_toks_view_push(out@, tok);
                                    lemma_lex_prefix_step(s@, i0, k as int, done0, tok@);
                                }
                                out.push(tok);
                                i = k;
                            },
                            _ => {
                                return Err(LexError::NumberTooLarge { offset: i });
                            },
                        }
                    } else {
                        let tok = Token::Number { num, den: 1 };
                        proof {
                            lemma_toks_view_push(out@, tok);
                            lemma_lex_prefix_step(s@, i0, j as int, done0, tok@);
                        }
                        out.push(tok);
                        i = j;
                    }
                },
            }
        } else if (65 <= u && u <= 90) || (97 <= u && u <= 122) || c == '_' {
            let j = ident_end_ex(s, i);
            proof {
                lemma_ident_end_bounds(s@, i as int);
            }
            let name = s.substring_char(i, j).to_owned();
            let tok = Token::Identifier(name);
            proof {
                lemma_toks_view_push(out@, tok);
                lemma_lex_prefix_step(s@, i0, j as int, done0, tok@);
            }
            out.push(tok);
            i = j;
        } else if c == '+' || c == '-' || c == '*' || c == '/' || c == '=' || c == '(' || c
            == ')' {
            let tok = if c == '+' {
                Token::Operator(OpSymbol::Plus)
            } else if c == '-' {
                Token::Operator(OpSymbol::Minus)
            } else if c == '*' {
                Token::Operator(OpSymbol::Star)
            } else if c == '/' {
                Token::Operator(OpSymbol::Slash)
            } else if c == '=' {
                Token::Operator(OpSymbol::Equal)
            } else if c == '(' {
                Token::Punctuation(PunctSymbol::LeftParen)
            } else {
                Token::Punctuation(PunctSymbol::RightParen)
            };
            proof {
                lemma_toks_view_push(out@, tok);
                lemma_lex_prefix_step(s@, i0, i0 + 1, done0, tok@);
            }
            out.push(tok);
            i += 1;
        } else {
            return Err(LexError::UnrecognizedChar { offset: i, character: c });
        }
    }
    let tok = Token::EndOfInput;
    proof {
        lemma_toks_view_push(out@, tok);
        assert(toks_view(out@.push(tok)) =~= toks_view(out@) + seq![TokenV::EndOfInput]);
    }
    out.push(tok);
    Ok(out)
}

/// One step of the loop relation: taking the token that starts at `i` and
/// moving to `j` keeps the relation.
proof fn lemma_lex_prefix_step(s: Seq<char>, i: int, j: int, done: Seq<TokenV>, t: TokenV)
    requires
        lex_prefix(s, i, done),
        lex_from(s, i) == cons_tok(t, lex_from(s, j)),
    ensures
        lex_prefix(s, j, done.push(t)),
{
    match lex_from(s, j) {
        Ok(rest) => {
            assert(done + (seq![t] + rest) =~= done.push(t) + rest);
        },
        Err(e) => {},
    }
}

} // verus!
