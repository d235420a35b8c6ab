//! The tokenizer: a command line becomes a sequence of (kind, lexeme) pairs,
//! taking at each position the longest lexeme of any kind.
use vstd::prelude::*;
use crate::scan::{
    at, char_len, command_len, file_name_len, float_len, ident_len, int_len, is_space, lemma_lengths_bound, lemma_string_end_bound, scan_char,
    scan_command, scan_file_name, scan_float, scan_ident, scan_int, scan_string, string_len,
};
use crate::text::{chars_of, string_of};

verus! {

/// The lexical kinds of a command line.
#[derive(Clone, Copy, Debug, PartialEq, Eq, Structural)]
pub enum Token {
    Id,
    FileName,
    CString,
    CFloat,
    CInt,
    CChar,
    LParen,
    RParen,
    Minus,
    Plus,
    Star,
    Slash,
    EqEq,
    BangEq,
    Le,
    Lt,
    Ge,
    Gt,
    Bang,
    /// Whitespace: skipped, never emitted.
    WS,
    Command,
}

/// The operator at `i` and its length (length 0: none).
pub open spec fn operator_at(s: Seq<char>, i: int) -> (Token, nat) {
    let c = at(s, i);
    let d = at(s, i + 1);
    if c == '(' {
        (Token::LParen, 1)
    } else if c == ')' {
        (Token::RParen, 1)
    } else if c == '-' {
        (Token::Minus, 1)
    } else if c == '+' {
        (Token::Plus, 1)
    } else if c == '*' {
        (Token::Star, 1)
    } else if c == '/' {
        (Token::Slash, 1)
    } else if c == '=' && d == '=' {
        (Token::EqEq, 2)
    } else if c == '!' && d == '=' {
        (Token::BangEq, 2)
    } else if c == '!' {
        (Token::Bang, 1)
    } else if c == '<' && d == '=' {
        (Token::Le, 2)
    } else if c == '<' {
        (Token::Lt, 1)
    } else if c == '>' && d == '=' {
        (Token::Ge, 2)
    } else if c == '>' {
        (Token::Gt, 1)
    } else {
        (Token::Id, 0)
    }
}

/// `m`, unless `n` is strictly longer: then `(t, n)`.
pub open spec fn longer(m: (Token, nat), t: Token, n: nat) -> (Token, nat) {
    if n > m.1 {
        (t, n)
    } else {
        m
    }
}

/// The kind and length of the longest lexeme at `i`; among equally long ones
/// the first of: operator, identifier, file name, float, integer, string,
/// character, command.
pub open spec fn best_match(s: Seq<char>, i: int) -> (Token, nat) {
    longer(
        longer(
            longer(
                longer(
                    longer(
                        longer(
                            longer(operator_at(s, i), Token::Id, ident_len(s, i)),
                            Token::FileName,
                            file_name_len(s, i),
                        ),
                        Token::CFloat,
                        float_len(s, i),
                    ),
                    Token::CInt,
                    int_len(s, i),
                ),
                Token::CString,
                string_len(s, i),
            ),
            Token::CChar,
            char_len(s, i),
        ),
        Token::Command,
        command_len(s, i),
    )
}

/// The lexeme kept for a matched text: quotes are stripped from strings and
/// characters; other kinds keep the text.
pub open spec fn lexeme(t: Token, w: Seq<char>) -> Seq<char> {
    match t {
        Token::CString => w.subrange(1, w.len() - 1),
        Token::CChar => w.subrange(1, 2),
        _ => w,
    }
}

/// The tokens of `s` from position `i` on, and how many unrecognized
/// characters were skipped: whitespace is dropped, a character that starts no
/// lexeme is counted and skipped, otherwise the longest lexeme is taken.
pub open spec fn lex_from(s: Seq<char>, i: int) -> (Seq<(Token, Seq<char>)>, nat)
    decreases s.len() - i
    via lex_from_decreases
{
    if i < 0 || i >= s.len() {
        (Seq::empty(), 0)
    } else if is_space(s[i]) {
        lex_from(s, i + 1)
    } else {
        let m = best_match(s, i);
        if m.1 == 0 {
            let r = lex_from(s, i + 1);
            (r.0, r.1 + 1)
        } else {
            let r = lex_from(s, i + m.1);
            (seq![(m.0, lexeme(m.0, s.subrange(i, i + m.1)))] + r.0, r.1)
        }
    }
}

#[via_fn]
proof fn lex_from_decreases(s: Seq<char>, i: int) {
    if 0 <= i < s.len() {
        lemma_lengths_bound(s, i);
    }
}

/// The tokens of a whole line.
pub open spec fn lex_spec(s: Seq<char>) -> Seq<(Token, Seq<char>)> {
    lex_from(s, 0).0
}

/// The token pairs with their lexemes viewed as character sequences.
pub open spec fn tokens_view(v: Seq<(Token, String)>) -> Seq<(Token, Seq<char>)> {
    v.map_values(|p: (Token, String)| (p.0, p.1@))
}

fn operator_scan(s: &Vec<char>, i: usize) -> (r: (Token, usize))
    requires
        i <= s.len(),
    ensures
        (r.0, r.1 as nat) == operator_at(s@, i as int),
        i + r.1 <= s.len(),
{
    let (c, d) = if i < s.len() {
        (s[i], if i + 1 < s.len() { s[i + 1] } else { '\0' })
    } else {
        ('\0', '\0')
    };
    if c == '(' {
        (Token::LParen, 1)
    } else if c == ')' {
        (Token::RParen, 1)
    } else if c == '-' {
        (Token::Minus, 1)
    } else if c == '+' {
        (Token::Plus, 1)
    } else if c == '*' {
        (Token::Star, 1)
    } else if c == '/' {
        (Token::Slash, 1)
    } else if c == '=' && d == '=' {
        (Token::EqEq, 2)
    } else if c == '!' && d == '=' {
        (Token::BangEq, 2)
    } else if c == '!' {
        (Token::Bang, 1)
    } else if c == '<' && d == '=' {
        (Token::Le, 2)
    } else if c == '<' {
        (Token::Lt, 1)
    } else if c == '>' && d == '=' {
        (Token::Ge, 2)
    } else if c == '>' {
        (Token::Gt, 1)
    } else {
        (Token::Id, 0)
    }
}

/// The kind and length of the longest lexeme at `i`.
pub fn longest_match(s: &Vec<char>, i: usize) -> (r: (Token, usize))
    requires
        i <= s.len(),
    ensures
        (r.0, r.1 as nat) == best_match(s@, i as int),
        i + r.1 <= s.len(),
{
    let mut m = operator_scan(s, i);
    let n = scan_ident(s, i);
    if n > m.1 {
        m = (Token::Id, n);
    }
    let n = scan_file_name(s, i);
    if n > m.1 {
        m = (Token::FileName, n);
    }
    let n = scan_float(s, i);
    if n > m.1 {
        m = (Token::CFloat, n);
    }
    let n = scan_int(s, i);
    if n > m.1 {
        m = (Token::CInt, n);
    }
    let n = scan_string(s, i);
    if n > m.1 {
        m = (Token::CString, n);
    }
    let n = scan_char(s, i);
    if n > m.1 {
        m = (Token::CChar, n);
    }
    let n = scan_command(s, i);
    if n > m.1 {
        m = (Token::Command, n);
    }
    m
}

fn slice_chars(s: &Vec<char>, lo: usize, hi: usize) -> (r: Vec<char>)
    requires
        lo <= hi <= s.len(),
    ensures
        r@ == s@.subrange(lo as int, hi as int),
{
    let mut r: Vec<char> = Vec::new();
    let mut j: usize = lo;
    while j < hi
        invariant
            lo <= j <= hi <= s.len(),
            r@ == s@.subrange(lo as int, j as int),
        decreases hi - j,
    {
        r.push(s[j]);
        j = j + 1;
    }
    r
}

/// Tokenizes a line, and counts the characters that started no lexeme.
pub fn lex_report(cmd: &str) -> (r: (Vec<(Token, String)>, usize))
    ensures
        tokens_view(r.0@) == lex_spec(cmd@),
        r.1 == lex_from(cmd@, 0).1,
{
    let s = chars_of(cmd);
    let mut out: Vec<(Token, String)> = Vec::new();
    let mut errors: usize = 0;
    let mut i: usize = 0;
    while i < s.len()
        invariant
            i <= s.len(),
            s@ == cmd@,
            errors <= i,
            lex_from(s@, 0).0 == tokens_view(out@) + lex_from(s@, i as int).0,
            lex_from(s@, 0).1 == errors + lex_from(s@, i as int).1,
        decreases s.len() - i,
    {
        if s[i] == ' ' || s[i] == '\t' || s[i] == '\n' || s[i] == '\x0c' {
            i = i + 1;
        } else {
            let (t, n) = longest_match(&s, i);
            if n == 0 {
                errors = errors + 1;
                i = i + 1;
            } else {
                proof {
                    lemma_string_end_bound(s@, i + 1);
                    assert(t == Token::CString ==> n == string_len(s@, i as int));
                    assert(t == Token::CChar ==> n == char_len(s@, i as int));
                }
                let w = if t == Token::CString {
                    slice_chars(&s, i + 1, i + n - 1)
                } else if t == Token::CChar {
                    slice_chars(&s, i + 1, i + 2)
                } else {
                    slice_chars(&s, i, i + n)
                };
                let ghost old_out = out@;
                let text = string_of(w.as_slice());
                proof {
                    let m = best_match(s@, i as int);
                    assert(w@ == lexeme(m.0, s@.subrange(i as int, i + n)));
                }
                out.push((t, text));
                assert(tokens_view(out@) =~= tokens_view(old_out).push((t, w@)));
                i = i + n;
            }
        }
    }
    (out, errors)
}

/// Tokenizes a line: whitespace is dropped and characters that start no
/// lexeme are skipped.
pub fn lex(cmd: &str) -> (r: Vec<(Token, String)>)
    ensures
        tokens_view(r@) == lex_spec(cmd@),
{
    lex_report(cmd).0
}

} // verus!
