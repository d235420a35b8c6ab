//! Longest-match lengths of the lexical classes at a position of a line.
use vstd::prelude::*;

verus! {

/// The character classes that literal tokens are made of.
#[derive(Clone, Copy, PartialEq, Eq, Structural)]
pub enum CharClass {
    Digit,
    Octal,
    Hex,
    Binary,
    Word,
}

/// The character at `i`, or NUL outside the line.
pub open spec fn at(s: Seq<char>, i: int) -> char {
    if 0 <= i < s.len() {
        s[i]
    } else {
        '\0'
    }
}

pub open spec fn in_class(c: char, k: CharClass) -> bool {
    match k {
        CharClass::Digit => '0' <= c <= '9',
        CharClass::Octal => '0' <= c <= '7',
        CharClass::Hex => ('0' <= c <= '9') || ('a' <= c <= 'f') || ('A' <= c <= 'F'),
        CharClass::Binary => c == '0' || c == '1',
        CharClass::Word => ('0' <= c <= '9') || ('a' <= c <= 'z') || ('A' <= c <= 'Z') || c == '_',
    }
}

pub open spec fn is_ident_start(c: char) -> bool {
    ('a' <= c <= 'z') || ('A' <= c <= 'Z') || c == '_'
}

pub open spec fn is_space(c: char) -> bool {
    c == ' ' || c == '\t' || c == '\n' || c == '\x0c'
}

pub open spec fn is_sign(c: char) -> bool {
    c == '+' || c == '-'
}

/// Number of consecutive characters of class `k` starting at `i`.
pub open spec fn run_len(s: Seq<char>, i: int, k: CharClass) -> nat
    decreases s.len() - i,
{
    if 0 <= i < s.len() && in_class(s[i], k) {
        1 + run_len(s, i + 1, k)
    } else {
        0
    }
}

/// Length of an identifier `[a-zA-Z_][a-zA-Z0-9_]*` at `i` (0: none).
pub open spec fn ident_len(s: Seq<char>, i: int) -> nat {
    if is_ident_start(at(s, i)) {
        1 + run_len(s, i + 1, CharClass::Word)
    } else {
        0
    }
}

/// Length of the longest run of segments `\.[a-zA-Z0-9_]+` at `j`.
pub open spec fn dotted_tail(s: Seq<char>, j: int) -> nat
    decreases s.len() - j
    via dotted_tail_decreases
{
    if 0 <= j < s.len() && s[j] == '.' && run_len(s, j + 1, CharClass::Word) > 0 {
        1 + run_len(s, j + 1, CharClass::Word) + dotted_tail(
            s,
            j + 1 + run_len(s, j + 1, CharClass::Word),
        )
    } else {
        0
    }
}

/// Length of a dotted file name: an identifier and at least one dotted segment.
pub open spec fn file_name_len(s: Seq<char>, i: int) -> nat {
    let n = ident_len(s, i);
    if n > 0 && dotted_tail(s, i + n) > 0 {
        n + dotted_tail(s, i + n)
    } else {
        0
    }
}

/// Where a string body starting at `j` ends, just past its closing quote.
pub open spec fn string_end(s: Seq<char>, j: int) -> Option<int>
    decreases s.len() - j,
{
    if j < 0 || j >= s.len() {
        None
    } else if s[j] == '"' {
        Some(j + 1)
    } else if s[j] == '\\' {
        if j + 1 < s.len() && s[j + 1] != '\n' {
            string_end(s, j + 2)
        } else {
            None
        }
    } else {
        string_end(s, j + 1)
    }
}

/// Length of a double-quoted string literal at `i` (0: none).
pub open spec fn string_len(s: Seq<char>, i: int) -> nat {
    if at(s, i) == '"' {
        match string_end(s, i + 1) {
            Some(e) => (e - i) as nat,
            None => 0,
        }
    } else {
        0
    }
}

/// Length of a character literal `'c'` at `i` (0: none).
pub open spec fn char_len(s: Seq<char>, i: int) -> nat {
    if at(s, i) == '\'' && i + 2 < s.len() && s[i + 1] != '\n' && s[i + 2] == '\'' {
        3
    } else {
        0
    }
}

pub open spec fn sign_len(s: Seq<char>, i: int) -> nat {
    if is_sign(at(s, i)) {
        1
    } else {
        0
    }
}

/// Length of an integer literal at `i`: an optional sign, then hex `0x..`,
/// binary `0b..`, octal `0..` or decimal digits (0: none).
pub open spec fn int_len(s: Seq<char>, i: int) -> nat {
    let p = sign_len(s, i);
    let j = i + p;
    if at(s, j) == '0' {
        if (at(s, j + 1) == 'x' || at(s, j + 1) == 'X') && run_len(s, j + 2, CharClass::Hex) > 0 {
            p + 2 + run_len(s, j + 2, CharClass::Hex)
        } else if (at(s, j + 1) == 'b' || at(s, j + 1) == 'B') && run_len(s, j + 2, CharClass::Binary)
            > 0 {
            p + 2 + run_len(s, j + 2, CharClass::Binary)
        } else {
            p + 1 + run_len(s, j + 1, CharClass::Octal)
        }
    } else if '1' <= at(s, j) <= '9' {
        p + 1 + run_len(s, j + 1, CharClass::Digit)
    } else {
        0
    }
}

/// Length of an exponent `[eE][+-]?[0-9]+` at `k` (0: none).
pub open spec fn exp_len(s: Seq<char>, k: int) -> nat {
    if at(s, k) == 'e' || at(s, k) == 'E' {
        let q = sign_len(s, k + 1);
        if run_len(s, k + 1 + q, CharClass::Digit) > 0 {
            1 + q + run_len(s, k + 1 + q, CharClass::Digit)
        } else {
            0
        }
    } else {
        0
    }
}

/// Length of a floating-point literal at `i` (0: none): an optional sign and
/// digits around a decimal point with at least one digit, then an optional
/// exponent; or, with no point, digits and an exponent after an optional `-`.
pub open spec fn float_len(s: Seq<char>, i: int) -> nat {
    let p = sign_len(s, i);
    let d1 = run_len(s, i + p, CharClass::Digit);
    let k = i + p + d1;
    if at(s, k) == '.' {
        let d2 = run_len(s, k + 1, CharClass::Digit);
        if d1 + d2 > 0 {
            p + d1 + 1 + d2 + exp_len(s, k + 1 + d2)
        } else {
            0
        }
    } else if d1 > 0 && at(s, i) != '+' && exp_len(s, k) > 0 {
        p + d1 + exp_len(s, k)
    } else {
        0
    }
}

/// Whether the characters at `i + 1 ..` spell `w`.
pub open spec fn spells(s: Seq<char>, i: int, w: Seq<char>) -> bool {
    forall|m: int| 0 <= m < w.len() ==> at(s, i + 1 + m) == w[m]
}

/// Length of a colon command (`:const`, `:var`, `:ul`, `:ls`, `:pa`, `:t`,
/// or `:` with one of `rcdfvslp`) at `i` (0: none).
pub open spec fn command_len(s: Seq<char>, i: int) -> nat {
    if at(s, i) != ':' {
        0
    } else if spells(s, i, seq!['c', 'o', 'n', 's', 't']) {
        6
    } else if spells(s, i, seq!['v', 'a', 'r']) {
        4
    } else if spells(s, i, seq!['u', 'l']) || spells(s, i, seq!['l', 's']) || spells(
        s,
        i,
        seq!['p', 'a'],
    ) {
        3
    } else if at(s, i + 1) == 't' || at(s, i + 1) == 'r' || at(s, i + 1) == 'c' || at(s, i + 1)
        == 'd' || at(s, i + 1) == 'f' || at(s, i + 1) == 'v' || at(s, i + 1) == 's' || at(
        s,
        i + 1,
    ) == 'l' || at(s, i + 1) == 'p' {
        2
    } else {
        0
    }
}

pub proof fn lemma_run_len_bound(s: Seq<char>, i: int, k: CharClass)
    requires
        0 <= i <= s.len(),
    ensures
        run_len(s, i, k) <= s.len() - i,
    decreases s.len() - i,
{
    if i < s.len() {
        lemma_run_len_bound(s, i + 1, k);
    }
}

#[via_fn]
proof fn dotted_tail_decreases(s: Seq<char>, j: int) {
    if 0 <= j < s.len() {
        lemma_run_len_bound(s, j + 1, CharClass::Word);
    }
}

pub proof fn lemma_dotted_tail_bound(s: Seq<char>, j: int)
    requires
        0 <= j <= s.len(),
    ensures
        dotted_tail(s, j) <= s.len() - j,
    decreases s.len() - j,
{
    if j < s.len() && s[j] == '.' {
        lemma_run_len_bound(s, j + 1, CharClass::Word);
        let r = run_len(s, j + 1, CharClass::Word);
        if r > 0 {
            lemma_dotted_tail_bound(s, j + 1 + r);
        }
    }
}

pub proof fn lemma_string_end_bound(s: Seq<char>, j: int)
    requires
        0 <= j,
    ensures
        string_end(s, j) matches Some(e) ==> j < e <= s.len(),
    decreases s.len() - j,
{
    if 0 <= j < s.len() && s[j] != '"' {
        if s[j] == '\\' {
            if j + 1 < s.len() && s[j + 1] != '\n' {
                lemma_string_end_bound(s, j + 2);
            }
        } else {
            lemma_string_end_bound(s, j + 1);
        }
    }
}

proof fn lemma_exp_len_bound(s: Seq<char>, k: int)
    requires
        0 <= k <= s.len(),
    ensures
        exp_len(s, k) <= s.len() - k,
{
    if at(s, k) == 'e' || at(s, k) == 'E' {
        let q = sign_len(s, k + 1);
        lemma_run_len_bound(s, k + 1 + q, CharClass::Digit);
    }
}

/// No lexeme at `i` runs past the end of the line.
pub proof fn lemma_lengths_bound(s: Seq<char>, i: int)
    requires
        0 <= i < s.len(),
    ensures
        ident_len(s, i) <= s.len() - i,
        file_name_len(s, i) <= s.len() - i,
        string_len(s, i) <= s.len() - i,
        char_len(s, i) <= s.len() - i,
        int_len(s, i) <= s.len() - i,
        float_len(s, i) <= s.len() - i,
        command_len(s, i) <= s.len() - i,
{
    lemma_run_len_bound(s, i + 1, CharClass::Word);
    let n = ident_len(s, i);
    if n > 0 {
        lemma_dotted_tail_bound(s, i + n);
    }
    lemma_string_end_bound(s, i + 1);
    let p = sign_len(s, i);
    let j = i + p;
    if j < s.len() {
        lemma_run_len_bound(s, j + 1, CharClass::Octal);
        lemma_run_len_bound(s, j + 1, CharClass::Digit);
        if j + 1 < s.len() {
            lemma_run_len_bound(s, j + 2, CharClass::Hex);
            lemma_run_len_bound(s, j + 2, CharClass::Binary);
        }
    }
    lemma_run_len_bound(s, i + p, CharClass::Digit);
    let d1 = run_len(s, i + p, CharClass::Digit);
    let k = i + p + d1;
    lemma_exp_len_bound(s, k);
    if k < s.len() {
        lemma_run_len_bound(s, k + 1, CharClass::Digit);
        let d2 = run_len(s, k + 1, CharClass::Digit);
        lemma_exp_len_bound(s, k + 1 + d2);
    }
    if spells(s, i, seq!['c', 'o', 'n', 's', 't']) {
        assert(at(s, i + 1 + 4) == seq!['c', 'o', 'n', 's', 't'][4]);
    }
    if spells(s, i, seq!['v', 'a', 'r']) {
        assert(at(s, i + 1 + 2) == seq!['v', 'a', 'r'][2]);
    }
    if spells(s, i, seq!['u', 'l']) {
        assert(at(s, i + 1 + 1) == seq!['u', 'l'][1]);
    }
    if spells(s, i, seq!['l', 's']) {
        assert(at(s, i + 1 + 1) == seq!['l', 's'][1]);
    }
    if spells(s, i, seq!['p', 'a']) {
        assert(at(s, i + 1 + 1) == seq!['p', 'a'][1]);
    }
}

fn ch(s: &Vec<char>, i: usize, k: usize) -> (r: char)
    ensures
        r == at(s@, i + k),
{
    if i < s.len() && k < s.len() - i {
        s[i + k]
    } else {
        '\0'
    }
}

fn class_has(c: char, k: CharClass) -> (r: bool)
    ensures
        r == in_class(c, k),
{
    match k {
        CharClass::Digit => '0' <= c && c <= '9',
        CharClass::Octal => '0' <= c && c <= '7',
        CharClass::Hex => ('0' <= c && c <= '9') || ('a' <= c && c <= 'f') || ('A' <= c && c
            <= 'F'),
        CharClass::Binary => c == '0' || c == '1',
        CharClass::Word => ('0' <= c && c <= '9') || ('a' <= c && c <= 'z') || ('A' <= c && c
            <= 'Z') || c == '_',
    }
}

pub fn scan_run(s: &Vec<char>, i: usize, k: CharClass) -> (r: usize)
    requires
        i <= s.len(),
    ensures
        r == run_len(s@, i as int, k),
        i + r <= s.len(),
{
    let mut j: usize = i;
    while j < s.len() && class_has(s[j], k)
        invariant
            i <= j <= s.len(),
            run_len(s@, i as int, k) == (j - i) + run_len(s@, j as int, k),
        decreases s.len() - j,
    {
        j = j + 1;
    }
    j - i
}

pub fn scan_ident(s: &Vec<char>, i: usize) -> (r: usize)
    requires
        i <= s.len(),
    ensures
        r == ident_len(s@, i as int),
        i + r <= s.len(),
{
    let c = ch(s, i, 0);
    if ('a' <= c && c <= 'z') || ('A' <= c && c <= 'Z') || c == '_' {
        1 + scan_run(s, i + 1, CharClass::Word)
    } else {
        0
    }
}

pub fn scan_file_name(s: &Vec<char>, i: usize) -> (r: usize)
    requires
        i <= s.len(),
    ensures
        r == file_name_len(s@, i as int),
        i + r <= s.len(),
{
    let n = scan_ident(s, i);
    if n == 0 {
        return 0;
    }
    let mut j: usize = i + n;
    proof {
        lemma_dotted_tail_bound(s@, j as int);
    }
    while j < s.len() && s[j] == '.' && scan_run(s, j + 1, CharClass::Word) > 0
        invariant
            i + n <= j <= s.len(),
            dotted_tail(s@, (i + n) as int) == (j - i - n) + dotted_tail(s@, j as int),
            dotted_tail(s@, j as int) <= s.len() - j,
        decreases s.len() - j,
    {
        let r = scan_run(s, j + 1, CharClass::Word);
        proof {
            lemma_dotted_tail_bound(s@, j + 1 + r);
        }
        j = j + 1 + r;
    }
    if j > i + n {
        j - i
    } else {
        0
    }
}

pub fn scan_string(s: &Vec<char>, i: usize) -> (r: usize)
    requires
        i <= s.len(),
    ensures
        r == string_len(s@, i as int),
        i + r <= s.len(),
{
    if ch(s, i, 0) != '"' {
        return 0;
    }
    let mut j: usize = i + 1;
    while j < s.len() && s[j] != '"'
        invariant
            i < j <= s.len() + 1,
            string_end(s@, (i + 1) as int) == string_end(s@, j as int),
            at(s@, i as int) == '"',
        decreases s.len() + 1 - j,
    {
        if s[j] == '\\' {
            if j + 1 < s.len() && s[j + 1] != '\n' {
                j = j + 2;
            } else {
                return 0;
            }
        } else {
            j = j + 1;
        }
    }
    if j < s.len() {
        j + 1 - i
    } else {
        0
    }
}

pub fn scan_char(s: &Vec<char>, i: usize) -> (r: usize)
    requires
        i <= s.len(),
    ensures
        r == char_len(s@, i as int),
        i + r <= s.len(),
{
    if ch(s, i, 0) == '\'' && ch(s, i, 2) == '\'' && ch(s, i, 1) != '\n' {
        3
    } else {
        0
    }
}

fn scan_sign(s: &Vec<char>, i: usize) -> (r: usize)
    requires
        i <= s.len(),
    ensures
        r == sign_len(s@, i as int),
        i + r <= s.len(),
{
    let c = ch(s, i, 0);
    if c == '+' || c == '-' {
        1
    } else {
        0
    }
}

pub fn scan_int(s: &Vec<char>, i: usize) -> (r: usize)
    requires
        i <= s.len(),
    ensures
        r == int_len(s@, i as int),
        i + r <= s.len(),
{
    let p = scan_sign(s, i);
    let j = i + p;
    let c0 = ch(s, j, 0);
    if c0 == '0' {
        let c1 = ch(s, j, 1);
        if c1 == 'x' || c1 == 'X' {
            let h = scan_run(s, j + 2, CharClass::Hex);
            if h > 0 {
                return p + 2 + h;
            }
        }
        if c1 == 'b' || c1 == 'B' {
            let b = scan_run(s, j + 2, CharClass::Binary);
            if b > 0 {
                return p + 2 + b;
            }
        }
        p + 1 + scan_run(s, j + 1, CharClass::Octal)
    } else if '1' <= c0 && c0 <= '9' {
        p + 1 + scan_run(s, j + 1, CharClass::Digit)
    } else {
        0
    }
}

fn scan_exp(s: &Vec<char>, k: usize) -> (r: usize)
    requires
        k <= s.len(),
    ensures
        r == exp_len(s@, k as int),
        k + r <= s.len(),
{
    let c = ch(s, k, 0);
    if c == 'e' || c == 'E' {
        let q = scan_sign(s, k + 1);
        let d = scan_run(s, k + 1 + q, CharClass::Digit);
        if d > 0 {
            1 + q + d
        } else {
            0
        }
    } else {
        0
    }
}

pub fn scan_float(s: &Vec<char>, i: usize) -> (r: usize)
    requires
        i <= s.len(),
    ensures
        r == float_len(s@, i as int),
        i + r <= s.len(),
{
    let p = scan_sign(s, i);
    let d1 = scan_run(s, i + p, CharClass::Digit);
    let k = i + p + d1;
    if ch(s, k, 0) == '.' {
        let d2 = scan_run(s, k + 1, CharClass::Digit);
        if d1 + d2 > 0 {
            p + d1 + 1 + d2 + scan_exp(s, k + 1 + d2)
        } else {
            0
        }
    } else if d1 > 0 && ch(s, i, 0) != '+' {
        let e = scan_exp(s, k);
        if e > 0 {
            p + d1 + e
        } else {
            0
        }
    } else {
        0
    }
}

pub fn scan_command(s: &Vec<char>, i: usize) -> (r: usize)
    requires
        i <= s.len(),
    ensures
        r == command_len(s@, i as int),
        i + r <= s.len(),
{
    if ch(s, i, 0) != ':' {
        return 0;
    }
    let c1 = ch(s, i, 1);
    let c2 = ch(s, i, 2);
    let c3 = ch(s, i, 3);
    let c4 = ch(s, i, 4);
    let c5 = ch(s, i, 5);
    let r: usize = if c1 == 'c' && c2 == 'o' && c3 == 'n' && c4 == 's' && c5 == 't' {
        6
    } else if c1 == 'v' && c2 == 'a' && c3 == 'r' {
        4
    } else if (c1 == 'u' && c2 == 'l') || (c1 == 'l' && c2 == 's') || (c1 == 'p' && c2 == 'a') {
        3
    } else if c1 == 't' || c1 == 'r' || c1 == 'c' || c1 == 'd' || c1 == 'f' || c1 == 'v' || c1
        == 's' || c1 == 'l' || c1 == 'p' {
        2
    } else {
        0
    };
    proof {
        let ss = s@;
        let ii = i as int;
        if spells(ss, ii, seq!['c', 'o', 'n', 's', 't']) {
            assert(at(ss, ii + 1 + 0) == 'c');
            assert(at(ss, ii + 1 + 1) == 'o');
            assert(at(ss, ii + 1 + 2) == 'n');
            assert(at(ss, ii + 1 + 3) == 's');
            assert(at(ss, ii + 1 + 4) == 't');
        }
        if spells(ss, ii, seq!['v', 'a', 'r']) {
            assert(at(ss, ii + 1 + 0) == 'v');
            assert(at(ss, ii + 1 + 1) == 'a');
            assert(at(ss, ii + 1 + 2) == 'r');
        }
        if spells(ss, ii, seq!['u', 'l']) {
            assert(at(ss, ii + 1 + 0) == 'u');
            assert(at(ss, ii + 1 + 1) == 'l');
        }
        if spells(ss, ii, seq!['l', 's']) {
            assert(at(ss, ii + 1 + 0) == 'l');
            assert(at(ss, ii + 1 + 1) == 's');
        }
        if spells(ss, ii, seq!['p', 'a']) {
            assert(at(ss, ii + 1 + 0) == 'p');
            assert(at(ss, ii + 1 + 1) == 'a');
        }
        if r > 0 {
            assert(at(ss, ii + r - 1) != '\0');
        }
    }
    r
}

} // verus!
