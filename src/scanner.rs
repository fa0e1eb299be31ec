use vstd::prelude::*;

use crate::error::{Error, ErrorModel};
use crate::parser::{closed_stream, eof_ahead};
use crate::token::{spelled_right, well_spelled, literal_model, Literal, LiteralModel, Token, TokenModel, TokenType};

verus! {

pub open spec fn is_digit(c: char) -> bool {
    '0' <= c && c <= '9'
}

pub open spec fn is_alpha(c: char) -> bool {
    ('a' <= c && c <= 'z') || ('A' <= c && c <= 'Z') || c == '_'
}

pub open spec fn is_alnum(c: char) -> bool {
    is_digit(c) || is_alpha(c)
}

/// The first index at or after `i` that does not hold a digit.
pub open spec fn skip_digits(s: Seq<char>, i: int) -> int
    decreases s.len() - i,
{
    if 0 <= i < s.len() && is_digit(s[i]) {
        skip_digits(s, i + 1)
    } else {
        i
    }
}

/// The first index at or after `i` that does not hold a letter, digit or underscore.
pub open spec fn skip_alnum(s: Seq<char>, i: int) -> int
    decreases s.len() - i,
{
    if 0 <= i < s.len() && is_alnum(s[i]) {
        skip_alnum(s, i + 1)
    } else {
        i
    }
}

/// The first index at or after `i` that holds `stop`, or the end of `s`.
pub open spec fn skip_until(s: Seq<char>, i: int, stop: char) -> int
    decreases s.len() - i,
{
    if 0 <= i < s.len() && s[i] != stop {
        skip_until(s, i + 1, stop)
    } else {
        i
    }
}

/// Number of line feeds in `s`.
pub open spec fn newlines(s: Seq<char>) -> nat
    decreases s.len(),
{
    if s.len() == 0 {
        0
    } else {
        newlines(s.drop_last()) + if s.last() == '\n' { 1nat } else { 0nat }
    }
}

/// End of a number lexeme that starts with the digit at `start`: the digits, and a
/// fractional part only where a point is followed by at least one digit.
pub open spec fn number_end(s: Seq<char>, start: int) -> int {
    let a = skip_digits(s, start + 1);
    if 0 <= a && a + 1 < s.len() && s[a] == '.' && is_digit(s[a + 1]) {
        skip_digits(s, a + 1)
    } else {
        a
    }
}

/// The reserved word spelled by `s`, if any.
pub open spec fn keyword(s: Seq<char>) -> Option<TokenType> {
    if s == "and"@ {
        Some(TokenType::AND)
    } else if s == "class"@ {
        Some(TokenType::CLASS)
    } else if s == "else"@ {
        Some(TokenType::ELSE)
    } else if s == "false"@ {
        Some(TokenType::FALSE)
    } else if s == "for"@ {
        Some(TokenType::FOR)
    } else if s == "fun"@ {
        Some(TokenType::FUN)
    } else if s == "if"@ {
        Some(TokenType::IF)
    } else if s == "nil"@ {
        Some(TokenType::NIL)
    } else if s == "or"@ {
        Some(TokenType::OR)
    } else if s == "print"@ {
        Some(TokenType::PRINT)
    } else if s == "return"@ {
        Some(TokenType::RETURN)
    } else if s == "super"@ {
        Some(TokenType::SUPER)
    } else if s == "this"@ {
        Some(TokenType::THIS)
    } else if s == "true"@ {
        Some(TokenType::TRUE)
    } else if s == "var"@ {
        Some(TokenType::VAR)
    } else if s == "while"@ {
        Some(TokenType::WHILE)
    } else {
        None
    }
}

pub open spec fn unexpected_character() -> Seq<char> {
    "Unexpected character"@
}

pub open spec fn unterminated_string() -> Seq<char> {
    "Unterminated string."@
}

/// The outcome of one scanning step: where the next step starts, the line
/// reached, and the token or error it produced, if any.
pub struct Step {
    pub next: int,
    pub line: nat,
    pub token: Option<TokenModel>,
    pub error: Option<ErrorModel>,
}

pub open spec fn plain(s: Seq<char>, start: int, end: int, kind: TokenType, line: nat) -> Step {
    Step {
        next: end,
        line,
        token: Some(TokenModel { kind, lexeme: s.subrange(start, end), line, literal: None }),
        error: None,
    }
}

pub open spec fn skip(next: int, line: nat) -> Step {
    Step { next, line, token: None, error: None }
}

/// A one-character operator, or its two-character variant when `=` follows.
pub open spec fn with_equal(s: Seq<char>, start: int, line: nat, one: TokenType, two: TokenType) -> Step {
    if start + 1 < s.len() && s[start + 1] == '=' {
        plain(s, start, start + 2, two, line)
    } else {
        plain(s, start, start + 1, one, line)
    }
}

pub open spec fn string_step(s: Seq<char>, start: int, line: nat) -> Step {
    let e = skip_until(s, start + 1, '"');
    let l = line + newlines(s.subrange(start + 1, e));
    if e >= s.len() {
        Step {
            next: s.len() as int,
            line: l,
            token: None,
            error: Some(ErrorModel { line: l, message: unterminated_string() }),
        }
    } else {
        Step {
            next: e + 1,
            line: l,
            token: Some(TokenModel {
                kind: TokenType::STRING,
                lexeme: s.subrange(start, e + 1),
                line: l,
                literal: Some(LiteralModel::Text(s.subrange(start + 1, e))),
            }),
            error: None,
        }
    }
}

pub open spec fn number_step(s: Seq<char>, start: int, line: nat) -> Step {
    let e = number_end(s, start);
    Step {
        next: e,
        line,
        token: Some(TokenModel {
            kind: TokenType::NUMBER,
            lexeme: s.subrange(start, e),
            line,
            literal: Some(LiteralModel::Number(s.subrange(start, e))),
        }),
        error: None,
    }
}

pub open spec fn identifier_step(s: Seq<char>, start: int, line: nat) -> Step {
    let e = skip_alnum(s, start + 1);
    let kind = match keyword(s.subrange(start, e)) {
        Some(k) => k,
        None => TokenType::IDENTIFIER,
    };
    plain(s, start, e, kind, line)
}

/// One scanning step on the character at `start` (which is in bounds).
pub open spec fn step(s: Seq<char>, start: int, line: nat) -> Step {
    let c = s[start];
    if c == '(' {
        plain(s, start, start + 1, TokenType::LEFT_PAREN, line)
    } else if c == ')' {
        plain(s, start, start + 1, TokenType::RIGHT_PAREN, line)
    } else if c == '{' {
        plain(s, start, start + 1, TokenType::LEFT_BRACE, line)
    } else if c == '}' {
        plain(s, start, start + 1, TokenType::RIGHT_BRACE, line)
    } else if c == ',' {
        plain(s, start, start + 1, TokenType::COMMA, line)
    } else if c == '.' {
        plain(s, start, start + 1, TokenType::DOT, line)
    } else if c == '-' {
        plain(s, start, start + 1, TokenType::MINUS, line)
    } else if c == '+' {
        plain(s, start, start + 1, TokenType::PLUS, line)
    } else if c == '*' {
        plain(s, start, start + 1, TokenType::STAR, line)
    } else if c == ';' {
        plain(s, start, start + 1, TokenType::SEMICOLON, line)
    } else if c == '!' {
        with_equal(s, start, line, TokenType::BANG, TokenType::BANG_EQUAL)
    } else if c == '=' {
        with_equal(s, start, line, TokenType::EQUAL, TokenType::EQUAL_EQUAL)
    } else if c == '<' {
        with_equal(s, start, line, TokenType::LESS, TokenType::LESS_EQUAL)
    } else if c == '>' {
        with_equal(s, start, line, TokenType::GREATER, TokenType::GREATER_EQUAL)
    } else if c == '/' {
        if start + 1 < s.len() && s[start + 1] == '/' {
            skip(skip_until(s, start + 2, '\n'), line)
        } else {
            plain(s, start, start + 1, TokenType::SLASH, line)
        }
    } else if c == ' ' || c == '\r' || c == '\t' {
        skip(start + 1, line)
    } else if c == '\n' {
        skip(start + 1, line + 1)
    } else if c == '"' {
        string_step(s, start, line)
    } else if is_digit(c) {
        number_step(s, start, line)
    } else if is_alpha(c) {
        identifier_step(s, start, line)
    } else {
        Step {
            next: start + 1,
            line,
            token: None,
            error: Some(ErrorModel { line, message: unexpected_character() }),
        }
    }
}

pub open spec fn opt_seq<T>(o: Option<T>) -> Seq<T> {
    match o {
        Some(v) => seq![v],
        None => Seq::empty(),
    }
}

/// The tokens and errors of a scan.
pub struct Scan {
    pub tokens: Seq<TokenModel>,
    pub errors: Seq<ErrorModel>,
}

pub open spec fn eof_token(line: nat) -> TokenModel {
    TokenModel { kind: TokenType::EOF, lexeme: Seq::empty(), line, literal: None }
}

/// What scanning `s` from index `pos` on, at line `line`, produces: the tokens up to
/// and including the closing end-of-file token, and the lexical errors met.
pub open spec fn scan_from(s: Seq<char>, pos: int, line: nat) -> Scan
    decreases s.len() - pos via scan_from_decreases
{
    if pos < 0 || pos >= s.len() {
        Scan { tokens: seq![eof_token(line)], errors: Seq::empty() }
    } else {
        let st = step(s, pos, line);
        let rest = scan_from(s, st.next, st.line);
        Scan { tokens: opt_seq(st.token) + rest.tokens, errors: opt_seq(st.error) + rest.errors }
    }
}

/// What scanning the whole of `s` produces.
pub open spec fn scan(s: Seq<char>) -> Scan {
    scan_from(s, 0, 1)
}

proof fn lemma_skip_digits(s: Seq<char>, i: int)
    requires
        0 <= i <= s.len(),
    ensures
        i <= skip_digits(s, i) <= s.len(),
        forall|k: int| i <= k < skip_digits(s, i) ==> is_digit(s[k]),
        skip_digits(s, i) < s.len() ==> !is_digit(s[skip_digits(s, i)]),
    decreases s.len() - i,
{
    if i < s.len() && is_digit(s[i]) {
        lemma_skip_digits(s, i + 1);
    }
}

proof fn lemma_skip_alnum(s: Seq<char>, i: int)
    requires
        0 <= i <= s.len(),
    ensures
        i <= skip_alnum(s, i) <= s.len(),
        forall|k: int| i <= k < skip_alnum(s, i) ==> is_alnum(s[k]),
        skip_alnum(s, i) < s.len() ==> !is_alnum(s[skip_alnum(s, i)]),
    decreases s.len() - i,
{
    if i < s.len() && is_alnum(s[i]) {
        lemma_skip_alnum(s, i + 1);
    }
}

proof fn lemma_skip_until(s: Seq<char>, i: int, stop: char)
    requires
        0 <= i <= s.len(),
    ensures
        i <= skip_until(s, i, stop) <= s.len(),
        forall|k: int| i <= k < skip_until(s, i, stop) ==> s[k] != stop,
        skip_until(s, i, stop) < s.len() ==> s[skip_until(s, i, stop)] == stop,
    decreases s.len() - i,
{
    if i < s.len() && s[i] != stop {
        lemma_skip_until(s, i + 1, stop);
    }
}

proof fn lemma_newlines_bound(s: Seq<char>)
    ensures
        newlines(s) <= s.len(),
    decreases s.len(),
{
    if s.len() > 0 {
        lemma_newlines_bound(s.drop_last());
    }
}

/// Each step moves forward, and the line grows by no more than the characters consumed.
proof fn lemma_step_advances(s: Seq<char>, start: int, line: nat)
    requires
        0 <= start < s.len(),
    ensures
        start < step(s, start, line).next <= s.len(),
        line <= step(s, start, line).line <= line + (step(s, start, line).next - start),
{
    lemma_skip_digits(s, start + 1);
    let a = skip_digits(s, start + 1);
    if 0 <= a && a + 1 < s.len() {
        lemma_skip_digits(s, a + 1);
    }
    lemma_skip_alnum(s, start + 1);
    if start + 2 <= s.len() {
        lemma_skip_until(s, start + 2, '\n');
    }
    lemma_skip_until(s, start + 1, '"');
    lemma_newlines_bound(s.subrange(start + 1, skip_until(s, start + 1, '"')));
}

/// Each token that a step produces is spelled right.
proof fn lemma_step_spelled(s: Seq<char>, start: int, line: nat)
    requires
        0 <= start < s.len(),
    ensures
        step(s, start, line).token matches Some(t) ==> spelled_right(t),
{
    assert(s.subrange(start, start + 1) =~= seq![s[start]]);
    if start + 1 < s.len() {
        assert(s.subrange(start, start + 2) =~= seq![s[start], s[start + 1]]);
    }
}

/// Every token of a scan is spelled right.
pub proof fn lemma_scan_spelled(s: Seq<char>, pos: int, line: nat)
    ensures
        well_spelled(scan_from(s, pos, line).tokens),
    decreases s.len() - pos,
{
    if 0 <= pos < s.len() {
        lemma_step_advances(s, pos, line);
        lemma_step_spelled(s, pos, line);
        let st = step(s, pos, line);
        lemma_scan_spelled(s, st.next, st.line);
        let rest = scan_from(s, st.next, st.line).tokens;
        assert forall|i: int| 0 <= i < (opt_seq(st.token) + rest).len() implies spelled_right(
            #[trigger] (opt_seq(st.token) + rest)[i],
        ) by {
            if st.token is None {
                assert((opt_seq(st.token) + rest)[i] == rest[i]);
            } else if i > 0 {
                assert((opt_seq(st.token) + rest)[i] == rest[i - 1]);
            }
        }
    } else {
        assert(spelled_right(eof_token(line)));
    }
}

/// A scan ends with exactly one end-of-file token, whose lexeme is empty.
pub proof fn lemma_scan_closed(s: Seq<char>, pos: int, line: nat)
    ensures
        closed_stream(scan_from(s, pos, line).tokens),
        scan_from(s, pos, line).tokens.last().lexeme.len() == 0,
        forall|i: int|
            0 <= i < scan_from(s, pos, line).tokens.len() - 1 ==> scan_from(s, pos, line).tokens[i].kind
                != TokenType::EOF,
    decreases s.len() - pos,
{
    if 0 <= pos < s.len() {
        lemma_step_advances(s, pos, line);
        let st = step(s, pos, line);
        lemma_scan_closed(s, st.next, st.line);
        let rest = scan_from(s, st.next, st.line).tokens;
        assert(scan_from(s, pos, line).tokens == opt_seq(st.token) + rest);
        if st.token is Some {
            assert(st.token->Some_0.kind != TokenType::EOF);
            assert forall|i: int| 0 <= i < opt_seq(st.token).len() + rest.len() - 1 implies
                (opt_seq(st.token) + rest)[i].kind != TokenType::EOF by {
                if i > 0 {
                    assert((opt_seq(st.token) + rest)[i] == rest[i - 1]);
                }
            }
        } else {
            assert(opt_seq(st.token) + rest =~= rest);
        }
    }
}

pub open spec fn all_digits(s: Seq<char>) -> bool {
    s.len() > 0 && forall|i: int| 0 <= i < s.len() ==> is_digit(s[i])
}

/// Digits, or digits, a point and digits.
pub open spec fn is_number_text(s: Seq<char>) -> bool {
    all_digits(s) || exists|a: Seq<char>, b: Seq<char>|
        all_digits(a) && all_digits(b) && s == a + seq!['.'] + b
}

/// A quoted run of characters without a quote inside.
pub open spec fn is_string_text(s: Seq<char>) -> bool {
    &&& s.len() >= 2
    &&& s[0] == '"'
    &&& s.last() == '"'
    &&& forall|i: int| 1 <= i < s.len() - 1 ==> s[i] != '"'
}

/// An identifier or a reserved word.
pub open spec fn is_word_text(s: Seq<char>) -> bool {
    s.len() > 0 && is_alpha(s[0]) && forall|i: int| 0 <= i < s.len() ==> is_alnum(s[i])
}

pub open spec fn is_punctuation(c: char) -> bool {
    ||| c == '('
    ||| c == ')'
    ||| c == '{'
    ||| c == '}'
    ||| c == ','
    ||| c == '.'
    ||| c == '-'
    ||| c == '+'
    ||| c == ';'
    ||| c == '*'
    ||| c == '/'
}

pub open spec fn takes_equal(c: char) -> bool {
    c == '!' || c == '=' || c == '<' || c == '>'
}

/// A punctuation character or a one- or two-character operator.
pub open spec fn is_operator_text(s: Seq<char>) -> bool {
    ||| s.len() == 1 && (is_punctuation(s[0]) || takes_equal(s[0]))
    ||| s.len() == 2 && takes_equal(s[0]) && s[1] == '='
}

/// The text of exactly one token of the language.
pub open spec fn single_token_text(s: Seq<char>) -> bool {
    is_number_text(s) || is_string_text(s) || is_word_text(s) || is_operator_text(s)
}

/// Scanning the text of a single token gives exactly two tokens: that token, whose
/// lexeme is the whole text, and the end-of-file token; and no error.
pub proof fn lemma_single_token(s: Seq<char>)
    requires
        single_token_text(s),
    ensures
        scan(s).tokens.len() == 2,
        scan(s).tokens[0].lexeme == s,
        scan(s).tokens[0].kind != TokenType::EOF,
        scan(s).tokens[1].kind == TokenType::EOF,
        scan(s).errors.len() == 0,
{
    let st = step(s, 0, 1);
    if is_string_text(s) {
        lemma_skip_until(s, 1, '"');
    } else if is_word_text(s) {
        lemma_skip_alnum(s, 1);
    } else if is_number_text(s) {
        lemma_skip_digits(s, 1);
        if !all_digits(s) {
            let (a, b) = choose|a: Seq<char>, b: Seq<char>|
                all_digits(a) && all_digits(b) && s == a + seq!['.'] + b;
            assert(s[a.len() as int] == '.');
            assert(forall|i: int| 0 <= i < a.len() ==> s[i] == a[i]);
            assert(forall|i: int| 0 <= i < b.len() ==> s[a.len() + 1 + i] == b[i]);
            lemma_skip_digits(s, a.len() + 1 as int);
            assert(skip_digits(s, 1) == a.len());
        }
    }
    assert(st.next == s.len());
    assert(st.token is Some && st.error is None);
    assert(s.subrange(0, s.len() as int) =~= s);
    let rest = scan_from(s, st.next, st.line);
    assert(rest.tokens == seq![eof_token(st.line)]);
    assert(rest.errors.len() == 0);
    assert(scan(s).tokens == opt_seq(st.token) + rest.tokens);
    assert(scan(s).errors == opt_seq(st.error) + rest.errors);
    assert(scan(s).errors =~= Seq::<ErrorModel>::empty());
}

/// Scanning is a function of the text alone: scanning equal texts, or one text
/// twice, gives the same tokens and the same errors.
pub proof fn lemma_scan_repeatable(a: Seq<char>, b: Seq<char>)
    requires
        a == b,
    ensures
        scan(a).tokens == scan(b).tokens,
        scan(a).errors == scan(b).errors,
{
}

#[via_fn]
proof fn scan_from_decreases(s: Seq<char>, pos: int, line: nat) {
    if 0 <= pos < s.len() {
        lemma_step_advances(s, pos, line);
    }
}

/// Relies on `String::push`: the character is appended at the end.
pub assume_specification[ std::string::String::push ](s: &mut std::string::String, ch: char)
    ensures
        final(s)@ == old(s)@.push(ch),
;

pub open spec fn token_models(v: Seq<Token>) -> Seq<TokenModel> {
    v.map_values(|t: Token| t.model())
}

pub open spec fn error_models(v: Seq<Error>) -> Seq<ErrorModel> {
    v.map_values(|e: Error| e.model())
}

/// The characters of `s`, in order.
fn chars_of(s: &String) -> (r: Vec<char>)
    ensures
        r@ == s@,
{
    let mut r: Vec<char> = Vec::new();
    for c in it: s.as_str().chars()
        invariant
            r@ == it.seq().take(it.index() as int),
    {
        r.push(c);
    }
    r
}

/// The text of `chars[from..to]`.
fn text_of(chars: &Vec<char>, from: usize, to: usize) -> (r: String)
    requires
        from <= to <= chars.len(),
    ensures
        r@ == chars@.subrange(from as int, to as int),
{
    let mut r = String::new();
    let mut i: usize = from;
    while i < to
        invariant
            from <= i <= to <= chars.len(),
            r@ == chars@.subrange(from as int, i as int),
        decreases to - i,
    {
        r.push(chars[i]);
        i = i + 1;
        assert(r@ =~= chars@.subrange(from as int, i as int));
    }
    r
}

fn skip_digits_from(chars: &Vec<char>, i: usize) -> (r: usize)
    requires
        i <= chars.len(),
    ensures
        r == skip_digits(chars@, i as int),
{
    let mut j = i;
    while j < chars.len() && '0' <= chars[j] && chars[j] <= '9'
        invariant
            i <= j <= chars.len(),
            skip_digits(chars@, j as int) == skip_digits(chars@, i as int),
        decreases chars.len() - j,
    {
        j = j + 1;
    }
    j
}

fn skip_alnum_from(chars: &Vec<char>, i: usize) -> (r: usize)
    requires
        i <= chars.len(),
    ensures
        r == skip_alnum(chars@, i as int),
{
    let mut j = i;
    while j < chars.len() && Scanner::is_my_alphanumeric(chars[j])
        invariant
            i <= j <= chars.len(),
            skip_alnum(chars@, j as int) == skip_alnum(chars@, i as int),
        decreases chars.len() - j,
    {
        j = j + 1;
    }
    j
}

/// Index of the first `stop` at or after `i`, or the end, and the number of
/// line feeds passed on the way.
fn skip_until_from(chars: &Vec<char>, i: usize, stop: char) -> (r: (usize, usize))
    requires
        i <= chars.len(),
    ensures
        r.0 == skip_until(chars@, i as int, stop),
        r.1 == newlines(chars@.subrange(i as int, r.0 as int)),
        r.1 <= r.0 - i,
{
    let mut j = i;
    let mut n: usize = 0;
    while j < chars.len() && chars[j] != stop
        invariant
            i <= j <= chars.len(),
            skip_until(chars@, j as int, stop) == skip_until(chars@, i as int, stop),
            n == newlines(chars@.subrange(i as int, j as int)),
            n <= j - i,
        decreases chars.len() - j,
    {
        proof {
            assert(chars@.subrange(i as int, j + 1).drop_last() =~= chars@.subrange(i as int, j as int));
        }
        if chars[j] == '\n' {
            n = n + 1;
        }
        j = j + 1;
    }
    (j, n)
}

/// Whether `chars[from..to]` spells `word`.
fn spells(chars: &Vec<char>, from: usize, to: usize, word: &str) -> (r: bool)
    requires
        from <= to <= chars.len(),
    ensures
        r == (chars@.subrange(from as int, to as int) == word@),
{
    let n = word.unicode_len();
    if n != to - from {
        return false;
    }
    let mut i: usize = 0;
    while i < n
        invariant
            n == word@.len(),
            n == to - from,
            from <= to <= chars.len(),
            0 <= i <= n,
            forall|k: int| 0 <= k < i ==> chars@[from + k] == word@[k],
        decreases n - i,
    {
        if chars[from + i] != word.get_char(i) {
            assert(chars@.subrange(from as int, to as int)[i as int] != word@[i as int]);
            return false;
        }
        i = i + 1;
    }
    assert(chars@.subrange(from as int, to as int) =~= word@);
    true
}

/// The reserved word spelled by `chars[from..to]`, if any.
fn keyword_of(chars: &Vec<char>, from: usize, to: usize) -> (r: Option<TokenType>)
    requires
        from <= to <= chars.len(),
    ensures
        r == keyword(chars@.subrange(from as int, to as int)),
{
    if spells(chars, from, to, "and") {
        Some(TokenType::AND)
    } else if spells(chars, from, to, "class") {
        Some(TokenType::CLASS)
    } else if spells(chars, from, to, "else") {
        Some(TokenType::ELSE)
    } else if spells(chars, from, to, "false") {
        Some(TokenType::FALSE)
    } else if spells(chars, from, to, "for") {
        Some(TokenType::FOR)
    } else if spells(chars, from, to, "fun") {
        Some(TokenType::FUN)
    } else if spells(chars, from, to, "if") {
        Some(TokenType::IF)
    } else if spells(chars, from, to, "nil") {
        Some(TokenType::NIL)
    } else if spells(chars, from, to, "or") {
        Some(TokenType::OR)
    } else if spells(chars, from, to, "print") {
        Some(TokenType::PRINT)
    } else if spells(chars, from, to, "return") {
        Some(TokenType::RETURN)
    } else if spells(chars, from, to, "super") {
        Some(TokenType::SUPER)
    } else if spells(chars, from, to, "this") {
        Some(TokenType::THIS)
    } else if spells(chars, from, to, "true") {
        Some(TokenType::TRUE)
    } else if spells(chars, from, to, "var") {
        Some(TokenType::VAR)
    } else if spells(chars, from, to, "while") {
        Some(TokenType::WHILE)
    } else {
        None
    }
}

/// Converts a source text into tokens, collecting lexical errors on the way.
pub struct Scanner {
    chars: Vec<char>,
    tokens: Vec<Token>,
    errors: Vec<Error>,
    start: usize,
    current: usize,
    line: usize,
    finished: bool,
}

impl Scanner {
    /// The source text being scanned.
    pub closed spec fn text(&self) -> Seq<char> {
        self.chars@
    }

    pub closed spec fn wf(&self) -> bool {
        &&& self.chars.len() < usize::MAX
        &&& self.current <= self.chars.len()
        &&& 1 <= self.line <= self.current + 1
        &&& if self.finished {
            &&& token_models(self.tokens@) == scan(self.chars@).tokens
            &&& error_models(self.errors@) == scan(self.chars@).errors
        } else {
            let rest = scan_from(self.chars@, self.current as int, self.line as nat);
            &&& token_models(self.tokens@) + rest.tokens == scan(self.chars@).tokens
            &&& error_models(self.errors@) + rest.errors == scan(self.chars@).errors
        }
    }

    /// `new` is `old` after one scanning step `st`.
    pub closed spec fn took_step(old: Scanner, new: Scanner, st: Step) -> bool {
        &&& new.chars@ == old.chars@
        &&& new.finished == old.finished
        &&& new.current == st.next
        &&& new.line == st.line
        &&& token_models(new.tokens@) =~= token_models(old.tokens@) + opt_seq(st.token)
        &&& error_models(new.errors@) =~= error_models(old.errors@) + opt_seq(st.error)
    }

    pub fn new(source: String) -> (r: Scanner)
        requires
            source@.len() < usize::MAX,
        ensures
            r.wf(),
            r.text() == source@,
            r.errors_model() == Seq::<ErrorModel>::empty(),
            r.scanned().len() == 0,
    {
        let chars = chars_of(&source);
        let r = Scanner {
            chars,
            tokens: Vec::new(),
            errors: Vec::new(),
            start: 0,
            current: 0,
            line: 1,
            finished: false,
        };
        assert(token_models(r.tokens@) =~= Seq::empty());
        assert(error_models(r.errors@) =~= Seq::empty());
        assert(token_models(r.tokens@) + scan(r.chars@).tokens =~= scan(r.chars@).tokens);
        assert(error_models(r.errors@) + scan(r.chars@).errors =~= scan(r.chars@).errors);
        r
    }

    fn is_my_alphabetic(c: char) -> (r: bool)
        ensures
            r == is_alpha(c),
    {
        (c >= 'a' && c <= 'z') || (c >= 'A' && c <= 'Z') || (c == '_')
    }

    fn is_my_alphanumeric(c: char) -> (r: bool)
        ensures
            r == is_alnum(c),
    {
        ('0' <= c && c <= '9') || Self::is_my_alphabetic(c)
    }

    /// Ends the current lexeme at `end` and records a token of kind `kind` for it.
    fn add_token(&mut self, end: usize, token_type: TokenType, literal: Option<Literal>)
        requires
            old(self).start <= end <= old(self).chars.len(),
        ensures
            final(self).chars@ == old(self).chars@,
            final(self).finished == old(self).finished,
            final(self).start == old(self).start,
            final(self).current == end,
            final(self).line == old(self).line,
            final(self).errors@ == old(self).errors@,
            token_models(final(self).tokens@) == token_models(old(self).tokens@).push(
                TokenModel {
                    kind: token_type,
                    lexeme: old(self).chars@.subrange(old(self).start as int, end as int),
                    line: old(self).line as nat,
                    literal: literal_model(literal),
                },
            ),
    {
        self.current = end;
        let text = text_of(&self.chars, self.start, end);
        self.tokens.push(Token::new(text, token_type, self.line, literal));
        assert(token_models(self.tokens@) =~= token_models(old(self).tokens@).push(
            self.tokens@.last().model(),
        ));
    }

    fn error(&mut self, line: usize, message: String)
        ensures
            final(self).chars@ == old(self).chars@,
            final(self).finished == old(self).finished,
            final(self).start == old(self).start,
            final(self).current == old(self).current,
            final(self).line == old(self).line,
            final(self).tokens@ == old(self).tokens@,
            error_models(final(self).errors@) == error_models(old(self).errors@).push(
                ErrorModel { line: line as nat, message: message@ },
            ),
    {
        self.errors.push(Error::new(line, message));
        assert(error_models(self.errors@) =~= error_models(old(self).errors@).push(
            self.errors@.last().model(),
        ));
    }

    /// The character after the current one, or `'\0'` past the end.
    fn peek_next(&self) -> (r: char)
        ensures
            self.current + 1 < self.chars.len() ==> r == self.chars@[self.current + 1],
            self.current + 1 >= self.chars.len() ==> r == '\0',
    {
        if self.current >= self.chars.len() || self.current + 1 >= self.chars.len() {
            '\0'
        } else {
            self.chars[self.current + 1]
        }
    }

    /// A string literal whose opening quote is at `start`.
    fn string(&mut self)
        requires
            old(self).start < old(self).chars.len(),
            old(self).current == old(self).start + 1,
            old(self).chars.len() < usize::MAX,
            1 <= old(self).line <= old(self).current,
        ensures
            Self::took_step(*old(self), *final(self), string_step(old(self).chars@, old(self).start as int, old(self).line as nat)),
    {
        let ghost s = self.chars@;
        let (end, n) = skip_until_from(&self.chars, self.current, '"');
        proof {
            lemma_skip_until(s, self.current as int, '"');
        }
        self.line = self.line + n;
        if end >= self.chars.len() {
            self.current = end;
            let line = self.line;
            self.error(line, "Unterminated string.".to_string());
            return;
        }
        let value = text_of(&self.chars, self.start + 1, end);
        self.add_token(end + 1, TokenType::STRING, Some(Literal::String(value)));
    }

    /// A number literal whose first digit is at `start`.
    fn number(&mut self)
        requires
            old(self).start < old(self).chars.len(),
            old(self).current == old(self).start + 1,
        ensures
            Self::took_step(*old(self), *final(self), number_step(old(self).chars@, old(self).start as int, old(self).line as nat)),
    {
        proof {
            lemma_skip_digits(self.chars@, self.current as int);
        }
        let mut end = skip_digits_from(&self.chars, self.current);
        self.current = end;
        if end < self.chars.len() && self.chars[end] == '.' {
            let next = self.peek_next();
            if '0' <= next && next <= '9' {
                proof {
                    lemma_skip_digits(self.chars@, end + 1);
                }
                end = skip_digits_from(&self.chars, end + 1);
            }
        }
        let value = text_of(&self.chars, self.start, end);
        self.add_token(end, TokenType::NUMBER, Some(Literal::Number(value)));
    }

    /// An identifier or reserved word whose first character is at `start`.
    fn identifier(&mut self)
        requires
            old(self).start < old(self).chars.len(),
            old(self).current == old(self).start + 1,
        ensures
            Self::took_step(*old(self), *final(self), identifier_step(old(self).chars@, old(self).start as int, old(self).line as nat)),
    {
        proof {
            lemma_skip_alnum(self.chars@, self.current as int);
        }
        let end = skip_alnum_from(&self.chars, self.current);
        let token_type = match keyword_of(&self.chars, self.start, end) {
            Some(k) => k,
            None => TokenType::IDENTIFIER,
        };
        self.add_token(end, token_type, None);
    }

    /// Records a token of `one` kind, or of `two` kind when `=` follows.
    fn operator_with_equal(&mut self, one: TokenType, two: TokenType)
        requires
            old(self).start < old(self).chars.len(),
            old(self).current == old(self).start + 1,
        ensures
            Self::took_step(*old(self), *final(self), with_equal(old(self).chars@, old(self).start as int, old(self).line as nat, one, two)),
    {
        if self.current < self.chars.len() && self.chars[self.current] == '=' {
            self.add_token(self.current + 1, two, None);
        } else {
            self.add_token(self.current, one, None);
        }
    }

    /// One scanning step on the character at `current`.
    fn scan_token(&mut self)
        requires
            old(self).current < old(self).chars.len(),
            old(self).start == old(self).current,
            old(self).chars.len() < usize::MAX,
            1 <= old(self).line <= old(self).current + 1,
        ensures
            Self::took_step(*old(self), *final(self), step(old(self).chars@, old(self).current as int, old(self).line as nat)),
    {
        let c = self.chars[self.current];
        self.current = self.current + 1;
        let here = self.current;
        if c == '(' {
            self.add_token(here, TokenType::LEFT_PAREN, None);
        } else if c == ')' {
            self.add_token(here, TokenType::RIGHT_PAREN, None);
        } else if c == '{' {
            self.add_token(here, TokenType::LEFT_BRACE, None);
        } else if c == '}' {
            self.add_token(here, TokenType::RIGHT_BRACE, None);
        } else if c == ',' {
            self.add_token(here, TokenType::COMMA, None);
        } else if c == '.' {
            self.add_token(here, TokenType::DOT, None);
        } else if c == '-' {
            self.add_token(here, TokenType::MINUS, None);
        } else if c == '+' {
            self.add_token(here, TokenType::PLUS, None);
        } else if c == '*' {
            self.add_token(here, TokenType::STAR, None);
        } else if c == ';' {
            self.add_token(here, TokenType::SEMICOLON, None);
        } else if c == '!' {
            self.operator_with_equal(TokenType::BANG, TokenType::BANG_EQUAL);
        } else if c == '=' {
            self.operator_with_equal(TokenType::EQUAL, TokenType::EQUAL_EQUAL);
        } else if c == '<' {
            self.operator_with_equal(TokenType::LESS, TokenType::LESS_EQUAL);
        } else if c == '>' {
            self.operator_with_equal(TokenType::GREATER, TokenType::GREATER_EQUAL);
        } else if c == '/' {
            if here < self.chars.len() && self.chars[here] == '/' {
                let (end, _) = skip_until_from(&self.chars, here + 1, '\n');
                self.current = end;
            } else {
                self.add_token(here, TokenType::SLASH, None);
            }
        } else if c == ' ' || c == '\r' || c == '\t' {
        } else if c == '\n' {
            self.line = self.line + 1;
        } else if c == '"' {
            self.string();
        } else if '0' <= c && c <= '9' {
            self.number();
        } else if Self::is_my_alphabetic(c) {
            self.identifier();
        } else {
            let line = self.line;
            self.error(line, "Unexpected character".to_string());
        }
    }

    /// Scans the whole source and returns its tokens, closed by one end-of-file
    /// token; a second call returns the same tokens again.
    pub fn scan_tokens(&mut self) -> (r: Vec<Token>)
        requires
            old(self).wf(),
        ensures
            final(self).wf(),
            final(self).text() == old(self).text(),
            token_models(r@) == scan(final(self).text()).tokens,
            closed_stream(token_models(r@)),
            eof_ahead(token_models(r@), 0),
            well_spelled(token_models(r@)),
            final(self).errors_model() == scan(final(self).text()).errors,
    {
        if !self.finished {
            while self.current < self.chars.len()
                invariant
                    self.wf(),
                    !self.finished,
                    self.chars@ == old(self).chars@,
                decreases self.chars.len() - self.current,
            {
                self.start = self.current;
                let ghost before = *self;
                proof {
                    lemma_step_advances(self.chars@, self.current as int, self.line as nat);
                }
                self.scan_token();
                proof {
                    let st = step(before.chars@, before.current as int, before.line as nat);
                    let rest = scan_from(self.chars@, self.current as int, self.line as nat);
                    assert(token_models(self.tokens@) + rest.tokens =~= token_models(before.tokens@) + scan_from(before.chars@, before.current as int, before.line as nat).tokens);
                    assert(error_models(self.errors@) + rest.errors =~= error_models(before.errors@) + scan_from(before.chars@, before.current as int, before.line as nat).errors);
                }
            }
            let ghost before = *self;
            self.tokens.push(Token::new(String::new(), TokenType::EOF, self.line, None));
            self.finished = true;
            proof {
                assert(token_models(self.tokens@) =~= token_models(before.tokens@) + seq![eof_token(self.line as nat)]);
            }
        }
        proof {
            lemma_scan_closed(self.chars@, 0, 1);
            lemma_scan_spelled(self.chars@, 0, 1);
        }
        let r = copy_tokens(&self.tokens);
        proof {
            let t = token_models(r@);
            assert(t[t.len() - 1].kind == TokenType::EOF);
        }
        r
    }

    /// The tokens recorded so far.
    pub closed spec fn scanned(&self) -> Seq<TokenModel> {
        token_models(self.tokens@)
    }

    /// The lexical errors met so far, in source order.
    pub closed spec fn errors_model(&self) -> Seq<ErrorModel> {
        error_models(self.errors@)
    }

    /// The lexical errors met so far, in source order.
    pub fn errors(&self) -> (r: Vec<Error>)
        ensures
            error_models(r@) == self.errors_model(),
    {
        copy_errors(&self.errors)
    }
}

/// A copy of `v` whose tokens have the same models.
pub fn copy_tokens(v: &Vec<Token>) -> (r: Vec<Token>)
    ensures
        token_models(r@) == token_models(v@),
{
    let mut r: Vec<Token> = Vec::new();
    let mut i: usize = 0;
    while i < v.len()
        invariant
            i <= v.len(),
            r@.len() == i,
            forall|k: int| 0 <= k < i ==> r@[k].model() == v@[k].model(),
        decreases v.len() - i,
    {
        r.push(v[i].copied());
        i = i + 1;
    }
    assert(token_models(r@) =~= token_models(v@));
    r
}

/// A copy of `v` whose errors have the same models.
pub fn copy_errors(v: &Vec<Error>) -> (r: Vec<Error>)
    ensures
        error_models(r@) == error_models(v@),
{
    let mut r: Vec<Error> = Vec::new();
    let mut i: usize = 0;
    while i < v.len()
        invariant
            i <= v.len(),
            r@.len() == i,
            forall|k: int| 0 <= k < i ==> r@[k].model() == v@[k].model(),
        decreases v.len() - i,
    {
        r.push(v[i].copied());
        i = i + 1;
    }
    assert(error_models(r@) =~= error_models(v@));
    r
}

} // verus!
