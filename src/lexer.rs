use vstd::prelude::*;
use vstd::string::*;
use unicode_xid::UnicodeXID;

verus! {

/// What a character class means for the lexer: Unicode `XID_Start`.
pub uninterp spec fn xid_start(c: char) -> bool;

/// Unicode `XID_Continue`.
pub uninterp spec fn xid_continue(c: char) -> bool;

/// Unicode `White_Space`: the tabs and line breaks U+0009 to U+000D, the
/// space, U+0085, the no-break spaces, U+1680, the spaces U+2000 to U+200A,
/// the line and paragraph separators, U+202F, U+205F and U+3000.
pub open spec fn white_space(c: char) -> bool {
    ('\u{9}' <= c <= '\u{d}') || c == ' ' || c == '\u{85}' || c == '\u{a0}' || c == '\u{1680}'
        || ('\u{2000}' <= c <= '\u{200a}') || c == '\u{2028}' || c == '\u{2029}' || c == '\u{202f}'
        || c == '\u{205f}' || c == '\u{3000}'
}

/// Relies on unicode_xid's `UnicodeXID::is_xid_start`: whether `c` has the
/// `XID_Start` property.
#[verifier::external_body]
fn char_is_xid_start(c: char) -> (r: bool)
    ensures
        r == xid_start(c),
{
    UnicodeXID::is_xid_start(c)
}

/// Relies on unicode_xid's `UnicodeXID::is_xid_continue`: whether `c` has the
/// `XID_Continue` property.
#[verifier::external_body]
fn char_is_xid_continue(c: char) -> (r: bool)
    ensures
        r == xid_continue(c),
{
    UnicodeXID::is_xid_continue(c)
}

/// Whether `c` has the Unicode `White_Space` property.
pub fn char_is_whitespace(c: char) -> (r: bool)
    ensures
        r == white_space(c),
{
    ('\u{9}' <= c && c <= '\u{d}') || c == ' ' || c == '\u{85}' || c == '\u{a0}' || c == '\u{1680}'
        || ('\u{2000}' <= c && c <= '\u{200a}') || c == '\u{2028}' || c == '\u{2029}' || c
        == '\u{202f}' || c == '\u{205f}' || c == '\u{3000}'
}

/// The position where the literal's suffix starts, counted in characters
/// from the start of the token.
#[derive(Debug, Clone, Copy, PartialEq, Eq, Structural)]
pub struct TokenNumberLiteral {
    pub suffix_start: usize,
}

impl TokenNumberLiteral {
    pub fn new(suffix_start: usize) -> (r: Self)
        ensures
            r.suffix_start == suffix_start,
    {
        TokenNumberLiteral { suffix_start }
    }

    pub fn suffix_start(&self) -> (r: usize)
        ensures
            r == self.suffix_start,
    {
        self.suffix_start
    }
}

#[derive(Debug, Clone, Copy, PartialEq, Eq, Structural)]
pub enum TokenKind {
    Unknown,
    Whitespace,
    OpenParen,
    CloseParen,
    Dot,
    Comma,
    Eq,
    Lt,
    Gt,
    Plus,
    Minus,
    Star,
    Slash,
    Percent,
    Or,
    And,
    Caret,
    Id,
    Literal(TokenNumberLiteral),
}

pub open spec fn kind_text(k: TokenKind) -> Seq<char> {
    match k {
        TokenKind::Unknown => "unknown"@,
        TokenKind::Whitespace => "whitespace"@,
        TokenKind::OpenParen => "("@,
        TokenKind::CloseParen => ")"@,
        TokenKind::Dot => "."@,
        TokenKind::Comma => ","@,
        TokenKind::Eq => "="@,
        TokenKind::Lt => "<"@,
        TokenKind::Gt => ">"@,
        TokenKind::Plus => "+"@,
        TokenKind::Minus => "-"@,
        TokenKind::Star => "*"@,
        TokenKind::Slash => "/"@,
        TokenKind::Percent => "%"@,
        TokenKind::Or => "|"@,
        TokenKind::And => "&"@,
        TokenKind::Caret => "^"@,
        TokenKind::Id => "id"@,
        TokenKind::Literal(_) => "literal"@,
    }
}

impl TokenKind {
    /// The symbol of a punctuation token, or a word naming the kind.
    pub fn to_str(&self) -> (r: &'static str)
        ensures
            r@ == kind_text(*self),
    {
        match self {
            TokenKind::Unknown => "unknown",
            TokenKind::Whitespace => "whitespace",
            TokenKind::OpenParen => "(",
            TokenKind::CloseParen => ")",
            TokenKind::Dot => ".",
            TokenKind::Comma => ",",
            TokenKind::Eq => "=",
            TokenKind::Lt => "<",
            TokenKind::Gt => ">",
            TokenKind::Plus => "+",
            TokenKind::Minus => "-",
            TokenKind::Star => "*",
            TokenKind::Slash => "/",
            TokenKind::Percent => "%",
            TokenKind::Or => "|",
            TokenKind::And => "&",
            TokenKind::Caret => "^",
            TokenKind::Id => "id",
            TokenKind::Literal(..) => "literal",
        }
    }
}

/// A token: its kind and how many characters of the text it covers.
#[derive(Debug, Clone, Copy, PartialEq, Eq, Structural)]
pub struct Token {
    pub kind: TokenKind,
    pub len: usize,
}

impl Token {
    pub fn new(kind: TokenKind, len: usize) -> (r: Self)
        ensures
            r.kind == kind,
            r.len == len,
    {
        Token { kind, len }
    }
}

pub open spec fn is_digit(c: char) -> bool {
    '0' <= c <= '9'
}

pub open spec fn is_ascii_letter(c: char) -> bool {
    ('a' <= c <= 'z') || ('A' <= c <= 'Z')
}

pub open spec fn id_start(c: char) -> bool {
    is_ascii_letter(c) || c == '_' || (c > '\x7f' && xid_start(c))
}

pub open spec fn id_continue(c: char) -> bool {
    is_ascii_letter(c) || is_digit(c) || c == '_' || (c > '\x7f' && xid_continue(c))
}

/// The classes of characters that a token can run over.
#[derive(Debug, Clone, Copy, PartialEq, Eq, Structural)]
pub enum CharClass {
    Space,
    IdContinue,
    Digit,
}

pub open spec fn in_class(k: CharClass, c: char) -> bool {
    match k {
        CharClass::Space => white_space(c),
        CharClass::IdContinue => id_continue(c),
        CharClass::Digit => is_digit(c),
    }
}

/// The end of the run of characters of class `k` that starts at `i`.
pub open spec fn scan(s: Seq<char>, i: int, k: CharClass) -> int
    decreases s.len() - i,
{
    if 0 <= i < s.len() && in_class(k, s[i]) {
        scan(s, i + 1, k)
    } else {
        i
    }
}

pub proof fn lemma_scan_bounds(s: Seq<char>, i: int, k: CharClass)
    requires
        0 <= i <= s.len(),
    ensures
        i <= scan(s, i, k) <= s.len(),
    decreases s.len() - i,
{
    if i < s.len() && in_class(k, s[i]) {
        lemma_scan_bounds(s, i + 1, k);
    }
}

pub open spec fn punct_kind(c: char) -> TokenKind {
    if c == '(' {
        TokenKind::OpenParen
    } else if c == ')' {
        TokenKind::CloseParen
    } else if c == '.' {
        TokenKind::Dot
    } else if c == ',' {
        TokenKind::Comma
    } else if c == '=' {
        TokenKind::Eq
    } else if c == '<' {
        TokenKind::Lt
    } else if c == '>' {
        TokenKind::Gt
    } else if c == '+' {
        TokenKind::Plus
    } else if c == '-' {
        TokenKind::Minus
    } else if c == '*' {
        TokenKind::Star
    } else if c == '/' {
        TokenKind::Slash
    } else if c == '%' {
        TokenKind::Percent
    } else if c == '|' {
        TokenKind::Or
    } else if c == '&' {
        TokenKind::And
    } else if c == '^' {
        TokenKind::Caret
    } else {
        TokenKind::Unknown
    }
}

/// Where the digits and the fraction of a number literal starting at `i` end.
pub open spec fn number_end(s: Seq<char>, i: int) -> int {
    let d = scan(s, i + 1, CharClass::Digit);
    if d + 1 < s.len() && s[d] == '.' && is_digit(s[d + 1]) {
        scan(s, d + 2, CharClass::Digit)
    } else {
        d
    }
}

/// Where a number literal starting at `i` ends, its suffix included.
pub open spec fn literal_end(s: Seq<char>, i: int) -> int {
    let n = number_end(s, i);
    if n < s.len() && id_start(s[n]) {
        scan(s, n + 1, CharClass::IdContinue)
    } else {
        n
    }
}

/// The token that starts at position `i` of `s`.
pub open spec fn token_at(s: Seq<char>, i: int) -> Token {
    let c = s[i];
    if white_space(c) {
        Token { kind: TokenKind::Whitespace, len: (scan(s, i + 1, CharClass::Space) - i) as usize }
    } else if id_start(c) {
        Token { kind: TokenKind::Id, len: (scan(s, i + 1, CharClass::IdContinue) - i) as usize }
    } else if is_digit(c) {
        Token {
            kind: TokenKind::Literal(
                TokenNumberLiteral { suffix_start: (number_end(s, i) - i) as usize },
            ),
            len: (literal_end(s, i) - i) as usize,
        }
    } else {
        Token { kind: punct_kind(c), len: 1 }
    }
}

/// The tokens of `s` from position `i` on.
pub open spec fn tokens_from(s: Seq<char>, i: int) -> Seq<Token>
    decreases s.len() - i,
{
    if i < 0 || i >= s.len() {
        seq![]
    } else {
        let t = token_at(s, i);
        if t.len >= 1 && i + t.len <= s.len() {
            seq![t] + tokens_from(s, i + t.len)
        } else {
            seq![]
        }
    }
}

/// The tokens of a whole text.
pub open spec fn tokens_of(s: Seq<char>) -> Seq<Token> {
    tokens_from(s, 0)
}

/// The sum of the lengths of a sequence of tokens.
pub open spec fn total_len(ts: Seq<Token>) -> int
    decreases ts.len(),
{
    if ts.len() == 0 {
        0
    } else {
        ts[0].len + total_len(ts.drop_first())
    }
}

pub proof fn lemma_token_at_bounds(s: Seq<char>, i: int)
    requires
        0 <= i < s.len(),
        s.len() <= usize::MAX,
    ensures
        1 <= token_at(s, i).len,
        i + token_at(s, i).len <= s.len(),
{
    lemma_scan_bounds(s, i + 1, CharClass::Space);
    lemma_scan_bounds(s, i + 1, CharClass::IdContinue);
    lemma_scan_bounds(s, i + 1, CharClass::Digit);
    let d = scan(s, i + 1, CharClass::Digit);
    if d + 1 < s.len() && s[d] == '.' && is_digit(s[d + 1]) {
        lemma_scan_bounds(s, d + 2, CharClass::Digit);
    }
    let n = number_end(s, i);
    if n < s.len() && id_start(s[n]) {
        lemma_scan_bounds(s, n + 1, CharClass::IdContinue);
    }
}

/// The tokens cover the text: their lengths add up to its length.
pub proof fn lemma_tokens_cover(s: Seq<char>, i: int)
    requires
        0 <= i <= s.len(),
        s.len() <= usize::MAX,
    ensures
        total_len(tokens_from(s, i)) == s.len() - i,
    decreases s.len() - i,
{
    if i < s.len() {
        lemma_token_at_bounds(s, i);
        let t = token_at(s, i);
        lemma_tokens_cover(s, i + t.len);
        let ts = tokens_from(s, i);
        assert(ts.drop_first() =~= tokens_from(s, i + t.len));
    }
}

/// Lexing is a function of the text: the same text gives the same tokens.
pub proof fn lemma_tokenize_deterministic(a: Seq<char>, b: Seq<char>)
    requires
        a == b,
    ensures
        tokens_of(a) == tokens_of(b),
{
}

fn char_in_class(k: CharClass, c: char) -> (r: bool)
    ensures
        r == in_class(k, c),
{
    match k {
        CharClass::Space => char_is_whitespace(c),
        CharClass::IdContinue => is_id_continue(c),
        CharClass::Digit => '0' <= c && c <= '9',
    }
}

pub fn is_id_start(c: char) -> (r: bool)
    ensures
        r == id_start(c),
{
    ('a' <= c && c <= 'z') || ('A' <= c && c <= 'Z') || c == '_' || (c > '\x7f'
        && char_is_xid_start(c))
}

pub fn is_id_continue(c: char) -> (r: bool)
    ensures
        r == id_continue(c),
{
    ('a' <= c && c <= 'z') || ('A' <= c && c <= 'Z') || ('0' <= c && c <= '9') || c == '_' || (c
        > '\x7f' && char_is_xid_continue(c))
}

/// Moves past the run of characters of class `k` that starts at `pos`.
pub fn consume_while(chars: &Vec<char>, pos: usize, k: CharClass) -> (end: usize)
    requires
        pos <= chars@.len(),
    ensures
        end == scan(chars@, pos as int, k),
        pos <= end <= chars@.len(),
{
    let mut i = pos;
    while i < chars.len() && char_in_class(k, chars[i])
        invariant
            pos <= i <= chars@.len(),
            scan(chars@, i as int, k) == scan(chars@, pos as int, k),
        decreases chars@.len() - i,
    {
        i = i + 1;
    }
    i
}

/// Moves past the digits and the fraction of a number literal whose first
/// digit stands at `pos`.
pub fn consume_number(chars: &Vec<char>, pos: usize) -> (end: usize)
    requires
        pos < chars@.len(),
    ensures
        end == number_end(chars@, pos as int),
        pos < end <= chars@.len(),
{
    let len = chars.len();
    let d = consume_while(chars, pos + 1, CharClass::Digit);
    if d < len - 1 && chars[d] == '.' && '0' <= chars[d + 1] && chars[d + 1] <= '9' {
        consume_while(chars, d + 2, CharClass::Digit)
    } else {
        d
    }
}

fn punct(c: char) -> (k: TokenKind)
    ensures
        k == punct_kind(c),
{
    if c == '(' {
        TokenKind::OpenParen
    } else if c == ')' {
        TokenKind::CloseParen
    } else if c == '.' {
        TokenKind::Dot
    } else if c == ',' {
        TokenKind::Comma
    } else if c == '=' {
        TokenKind::Eq
    } else if c == '<' {
        TokenKind::Lt
    } else if c == '>' {
        TokenKind::Gt
    } else if c == '+' {
        TokenKind::Plus
    } else if c == '-' {
        TokenKind::Minus
    } else if c == '*' {
        TokenKind::Star
    } else if c == '/' {
        TokenKind::Slash
    } else if c == '%' {
        TokenKind::Percent
    } else if c == '|' {
        TokenKind::Or
    } else if c == '&' {
        TokenKind::And
    } else if c == '^' {
        TokenKind::Caret
    } else {
        TokenKind::Unknown
    }
}

/// The token that starts at `pos`.
pub fn next(chars: &Vec<char>, pos: usize) -> (t: Token)
    requires
        pos < chars@.len(),
    ensures
        t == token_at(chars@, pos as int),
        1 <= t.len,
        pos + t.len <= chars@.len(),
{
    let len = chars.len();
    proof {
        lemma_token_at_bounds(chars@, pos as int);
    }
    let c = chars[pos];
    if char_is_whitespace(c) {
        let end = consume_while(chars, pos + 1, CharClass::Space);
        Token { kind: TokenKind::Whitespace, len: end - pos }
    } else if is_id_start(c) {
        let end = consume_while(chars, pos + 1, CharClass::IdContinue);
        Token { kind: TokenKind::Id, len: end - pos }
    } else if '0' <= c && c <= '9' {
        let n = consume_number(chars, pos);
        let end = if n < chars.len() && is_id_start(chars[n]) {
            consume_while(chars, n + 1, CharClass::IdContinue)
        } else {
            n
        };
        Token {
            kind: TokenKind::Literal(TokenNumberLiteral { suffix_start: n - pos }),
            len: end - pos,
        }
    } else {
        Token { kind: punct(c), len: 1 }
    }
}

/// The characters of `text`, in order.
pub fn chars_of(text: &str) -> (r: Vec<char>)
    ensures
        r@ == text@,
{
    let n = text.unicode_len();
    let mut r: Vec<char> = Vec::new();
    let mut i: usize = 0;
    while i < n
        invariant
            n == text@.len(),
            i <= n,
            r@ == text@.subrange(0, i as int),
        decreases n - i,
    {
        r.push(text.get_char(i));
        i = i + 1;
        assert(r@ =~= text@.subrange(0, i as int));
    }
    assert(r@ =~= text@);
    r
}

/// Splits `input` into tokens. Whitespace runs are tokens too, and a
/// character that no rule takes becomes an `Unknown` token.
pub fn token_iter(input: &str) -> (r: Vec<Token>)
    ensures
        r@ == tokens_of(input@),
{
    let chars = chars_of(input);
    let mut r: Vec<Token> = Vec::new();
    let mut pos: usize = 0;
    while pos < chars.len()
        invariant
            chars@ == input@,
            pos <= chars@.len(),
            tokens_of(chars@) == r@ + tokens_from(chars@, pos as int),
        decreases chars@.len() - pos,
    {
        let t = next(&chars, pos);
        assert(tokens_from(chars@, pos as int) == seq![t] + tokens_from(
            chars@,
            pos + t.len,
        ));
        assert(r@.push(t) + tokens_from(chars@, pos + t.len) =~= r@ + (seq![t] + tokens_from(
            chars@,
            pos + t.len,
        )));
        r.push(t);
        pos = pos + t.len;
    }
    assert(tokens_from(chars@, pos as int) =~= seq![]);
    assert(r@ + seq![] =~= r@);
    r
}

} // verus!
