//! The scanner: from source text to tokens.

use vstd::prelude::*;
use crate::text::{chars_of, alphabetic, is_blank, is_digit, numeric, spells, text_between};
use crate::token::{Location, Token, TokenType, TokenTypeView, TokenView};

verus! {

/// Why a source text is no sequence of tokens.
#[derive(Debug, PartialEq)]
pub enum ScanError {
    /// a character that begins no token
    UnexpectedToken(char),
    /// a `"` without its closing `"`
    UnterminatedString,
    /// a run of digits that names no 64-bit integer; holds the run
    ParseInt(String),
    /// digits around a point that name no decimal number; holds them
    ParseFloat(String),
}

/// A scan error with its text as a sequence of characters.
pub enum ScanErrorView {
    UnexpectedToken(char),
    UnterminatedString,
    ParseInt(Seq<char>),
    ParseFloat(Seq<char>),
}

impl View for ScanError {
    type V = ScanErrorView;

    open spec fn view(&self) -> ScanErrorView {
        match *self {
            ScanError::UnexpectedToken(c) => ScanErrorView::UnexpectedToken(c),
            ScanError::UnterminatedString => ScanErrorView::UnterminatedString,
            ScanError::ParseInt(s) => ScanErrorView::ParseInt(s@),
            ScanError::ParseFloat(s) => ScanErrorView::ParseFloat(s@),
        }
    }
}

/// What begins at one place of the source text.
pub enum Lexeme {
    /// `len` characters that belong to no token: a blank or a comment
    Skip { len: nat },
    /// a token of `len` characters
    Token { token_type: TokenTypeView, len: nat },
    /// nothing that the language knows
    Error(ScanErrorView),
}

/// The number of characters from index `i` to the end of the line, the
/// newline included.
pub open spec fn comment_len(s: Seq<char>, i: int) -> nat
    decreases s.len() - i,
{
    if i < 0 || i >= s.len() {
        0
    } else if s[i] == '\n' {
        1
    } else {
        1 + comment_len(s, i + 1)
    }
}

/// The number of characters from index `i` to the next `"`, which is
/// counted; `None` where there is no `"`.
pub open spec fn string_len(s: Seq<char>, i: int) -> Option<nat>
    decreases s.len() - i,
{
    if i < 0 || i >= s.len() {
        None
    } else if s[i] == '"' {
        Some(1)
    } else {
        match string_len(s, i + 1) {
            Some(n) => Some(n + 1),
            None => None,
        }
    }
}

/// The number of characters from index `i` on that continue a number:
/// numeric characters and, unless `saw_dot`, one point.
pub open spec fn number_len(s: Seq<char>, i: int, saw_dot: bool) -> nat
    decreases s.len() - i,
{
    if i < 0 || i >= s.len() {
        0
    } else if numeric(s[i]) || (s[i] == '.' && !saw_dot) {
        1 + number_len(s, i + 1, saw_dot || s[i] == '.')
    } else {
        0
    }
}

/// The number of characters from index `i` on that continue a word:
/// alphabetic characters and `_`.
pub open spec fn word_len(s: Seq<char>, i: int) -> nat
    decreases s.len() - i,
{
    if i < 0 || i >= s.len() {
        0
    } else if alphabetic(s[i]) || s[i] == '_' {
        1 + word_len(s, i + 1)
    } else {
        0
    }
}

/// The keyword that `word` spells, if any.
pub open spec fn keyword(word: Seq<char>) -> Option<TokenTypeView> {
    if word == "and"@ {
        Some(TokenTypeView::And)
    } else if word == "class"@ {
        Some(TokenTypeView::Class)
    } else if word == "else"@ {
        Some(TokenTypeView::Else)
    } else if word == "false"@ {
        Some(TokenTypeView::False)
    } else if word == "for"@ {
        Some(TokenTypeView::For)
    } else if word == "fun"@ {
        Some(TokenTypeView::Fun)
    } else if word == "if"@ {
        Some(TokenTypeView::If)
    } else if word == "nil"@ {
        Some(TokenTypeView::Nil)
    } else if word == "or"@ {
        Some(TokenTypeView::Or)
    } else if word == "print"@ {
        Some(TokenTypeView::Print)
    } else if word == "return"@ {
        Some(TokenTypeView::Return)
    } else if word == "super"@ {
        Some(TokenTypeView::Super)
    } else if word == "this"@ {
        Some(TokenTypeView::This)
    } else if word == "true"@ {
        Some(TokenTypeView::True)
    } else if word == "var"@ {
        Some(TokenTypeView::Var)
    } else if word == "while"@ {
        Some(TokenTypeView::While)
    } else {
        None
    }
}

/// The token type of a word: its keyword, else an identifier.
pub open spec fn word_type(word: Seq<char>) -> TokenTypeView {
    match keyword(word) {
        Some(t) => t,
        None => TokenTypeView::Identifier(word),
    }
}

/// Whether `text` is made of the digits `0` to `9` alone.
pub open spec fn all_digits(text: Seq<char>) -> bool {
    forall|k: int| 0 <= k < text.len() ==> is_digit(#[trigger] text[k])
}

/// The number that the digits of `text` write in base ten.
pub open spec fn digits_value(text: Seq<char>) -> nat
    decreases text.len(),
{
    if text.len() == 0 {
        0
    } else {
        (digits_value(text.drop_last()) * 10 + (text.last() as u32 - '0' as u32)) as nat
    }
}

/// Whether `text` is made of the digits `0` to `9` and points alone.
pub open spec fn decimal_text(text: Seq<char>) -> bool {
    forall|k: int| 0 <= k < text.len() ==> is_digit(#[trigger] text[k]) || text[k] == '.'
}

/// What a number's text stands for: with a point a decimal, without one a
/// 64-bit integer, and an error where it writes neither.
pub open spec fn number_type(text: Seq<char>) -> Result<TokenTypeView, ScanErrorView> {
    if text.contains('.') {
        if decimal_text(text) {
            Ok(TokenTypeView::Decimal(text))
        } else {
            Err(ScanErrorView::ParseFloat(text))
        }
    } else if all_digits(text) && digits_value(text) <= i64::MAX {
        Ok(TokenTypeView::Integer(digits_value(text) as i64))
    } else {
        Err(ScanErrorView::ParseInt(text))
    }
}

/// A token of one character, or of two where `=` follows.
pub open spec fn with_equal(s: Seq<char>, i: int, two: TokenTypeView, one: TokenTypeView)
    -> Lexeme {
    if i + 1 < s.len() && s[i + 1] == '=' {
        Lexeme::Token { token_type: two, len: 2 }
    } else {
        Lexeme::Token { token_type: one, len: 1 }
    }
}

/// What begins at index `i` of `s`.
pub open spec fn lexeme_at(s: Seq<char>, i: int) -> Lexeme
    recommends
        0 <= i < s.len(),
{
    let c = s[i];
    if c == '(' {
        Lexeme::Token { token_type: TokenTypeView::LeftParen, len: 1 }
    } else if c == ')' {
        Lexeme::Token { token_type: TokenTypeView::RightParen, len: 1 }
    } else if c == '{' {
        Lexeme::Token { token_type: TokenTypeView::LeftBrace, len: 1 }
    } else if c == '}' {
        Lexeme::Token { token_type: TokenTypeView::RightBrace, len: 1 }
    } else if c == ',' {
        Lexeme::Token { token_type: TokenTypeView::Comma, len: 1 }
    } else if c == '.' {
        Lexeme::Token { token_type: TokenTypeView::Dot, len: 1 }
    } else if c == '-' {
        Lexeme::Token { token_type: TokenTypeView::Minus, len: 1 }
    } else if c == '+' {
        Lexeme::Token { token_type: TokenTypeView::Plus, len: 1 }
    } else if c == ';' {
        Lexeme::Token { token_type: TokenTypeView::Semicolon, len: 1 }
    } else if c == '*' {
        Lexeme::Token { token_type: TokenTypeView::Star, len: 1 }
    } else if c == '!' {
        with_equal(s, i, TokenTypeView::BangEqual, TokenTypeView::Bang)
    } else if c == '=' {
        with_equal(s, i, TokenTypeView::EqualEqual, TokenTypeView::Equal)
    } else if c == '<' {
        with_equal(s, i, TokenTypeView::LessEqual, TokenTypeView::Less)
    } else if c == '>' {
        with_equal(s, i, TokenTypeView::GreaterEqual, TokenTypeView::Greater)
    } else if c == '/' {
        if i + 1 < s.len() && s[i + 1] == '/' {
            Lexeme::Skip { len: 1 + comment_len(s, i + 1) }
        } else {
            Lexeme::Token { token_type: TokenTypeView::Slash, len: 1 }
        }
    } else if is_blank(c) {
        Lexeme::Skip { len: 1 }
    } else if c == '"' {
        match string_len(s, i + 1) {
            Some(n) => Lexeme::Token {
                token_type: TokenTypeView::String(s.subrange(i + 1, i + n)),
                len: 1 + n,
            },
            None => Lexeme::Error(ScanErrorView::UnterminatedString),
        }
    } else if is_digit(c) {
        let len = 1 + number_len(s, i + 1, false);
        match number_type(s.subrange(i, i + len)) {
            Ok(token_type) => Lexeme::Token { token_type, len },
            Err(e) => Lexeme::Error(e),
        }
    } else if alphabetic(c) {
        let len = 1 + word_len(s, i + 1);
        Lexeme::Token { token_type: word_type(s.subrange(i, i + len)), len }
    } else {
        Lexeme::Error(ScanErrorView::UnexpectedToken(c))
    }
}

/// The token of type `token_type` that takes up `s[i..i + len]`.
pub open spec fn token_at(s: Seq<char>, i: int, len: nat, token_type: TokenTypeView)
    -> TokenView {
    TokenView {
        token_type,
        location_start: Location::at(s, i),
        location_end: Location::at(s, i + len - 1),
        lexeme: s.subrange(i, i + len),
    }
}

/// The token that ends every scan: it has no text and stands at the last
/// character of `s`.
pub open spec fn end_of_input(s: Seq<char>) -> TokenView {
    TokenView {
        token_type: TokenTypeView::Eof,
        location_start: Location::at(s, s.len() - 1),
        location_end: Location::at(s, s.len() - 1),
        lexeme: Seq::empty(),
    }
}

/// The tokens of `s` from index `i` on, or the first error met.
pub open spec fn scan_from(s: Seq<char>, i: int) -> Result<Seq<TokenView>, ScanErrorView>
    decreases (if i < s.len() { s.len() - i } else { 0 }),
{
    if i < 0 || i >= s.len() {
        Ok(seq![end_of_input(s)])
    } else {
        match lexeme_at(s, i) {
            Lexeme::Skip { len } => scan_from(s, i + len),
            Lexeme::Token { token_type, len } => match scan_from(s, i + len) {
                Ok(rest) => Ok(seq![token_at(s, i, len, token_type)] + rest),
                Err(e) => Err(e),
            },
            Lexeme::Error(e) => Err(e),
        }
    }
}

/// The tokens of the source text `s`, or the first error met.
pub open spec fn scan_spec(s: Seq<char>) -> Result<Seq<TokenView>, ScanErrorView> {
    scan_from(s, 0)
}

/// The views of the tokens of `tokens`.
pub open spec fn token_views(tokens: Seq<Token>) -> Seq<TokenView> {
    tokens.map_values(|t: Token| t@)
}

/// The result `r` with the tokens `done` before it.
pub open spec fn after(done: Seq<TokenView>, r: Result<Seq<TokenView>, ScanErrorView>) -> Result<
    Seq<TokenView>,
    ScanErrorView,
> {
    match r {
        Ok(rest) => Ok(done + rest),
        Err(e) => Err(e),
    }
}

/// Whether the text of `t` is what `s` holds from the start of `t` to its
/// end, and its name, if it is an identifier, that text.
pub open spec fn lexeme_fits(s: Seq<char>, t: TokenView) -> bool {
    &&& t.location_start.char <= t.location_end.char < s.len()
    &&& t.lexeme == s.subrange(t.location_start.char as int, t.location_end.char + 1)
    &&& t.token_type matches TokenTypeView::Identifier(name) ==> name == t.lexeme
}

/// A comment ends within the text.
pub proof fn lemma_comment_len(s: Seq<char>, i: int)
    requires
        0 <= i <= s.len(),
    ensures
        i + comment_len(s, i) <= s.len(),
    decreases s.len() - i,
{
    if i < s.len() && s[i] != '\n' {
        lemma_comment_len(s, i + 1);
    }
}

/// A string ends within the text, at its closing `"`; there is no `"` before it.
pub proof fn lemma_string_len(s: Seq<char>, i: int)
    requires
        0 <= i <= s.len(),
    ensures
        match string_len(s, i) {
            Some(n) => 1 <= n && i + n <= s.len() && s[i + n - 1] == '"',
            None => true,
        },
    decreases s.len() - i,
{
    if i < s.len() && s[i] != '"' {
        lemma_string_len(s, i + 1);
    }
}

/// A number ends within the text.
pub proof fn lemma_number_len(s: Seq<char>, i: int, saw_dot: bool)
    requires
        0 <= i <= s.len(),
    ensures
        i + number_len(s, i, saw_dot) <= s.len(),
    decreases s.len() - i,
{
    if i < s.len() && (numeric(s[i]) || (s[i] == '.' && !saw_dot)) {
        lemma_number_len(s, i + 1, saw_dot || s[i] == '.');
    }
}

/// A word ends within the text.
pub proof fn lemma_word_len(s: Seq<char>, i: int)
    requires
        0 <= i <= s.len(),
    ensures
        i + word_len(s, i) <= s.len(),
    decreases s.len() - i,
{
    if i < s.len() && (alphabetic(s[i]) || s[i] == '_') {
        lemma_word_len(s, i + 1);
    }
}

/// Digits written after a number do not make it smaller.
pub proof fn lemma_digits_prefix(text: Seq<char>, k: int)
    requires
        all_digits(text),
        0 <= k <= text.len(),
    ensures
        digits_value(text.subrange(0, k)) <= digits_value(text),
    decreases text.len() - k,
{
    if k == text.len() {
        assert(text.subrange(0, k) =~= text);
    } else {
        let longer = text.subrange(0, k + 1);
        assert(longer.drop_last() =~= text.subrange(0, k));
        assert(is_digit(text[k]));
        assert(longer.last() == text[k]);
        lemma_digits_prefix(text, k + 1);
    }
}

/// The keyword that `chars[from..to]` spells, if any.
fn keyword_type(chars: &Vec<char>, from: usize, to: usize) -> (r: Option<TokenType>)
    requires
        from <= to <= chars.len(),
    ensures
        match r {
            Some(t) => keyword(chars@.subrange(from as int, to as int)) == Some(t@),
            None => keyword(chars@.subrange(from as int, to as int)) is None,
        },
{
    if spells(chars, from, to, "and") {
        Some(TokenType::And)
    } else if spells(chars, from, to, "class") {
        Some(TokenType::Class)
    } else if spells(chars, from, to, "else") {
        Some(TokenType::Else)
    } else if spells(chars, from, to, "false") {
        Some(TokenType::False)
    } else if spells(chars, from, to, "for") {
        Some(TokenType::For)
    } else if spells(chars, from, to, "fun") {
        Some(TokenType::Fun)
    } else if spells(chars, from, to, "if") {
        Some(TokenType::If)
    } else if spells(chars, from, to, "nil") {
        Some(TokenType::Nil)
    } else if spells(chars, from, to, "or") {
        Some(TokenType::Or)
    } else if spells(chars, from, to, "print") {
        Some(TokenType::Print)
    } else if spells(chars, from, to, "return") {
        Some(TokenType::Return)
    } else if spells(chars, from, to, "super") {
        Some(TokenType::Super)
    } else if spells(chars, from, to, "this") {
        Some(TokenType::This)
    } else if spells(chars, from, to, "true") {
        Some(TokenType::True)
    } else if spells(chars, from, to, "var") {
        Some(TokenType::Var)
    } else if spells(chars, from, to, "while") {
        Some(TokenType::While)
    } else {
        None
    }
}

/// The 64-bit integer that the digits `chars[from..to]` write, if they
/// write one.
pub(crate) fn parse_integer(chars: &Vec<char>, from: usize, to: usize) -> (r: Option<i64>)
    requires
        from <= to <= chars.len(),
    ensures
        match r {
            Some(v) => all_digits(chars@.subrange(from as int, to as int)) && v == digits_value(
                chars@.subrange(from as int, to as int),
            ),
            None => !(all_digits(chars@.subrange(from as int, to as int)) && digits_value(
                chars@.subrange(from as int, to as int),
            ) <= i64::MAX),
        },
{
    let ghost text = chars@.subrange(from as int, to as int);
    let mut value: i64 = 0;
    let mut k: usize = from;
    while k < to
        invariant
            from <= k <= to <= chars.len(),
            text == chars@.subrange(from as int, to as int),
            all_digits(text.subrange(0, k - from)),
            0 <= value,
            value == digits_value(text.subrange(0, k - from)),
        decreases to - k,
    {
        let c = chars[k];
        let ghost longer = text.subrange(0, k - from + 1);
        assert(longer.drop_last() =~= text.subrange(0, k - from));
        assert(longer.last() == c);
        if !('0' <= c && c <= '9') {
            assert(!is_digit(text[k - from]));
            return None;
        }
        let digit: i64 = (c as u32 - '0' as u32) as i64;
        if value > (i64::MAX - digit) / 10 {
            proof {
                assert(digits_value(longer) > i64::MAX);
                if all_digits(text) {
                    lemma_digits_prefix(text, k - from + 1);
                }
            }
            return None;
        }
        value = value * 10 + digit;
        assert forall|j: int| 0 <= j < longer.len() implies is_digit(#[trigger] longer[j]) by {
            if j < k - from {
                assert(longer[j] == text.subrange(0, k - from)[j]);
            }
        }
        k = k + 1;
    }
    assert(text.subrange(0, to - from) =~= text);
    Some(value)
}

/// Whether `chars[from..to]` holds nothing but digits and points.
fn is_decimal_text(chars: &Vec<char>, from: usize, to: usize) -> (b: bool)
    requires
        from <= to <= chars.len(),
    ensures
        b == decimal_text(chars@.subrange(from as int, to as int)),
{
    let ghost text = chars@.subrange(from as int, to as int);
    let mut k: usize = from;
    while k < to
        invariant
            from <= k <= to <= chars.len(),
            text == chars@.subrange(from as int, to as int),
            forall|j: int| 0 <= j < k - from ==> is_digit(#[trigger] text[j]) || text[j] == '.',
        decreases to - k,
    {
        let c = chars[k];
        if !(('0' <= c && c <= '9') || c == '.') {
            assert(!(is_digit(text[k - from]) || text[k - from] == '.'));
            return false;
        }
        k = k + 1;
    }
    true
}

/// A cursor over the characters of a source text. It hands them out one by
/// one and knows the place of the one handed out last.
pub struct Scanner {
    source: Vec<char>,
    /// index in `source` of the character handed out next
    next: usize,
    /// place of the character handed out last
    location: Location,
    /// the character handed out last
    curr_char: char,
    /// whether a character has been handed out
    started: bool,
}

impl Scanner {
    /// The characters of the source text.
    pub closed spec fn source(&self) -> Seq<char> {
        self.source@
    }

    /// How many characters have been handed out.
    pub closed spec fn consumed(&self) -> int {
        self.next as int
    }

    /// The place of the character handed out last.
    pub closed spec fn place(&self) -> Location {
        self.location
    }

    /// The cursor stands within the text, and the place and the character
    /// handed out last are those before the cursor.
    pub closed spec fn wf(&self) -> bool {
        &&& self.next <= self.source.len()
        &&& self.started == (self.next > 0)
        &&& self.location == Location::at(self.source@, self.next - 1)
        &&& self.next > 0 ==> self.curr_char == self.source@[self.next - 1]
    }

    /// What holds of every well-formed scanner.
    pub proof fn lemma_wf(&self)
        requires
            self.wf(),
        ensures
            0 <= self.consumed() <= self.source().len() <= usize::MAX,
            self.place() == Location::at(self.source(), self.consumed() - 1),
            self.consumed() > 0 ==> self.place().char == self.consumed() - 1,
            self.consumed() == 0 ==> self.place() == Location::start(),
    {
        if self.next > 0 {
            Location::lemma_at_bounded(self.source@, self.next - 1);
        }
    }

    /// A scanner at the start of `source`: no character has been handed out.
    pub fn new(source: &String) -> (r: Self)
        ensures
            r.wf(),
            r.source() == source@,
            r.consumed() == 0,
    {
        Scanner {
            source: chars_of(source.as_str()),
            next: 0,
            location: Location::default(),
            curr_char: '\0',
            started: false,
        }
    }

    /// Hands out the next character and moves on; `None` at the end of the
    /// text, where nothing changes.
    pub fn advance(&mut self) -> (r: Option<char>)
        requires
            old(self).wf(),
        ensures
            final(self).wf(),
            final(self).source() == old(self).source(),
            match r {
                Some(c) => {
                    &&& old(self).consumed() < old(self).source().len()
                    &&& c == old(self).source()[old(self).consumed()]
                    &&& final(self).consumed() == old(self).consumed() + 1
                },
                None => old(self).consumed() == old(self).source().len() && *final(self) == *old(
                    self,
                ),
            },
    {
        let newline = self.curr_char == '\n';
        if self.next < self.source.len() {
            let c = self.source[self.next];
            if self.started {
                proof {
                    Location::lemma_at_bounded(self.source@, self.next - 1);
                }
                self.location.advance(newline);
            } else {
                self.started = true;
            }
            self.curr_char = c;
            self.next = self.next + 1;
            Some(c)
        } else {
            None
        }
    }

    /// The character that `advance` would hand out, if any.
    pub fn next_char(&self) -> (r: Option<char>)
        requires
            self.wf(),
        ensures
            r == if self.consumed() < self.source().len() {
                Some(self.source()[self.consumed()])
            } else {
                None
            },
    {
        if self.next < self.source.len() {
            Some(self.source[self.next])
        } else {
            None
        }
    }

    /// The place of the character handed out last.
    pub fn location(&self) -> (r: Location)
        ensures
            r == self.place(),
    {
        self.location
    }

    /// The text from the character at `start` to the one at `end`, both
    /// included.
    pub fn substring(&self, start: Location, end: Location) -> (r: String)
        requires
            start.char <= end.char + 1 <= self.source().len(),
        ensures
            r@ == self.source().subrange(start.char as int, end.char + 1),
    {
        assert(self.source@.len() == self.source.len());
        text_between(&self.source, start.char as usize, (end.char + 1) as usize)
    }

    /// Takes the next character if it is `ch`, and chooses between the two
    /// token types accordingly.
    fn if_next(&mut self, ch: char, rif: TokenType, relse: TokenType) -> (r: TokenType)
        requires
            old(self).wf(),
        ensures
            final(self).wf(),
            final(self).source() == old(self).source(),
            old(self).consumed() < old(self).source().len() && old(self).source()[old(
                self,
            ).consumed()] == ch ==> r == rif && final(self).consumed() == old(self).consumed() + 1,
            !(old(self).consumed() < old(self).source().len() && old(self).source()[old(
                self,
            ).consumed()] == ch) ==> r == relse && final(self).consumed() == old(self).consumed(),
    {
        if self.next < self.source.len() && self.source[self.next] == ch {
            self.advance();
            rif
        } else {
            relse
        }
    }

    /// Takes the rest of the line, its newline included.
    fn skip_comment(&mut self)
        requires
            old(self).wf(),
        ensures
            final(self).wf(),
            final(self).source() == old(self).source(),
            final(self).consumed() == old(self).consumed() + comment_len(
                old(self).source(),
                old(self).consumed(),
            ),
    {
        loop
            invariant_except_break
                self.wf(),
                self.source() == old(self).source(),
                old(self).consumed() <= self.consumed(),
                self.consumed() + comment_len(self.source(), self.consumed()) == old(
                    self,
                ).consumed() + comment_len(old(self).source(), old(self).consumed()),
            ensures
                self.wf(),
                self.source() == old(self).source(),
                self.consumed() == old(self).consumed() + comment_len(
                    old(self).source(),
                    old(self).consumed(),
                ),
            decreases self.source().len() - self.consumed(),
        {
            match self.advance() {
                Some(c) => {
                    if c == '\n' {
                        break ;
                    }
                },
                None => {
                    break ;
                },
            }
        }
    }

    /// Takes the text up to the closing `"`, which is taken too, and tells
    /// the place of the last character before it; `None` where the text
    /// ends first.
    fn read_string(&mut self) -> (r: Option<Location>)
        requires
            old(self).wf(),
            old(self).consumed() > 0,
        ensures
            final(self).wf(),
            final(self).source() == old(self).source(),
            match r {
                Some(last) => {
                    &&& string_len(old(self).source(), old(self).consumed()) == Some(
                        (final(self).consumed() - old(self).consumed()) as nat,
                    )
                    &&& final(self).consumed() > old(self).consumed()
                    &&& last.char == final(self).consumed() - 2
                },
                None => string_len(old(self).source(), old(self).consumed()) is None,
            },
    {
        let mut last = self.location;
        proof {
            self.lemma_wf();
        }
        loop
            invariant
                self.wf(),
                self.source() == old(self).source(),
                0 < old(self).consumed() <= self.consumed(),
                last.char == self.consumed() - 1,
                match string_len(old(self).source(), old(self).consumed()) {
                    Some(n) => string_len(self.source(), self.consumed()) == Some(
                        (n - (self.consumed() - old(self).consumed())) as nat,
                    ) && n > self.consumed() - old(self).consumed(),
                    None => string_len(self.source(), self.consumed()) is None,
                },
            decreases self.source().len() - self.consumed(),
        {
            match self.advance() {
                Some(c) => {
                    if c == '"' {
                        return Some(last);
                    }
                    last = self.location;
                    proof {
                        self.lemma_wf();
                    }
                },
                None => {
                    return None;
                },
            }
        }
    }

    /// Takes the numeric characters that follow, and one point among them;
    /// tells whether there was a point.
    fn read_number(&mut self) -> (saw_dot: bool)
        requires
            old(self).wf(),
        ensures
            final(self).wf(),
            final(self).source() == old(self).source(),
            final(self).consumed() == old(self).consumed() + number_len(
                old(self).source(),
                old(self).consumed(),
                false,
            ),
            saw_dot == old(self).source().subrange(
                old(self).consumed(),
                final(self).consumed(),
            ).contains('.'),
    {
        let mut saw_dot = false;
        loop
            invariant_except_break
                self.wf(),
                self.source() == old(self).source(),
                old(self).consumed() <= self.consumed() <= self.source().len(),
                self.consumed() + number_len(self.source(), self.consumed(), saw_dot) == old(
                    self,
                ).consumed() + number_len(old(self).source(), old(self).consumed(), false),
                saw_dot == self.source().subrange(old(self).consumed(), self.consumed()).contains(
                    '.',
                ),
            ensures
                self.wf(),
                self.source() == old(self).source(),
                self.consumed() == old(self).consumed() + number_len(
                    old(self).source(),
                    old(self).consumed(),
                    false,
                ),
                saw_dot == self.source().subrange(old(self).consumed(), self.consumed()).contains(
                    '.',
                ),
            decreases self.source().len() - self.consumed(),
        {
            match self.next_char() {
                Some(c) => {
                    if !c.is_numeric() && (c != '.' || saw_dot) {
                        break ;
                    }
                    let ghost before = self.source().subrange(
                        old(self).consumed(),
                        self.consumed(),
                    );
                    let ghost longer = self.source().subrange(
                        old(self).consumed(),
                        self.consumed() + 1,
                    );
                    proof {
                        assert(longer =~= before.push(c));
                        if before.contains('.') {
                            let w = choose|w: int| 0 <= w < before.len() && before[w] == '.';
                            assert(longer[w] == '.');
                        }
                        if c == '.' {
                            assert(longer[longer.len() - 1] == '.');
                        }
                    }
                    if c == '.' {
                        saw_dot = true;
                    }
                    self.advance();
                },
                None => {
                    break ;
                },
            }
        }
        saw_dot
    }

    /// Takes the alphabetic characters and `_` that follow.
    fn read_word(&mut self)
        requires
            old(self).wf(),
        ensures
            final(self).wf(),
            final(self).source() == old(self).source(),
            final(self).consumed() == old(self).consumed() + word_len(
                old(self).source(),
                old(self).consumed(),
            ),
    {
        loop
            invariant_except_break
                self.wf(),
                self.source() == old(self).source(),
                old(self).consumed() <= self.consumed() <= self.source().len(),
                self.consumed() + word_len(self.source(), self.consumed()) == old(self).consumed()
                    + word_len(old(self).source(), old(self).consumed()),
            ensures
                self.wf(),
                self.source() == old(self).source(),
                self.consumed() == old(self).consumed() + word_len(
                    old(self).source(),
                    old(self).consumed(),
                ),
            decreases self.source().len() - self.consumed(),
        {
            match self.next_char() {
                Some(c) => {
                    if !c.is_alphabetic() && c != '_' {
                        break ;
                    }
                    self.advance();
                },
                None => {
                    break ;
                },
            }
        }
    }

    /// Reads the string whose opening `"` was handed out last.
    fn string_token(&mut self, location_start: Location) -> (r: Result<Option<TokenType>, ScanError>)
        requires
            old(self).wf(),
            old(self).consumed() > 0,
            location_start == old(self).place(),
        ensures
            final(self).wf(),
            final(self).source() == old(self).source(),
            match string_len(old(self).source(), old(self).consumed()) {
                Some(n) => {
                    &&& final(self).consumed() == old(self).consumed() + n
                    &&& r matches Ok(Some(t))
                    &&& t@ == TokenTypeView::String(
                        old(self).source().subrange(
                            old(self).consumed(),
                            old(self).consumed() + n - 1,
                        ),
                    )
                },
                None => r == Err::<Option<TokenType>, ScanError>(ScanError::UnterminatedString),
            },
    {
        proof {
            self.lemma_wf();
            Location::lemma_at_bounded(self.source(), self.consumed() - 1);
        }
        match self.read_string() {
            Some(last) => Ok(
                Some(TokenType::String(self.substring(location_start.add(1), last))),
            ),
            None => Err(ScanError::UnterminatedString),
        }
    }

    /// Reads the number whose first digit was handed out last.
    fn number_token(&mut self, location_start: Location) -> (r: Result<Option<TokenType>, ScanError>)
        requires
            old(self).wf(),
            old(self).consumed() > 0,
            location_start == old(self).place(),
            is_digit(old(self).source()[old(self).consumed() - 1]),
        ensures
            final(self).wf(),
            final(self).source() == old(self).source(),
            final(self).consumed() == old(self).consumed() + number_len(
                old(self).source(),
                old(self).consumed(),
                false,
            ),
            match number_type(
                old(self).source().subrange(old(self).consumed() - 1, final(self).consumed()),
            ) {
                Ok(token_type) => r matches Ok(Some(t)) && t@ == token_type,
                Err(e) => r matches Err(x) && x@ == e,
            },
    {
        let ghost s = self.source();
        let ghost i = self.consumed() - 1;
        proof {
            self.lemma_wf();
        }
        let saw_dot = self.read_number();
        proof {
            self.lemma_wf();
        }
        let num = self.substring(location_start, self.location());
        let from = self.next - num.as_str().unicode_len();
        proof {
            let text = s.subrange(i, self.consumed());
            let tail = s.subrange(i + 1, self.consumed());
            if tail.contains('.') {
                let w = choose|w: int| 0 <= w < tail.len() && tail[w] == '.';
                assert(text[w + 1] == '.');
            }
            if text.contains('.') {
                let w = choose|w: int| 0 <= w < text.len() && text[w] == '.';
                assert(tail[w - 1] == '.');
            }
        }
        if saw_dot {
            if is_decimal_text(&self.source, from, self.next) {
                Ok(Some(TokenType::Decimal(num)))
            } else {
                Err(ScanError::ParseFloat(num))
            }
        } else {
            match parse_integer(&self.source, from, self.next) {
                Some(value) => Ok(Some(TokenType::Integer(value))),
                None => Err(ScanError::ParseInt(num)),
            }
        }
    }

    /// Reads the word whose first character was handed out last.
    fn word_token(&mut self, location_start: Location) -> (r: Result<Option<TokenType>, ScanError>)
        requires
            old(self).wf(),
            old(self).consumed() > 0,
            location_start == old(self).place(),
        ensures
            final(self).wf(),
            final(self).source() == old(self).source(),
            final(self).consumed() == old(self).consumed() + word_len(
                old(self).source(),
                old(self).consumed(),
            ),
            r matches Ok(Some(t)) && t@ == word_type(
                old(self).source().subrange(old(self).consumed() - 1, final(self).consumed()),
            ),
    {
        proof {
            self.lemma_wf();
        }
        self.read_word();
        proof {
            self.lemma_wf();
        }
        let ident = self.substring(location_start, self.location());
        let from = self.next - ident.as_str().unicode_len();
        match keyword_type(&self.source, from, self.next) {
            Some(keyword) => Ok(Some(keyword)),
            None => Ok(Some(TokenType::Identifier(ident))),
        }
    }

    /// Reads what begins with `c`, the character handed out last: a token,
    /// or `None` for a blank or a comment.
    fn lexeme(&mut self, c: char, location_start: Location) -> (r: Result<
        Option<TokenType>,
        ScanError,
    >)
        requires
            old(self).wf(),
            old(self).consumed() > 0,
            c == old(self).source()[old(self).consumed() - 1],
            location_start == old(self).place(),
        ensures
            final(self).wf(),
            final(self).source() == old(self).source(),
            match lexeme_at(old(self).source(), old(self).consumed() - 1) {
                Lexeme::Skip { len } => r == Ok::<Option<TokenType>, ScanError>(None)
                    && final(self).consumed() == old(self).consumed() - 1 + len,
                Lexeme::Token { token_type, len } => {
                    &&& r matches Ok(Some(t))
                    &&& t@ == token_type
                    &&& final(self).consumed() == old(self).consumed() - 1 + len
                },
                Lexeme::Error(e) => r matches Err(x) && x@ == e,
            },
    {
        proof {
            self.lemma_wf();
            lemma_string_len(self.source(), self.consumed());
        }
        let token_type = if c == '(' {
            TokenType::LeftParen
        } else if c == ')' {
            TokenType::RightParen
        } else if c == '{' {
            TokenType::LeftBrace
        } else if c == '}' {
            TokenType::RightBrace
        } else if c == ',' {
            TokenType::Comma
        } else if c == '.' {
            TokenType::Dot
        } else if c == '-' {
            TokenType::Minus
        } else if c == '+' {
            TokenType::Plus
        } else if c == ';' {
            TokenType::Semicolon
        } else if c == '*' {
            TokenType::Star
        } else if c == '!' {
            self.if_next('=', TokenType::BangEqual, TokenType::Bang)
        } else if c == '=' {
            self.if_next('=', TokenType::EqualEqual, TokenType::Equal)
        } else if c == '<' {
            self.if_next('=', TokenType::LessEqual, TokenType::Less)
        } else if c == '>' {
            self.if_next('=', TokenType::GreaterEqual, TokenType::Greater)
        } else if c == '/' {
            let comment = match self.next_char() {
                Some(d) => d == '/',
                None => false,
            };
            if comment {
                self.skip_comment();
                return Ok(None);
            } else {
                TokenType::Slash
            }
        } else if c == ' ' || c == '\t' || c == '\n' || c == '\r' {
            return Ok(None);
        } else if c == '"' {
            return self.string_token(location_start);
        } else if '0' <= c && c <= '9' {
            return self.number_token(location_start);
        } else if c.is_alphabetic() {
            return self.word_token(location_start);
        } else {
            return Err(ScanError::UnexpectedToken(c));
        };
        Ok(Some(token_type))
    }
}

/// Every lexeme takes up at least one character and ends within the text;
/// none is the end-of-input token, and the name of an identifier is its
/// text.
pub proof fn lemma_lexeme_at(s: Seq<char>, i: int)
    requires
        0 <= i < s.len(),
    ensures
        match lexeme_at(s, i) {
            Lexeme::Skip { len } => 1 <= len <= s.len() - i,
            Lexeme::Token { token_type, len } => {
                &&& 1 <= len <= s.len() - i
                &&& !(token_type is Eof)
                &&& token_type matches TokenTypeView::Identifier(name) ==> name == s.subrange(
                    i,
                    i + len,
                )
            },
            Lexeme::Error(_) => true,
        },
{
    lemma_comment_len(s, i + 1);
    lemma_string_len(s, i + 1);
    lemma_number_len(s, i + 1, false);
    lemma_word_len(s, i + 1);
}

/// The tokens of a text from any index on end with the one end-of-input
/// token, and the text of each token before it is what the source holds
/// from the token's start to its end.
pub proof fn lemma_scan_from(s: Seq<char>, i: int)
    requires
        0 <= i <= s.len() <= u64::MAX,
    ensures
        match scan_from(s, i) {
            Ok(tokens) => {
                &&& tokens.len() >= 1
                &&& tokens.last() == end_of_input(s)
                &&& forall|k: int|
                    0 <= k < tokens.len() - 1 ==> lexeme_fits(s, #[trigger] tokens[k])
                        && !(tokens[k].token_type is Eof)
            },
            Err(_) => true,
        },
    decreases s.len() - i,
{
    if i < s.len() {
        lemma_lexeme_at(s, i);
        match lexeme_at(s, i) {
            Lexeme::Skip { len } => {
                lemma_scan_from(s, i + len);
            },
            Lexeme::Token { token_type, len } => {
                lemma_scan_from(s, i + len);
                Location::lemma_at_bounded(s, i);
                Location::lemma_at_bounded(s, i + len - 1);
                match scan_from(s, i + len) {
                    Ok(rest) => {
                        let tokens = seq![token_at(s, i, len, token_type)] + rest;
                        assert forall|k: int| 0 <= k < tokens.len() - 1 implies lexeme_fits(
                            s,
                            #[trigger] tokens[k],
                        ) && !(tokens[k].token_type is Eof) by {
                            if k > 0 {
                                assert(tokens[k] == rest[k - 1]);
                            }
                        }
                        assert(tokens.last() == rest.last());
                    },
                    Err(_) => {},
                }
            },
            Lexeme::Error(_) => {},
        }
    }
}

/// Of every text that scans: the last token, and no other, is the
/// end-of-input token, and the text of each token before it is exactly what
/// the source holds between the token's start and its end: one character at
/// least, and the name of the token where it is an identifier.
pub proof fn lemma_lexemes_fit(s: Seq<char>)
    requires
        s.len() <= u64::MAX,
    ensures
        match scan_spec(s) {
            Ok(tokens) => {
                &&& tokens.len() >= 1
                &&& tokens.last() == end_of_input(s)
                &&& forall|k: int|
                    0 <= k < tokens.len() - 1 ==> lexeme_fits(s, #[trigger] tokens[k])
                        && !(tokens[k].token_type is Eof)
            },
            Err(_) => true,
        },
{
    lemma_scan_from(s, 0);
}

/// The tokens of `script`, the end-of-input token last, or the first error
/// met.
pub fn scan_tokens(script: &String) -> (r: Result<Vec<Token>, ScanError>)
    ensures
        match r {
            Ok(tokens) => {
                &&& scan_spec(script@) == Ok::<Seq<TokenView>, ScanErrorView>(token_views(tokens@))
                &&& tokens.len() >= 1
                &&& tokens@.last()@ == end_of_input(script@)
                &&& forall|k: int|
                    0 <= k < tokens.len() - 1 ==> lexeme_fits(script@, #[trigger] tokens@[k]@)
                        && !(tokens@[k]@.token_type is Eof)
            },
            Err(e) => scan_spec(script@) == Err::<Seq<TokenView>, ScanErrorView>(e@),
        },
{
    let mut scanner = Scanner::new(script);
    let mut tokens: Vec<Token> = Vec::new();
    let ghost s = script@;
    proof {
        scanner.lemma_wf();
        assert(after(token_views(tokens@), scan_from(s, 0)) == scan_from(s, 0)) by {
            match scan_from(s, 0) {
                Ok(rest) => {
                    assert(token_views(tokens@) + rest =~= rest);
                },
                Err(_) => {},
            }
        }
    }
    loop
        invariant
            s == script@,
            scanner.wf(),
            scanner.source() == s,
            scan_spec(s) == after(token_views(tokens@), scan_from(s, scanner.consumed())),
        ensures
            scanner.consumed() == s.len(),
        decreases s.len() - scanner.consumed(),
    {
        let c = match scanner.advance() {
            Some(c) => c,
            None => {
                break ;
            },
        };
        let ghost i = scanner.consumed() - 1;
        let location_start = scanner.location();
        proof {
            lemma_lexeme_at(s, i);
        }
        let token_type = match scanner.lexeme(c, location_start) {
            Ok(Some(token_type)) => token_type,
            Ok(None) => {
                continue ;
            },
            Err(e) => {
                return Err(e);
            },
        };
        proof {
            scanner.lemma_wf();
            Location::lemma_at_bounded(s, i);
        }
        let ghost len = (scanner.consumed() - i) as nat;
        assert(lexeme_at(s, i) == Lexeme::Token { token_type: token_type@, len });
        let location_end = scanner.location();
        let lexeme = scanner.substring(location_start, location_end);
        let token = Token { token_type, location_start, location_end, lexeme };
        proof {
            assert(token@ == token_at(s, i, len, token.token_type@));
            let done = token_views(tokens@);
            assert(token_views(tokens@.push(token)) =~= done.push(token@));
            match scan_from(s, i + len) {
                Ok(rest) => {
                    assert(done + (seq![token@] + rest) =~= done.push(token@) + rest);
                },
                Err(_) => {},
            }
        }
        tokens.push(token);
    }
    proof {
        scanner.lemma_wf();
        lemma_lexemes_fit(s);
    }
    let end = Token {
        token_type: TokenType::Eof,
        location_start: scanner.location(),
        location_end: scanner.location(),
        lexeme: String::new(),
    };
    proof {
        assert(end@ == end_of_input(s));
        assert(token_views(tokens@.push(end)) =~= token_views(tokens@) + seq![end@]);
    }
    tokens.push(end);
    proof {
        let views = token_views(tokens@);
        assert forall|k: int| 0 <= k < tokens.len() - 1 implies lexeme_fits(
            script@,
            #[trigger] tokens@[k]@,
        ) && !(tokens@[k]@.token_type is Eof) by {
            assert(views[k] == tokens@[k]@);
        }
        assert(views.last() == tokens@.last()@);
    }
    Ok(tokens)
}

/// Whether `tokens` ends with its only end-of-input token.
pub open spec fn ends_input(tokens: Seq<TokenView>) -> bool {
    &&& tokens.len() >= 1
    &&& tokens.last().token_type is Eof
    &&& forall|k: int| 0 <= k < tokens.len() - 1 ==> !((#[trigger] tokens[k]).token_type is Eof)
}

/// The tokens of a scanned text, handed out in order, once each.
#[derive(Debug)]
pub struct Tokens {
    tokens: Vec<Token>,
    /// how many tokens have been handed out
    cursor: usize,
}

impl View for Tokens {
    type V = Seq<TokenView>;

    /// The tokens not handed out yet.
    closed spec fn view(&self) -> Seq<TokenView> {
        self.all().subrange(self.position() as int, self.all().len() as int)
    }
}

impl Tokens {
    /// All the tokens, those handed out too.
    pub closed spec fn all(&self) -> Seq<TokenView> {
        token_views(self.tokens@)
    }

    /// How many tokens have been handed out.
    pub closed spec fn position(&self) -> nat {
        self.cursor as nat
    }

    /// The tokens end with their only end-of-input token.
    pub closed spec fn wf(&self) -> bool {
        &&& self.cursor <= self.tokens.len()
        &&& ends_input(self.all())
    }

    /// What the view of well-formed tokens is.
    pub proof fn lemma_view(&self)
        requires
            self.wf(),
        ensures
            self.position() <= self.all().len() <= usize::MAX,
            self@ == self.all().subrange(self.position() as int, self.all().len() as int),
            ends_input(self.all()),
    {
    }

    /// The tokens of `tokens`, none handed out yet.
    pub(crate) fn new(tokens: Vec<Token>) -> (r: Tokens)
        requires
            ends_input(token_views(tokens@)),
        ensures
            r.wf(),
            r.all() == token_views(tokens@),
            r.position() == 0,
            r@ == token_views(tokens@),
    {
        assert(token_views(tokens@).subrange(0, tokens.len() as int) =~= token_views(tokens@));
        Tokens { tokens, cursor: 0 }
    }

    /// The token that `next` would hand out.
    pub fn peek(&self) -> (r: Option<&Token>)
        requires
            self.wf(),
        ensures
            match r {
                Some(t) => self.position() < self.all().len() && t@ == self.all()[
                    self.position() as int
                ],
                None => self.position() == self.all().len(),
            },
    {
        if self.cursor < self.tokens.len() {
            Some(&self.tokens[self.cursor])
        } else {
            None
        }
    }

    /// Hands out the next token.
    pub fn next(&mut self) -> (r: Option<Token>)
        requires
            old(self).wf(),
        ensures
            final(self).wf(),
            final(self).all() == old(self).all(),
            match r {
                Some(t) => {
                    &&& old(self).position() < old(self).all().len()
                    &&& t@ == old(self).all()[old(self).position() as int]
                    &&& final(self).position() == old(self).position() + 1
                },
                None => old(self).position() == old(self).all().len() && final(self).position()
                    == old(self).position(),
            },
    {
        if self.cursor < self.tokens.len() {
            let token = self.tokens[self.cursor].clone();
            self.cursor = self.cursor + 1;
            Some(token)
        } else {
            None
        }
    }
}

/// Scans `script`: its tokens in order, the end-of-input token last, or the
/// first error met.
pub fn scan(script: String) -> (r: Result<Tokens, ScanError>)
    ensures
        match r {
            Ok(tokens) => {
                &&& tokens.wf()
                &&& tokens.position() == 0
                &&& tokens.all() == tokens@
                &&& scan_spec(script@) == Ok::<Seq<TokenView>, ScanErrorView>(tokens@)
                &&& tokens@.len() >= 1
                &&& tokens@.last() == end_of_input(script@)
                &&& forall|k: int|
                    0 <= k < tokens@.len() - 1 ==> lexeme_fits(script@, #[trigger] tokens@[k])
                        && !(tokens@[k].token_type is Eof)
            },
            Err(e) => scan_spec(script@) == Err::<Seq<TokenView>, ScanErrorView>(e@),
        },
{
    match scan_tokens(&script) {
        Ok(tokens) => {
            proof {
                let views = token_views(tokens@);
                assert(views.last() == tokens@.last()@);
                assert forall|k: int| 0 <= k < views.len() - 1 implies lexeme_fits(
                    script@,
                    #[trigger] views[k],
                ) && !(views[k].token_type is Eof) by {
                    assert(views[k] == tokens@[k]@);
                }
            }
            Ok(Tokens::new(tokens))
        },
        Err(e) => Err(e),
    }
}

} // verus!
