//! The scanner: a cursor over the characters of a source text that hands out
//! one token per call.
use crate::token::{
    decimal, known_kind, lemma_kind_texts, lemma_lookup_kind, lookup_spec, string_from_chars,
    Token, TokenView, EOF, ILLEGAL, INT,
};
use vstd::prelude::*;
use vstd::string::*;

verus! {

/// Whether `c` has the Unicode property `White_Space`, as `char::is_whitespace`
/// of std decides it.
pub uninterp spec fn whitespace(c: char) -> bool;

/// Whether `c` has the Unicode property `Alphabetic`, as `char::is_alphabetic`
/// of std decides it.
pub uninterp spec fn alphabetic(c: char) -> bool;

/// `char::is_whitespace` of std. Its answer depends on the character alone
/// and is given the name [`whitespace`].
#[verifier::external_body]
fn is_whitespace(c: char) -> (r: bool)
    ensures
        r == whitespace(c),
{
    c.is_whitespace()
}

/// `char::is_alphabetic` of std. Its answer depends on the character alone
/// and is given the name [`alphabetic`].
#[verifier::external_body]
fn is_alphabetic(c: char) -> (r: bool)
    ensures
        r == alphabetic(c),
{
    c.is_alphabetic()
}

/// A character of the input together with what std says of it. The scanner
/// works on such characters alone, so nothing in it depends on Unicode
/// tables but the classification that [`classify_char`] makes.
#[derive(Clone, Copy, Debug, PartialEq, Eq)]
pub struct Classified {
    pub ch: char,
    pub whitespace: bool,
    pub alphabetic: bool,
}

/// The classification of one character.
pub open spec fn classified(c: char) -> Classified {
    Classified { ch: c, whitespace: whitespace(c), alphabetic: alphabetic(c) }
}

/// The classification of a text, character by character.
pub open spec fn classify_text(text: Seq<char>) -> Seq<Classified> {
    Seq::new(text.len(), |i: int| classified(text[i]))
}

/// The characters of `s` from `from` up to `to`.
pub open spec fn text_between(s: Seq<Classified>, from: int, to: int) -> Seq<char> {
    Seq::new((to - from) as nat, |i: int| s[from + i].ch)
}

/// Classifies a character as std does.
pub fn classify_char(c: char) -> (r: Classified)
    ensures
        r == classified(c),
{
    Classified { ch: c, whitespace: is_whitespace(c), alphabetic: is_alphabetic(c) }
}

/// An ASCII decimal digit.
pub open spec fn is_digit(c: char) -> bool {
    '0' <= c && c <= '9'
}

/// The classes of characters of which the scanner reads maximal runs.
#[derive(Clone, Copy, Debug, PartialEq, Eq)]
pub enum CharClass {
    Whitespace,
    Alphabetic,
    Digit,
}

/// Whether a classified character belongs to `class`.
pub open spec fn in_class(c: Classified, class: CharClass) -> bool {
    match class {
        CharClass::Whitespace => c.whitespace,
        CharClass::Alphabetic => c.alphabetic,
        CharClass::Digit => is_digit(c.ch),
    }
}

/// The end of the maximal run of characters of `class` that starts at `pos`:
/// the first index from `pos` on that holds no such character, or the length
/// of `s`.
pub open spec fn run_end(s: Seq<Classified>, pos: int, class: CharClass) -> int
    decreases s.len() - pos,
{
    if 0 <= pos < s.len() && in_class(s[pos], class) {
        run_end(s, pos + 1, class)
    } else {
        pos
    }
}

/// One of the operators and punctuation marks of a single character.
pub open spec fn is_symbol_char(c: char) -> bool {
    c == '=' || c == ';' || c == '(' || c == ')' || c == ',' || c == '+' || c == '{' || c == '}'
        || c == '!' || c == '-' || c == '/' || c == '*' || c == '<' || c == '>'
}

/// Whether the two characters from `pos` on spell `==` or `!=`.
pub open spec fn two_char_symbol_at(s: Seq<Classified>, pos: int) -> bool {
    0 <= pos && pos + 1 < s.len() && (s[pos].ch == '=' || s[pos].ch == '!') && s[pos + 1].ch
        == '='
}

/// The number that a sequence of decimal digits denotes.
pub open spec fn digits_value(s: Seq<char>) -> nat
    decreases s.len(),
{
    if s.len() == 0 {
        0
    } else {
        digits_value(s.drop_last()) * 10 + (s.last() as u32 - '0' as u32) as nat
    }
}

/// Why a scan failed.
#[derive(Clone, Copy, Debug, PartialEq, Eq)]
pub enum ScanError {
    /// A run of digits denotes a number beyond the largest 32-bit signed
    /// integer.
    IntegerOutOfRange,
}

/// The outcome of scanning one token: the token or the failure, and the
/// position at which the next scan starts.
pub struct Scan {
    pub token: Result<TokenView, ScanError>,
    pub pos: int,
}

pub open spec fn eof_token() -> TokenView {
    TokenView { kind: EOF@, literal: Seq::empty() }
}

/// What scanning `s` from `pos` gives. Whitespace is skipped first. At the end
/// of the text the token is `EOF`. Otherwise the token is, in this order of
/// preference: `==` or `!=`; a symbol of one character; the maximal
/// alphabetic run, classified as keyword or identifier; the maximal run of
/// digits, which must denote a 32-bit signed integer; or one `ILLEGAL`
/// character.
pub open spec fn scan(s: Seq<Classified>, pos: int) -> Scan {
    let p = run_end(s, pos, CharClass::Whitespace);
    if p < 0 || p >= s.len() {
        Scan { token: Ok(eof_token()), pos: p }
    } else if two_char_symbol_at(s, p) {
        Scan { token: Ok(lookup_spec(text_between(s, p, p + 2))), pos: p + 2 }
    } else if is_symbol_char(s[p].ch) {
        Scan { token: Ok(lookup_spec(text_between(s, p, p + 1))), pos: p + 1 }
    } else if s[p].alphabetic {
        let e = run_end(s, p, CharClass::Alphabetic);
        Scan { token: Ok(lookup_spec(text_between(s, p, e))), pos: e }
    } else if is_digit(s[p].ch) {
        let e = run_end(s, p, CharClass::Digit);
        let digits = text_between(s, p, e);
        if digits_value(digits) <= i32::MAX {
            Scan { token: Ok(TokenView { kind: INT@, literal: digits }), pos: e }
        } else {
            Scan { token: Err(ScanError::IntegerOutOfRange), pos: e }
        }
    } else {
        Scan {
            token: Ok(TokenView { kind: ILLEGAL@, literal: text_between(s, p, p + 1) }),
            pos: p + 1,
        }
    }
}

/// A run ends between its start and the end of the text, holds only
/// characters of its class, and is maximal.
pub proof fn lemma_run_end(s: Seq<Classified>, pos: int, class: CharClass)
    requires
        0 <= pos <= s.len(),
    ensures
        pos <= run_end(s, pos, class) <= s.len(),
        forall|i: int| pos <= i < run_end(s, pos, class) ==> in_class(#[trigger] s[i], class),
        run_end(s, pos, class) < s.len() ==> !in_class(s[run_end(s, pos, class)], class),
    decreases s.len() - pos,
{
    if pos < s.len() && in_class(s[pos], class) {
        lemma_run_end(s, pos + 1, class);
    }
}

/// A run that reaches over `[pos, end)` and stops at `end` ends at `end`.
pub proof fn lemma_run_end_is(s: Seq<Classified>, pos: int, end: int, class: CharClass)
    requires
        0 <= pos <= end <= s.len(),
        forall|i: int| pos <= i < end ==> in_class(#[trigger] s[i], class),
        end < s.len() ==> !in_class(s[end], class),
    ensures
        run_end(s, pos, class) == end,
    decreases end - pos,
{
    if pos < end {
        lemma_run_end_is(s, pos + 1, end, class);
    }
}

/// The value of a prefix of a digit sequence is at most that of the whole.
pub proof fn lemma_digits_value_prefix(s: Seq<char>, i: int)
    requires
        0 <= i <= s.len(),
    ensures
        digits_value(s.take(i)) <= digits_value(s),
    decreases s.len() - i,
{
    if i < s.len() {
        lemma_digits_value_prefix(s, i + 1);
        assert(s.take(i + 1).drop_last() =~= s.take(i));
    } else {
        assert(s.take(i) =~= s);
    }
}

/// Whether a scan gave the end-of-input token.
pub open spec fn is_eof(token: Result<TokenView, ScanError>) -> bool {
    token matches Ok(t) && t.kind == EOF@
}

/// A scan never moves backwards nor past the end, it gives the end-of-input
/// token exactly when only whitespace is left, and every other outcome
/// consumes at least one character.
pub proof fn lemma_scan_progress(s: Seq<Classified>, pos: int)
    requires
        0 <= pos <= s.len(),
    ensures
        pos <= scan(s, pos).pos <= s.len(),
        is_eof(scan(s, pos).token) <==> run_end(s, pos, CharClass::Whitespace) == s.len(),
        is_eof(scan(s, pos).token) ==> scan(s, pos).token == Ok::<TokenView, ScanError>(
            eof_token(),
        ) && scan(s, pos).pos == s.len(),
        !is_eof(scan(s, pos).token) ==> pos < scan(s, pos).pos,
{
    lemma_kind_texts();
    let p = run_end(s, pos, CharClass::Whitespace);
    lemma_run_end(s, pos, CharClass::Whitespace);
    if p < s.len() {
        lemma_run_end(s, p, CharClass::Alphabetic);
        lemma_run_end(s, p, CharClass::Digit);
        lemma_lookup_kind(text_between(s, p, p + 1));
        if p + 2 <= s.len() {
            lemma_lookup_kind(text_between(s, p, p + 2));
        }
        lemma_lookup_kind(text_between(s, p, run_end(s, p, CharClass::Alphabetic)));
    }
}

/// On a text of whitespace alone, the first scan gives the end-of-input
/// token.
pub proof fn lemma_scan_whitespace_only(s: Seq<Classified>)
    requires
        forall|i: int| 0 <= i < s.len() ==> (#[trigger] s[i]).whitespace,
    ensures
        scan(s, 0).token == Ok::<TokenView, ScanError>(eof_token()),
        scan(s, 0).pos == s.len(),
{
    lemma_run_end_is(s, 0, s.len() as int, CharClass::Whitespace);
}

/// On a text that std classifies as whitespace throughout, the first scan
/// gives the end-of-input token.
pub proof fn lemma_scan_whitespace_text(text: Seq<char>)
    requires
        forall|i: int| 0 <= i < text.len() ==> whitespace(#[trigger] text[i]),
    ensures
        scan(classify_text(text), 0).token == Ok::<TokenView, ScanError>(eof_token()),
        scan(classify_text(text), 0).pos == text.len(),
{
    lemma_scan_whitespace_only(classify_text(text));
}

/// Once a scan has given the end-of-input token, every later scan gives it
/// again and the position stays where it is.
pub proof fn lemma_scan_eof_is_final(s: Seq<Classified>, pos: int)
    requires
        0 <= pos <= s.len(),
        is_eof(scan(s, pos).token),
    ensures
        scan(s, scan(s, pos).pos).token == Ok::<TokenView, ScanError>(eof_token()),
        scan(s, scan(s, pos).pos).pos == scan(s, pos).pos,
{
    lemma_scan_progress(s, pos);
}

/// The kind of a scanned token belongs to the vocabulary of token kinds.
pub proof fn lemma_scan_kind(s: Seq<Classified>, pos: int)
    requires
        0 <= pos <= s.len(),
    ensures
        scan(s, pos).token matches Ok(t) ==> known_kind(t.kind),
{
    let p = run_end(s, pos, CharClass::Whitespace);
    lemma_run_end(s, pos, CharClass::Whitespace);
    if p < s.len() {
        lemma_run_end(s, p, CharClass::Alphabetic);
        lemma_lookup_kind(text_between(s, p, p + 1));
        if p + 2 <= s.len() {
            lemma_lookup_kind(text_between(s, p, p + 2));
        }
        lemma_lookup_kind(text_between(s, p, run_end(s, p, CharClass::Alphabetic)));
    }
}

/// The literal of a scanned token is the exact text that the scan consumed
/// after the whitespace it skipped.
pub proof fn lemma_scan_literal(s: Seq<Classified>, pos: int)
    requires
        0 <= pos <= s.len(),
    ensures
        scan(s, pos).token matches Ok(t) ==> t.literal == text_between(
            s,
            run_end(s, pos, CharClass::Whitespace),
            scan(s, pos).pos,
        ),
{
    let p = run_end(s, pos, CharClass::Whitespace);
    lemma_run_end(s, pos, CharClass::Whitespace);
    if p >= s.len() {
        assert(text_between(s, p, p) =~= Seq::<char>::empty());
    }
}

/// The decimal digits of a number are a run of digits that denotes it.
pub proof fn lemma_decimal_round_trip(n: nat)
    ensures
        is_digit_run(decimal(n)),
        digits_value(decimal(n)) == n,
    decreases n,
{
    if n < 10 {
        assert(decimal(n).drop_last() =~= Seq::<char>::empty());
        assert(digits_value(decimal(n).drop_last()) == 0);
    } else {
        lemma_decimal_round_trip(n / 10);
        assert(decimal(n).drop_last() =~= decimal(n / 10));
    }
}

/// Whether `s` is a run of decimal digits, and not empty.
pub open spec fn is_digit_run(s: Seq<char>) -> bool {
    s.len() > 0 && forall|i: int| 0 <= i < s.len() ==> is_digit(#[trigger] s[i])
}

/// The number that a run of decimal digits denotes, if it is a 32-bit signed
/// integer. Text that is empty or holds anything but digits denotes none.
pub fn parse_integer(digits: &[char]) -> (r: Option<i32>)
    ensures
        r is Some <==> is_digit_run(digits@) && digits_value(digits@) <= i32::MAX,
        r matches Some(v) ==> v == digits_value(digits@),
{
    if digits.len() == 0 {
        return None;
    }
    let mut acc: i32 = 0;
    let mut i: usize = 0;
    while i < digits.len()
        invariant
            i <= digits@.len(),
            0 <= acc,
            acc == digits_value(digits@.take(i as int)),
            forall|k: int| 0 <= k < i ==> is_digit(#[trigger] digits@[k]),
        decreases digits@.len() - i,
    {
        let c: char = digits[i];
        if !('0' <= c && c <= '9') {
            return None;
        }
        let d: i32 = (c as u32 - '0' as u32) as i32;
        proof {
            assert(digits@.take(i + 1).drop_last() =~= digits@.take(i as int));
            lemma_digits_value_prefix(digits@, i + 1);
        }
        if acc > 214748364 || (acc == 214748364 && d > 7) {
            return None;
        }
        acc = acc * 10 + d;
        i = i + 1;
    }
    proof {
        assert(digits@.take(i as int) =~= digits@);
    }
    Some(acc)
}

/// The scanner. It owns the characters of its input and keeps the position
/// of the character under the cursor, the position after it, that character,
/// and whether the input is used up.
#[derive(Debug)]
pub struct Lexer {
    input: Vec<Classified>,
    ch: Classified,
    position: usize,
    read_position: usize,
    eof: bool,
}

/// The mathematical value of a [`Lexer`]: the whole input and the number of
/// characters that have been consumed.
pub struct LexerView {
    pub input: Seq<Classified>,
    pub pos: int,
}

impl View for Lexer {
    type V = LexerView;

    closed spec fn view(&self) -> LexerView {
        LexerView { input: self.input@, pos: self.position as int }
    }
}

impl Lexer {
    /// The invariant of the scanner. While a character is under the cursor,
    /// the read position is one past the cursor and the stored character is
    /// the one at the cursor. The end flag is set exactly when the cursor has
    /// reached the end of the input.
    pub closed spec fn wf(&self) -> bool {
        &&& self.position <= self.input@.len()
        &&& self.eof == (self.position == self.input@.len())
        &&& !self.eof ==> self.read_position == self.position + 1 && self.ch
            == self.input@[self.position as int]
        &&& self.eof ==> self.read_position == self.position
    }

    /// A well-formed scanner's cursor lies within its input.
    pub proof fn lemma_wf_bounds(&self)
        requires
            self.wf(),
        ensures
            0 <= self@.pos <= self@.input.len(),
    {
    }

    /// A scanner at the start of `input`, each character classified as std
    /// classifies it.
    #[must_use]
    pub fn new(input: &str) -> (me: Self)
        ensures
            me.wf(),
            me@.input == classify_text(input@),
            me@.pos == 0,
    {
        let mut characters: Vec<Classified> = Vec::new();
        for c in it: input.chars()
            invariant
                it.seq() == input@,
                characters@.len() == it.index(),
                forall|j: int| 0 <= j < characters@.len() ==> characters@[j] == classified(input@[j]),
        {
            characters.push(classify_char(c));
        }
        proof {
            assert(characters@ =~= classify_text(input@));
        }
        Self::from_classified(characters)
    }

    /// A scanner at the start of characters that are classified already.
    #[must_use]
    pub fn from_classified(characters: Vec<Classified>) -> (me: Self)
        ensures
            me.wf(),
            me@.input == characters@,
            me@.pos == 0,
    {
        let blank = Classified { ch: '0', whitespace: false, alphabetic: false };
        let mut me = Self { input: characters, ch: blank, position: 0, read_position: 0, eof: false };
        me.read_character();
        me
    }

    /// Moves the cursor to the read position and loads the character there,
    /// or sets the end flag where the input is used up.
    fn read_character(&mut self)
        requires
            old(self).read_position <= old(self).input@.len(),
        ensures
            final(self).wf(),
            final(self).input == old(self).input,
            final(self).position == old(self).read_position,
    {
        if self.read_position < self.input.len() {
            self.position = self.read_position;
            self.ch = self.input[self.position];
            self.read_position = self.read_position + 1;
            self.eof = false;
        } else {
            self.position = self.read_position;
            self.eof = true;
        }
    }

    /// The character after the one under the cursor, without consuming
    /// anything; `None` at the end of the input.
    fn peek_character(&self) -> (r: Option<char>)
        requires
            self.wf(),
        ensures
            r == if self@.pos + 1 < self@.input.len() {
                Some(self@.input[self@.pos + 1].ch)
            } else {
                None::<char>
            },
    {
        if !self.eof && self.read_position < self.input.len() {
            Some(self.input[self.read_position].ch)
        } else {
            None
        }
    }

    /// Whether the character under the cursor is a symbol of one character.
    fn is_symbol(&self) -> (r: bool)
        requires
            self.wf(),
            self@.pos < self@.input.len(),
        ensures
            r == is_symbol_char(self@.input[self@.pos].ch),
    {
        let c = self.ch.ch;
        c == '=' || c == ';' || c == '(' || c == ')' || c == ',' || c == '+' || c == '{' || c
            == '}' || c == '!' || c == '-' || c == '/' || c == '*' || c == '<' || c == '>'
    }

    /// Whether the cursor stands at `==` or `!=`.
    fn is_two_character_symbol(&self) -> (r: bool)
        requires
            self.wf(),
        ensures
            r == two_char_symbol_at(self@.input, self@.pos),
    {
        match self.peek_character() {
            Some(next_char) => (self.ch.ch == '=' || self.ch.ch == '!') && next_char == '=',
            None => false,
        }
    }

    /// The characters between two positions of the input.
    fn chars_between(&self, from: usize, to: usize) -> (r: Vec<char>)
        requires
            from <= to <= self@.input.len(),
        ensures
            r@ == text_between(self@.input, from as int, to as int),
    {
        let mut out: Vec<char> = Vec::new();
        let mut i: usize = from;
        while i < to
            invariant
                from <= i <= to <= self.input@.len(),
                out@ == text_between(self.input@, from as int, i as int),
            decreases to - i,
        {
            out.push(self.input[i].ch);
            i = i + 1;
            assert(out@ =~= text_between(self.input@, from as int, i as int));
        }
        out
    }

    /// The text between two positions of the input.
    fn text(&self, from: usize, to: usize) -> (r: String)
        requires
            from <= to <= self@.input.len(),
        ensures
            r@ == text_between(self@.input, from as int, to as int),
    {
        let characters = self.chars_between(from, to);
        string_from_chars(characters.as_slice())
    }

    /// Consumes the two characters at the cursor and returns them.
    fn consume_two_character_symbol(&mut self) -> (symbol: String)
        requires
            old(self).wf(),
            old(self)@.pos + 1 < old(self)@.input.len(),
        ensures
            final(self).wf(),
            final(self)@.input == old(self)@.input,
            final(self)@.pos == old(self)@.pos + 2,
            symbol@ == text_between(old(self)@.input, old(self)@.pos, old(self)@.pos + 2),
    {
        let start = self.position;
        self.read_character();
        self.read_character();
        self.text(start, start + 2)
    }

    /// Whether `c` belongs to `class`.
    fn classify(c: Classified, class: CharClass) -> (r: bool)
        ensures
            r == in_class(c, class),
    {
        match class {
            CharClass::Whitespace => c.whitespace,
            CharClass::Alphabetic => c.alphabetic,
            CharClass::Digit => '0' <= c.ch && c.ch <= '9',
        }
    }

    /// Moves the cursor to the end of the run of `class` that starts at it.
    fn read_run(&mut self, class: CharClass)
        requires
            old(self).wf(),
        ensures
            final(self).wf(),
            final(self)@.input == old(self)@.input,
            final(self)@.pos == run_end(old(self)@.input, old(self)@.pos, class),
    {
        while !self.eof && Self::classify(self.ch, class)
            invariant
                self.wf(),
                self.input == old(self).input,
                run_end(self.input@, self.position as int, class) == run_end(
                    old(self).input@,
                    old(self).position as int,
                    class,
                ),
            decreases self.input@.len() - self.position,
        {
            self.read_character();
        }
    }

    /// Skips the whitespace at the cursor.
    fn eat_whitespace(&mut self)
        requires
            old(self).wf(),
        ensures
            final(self).wf(),
            final(self)@.input == old(self)@.input,
            final(self)@.pos == run_end(old(self)@.input, old(self)@.pos, CharClass::Whitespace),
    {
        self.read_run(CharClass::Whitespace);
    }

    /// Consumes the maximal alphabetic run at the cursor and returns it.
    fn read_identifier(&mut self) -> (r: String)
        requires
            old(self).wf(),
        ensures
            final(self).wf(),
            final(self)@.input == old(self)@.input,
            final(self)@.pos == run_end(old(self)@.input, old(self)@.pos, CharClass::Alphabetic),
            r@ == text_between(old(self)@.input, old(self)@.pos, final(self)@.pos),
    {
        let position = self.position;
        self.read_run(CharClass::Alphabetic);
        proof {
            lemma_run_end(self.input@, position as int, CharClass::Alphabetic);
        }
        self.text(position, self.position)
    }

    /// Consumes the maximal run of digits at the cursor, which stands at a
    /// digit. Returns the text of the run if it denotes a 32-bit signed
    /// integer.
    fn read_number(&mut self) -> (r: Result<String, ScanError>)
        requires
            old(self).wf(),
            old(self)@.pos < old(self)@.input.len(),
            is_digit(old(self)@.input[old(self)@.pos].ch),
        ensures
            final(self).wf(),
            final(self)@.input == old(self)@.input,
            final(self)@.pos == run_end(old(self)@.input, old(self)@.pos, CharClass::Digit),
            r is Ok <==> digits_value(
                text_between(old(self)@.input, old(self)@.pos, final(self)@.pos),
            ) <= i32::MAX,
            r matches Ok(text) ==> text@ == text_between(
                old(self)@.input,
                old(self)@.pos,
                final(self)@.pos,
            ),
    {
        let position = self.position;
        self.read_run(CharClass::Digit);
        proof {
            lemma_run_end(self.input@, position as int, CharClass::Digit);
        }
        let characters = self.chars_between(position, self.position);
        let digits = characters.as_slice();
        assert(is_digit_run(digits@)) by {
            assert(in_class(self.input@[position as int], CharClass::Digit));
            assert forall|i: int| 0 <= i < digits@.len() implies is_digit(#[trigger] digits@[i]) by {
                assert(in_class(self.input@[position + i], CharClass::Digit));
            }
        }
        match parse_integer(digits) {
            Some(_) => Ok(string_from_chars(digits)),
            None => Err(ScanError::IntegerOutOfRange),
        }
    }

    /// Scans one token and moves the cursor past it. At the end of the input
    /// the token is `EOF` and the scanner stays as it is.
    pub fn next_token(&mut self) -> (r: Result<Token, ScanError>)
        requires
            old(self).wf(),
        ensures
            final(self).wf(),
            final(self)@.input == old(self)@.input,
            final(self)@.pos == scan(old(self)@.input, old(self)@.pos).pos,
            match r {
                Ok(t) => scan(old(self)@.input, old(self)@.pos).token == Ok::<TokenView, ScanError>(t@),
                Err(e) => scan(old(self)@.input, old(self)@.pos).token == Err::<TokenView, ScanError>(e),
            },
    {
        self.eat_whitespace();
        if self.eof {
            proof {
                reveal_strlit("");
                assert(""@ =~= Seq::<char>::empty());
            }
            Ok(Token::new(EOF, ""))
        } else if self.is_two_character_symbol() {
            let symbol = self.consume_two_character_symbol();
            Ok(Token::lookup(symbol.as_str()))
        } else if self.is_symbol() {
            let symbol = self.text(self.position, self.position + 1);
            self.read_character();
            Ok(Token::lookup(symbol.as_str()))
        } else if self.ch.alphabetic {
            let symbol = self.read_identifier();
            Ok(Token::lookup(symbol.as_str()))
        } else if '0' <= self.ch.ch && self.ch.ch <= '9' {
            match self.read_number() {
                Ok(text) => Ok(Token::new(INT, text.as_str())),
                Err(e) => Err(e),
            }
        } else {
            let symbol = self.text(self.position, self.position + 1);
            self.read_character();
            Ok(Token::new(ILLEGAL, symbol.as_str()))
        }
    }
}

} // verus!
