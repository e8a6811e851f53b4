//! The token model: the vocabulary of token kinds and the classification of
//! a piece of source text as a keyword, a symbol or an identifier.
use vstd::prelude::*;
use vstd::string::*;

verus! {

pub const ILLEGAL: &'static str = "ILLEGAL";

pub const EOF: &'static str = "EOF";

pub const IDENT: &'static str = "IDENT";

pub const INT: &'static str = "INT";

pub const ASSIGN: &'static str = "=";

pub const PLUS: &'static str = "+";

pub const MINUS: &'static str = "-";

pub const BANG: &'static str = "!";

pub const ASTERISK: &'static str = "*";

pub const SLASH: &'static str = "/";

pub const LT: &'static str = "<";

pub const GT: &'static str = ">";

pub const EQ: &'static str = "==";

pub const NOT_EQ: &'static str = "!=";

pub const COMMA: &'static str = ",";

pub const SEMICOLON: &'static str = ";";

pub const LPAREN: &'static str = "(";

pub const RPAREN: &'static str = ")";

pub const LBRACE: &'static str = "{";

pub const RBRACE: &'static str = "}";

pub const FUNCTION: &'static str = "FUNCTION";

pub const LET: &'static str = "LET";

pub const TRUE: &'static str = "TRUE";

pub const FALSE: &'static str = "FALSE";

pub const IF: &'static str = "IF";

pub const ELSE: &'static str = "ELSE";

pub const RETURN: &'static str = "RETURN";

/// A lexical unit: its kind and the source text it stands for.
#[derive(Debug, Default, PartialEq, Eq)]
pub struct Token {
    pub token_type: String,
    pub literal: String,
}

/// The mathematical value of a [`Token`]: both strings as character sequences.
pub struct TokenView {
    pub kind: Seq<char>,
    pub literal: Seq<char>,
}

impl View for Token {
    type V = TokenView;

    open spec fn view(&self) -> TokenView {
        TokenView { kind: self.token_type@, literal: self.literal@ }
    }
}

impl Clone for Token {
    fn clone(&self) -> (r: Self)
        ensures
            r == *self,
    {
        Token { token_type: self.token_type.clone(), literal: self.literal.clone() }
    }
}

/// The kind of the keyword spelled `lit`, if `lit` is a keyword.
pub open spec fn keyword_kind(lit: Seq<char>) -> Option<Seq<char>> {
    if lit == "fn"@ {
        Some(FUNCTION@)
    } else if lit == "let"@ {
        Some(LET@)
    } else if lit == "true"@ {
        Some(TRUE@)
    } else if lit == "false"@ {
        Some(FALSE@)
    } else if lit == "if"@ {
        Some(IF@)
    } else if lit == "else"@ {
        Some(ELSE@)
    } else if lit == "return"@ {
        Some(RETURN@)
    } else {
        None
    }
}

/// Whether `lit` spells an operator or a punctuation mark, of one or two
/// characters. The kind of such a token is its own spelling.
pub open spec fn is_symbol_text(lit: Seq<char>) -> bool {
    lit == ASSIGN@ || lit == SEMICOLON@ || lit == LPAREN@ || lit == RPAREN@ || lit == COMMA@
        || lit == PLUS@ || lit == LBRACE@ || lit == RBRACE@ || lit == BANG@ || lit == MINUS@
        || lit == SLASH@ || lit == ASTERISK@ || lit == LT@ || lit == GT@ || lit == EQ@ || lit
        == NOT_EQ@
}

/// Classification of a piece of source text: a keyword first, then a symbol,
/// and an identifier otherwise. The literal is always the text itself.
pub open spec fn lookup_spec(lit: Seq<char>) -> TokenView {
    TokenView {
        kind: match keyword_kind(lit) {
            Some(k) => k,
            None => if is_symbol_text(lit) {
                lit
            } else {
                IDENT@
            },
        },
        literal: lit,
    }
}

/// `str::eq` of std: two string slices are equal exactly when they hold the
/// same characters in the same order.
#[verifier::external_body]
pub(crate) fn str_eq(a: &str, b: &str) -> (r: bool)
    ensures
        r == (a@ == b@),
{
    a.eq(b)
}

/// `String::from_iter` of std on a slice of characters: the string made of
/// those characters in their order.
#[verifier::external_body]
pub(crate) fn string_from_chars(chars: &[char]) -> (r: String)
    ensures
        r@ == chars@,
{
    String::from_iter(chars)
}

/// The decimal digit for a number below ten.
pub open spec fn digit_char(d: nat) -> char {
    if d == 0 {
        '0'
    } else if d == 1 {
        '1'
    } else if d == 2 {
        '2'
    } else if d == 3 {
        '3'
    } else if d == 4 {
        '4'
    } else if d == 5 {
        '5'
    } else if d == 6 {
        '6'
    } else if d == 7 {
        '7'
    } else if d == 8 {
        '8'
    } else {
        '9'
    }
}

/// The decimal digits of a number, without leading zeros.
pub open spec fn decimal(n: nat) -> Seq<char>
    decreases n,
{
    if n < 10 {
        seq![digit_char(n)]
    } else {
        decimal(n / 10).push(digit_char(n % 10))
    }
}

/// An integer in decimal, with a minus sign where it is negative.
pub open spec fn integer_text(v: int) -> Seq<char> {
    if v < 0 {
        seq!['-'] + decimal((-v) as nat)
    } else {
        decimal(v as nat)
    }
}

fn digit(d: u32) -> (c: char)
    requires
        d < 10,
    ensures
        c == digit_char(d as nat),
{
    if d == 0 {
        '0'
    } else if d == 1 {
        '1'
    } else if d == 2 {
        '2'
    } else if d == 3 {
        '3'
    } else if d == 4 {
        '4'
    } else if d == 5 {
        '5'
    } else if d == 6 {
        '6'
    } else if d == 7 {
        '7'
    } else if d == 8 {
        '8'
    } else {
        '9'
    }
}

/// Appends the decimal digits of `n`.
fn push_decimal(n: u32, out: &mut Vec<char>)
    ensures
        final(out)@ == old(out)@ + decimal(n as nat),
    decreases n,
{
    if n >= 10 {
        push_decimal(n / 10, out);
    }
    out.push(digit(n % 10));
    assert(out@ =~= old(out)@ + decimal(n as nat));
}

impl Token {
    /// The integer literal for a number: its kind is `INT` and its literal
    /// the number in decimal.
    pub fn from_integer(value: i32) -> (t: Self)
        ensures
            t@.kind == INT@,
            t@.literal == integer_text(value as int),
    {
        let mut text: Vec<char> = Vec::new();
        let wide: i64 = value as i64;
        if wide < 0 {
            text.push('-');
            push_decimal((0 - wide) as u32, &mut text);
        } else {
            push_decimal(wide as u32, &mut text);
        }
        assert(text@ =~= integer_text(value as int));
        let literal = string_from_chars(text.as_slice());
        Self::new(INT, literal.as_str())
    }

    /// A token of the given kind that stands for the given text.
    #[must_use]
    pub fn new(token_type: &str, literal: &str) -> (t: Self)
        ensures
            t@.kind == token_type@,
            t@.literal == literal@,
    {
        Self { token_type: String::from_str(token_type), literal: String::from_str(literal) }
    }

    /// Whether this token is of the given kind.
    pub fn is(&self, token_type: &str) -> (r: bool)
        ensures
            r == (self@.kind == token_type@),
    {
        str_eq(self.token_type.as_str(), token_type)
    }

    /// Classifies `literal` as a keyword, a symbol or an identifier.
    pub fn lookup(literal: &str) -> (t: Self)
        ensures
            t@ == lookup_spec(literal@),
    {
        if str_eq(literal, "fn") {
            Self::new(FUNCTION, literal)
        } else if str_eq(literal, "let") {
            Self::new(LET, literal)
        } else if str_eq(literal, "true") {
            Self::new(TRUE, literal)
        } else if str_eq(literal, "false") {
            Self::new(FALSE, literal)
        } else if str_eq(literal, "if") {
            Self::new(IF, literal)
        } else if str_eq(literal, "else") {
            Self::new(ELSE, literal)
        } else if str_eq(literal, "return") {
            Self::new(RETURN, literal)
        } else if str_eq(literal, ASSIGN) || str_eq(literal, SEMICOLON) || str_eq(literal, LPAREN)
            || str_eq(literal, RPAREN) || str_eq(literal, COMMA) || str_eq(literal, PLUS)
            || str_eq(literal, LBRACE) || str_eq(literal, RBRACE) || str_eq(literal, BANG)
            || str_eq(literal, MINUS) || str_eq(literal, SLASH) || str_eq(literal, ASTERISK)
            || str_eq(literal, LT) || str_eq(literal, GT) || str_eq(literal, EQ) || str_eq(
            literal,
            NOT_EQ,
        ) {
            Self::new(literal, literal)
        } else {
            Self::new(IDENT, literal)
        }
    }
}

/// Whether `kind` belongs to the vocabulary of token kinds.
pub open spec fn known_kind(kind: Seq<char>) -> bool {
    kind == ILLEGAL@ || kind == EOF@ || kind == IDENT@ || kind == INT@ || kind == FUNCTION@
        || kind == LET@ || kind == TRUE@ || kind == FALSE@ || kind == IF@ || kind == ELSE@
        || kind == RETURN@ || is_symbol_text(kind)
}

/// A classification gives a kind of the vocabulary, never the kind `EOF`,
/// and the literal of a classified token is the text that was classified.
pub proof fn lemma_lookup_kind(lit: Seq<char>)
    ensures
        known_kind(lookup_spec(lit).kind),
        lookup_spec(lit).kind != EOF@,
        lookup_spec(lit).literal == lit,
{
    lemma_kind_texts();
}

/// The spellings of the kinds, character by character.
pub proof fn lemma_kind_texts()
    ensures
        ILLEGAL@ == seq!['I', 'L', 'L', 'E', 'G', 'A', 'L'],
        EOF@ == seq!['E', 'O', 'F'],
        IDENT@ == seq!['I', 'D', 'E', 'N', 'T'],
        INT@ == seq!['I', 'N', 'T'],
        ASSIGN@ == seq!['='],
        PLUS@ == seq!['+'],
        MINUS@ == seq!['-'],
        BANG@ == seq!['!'],
        ASTERISK@ == seq!['*'],
        SLASH@ == seq!['/'],
        LT@ == seq!['<'],
        GT@ == seq!['>'],
        EQ@ == seq!['=', '='],
        NOT_EQ@ == seq!['!', '='],
        COMMA@ == seq![','],
        SEMICOLON@ == seq![';'],
        LPAREN@ == seq!['('],
        RPAREN@ == seq![')'],
        LBRACE@ == seq!['{'],
        RBRACE@ == seq!['}'],
        FUNCTION@ == seq!['F', 'U', 'N', 'C', 'T', 'I', 'O', 'N'],
        LET@ == seq!['L', 'E', 'T'],
        TRUE@ == seq!['T', 'R', 'U', 'E'],
        FALSE@ == seq!['F', 'A', 'L', 'S', 'E'],
        IF@ == seq!['I', 'F'],
        ELSE@ == seq!['E', 'L', 'S', 'E'],
        RETURN@ == seq!['R', 'E', 'T', 'U', 'R', 'N'],
{
    reveal_strlit("ILLEGAL");
    reveal_strlit("EOF");
    reveal_strlit("IDENT");
    reveal_strlit("INT");
    reveal_strlit("=");
    reveal_strlit("+");
    reveal_strlit("-");
    reveal_strlit("!");
    reveal_strlit("*");
    reveal_strlit("/");
    reveal_strlit("<");
    reveal_strlit(">");
    reveal_strlit("==");
    reveal_strlit("!=");
    reveal_strlit(",");
    reveal_strlit(";");
    reveal_strlit("(");
    reveal_strlit(")");
    reveal_strlit("{");
    reveal_strlit("}");
    reveal_strlit("FUNCTION");
    reveal_strlit("LET");
    reveal_strlit("TRUE");
    reveal_strlit("FALSE");
    reveal_strlit("IF");
    reveal_strlit("ELSE");
    reveal_strlit("RETURN");
    assert(ILLEGAL@ =~= seq!['I', 'L', 'L', 'E', 'G', 'A', 'L']);
    assert(EOF@ =~= seq!['E', 'O', 'F']);
    assert(IDENT@ =~= seq!['I', 'D', 'E', 'N', 'T']);
    assert(INT@ =~= seq!['I', 'N', 'T']);
    assert(ASSIGN@ =~= seq!['=']);
    assert(PLUS@ =~= seq!['+']);
    assert(MINUS@ =~= seq!['-']);
    assert(BANG@ =~= seq!['!']);
    assert(ASTERISK@ =~= seq!['*']);
    assert(SLASH@ =~= seq!['/']);
    assert(LT@ =~= seq!['<']);
    assert(GT@ =~= seq!['>']);
    assert(EQ@ =~= seq!['=', '=']);
    assert(NOT_EQ@ =~= seq!['!', '=']);
    assert(COMMA@ =~= seq![',']);
    assert(SEMICOLON@ =~= seq![';']);
    assert(LPAREN@ =~= seq!['(']);
    assert(RPAREN@ =~= seq![')']);
    assert(LBRACE@ =~= seq!['{']);
    assert(RBRACE@ =~= seq!['}']);
    assert(FUNCTION@ =~= seq!['F', 'U', 'N', 'C', 'T', 'I', 'O', 'N']);
    assert(LET@ =~= seq!['L', 'E', 'T']);
    assert(TRUE@ =~= seq!['T', 'R', 'U', 'E']);
    assert(FALSE@ =~= seq!['F', 'A', 'L', 'S', 'E']);
    assert(IF@ =~= seq!['I', 'F']);
    assert(ELSE@ =~= seq!['E', 'L', 'S', 'E']);
    assert(RETURN@ =~= seq!['R', 'E', 'T', 'U', 'R', 'N']);
}

} // verus!
