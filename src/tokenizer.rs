//! The lexer: a formula's characters to tokens, one at a time.
use crate::decimal::{decimal_number, parsed_decimal, Decimal, DecimalModel};
use crate::error::{ErrorModel, TableError, TableResult};
use std::ops::Range;
use vstd::prelude::*;
use vstd::string::*;

verus! {

/// One lexical unit of a formula.
#[derive(Debug, PartialEq, Eq)]
pub enum Token {
    Number(Decimal),
    CellRef((usize, usize)),
    CellRange((Range<usize>, Range<usize>)),
    Comma,
    Sum,
    Plus,
    Slash,
    Minus,
    Star,
    LeftParen,
    RightParen,
}

/// The mathematical model of a `Token`. A range keeps its column bounds
/// first, then its row bounds, each half-open.
pub enum TokenModel {
    Number(DecimalModel),
    CellRef(nat, nat),
    CellRange(nat, nat, nat, nat),
    Comma,
    Sum,
    Plus,
    Slash,
    Minus,
    Star,
    LeftParen,
    RightParen,
}

impl View for Token {
    type V = TokenModel;

    open spec fn view(&self) -> TokenModel {
        match self {
            Token::Number(d) => TokenModel::Number(d@),
            Token::CellRef(p) => TokenModel::CellRef(p.0 as nat, p.1 as nat),
            Token::CellRange(p) => TokenModel::CellRange(
                p.0.start as nat,
                p.0.end as nat,
                p.1.start as nat,
                p.1.end as nat,
            ),
            Token::Comma => TokenModel::Comma,
            Token::Sum => TokenModel::Sum,
            Token::Plus => TokenModel::Plus,
            Token::Slash => TokenModel::Slash,
            Token::Minus => TokenModel::Minus,
            Token::Star => TokenModel::Star,
            Token::LeftParen => TokenModel::LeftParen,
            Token::RightParen => TokenModel::RightParen,
        }
    }
}

impl TokenModel {
    /// Every decimal the token carries is well formed.
    pub open spec fn wf(self) -> bool {
        self matches TokenModel::Number(d) ==> d.wf()
    }

    /// The tokens that may stand alone as a primary expression.
    pub open spec fn is_operand(self) -> bool {
        ||| self is Number
        ||| self is CellRef
        ||| self is CellRange
        ||| self is Sum
    }
}

impl Token {
    pub fn is_number(&self) -> (r: bool)
        ensures
            r == (self@ is Number),
    {
        matches!(self, Token::Number(..))
    }

    pub fn is_cell_ref(&self) -> (r: bool)
        ensures
            r == (self@ is CellRef),
    {
        matches!(self, Token::CellRef(..))
    }

    pub fn is_cell_range(&self) -> (r: bool)
        ensures
            r == (self@ is CellRange),
    {
        matches!(self, Token::CellRange(..))
    }

    pub fn is_builtin_fn(&self) -> (r: bool)
        ensures
            r == (self@ is Sum),
    {
        matches!(self, Token::Sum)
    }

    pub fn is_minus(&self) -> (r: bool)
        ensures
            r == (self@ is Minus),
    {
        matches!(self, Token::Minus)
    }

    /// The token of a punctuation character.
    pub fn from_char(c: char) -> (r: TableResult<Token>)
        ensures
            lexed(r) == punctuation(c),
    {
        match c {
            '+' => Ok(Token::Plus),
            '-' => Ok(Token::Minus),
            '/' => Ok(Token::Slash),
            '*' => Ok(Token::Star),
            '(' => Ok(Token::LeftParen),
            ')' => Ok(Token::RightParen),
            ',' => Ok(Token::Comma),
            _ => {
                let message = String::from_str("Unknown character encountered: ").concat(char_text(c).as_str());
                Err(TableError::InvalidCell(message))
            },
        }
    }

    /// An independent copy with the same model.
    pub fn duplicate(&self) -> (r: Token)
        ensures
            r@ == self@,
    {
        match self {
            Token::Number(d) => Token::Number(d.duplicate()),
            Token::CellRef(p) => Token::CellRef((p.0, p.1)),
            Token::CellRange(p) => Token::CellRange(
                (Range { start: p.0.start, end: p.0.end }, Range { start: p.1.start, end: p.1.end }),
            ),
            Token::Comma => Token::Comma,
            Token::Sum => Token::Sum,
            Token::Plus => Token::Plus,
            Token::Slash => Token::Slash,
            Token::Minus => Token::Minus,
            Token::Star => Token::Star,
            Token::LeftParen => Token::LeftParen,
            Token::RightParen => Token::RightParen,
        }
    }
}

/// The outcome of reading one token.
pub type Lexed = Result<TokenModel, ErrorModel>;

pub open spec fn lexed(r: TableResult<Token>) -> Lexed {
    match r {
        Ok(t) => Ok(t@),
        Err(e) => Err(e@),
    }
}

pub open spec fn lexed_all(rs: Seq<TableResult<Token>>) -> Seq<Lexed> {
    Seq::new(rs.len(), |i: int| lexed(rs[i]))
}

/// Every token read holds well-formed decimals.
pub open spec fn stream_wf(ts: Seq<Lexed>) -> bool {
    forall|i: int| 0 <= i < ts.len() ==> (#[trigger] ts[i] matches Ok(t) ==> t.wf())
}

/// Whether `char::is_whitespace` holds of a character.
pub uninterp spec fn whitespace_char(c: char) -> bool;

/// Whether `char::is_numeric` holds of a character.
pub uninterp spec fn numeric_char(c: char) -> bool;

/// Whether `char::is_alphabetic` holds of a character.
pub uninterp spec fn alphabetic_char(c: char) -> bool;

/// Whether a character is whitespace: for ASCII, the space and `\t` to `\r`.
pub open spec fn is_space(c: char) -> bool {
    if c <= '\x7f' {
        c == ' ' || ('\t' <= c && c <= '\r')
    } else {
        whitespace_char(c)
    }
}

/// Whether a character is numeric: for ASCII, the digits.
pub open spec fn is_numeral(c: char) -> bool {
    if c <= '\x7f' {
        ascii_digit(c)
    } else {
        numeric_char(c)
    }
}

/// Whether a character is alphabetic: for ASCII, the letters.
pub open spec fn is_letter_char(c: char) -> bool {
    if c <= '\x7f' {
        ascii_alpha(c)
    } else {
        alphabetic_char(c)
    }
}

/// Relies on `char::is_whitespace` (the White_Space property): among ASCII
/// characters it holds of the space and of `\t` to `\r` only.
#[verifier::external_body]
fn is_whitespace(c: char) -> (r: bool)
    ensures
        r == (if c <= '\x7f' {
            c == ' ' || ('\t' <= c && c <= '\r')
        } else {
            whitespace_char(c)
        }),
{
    c.is_whitespace()
}

/// Relies on `char::is_numeric` (the general categories for numbers): among
/// ASCII characters it holds of the digits only.
#[verifier::external_body]
pub(crate) fn is_numeric(c: char) -> (r: bool)
    ensures
        r == (if c <= '\x7f' {
            ascii_digit(c)
        } else {
            numeric_char(c)
        }),
{
    c.is_numeric()
}

/// Relies on `char::is_alphabetic` (the Alphabetic property): among ASCII
/// characters it holds of the letters only.
#[verifier::external_body]
fn is_alphabetic(c: char) -> (r: bool)
    ensures
        r == (if c <= '\x7f' {
            ascii_alpha(c)
        } else {
            alphabetic_char(c)
        }),
{
    c.is_alphabetic()
}

/// Relies on `ToString` for `char`, which writes the character alone.
#[verifier::external_body]
pub(crate) fn char_text(c: char) -> (r: String)
    ensures
        r@ == seq![c],
{
    c.to_string()
}

pub open spec fn ascii_alpha(c: char) -> bool {
    ('a' <= c && c <= 'z') || ('A' <= c && c <= 'Z')
}

pub open spec fn ascii_digit(c: char) -> bool {
    '0' <= c && c <= '9'
}

/// The value of a column letter: 1 for `a` or `A`, up to 26 for `z` or `Z`.
pub open spec fn letter_value(c: char) -> nat {
    if 'A' <= c && c <= 'Z' {
        ((c as u32) - 64) as nat
    } else {
        ((c as u32) - 96) as nat
    }
}

/// `c` is the letter `lower` in either case.
pub open spec fn is_letter(c: char, lower: char, upper: char) -> bool {
    c == lower || c == upper
}

/// How many characters from `pos` on are whitespace.
pub open spec fn whitespace_span(s: Seq<char>, pos: int) -> nat
    decreases s.len() - pos,
{
    if 0 <= pos < s.len() && is_space(s[pos]) {
        1 + whitespace_span(s, pos + 1)
    } else {
        0
    }
}

/// How many characters from `pos` on are numeric.
pub open spec fn numeric_span(s: Seq<char>, pos: int) -> nat
    decreases s.len() - pos,
{
    if 0 <= pos < s.len() && is_numeral(s[pos]) {
        1 + numeric_span(s, pos + 1)
    } else {
        0
    }
}

/// How many characters from `pos` on are alphabetic.
pub open spec fn alphabetic_span(s: Seq<char>, pos: int) -> nat
    decreases s.len() - pos,
{
    if 0 <= pos < s.len() && is_letter_char(s[pos]) {
        1 + alphabetic_span(s, pos + 1)
    } else {
        0
    }
}

/// How many characters from `pos` on are ASCII letters.
pub open spec fn letter_span(s: Seq<char>, pos: int) -> nat
    decreases s.len() - pos,
{
    if 0 <= pos < s.len() && ascii_alpha(s[pos]) {
        1 + letter_span(s, pos + 1)
    } else {
        0
    }
}

/// A column written in letters, read in base 26 with `a` (or `A`) as one
/// and no zero digit: `a` is 1, `z` is 26, `aa` is 27.
pub open spec fn column_number(s: Seq<char>) -> nat
    decreases s.len(),
{
    if s.len() == 0 {
        0
    } else {
        column_number(s.drop_last()) * 26 + letter_value(s.last())
    }
}

pub open spec fn all_ascii_digits(s: Seq<char>) -> bool {
    forall|i: int| 0 <= i < s.len() ==> ascii_digit(s[i])
}

pub open spec fn msg_reference() -> Seq<char> {
    "Could not parse cell reference"@
}

pub open spec fn msg_range() -> Seq<char> {
    "Invalid cell range"@
}

/// A cell reference at `pos`: letters naming the column, then digits naming
/// the row, both counted from one. Gives the zero-based column and row, or an
/// error, and the position after what was read.
pub open spec fn read_reference(s: Seq<char>, pos: int) -> (Result<(nat, nat), ErrorModel>, int) {
    let a = letter_span(s, pos);
    let d = numeric_span(s, pos + a);
    let letters = s.subrange(pos, pos + a);
    let digits = s.subrange(pos + a, pos + a + d);
    if a == 0 {
        (Err(ErrorModel::InvalidCell(msg_reference())), pos)
    } else if d == 0 {
        (Err(ErrorModel::InvalidCell(msg_reference())), pos + a)
    } else if !all_ascii_digits(digits) || decimal_number(digits) > usize::MAX
        || decimal_number(digits) == 0 || column_number(letters) > usize::MAX {
        (Err(ErrorModel::InvalidCell(msg_reference())), pos + a + d)
    } else {
        (Ok(((column_number(letters) - 1) as nat, (decimal_number(digits) - 1) as nat)), pos + a + d)
    }
}

pub open spec fn min_nat(a: nat, b: nat) -> nat {
    if a <= b {
        a
    } else {
        b
    }
}

pub open spec fn max_nat(a: nat, b: nat) -> nat {
    if a >= b {
        a
    } else {
        b
    }
}

/// A cell reference, or two joined by `:` into the rectangle that spans them.
pub open spec fn read_cell_token(s: Seq<char>, pos: int) -> (Lexed, int) {
    let (first, p) = read_reference(s, pos);
    match first {
        Err(e) => (Err(e), p),
        Ok((c, r)) => if p < s.len() && s[p] == ':' {
            let (second, q) = read_reference(s, p + 1);
            match second {
                Err(_) => (Err(ErrorModel::InvalidCell(msg_range())), q),
                Ok((c2, r2)) => (
                    Ok(TokenModel::CellRange(min_nat(c, c2), max_nat(c, c2) + 1, min_nat(r, r2), max_nat(r, r2) + 1)),
                    q,
                ),
            }
        } else {
            (Ok(TokenModel::CellRef(c, r)), p)
        },
    }
}

/// A word at `pos`: the name of a builtin function, else a cell reference.
pub open spec fn read_word(s: Seq<char>, pos: int) -> (Lexed, int) {
    if alphabetic_span(s, pos) == 3 && is_letter(s[pos], 's', 'S') && is_letter(s[pos + 1], 'u', 'U')
        && is_letter(s[pos + 2], 'm', 'M') {
        (Ok(TokenModel::Sum), pos + 3)
    } else {
        read_cell_token(s, pos)
    }
}

/// The text of a number at `pos`: numeric characters, then, after a `.`,
/// more of them.
pub open spec fn number_end(s: Seq<char>, pos: int) -> int {
    let p = pos + numeric_span(s, pos);
    if p < s.len() && s[p] == '.' {
        p + 1 + numeric_span(s, p + 1)
    } else {
        p
    }
}

pub open spec fn number_message(text: Seq<char>) -> Seq<char> {
    "Could not format "@ + text + " as a valid number"@
}

pub open spec fn read_number(s: Seq<char>, pos: int) -> (Lexed, int) {
    let text = s.subrange(pos, number_end(s, pos));
    match parsed_decimal(text) {
        Some(d) => (Ok(TokenModel::Number(d)), number_end(s, pos)),
        None => (Err(ErrorModel::InvalidCell(number_message(text))), number_end(s, pos)),
    }
}

pub open spec fn punctuation(c: char) -> Lexed {
    if c == '+' {
        Ok(TokenModel::Plus)
    } else if c == '-' {
        Ok(TokenModel::Minus)
    } else if c == '/' {
        Ok(TokenModel::Slash)
    } else if c == '*' {
        Ok(TokenModel::Star)
    } else if c == '(' {
        Ok(TokenModel::LeftParen)
    } else if c == ')' {
        Ok(TokenModel::RightParen)
    } else if c == ',' {
        Ok(TokenModel::Comma)
    } else {
        Err(ErrorModel::InvalidCell("Unknown character encountered: "@ + seq![c]))
    }
}

/// The next token after `pos`, once whitespace is skipped, and the position
/// after it; `None` at the end of the text.
pub open spec fn next_lexed(s: Seq<char>, pos: int) -> Option<(Lexed, int)> {
    let p = pos + whitespace_span(s, pos);
    if p >= s.len() {
        None
    } else if ascii_alpha(s[p]) {
        Some(read_word(s, p))
    } else if is_numeral(s[p]) {
        Some(read_number(s, p))
    } else {
        Some((punctuation(s[p]), p + 1))
    }
}

/// Every token of the text from `pos` on, errors included, in order.
pub open spec fn lex_from(s: Seq<char>, pos: int) -> Seq<Lexed>
    decreases s.len() - pos,
{
    match next_lexed(s, pos) {
        None => Seq::empty(),
        Some((x, p)) => if pos < p <= s.len() {
            seq![x] + lex_from(s, p)
        } else {
            seq![x]
        },
    }
}

/// Reads the tokens of a formula's text, one at a time.
pub struct Tokenizer {
    source: Vec<char>,
    pos: usize,
}

impl Tokenizer {
    /// The whole text.
    pub closed spec fn text(&self) -> Seq<char> {
        self.source@
    }

    /// How far the text has been read.
    pub closed spec fn position(&self) -> int {
        self.pos as int
    }

    pub closed spec fn wf(&self) -> bool {
        self.pos <= self.source@.len()
    }

    pub fn new(source: &[char]) -> (r: Tokenizer)
        ensures
            r.text() == source@,
            r.position() == 0,
            r.wf(),
    {
        let mut v: Vec<char> = Vec::new();
        let mut i: usize = 0;
        while i < source.len()
            invariant
                i <= source@.len(),
                v@ == source@.subrange(0, i as int),
            decreases source@.len() - i,
        {
            v.push(source[i]);
            i += 1;
        }
        assert(v@ =~= source@);
        Tokenizer { source: v, pos: 0 }
    }

    fn at_end(&self) -> (r: bool)
        requires
            self.wf(),
        ensures
            r == (self.pos >= self.source@.len()),
    {
        self.pos >= self.source.len()
    }

    fn whitespace_from(&self, from: usize) -> (n: usize)
        requires
            from <= self.source@.len(),
        ensures
            n == whitespace_span(self.source@, from as int),
            from + n <= self.source@.len(),
    {
        let mut i = from;
        while i < self.source.len() && is_whitespace(self.source[i])
            invariant
                from <= i <= self.source@.len(),
                whitespace_span(self.source@, from as int) == (i - from) + whitespace_span(self.source@, i as int),
            decreases self.source@.len() - i,
        {
            i += 1;
        }
        i - from
    }

    fn numeric_from(&self, from: usize) -> (n: usize)
        requires
            from <= self.source@.len(),
        ensures
            n == numeric_span(self.source@, from as int),
            from + n <= self.source@.len(),
    {
        let mut i = from;
        while i < self.source.len() && is_numeric(self.source[i])
            invariant
                from <= i <= self.source@.len(),
                numeric_span(self.source@, from as int) == (i - from) + numeric_span(self.source@, i as int),
            decreases self.source@.len() - i,
        {
            i += 1;
        }
        i - from
    }

    fn alphabetic_from(&self, from: usize) -> (n: usize)
        requires
            from <= self.source@.len(),
        ensures
            n == alphabetic_span(self.source@, from as int),
            from + n <= self.source@.len(),
    {
        let mut i = from;
        while i < self.source.len() && is_alphabetic(self.source[i])
            invariant
                from <= i <= self.source@.len(),
                alphabetic_span(self.source@, from as int) == (i - from) + alphabetic_span(self.source@, i as int),
            decreases self.source@.len() - i,
        {
            i += 1;
        }
        i - from
    }

    fn letters_from(&self, from: usize) -> (n: usize)
        requires
            from <= self.source@.len(),
        ensures
            n == letter_span(self.source@, from as int),
            from + n <= self.source@.len(),
            forall|k: int| from <= k < from + n ==> ascii_alpha(#[trigger] self.source@[k]),
    {
        let mut i = from;
        while i < self.source.len() && is_ascii_alpha(self.source[i])
            invariant
                from <= i <= self.source@.len(),
                forall|k: int| from <= k < i ==> ascii_alpha(#[trigger] self.source@[k]),
                letter_span(self.source@, from as int) == (i - from) + letter_span(self.source@, i as int),
            decreases self.source@.len() - i,
        {
            i += 1;
        }
        i - from
    }

    /// Skips whitespace.
    fn strip_left(&mut self)
        requires
            old(self).wf(),
        ensures
            final(self).wf(),
            final(self).text() == old(self).text(),
            final(self).position() == old(self).position() + whitespace_span(old(self).text(), old(self).position()),
    {
        let n = self.whitespace_from(self.pos);
        let _len = self.source.len();
        self.pos = self.pos + n;
    }

    /// The characters from `from` to `to` as a string.
    fn text_between(&self, from: usize, to: usize) -> (r: String)
        requires
            from <= to <= self.source@.len(),
        ensures
            r@ == self.source@.subrange(from as int, to as int),
    {
        let mut r = String::new();
        let mut i = from;
        while i < to
            invariant
                from <= i <= to,
                to <= self.source@.len(),
                r@ == self.source@.subrange(from as int, i as int),
            decreases to - i,
        {
            let c = char_text(self.source[i]);
            r.append(c.as_str());
            assert(r@ =~= self.source@.subrange(from as int, i + 1));
            i += 1;
        }
        r
    }
}

/// The outcome of reading a cell reference.
pub open spec fn read_outcome(r: TableResult<(usize, usize)>) -> Result<(nat, nat), ErrorModel> {
    match r {
        Ok((c, w)) => Ok((c as nat, w as nat)),
        Err(e) => Err(e@),
    }
}

impl Tokenizer {
    /// Reads a cell reference: letters for the column, digits for the row.
    fn parse_cell_reference(&mut self) -> (r: TableResult<(usize, usize)>)
        requires
            old(self).wf(),
        ensures
            final(self).wf(),
            final(self).text() == old(self).text(),
            (read_outcome(r), final(self).position()) == read_reference(old(self).text(), old(self).position()),
            r matches Ok((c, w)) ==> c < usize::MAX && w < usize::MAX,
    {
        let ghost s = self.source@;
        let start = self.pos;
        let _len = self.source.len();
        let a = self.letters_from(start);
        if a == 0 {
            return Err(TableError::invalid_cell("Could not parse cell reference"));
        }
        let mut col: usize = 0;
        let mut too_big = false;
        let mut i = start;
        let end_a = start + a;
        proof {
            assert(s.subrange(start as int, start as int) =~= Seq::<char>::empty());
        }
        while i < end_a
            invariant
                start <= i <= start + a,
                end_a == start + a,
                start + a <= s.len(),
                s == self.source@,
                forall|k: int| start <= k < start + a ==> ascii_alpha(#[trigger] s[k]),
                too_big == (column_number(s.subrange(start as int, i as int)) > usize::MAX),
                !too_big ==> col == column_number(s.subrange(start as int, i as int)),
                i > start && !too_big ==> col >= 1,
            decreases start + a - i,
        {
            let c = self.source[i];
            let v: u32 = if 'A' <= c && c <= 'Z' {
                (c as u32) - 64
            } else {
                (c as u32) - 96
            };
            let ghost before = s.subrange(start as int, i as int);
            let ghost after = s.subrange(start as int, i + 1);
            proof {
                assert(ascii_alpha(s[i as int]));
                assert(after.drop_last() =~= before);
                assert(after.last() == c);
                assert(v as nat == letter_value(c));
                assert(column_number(after) == column_number(before) * 26 + letter_value(c));
            }
            if !too_big {
                let next: u128 = (col as u128) * 26 + (v as u128);
                if next > usize::MAX as u128 {
                    too_big = true;
                } else {
                    col = next as usize;
                }
            }
            i += 1;
        }
        let b = start + a;
        self.pos = b;
        let d = self.numeric_from(b);
        if d == 0 {
            return Err(TableError::invalid_cell("Could not parse cell reference"));
        }
        self.pos = b + d;
        let mut row: usize = 0;
        let mut bad = false;
        let mut j = b;
        let end_d = b + d;
        proof {
            assert(s.subrange(b as int, b as int) =~= Seq::<char>::empty());
        }
        while j < end_d
            invariant
                b <= j <= b + d,
                end_d == b + d,
                b + d <= s.len(),
                s == self.source@,
                bad == (!all_ascii_digits(s.subrange(b as int, j as int)) || decimal_number(s.subrange(b as int, j as int)) > usize::MAX),
                !bad ==> row == decimal_number(s.subrange(b as int, j as int)),
            decreases b + d - j,
        {
            let c = self.source[j];
            let ghost before = s.subrange(b as int, j as int);
            let ghost after = s.subrange(b as int, j + 1);
            proof {
                assert(after.drop_last() =~= before);
                assert(after.last() == c);
                assert(forall|k: int| 0 <= k < before.len() ==> before[k] == after[k]);
                if !all_ascii_digits(before) {
                    let k = choose|k: int| 0 <= k < before.len() && !ascii_digit(before[k]);
                    assert(!ascii_digit(after[k]));
                }
            }
            if !bad {
                if !('0' <= c && c <= '9') {
                    bad = true;
                    proof {
                        assert(!ascii_digit(after[before.len() as int]));
                    }
                } else {
                    let next: u128 = (row as u128) * 10 + ((c as u32) - 48) as u128;
                    proof {
                        assert(all_ascii_digits(after));
                        assert(decimal_number(after) == decimal_number(before) * 10 + ((c as u32) - 48) as nat);
                    }
                    if next > usize::MAX as u128 {
                        bad = true;
                    } else {
                        row = next as usize;
                    }
                }
            } else {
                proof {
                    if all_ascii_digits(after) {
                        assert(all_ascii_digits(before));
                        assert(decimal_number(after) == decimal_number(before) * 10 + ((c as u32) - 48) as nat);
                    }
                }
            }
            j += 1;
        }
        if bad || row == 0 || too_big {
            return Err(TableError::invalid_cell("Could not parse cell reference"));
        }
        Ok((col - 1, row - 1))
    }

    /// Reads a cell reference, or a range of two joined by `:`.
    fn cell_reference(&mut self) -> (r: TableResult<Token>)
        requires
            old(self).wf(),
        ensures
            final(self).wf(),
            final(self).text() == old(self).text(),
            (lexed(r), final(self).position()) == read_cell_token(old(self).text(), old(self).position()),
    {
        let first = self.parse_cell_reference();
        match first {
            Err(e) => Err(e),
            Ok((c, r)) => {
                if self.pos < self.source.len() && self.source[self.pos] == ':' {
                    self.pos = self.pos + 1;
                    match self.parse_cell_reference() {
                        Err(_) => Err(TableError::invalid_cell("Invalid cell range")),
                        Ok((c2, r2)) => {
                            let (c_lo, c_hi) = if c <= c2 { (c, c2) } else { (c2, c) };
                            let (r_lo, r_hi) = if r <= r2 { (r, r2) } else { (r2, r) };
                            Ok(Token::CellRange((Range { start: c_lo, end: c_hi + 1 }, Range { start: r_lo, end: r_hi + 1 })))
                        },
                    }
                } else {
                    Ok(Token::CellRef((c, r)))
                }
            },
        }
    }

    /// Reads a word: the name of a builtin function, else a cell reference.
    pub fn literal(&mut self) -> (r: TableResult<Token>)
        requires
            old(self).wf(),
        ensures
            final(self).wf(),
            final(self).text() == old(self).text(),
            (lexed(r), final(self).position()) == read_word(old(self).text(), old(self).position()),
    {
        let n = self.alphabetic_from(self.pos);
        let _len = self.source.len();
        if n == 3 {
            let a = self.source[self.pos];
            let b = self.source[self.pos + 1];
            let c = self.source[self.pos + 2];
            if (a == 's' || a == 'S') && (b == 'u' || b == 'U') && (c == 'm' || c == 'M') {
                self.pos = self.pos + 3;
                return Ok(Token::Sum);
            }
        }
        self.cell_reference()
    }

    /// Reads a number: digits, then, after a `.`, more digits.
    fn number(&mut self) -> (r: TableResult<Token>)
        requires
            old(self).wf(),
        ensures
            final(self).wf(),
            final(self).text() == old(self).text(),
            (lexed(r), final(self).position()) == read_number(old(self).text(), old(self).position()),
            r matches Ok(t) ==> t@.wf(),
    {
        let start = self.pos;
        let _len = self.source.len();
        let a = self.numeric_from(start);
        let mut end = start + a;
        if end < self.source.len() && self.source[end] == '.' {
            let b = self.numeric_from(end + 1);
            end = end + 1 + b;
        }
        let text = self.text_between(start, end);
        self.pos = end;
        match Decimal::parse(text.as_str()) {
            Some(d) => Ok(Token::Number(d)),
            None => {
                let message = String::from_str("Could not format ").concat(text.as_str()).concat(" as a valid number");
                Err(TableError::InvalidCell(message))
            },
        }
    }

    /// The next token, once whitespace is skipped; `None` at the end of the
    /// text. After an error, reading goes on past what was read.
    pub fn next_token(&mut self) -> (r: Option<TableResult<Token>>)
        requires
            old(self).wf(),
        ensures
            final(self).wf(),
            final(self).text() == old(self).text(),
            match next_lexed(old(self).text(), old(self).position()) {
                None => r is None,
                Some((x, p)) => r matches Some(t) && lexed(t) == x && final(self).position() == p
                    && old(self).position() < p,
            },
            r matches Some(Ok(t)) ==> t@.wf(),
    {
        self.strip_left();
        if self.at_end() {
            return None;
        }
        let c = self.source[self.pos];
        let _len = self.source.len();
        if is_ascii_alpha(c) {
            Some(self.literal())
        } else if is_numeric(c) {
            Some(self.number())
        } else {
            self.pos = self.pos + 1;
            Some(Token::from_char(c))
        }
    }

    /// Every token left in the text, errors included, in order.
    pub fn tokens(&mut self) -> (r: Vec<TableResult<Token>>)
        requires
            old(self).wf(),
        ensures
            lexed_all(r@) == lex_from(old(self).text(), old(self).position()),
            stream_wf(lexed_all(r@)),
    {
        let ghost s = self.text();
        let ghost start = self.position();
        let mut out: Vec<TableResult<Token>> = Vec::new();
        proof {
            assert(lexed_all(out@) + lex_from(s, start) =~= lex_from(s, start));
        }
        loop
            invariant
                self.wf(),
                self.text() == s,
                s == old(self).text(),
                start == old(self).position(),
                lex_from(s, start) == lexed_all(out@) + lex_from(s, self.position()),
                stream_wf(lexed_all(out@)),
            decreases s.len() - self.position(),
        {
            let ghost before = self.position();
            match self.next_token() {
                None => {
                    proof {
                        assert(next_lexed(s, before) is None);
                        assert(lex_from(s, before) == Seq::<Lexed>::empty());
                        assert(lexed_all(out@) + lex_from(s, before) =~= lexed_all(out@));
                    }
                    return out;
                },
                Some(t) => {
                    proof {
                        assert(lexed_all(out@.push(t)) =~= lexed_all(out@).push(lexed(t)));
                        assert(lexed_all(out@) + lex_from(s, before) =~= lexed_all(out@.push(t)) + lex_from(s, self.position()));
                    }
                    out.push(t);
                },
            }
        }
    }
}

fn is_ascii_alpha(c: char) -> (r: bool)
    ensures
        r == ascii_alpha(c),
{
    ('a' <= c && c <= 'z') || ('A' <= c && c <= 'Z')
}

impl Clone for Token {
    fn clone(&self) -> Self {
        self.duplicate()
    }
}

} // verus!
