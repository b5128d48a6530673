use vstd::prelude::*;
use crate::lexer::{Lexer, Lexeme, Token, lex_all};
use crate::text::{push_signed_decimal, push_str, quoted, signed_decimal};
use crate::evaluator::push_lit_char;

verus! {

/// An expression tree.
#[derive(Debug, PartialEq)]
pub enum Expr {
    Date(u32, u8, u8),
    Time(u8, u8),
    DateTime(u32, u8, u8, u8, u8),
    Keyword(Keyword),
    Duration(i64, Unit),
    BinOp(Box<Expr>, Op, Box<Expr>),
}

#[derive(Debug, Clone, Copy, PartialEq, Eq, Structural)]
pub enum Op {
    Add,
    Sub,
}

#[derive(Debug, Clone, Copy, PartialEq, Eq, Structural)]
pub enum Keyword {
    Today,
    Now,
    Tomorrow,
    Yesterday,
}

#[derive(Debug, Clone, Copy, PartialEq, Eq, Structural)]
pub enum Unit {
    Years,
    Months,
    Days,
    Hours,
    Minutes,
    Seconds,
}

/// Why an expression could not be parsed.
#[derive(Debug)]
pub enum ParsingError {
    UnexpectedToken(Token),
    UnknownKeyword(String),
    UnexpectedIdent(String),
    UnexpectedEof,
    ExpectedIdent,
    ExpectedNumber,
    ExpectedSlash,
    ExpectedColon,
    ExpectedUnit,
    InvalidYear(i64),
    InvalidTime(String),
}

const HOURS_IN_HALF_DAY: i64 = 12;

/// The keyword that a word names.
pub open spec fn keyword_of(w: Seq<char>) -> Option<Keyword> {
    if w == "today"@ {
        Some(Keyword::Today)
    } else if w == "tomorrow"@ {
        Some(Keyword::Tomorrow)
    } else if w == "yesterday"@ {
        Some(Keyword::Yesterday)
    } else if w == "now"@ {
        Some(Keyword::Now)
    } else {
        None
    }
}

/// The duration unit that a word names.
pub open spec fn unit_of(w: Seq<char>) -> Option<Unit> {
    if w == "years"@ || w == "year"@ || w == "y"@ {
        Some(Unit::Years)
    } else if w == "months"@ || w == "month"@ {
        Some(Unit::Months)
    } else if w == "days"@ || w == "day"@ || w == "d"@ {
        Some(Unit::Days)
    } else if w == "hours"@ || w == "hour"@ || w == "h"@ {
        Some(Unit::Hours)
    } else if w == "minutes"@ || w == "minute"@ || w == "m"@ {
        Some(Unit::Minutes)
    } else if w == "seconds"@ || w == "second"@ || w == "s"@ {
        Some(Unit::Seconds)
    } else {
        None
    }
}

/// The token at index `i`; past the end, `Eof`.
pub open spec fn tk(ts: Seq<Lexeme>, i: int) -> Lexeme {
    if 0 <= i < ts.len() {
        ts[i]
    } else {
        Lexeme::Eof
    }
}

/// Whether a number fits the eight bits that month, day, hour and minute are kept in.
pub open spec fn fits8(n: int) -> bool {
    0 <= n <= 255
}

/// The text of a rejected `hour:minute`, such as `14:286`.
pub open spec fn clock_text_spec(h: int, m: int) -> Seq<char> {
    signed_decimal(h) + seq![':'] + signed_decimal(m)
}

/// Why a year, month and day read as numbers cannot be kept in a date literal:
/// a year beyond 32 bits, or a month or day beyond eight bits.
pub open spec fn date_field_failure(y: int, mo: int, d: int) -> Option<ParseFailure> {
    if !(0 <= y <= u32::MAX) {
        Some(ParseFailure::InvalidYear(y))
    } else if !fits8(mo) {
        Some(ParseFailure::UnexpectedToken(Lexeme::Number(mo)))
    } else if !fits8(d) {
        Some(ParseFailure::UnexpectedToken(Lexeme::Number(d)))
    } else {
        None
    }
}

/// The hour that `n am` or `n pm` denotes.
pub open spec fn half_day_hour(n: int, pm: bool) -> Option<u8> {
    if 1 <= n <= 11 {
        Some((if pm { n + 12 } else { n }) as u8)
    } else if n == 12 {
        Some(if pm { 12u8 } else { 0u8 })
    } else {
        None
    }
}

/// A parse error over mathematical values.
pub enum ParseFailure {
    UnexpectedToken(Lexeme),
    UnknownKeyword(Seq<char>),
    UnexpectedIdent(Seq<char>),
    UnexpectedEof,
    ExpectedIdent,
    ExpectedNumber,
    ExpectedSlash,
    ExpectedColon,
    ExpectedUnit,
    InvalidYear(int),
    InvalidTime(Seq<char>),
}

impl ParsingError {
    pub open spec fn model(self) -> ParseFailure {
        match self {
            ParsingError::UnexpectedToken(t) => ParseFailure::UnexpectedToken(t.model()),
            ParsingError::UnknownKeyword(k) => ParseFailure::UnknownKeyword(k@),
            ParsingError::UnexpectedIdent(i) => ParseFailure::UnexpectedIdent(i@),
            ParsingError::UnexpectedEof => ParseFailure::UnexpectedEof,
            ParsingError::ExpectedIdent => ParseFailure::ExpectedIdent,
            ParsingError::ExpectedNumber => ParseFailure::ExpectedNumber,
            ParsingError::ExpectedSlash => ParseFailure::ExpectedSlash,
            ParsingError::ExpectedColon => ParseFailure::ExpectedColon,
            ParsingError::ExpectedUnit => ParseFailure::ExpectedUnit,
            ParsingError::InvalidYear(y) => ParseFailure::InvalidYear(y as int),
            ParsingError::InvalidTime(s) => ParseFailure::InvalidTime(s@),
        }
    }
}

/// The text of a rejected twelve-hour time, such as `34 pm`.
pub open spec fn half_day_text_spec(n: int, pm: bool) -> Seq<char> {
    signed_decimal(n) + (if pm { " pm"@ } else { " am"@ })
}

/// A parse result: the tree and the index after it, or the failure.
pub type Parsed = Result<(Expr, int), ParseFailure>;

/// A date, with an optional time of day, whose year `y` was read and whose first slash is at `i`.
/// Fields too large for their place are refused once the literal has been read.
pub open spec fn date_spec(ts: Seq<Lexeme>, i: int, y: int) -> Parsed {
    match tk(ts, i + 1) {
        Lexeme::Number(mo) => if !(tk(ts, i + 2) is Slash) {
            Err(ParseFailure::UnexpectedToken(tk(ts, i + 2)))
        } else {
            match tk(ts, i + 3) {
                Lexeme::Number(d) => match tk(ts, i + 4) {
                    Lexeme::Number(h) => if !(tk(ts, i + 5) is Colon) {
                        Err(ParseFailure::UnexpectedToken(tk(ts, i + 5)))
                    } else {
                        match tk(ts, i + 6) {
                            Lexeme::Number(mi) => match date_field_failure(y, mo, d) {
                                Some(f) => Err(f),
                                None => if fits8(h) && fits8(mi) {
                                    Ok((Expr::DateTime(y as u32, mo as u8, d as u8, h as u8, mi as u8), i + 7))
                                } else {
                                    Err(ParseFailure::InvalidTime(clock_text_spec(h, mi)))
                                },
                            },
                            _ => Err(ParseFailure::ExpectedNumber),
                        }
                    },
                    _ => match date_field_failure(y, mo, d) {
                        Some(f) => Err(f),
                        None => Ok((Expr::Date(y as u32, mo as u8, d as u8), i + 4)),
                    },
                },
                _ => Err(ParseFailure::ExpectedNumber),
            }
        },
        _ => Err(ParseFailure::ExpectedNumber),
    }
}

/// What follows a leading number `n`; `i` is the index after it.
pub open spec fn number_spec(ts: Seq<Lexeme>, i: int, n: int) -> Parsed {
    match tk(ts, i) {
        Lexeme::Slash => date_spec(ts, i, n),
        Lexeme::Colon => match tk(ts, i + 1) {
            Lexeme::Number(m) => if fits8(n) && fits8(m) {
                Ok((Expr::Time(n as u8, m as u8), i + 2))
            } else {
                Err(ParseFailure::InvalidTime(clock_text_spec(n, m)))
            },
            _ => Err(ParseFailure::ExpectedNumber),
        },
        Lexeme::Word(w) => if w == "am"@ || w == "pm"@ {
            match half_day_hour(n, w == "pm"@) {
                Some(h) => Ok((Expr::Time(h, 0), i + 1)),
                None => Err(ParseFailure::InvalidTime(half_day_text_spec(n, w == "pm"@))),
            }
        } else {
            match unit_of(w) {
                Some(u) => Ok((Expr::Duration(n as i64, u), i + 1)),
                None => Err(ParseFailure::UnknownKeyword(w)),
            }
        },
        t => Err(ParseFailure::UnexpectedToken(t)),
    }
}

/// A primary expression starting at index `i`, and the index after it.
pub open spec fn primary_spec(ts: Seq<Lexeme>, i: int) -> Parsed {
    match tk(ts, i) {
        Lexeme::Number(n) => number_spec(ts, i + 1, n),
        Lexeme::Word(w) => match keyword_of(w) {
            Some(k) => Ok((Expr::Keyword(k), i + 1)),
            None => Err(ParseFailure::UnknownKeyword(w)),
        },
        t => Err(ParseFailure::UnexpectedToken(t)),
    }
}

/// The chain of `+` and `-` from index `i` on, folded left onto `left`, and the index after it.
pub open spec fn chain_spec(ts: Seq<Lexeme>, i: int, left: Expr) -> Parsed
    decreases ts.len() - i,
{
    let op = match tk(ts, i) {
        Lexeme::Plus => Some(Op::Add),
        Lexeme::Minus => Some(Op::Sub),
        _ => None,
    };
    match op {
        None => Ok((left, i)),
        Some(op) => match primary_spec(ts, i + 1) {
            Ok((right, j)) => if i < j <= ts.len() {
                chain_spec(ts, j, Expr::BinOp(Box::new(left), op, Box::new(right)))
            } else {
                Ok((left, i))
            },
            Err(f) => Err(f),
        },
    }
}

/// The expression that a token sequence denotes, or why it does not parse.
/// The expression must be followed by the end of input; any other token is unexpected.
pub open spec fn parse_spec(ts: Seq<Lexeme>) -> Result<Expr, ParseFailure> {
    parse_from(ts, 0)
}

/// A whole expression starting at index `i`, followed by the end of input.
pub open spec fn parse_from(ts: Seq<Lexeme>, i: int) -> Result<Expr, ParseFailure> {
    match primary_spec(ts, i) {
        Ok((e, j)) => match chain_spec(ts, j, e) {
            Ok((f, k)) => if tk(ts, k) is Eof {
                Ok(f)
            } else {
                Err(ParseFailure::UnexpectedToken(tk(ts, k)))
            },
            Err(f) => Err(f),
        },
        Err(f) => Err(f),
    }
}

/// `r` is what a parse returned, given what the grammar says of that point.
pub open spec fn parsed_as(r: Result<Expr, ParsingError>, p: Parsed, pos: int) -> bool {
    match p {
        Ok((e, j)) => r == Ok::<Expr, ParsingError>(e) && pos == j,
        Err(f) => r matches Err(x) && x.model() == f,
    }
}

pub open spec fn models(ts: Seq<Token>) -> Seq<Lexeme> {
    ts.map_values(|t: Token| t.model())
}

/// Every number in the token sequence is non-negative.
pub open spec fn numbers_natural(ts: Seq<Lexeme>) -> bool {
    forall|i: int| 0 <= i < ts.len() ==> (ts[i] is Number ==> ts[i]->Number_0 >= 0)
}

proof fn lemma_primary_bounds(ts: Seq<Lexeme>, i: int)
    requires
        primary_spec(ts, i) is Ok,
    ensures
        i < primary_spec(ts, i)->Ok_0.1 <= ts.len(),
{
}

/// Whether the text of `w` is exactly `lit`.
fn word_is(w: &str, lit: &str) -> (r: bool)
    ensures
        r == (w@ == lit@),
{
    let n = w.unicode_len();
    if n != lit.unicode_len() {
        return false;
    }
    let mut i: usize = 0;
    while i < n
        invariant
            n == w@.len(),
            n == lit@.len(),
            0 <= i <= n,
            forall|k: int| 0 <= k < i ==> w@[k] == lit@[k],
        decreases n - i,
    {
        if w.get_char(i) != lit.get_char(i) {
            return false;
        }
        i = i + 1;
    }
    assert(w@ =~= lit@);
    true
}

impl Unit {
    /// The unit that a name denotes: plural, singular, or one letter.
    pub fn from_name(name: &str) -> (r: Option<Unit>)
        ensures
            r == unit_of(name@),
    {
        if word_is(name, "years") || word_is(name, "year") || word_is(name, "y") {
            Some(Unit::Years)
        } else if word_is(name, "months") || word_is(name, "month") {
            Some(Unit::Months)
        } else if word_is(name, "days") || word_is(name, "day") || word_is(name, "d") {
            Some(Unit::Days)
        } else if word_is(name, "hours") || word_is(name, "hour") || word_is(name, "h") {
            Some(Unit::Hours)
        } else if word_is(name, "minutes") || word_is(name, "minute") || word_is(name, "m") {
            Some(Unit::Minutes)
        } else if word_is(name, "seconds") || word_is(name, "second") || word_is(name, "s") {
            Some(Unit::Seconds)
        } else {
            None
        }
    }
}

fn token_at(ts: &Vec<Token>, i: usize) -> (r: Token)
    ensures
        r.model() == tk(models(ts@), i as int),
{
    if i < ts.len() {
        match &ts[i] {
            Token::Number(n) => Token::Number(*n),
            Token::Ident(s) => Token::Ident(String::from_str(s.as_str())),
            Token::Plus => Token::Plus,
            Token::Minus => Token::Minus,
            Token::Colon => Token::Colon,
            Token::Slash => Token::Slash,
            Token::Eof => Token::Eof,
            Token::Illegal => Token::Illegal,
        }
    } else {
        Token::Eof
    }
}

fn fits8_of(n: i64) -> (r: Option<u8>)
    ensures
        r is Some <==> fits8(n as int),
        r matches Some(v) ==> v == n,
{
    if 0 <= n && n <= 255 {
        Some(n as u8)
    } else {
        None
    }
}

/// The text of a rejected `hour:minute`.
fn clock_text(h: i64, m: i64) -> (r: String)
    ensures
        r@ == clock_text_spec(h as int, m as int),
{
    let mut s = String::new();
    push_signed_decimal(&mut s, h);
    push_lit_char(&mut s, ':');
    push_signed_decimal(&mut s, m);
    s
}

fn time_fields(h: i64, m: i64) -> (r: Result<(u8, u8), ParsingError>)
    ensures
        fits8(h as int) && fits8(m as int) ==> r == Ok::<(u8, u8), ParsingError>((h as u8, m as u8)),
        !(fits8(h as int) && fits8(m as int)) ==> (r matches Err(x) && x.model()
            == ParseFailure::InvalidTime(clock_text_spec(h as int, m as int))),
{
    match (fits8_of(h), fits8_of(m)) {
        (Some(a), Some(b)) => Ok((a, b)),
        _ => Err(ParsingError::InvalidTime(clock_text(h, m))),
    }
}

fn date_fields(y: i64, mo: i64, d: i64) -> (r: Result<(u32, u8, u8), ParsingError>)
    ensures
        match date_field_failure(y as int, mo as int, d as int) {
            Some(f) => r matches Err(x) && x.model() == f,
            None => r == Ok::<(u32, u8, u8), ParsingError>((y as u32, mo as u8, d as u8)),
        },
{
    if y < 0 || y > 4294967295 {
        return Err(ParsingError::InvalidYear(y));
    }
    let month = match fits8_of(mo) {
        Some(v) => v,
        None => {
            return Err(ParsingError::UnexpectedToken(Token::Number(mo)));
        },
    };
    let day = match fits8_of(d) {
        Some(v) => v,
        None => {
            return Err(ParsingError::UnexpectedToken(Token::Number(d)));
        },
    };
    Ok((y as u32, month, day))
}

/// Takes the token at `pos`; the position stops at the end of the sequence.
fn advance(ts: &Vec<Token>, pos: &mut usize) -> (r: Token)
    requires
        *old(pos) <= ts@.len(),
    ensures
        r.model() == tk(models(ts@), *old(pos) as int),
        *final(pos) == if *old(pos) < ts@.len() { *old(pos) + 1 } else { *old(pos) as int },
{
    let t = token_at(ts, *pos);
    if *pos < ts.len() {
        *pos = *pos + 1;
    }
    t
}

fn expect_number(ts: &Vec<Token>, pos: &mut usize) -> (r: Result<i64, ParsingError>)
    requires
        *old(pos) <= ts@.len(),
    ensures
        *final(pos) <= ts@.len(),
        match tk(models(ts@), *old(pos) as int) {
            Lexeme::Number(n) => r == Ok::<i64, ParsingError>(n as i64) && *final(pos) == *old(pos) + 1,
            _ => r matches Err(x) && x.model() == ParseFailure::ExpectedNumber,
        },
{
    let t = advance(ts, pos);
    match t {
        Token::Number(n) => Ok(n),
        _ => Err(ParsingError::ExpectedNumber),
    }
}

fn expect_token(ts: &Vec<Token>, pos: &mut usize, colon: bool) -> (r: Result<(), ParsingError>)
    requires
        *old(pos) <= ts@.len(),
    ensures
        *final(pos) <= ts@.len(),
        r is Ok <==> (if colon { tk(models(ts@), *old(pos) as int) is Colon } else {
            tk(models(ts@), *old(pos) as int) is Slash
        }),
        r is Ok ==> *final(pos) == *old(pos) + 1,
        r matches Err(x) ==> x.model() == ParseFailure::UnexpectedToken(
            tk(models(ts@), *old(pos) as int),
        ),
{
    let t = advance(ts, pos);
    match t {
        Token::Colon if colon => Ok(()),
        Token::Slash if !colon => Ok(()),
        _ => Err(ParsingError::UnexpectedToken(t)),
    }
}

fn parse_ident(ts: &Vec<Token>, pos: &mut usize) -> (r: Result<Expr, ParsingError>)
    requires
        *old(pos) <= ts@.len(),
        tk(models(ts@), *old(pos) as int) is Word,
    ensures
        *final(pos) <= ts@.len(),
        *final(pos) == *old(pos) + 1,
        parsed_as(r, primary_spec(models(ts@), *old(pos) as int), *final(pos) as int),
{
    let t = advance(ts, pos);
    match t {
        Token::Ident(s) => {
            if word_is(s.as_str(), "today") {
                Ok(Expr::Keyword(Keyword::Today))
            } else if word_is(s.as_str(), "tomorrow") {
                Ok(Expr::Keyword(Keyword::Tomorrow))
            } else if word_is(s.as_str(), "yesterday") {
                Ok(Expr::Keyword(Keyword::Yesterday))
            } else if word_is(s.as_str(), "now") {
                Ok(Expr::Keyword(Keyword::Now))
            } else {
                Err(ParsingError::UnknownKeyword(s))
            }
        },
        _ => Err(ParsingError::ExpectedIdent),
    }
}

fn parse_date(ts: &Vec<Token>, pos: &mut usize, year: i64) -> (r: Result<Expr, ParsingError>)
    requires
        *old(pos) <= ts@.len(),
        year >= 0,
        numbers_natural(models(ts@)),
        tk(models(ts@), *old(pos) as int) is Slash,
    ensures
        *final(pos) <= ts@.len(),
        parsed_as(r, date_spec(models(ts@), *old(pos) as int, year as int), *final(pos) as int),
{
    expect_token(ts, pos, false)?;
    let month = expect_number(ts, pos)?;
    expect_token(ts, pos, false)?;
    let day = expect_number(ts, pos)?;
    match token_at(ts, *pos) {
        Token::Number(_) => {
            let hour = expect_number(ts, pos)?;
            expect_token(ts, pos, true)?;
            let minute = expect_number(ts, pos)?;
            let (y, mo, d) = date_fields(year, month, day)?;
            let (h, mi) = time_fields(hour, minute)?;
            Ok(Expr::DateTime(y, mo, d, h, mi))
        },
        _ => {
            let (y, mo, d) = date_fields(year, month, day)?;
            Ok(Expr::Date(y, mo, d))
        },
    }
}

fn parse_number(ts: &Vec<Token>, pos: &mut usize) -> (r: Result<Expr, ParsingError>)
    requires
        *old(pos) <= ts@.len(),
        numbers_natural(models(ts@)),
        tk(models(ts@), *old(pos) as int) is Number,
    ensures
        *final(pos) <= ts@.len(),
        tk(models(ts@), *old(pos) + 1) is Word ==> *final(pos) == *old(pos) + 2,
        parsed_as(r, primary_spec(models(ts@), *old(pos) as int), *final(pos) as int),
{
    let first_num = expect_number(ts, pos)?;
    proof {
        reveal_strlit("am");
        reveal_strlit("pm");
        assert("am"@[0] != "pm"@[0]);
    }
    match token_at(ts, *pos) {
        Token::Slash => parse_date(ts, pos, first_num),
        Token::Colon => {
            expect_token(ts, pos, true)?;
            let minute = expect_number(ts, pos)?;
            let (h, m) = time_fields(first_num, minute)?;
            Ok(Expr::Time(h, m))
        },
        Token::Ident(ident) => {
            advance(ts, pos);
            if word_is(ident.as_str(), "am") {
                if 1 <= first_num && first_num <= 11 {
                    Ok(Expr::Time(first_num as u8, 0))
                } else if first_num == HOURS_IN_HALF_DAY {
                    Ok(Expr::Time(0, 0))
                } else {
                    Err(ParsingError::InvalidTime(half_day_text(first_num, false)))
                }
            } else if word_is(ident.as_str(), "pm") {
                if 1 <= first_num && first_num <= 11 {
                    Ok(Expr::Time((first_num + HOURS_IN_HALF_DAY) as u8, 0))
                } else if first_num == HOURS_IN_HALF_DAY {
                    Ok(Expr::Time(12, 0))
                } else {
                    Err(ParsingError::InvalidTime(half_day_text(first_num, true)))
                }
            } else {
                match Unit::from_name(ident.as_str()) {
                    Some(u) => {
                        Ok(Expr::Duration(first_num, u))
                    },
                    None => Err(ParsingError::UnknownKeyword(ident)),
                }
            }
        },
        t => Err(ParsingError::UnexpectedToken(t)),
    }
}

/// The text of a rejected twelve-hour time, such as `34 pm`.
fn half_day_text(n: i64, pm: bool) -> (r: String)
    ensures
        r@ == half_day_text_spec(n as int, pm),
{
    let mut s = String::new();
    push_signed_decimal(&mut s, n);
    if pm {
        push_str(&mut s, " pm");
    } else {
        push_str(&mut s, " am");
    }
    s
}

fn parse_primary(ts: &Vec<Token>, pos: &mut usize) -> (r: Result<Expr, ParsingError>)
    requires
        *old(pos) <= ts@.len(),
        numbers_natural(models(ts@)),
    ensures
        *final(pos) <= ts@.len(),
        parsed_as(r, primary_spec(models(ts@), *old(pos) as int), *final(pos) as int),
{
    match token_at(ts, *pos) {
        Token::Number(_) => parse_number(ts, pos),
        Token::Ident(_) => parse_ident(ts, pos),
        t => Err(ParsingError::UnexpectedToken(t)),
    }
}

fn parse_expr(ts: &Vec<Token>, pos: &mut usize) -> (r: Result<Expr, ParsingError>)
    requires
        *old(pos) <= ts@.len(),
        numbers_natural(models(ts@)),
    ensures
        match parse_from(models(ts@), *old(pos) as int) {
            Ok(e) => r == Ok::<Expr, ParsingError>(e),
            Err(f) => r matches Err(x) && x.model() == f,
        },
{
    let ghost m = models(ts@);
    let ghost start = *pos as int;
    let mut left = parse_primary(ts, pos)?;
    proof {
        lemma_primary_bounds(m, start);
    }
    let ghost first = left;
    let ghost after_first = *pos as int;
    loop
        invariant
            *pos <= ts@.len(),
            m == models(ts@),
            numbers_natural(m),
            start == *old(pos) as int,
            primary_spec(m, start) == Ok::<(Expr, int), ParseFailure>((first, after_first)),
            chain_spec(m, after_first, first) == chain_spec(m, *pos as int, left),
        decreases ts@.len() - *pos,
    {
        let ghost i = *pos as int;
        let op = match token_at(ts, *pos) {
            Token::Plus => Op::Add,
            Token::Minus => Op::Sub,
            Token::Eof => {
                assert(chain_spec(m, i, left) == Ok::<(Expr, int), ParseFailure>((left, i)));
                return Ok(left);
            },
            t => {
                assert(chain_spec(m, i, left) == Ok::<(Expr, int), ParseFailure>((left, i)));
                return Err(ParsingError::UnexpectedToken(t));
            },
        };
        advance(ts, pos);
        let right = match parse_primary(ts, pos) {
            Ok(e) => e,
            Err(err) => {
                assert(chain_spec(m, i, left) is Err);
                return Err(err);
            },
        };
        proof {
            lemma_primary_bounds(m, i + 1);
        }
        left = Expr::BinOp(Box::new(left), op, Box::new(right));
    }
}

/// Parses the tokens that a lexer yields into an expression tree.
pub fn parse(lexer: Lexer) -> (r: Result<Expr, ParsingError>)
    requires
        lexer.wf(),
    ensures
        match parse_spec(lex_all(lexer.text(), lexer.cursor())) {
            Ok(e) => r == Ok::<Expr, ParsingError>(e),
            Err(f) => r matches Err(x) && x.model() == f,
        },
{
    let ghost s = lexer.text();
    let ghost p = lexer.cursor();
    let mut lexer = lexer;
    let tokens = lexer.tokens();
    proof {
        crate::lexer::lemma_lex_all_natural(s, p);
        assert(models(tokens@) == lex_all(s, p));
        assert forall|i: int| 0 <= i < models(tokens@).len() implies
            (#[trigger] models(tokens@)[i] is Number ==> models(tokens@)[i]->Number_0 >= 0) by {
            assert(models(tokens@)[i] == lex_all(s, p)[i]);
        }
    }
    let mut pos: usize = 0;
    parse_expr(&tokens, &mut pos)
}

pub open spec fn lexeme_text(t: Lexeme) -> Seq<char> {
    match t {
        Lexeme::Number(n) => "Number("@ + signed_decimal(n) + seq![')'],
        Lexeme::Word(s) => "Ident("@ + s + seq![')'],
        Lexeme::Plus => "Plus"@,
        Lexeme::Minus => "Minus"@,
        Lexeme::Colon => "Colon"@,
        Lexeme::Slash => "Slash"@,
        Lexeme::Eof => "Eof"@,
        Lexeme::Illegal => "Illegal"@,
    }
}

pub open spec fn failure_text(f: ParseFailure) -> Seq<char> {
    match f {
        ParseFailure::UnexpectedToken(t) => "unexpected token "@ + quoted(lexeme_text(t)),
        ParseFailure::UnknownKeyword(k) => "unknown keyword "@ + quoted(k),
        ParseFailure::UnexpectedIdent(i) => "unexpected identifier "@ + quoted(i),
        ParseFailure::UnexpectedEof => "unexpected end of input"@,
        ParseFailure::ExpectedIdent => "expected identifier"@,
        ParseFailure::ExpectedNumber => "expected number"@,
        ParseFailure::ExpectedSlash => "expected slash"@,
        ParseFailure::ExpectedColon => "expected colon"@,
        ParseFailure::ExpectedUnit => "expected unit"@,
        ParseFailure::InvalidYear(y) => "invalid year "@ + quoted(signed_decimal(y)),
        ParseFailure::InvalidTime(s) => "invalid time "@ + quoted(s),
    }
}

fn push_quoted(s: &mut String, t: &str)
    ensures
        final(s)@ == old(s)@ + quoted(t@),
{
    push_lit_char(s, '\'');
    push_str(s, t);
    push_lit_char(s, '\'');
    assert(final(s)@ =~= old(s)@ + quoted(t@));
}

impl Token {
    /// The token as text, such as `Number(12)` or `Plus`.
    pub fn to_string(&self) -> (r: String)
        ensures
            r@ == lexeme_text(self.model()),
    {
        let mut s = String::new();
        match self {
            Token::Number(n) => {
                push_str(&mut s, "Number(");
                push_signed_decimal(&mut s, *n);
                push_str(&mut s, ")");
                proof { reveal_strlit(")"); }
            },
            Token::Ident(w) => {
                push_str(&mut s, "Ident(");
                push_str(&mut s, w.as_str());
                push_str(&mut s, ")");
                proof { reveal_strlit(")"); }
            },
            Token::Plus => push_str(&mut s, "Plus"),
            Token::Minus => push_str(&mut s, "Minus"),
            Token::Colon => push_str(&mut s, "Colon"),
            Token::Slash => push_str(&mut s, "Slash"),
            Token::Eof => push_str(&mut s, "Eof"),
            Token::Illegal => push_str(&mut s, "Illegal"),
        }
        assert(s@ =~= lexeme_text(self.model()));
        s
    }
}

impl ParsingError {
    /// The error as a message.
    pub fn to_string(&self) -> (r: String)
        ensures
            r@ == failure_text(self.model()),
    {
        let mut s = String::new();
        match self {
            ParsingError::UnexpectedToken(t) => {
                push_str(&mut s, "unexpected token ");
                let text = t.to_string();
                push_quoted(&mut s, text.as_str());
            },
            ParsingError::UnknownKeyword(k) => {
                push_str(&mut s, "unknown keyword ");
                push_quoted(&mut s, k.as_str());
            },
            ParsingError::UnexpectedIdent(i) => {
                push_str(&mut s, "unexpected identifier ");
                push_quoted(&mut s, i.as_str());
            },
            ParsingError::UnexpectedEof => push_str(&mut s, "unexpected end of input"),
            ParsingError::ExpectedIdent => push_str(&mut s, "expected identifier"),
            ParsingError::ExpectedNumber => push_str(&mut s, "expected number"),
            ParsingError::ExpectedSlash => push_str(&mut s, "expected slash"),
            ParsingError::ExpectedColon => push_str(&mut s, "expected colon"),
            ParsingError::ExpectedUnit => push_str(&mut s, "expected unit"),
            ParsingError::InvalidYear(y) => {
                push_str(&mut s, "invalid year ");
                push_lit_char(&mut s, '\'');
                push_signed_decimal(&mut s, *y);
                push_lit_char(&mut s, '\'');
            },
            ParsingError::InvalidTime(t) => {
                push_str(&mut s, "invalid time ");
                push_quoted(&mut s, t.as_str());
            },
        }
        assert(s@ =~= failure_text(self.model()));
        s
    }
}

/// A number followed by `am` or `pm` parses exactly when it is 1 to 12.
pub proof fn lemma_half_day_range(n: int, pm: bool)
    requires
        0 <= n <= i64::MAX,
    ensures
        parse_spec(seq![Lexeme::Number(n), Lexeme::Word(if pm { "pm"@ } else { "am"@ }), Lexeme::Eof])
            is Ok <==> 1 <= n <= 12,
{
    reveal_strlit("am");
    reveal_strlit("pm");
    assert("am"@[0] != "pm"@[0]);
}

} // verus!
