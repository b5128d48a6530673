pub mod calendar;
pub mod evaluator;
pub mod lexer;
pub mod parser;
pub mod text;

use vstd::prelude::*;
use crate::calendar::{DateTime, now_utc};
use crate::evaluator::{eval_at, eval_error_text, eval_spec, value_text};
use crate::lexer::{Lexeme, Lexer, digit_run_end, digits_value, is_digit, lex, lex_all, lemma_number_overflow_illegal};
use crate::parser::{failure_text, parse, parse_spec};
use crate::text::{padded, push_str};
use crate::calendar::valid_date;
use crate::evaluator::lemma_date_literal_display;

verus! {

/// What evaluating `input` gives with `now` as the current instant: the value's text,
/// or a message that names the stage that failed and the error.
pub open spec fn run_outcome(input: Seq<char>, now: DateTime, r: Result<String, String>) -> bool {
    match parse_spec(lex_all(input, 0)) {
        Err(f) => match r {
            Err(m) => m@ == "failed to parse expression: "@ + failure_text(f),
            Ok(_) => false,
        },
        Ok(e) => match eval_spec(e, now) {
            Ok(v) => match r {
                Ok(s) => s@ == value_text(v),
                Err(_) => false,
            },
            Err(err) => match r {
                Err(m) => m@ == "failed to evaluate expression: "@ + eval_error_text(err),
                Ok(_) => false,
            },
        },
    }
}

/// Evaluates an expression with `now` as the current instant, and renders the outcome.
pub fn run_at(input: &str, now: DateTime) -> (r: Result<String, String>)
    requires
        now.wf(),
    ensures
        run_outcome(input@, now, r),
{
    let tokens = Lexer::new(input);
    let ast = match parse(tokens) {
        Ok(ast) => ast,
        Err(err) => {
            let mut m = String::new();
            push_str(&mut m, "failed to parse expression: ");
            let text = err.to_string();
            push_str(&mut m, text.as_str());
            return Err(m);
        },
    };
    match eval_at(&ast, now) {
        Ok(v) => Ok(v.to_string()),
        Err(err) => {
            let mut m = String::new();
            push_str(&mut m, "failed to evaluate expression: ");
            let text = err.to_string();
            push_str(&mut m, text.as_str());
            Err(m)
        },
    }
}

/// Evaluates an expression, reading the clock for the current instant.
pub fn run(input: &str) -> (r: Result<String, String>)
    ensures
        exists|now: DateTime| now.wf() && run_outcome(input@, now, r),
{
    let now = now_utc();
    run_at(input, now)
}

/// The single text that an embedding shows: the value, or `Error: ` and the message.
pub open spec fn shown_text(r: Result<String, String>) -> Seq<char> {
    match r {
        Ok(s) => s@,
        Err(m) => "Error: "@ + m@,
    }
}

/// Evaluates an expression for a host that has no error channel: both outcomes are text.
pub fn run_web(input: String) -> (r: String)
    ensures
        exists|now: DateTime, res: Result<String, String>|
            now.wf() && run_outcome(input@, now, res) && r@ == shown_text(res),
{
    let now = now_utc();
    let res = run_at(input.as_str(), now);
    let shown = match &res {
        Ok(s) => s.clone(),
        Err(m) => {
            let mut t = String::new();
            push_str(&mut t, "Error: ");
            push_str(&mut t, m.as_str());
            t
        },
    };
    assert(now.wf() && run_outcome(input@, now, res) && shown@ == shown_text(res));
    shown
}

/// Empty input and input that starts with a character of no token are parse errors.
pub proof fn lemma_blank_or_illegal_input_fails(now: DateTime, r: Result<String, String>)
    requires
        run_outcome(Seq::empty(), now, r) || run_outcome(seq!['@'], now, r),
    ensures
        r is Err,
{
    let at = seq!['@'];
    assert(lex_all(Seq::<char>::empty(), 0) == seq![Lexeme::Eof]);
    assert(crate::lexer::lex(at, 1) == (Lexeme::Eof, 1int));
    assert(lex_all(at, 1) == seq![Lexeme::Eof]);
    assert(lex_all(at, 0) =~= seq![Lexeme::Illegal] + seq![Lexeme::Eof]);
}

/// An input made of a number too large for 64 bits fails to parse.
pub proof fn lemma_overflowing_number_fails(s: Seq<char>, now: DateTime, r: Result<String, String>)
    requires
        s.len() > 0,
        forall|i: int| 0 <= i < s.len() ==> crate::lexer::is_digit(s[i]),
        crate::lexer::digits_value(s) > i64::MAX,
        run_outcome(s, now, r),
    ensures
        r is Err,
{
    lemma_number_overflow_illegal(s);
}

pub open spec fn all_digits(a: Seq<char>) -> bool {
    a.len() > 0 && forall|i: int| 0 <= i < a.len() ==> is_digit(a[i])
}

proof fn lemma_digit_run(s: Seq<char>, p: int, e: int)
    requires
        0 <= p <= e <= s.len(),
        forall|i: int| p <= i < e ==> is_digit(s[i]),
        e == s.len() || !is_digit(s[e]),
    ensures
        digit_run_end(s, p) == e,
    decreases e - p,
{
    if p < e {
        lemma_digit_run(s, p + 1, e);
    }
}

proof fn lemma_lex_number(s: Seq<char>, p: int, a: Seq<char>)
    requires
        0 <= p,
        p + a.len() <= s.len(),
        all_digits(a),
        s.subrange(p, p + a.len()) == a,
        p + a.len() == s.len() || !is_digit(s[p + a.len()]),
        digits_value(a) <= i64::MAX,
    ensures
        lex(s, p) == (Lexeme::Number(digits_value(a)), p + a.len()),
{
    assert forall|i: int| p <= i < p + a.len() implies is_digit(s[i]) by {
        assert(s[i] == s.subrange(p, p + a.len())[i - p]);
    }
    lemma_digit_run(s, p, p + a.len());
    assert(s[p] == a[0]);
}

/// Text of the form `digits/digits/digits` whose numbers name a valid date evaluates to
/// that date, displayed as `YYYY-MM-DD` with each part zero-padded.
pub proof fn lemma_date_text_displays_padded(
    a: Seq<char>,
    b: Seq<char>,
    c: Seq<char>,
    now: DateTime,
    r: Result<String, String>,
)
    requires
        all_digits(a),
        all_digits(b),
        all_digits(c),
        valid_date(digits_value(a), digits_value(b), digits_value(c)),
        run_outcome(a + seq!['/'] + b + seq!['/'] + c, now, r),
    ensures
        r matches Ok(t) && t@ == padded(digits_value(a) as nat, 4) + seq!['-'] + padded(
            digits_value(b) as nat,
            2,
        ) + seq!['-'] + padded(digits_value(c) as nat, 2),
{
    let s = a + seq!['/'] + b + seq!['/'] + c;
    let pb: int = a.len() as int + 1;
    let pc: int = a.len() as int + b.len() as int + 2;
    let qb: int = pb + b.len();
    let end = s.len() as int;
    crate::lexer::lemma_digits_value_natural(a);
    crate::lexer::lemma_digits_value_natural(b);
    crate::lexer::lemma_digits_value_natural(c);
    assert(s.subrange(0, a.len() as int) =~= a);
    assert(s.subrange(pb, qb) =~= b);
    assert(s.subrange(pc, pc + c.len() as int) =~= c);
    assert(s[a.len() as int] == '/');
    assert(s[qb] == '/');
    lemma_lex_number(s, 0, a);
    lemma_lex_number(s, pb, b);
    lemma_lex_number(s, pc, c);
    let y = digits_value(a);
    let m = digits_value(b);
    let d = digits_value(c);
    assert(lex(s, end) == (Lexeme::Eof, end));
    assert(lex(s, a.len() as int) == (Lexeme::Slash, pb));
    assert(lex(s, qb) == (Lexeme::Slash, pc));
    assert(lex_all(s, end) == seq![Lexeme::Eof]);
    assert(lex_all(s, pc) =~= seq![Lexeme::Number(d)] + lex_all(s, end));
    assert(lex_all(s, qb) =~= seq![Lexeme::Slash] + lex_all(s, pc));
    assert(lex_all(s, pb) =~= seq![Lexeme::Number(m)] + lex_all(s, qb));
    assert(lex_all(s, a.len() as int) =~= seq![Lexeme::Slash] + lex_all(s, pb));
    assert(lex_all(s, 0) =~= seq![Lexeme::Number(y)] + lex_all(s, a.len() as int));
    assert(lex_all(s, 0) =~= seq![Lexeme::Number(y), Lexeme::Slash, Lexeme::Number(m),
        Lexeme::Slash, Lexeme::Number(d), Lexeme::Eof]);
    lemma_date_literal_display(y as u32, m as u8, d as u8, now);
}

} // verus!
