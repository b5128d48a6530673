use vstd::prelude::*;
use crate::calendar::{
    Date, DateTime, Duration, Time, SECONDS_PER_DAY, duration_text, duration_text_of, now_utc,
    shift_date, shift_datetime, shift_time, valid_date, whole_days,
};
use crate::lexer::Lexeme;
use crate::parser::{Expr, Keyword, Op, Unit, parse_spec};
use crate::text::{decimal, padded, quoted, push_decimal, push_padded, push_str, push_stripped, stripped};

verus! {

const DAYS_PER_MONTH_APPROX: i64 = 30;
const DAYS_PER_YEAR_APPROX: i64 = 365;

/// The result of evaluating an expression.
#[derive(Debug, Clone, Copy, PartialEq, Eq, Structural)]
pub enum Value {
    Date(Date),
    DateTime(DateTime),
    Duration(Duration),
    Time(Time),
}

/// Why a well-formed expression has no value.
#[derive(Debug, Clone, Copy, PartialEq, Eq, Structural)]
pub enum EvalError {
    InvalidDate(u32, u8, u8),
    InvalidMonth(u8),
    InvalidTime(u8, u8, u8),
    InvalidOp(Op, Value, Value),
    /// A date or a duration beyond what can be represented.
    OutOfRange,
}

impl Value {
    pub open spec fn wf(self) -> bool {
        match self {
            Value::Date(d) => d.wf(),
            Value::DateTime(dt) => dt.wf(),
            Value::Duration(_) => true,
            Value::Time(t) => t.wf(),
        }
    }
}

/// The number of seconds in one of a unit; years and months are fixed numbers of days.
pub open spec fn unit_seconds(u: Unit) -> int {
    match u {
        Unit::Years => 31536000int,
        Unit::Months => 2592000int,
        Unit::Days => 86400int,
        Unit::Hours => 3600int,
        Unit::Minutes => 60int,
        Unit::Seconds => 1int,
    }
}

pub open spec fn fits_i64(n: int) -> bool {
    i64::MIN <= n <= i64::MAX
}

pub open spec fn date_spec(year: u32, month: u8, day: u8) -> Result<Date, EvalError> {
    if !(1 <= month <= 12) {
        Err(EvalError::InvalidMonth(month))
    } else if !valid_date(year as int, month as int, day as int) {
        Err(EvalError::InvalidDate(year, month, day))
    } else {
        Ok(Date { year: year as i32, month, day })
    }
}

pub open spec fn time_spec(hour: u8, minute: u8) -> Result<Time, EvalError> {
    if hour < 24 && minute < 60 {
        Ok(Time { hour, minute, second: 0, nanosecond: 0 })
    } else {
        Err(EvalError::InvalidTime(hour, minute, 0))
    }
}

pub open spec fn duration_spec(value: i64, unit: Unit) -> Result<Value, EvalError> {
    if fits_i64(value * unit_seconds(unit)) {
        Ok(Value::Duration(Duration { seconds: (value * unit_seconds(unit)) as i64 }))
    } else {
        Err(EvalError::OutOfRange)
    }
}

pub open spec fn dated(r: Option<Date>) -> Result<Value, EvalError> {
    match r {
        Some(d) => Ok(Value::Date(d)),
        None => Err(EvalError::OutOfRange),
    }
}

pub open spec fn keyword_spec(k: Keyword, now: DateTime) -> Result<Value, EvalError> {
    match k {
        Keyword::Now => Ok(Value::DateTime(now)),
        Keyword::Today => Ok(Value::Date(now.date)),
        Keyword::Tomorrow => dated(shift_date(now.date, 1)),
        Keyword::Yesterday => dated(shift_date(now.date, -1)),
    }
}

/// `x` for addition, `-x` for subtraction.
pub open spec fn signed(op: Op, x: int) -> int {
    if op == Op::Add { x } else { -x }
}

/// The operator table: what `left op right` gives, or why it is refused.
pub open spec fn apply_spec(op: Op, left: Value, right: Value) -> Result<Value, EvalError> {
    match (left, right) {
        (Value::Date(a), Value::Duration(b)) => dated(shift_date(a, signed(op, whole_days(b.seconds as int)))),
        (Value::DateTime(a), Value::Duration(b)) => match shift_datetime(a, signed(op, b.seconds as int)) {
            Some(dt) => Ok(Value::DateTime(dt)),
            None => Err(EvalError::OutOfRange),
        },
        (Value::Time(a), Value::Duration(b)) => Ok(Value::Time(shift_time(a, signed(op, b.seconds as int)))),
        (Value::Duration(a), Value::Duration(b)) => if fits_i64(a.seconds + signed(op, b.seconds as int)) {
            Ok(Value::Duration(Duration { seconds: (a.seconds + signed(op, b.seconds as int)) as i64 }))
        } else {
            Err(EvalError::OutOfRange)
        },
        (Value::Date(a), Value::Date(b)) => if op == Op::Sub {
            Ok(Value::Duration(Duration { seconds: ((a.julian() - b.julian()) * 86400) as i64 }))
        } else {
            Err(EvalError::InvalidOp(op, left, right))
        },
        _ => Err(EvalError::InvalidOp(op, left, right)),
    }
}

/// The value of an expression, with `now` as the current instant.
pub open spec fn eval_spec(e: Expr, now: DateTime) -> Result<Value, EvalError>
    decreases e,
{
    match e {
        Expr::BinOp(l, op, r) => match eval_spec(*l, now) {
            Err(err) => Err(err),
            Ok(a) => match eval_spec(*r, now) {
                Err(err) => Err(err),
                Ok(b) => apply_spec(op, a, b),
            },
        },
        Expr::Time(h, m) => match time_spec(h, m) {
            Ok(t) => Ok(Value::Time(t)),
            Err(err) => Err(err),
        },
        Expr::Date(y, m, d) => match date_spec(y, m, d) {
            Ok(d) => Ok(Value::Date(d)),
            Err(err) => Err(err),
        },
        Expr::Duration(v, u) => duration_spec(v, u),
        Expr::Keyword(k) => keyword_spec(k, now),
        Expr::DateTime(y, mo, d, h, mi) => match date_spec(y, mo, d) {
            Err(err) => Err(err),
            Ok(date) => match time_spec(h, mi) {
                Err(err) => Err(err),
                Ok(time) => Ok(Value::DateTime(DateTime { date, time })),
            },
        },
    }
}

fn date_value(year: u32, month: u8, day: u8) -> (r: Result<Date, EvalError>)
    ensures
        r == date_spec(year, month, day),
        r matches Ok(d) ==> d.wf(),
{
    if month < 1 || month > 12 {
        return Err(EvalError::InvalidMonth(month));
    }
    if year > 9999 {
        return Err(EvalError::InvalidDate(year, month, day));
    }
    match Date::from_calendar(year as i32, month, day) {
        Some(d) => Ok(d),
        None => Err(EvalError::InvalidDate(year, month, day)),
    }
}

fn time_value(hour: u8, minute: u8) -> (r: Result<Time, EvalError>)
    ensures
        r == time_spec(hour, minute),
        r matches Ok(t) ==> t.wf(),
{
    match Time::from_hms(hour, minute, 0) {
        Some(t) => Ok(t),
        None => Err(EvalError::InvalidTime(hour, minute, 0)),
    }
}

fn duration_value(value: i64, unit: Unit) -> (r: Result<Value, EvalError>)
    ensures
        r == duration_spec(value, unit),
{
    let seconds = match unit {
        Unit::Years => match value.checked_mul(DAYS_PER_YEAR_APPROX) {
            Some(d) => {
                assert(d * 86400 == value * 31536000) by (nonlinear_arith)
                    requires d == value * 365;
                d.checked_mul(SECONDS_PER_DAY)
            },
            None => {
                assert(!fits_i64(value * 31536000)) by (nonlinear_arith)
                    requires !fits_i64(value * 365);
                None
            },
        },
        Unit::Months => match value.checked_mul(DAYS_PER_MONTH_APPROX) {
            Some(d) => {
                assert(d * 86400 == value * 2592000) by (nonlinear_arith)
                    requires d == value * 30;
                d.checked_mul(SECONDS_PER_DAY)
            },
            None => {
                assert(!fits_i64(value * 2592000)) by (nonlinear_arith)
                    requires !fits_i64(value * 30);
                None
            },
        },
        Unit::Days => value.checked_mul(SECONDS_PER_DAY),
        Unit::Hours => value.checked_mul(3600),
        Unit::Minutes => value.checked_mul(60),
        Unit::Seconds => Some(value),
    };
    match seconds {
        Some(s) => Ok(Value::Duration(Duration { seconds: s })),
        None => Err(EvalError::OutOfRange),
    }
}

fn keyword_value(keyword: Keyword, now: DateTime) -> (r: Result<Value, EvalError>)
    requires
        now.wf(),
    ensures
        r == keyword_spec(keyword, now),
        r matches Ok(v) ==> v.wf(),
{
    match keyword {
        Keyword::Now => Ok(Value::DateTime(now)),
        Keyword::Today => Ok(Value::Date(now.date)),
        Keyword::Tomorrow => match now.date.add_days(1) {
            Some(d) => Ok(Value::Date(d)),
            None => Err(EvalError::OutOfRange),
        },
        Keyword::Yesterday => match now.date.add_days(-1) {
            Some(d) => Ok(Value::Date(d)),
            None => Err(EvalError::OutOfRange),
        },
    }
}

fn whole_days_of(seconds: i64) -> (r: i64)
    ensures
        r == whole_days(seconds as int),
{
    if seconds >= 0 {
        seconds / SECONDS_PER_DAY
    } else {
        let m: i128 = -(seconds as i128);
        -((m / 86400) as i64)
    }
}

impl Value {
    /// Applies `op` to two values by the operator table.
    pub fn apply(self, op: Op, other: Value) -> (r: Result<Value, EvalError>)
        requires
            self.wf(),
            other.wf(),
        ensures
            r == apply_spec(op, self, other),
            r matches Ok(v) ==> v.wf(),
    {
        let add = match op {
            Op::Add => true,
            Op::Sub => false,
        };
        match (self, other) {
            (Value::Date(a), Value::Duration(b)) => {
                let days = whole_days_of(b.seconds);
                let shifted = if add { a.add_days(days) } else { a.add_days(-(days as i128) as i64) };
                match shifted {
                    Some(d) => Ok(Value::Date(d)),
                    None => Err(EvalError::OutOfRange),
                }
            },
            (Value::DateTime(a), Value::Duration(b)) => {
                let delta: i128 = if add { b.seconds as i128 } else { -(b.seconds as i128) };
                match a.add_seconds(delta) {
                    Some(dt) => Ok(Value::DateTime(dt)),
                    None => Err(EvalError::OutOfRange),
                }
            },
            (Value::Time(a), Value::Duration(b)) => {
                let delta: i128 = if add { b.seconds as i128 } else { -(b.seconds as i128) };
                Ok(Value::Time(a.add_seconds(delta)))
            },
            (Value::Duration(a), Value::Duration(b)) => {
                let s = if add { a.seconds.checked_add(b.seconds) } else { a.seconds.checked_sub(b.seconds) };
                match s {
                    Some(s) => Ok(Value::Duration(Duration { seconds: s })),
                    None => Err(EvalError::OutOfRange),
                }
            },
            (Value::Date(a), Value::Date(b)) => {
                if add {
                    Err(EvalError::InvalidOp(op, self, other))
                } else {
                    Ok(Value::Duration(Duration { seconds: a.days_since(b) * SECONDS_PER_DAY }))
                }
            },
            _ => Err(EvalError::InvalidOp(op, self, other)),
        }
    }
}

/// Evaluates an expression with `now` as the current instant.
pub fn eval_at(expr: &Expr, now: DateTime) -> (r: Result<Value, EvalError>)
    requires
        now.wf(),
    ensures
        r == eval_spec(*expr, now),
        r matches Ok(v) ==> v.wf(),
    decreases expr,
{
    match expr {
        Expr::BinOp(left, op, right) => {
            let left = eval_at(left, now)?;
            let right = eval_at(right, now)?;
            left.apply(*op, right)
        },
        Expr::Time(hour, minute) => Ok(Value::Time(time_value(*hour, *minute)?)),
        Expr::Date(year, month, day) => Ok(Value::Date(date_value(*year, *month, *day)?)),
        Expr::Duration(value, unit) => duration_value(*value, *unit),
        Expr::Keyword(keyword) => keyword_value(*keyword, now),
        Expr::DateTime(year, month, day, hour, minute) => {
            let date = date_value(*year, *month, *day)?;
            let time = time_value(*hour, *minute)?;
            Ok(Value::DateTime(DateTime { date, time }))
        },
    }
}

/// Evaluates an expression, reading the clock for the current instant.
pub fn eval(expr: &Expr) -> (r: Result<Value, EvalError>)
    ensures
        exists|now: DateTime| now.wf() && r == eval_spec(*expr, now),
{
    let now = now_utc();
    eval_at(expr, now)
}

pub open spec fn kind_name_spec(v: Value) -> Seq<char> {
    match v {
        Value::Date(_) => "Date"@,
        Value::DateTime(_) => "DateTime"@,
        Value::Duration(_) => "Duration"@,
        Value::Time(_) => "Time"@,
    }
}

pub open spec fn op_text(op: Op) -> Seq<char> {
    match op {
        Op::Add => seq!['+'],
        Op::Sub => seq!['-'],
    }
}

/// `YYYY-MM-DD`, with a minus sign before a negative year.
pub open spec fn date_text(d: Date) -> Seq<char> {
    let y = d.year as int;
    (if y < 0 { seq!['-'] } else { Seq::empty() }) + padded((if y < 0 { -y } else { y }) as nat, 4)
        + seq!['-'] + padded(d.month as nat, 2) + seq!['-'] + padded(d.day as nat, 2)
}

/// `HH:MM`, then `:SS` where seconds or a fraction are present, then `.` and the
/// fraction of a second without its trailing zeros.
pub open spec fn time_text(t: Time) -> Seq<char> {
    padded(t.hour as nat, 2) + seq![':'] + padded(t.minute as nat, 2) + (if t.second == 0
        && t.nanosecond == 0 {
        Seq::empty()
    } else {
        seq![':'] + padded(t.second as nat, 2) + (if t.nanosecond == 0 {
            Seq::empty()
        } else {
            seq!['.'] + stripped(t.nanosecond as nat, 9)
        })
    })
}

/// The date, the time of day and the offset from UTC, which is always zero.
pub open spec fn datetime_text(dt: DateTime) -> Seq<char> {
    date_text(dt.date) + seq![' '] + time_text(dt.time) + seq![' ', '+', '0', '0', ':', '0', '0']
}

pub open spec fn value_text(v: Value) -> Seq<char> {
    match v {
        Value::Date(d) => date_text(d),
        Value::DateTime(dt) => datetime_text(dt),
        Value::Duration(d) => duration_text_of(d.seconds as int),
        Value::Time(t) => time_text(t),
    }
}

pub open spec fn eval_error_text(e: EvalError) -> Seq<char> {
    match e {
        EvalError::InvalidDate(y, m, d) => "invalid date "@ + quoted(
            decimal(y as nat) + seq!['-'] + decimal(m as nat) + seq!['-'] + decimal(d as nat),
        ),
        EvalError::InvalidMonth(m) => "invalid month "@ + quoted(decimal(m as nat)),
        EvalError::InvalidTime(h, m, s) => "invalid time "@ + quoted(
            decimal(h as nat) + seq![':'] + decimal(m as nat) + seq![':'] + decimal(s as nat),
        ),
        EvalError::InvalidOp(op, l, r) => "invalid operation "@ + quoted(op_text(op)) + " for "@
            + quoted(kind_name_spec(l)) + " and "@ + quoted(kind_name_spec(r)),
        EvalError::OutOfRange => "date or duration out of range"@,
    }
}

pub(crate) fn push_lit_char(s: &mut String, c: char)
    requires
        c == '-' || c == ':' || c == '.' || c == ' ' || c == '\'' || c == '+',
    ensures
        final(s)@ == old(s)@.push(c),
{
    let piece: &str = if c == '-' { "-" }
    else if c == ':' { ":" }
    else if c == '.' { "." }
    else if c == ' ' { " " }
    else if c == '\'' { "'" }
    else { "+" };
    proof {
        reveal_strlit("-");
        reveal_strlit(":");
        reveal_strlit(".");
        reveal_strlit(" ");
        reveal_strlit("'");
        reveal_strlit("+");
    }
    push_str(s, piece);
    assert(final(s)@ =~= old(s)@.push(c));
}

fn push_date(s: &mut String, d: Date)
    requires
        d.wf(),
    ensures
        final(s)@ == old(s)@ + date_text(d),
{
    if d.year < 0 {
        push_lit_char(s, '-');
        push_padded(s, (-(d.year as i64)) as u64, 4);
    } else {
        push_padded(s, d.year as u64, 4);
    }
    push_lit_char(s, '-');
    push_padded(s, d.month as u64, 2);
    push_lit_char(s, '-');
    push_padded(s, d.day as u64, 2);
    assert(final(s)@ =~= old(s)@ + date_text(d));
}

fn push_time(s: &mut String, t: Time)
    requires
        t.wf(),
    ensures
        final(s)@ == old(s)@ + time_text(t),
{
    push_padded(s, t.hour as u64, 2);
    push_lit_char(s, ':');
    push_padded(s, t.minute as u64, 2);
    if t.second != 0 || t.nanosecond != 0 {
        push_lit_char(s, ':');
        push_padded(s, t.second as u64, 2);
        if t.nanosecond != 0 {
            push_lit_char(s, '.');
            push_stripped(s, t.nanosecond as u64, 9);
        }
    }
    assert(final(s)@ =~= old(s)@ + time_text(t));
}

impl Value {
    /// The name of the value's kind.
    pub fn kind_name(&self) -> (r: &'static str)
        ensures
            r@ == kind_name_spec(*self),
    {
        match self {
            Value::Date(_) => "Date",
            Value::DateTime(_) => "DateTime",
            Value::Duration(_) => "Duration",
            Value::Time(_) => "Time",
        }
    }

    /// The value as display text.
    pub fn to_string(&self) -> (r: String)
        requires
            self.wf(),
        ensures
            r@ == value_text(*self),
    {
        let mut s = String::new();
        match self {
            Value::Date(d) => push_date(&mut s, *d),
            Value::DateTime(dt) => {
                push_date(&mut s, dt.date);
                push_lit_char(&mut s, ' ');
                push_time(&mut s, dt.time);
                push_lit_char(&mut s, ' ');
                push_lit_char(&mut s, '+');
                push_padded(&mut s, 0, 2);
                push_lit_char(&mut s, ':');
                push_padded(&mut s, 0, 2);
                assert(padded(0, 2) =~= seq!['0', '0']) by {
                    assert(padded(0, 0) =~= Seq::<char>::empty());
                    assert(padded(0, 1) =~= seq!['0']);
                }
                assert(s@ =~= value_text(*self));
            },
            Value::Duration(d) => {
                s = duration_text(d.seconds);
            },
            Value::Time(t) => push_time(&mut s, *t),
        }
        assert(s@ =~= value_text(*self));
        s
    }
}

fn push_quoted_decimal(s: &mut String, n: u64)
    ensures
        final(s)@ == old(s)@ + quoted(decimal(n as nat)),
{
    push_lit_char(s, '\'');
    push_decimal(s, n);
    push_lit_char(s, '\'');
    assert(final(s)@ =~= old(s)@ + quoted(decimal(n as nat)));
}

impl EvalError {
    /// The error as a message.
    pub fn to_string(&self) -> (r: String)
        ensures
            r@ == eval_error_text(*self),
    {
        let mut s = String::new();
        match self {
            EvalError::InvalidDate(y, m, d) => {
                push_str(&mut s, "invalid date ");
                push_lit_char(&mut s, '\'');
                push_decimal(&mut s, *y as u64);
                push_lit_char(&mut s, '-');
                push_decimal(&mut s, *m as u64);
                push_lit_char(&mut s, '-');
                push_decimal(&mut s, *d as u64);
                push_lit_char(&mut s, '\'');
            },
            EvalError::InvalidMonth(m) => {
                push_str(&mut s, "invalid month ");
                push_quoted_decimal(&mut s, *m as u64);
            },
            EvalError::InvalidTime(h, m, sec) => {
                push_str(&mut s, "invalid time ");
                push_lit_char(&mut s, '\'');
                push_decimal(&mut s, *h as u64);
                push_lit_char(&mut s, ':');
                push_decimal(&mut s, *m as u64);
                push_lit_char(&mut s, ':');
                push_decimal(&mut s, *sec as u64);
                push_lit_char(&mut s, '\'');
            },
            EvalError::InvalidOp(op, l, r) => {
                push_str(&mut s, "invalid operation ");
                push_lit_char(&mut s, '\'');
                match op {
                    Op::Add => push_lit_char(&mut s, '+'),
                    Op::Sub => push_lit_char(&mut s, '-'),
                }
                push_lit_char(&mut s, '\'');
                push_str(&mut s, " for ");
                push_lit_char(&mut s, '\'');
                push_str(&mut s, l.kind_name());
                push_lit_char(&mut s, '\'');
                push_str(&mut s, " and ");
                push_lit_char(&mut s, '\'');
                push_str(&mut s, r.kind_name());
                push_lit_char(&mut s, '\'');
            },
            EvalError::OutOfRange => {
                push_str(&mut s, "date or duration out of range");
            },
        }
        assert(s@ =~= eval_error_text(*self));
        s
    }
}

/// A literal `year/month/day` naming a valid date parses to that date, evaluates to it,
/// and displays as `YYYY-MM-DD`, each part zero-padded.
pub proof fn lemma_date_literal_display(year: u32, month: u8, day: u8, now: DateTime)
    requires
        valid_date(year as int, month as int, day as int),
    ensures
        parse_spec(seq![Lexeme::Number(year as int), Lexeme::Slash, Lexeme::Number(month as int),
            Lexeme::Slash, Lexeme::Number(day as int), Lexeme::Eof]) == Ok::<Expr, crate::parser::ParseFailure>(Expr::Date(year, month, day)),
        eval_spec(Expr::Date(year, month, day), now) == Ok::<Value, EvalError>(
            Value::Date(Date { year: year as i32, month, day }),
        ),
        value_text(Value::Date(Date { year: year as i32, month, day })) == padded(year as nat, 4)
            + seq!['-'] + padded(month as nat, 2) + seq!['-'] + padded(day as nat, 2),
{
    let ts = seq![Lexeme::Number(year as int), Lexeme::Slash, Lexeme::Number(month as int),
        Lexeme::Slash, Lexeme::Number(day as int), Lexeme::Eof];
}

/// Adding two dates is always refused, naming the operator and both kinds;
/// subtracting one date from another always gives a duration.
pub proof fn lemma_dates_subtract_but_do_not_add(a: Date, b: Date)
    ensures
        apply_spec(Op::Add, Value::Date(a), Value::Date(b)) == Err::<Value, EvalError>(
            EvalError::InvalidOp(Op::Add, Value::Date(a), Value::Date(b)),
        ),
        apply_spec(Op::Sub, Value::Date(a), Value::Date(b)) matches Ok(Value::Duration(_)),
{
}

pub open spec fn pow10(w: nat) -> nat
    decreases w,
{
    if w == 0 { 1 } else { 10 * pow10((w - 1) as nat) }
}

proof fn lemma_stripped_ends_in_nonzero(n: nat, w: nat)
    requires
        0 < n < pow10(w),
    ensures
        stripped(n, w).len() > 0,
        stripped(n, w).last() != '0',
    decreases w,
{
    if w == 0 {
        assert(false);
    } else if n % 10 == 0 {
        assert(n / 10 < pow10((w - 1) as nat) && 0 < n / 10) by (nonlinear_arith)
            requires n < 10 * pow10((w - 1) as nat), n % 10 == 0, n > 0;
        lemma_stripped_ends_in_nonzero(n / 10, (w - 1) as nat);
    } else {
        assert(stripped(n, w) == padded(n, w));
    }
}

/// A time without seconds or fraction displays as `HH:MM` alone; one with a fraction
/// ends in a digit other than zero, as trailing zeros are stripped.
pub proof fn lemma_time_text_suffixes(t: Time)
    requires
        t.wf(),
    ensures
        t.second == 0 && t.nanosecond == 0 ==> time_text(t) == padded(t.hour as nat, 2) + seq![':']
            + padded(t.minute as nat, 2),
        t.nanosecond != 0 ==> time_text(t).len() > 0 && time_text(t).last() != '0',
{
    if t.second == 0 && t.nanosecond == 0 {
        assert(time_text(t) =~= padded(t.hour as nat, 2) + seq![':'] + padded(t.minute as nat, 2));
    }
    if t.nanosecond != 0 {
        reveal_with_fuel(pow10, 10);
        lemma_stripped_ends_in_nonzero(t.nanosecond as nat, 9);
        let tail = seq!['.'] + stripped(t.nanosecond as nat, 9);
        assert(tail.last() == stripped(t.nanosecond as nat, 9).last());
        assert(time_text(t) == padded(t.hour as nat, 2) + seq![':'] + padded(t.minute as nat, 2)
            + (seq![':'] + padded(t.second as nat, 2) + tail));
    }
}

/// Adding or subtracting less than a day's worth of hours leaves a date as it is:
/// a date moves by whole days only.
pub proof fn lemma_hours_do_not_move_a_date(d: Date, op: Op, hours: i64)
    requires
        0 <= hours < 24,
    ensures
        apply_spec(op, Value::Date(d), Value::Duration(Duration { seconds: (hours * 3600) as i64 }))
            == Ok::<Value, EvalError>(Value::Date(d)),
{
    assert(whole_days(hours * 3600) == 0);
}

/// `today + 2h` is today's date, displayed as a date: the hours are lost.
pub proof fn lemma_today_plus_hours(now: DateTime)
    requires
        now.wf(),
    ensures
        eval_spec(
            Expr::BinOp(Box::new(Expr::Keyword(Keyword::Today)), Op::Add, Box::new(Expr::Duration(2, Unit::Hours))),
            now,
        ) == Ok::<Value, EvalError>(Value::Date(now.date)),
        value_text(Value::Date(now.date)) == date_text(now.date),
{
    lemma_hours_do_not_move_a_date(now.date, Op::Add, 2);
    assert(eval_spec(Expr::Keyword(Keyword::Today), now) == Ok::<Value, EvalError>(Value::Date(now.date)));
    assert(eval_spec(Expr::Duration(2, Unit::Hours), now) == Ok::<Value, EvalError>(
        Value::Duration(Duration { seconds: 7200 }),
    ));
}

/// Subtracting a date from the next day gives one day, the same duration as `1d` or `24h`,
/// and so the same text.
pub proof fn lemma_next_day_difference(a: Date, now: DateTime)
    requires
        a.wf(),
        a.day as int + 1 <= crate::calendar::days_in_month(a.year as int, a.month as int),
    ensures
        apply_spec(Op::Sub, Value::Date(Date { day: (a.day + 1) as u8, ..a }), Value::Date(a))
            == Ok::<Value, EvalError>(Value::Duration(Duration { seconds: 86400 })),
        eval_spec(Expr::Duration(1, Unit::Days), now) == Ok::<Value, EvalError>(
            Value::Duration(Duration { seconds: 86400 }),
        ),
        eval_spec(Expr::Duration(24, Unit::Hours), now) == Ok::<Value, EvalError>(
            Value::Duration(Duration { seconds: 86400 }),
        ),
{
}

} // verus!
