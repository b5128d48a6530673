use tcalc::calendar::{Date, DateTime, Duration, Time};
use tcalc::evaluator::{eval, eval_at, EvalError, Value};
use tcalc::parser::{Expr, Keyword, Op, Unit};

fn fixed_now() -> DateTime {
    DateTime {
        date: Date { year: 2024, month: 2, day: 28 },
        time: Time { hour: 23, minute: 15, second: 7, nanosecond: 500_000_000 },
    }
}

#[test]
fn test_literal_date() {
    let expr = Expr::Date(2025, 9, 27);
    let val = eval(&expr).unwrap();
    match val {
        Value::Date(date) => assert_eq!(date, Date { year: 2025, month: 9, day: 27 }),
        _ => panic!("Expected Value::Date"),
    }
}

#[test]
fn test_literal_time() {
    let expr = Expr::Time(12, 30);
    let val = eval(&expr).unwrap();
    match val {
        Value::Time(time) => {
            assert_eq!(time, Time { hour: 12, minute: 30, second: 0, nanosecond: 0 })
        }
        _ => panic!("Expected Value::Time"),
    }
}

#[test]
fn test_duration_days() {
    let expr = Expr::Duration(3, Unit::Days);
    let val = eval(&expr).unwrap();
    match val {
        Value::Duration(dur) => assert_eq!(dur, Duration { seconds: 3 * 86400 }),
        _ => panic!("Expected Value::Duration"),
    }
}

#[test]
fn test_add_date_duration() {
    let expr = Expr::BinOp(
        Box::new(Expr::Date(2025, 9, 27)),
        Op::Add,
        Box::new(Expr::Duration(2, Unit::Days)),
    );
    let val = eval(&expr).unwrap();
    match val {
        Value::Date(date) => assert_eq!(date, Date { year: 2025, month: 9, day: 29 }),
        _ => panic!("Expected Value::Date"),
    }
}

#[test]
fn test_sub_date_duration() {
    let expr = Expr::BinOp(
        Box::new(Expr::Date(2025, 9, 27)),
        Op::Sub,
        Box::new(Expr::Duration(7, Unit::Days)),
    );
    let val = eval(&expr).unwrap();
    match val {
        Value::Date(date) => assert_eq!(date, Date { year: 2025, month: 9, day: 20 }),
        _ => panic!("Expected Value::Date"),
    }
}

#[test]
fn test_keyword_today() {
    let expr = Expr::Keyword(Keyword::Today);
    let val = eval(&expr).unwrap();
    match val {
        Value::Date(_) => {}
        _ => panic!("Expected Value::Date"),
    }
}

#[test]
fn test_invalid_addition() {
    let expr = Expr::BinOp(
        Box::new(Expr::Date(2025, 9, 27)),
        Op::Add,
        Box::new(Expr::Date(2025, 9, 28)),
    );
    let val = eval(&expr);
    assert!(val.is_err());
}

#[test]
fn keywords_at_a_fixed_instant() {
    let now = fixed_now();
    assert_eq!(eval_at(&Expr::Keyword(Keyword::Now), now), Ok(Value::DateTime(now)));
    assert_eq!(eval_at(&Expr::Keyword(Keyword::Today), now), Ok(Value::Date(now.date)));
    assert_eq!(
        eval_at(&Expr::Keyword(Keyword::Tomorrow), now),
        Ok(Value::Date(Date { year: 2024, month: 2, day: 29 }))
    );
    assert_eq!(
        eval_at(&Expr::Keyword(Keyword::Yesterday), now),
        Ok(Value::Date(Date { year: 2024, month: 2, day: 27 }))
    );
}

#[test]
fn datetime_plus_duration_carries_into_the_date() {
    let now = fixed_now();
    let expr = Expr::BinOp(
        Box::new(Expr::Keyword(Keyword::Now)),
        Op::Add,
        Box::new(Expr::Duration(1, Unit::Hours)),
    );
    let v = eval_at(&expr, now).unwrap();
    assert_eq!(v.to_string(), "2024-02-29 00:15:07.5 +00:00");
}

#[test]
fn evaluation_error_variants() {
    let now = fixed_now();
    assert_eq!(eval_at(&Expr::Date(2025, 13, 1), now), Err(EvalError::InvalidMonth(13)));
    assert_eq!(eval_at(&Expr::Date(2025, 2, 29), now), Err(EvalError::InvalidDate(2025, 2, 29)));
    assert_eq!(eval_at(&Expr::Date(10000, 1, 1), now), Err(EvalError::InvalidDate(10000, 1, 1)));
    assert_eq!(eval_at(&Expr::Time(24, 0), now), Err(EvalError::InvalidTime(24, 0, 0)));
    assert_eq!(
        eval_at(&Expr::DateTime(2024, 2, 29, 10, 60), now),
        Err(EvalError::InvalidTime(10, 60, 0))
    );
    assert_eq!(
        eval_at(&Expr::Duration(i64::MAX, Unit::Years), now),
        Err(EvalError::OutOfRange)
    );
    assert_eq!(EvalError::InvalidMonth(13).to_string(), "invalid month '13'");
    assert_eq!(EvalError::InvalidDate(2025, 2, 29).to_string(), "invalid date '2025-2-29'");
    assert_eq!(EvalError::InvalidTime(24, 0, 0).to_string(), "invalid time '24:0:0'");
    let d = Value::Date(Date { year: 2025, month: 1, day: 1 });
    let t = Value::Time(Time { hour: 1, minute: 0, second: 0, nanosecond: 0 });
    assert_eq!(
        EvalError::InvalidOp(Op::Sub, t, d).to_string(),
        "invalid operation '-' for 'Time' and 'Date'"
    );
    assert_eq!(EvalError::OutOfRange.to_string(), "date or duration out of range");
}

#[test]
fn kind_names() {
    assert_eq!(Value::Date(Date { year: 1, month: 1, day: 1 }).kind_name(), "Date");
    assert_eq!(Value::Duration(Duration { seconds: 0 }).kind_name(), "Duration");
    assert_eq!(
        Value::Time(Time { hour: 0, minute: 0, second: 0, nanosecond: 0 }).kind_name(),
        "Time"
    );
    assert_eq!(Value::DateTime(fixed_now()).kind_name(), "DateTime");
}

#[test]
fn time_formatting() {
    let t = |second, nanosecond| Value::Time(Time { hour: 9, minute: 5, second, nanosecond });
    assert_eq!(t(0, 0).to_string(), "09:05");
    assert_eq!(t(7, 0).to_string(), "09:05:07");
    assert_eq!(t(7, 120_000_000).to_string(), "09:05:07.12");
    assert_eq!(t(0, 1).to_string(), "09:05:00.000000001");
    assert_eq!(t(59, 999_999_999).to_string(), "09:05:59.999999999");
}

#[test]
fn date_formatting() {
    let d = |year, month, day| Value::Date(Date { year, month, day });
    assert_eq!(d(2025, 9, 7).to_string(), "2025-09-07");
    assert_eq!(d(33, 1, 1).to_string(), "0033-01-01");
    assert_eq!(d(-44, 3, 15).to_string(), "-0044-03-15");
}

#[test]
fn duration_formatting() {
    assert_eq!(Value::Duration(Duration { seconds: 9000 }).to_string(), "2h30m");
    assert_eq!(Value::Duration(Duration { seconds: 0 }).to_string(), "0s");
    assert_eq!(Value::Duration(Duration { seconds: -90061 }).to_string(), "-1d1h1m1s");
}
