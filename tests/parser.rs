use tcalc::lexer::Lexer;
use tcalc::parser::{parse, Expr, Keyword, Op, ParsingError, Unit};

#[test]
fn test_parse_date() {
    let lexer = Lexer::new("2023/01/01");
    let expr = parse(lexer).unwrap();
    assert_eq!(expr, Expr::Date(2023, 1, 1));
}

#[test]
fn test_parse_time_24h() {
    let lexer = Lexer::new("14:30");
    let expr = parse(lexer).unwrap();
    assert_eq!(expr, Expr::Time(14, 30));
}

#[test]
fn test_parse_time_am() {
    let lexer = Lexer::new("2am");
    let expr = parse(lexer).unwrap();
    assert_eq!(expr, Expr::Time(2, 0));
}

#[test]
fn test_parse_time_pm() {
    let lexer = Lexer::new("2pm");
    let expr = parse(lexer).unwrap();
    assert_eq!(expr, Expr::Time(14, 0));
}

#[test]
fn test_parse_time_12am() {
    let lexer = Lexer::new("12am");
    let expr = parse(lexer).unwrap();
    assert_eq!(expr, Expr::Time(0, 0));
}

#[test]
fn test_parse_time_12pm() {
    let lexer = Lexer::new("12pm");
    let expr = parse(lexer).unwrap();
    assert_eq!(expr, Expr::Time(12, 0));
}

#[test]
fn test_parse_time_invalid_hour_overflow() {
    let lexer = Lexer::new("34pm");
    assert!(parse(lexer).is_err());
}

#[test]
fn test_parse_time_invalid_hour_zero() {
    let lexer = Lexer::new("0am");
    assert!(parse(lexer).is_err());
}

#[test]
fn test_parse_duration_hours() {
    let lexer = Lexer::new("2h");
    let expr = parse(lexer).unwrap();
    assert_eq!(expr, Expr::Duration(2, Unit::Hours));
}

#[test]
fn test_parse_duration_minutes() {
    let lexer = Lexer::new("30m");
    let expr = parse(lexer).unwrap();
    assert_eq!(expr, Expr::Duration(30, Unit::Minutes));
}

#[test]
fn test_parse_keyword_today() {
    let lexer = Lexer::new("today");
    let expr = parse(lexer).unwrap();
    assert_eq!(expr, Expr::Keyword(Keyword::Today));
}

#[test]
fn test_parse_keyword_tomorrow() {
    let lexer = Lexer::new("tomorrow");
    let expr = parse(lexer).unwrap();
    assert_eq!(expr, Expr::Keyword(Keyword::Tomorrow));
}

#[test]
fn test_parse_datetime() {
    let lexer = Lexer::new("2023/01/01 14:30");
    let expr = parse(lexer).unwrap();
    assert_eq!(expr, Expr::DateTime(2023, 1, 1, 14, 30));
}

#[test]
fn test_parse_addition() {
    let lexer = Lexer::new("today + 2h");
    let expr = parse(lexer).unwrap();
    assert_eq!(
        expr,
        Expr::BinOp(
            Box::new(Expr::Keyword(Keyword::Today)),
            Op::Add,
            Box::new(Expr::Duration(2, Unit::Hours))
        )
    );
}

#[test]
fn test_parse_subtraction() {
    let lexer = Lexer::new("2am - 30m");
    let expr = parse(lexer).unwrap();
    assert_eq!(
        expr,
        Expr::BinOp(
            Box::new(Expr::Time(2, 0)),
            Op::Sub,
            Box::new(Expr::Duration(30, Unit::Minutes))
        )
    );
}

#[test]
fn test_parse_chained_operations() {
    let lexer = Lexer::new("today - 2h + 30m");
    let expr = parse(lexer).unwrap();
    // ((today - 2h) + 30m)
    assert_eq!(
        expr,
        Expr::BinOp(
            Box::new(Expr::BinOp(
                Box::new(Expr::Keyword(Keyword::Today)),
                Op::Sub,
                Box::new(Expr::Duration(2, Unit::Hours))
            )),
            Op::Add,
            Box::new(Expr::Duration(30, Unit::Minutes))
        )
    );
}

#[test]
fn test_parse_duration_addition() {
    let lexer = Lexer::new("2h + 30m");
    let expr = parse(lexer).unwrap();
    assert_eq!(
        expr,
        Expr::BinOp(
            Box::new(Expr::Duration(2, Unit::Hours)),
            Op::Add,
            Box::new(Expr::Duration(30, Unit::Minutes))
        )
    );
}

#[test]
fn test_parse_date_arithmetic() {
    let lexer = Lexer::new("2023/12/25 + 7d");
    let expr = parse(lexer).unwrap();
    assert_eq!(
        expr,
        Expr::BinOp(
            Box::new(Expr::Date(2023, 12, 25)),
            Op::Add,
            Box::new(Expr::Duration(7, Unit::Days))
        )
    );
}

#[test]
fn half_day_boundaries() {
    assert_eq!(parse(Lexer::new("1am")).unwrap(), Expr::Time(1, 0));
    assert_eq!(parse(Lexer::new("11am")).unwrap(), Expr::Time(11, 0));
    assert_eq!(parse(Lexer::new("11pm")).unwrap(), Expr::Time(23, 0));
    assert_eq!(parse(Lexer::new("1pm")).unwrap(), Expr::Time(13, 0));
    assert!(parse(Lexer::new("13am")).is_err());
    assert!(parse(Lexer::new("13pm")).is_err());
    assert!(parse(Lexer::new("0pm")).is_err());
}

#[test]
fn invalid_half_day_message() {
    let err = parse(Lexer::new("34pm")).unwrap_err();
    assert_eq!(err.to_string(), "invalid time '34 pm'");
}

#[test]
fn unit_spellings() {
    for (name, unit) in [
        ("years", Unit::Years),
        ("year", Unit::Years),
        ("y", Unit::Years),
        ("months", Unit::Months),
        ("month", Unit::Months),
        ("days", Unit::Days),
        ("day", Unit::Days),
        ("d", Unit::Days),
        ("hours", Unit::Hours),
        ("hour", Unit::Hours),
        ("h", Unit::Hours),
        ("minutes", Unit::Minutes),
        ("minute", Unit::Minutes),
        ("m", Unit::Minutes),
        ("seconds", Unit::Seconds),
        ("second", Unit::Seconds),
        ("s", Unit::Seconds),
    ] {
        assert_eq!(Unit::from_name(name), Some(unit));
    }
    assert_eq!(Unit::from_name("mo"), None);
    assert_eq!(Unit::from_name("Days"), None);
}

#[test]
fn unknown_unit_and_keyword() {
    let err = parse(Lexer::new("3 weeks")).unwrap_err();
    assert_eq!(err.to_string(), "unknown keyword 'weeks'");
    let err = parse(Lexer::new("Today")).unwrap_err();
    assert_eq!(err.to_string(), "unknown keyword 'Today'");
}

#[test]
fn parse_error_variants() {
    let err = parse(Lexer::new("")).unwrap_err();
    assert_eq!(err.to_string(), "unexpected token 'Eof'");
    let err = parse(Lexer::new("5")).unwrap_err();
    assert_eq!(err.to_string(), "unexpected token 'Eof'");
    let err = parse(Lexer::new("2025/x")).unwrap_err();
    assert!(matches!(err, ParsingError::ExpectedNumber));
    let err = parse(Lexer::new("2025/01:01")).unwrap_err();
    assert_eq!(err.to_string(), "unexpected token 'Colon'");
    let err = parse(Lexer::new("2025/01/01 10 10")).unwrap_err();
    assert_eq!(err.to_string(), "unexpected token 'Number(10)'");
    assert_eq!(ParsingError::UnexpectedEof.to_string(), "unexpected end of input");
    assert_eq!(ParsingError::InvalidYear(-5).to_string(), "invalid year '-5'");
    assert_eq!(ParsingError::ExpectedUnit.to_string(), "expected unit");
}

#[test]
fn trailing_tokens_are_refused() {
    let err = parse(Lexer::new("2023/01/01 foo")).unwrap_err();
    assert_eq!(err.to_string(), "unexpected token 'Ident(foo)'");
    let err = parse(Lexer::new("now@")).unwrap_err();
    assert_eq!(err.to_string(), "unexpected token 'Illegal'");
    let err = parse(Lexer::new("2am 99999999999999999999")).unwrap_err();
    assert_eq!(err.to_string(), "unexpected token 'Illegal'");
    assert!(parse(Lexer::new("2025/09/27 @")).is_err());
}

#[test]
fn oversized_fields_are_refused() {
    let err = parse(Lexer::new("2025/265/01")).unwrap_err();
    assert_eq!(err.to_string(), "unexpected token 'Number(265)'");
    let err = parse(Lexer::new("2025/01/300")).unwrap_err();
    assert_eq!(err.to_string(), "unexpected token 'Number(300)'");
    let err = parse(Lexer::new("4294967296/01/01")).unwrap_err();
    assert_eq!(err.to_string(), "invalid year '4294967296'");
    let err = parse(Lexer::new("14:286")).unwrap_err();
    assert_eq!(err.to_string(), "invalid time '14:286'");
    let err = parse(Lexer::new("2025/01/01 300:00")).unwrap_err();
    assert_eq!(err.to_string(), "invalid time '300:0'");
    assert_eq!(parse(Lexer::new("2025/255/01")).unwrap(), Expr::Date(2025, 255, 1));
}
