use dnd_dashboard::dice::{outcome_from_rolls, parse, roll, roll_with, DiceError, DiceExpr};

#[test]
fn parses_bare_die() {
    assert_eq!(
        parse("d20").unwrap(),
        DiceExpr {
            count: 1,
            sides: 20,
            modifier: 0
        }
    );
}

#[test]
fn parses_count_and_modifier() {
    assert_eq!(
        parse("2d6+3").unwrap(),
        DiceExpr {
            count: 2,
            sides: 6,
            modifier: 3
        }
    );
    assert_eq!(
        parse("1d8-1").unwrap(),
        DiceExpr {
            count: 1,
            sides: 8,
            modifier: -1
        }
    );
}

#[test]
fn tolerates_whitespace_and_case() {
    assert_eq!(parse(" 4D6 + 2 ").unwrap().count, 4);
    assert_eq!(parse(" 4D6 + 2 ").unwrap().sides, 6);
    assert_eq!(parse(" 4D6 + 2 ").unwrap().modifier, 2);
}

#[test]
fn rejects_nonsense() {
    assert_eq!(parse(""), Err(DiceError::Empty));
    assert_eq!(parse("hello"), Err(DiceError::Malformed));
    assert_eq!(parse("0d6"), Err(DiceError::BadCount));
    assert_eq!(parse("101d6"), Err(DiceError::BadCount));
    assert_eq!(parse("1d1"), Err(DiceError::BadSides));
}

#[test]
fn round_trips_through_display() {
    for s in ["2d6+3", "1d20", "4d8-2"] {
        assert_eq!(parse(s).unwrap().to_string(), s);
    }
}

#[test]
fn totals_include_modifier() {
    let expr = parse("3d6+2").unwrap();
    let outcome = roll_with(expr, |_| 4);
    assert_eq!(outcome.rolls, vec![4, 4, 4]);
    assert_eq!(outcome.total, 14);
}

#[test]
fn flags_natural_twenty_and_one() {
    let d20 = parse("d20").unwrap();
    assert_eq!(roll_with(d20, |_| 20).critical, Some(true));
    assert_eq!(roll_with(d20, |_| 1).critical, Some(false));
    assert_eq!(roll_with(d20, |_| 11).critical, None);
    // Multiple dice are never flagged.
    assert_eq!(roll_with(parse("2d20").unwrap(), |_| 20).critical, None);
}

#[test]
fn whitespace_only_is_empty() {
    assert_eq!(parse("   "), Err(DiceError::Empty));
    assert_eq!(parse("\t\n\u{3000}"), Err(DiceError::Empty));
}

#[test]
fn signs_and_digits_are_checked() {
    assert_eq!(parse("+3"), Err(DiceError::Malformed));
    assert_eq!(parse("d"), Err(DiceError::Malformed));
    assert_eq!(parse("2d"), Err(DiceError::Malformed));
    assert_eq!(parse("1d20+"), Err(DiceError::Malformed));
    assert_eq!(parse("1d20+-3"), Err(DiceError::Malformed));
    assert_eq!(parse("2d6d"), Err(DiceError::Malformed));
    assert_eq!(parse("x2d6"), Err(DiceError::Malformed));
    assert_eq!(parse("1d20+99999999999999999999"), Err(DiceError::Malformed));
    assert_eq!(parse("5000000000d6"), Err(DiceError::Malformed));
    assert_eq!(parse("1d1001"), Err(DiceError::BadSides));
}

#[test]
fn extremes_that_parse() {
    assert_eq!(
        parse("100d1000").unwrap(),
        DiceExpr {
            count: 100,
            sides: 1000,
            modifier: 0
        }
    );
    assert_eq!(parse("d2-9223372036854775808").unwrap().modifier, i64::MIN);
    assert_eq!(parse("d2+9223372036854775807").unwrap().modifier, i64::MAX);
    assert_eq!(parse("007D0020 - 0003").unwrap(), DiceExpr { count: 7, sides: 20, modifier: -3 });
    assert_eq!(parse("d\u{00A0}20\u{2003}").unwrap().sides, 20);
}

#[test]
fn zero_modifier_is_not_rendered() {
    assert_eq!(parse("3d4+0").unwrap().to_string(), "3d4");
    assert_eq!(parse("d6-0").unwrap().to_string(), "1d6");
    assert_eq!(
        DiceExpr {
            count: 1,
            sides: 2,
            modifier: i64::MIN
        }
        .to_string(),
        "1d2-9223372036854775808"
    );
}

#[test]
fn rendered_expressions_parse_back() {
    for e in [
        DiceExpr { count: 1, sides: 2, modifier: 0 },
        DiceExpr { count: 100, sides: 1000, modifier: -17 },
        DiceExpr { count: 12, sides: 10, modifier: 250 },
    ] {
        assert_eq!(parse(&e.to_string()), Ok(e));
    }
}

#[test]
fn error_messages_match_the_refusal() {
    assert_eq!(DiceError::Empty.message(), "empty dice expression");
    assert_eq!(DiceError::Malformed.message(), "expected NdM notation, e.g. 2d6+3");
    assert_eq!(DiceError::BadCount.message(), "dice count must be between 1 and 100");
    assert_eq!(DiceError::BadSides.message(), "die must have between 2 and 1000 sides");
}

#[test]
fn outcomes_report_expression_and_faces() {
    let expr = parse("2d8-3").unwrap();
    let o = outcome_from_rolls(expr, vec![1, 8]);
    assert_eq!(o.expression, "2d8-3");
    assert_eq!(o.rolls, vec![1, 8]);
    assert_eq!(o.modifier, -3);
    assert_eq!(o.total, 6);
    assert_eq!(o.critical, None);
}

#[test]
fn random_rolls_stay_on_the_die() {
    let expr = parse("100d1000").unwrap();
    let o = roll(expr);
    assert_eq!(o.rolls.len(), 100);
    assert!(o.rolls.iter().all(|r| (1..=1000).contains(r)));
    // A hundred faces of a d1000 are not all the top face.
    assert!(o.rolls.iter().any(|r| *r != 1000));
    let sum: i64 = o.rolls.iter().map(|r| *r as i64).sum();
    assert_eq!(o.total, sum);
}
