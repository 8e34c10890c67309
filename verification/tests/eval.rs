use oxide_eval::OxideErr;
use oxide_eval::evaluate;

#[test]
fn simple_add() -> Result<(), OxideErr> {
    assert_eq!(evaluate("add(1,2)".to_string(), None)?, "3");
    Ok(())
}

#[test]
fn add_with_white_space() -> Result<(), OxideErr> {
    assert_eq!(evaluate("  add ( 1, 2 )  ".to_string(), None)?, "3");
    Ok(())
}

#[test]
fn add_right() -> Result<(), OxideErr> {
    assert_eq!(evaluate("add(1,add(1,2.2))".to_string(), None)?, "4.2");
    Ok(())
}

#[test]
fn add_left() -> Result<(), OxideErr> {
    assert_eq!(evaluate("add(add(1,2.2),1)".to_string(), None)?, "4.2");
    Ok(())
}

#[test]
fn sub() -> Result<(), OxideErr> {
    assert_eq!(evaluate("sub(2,2.5)".to_string(), None)?, "-0.5");
    Ok(())
}

#[test]
fn mult() -> Result<(), OxideErr> {
    assert_eq!(evaluate("mult(2,2.5)".to_string(), None)?, "5.0");
    Ok(())
}

#[test]
fn div() -> Result<(), OxideErr> {
    assert_eq!(evaluate("div(10,2)".to_string(), None)?, "5");
    Ok(())
}

#[test]
fn modulo() -> Result<(), OxideErr> {
    assert_eq!(evaluate("mod(10,2)".to_string(), None)?, "0");
    Ok(())
}

#[test]
fn modulo_with_remainder() -> Result<(), OxideErr> {
    assert_eq!(evaluate("mod(5,3)".to_string(), None)?, "2");
    Ok(())
}

#[test]
fn power() -> Result<(), OxideErr> {
    assert_eq!(evaluate("pow(5,2)".to_string(), None)?, "25");
    Ok(())
}

#[test]
fn precision() -> Result<(), OxideErr> {
    assert_eq!(evaluate("add(1,0.5)".to_string(), Some(0))?, "2");
    Ok(())
}

#[test]
fn whitespace_everywhere_matches_compact_form() -> Result<(), OxideErr> {
    let spaced = evaluate(" su b( 2 ,\t2 . 5 )\n".to_string(), None)?;
    let compact = evaluate("sub(2,2.5)".to_string(), None)?;
    assert_eq!(spaced, compact);
    Ok(())
}

#[test]
fn precision_beyond_scale_keeps_value() -> Result<(), OxideErr> {
    assert_eq!(evaluate("add(1,0.5)".to_string(), Some(5))?, "1.5");
    Ok(())
}

#[test]
fn deep_nesting_on_both_sides() -> Result<(), OxideErr> {
    assert_eq!(
        evaluate("add(sub(10,2),mult(div(9,3),2))".to_string(), None)?,
        "14"
    );
    Ok(())
}

#[test]
fn under_supplied_operator_names_the_token() {
    match evaluate("foo(1)".to_string(), None) {
        Err(OxideErr::UnmatchedToken(t)) => assert_eq!(t, "foo"),
        other => panic!("expected an unmatched token error, got {:?}", other),
    }
}

#[test]
fn known_operator_with_one_operand_names_the_token() {
    match evaluate("add(1)".to_string(), None) {
        Err(OxideErr::UnmatchedToken(t)) => assert_eq!(t, "add"),
        other => panic!("expected an unmatched token error, got {:?}", other),
    }
}

#[test]
fn unknown_operator_with_two_operands_is_invalid() {
    match evaluate("foo(1,2)".to_string(), None) {
        Err(OxideErr::InvalidString) => {}
        other => panic!("expected an invalid string error, got {:?}", other),
    }
}

#[test]
fn empty_input_is_invalid() {
    match evaluate(String::new(), None) {
        Err(OxideErr::InvalidString) => {}
        other => panic!("expected an invalid string error, got {:?}", other),
    }
}

#[test]
fn whitespace_only_input_is_invalid() {
    match evaluate("   \t\n".to_string(), None) {
        Err(OxideErr::InvalidString) => {}
        other => panic!("expected an invalid string error, got {:?}", other),
    }
}

#[test]
fn division_by_zero_is_invalid() {
    match evaluate("div(1,0)".to_string(), None) {
        Err(OxideErr::InvalidString) => {}
        other => panic!("expected an invalid string error, got {:?}", other),
    }
}

#[test]
fn remainder_by_zero_is_invalid() {
    match evaluate("mod(1,0)".to_string(), None) {
        Err(OxideErr::InvalidString) => {}
        other => panic!("expected an invalid string error, got {:?}", other),
    }
}

#[test]
fn negative_result_keeps_its_sign() -> Result<(), OxideErr> {
    assert_eq!(evaluate("sub(1,2)".to_string(), None)?, "-1");
    Ok(())
}

#[test]
fn bare_literal_evaluates_to_itself() -> Result<(), OxideErr> {
    assert_eq!(evaluate("7.25".to_string(), None)?, "7.25");
    Ok(())
}

#[test]
fn leftover_operands_yield_the_bottom_value() -> Result<(), OxideErr> {
    assert_eq!(evaluate("1,2".to_string(), None)?, "2");
    Ok(())
}

#[test]
fn same_input_same_precision_same_result() -> Result<(), OxideErr> {
    let first = evaluate("div(mult(2,3),4)".to_string(), Some(2))?;
    let second = evaluate("div(mult(2,3),4)".to_string(), Some(2))?;
    assert_eq!(first, second);
    assert_eq!(first, "1.50");
    Ok(())
}

#[test]
fn precision_rounds_half_to_even() -> Result<(), OxideErr> {
    assert_eq!(evaluate("add(0.25,0)".to_string(), Some(1))?, "0.2");
    assert_eq!(evaluate("add(0.35,0)".to_string(), Some(1))?, "0.4");
    Ok(())
}
