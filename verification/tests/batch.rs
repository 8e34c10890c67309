use oxide_eval::OxideErr;
use oxide_eval::evaluate_many;

#[test]
fn batch_preserves_order() -> Result<(), OxideErr> {
    let results = evaluate_many(
        vec!["add(1,1)".to_string(), "add(2,2)".to_string()],
        None,
    )?;
    assert_eq!(results, vec!["2".to_string(), "4".to_string()]);
    Ok(())
}

#[test]
fn batch_applies_one_precision_to_all() -> Result<(), OxideErr> {
    let results = evaluate_many(
        vec!["add(1,0.5)".to_string(), "div(10,4)".to_string()],
        Some(0),
    )?;
    assert_eq!(results, vec!["2".to_string(), "2".to_string()]);
    Ok(())
}

#[test]
fn batch_with_a_malformed_element_fails_whole() {
    match evaluate_many(
        vec!["add(1,1)".to_string(), "foo(1)".to_string(), "add(2,2)".to_string()],
        None,
    ) {
        Err(OxideErr::UnmatchedToken(t)) => assert_eq!(t, "foo"),
        other => panic!("expected an unmatched token error, got {:?}", other),
    }
}

#[test]
fn batch_reports_the_first_error() {
    match evaluate_many(
        vec!["bar(1)".to_string(), "foo(1)".to_string()],
        None,
    ) {
        Err(OxideErr::UnmatchedToken(t)) => assert_eq!(t, "bar"),
        other => panic!("expected an unmatched token error, got {:?}", other),
    }
}

#[test]
fn empty_batch_yields_empty_results() -> Result<(), OxideErr> {
    let results = evaluate_many(Vec::new(), None)?;
    assert!(results.is_empty());
    Ok(())
}
