use equivalence_checker::bounds::{parse_bounds, split_at_char};
use equivalence_checker::types::CheckerError;

#[test]
fn parses_each_entry() {
    let bs = parse_bounds("x:0:100,y:-5:5").unwrap();
    assert_eq!(bs.len(), 2);
    assert_eq!(bs[0].name, "x");
    assert_eq!((bs[0].min, bs[0].max), (0, 100));
    assert_eq!(bs[1].name, "y");
    assert_eq!((bs[1].min, bs[1].max), (-5, 5));
}

#[test]
fn rejects_entry_without_three_fields() {
    match parse_bounds("x:0:1,y:0") {
        Err(CheckerError::BoundsFormat(e)) => assert_eq!(e, "y:0"),
        other => panic!("unexpected {:?}", other),
    }
    assert!(matches!(parse_bounds("x:0:1,"), Err(CheckerError::BoundsFormat(_))));
    assert!(matches!(parse_bounds(""), Err(CheckerError::BoundsFormat(_))));
}

#[test]
fn rejects_limits_that_are_not_integers() {
    match parse_bounds("x:zero:1") {
        Err(CheckerError::BoundsNumber(e)) => assert_eq!(e, "x:zero:1"),
        other => panic!("unexpected {:?}", other),
    }
    assert!(matches!(parse_bounds("x:0:99999999999999999999"), Err(CheckerError::BoundsNumber(_))));
}

#[test]
fn splits_keep_empty_pieces() {
    assert_eq!(split_at_char("a,,b", ','), vec!["a".to_string(), String::new(), "b".to_string()]);
    assert_eq!(split_at_char("", ','), vec![String::new()]);
    assert_eq!(split_at_char("ä:ö", ':'), vec!["ä".to_string(), "ö".to_string()]);
}

#[test]
fn rejects_boxes_that_are_not_valid() {
    assert!(matches!(parse_bounds("x:10:0"), Err(CheckerError::InvalidBounds)));
    assert!(matches!(parse_bounds("x:0:1,x:0:2"), Err(CheckerError::DuplicateInput)));
    assert!(parse_bounds("x:3:3,y:0:2").is_ok());
}
