use splitmut::check_r;
use splitmut::to_r;
use splitmut::SplitMutError;

#[test]
fn resolve_present_and_absent() {
    assert_eq!(to_r(Some(3)), Ok(3));
    assert_eq!(to_r(None), Err(SplitMutError::NoValue));
}

#[test]
fn check_demotes_only_equal_successes() {
    assert_eq!(check_r(&Ok(1), Ok(1)), Err(SplitMutError::SameValue));
    assert_eq!(check_r(&Ok(1), Ok(2)), Ok(2));
    assert_eq!(check_r(&Err(SplitMutError::NoValue), Ok(1)), Ok(1));
    assert_eq!(
        check_r(&Ok(1), Err(SplitMutError::NoValue)),
        Err(SplitMutError::NoValue)
    );
    assert_eq!(
        check_r(&Err(SplitMutError::SameValue), Err(SplitMutError::NoValue)),
        Err(SplitMutError::NoValue)
    );
}

#[test]
fn error_descriptions() {
    assert_eq!(SplitMutError::NoValue.description(), "No value");
    assert_eq!(SplitMutError::SameValue.description(), "Duplicate values");
}

#[test]
fn error_is_plain_value() {
    let e = SplitMutError::NoValue;
    let f = e;
    assert_eq!(e, f);
    assert!(SplitMutError::NoValue < SplitMutError::SameValue);
    assert_ne!(SplitMutError::NoValue, SplitMutError::SameValue);
}
