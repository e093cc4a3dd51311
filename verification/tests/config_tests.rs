use task_bench::config::parse_task_count;
use task_bench::config::DEFAULT_TASK_COUNT;
use task_bench::config::ConfigurationError;

#[test]
fn missing_argument_gives_the_default() {
    assert_eq!(DEFAULT_TASK_COUNT, 100_000);
    assert_eq!(parse_task_count(None), Ok(100_000));
}

#[test]
fn decimal_argument_is_read() {
    assert_eq!(parse_task_count(Some("5".as_bytes())), Ok(5));
    assert_eq!(parse_task_count(Some("100000".as_bytes())), Ok(100_000));
    assert_eq!(parse_task_count(Some("0042".as_bytes())), Ok(42));
    assert_eq!(parse_task_count(Some("+7".as_bytes())), Ok(7));
}

#[test]
fn malformed_argument_is_a_configuration_error() {
    let malformed = ConfigurationError::MalformedTaskCount;
    assert_eq!(parse_task_count(Some("".as_bytes())), Err(malformed));
    assert_eq!(parse_task_count(Some("+".as_bytes())), Err(malformed));
    assert_eq!(parse_task_count(Some("12a".as_bytes())), Err(malformed));
    assert_eq!(parse_task_count(Some("abc".as_bytes())), Err(malformed));
    assert_eq!(parse_task_count(Some("-5".as_bytes())), Err(malformed));
    assert_eq!(parse_task_count(Some(" 5".as_bytes())), Err(malformed));
    assert_eq!(parse_task_count(Some("5 ".as_bytes())), Err(malformed));
    assert_eq!(parse_task_count(Some("++5".as_bytes())), Err(malformed));
    assert_eq!(parse_task_count(Some("1.5".as_bytes())), Err(malformed));
    assert_eq!(parse_task_count(Some("99999999999999999999x".as_bytes())), Err(malformed));
}

#[test]
fn zero_is_refused() {
    assert_eq!(parse_task_count(Some("0".as_bytes())), Err(ConfigurationError::NonPositiveTaskCount));
    assert_eq!(parse_task_count(Some("000".as_bytes())), Err(ConfigurationError::NonPositiveTaskCount));
    assert_eq!(parse_task_count(Some("+0".as_bytes())), Err(ConfigurationError::NonPositiveTaskCount));
}

#[test]
fn numbers_beyond_the_range_are_refused() {
    assert_eq!(parse_task_count(Some("9223372036854775807".as_bytes())), Ok(i64::MAX));
    assert_eq!(
        parse_task_count(Some("9223372036854775808".as_bytes())),
        Err(ConfigurationError::TaskCountTooLarge)
    );
    assert_eq!(
        parse_task_count(Some("99999999999999999999999999".as_bytes())),
        Err(ConfigurationError::TaskCountTooLarge)
    );
}
