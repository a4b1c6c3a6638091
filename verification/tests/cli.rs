use exsync::cli::parse_args;

#[test]
fn test_no_args() {
    let args: Vec<String> = vec![];
    let res = parse_args(args.into_iter()).unwrap();
    assert!(!res.dry_run);
}

#[test]
fn test_dry_run() {
    let args = vec!["--dry-run".to_string()];
    let res = parse_args(args.into_iter()).unwrap();
    assert!(res.dry_run);
}

#[test]
fn test_bogus_args() {
    let args1 = vec!["--config".to_string(), "x".to_string()];
    assert_eq!(parse_args(args1.into_iter()), Err(2));

    let args2 = vec!["--bogus".to_string()];
    assert_eq!(parse_args(args2.into_iter()), Err(2));
}

#[test]
fn dry_run_with_extra_argument_is_usage_error() {
    let args = vec!["--dry-run".to_string(), "--dry-run".to_string()];
    assert_eq!(parse_args(args.into_iter()), Err(2));
}
