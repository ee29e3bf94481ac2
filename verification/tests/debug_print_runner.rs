#[test]
fn test_runner_basic_functionality() {
    // Nothing but the test harness is exercised here.
    assert!(true);
}
