use codemode::Limits;
use std::time::Duration;

#[test]
fn default_limits_are_conservative() {
    let limits = Limits::default();
    assert_eq!(limits.timeout, Duration::from_secs(5));
    assert_eq!(limits.max_loop_iterations, 10_000_000);
    assert_eq!(limits.max_recursion_depth, 400);
    assert_eq!(limits.max_stack_size, 10_240);
    assert_eq!(limits.max_backtrace_frames, 50);
    assert_eq!(limits.max_tool_calls, 50);
    assert_eq!(limits.max_output_bytes, 1_000_000);
    assert_eq!(limits.per_call_timeout, Duration::from_secs(30));
}
