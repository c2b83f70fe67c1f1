use md_preview::focus_probe::{announce_line, parse_poke, stamp_at};

#[test]
fn stamps_show_japan_time_and_the_epoch_millis() {
    // 1970-01-01T00:00:00.007Z is 09:00:00.007 in Japan.
    assert_eq!(stamp_at(7), "09:00:00.007 7");
    // 2024-01-01T15:04:05.123Z is 00:04:05.123 the next day in Japan.
    assert_eq!(stamp_at(1704121445123), "00:04:05.123 1704121445123");
}

#[test]
fn a_poke_names_the_action_and_the_sender() {
    assert_eq!(parse_poke("activate 4242\n"), ("activate".to_string(), 4242));
    assert_eq!(parse_poke("  activate-from\t-7  extra"), ("activate-from".to_string(), -7));
}

#[test]
fn a_poke_without_a_readable_pid_says_zero() {
    assert_eq!(parse_poke("activate"), ("activate".to_string(), 0));
    assert_eq!(parse_poke("activate pid"), ("activate".to_string(), 0));
    assert_eq!(parse_poke("activate 99999999999"), ("activate".to_string(), 0));
}

#[test]
fn an_empty_poke_does_nothing() {
    assert_eq!(parse_poke(""), ("none".to_string(), 0));
    assert_eq!(parse_poke(" \n\t"), ("none".to_string(), 0));
}

#[test]
fn the_receiver_announces_both_pids() {
    assert_eq!(announce_line(12, Some(34)), "--- 受け側 起動 pid=12 起動元 pid=34 ---");
    assert_eq!(announce_line(12, None), "--- 受け側 起動 pid=12 起動元 pid=0 ---");
    assert_eq!(announce_line(12, Some(-1)), "--- 受け側 起動 pid=12 起動元 pid=-1 ---");
}
