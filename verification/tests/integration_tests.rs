use ifstat_rs::{filter_zero_counters, is_space, parse_net_dev_stats, print_headers, print_stats,
    NetStats, ParseError};

fn mock_net_dev_data() -> String {
    "\
Inter-|   Receive                                                |  Transmit
 face |bytes    packets errs drop fifo frame compressed multicast|bytes    packets errs drop fifo colls carrier compressed
    lo: 123456789 98765    0    0    0     0          0         0 123456789 98765    0    0    0     0       0          0
  eth0: 987654321 56789    0    0    0     0          0         0 987654321 56789    0    0    0     0       0          0
".to_string()
}

fn to_lines(text: &str) -> Vec<String> {
    text.lines().map(|l| l.to_string()).collect()
}

fn get_mock_net_dev_stats() -> NetStats {
    parse_net_dev_stats(&to_lines(&mock_net_dev_data())).unwrap()
}

#[test]
fn test_parse_net_dev_stats() {
    let stats = get_mock_net_dev_stats();
    assert_eq!(stats.get(&"lo".to_string()), Some((123456789, 123456789)));
    assert_eq!(stats.get(&"eth0".to_string()), Some((987654321, 987654321)));
}

#[test]
fn test_print_headers() {
    let interfaces = vec!["lo".to_string(), "eth0".to_string()];
    let expected = "\
________lo_________________eth0_______
_KB/s_in__KB/s_out___KB/s_in__KB/s_out
";
    let stats = NetStats::new();
    let output = print_headers(&interfaces, false, &stats);
    let output_str = output.replace(' ', "_");
    assert_eq!(output_str, expected);
}

#[test]
fn test_print_stats() {
    let previous_stats = get_mock_net_dev_stats();
    let current_stats = get_mock_net_dev_stats();
    let interfaces = vec!["lo".to_string(), "eth0".to_string()];
    let expected = "\
____0.00______0.00______0.00______0.00
";
    let output = print_stats(&previous_stats, &current_stats, &interfaces, false);
    let output_str = output.replace(' ', "_");
    assert_eq!(output_str, expected);
}

#[test]
fn parse_rejects_line_without_colon() {
    let mut lines = to_lines(&mock_net_dev_data());
    lines.push("no separator here".to_string());
    assert_eq!(parse_net_dev_stats(&lines), Err(ParseError::NoSeparator));
}

#[test]
fn parse_rejects_short_line() {
    let mut lines = to_lines(&mock_net_dev_data());
    lines.push("eth1: 1 2 3 4 5 6 7 8".to_string());
    assert_eq!(parse_net_dev_stats(&lines), Err(ParseError::MalformedCounters));
}

#[test]
fn parse_rejects_bad_rx_number() {
    let mut lines = to_lines(&mock_net_dev_data());
    lines.push("eth1: x 2 3 4 5 6 7 8 9".to_string());
    assert_eq!(parse_net_dev_stats(&lines), Err(ParseError::InvalidNumber));
}

#[test]
fn parse_rejects_bad_tx_number() {
    let mut lines = to_lines(&mock_net_dev_data());
    lines.push("eth1: 1 2 3 4 5 6 7 8 9x".to_string());
    assert_eq!(parse_net_dev_stats(&lines), Err(ParseError::InvalidNumber));
}

#[test]
fn parse_rejects_overflowing_number() {
    let mut lines = to_lines(&mock_net_dev_data());
    lines.push("eth1: 18446744073709551616 2 3 4 5 6 7 8 9".to_string());
    assert_eq!(parse_net_dev_stats(&lines), Err(ParseError::InvalidNumber));
}

#[test]
fn parse_accepts_header_only_input() {
    let lines = vec!["header one".to_string(), "header two".to_string()];
    let stats = parse_net_dev_stats(&lines).unwrap();
    assert_eq!(stats.get(&"lo".to_string()), None);
}

#[test]
fn parse_is_idempotent() {
    let lines = to_lines(&mock_net_dev_data());
    let first = parse_net_dev_stats(&lines).unwrap();
    let second = parse_net_dev_stats(&lines).unwrap();
    assert!(first == second);
}

#[test]
fn parse_last_write_wins_on_duplicate_names() {
    let mut lines = to_lines(&mock_net_dev_data());
    lines.push("  eth0: 11 2 3 4 5 6 7 8 22".to_string());
    let stats = parse_net_dev_stats(&lines).unwrap();
    assert_eq!(stats.get(&"eth0".to_string()), Some((11, 22)));
}

#[test]
fn identical_snapshots_render_zero_rates() {
    let mut snapshot = NetStats::new();
    snapshot.insert("lo".to_string(), 123456789, 123456789);
    snapshot.insert("eth0".to_string(), 987654321, 987654321);
    let mut same = NetStats::new();
    same.insert("lo".to_string(), 123456789, 123456789);
    same.insert("eth0".to_string(), 987654321, 987654321);
    let interfaces = vec!["lo".to_string(), "eth0".to_string()];
    let output = print_stats(&snapshot, &same, &interfaces, false);
    assert_eq!(output, "    0.00      0.00      0.00      0.00\n");
}

#[test]
fn mebibyte_deltas_render_exact_rates() {
    let mut previous = NetStats::new();
    previous.insert("eth0".to_string(), 1000, 2000);
    let mut current = NetStats::new();
    current.insert("eth0".to_string(), 1000 + 1048576, 2000 + 2097152);
    let interfaces = vec!["eth0".to_string()];
    let output = print_stats(&previous, &current, &interfaces, false);
    assert_eq!(output, " 1024.00   2048.00\n");
}

#[test]
fn interface_missing_from_previous_emits_empty_row() {
    let previous = NetStats::new();
    let mut current = NetStats::new();
    current.insert("wlan0".to_string(), 500, 500);
    let interfaces = vec!["wlan0".to_string()];
    let output = print_stats(&previous, &current, &interfaces, false);
    assert_eq!(output, "\n");
}

#[test]
fn skipped_interface_leaves_no_trailing_separator() {
    let mut previous = NetStats::new();
    previous.insert("a".to_string(), 1, 1);
    let mut current = NetStats::new();
    current.insert("a".to_string(), 1, 1);
    let interfaces = vec!["a".to_string(), "x".to_string()];
    let output = print_stats(&previous, &current, &interfaces, false);
    assert_eq!(output, "    0.00      0.00\n");
}

#[test]
fn skipped_interface_between_emitted_pairs_leaves_one_separator() {
    let mut previous = NetStats::new();
    previous.insert("a".to_string(), 0, 0);
    previous.insert("b".to_string(), 0, 0);
    let mut current = NetStats::new();
    current.insert("a".to_string(), 1024, 0);
    current.insert("b".to_string(), 2048, 0);
    let interfaces = vec!["a".to_string(), "x".to_string(), "b".to_string()];
    let output = print_stats(&previous, &current, &interfaces, false);
    assert_eq!(output, "    1.00      0.00      2.00      0.00\n");
}

#[test]
fn whitespace_predicate_matches_std() {
    let mut checked: u32 = 0;
    for code in 0u32..=0x10FFFF {
        if let Some(c) = char::from_u32(code) {
            assert_eq!(is_space(c), c.is_whitespace());
            checked += 1;
        }
    }
    assert!(checked > 1000000);
}

#[test]
fn parse_accepts_unicode_whitespace_separators() {
    let mut lines = vec!["h1".to_string(), "h2".to_string()];
    lines.push("\u{2000}eth0\u{a0}:\u{3000}7 2 3 4 5 6 7 8\u{2028}9".to_string());
    let stats = parse_net_dev_stats(&lines).unwrap();
    assert_eq!(stats.get(&"eth0".to_string()), Some((7, 9)));
}

#[test]
fn counter_reset_renders_zero_not_negative() {
    let mut previous = NetStats::new();
    previous.insert("eth0".to_string(), 5000, 6000);
    let mut current = NetStats::new();
    current.insert("eth0".to_string(), 1024, 2048);
    let interfaces = vec!["eth0".to_string()];
    let output = print_stats(&previous, &current, &interfaces, false);
    assert_eq!(output, "    0.00      0.00\n");
}

#[test]
fn filter_keeps_only_active_interfaces_in_order() {
    let mut stats = NetStats::new();
    stats.insert("a".to_string(), 0, 0);
    stats.insert("b".to_string(), 1, 0);
    stats.insert("c".to_string(), 0, 2);
    let interfaces = vec![
        "a".to_string(),
        "b".to_string(),
        "c".to_string(),
        "d".to_string(),
    ];
    let filtered = filter_zero_counters(&stats, &interfaces);
    assert_eq!(filtered, vec!["b".to_string(), "c".to_string()]);
}

#[test]
fn hiding_zero_counters_drops_idle_columns() {
    let mut previous = NetStats::new();
    previous.insert("idle0".to_string(), 0, 0);
    previous.insert("eth0".to_string(), 0, 0);
    let mut current = NetStats::new();
    current.insert("idle0".to_string(), 0, 0);
    current.insert("eth0".to_string(), 1024, 1024);
    let interfaces = vec!["idle0".to_string(), "eth0".to_string()];
    let row = print_stats(&previous, &current, &interfaces, true);
    assert_eq!(row, "    1.00      1.00\n");
    let header = print_headers(&interfaces, true, &current);
    assert_eq!(header, "       eth0       \n KB/s in  KB/s out\n");
}

#[test]
fn empty_effective_list_emits_no_header() {
    let stats = NetStats::new();
    let interfaces = vec!["eth0".to_string()];
    let header = print_headers(&interfaces, true, &stats);
    assert_eq!(header, "");
}

#[test]
fn header_and_row_columns_align() {
    let mut previous = NetStats::new();
    previous.insert("lo".to_string(), 100, 100);
    previous.insert("eth0".to_string(), 200, 200);
    let mut current = NetStats::new();
    current.insert("lo".to_string(), 1124, 1224);
    current.insert("eth0".to_string(), 2248, 2348);
    let interfaces = vec!["lo".to_string(), "eth0".to_string()];
    let header = print_headers(&interfaces, false, &current);
    let row = print_stats(&previous, &current, &interfaces, false);
    let header_lines: Vec<&str> = header.lines().collect();
    assert_eq!(header_lines.len(), 2);
    assert_eq!(header_lines[0].len(), header_lines[1].len());
    assert_eq!(row.trim_end_matches('\n').len(), header_lines[1].len());
}

#[test]
fn rate_formatting_matches_float_rendering() {
    let deltas: Vec<u64> = vec![0, 1, 5, 51, 52, 128, 384, 640, 1024, 1536, 123456789, 1048576];
    for &d in deltas.iter() {
        let mut previous = NetStats::new();
        previous.insert("eth0".to_string(), 0, 0);
        let mut current = NetStats::new();
        current.insert("eth0".to_string(), d, 0);
        let interfaces = vec!["eth0".to_string()];
        let row = print_stats(&previous, &current, &interfaces, false);
        let expected = format!("{:>8.2}  {:>8.2}\n", d as f64 / 1024.0, 0.0);
        assert_eq!(row, expected);
    }
}

#[test]
fn header_centering_matches_format_macro() {
    let stats = NetStats::new();
    let interfaces = vec!["abc".to_string(), "this-name-is-far-wider-than-a-field".to_string()];
    let header = print_headers(&interfaces, false, &stats);
    let expected = format!(
        "{:^18}  {:^18}\n{:>8}  {:>8}  {:>8}  {:>8}\n",
        "abc",
        "this-name-is-far-wider-than-a-field",
        "KB/s in",
        "KB/s out",
        "KB/s in",
        "KB/s out"
    );
    assert_eq!(header, expected);
}

#[test]
fn oversized_rate_overflows_its_column_like_float_rendering() {
    let delta: u64 = 1099511627776;
    let mut previous = NetStats::new();
    previous.insert("eth0".to_string(), 0, 0);
    let mut current = NetStats::new();
    current.insert("eth0".to_string(), delta, 0);
    let interfaces = vec!["eth0".to_string()];
    let row = print_stats(&previous, &current, &interfaces, false);
    let expected = format!("{:>8.2}  {:>8.2}\n", delta as f64 / 1024.0, 0.0);
    assert_eq!(row, expected);
}

#[test]
fn parse_accepts_plus_prefixed_counters() {
    let mut lines = vec!["h1".to_string(), "h2".to_string()];
    lines.push("eth0: +15 2 3 4 5 6 7 8 +25".to_string());
    let stats = parse_net_dev_stats(&lines).unwrap();
    assert_eq!(stats.get(&"eth0".to_string()), Some((15, 25)));
}
