use vantage::monitor::{Monitor, ProjectKind};
use vantage::report::{
    disk_gigabytes, format_duration, history_line, history_lines, report_line, to_megabytes, usage_bar,
    usage_line,
};

#[test]
fn durations_leave_out_leading_zero_fields() {
    assert_eq!(format_duration(0), "0s");
    assert_eq!(format_duration(59), "59s");
    assert_eq!(format_duration(60), "1m 0s");
    assert_eq!(format_duration(125), "2m 5s");
    assert_eq!(format_duration(3600), "1h 0m 0s");
    assert_eq!(format_duration(3725), "1h 2m 5s");
    assert_eq!(format_duration(90061), "25h 1m 1s");
}

#[test]
fn durations_read_as_signed_counts() {
    assert_eq!(format_duration(u64::MAX), "-1s");
    assert_eq!(format_duration(u64::MAX - 59), "0s");
    assert_eq!(format_duration(u64::MAX - 60), "-1s");
    assert_eq!(format_duration((i64::MAX / 1000) as u64), "2562047788015h 12m 55s");
}

#[test]
fn duration_fields_recompose() {
    let n: u64 = 987654;
    let h = n / 3600;
    let m = (n / 60) % 60;
    let s = n % 60;
    assert_eq!(h * 3600 + m * 60 + s, n);
    assert_eq!(format_duration(n), format!("{}h {}m {}s", h, m, s));
}

#[test]
fn bars_have_twenty_cells() {
    assert_eq!(usage_bar(0), "[....................]");
    assert_eq!(usage_bar(50), "[##########..........]");
    assert_eq!(usage_bar(37), "[#######.............]");
    assert_eq!(usage_bar(100), "[####################]");
    assert_eq!(usage_bar(104), "[####################]");
    for pct in 0..=104 {
        assert_eq!(usage_bar(pct).chars().count(), 22);
    }
}

#[test]
fn report_lines_pad_labels() {
    assert_eq!(report_line("OS:", "Linux"), "OS:             Linux");
    assert_eq!(report_line("A very long label", "v"), "A very long label v");
}

#[test]
fn usage_line_reads_like_the_report() {
    assert_eq!(
        usage_line("Memory:", 25, 2048, 8192, "MB"),
        "Memory:         [#####...............] 25% (2048MB / 8192MB)"
    );
}

#[test]
fn sizes_are_converted_down() {
    assert_eq!(to_megabytes(3 * 1024 * 1024 + 5), 3);
    assert_eq!(to_megabytes(1024 * 1024 - 1), 0);
    let gib: u64 = 1024 * 1024 * 1024;
    assert_eq!(disk_gigabytes(100 * gib + 7, 40 * gib + 3), (60, 100));
}

#[test]
fn size_units_step_by_1024() {
    assert_eq!(Monitor::size_unit_index(0), 0);
    assert_eq!(Monitor::size_unit_index(1023), 0);
    assert_eq!(Monitor::size_unit_index(1024), 1);
    assert_eq!(Monitor::size_unit_index(1024 * 1024 - 1), 1);
    assert_eq!(Monitor::size_unit_index(1024 * 1024), 2);
    assert_eq!(Monitor::size_unit_index(1u64 << 40), 4);
    assert_eq!(Monitor::size_unit_index(u64::MAX), 4);
    assert_eq!(Monitor::unit_name(0), "B");
    assert_eq!(Monitor::unit_name(3), "GB");
    assert_eq!(Monitor::unit_name(4), "TB");
}

#[test]
fn git_branch_from_head() {
    assert_eq!(Monitor::git_info_from_head(Some("ref: refs/heads/main\n")), "\u{e0a0} main");
    assert_eq!(
        Monitor::git_info_from_head(Some("ref: refs/heads/ref: refs/heads/x \n")),
        "\u{e0a0} x"
    );
}

#[test]
fn git_detached_head_shows_seven_characters() {
    assert_eq!(
        Monitor::git_info_from_head(Some("  0123456789abcdef\n")),
        "\u{e0a0} (0123456)"
    );
    assert_eq!(Monitor::git_info_from_head(Some("abc")), "\u{e0a0} (abc)");
}

#[test]
fn git_unknown_head() {
    assert_eq!(Monitor::git_info_from_head(Some(" \n")), "\u{1f4dc} Git Repo");
    assert_eq!(Monitor::git_info_from_head(None), "\u{1f4dc} Git Repo");
}

#[test]
fn projects_are_recognised_in_order() {
    assert!(matches!(Monitor::project_kind(true, true, true, true), ProjectKind::Rust));
    assert!(matches!(Monitor::project_kind(false, true, true, false), ProjectKind::Node));
    assert!(matches!(Monitor::project_kind(false, false, false, true), ProjectKind::Python));
    assert!(matches!(Monitor::project_kind(false, false, false, false), ProjectKind::Other));
}

#[test]
fn context_lines() {
    assert_eq!(
        Monitor::context_line(ProjectKind::Rust, "1.5MB", Some("\u{e0a0} main")).unwrap(),
        "\u{1f980} Rust Project | target: 1.5MB | \u{e0a0} main"
    );
    assert_eq!(
        Monitor::context_line(ProjectKind::Node, "0B", None).unwrap(),
        "\u{1f4e6} Node.js Project | node_modules: 0B"
    );
    assert_eq!(
        Monitor::context_line(ProjectKind::Python, "", Some("g")).unwrap(),
        "\u{1f40d} Python Project | g"
    );
    assert_eq!(Monitor::context_line(ProjectKind::Other, "", Some("g")).unwrap(), "\u{1f4dc} g");
    assert!(Monitor::context_line(ProjectKind::Other, "", None).is_none());
}

#[test]
fn history_reports_each_run() {
    let runs = vec![("cargo build".to_string(), 12345u64), ("ls".to_string(), 7u64)];
    let lines = history_lines(&runs);
    assert_eq!(lines.len(), 3);
    assert_eq!(lines[0], "\x1b[1;36m--- Benchmark History ---\x1b[0m");
    assert_eq!(lines[1], format!("{:<30} 12.345s", "cargo build"));
    assert_eq!(lines[2], format!("{:<30} 0.007s", "ls"));
}

#[test]
fn history_without_runs() {
    let lines = history_lines(&vec![]);
    assert_eq!(lines, vec!["\x1b[1;36m--- Benchmark History ---\x1b[0m", "No bench runs recorded yet."]);
}

#[test]
fn history_line_milliseconds() {
    assert_eq!(history_line("x", 1000), format!("{:<30} 1.000s", "x"));
    assert_eq!(history_line("x", 1050), format!("{:<30} 1.050s", "x"));
    let long = "a".repeat(31);
    assert_eq!(history_line(&long, 999), format!("{} 0.999s", long));
}

#[test]
fn git_blank_or_unreadable_head() {
    assert_eq!(Monitor::git_info_from_head(Some("")), "\u{1f4dc} Git Repo");
    assert_eq!(Monitor::git_info_from_head(Some("\t\u{3000}\n")), "\u{1f4dc} Git Repo");
}
