use leveldbcat::cli::{LaunchMode, cli_report_lines, parse_launch_mode};
use leveldbcat::reader::Entry;

fn args(list: &[&str]) -> Vec<String> {
    list.iter().map(|s| s.to_string()).collect()
}

#[test]
fn launch_modes() {
    assert_eq!(parse_launch_mode(&args(&[])), Ok(LaunchMode::Gui(None)));
    assert_eq!(parse_launch_mode(&args(&["--gui"])), Ok(LaunchMode::Gui(None)));
    assert_eq!(parse_launch_mode(&args(&["--gui", "C:\\x"])), Ok(LaunchMode::Gui(Some(1))));
    assert_eq!(parse_launch_mode(&args(&["--cli", "db"])), Ok(LaunchMode::Cli(1)));
    assert_eq!(
        parse_launch_mode(&args(&["--cli"])),
        Err("Missing path after --cli".to_string())
    );
    assert_eq!(parse_launch_mode(&args(&["db", "--gui"])), Ok(LaunchMode::Cli(0)));
}

#[test]
fn report_lists_first_entries() {
    let entries: Vec<Entry> = (0..7u8)
        .map(|i| Entry { key_bytes: vec![b'a' + i], value_bytes: vec![i] })
        .collect();
    let lines = cli_report_lines(&entries, "/db");
    assert_eq!(
        lines,
        vec![
            "Loaded 7 entries from /db",
            "[1] key=b'a' value=b'\\x00'",
            "[2] key=b'b' value=b'\\x01'",
            "[3] key=b'c' value=b'\\x02'",
            "[4] key=b'd' value=b'\\x03'",
            "[5] key=b'e' value=b'\\x04'",
            "... 2 more entries omitted",
        ]
    );
}

#[test]
fn report_for_few_entries() {
    let entries = vec![Entry { key_bytes: b"k".to_vec(), value_bytes: b"v".to_vec() }];
    assert_eq!(
        cli_report_lines(&entries, "x"),
        vec!["Loaded 1 entries from x", "[1] key=b'k' value=b'v'"]
    );
    assert_eq!(cli_report_lines(&[], "x"), vec!["Loaded 0 entries from x"]);
}
