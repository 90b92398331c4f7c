use leveldbcat::highlight::{
    HighlightMode, HighlightRun, JsonHighlightColors, build_runs_for_line, json_runs_for_line,
};

const COLORS: JsonHighlightColors = JsonHighlightColors {
    default: 1,
    key: 2,
    string: 3,
    number: 4,
    keyword: 5,
    punctuation: 6,
};

fn runs(pairs: &[(usize, u32)]) -> Vec<HighlightRun> {
    pairs.iter().map(|&(len, color)| HighlightRun { len, color }).collect()
}

#[test]
fn colours_object_member() {
    assert_eq!(
        json_runs_for_line("  \"key\": \"value\",", &COLORS),
        runs(&[(2, 1), (5, 2), (1, 6), (1, 1), (7, 3), (1, 6)])
    );
}

#[test]
fn colours_numbers_and_keywords() {
    assert_eq!(
        json_runs_for_line("[-1.5e3, true, false, null]", &COLORS),
        runs(&[(1, 6), (6, 4), (1, 6), (1, 1), (4, 5), (1, 6), (1, 1), (5, 5), (1, 6), (1, 1), (4, 5), (1, 6)])
    );
}

#[test]
fn merges_neighbouring_runs_of_one_colour() {
    assert_eq!(json_runs_for_line("{}", &COLORS), runs(&[(2, 6)]));
    assert_eq!(json_runs_for_line("truex", &COLORS), runs(&[(4, 5), (1, 1)]));
}

#[test]
fn escaped_quote_stays_in_string() {
    assert_eq!(
        json_runs_for_line("\"a\\\"b\" : 1", &COLORS),
        runs(&[(6, 2), (1, 1), (1, 6), (1, 1), (1, 4)])
    );
}

#[test]
fn unterminated_string_runs_to_end() {
    assert_eq!(json_runs_for_line("\"abc", &COLORS), runs(&[(4, 3)]));
    assert_eq!(json_runs_for_line("\"ab\\", &COLORS), runs(&[(4, 3)]));
}

#[test]
fn counts_utf8_bytes() {
    assert_eq!(json_runs_for_line("\"é\"", &COLORS), runs(&[(4, 3)]));
    assert_eq!(json_runs_for_line("日本", &COLORS), runs(&[(6, 1)]));
}

#[test]
fn empty_line_has_one_empty_run() {
    assert_eq!(json_runs_for_line("", &COLORS), runs(&[(0, 1)]));
}

#[test]
fn unicode_whitespace_is_whitespace() {
    assert_eq!(json_runs_for_line("\u{3000}1", &COLORS), runs(&[(3, 1), (1, 4)]));
}

#[test]
fn plain_mode_is_one_run() {
    assert_eq!(
        build_runs_for_line("{\"a\": 1}", 9, HighlightMode::Plain),
        runs(&[(8, 9)])
    );
    assert_eq!(
        build_runs_for_line("{}", 9, HighlightMode::Json(COLORS)),
        runs(&[(2, 6)])
    );
}

#[test]
fn runs_cover_the_line_and_differ_in_colour() {
    let line = "  \"ключ\": [1, \"x\\\"y\", null, {}],";
    let result = json_runs_for_line(line, &COLORS);
    assert_eq!(result.iter().map(|r| r.len).sum::<usize>(), line.len());
    assert!(result.iter().all(|r| r.len > 0));
    assert!(result.windows(2).all(|w| w[0].color != w[1].color));
}
