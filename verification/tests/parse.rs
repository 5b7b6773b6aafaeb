use env_plus::{parse_line, Line};

fn entry(key: &str, value: &str) -> Line<String> {
    Line::Entry { key: String::from(key), value: String::from(value) }
}

/// The same reading, made with the string methods of std.
fn with_std(line: &str, comment: &str, delimiter: &str) -> Line<String> {
    if line.trim().starts_with(comment) || line.trim() == "" {
        return Line::Skipped;
    }
    let body = line.split(comment).next().unwrap();
    let parts: Vec<&str> = body.splitn(2, delimiter).collect();
    if parts.len() < 2 {
        return Line::Malformed;
    }
    entry(parts[0], parts[1])
}

#[test]
fn a_plain_entry() {
    assert_eq!(parse_line("SECRET=VALUE", "//", "="), entry("SECRET", "VALUE"));
    assert_eq!(
        parse_line("SUPER_SECRET=I_ate_the_chocolate", "//", "="),
        entry("SUPER_SECRET", "I_ate_the_chocolate")
    );
}

#[test]
fn the_first_delimiter_splits() {
    assert_eq!(parse_line("A=B=C", "//", "="), entry("A", "B=C"));
    assert_eq!(parse_line("SECRET===YOUR_SECRET", "//", "==="), entry("SECRET", "YOUR_SECRET"));
    assert_eq!(parse_line("A====B", "//", "==="), entry("A", "=B"));
    assert_eq!(parse_line("A==B", "//", "="), entry("A", "=B"));
    assert_eq!(parse_line("a||b||c", "@", "||"), entry("a", "b||c"));
}

#[test]
fn nothing_is_trimmed_from_key_or_value() {
    assert_eq!(parse_line("  KEY = some value  ", "//", "="), entry("  KEY ", " some value  "));
    assert_eq!(parse_line("\tK=V\t", "//", "="), entry("\tK", "V\t"));
    assert_eq!(parse_line("K=\"quoted\"", "//", "="), entry("K", "\"quoted\""));
    assert_eq!(parse_line("K=a\\nb", "//", "="), entry("K", "a\\nb"));
}

#[test]
fn a_trailing_comment_is_cut_off() {
    assert_eq!(
        parse_line("OTHER=1 // trailing # not this marker", "//", "="),
        entry("OTHER", "1 ")
    );
    assert_eq!(parse_line("K=V//c//d", "//", "="), entry("K", "V"));
    assert_eq!(parse_line("K=V#c", "#", "="), entry("K", "V"));
    assert_eq!(parse_line("K=V # c", "//", "="), entry("K", "V # c"));
}

#[test]
fn empty_key_and_empty_value_are_entries() {
    assert_eq!(parse_line("=value", "//", "="), entry("", "value"));
    assert_eq!(parse_line("KEY=", "//", "="), entry("KEY", ""));
    assert_eq!(parse_line("=", "//", "="), entry("", ""));
    assert_eq!(parse_line("KEY=//gone", "//", "="), entry("KEY", ""));
}

#[test]
fn blank_lines_are_skipped() {
    assert_eq!(parse_line("", "//", "="), Line::Skipped);
    assert_eq!(parse_line("   ", "//", "="), Line::Skipped);
    assert_eq!(parse_line("\t \r", "//", "="), Line::Skipped);
    assert_eq!(parse_line("\u{A0}\u{3000}", "//", "="), Line::Skipped);
}

#[test]
fn comment_lines_are_skipped() {
    assert_eq!(parse_line("// comment", "//", "="), Line::Skipped);
    assert_eq!(parse_line("   // comment", "//", "="), Line::Skipped);
    assert_eq!(parse_line("//", "//", "="), Line::Skipped);
    assert_eq!(parse_line("// A=B", "//", "="), Line::Skipped);
    assert_eq!(parse_line("--This is now a comment", "--", "="), Line::Skipped);
    assert_eq!(parse_line("@ I really love my comment design.", "@", "||"), Line::Skipped);
    assert_eq!(parse_line("# x", "#", "--"), Line::Skipped);
}

#[test]
fn a_line_without_delimiter_is_malformed() {
    assert_eq!(parse_line("JUST_A_KEY", "//", "="), Line::Malformed);
    assert_eq!(parse_line("A:B", "//", "="), Line::Malformed);
    assert_eq!(parse_line("A=B", "//", "=="), Line::Malformed);
    assert_eq!(parse_line("/ not a comment", "//", "="), Line::Malformed);
}

#[test]
fn a_delimiter_inside_the_comment_does_not_count() {
    assert_eq!(parse_line("KEY // A=B", "//", "="), Line::Malformed);
    assert_eq!(parse_line("KEY#=", "#", "="), Line::Malformed);
}

#[test]
fn a_marker_that_starts_with_white_space() {
    assert_eq!(parse_line(" #x=1", " #", "="), Line::Malformed);
    assert_eq!(parse_line("a=1 #x", " #", "="), entry("a", "1"));
    assert_eq!(parse_line("#a=1", " #", "="), entry("#a", "1"));
}

#[test]
fn the_delimiter_may_hold_the_marker() {
    assert_eq!(parse_line("a=//b", "//", "=//"), Line::Malformed);
    assert_eq!(parse_line("a//=b", "//=", "//"), Line::Malformed);
    assert_eq!(parse_line("a//b//=c", "//=", "//"), entry("a", "b"));
}

#[test]
fn an_empty_marker_skips_every_line() {
    assert_eq!(parse_line("A=B", "", "="), Line::Skipped);
    assert_eq!(parse_line("no delimiter", "", "="), Line::Skipped);
    assert_eq!(parse_line("", "", "="), Line::Skipped);
}

#[test]
fn an_empty_delimiter_gives_an_empty_key() {
    assert_eq!(parse_line("A=B", "//", ""), entry("", "A=B"));
    assert_eq!(parse_line(" x // y", "//", ""), entry("", " x "));
}

#[test]
fn characters_outside_ascii() {
    assert_eq!(parse_line("clé→valeur € ※ note", "※", "→"), entry("clé", "valeur € "));
    assert_eq!(parse_line("😀=😀😀", "//", "="), entry("😀", "😀😀"));
    assert_eq!(parse_line("\u{3000}※", "※", "="), Line::Skipped);
}

#[test]
fn parse_line_agrees_with_std() {
    let lines = [
        "",
        " ",
        "A=B",
        " A = B ",
        "A",
        "=",
        "==",
        "A==B",
        "A=B=C",
        "// c",
        "  // c",
        "A=B // c",
        "A // =B",
        "A=B # c // d",
        "#",
        "# A=B",
        "A--B",
        "A--B--C#x",
        "-- A",
        "a||b",
        "@x",
        "x@y=z",
        "/=/",
        "/ /=",
        "é=€ // ü",
        "\u{A0}//x",
        "\tK\t=\tV\t",
        "a=//b",
        "a//=b",
        " #x=1",
        "K=V\r",
    ];
    let comments = ["//", "#", "--", "@", "/", " #", "//=", "=", ""];
    let delimiters = ["=", "==", "--", "||", "/", "=//", " ", ""];
    for line in lines {
        for comment in comments {
            for delimiter in delimiters {
                assert_eq!(
                    parse_line(line, comment, delimiter),
                    with_std(line, comment, delimiter),
                    "line {:?}, comment {:?}, delimiter {:?}",
                    line,
                    comment,
                    delimiter
                );
            }
        }
    }
}
