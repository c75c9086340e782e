use riskcore::input::{is_whitespace, nonblank_lines, trimmed};

fn lines_of(text: &str) -> Vec<(usize, String)> {
    let chars: Vec<char> = text.chars().collect();
    nonblank_lines(&chars)
        .into_iter()
        .map(|line| (line.number, line.text.into_iter().collect()))
        .collect()
}

fn std_lines_of(text: &str) -> Vec<(usize, String)> {
    text.lines()
        .enumerate()
        .filter(|(_, line)| !line.trim().is_empty())
        .map(|(index, line)| (index + 1, line.trim().to_string()))
        .collect()
}

#[test]
fn blank_lines_are_skipped_and_numbering_kept() {
    assert_eq!(
        lines_of("0.01\n\n -0.02 \r\n0.03"),
        vec![(1, "0.01".to_string()), (3, "-0.02".to_string()), (4, "0.03".to_string())]
    );
    assert_eq!(lines_of(""), vec![]);
    assert_eq!(lines_of("\n\n  \n"), vec![]);
    assert_eq!(lines_of("0.5\n"), vec![(1, "0.5".to_string())]);
}

#[test]
fn lines_match_std_lines_and_trim() {
    let samples = [
        "",
        "\n",
        "a",
        "a\n",
        "a\nb",
        "a\r\nb\r\n",
        "\r",
        "x\r",
        "  1.5 , 2\n\t\n3\u{a0}\n\u{3000}4\u{2029}",
        "a\rb\n\n\nc",
        "\u{85}\u{1680}\u{200a}\u{202f}\u{205f}",
    ];
    for text in samples {
        assert_eq!(lines_of(text), std_lines_of(text), "{text:?}");
    }
}

#[test]
fn whitespace_matches_std() {
    for code in 0u32..0x3100 {
        if let Some(c) = char::from_u32(code) {
            assert_eq!(is_whitespace(c), c.is_whitespace(), "{code:#x}");
        }
    }
}

#[test]
fn trimming_matches_std() {
    for text in ["", " ", " a ", "\t\u{a0}b c\u{3000}", "d"] {
        let chars: Vec<char> = text.chars().collect();
        let out: String = trimmed(&chars).into_iter().collect();
        assert_eq!(out, text.trim());
    }
}

#[test]
fn single_field_lines_have_no_comma() {
    let chars: Vec<char> = "0.1\n0.2,0.3\n0.4,".chars().collect();
    let lines = nonblank_lines(&chars);
    let single: Vec<bool> = lines.iter().map(|line| line.is_single_field()).collect();
    assert_eq!(single, vec![true, false, false]);
}
