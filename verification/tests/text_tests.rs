use tsdb::text::{decimal_string, host_of, http_url, join_strings, split_lines};

#[test]
fn decimal_renders_zero_and_large_values() {
    assert_eq!(decimal_string(0), "0");
    assert_eq!(decimal_string(7), "7");
    assert_eq!(decimal_string(3000), "3000");
    assert_eq!(decimal_string(u64::MAX), "18446744073709551615");
}

#[test]
fn host_is_text_before_first_colon() {
    assert_eq!(host_of("localhost:3001"), "localhost");
    assert_eq!(host_of("10.0.0.1:5000:extra"), "10.0.0.1");
    assert_eq!(host_of("nohost"), "nohost");
    assert_eq!(host_of(":5000"), "");
    assert_eq!(host_of(""), "");
}

#[test]
fn http_url_joins_host_and_port() {
    assert_eq!(http_url("localhost", 3000), "http://localhost:3000");
    assert_eq!(http_url("0.0.0.0", 0), "http://0.0.0.0:0");
}

#[test]
fn split_lines_matches_std_lines() {
    let cases = ["", "a", "a\n", "a\r\nb\n", "a\n\nb", "x\r", "\n", "\r\n\r\n", "one\rtwo\nthree"];
    for case in cases {
        let expected: Vec<String> = case.lines().map(|l| l.to_string()).collect();
        assert_eq!(split_lines(case), expected, "input {:?}", case);
    }
}

#[test]
fn join_puts_separator_between_parts() {
    let parts = vec!["a".to_string(), "b".to_string(), "c".to_string()];
    assert_eq!(join_strings(&parts, "\n"), "a\nb\nc");
    assert_eq!(join_strings(&Vec::new(), "\n"), "");
    assert_eq!(join_strings(&vec!["x".to_string()], ", "), "x");
}

#[test]
fn lines_rejoin_to_the_text() {
    let text = "cpu v=1i\nmem v=2i\n\ndisk v=3i";
    assert_eq!(join_strings(&split_lines(text), "\n"), text);
}
