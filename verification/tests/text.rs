use life::util::naive_dedent;

#[test]
fn dedent_removes_leading_spaces_of_every_line() {
    assert_eq!(naive_dedent("FPS: 60\n    Zoom: 1\n        Alive: 3"), "FPS: 60\nZoom: 1\nAlive: 3\n");
}

#[test]
fn dedent_ends_every_line_with_a_newline() {
    assert_eq!(naive_dedent(""), "\n");
    assert_eq!(naive_dedent("a"), "a\n");
    assert_eq!(naive_dedent("a\n"), "a\n\n");
    assert_eq!(naive_dedent("\n\n"), "\n\n\n");
}

#[test]
fn dedent_keeps_inner_spaces_and_tabs() {
    assert_eq!(naive_dedent("  a  b \n\t c"), "a  b \n\t c\n");
    assert_eq!(naive_dedent("   \n x"), "\nx\n");
}

#[test]
fn dedent_keeps_other_characters() {
    assert_eq!(naive_dedent("  héllo wörld\n  ünïcode"), "héllo wörld\nünïcode\n");
}

#[test]
fn dedented_lines_start_without_space() {
    let out = naive_dedent("  x\n \n    y  z\n  ");
    assert!(out.ends_with('\n'));
    for line in out.split('\n') {
        assert!(!line.starts_with(' '));
    }
}
