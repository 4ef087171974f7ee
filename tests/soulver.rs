use soulver_zip::{get_number_of_initial_newlines, run_soulver, run_soulver_zipped};

#[test]
fn test_get_number_of_initial_newlines_mix_end() {
    let expected = 3;
    assert_eq!(
        get_number_of_initial_newlines(&["", "# Foo", "// Bar", "1"]),
        expected,
    );
}

#[test]
fn test_get_number_of_initial_newlines_mix_no_end() {
    let expected = 3;
    assert_eq!(
        get_number_of_initial_newlines(&["", "# Foo", "// Bar"]),
        expected,
    );
}

#[test]
fn test_run_soulver_variable() {
    assert_eq!(run_soulver("Foo = 1\nFoo + 2", "1\n3"), "1\n3")
}

#[test]
fn test_run_soulver_newlines() {
    assert_eq!(run_soulver("\n1\n\n2", "1\n\n2"), "\n1\n\n2")
}

#[test]
fn test_run_soulver_headings() {
    assert_eq!(run_soulver("# Foo\n1\n# Bar\n2", "1\n\n2"), "\n1\n\n2")
}

#[test]
fn test_run_soulver_no_end() {
    assert_eq!(run_soulver("\n# Foo\n// Bar\n", ""), "\n\n\n")
}

#[test]
fn test_run_soulver_no_end_only_newlines_1() {
    assert_eq!(run_soulver("\n", ""), "")
}

#[test]
fn test_run_soulver_no_end_only_newlines_2() {
    assert_eq!(run_soulver("\n\n", ""), "")
}

#[test]
fn test_run_soulver_no_end_only_newlines_3() {
    assert_eq!(run_soulver("\n\n\n", ""), "")
}

#[test]
fn test_run_soulver_trailing_newlines_2() {
    assert_eq!(run_soulver("1\n\n", "1"), "1")
}

#[test]
fn test_run_soulver_trailing_newlines_3() {
    assert_eq!(run_soulver("1\n\n\n", "1"), "1")
}

#[test]
fn test_run_soulver_zipped_variable() {
    assert_eq!(
        run_soulver_zipped("Foo = 1\nFoo + 2", "1\n3").unwrap(),
        "Foo = 1 | 1\nFoo + 2 | 3",
    )
}

#[test]
fn test_run_soulver_zipped_newlines() {
    assert_eq!(
        run_soulver_zipped("\n1\n\n2", "1\n\n2").unwrap(),
        "  |\n1 | 1\n  |\n2 | 2"
    )
}

#[test]
fn test_run_soulver_zipped_headings() {
    assert_eq!(
        run_soulver_zipped("# Foo\n1\n# Bar\n2", "1\n\n2").unwrap(),
        "# Foo |\n1     | 1\n# Bar |\n2     | 2",
    )
}

#[test]
fn test_run_soulver_zipped_no_end() {
    assert_eq!(
        run_soulver_zipped("\n# Foo\n// Bar\n", "").unwrap(),
        "       |\n# Foo  |\n// Bar |",
    )
}

#[test]
fn test_run_soulver_zipped_pound_sign() {
    assert_eq!(
        run_soulver_zipped("# Foo\nBar = £1", "£1.00").unwrap(),
        "# Foo    |\nBar = £1 | £1.00",
    )
}

#[test]
fn test_run_soulver_zipped_trailing_newlines_1() {
    assert_eq!(run_soulver_zipped("1\n", "1").unwrap(), "1 | 1")
}

#[test]
fn test_run_soulver_zipped_trailing_newlines_2() {
    assert_eq!(run_soulver_zipped("1\n\n", "1").unwrap(), "1 | 1")
}

#[test]
fn test_run_soulver_zipped_trailing_newlines_3() {
    assert_eq!(run_soulver_zipped("1\n\n\n", "1").unwrap(), "1 | 1")
}
