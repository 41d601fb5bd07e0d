use hope::dep_info::DepInfo;
use hope::dep_info::rewrite_dep_info;
use hope::Error;

#[test]
fn parse_dep_info_file() {
    let dep_info = r#"
            # Some comments
            /something/target/debug/deps/something-152c1f4ab9b42169: src/main.rs

            /something/target/debug/deps/something-152c1f4ab9b42169.d: src/main.rs

            src/main.rs:
        "#;
    let dep_info = DepInfo::parse(dep_info).unwrap();
    assert_eq!(
        dep_info.get("/something/target/debug/deps/something-152c1f4ab9b42169"),
        Some(&vec!["src/main.rs".to_string()])
    );
    // Shouldn't have put any deps for the file with no deps.
    assert!(dep_info.get("src/main.rs").unwrap().is_empty())
}

#[test]
fn parse_rejects_data_line_without_colon() {
    let r = DepInfo::parse("not a data line at all");
    assert!(matches!(r, Err(Error::MissingColon)));
}

#[test]
fn parse_keeps_last_entry_for_duplicate_target() {
    let d = DepInfo::parse("a: one\na: two\n").unwrap();
    assert_eq!(d.get("a"), Some(&vec!["two".to_string()]));
}

#[test]
fn rewrite_drops_build_dir_references() {
    let input = "# comment\n\
                 /ws/target/debug/build/foo-abc/out/gen.rs: src/lib.rs\n\
                 /store/libfoo.rlib: src/lib.rs /ws/target/debug/build/foo-abc/out/gen.rs /reg/src/x.rs\n";
    let out = rewrite_dep_info(input).unwrap();
    assert_eq!(out, "# comment\n/store/libfoo.rlib: src/lib.rs /reg/src/x.rs\n");
}

#[test]
fn rewrite_keeps_comment_and_empty_lines_verbatim() {
    let input = "# one\n\nt: a b\n";
    let out = rewrite_dep_info(input).unwrap();
    assert_eq!(out, "# one\n\nt: a b\n");
}

#[test]
fn rewrite_is_idempotent_on_concrete_input() {
    let input = "# c\n/t/build/x: s\nkeep: a /q/build/z b\n\nplain:\n";
    let once = rewrite_dep_info(input).unwrap();
    let twice = rewrite_dep_info(&once).unwrap();
    assert_eq!(once, twice);
    assert_eq!(once, "# c\nkeep: a b\n\nplain:\n");
}

#[test]
fn rewrite_trims_each_line_before_inspecting_it() {
    // An indented comment stays a comment, a whitespace-only line stays
    // empty, and a trailing carriage return is stripped — none of them
    // turns into a data line.
    let input = "   # note\n \t \nt: a\r\n  u: b\n";
    let out = rewrite_dep_info(input).unwrap();
    assert_eq!(out, "# note\n\nt: a\nu: b\n");
}

#[test]
fn rewrite_rejects_data_line_without_colon() {
    let r = rewrite_dep_info("bad line without separator\n");
    assert!(matches!(r, Err(Error::MissingColon)));
}

#[test]
fn rewrite_of_empty_input_is_empty() {
    assert_eq!(rewrite_dep_info("").unwrap(), "");
}
