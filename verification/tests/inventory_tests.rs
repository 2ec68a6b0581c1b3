use cargo_upgrade_command::parse_installed_packages;

#[test]
fn empty_text_yields_no_records() {
    let r = parse_installed_packages(b"");
    assert_eq!(r.len(), 0);
}

#[test]
fn one_well_formed_line_among_noise() {
    let text = b"foo v1.2.3:\n    foo-bin\nwarning: something\nnot a package line\n";
    let r = parse_installed_packages(text);
    assert_eq!(r.len(), 1);
    assert_eq!(r[0].name, b"foo".to_vec());
    assert_eq!(r[0].version, b"1.2.3".to_vec());
    assert!(r[0].new_version.is_none());
}

#[test]
fn parsing_twice_is_identical_and_order_preserving() {
    let text = b"alpha v1.0.0:\n    alpha\nbeta v2.3.4:\n    beta-cli\ngamma v0.1.0:\n";
    let first = parse_installed_packages(text);
    let second = parse_installed_packages(text);
    assert_eq!(first.len(), 3);
    assert_eq!(first.len(), second.len());
    for (a, b) in first.iter().zip(second.iter()) {
        assert_eq!(a.name, b.name);
        assert_eq!(a.version, b.version);
        assert_eq!(a.new_version, b.new_version);
    }
    assert_eq!(first[0].name, b"alpha".to_vec());
    assert_eq!(first[1].name, b"beta".to_vec());
    assert_eq!(first[2].name, b"gamma".to_vec());
}

#[test]
fn malformed_lines_are_skipped() {
    // No colon, no space, remainder without the version prefix, empty name,
    // and a double space putting a blank before the version prefix.
    let text = b"foo v1.2.3\nbar:\nbaz 1.2.3:\n qux v1.0.0:\nquux  v1.0.0:\n";
    let r = parse_installed_packages(text);
    assert_eq!(r.len(), 0);
}

#[test]
fn carriage_returns_are_stripped() {
    let text = b"foo v1.2.3:\r\nbar v2.0.0:\r\n";
    let r = parse_installed_packages(text);
    assert_eq!(r.len(), 2);
    assert_eq!(r[0].name, b"foo".to_vec());
    assert_eq!(r[0].version, b"1.2.3".to_vec());
    assert_eq!(r[1].name, b"bar".to_vec());
    assert_eq!(r[1].version, b"2.0.0".to_vec());
}

#[test]
fn last_line_without_newline_counts() {
    let r = parse_installed_packages(b"foo v1.2.3:");
    assert_eq!(r.len(), 1);
    assert_eq!(r[0].name, b"foo".to_vec());
    assert_eq!(r[0].version, b"1.2.3".to_vec());
}

#[test]
fn empty_version_token_is_kept() {
    let r = parse_installed_packages(b"foo v:\n");
    assert_eq!(r.len(), 1);
    assert_eq!(r[0].version, b"".to_vec());
}
