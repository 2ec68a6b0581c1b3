use cargo_upgrade_command::build_outdated;
use cargo_upgrade_command::parse_search_response;
use cargo_upgrade_command::resolve_package;
use cargo_upgrade_command::Package;
use cargo_upgrade_command::ResolveError;

fn package(name: &[u8], version: &[u8]) -> Package {
    Package { name: name.to_vec(), version: version.to_vec(), new_version: None }
}

#[test]
fn matching_response_yields_version() {
    let r = parse_search_response(b"foo", b"foo = \"1.3.0\"    # some description\n");
    assert_eq!(r, Ok(Some(b"1.3.0".to_vec())));
}

#[test]
fn mismatched_response_yields_no_match() {
    let r = parse_search_response(b"foo", b"foobar = \"1.3.0\"\n");
    assert_eq!(r, Ok(None));
    let r = parse_search_response(b"foo", b"");
    assert_eq!(r, Ok(None));
    let r = parse_search_response(b"foo", b"error: nothing found\n");
    assert_eq!(r, Ok(None));
}

#[test]
fn missing_closing_quote_is_an_error() {
    let r = parse_search_response(b"foo", b"foo = \"1.3.0");
    assert_eq!(r, Err(ResolveError::MissingClosingQuote));
}

#[test]
fn differing_version_marks_package_outdated() {
    let p = package(b"foo", b"1.2.3");
    let r = resolve_package(&p, b"foo = \"1.3.0\"\n").unwrap();
    let enriched = r.expect("foo must be outdated");
    assert_eq!(enriched.name, b"foo".to_vec());
    assert_eq!(enriched.version, b"1.2.3".to_vec());
    assert_eq!(enriched.new_version, Some(b"1.3.0".to_vec()));
}

#[test]
fn equal_version_is_not_outdated() {
    let p = package(b"foo", b"1.2.3");
    let r = resolve_package(&p, b"foo = \"1.2.3\"\n").unwrap();
    assert!(r.is_none());
}

#[test]
fn unmatched_package_never_enters_outdated_set() {
    let p = package(b"foo", b"0.0.1");
    let r = resolve_package(&p, b"something else entirely").unwrap();
    assert!(r.is_none());
    let packages = vec![package(b"foo", b"0.0.1")];
    let responses = vec![b"no match here".to_vec()];
    let out = build_outdated(&packages, &responses).unwrap();
    assert_eq!(out.len(), 0);
}

#[test]
fn end_to_end_outdated_set() {
    let packages = vec![package(b"a", b"1.0.0"), package(b"b", b"2.0.0")];
    let responses = vec![b"a = \"1.0.0\"\n".to_vec(), b"b = \"2.1.0\"\n".to_vec()];
    let out = build_outdated(&packages, &responses).unwrap();
    assert_eq!(out.len(), 1);
    assert_eq!(out[0].name, b"b".to_vec());
    assert_eq!(out[0].version, b"2.0.0".to_vec());
    assert_eq!(out[0].new_version, Some(b"2.1.0".to_vec()));
}

#[test]
fn outdated_set_keeps_inventory_order() {
    let packages = vec![
        package(b"a", b"1.0.0"),
        package(b"b", b"2.0.0"),
        package(b"c", b"3.0.0"),
    ];
    let responses = vec![
        b"a = \"1.1.0\"\n".to_vec(),
        b"b = \"2.0.0\"\n".to_vec(),
        b"c = \"3.5.0\"\n".to_vec(),
    ];
    let out = build_outdated(&packages, &responses).unwrap();
    assert_eq!(out.len(), 2);
    assert_eq!(out[0].name, b"a".to_vec());
    assert_eq!(out[1].name, b"c".to_vec());
}

#[test]
fn first_malformed_response_aborts_diff() {
    let packages = vec![package(b"a", b"1.0.0"), package(b"b", b"2.0.0")];
    let responses = vec![b"a = \"1.1.0".to_vec(), b"b = \"2.1.0\"\n".to_vec()];
    let out = build_outdated(&packages, &responses);
    assert_eq!(out.unwrap_err(), ResolveError::MissingClosingQuote);
}
