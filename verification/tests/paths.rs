use ethserv::derivation::path_is_usable;

#[test]
fn usable_paths() {
    let deepest = format!("m{}", "/1".repeat(255));
    let usable = [
        "m",
        "0",
        "m/0",
        "m/44'/60'/0'/0/5",
        "m/44h/60h/0h/0/5",
        "44'/60'",
        "m/m/1",
        "m/007",
        "m/4294967295",
        "m/2147483647'",
        "m/2147483647h",
        "m/00000000000000000000001",
        deepest.as_str(),
    ];
    for path in usable {
        assert!(path_is_usable(path), "{:?}", path);
    }
}

#[test]
fn paths_that_are_not_usable() {
    let too_deep = format!("m{}", "/1".repeat(256));
    let unusable = [
        "",
        "/",
        "m/",
        "m//1",
        "m/+1",
        "m/-1",
        "m/1 ",
        " m/1",
        "m/x",
        "M/1",
        "m/'",
        "m/h",
        "m/1''",
        "m/1h'",
        "m/'1",
        "m/4294967296",
        "m/99999999999999999999",
        "m/2147483648'",
        "m/2147483648h",
        "m/4294967295'",
        "m/\u{661}",
        "m/1\u{e9}",
        too_deep.as_str(),
    ];
    for path in unusable {
        assert!(!path_is_usable(path), "{:?}", path);
    }
}
