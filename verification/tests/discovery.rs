use coreutils_wrapper::discovery::list_supported_names;
use coreutils_wrapper::discovery::DiscoveryError;

fn names(list: &[&str]) -> Vec<Vec<u8>> {
    list.iter().map(|s| s.as_bytes().to_vec()).collect()
}

#[test]
fn banner_yields_trimmed_tokens_in_order() {
    let banner = b"coreutils multi-call binary\nCurrently defined functions\n[, a, b, c, yes]\n";
    let got = list_supported_names(banner).unwrap();
    assert_eq!(got, names(&["a", "b", "c", "yes"]));
}

#[test]
fn duplicates_are_preserved() {
    let banner = b"Currently defined functions\n[, b, a, a, yes]";
    let got = list_supported_names(banner).unwrap();
    assert_eq!(got, names(&["b", "a", "a", "yes"]));
}

#[test]
fn tokens_are_trimmed_of_tabs_and_newlines() {
    let banner = b"Currently defined functions:\r\n[, \tarch ,\n base64 , yes]";
    let got = list_supported_names(banner).unwrap();
    assert_eq!(got, names(&["arch", "base64", "yes"]));
}

#[test]
fn empty_tokens_are_mirrored_verbatim() {
    let banner = b"Currently defined functions\n[, , yes";
    let got = list_supported_names(banner).unwrap();
    assert_eq!(got, names(&["", "yes"]));
}

#[test]
fn missing_marker_is_marker_not_found() {
    let banner = b"some banner without the phrase\n[, a, b, yes]";
    assert_eq!(list_supported_names(banner), Err(DiscoveryError::MarkerNotFound));
}

#[test]
fn missing_list_start_is_malformed_list() {
    let banner = b"Currently defined functions\n a, b, yes";
    assert_eq!(list_supported_names(banner), Err(DiscoveryError::MalformedList));
}

#[test]
fn missing_terminal_is_malformed_list() {
    let banner = b"Currently defined functions\n[, a, b, c";
    assert_eq!(list_supported_names(banner), Err(DiscoveryError::MalformedList));
}

#[test]
fn list_start_before_marker_is_ignored() {
    let banner = b"[, x, yes] Currently defined functions\n[, a, yes]";
    let got = list_supported_names(banner).unwrap();
    assert_eq!(got, names(&["a", "yes"]));
}

#[test]
fn terminal_before_list_start_is_not_a_boundary() {
    let banner = b"Currently defined functions yes\n[, a, yes]";
    let got = list_supported_names(banner).unwrap();
    assert_eq!(got, names(&["a", "yes"]));
}

#[test]
fn empty_banner_is_marker_not_found() {
    assert_eq!(list_supported_names(b""), Err(DiscoveryError::MarkerNotFound));
}

#[test]
fn non_utf8_output_is_invalid_encoding() {
    let mut banner = b"Currently defined functions\n[, a, yes]".to_vec();
    banner.push(0xFF);
    assert_eq!(list_supported_names(&banner), Err(DiscoveryError::InvalidEncoding));
}

#[test]
fn tokens_are_trimmed_of_vertical_tab_and_form_feed() {
    let banner = b"Currently defined functions\n[, \x0Barch\x0C, yes]";
    let got = list_supported_names(banner).unwrap();
    assert_eq!(got, names(&["arch", "yes"]));
}
