use bubble_bridge::headers::{client_info_is_mac, mobileme_authorization};

#[test]
fn client_info_platform() {
    assert!(client_info_is_mac("<MacBookPro18,3> <macOS;13.4.1;22F82> <com.apple.AuthKit/1>"));
    assert!(!client_info_is_mac("<iPhone13,2> <iPhone OS;14.5;18E199> <com.apple.AuthKit/1>"));
}

#[test]
fn mobileme_auth_header() {
    assert_eq!(mobileme_authorization("123", "tok"), "X-MobileMe-AuthToken MTIzOnRvaw==");
}

#[test]
fn mobileme_auth_header_paddings() {
    assert_eq!(mobileme_authorization("1", "ab"), "X-MobileMe-AuthToken MTphYg==");
    assert_eq!(mobileme_authorization("a", "bcd"), "X-MobileMe-AuthToken YTpiY2Q=");
    assert_eq!(mobileme_authorization("ab", "cd+/?~"), "X-MobileMe-AuthToken YWI6Y2QrLz9+");
}
