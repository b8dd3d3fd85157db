use catdesk::ids::{generate_mcp_slug, mcp_slug_from_bytes};

#[test]
fn slug_is_url_safe_base64_of_the_first_twelve_bytes() {
    assert_eq!(mcp_slug_from_bytes(b"hello world!extra"), "aGVsbG8gd29ybGQh");
    assert_eq!(mcp_slug_from_bytes(&[0xfb, 0xff, 0xfe, 0, 0, 0, 0, 0, 0, 0, 0, 0]), "-__-AAAAAAAAAAAA");
}

#[test]
fn generated_slug_carries_the_uuid_version_bits() {
    let s = generate_mcp_slug();
    assert_eq!(s.len(), 16);
    let c = s.as_bytes()[8];
    assert!((b'Q'..=b'T').contains(&c));
    assert_ne!(s, generate_mcp_slug());
}
