use kraven::mask::mask_value;

#[test]
fn test_mask_empty() {
    assert_eq!(mask_value(""), "");
}

#[test]
fn test_mask_short() {
    assert_eq!(mask_value("ab"), "**");
    assert_eq!(mask_value("abcd"), "****");
}

#[test]
fn test_mask_long() {
    assert_eq!(mask_value("abcdef"), "ab**ef");
    assert_eq!(mask_value("secretkey123"), "se********23");
}

#[test]
fn test_mask_unicode() {
    // This would panic with byte indexing
    assert_eq!(mask_value("cafén"), "ca*én");
    // "🔑secret🔒" is 8 chars: 🔑 s e c r e t 🔒
    // First 2: 🔑 s, Last 2: t 🔒, Middle 4: ****
    assert_eq!(mask_value("🔑secret🔒"), "🔑s****t🔒");
}
