//! Round-trip tests of the sealed persisted blob.

use royalguard::crypt::{open_blob, seal_blob, seal_new_blob, unframe};

#[test]
fn seal_then_open_returns_the_plaintext() {
    let plaintext = b"[{\"name\":\"gmail\"}]".to_vec();
    let blob = seal_new_blob("hunter2", &plaintext).expect("seal failed");
    assert_ne!(blob, plaintext);
    let opened = open_blob("hunter2", &blob).expect("open failed");
    assert_eq!(opened, plaintext);
}

#[test]
fn wrong_password_does_not_open() {
    let blob = seal_new_blob("hunter2", &b"secret".to_vec()).expect("seal failed");
    assert!(open_blob("hunter3", &blob).is_none());
}

#[test]
fn the_frame_holds_salt_then_nonce() {
    let blob = seal_new_blob("pw", &b"x".to_vec()).expect("seal failed");
    let (salt, nonce, _) = unframe(&blob).expect("unframe failed");
    assert_eq!(salt.len(), 16);
    assert_eq!(nonce.len(), 12);
    // sealing again under the same header keeps the header
    let blob2 = seal_blob("pw", &salt, &nonce, &b"another payload".to_vec()).expect("seal failed");
    let (salt2, nonce2, _) = unframe(&blob2).expect("unframe failed");
    assert_eq!(salt2, salt);
    assert_eq!(nonce2, nonce);
    assert_eq!(open_blob("pw", &blob2).expect("open failed"), b"another payload".to_vec());
}

#[test]
fn a_short_blob_does_not_open() {
    assert!(open_blob("pw", &[0u8; 27]).is_none());
    assert!(unframe(&[0u8; 10]).is_none());
}

#[test]
fn a_corrupted_blob_does_not_open() {
    let mut blob = seal_new_blob("pw", &b"payload".to_vec()).expect("seal failed");
    let last = blob.len() - 1;
    blob[last] ^= 1;
    assert!(open_blob("pw", &blob).is_none());
}
