use jd_helper::identity::{hashed_id, make_id, IdentitySource};

#[test]
fn an_inode_identity_names_device_and_file() {
    assert_eq!(make_id(&IdentitySource::Inode { dev: 66306, ino: 1234567 }), "ino:66306:1234567");
    assert_eq!(make_id(&IdentitySource::Inode { dev: 0, ino: 0 }), "ino:0:0");
    assert_eq!(make_id(&IdentitySource::Inode { dev: 9, ino: 10 }), "ino:9:10");
    assert_eq!(
        make_id(&IdentitySource::Inode { dev: u64::MAX, ino: 100 }),
        "ino:18446744073709551615:100"
    );
}

#[test]
fn a_path_identity_is_the_digest_of_the_path() {
    assert_eq!(
        make_id(&IdentitySource::CanonicalPath("hello world".to_string())),
        "sha1:2aae6c35c94fcfb415dbe95f408b9ce91ee846ed"
    );
    assert_eq!(
        make_id(&IdentitySource::CanonicalPath(String::new())),
        "sha1:da39a3ee5e6b4b0d3255bfef95601890afd80709"
    );
    assert_eq!(hashed_id("abc"), "sha1:abc");
}

#[test]
fn equal_sources_give_equal_ids() {
    let a = IdentitySource::CanonicalPath("/r/30_Topic".to_string());
    assert_eq!(make_id(&a), make_id(&a.clone()));
    assert_ne!(make_id(&a), make_id(&IdentitySource::CanonicalPath("/r/31_Topic".to_string())));
}
