use local_bite::products::images::{image_relative_path, ImageService};
use local_bite::products::qr::{
    hash_str, hex_string, media_path, qr_file, qr_path_changed, trace_target_url, uuid_string, QrService,
};
use std::hash::{DefaultHasher, Hash, Hasher};
use std::path::Path;
use uuid::Uuid;

#[test]
fn uuids_and_hex_print_as_std_does() {
    for _ in 0..20 {
        let id = Uuid::new_v4();
        assert_eq!(uuid_string(id.as_u128()), id.to_string());
    }
    assert_eq!(uuid_string(0), "00000000-0000-0000-0000-000000000000");
    for n in [0u64, 1, 9, 10, 15, 16, 255, 0xdead_beef, u64::MAX] {
        assert_eq!(hex_string(n), format!("{:x}", n));
    }
}

#[test]
fn qr_url_and_file_name() {
    let token = Uuid::new_v4();
    assert_eq!(trace_target_url(None, token.as_u128()), format!("http://localhost/trace/{}", token));
    assert_eq!(trace_target_url(Some("   "), token.as_u128()), format!("http://localhost/trace/{}", token));
    assert_eq!(
        trace_target_url(Some("https://localbite.rs/trace//"), token.as_u128()),
        format!("https://localbite.rs/trace/{}", token)
    );
    let url = trace_target_url(Some("https://localbite.rs/trace"), token.as_u128());
    let mut h = DefaultHasher::new();
    url.hash(&mut h);
    let expected_hash = h.finish();
    assert_eq!(hash_str(&url), expected_hash);
    assert_eq!(qr_file(&url, token.as_u128()), format!("qr/{}-{:x}.png", token, expected_hash));
}

#[test]
fn media_paths_join_as_paths_do() {
    for (dir, rel) in [
        ("uploads", "qr/a.png"),
        ("uploads/", "images/b.jpg"),
        ("", "images/b.jpg"),
        ("/srv/uploads", "/etc/passwd"),
        ("/srv/uploads", "qr/x.png"),
    ] {
        let expected = Path::new(dir).join(rel);
        assert_eq!(media_path(rel, dir), expected.to_string_lossy());
    }
    let qr = QrService::new("/srv/uploads".to_string());
    assert_eq!(qr.full_path("qr/x.png"), "/srv/uploads/qr/x.png");
    let images = ImageService::new("uploads".to_string());
    assert_eq!(images.full_path("images/y.jpg"), "uploads/images/y.jpg");
}

#[test]
fn stored_paths() {
    let id = Uuid::new_v4();
    assert_eq!(image_relative_path(id.as_u128()), format!("images/{}.jpg", id));
    assert!(qr_path_changed(&None, "qr/a.png"));
    assert!(qr_path_changed(&Some("qr/b.png".to_string()), "qr/a.png"));
    assert!(!qr_path_changed(&Some("qr/a.png".to_string()), "qr/a.png"));
}
