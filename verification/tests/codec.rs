use thumb_queue::codec::{decode_job, encode_job};
use thumb_queue::ImagePostUploadJob;

fn job(id: usize, file_name: &str, dir: &str) -> ImagePostUploadJob {
    ImagePostUploadJob { id, file_name: file_name.to_string(), dir: dir.to_string() }
}

#[test]
fn encode_fixes_the_wire_shape() {
    let j = job(1, "abc.png", "uploads");
    assert_eq!(encode_job(&j), "{\"id\":1,\"file_name\":\"abc.png\",\"dir\":\"uploads\"}");
    let j0 = job(0, "", "");
    assert_eq!(encode_job(&j0), "{\"id\":0,\"file_name\":\"\",\"dir\":\"\"}");
}

#[test]
fn encode_escapes_quotes_and_backslashes() {
    let j = job(7, "a\"b.png", "up\\loads");
    assert_eq!(
        encode_job(&j),
        "{\"id\":7,\"file_name\":\"a\\\"b.png\",\"dir\":\"up\\\\loads\"}"
    );
}

#[test]
fn round_trip_preserves_fields() {
    for j in [
        job(1, "abc.png", "uploads"),
        job(0, "", ""),
        job(usize::MAX, "x\\\"y\".png", "dir\\with\"stuff"),
        job(123456789, "archive.tar.gz", "deep/dir"),
    ] {
        let wire = encode_job(&j);
        let back = decode_job(&wire).expect("own encoding must decode");
        assert_eq!(back.id, j.id);
        assert_eq!(back.file_name, j.file_name);
        assert_eq!(back.dir, j.dir);
    }
}

#[test]
fn decode_accepts_only_the_canonical_form() {
    // the canonical form itself
    assert!(decode_job("{\"id\":1,\"file_name\":\"a\",\"dir\":\"b\"}").is_some());
    // malformed or non-canonical inputs
    for bad in [
        "",
        "{}",
        "{\"id\":1}",
        "{\"id\":01,\"file_name\":\"a\",\"dir\":\"b\"}",
        "{\"id\": 1,\"file_name\":\"a\",\"dir\":\"b\"}",
        "{\"id\":1,\"dir\":\"b\",\"file_name\":\"a\"}",
        "{\"id\":1,\"file_name\":\"a\",\"dir\":\"b\"} ",
        "{\"id\":1,\"file_name\":\"a\",\"dir\":\"b\"",
        "{\"id\":-1,\"file_name\":\"a\",\"dir\":\"b\"}",
        "{\"id\":18446744073709551616,\"file_name\":\"a\",\"dir\":\"b\"}",
        "{\"id\":1,\"file_name\":\"a\\x\",\"dir\":\"b\"}",
    ] {
        assert!(decode_job(bad).is_none(), "should reject {bad:?}");
    }
}

#[test]
fn decode_recovers_escaped_characters() {
    let back = decode_job("{\"id\":5,\"file_name\":\"a\\\"b\",\"dir\":\"c\\\\d\"}").unwrap();
    assert_eq!(back.id, 5);
    assert_eq!(back.file_name, "a\"b");
    assert_eq!(back.dir, "c\\d");
}

#[test]
fn wire_format_reads_as_json() {
    let j = job(42, "abc.png", "uploads");
    let wire = encode_job(&j);
    let v: serde_json::Value = serde_json::from_str(&wire).expect("valid JSON");
    assert_eq!(v.get("id").and_then(|x| x.as_u64()), Some(42));
    assert_eq!(v.get("file_name").and_then(|x| x.as_str()), Some("abc.png"));
    assert_eq!(v.get("dir").and_then(|x| x.as_str()), Some("uploads"));
}
