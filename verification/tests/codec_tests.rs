use asset_scanner::codec::{deserialize_asset, serialize_asset, serialize_unpaired_files};
use asset_scanner::types::{Asset, ScannerError, UnpairedFiles};

fn sample_asset() -> Asset {
    Asset {
        name: "a".to_string(),
        archive: "a.zip".to_string(),
        preview: "a.png".to_string(),
        size_mb_hundredths: 150,
        thumbnail: "a.thumb".to_string(),
        stars: None,
        color: None,
        textures_in_archive: true,
        meta: Vec::new(),
    }
}

#[test]
fn test_serialize_asset_exact_text() {
    let text = serialize_asset(&sample_asset());
    let expected = "{\n  \"type\": \"asset\",\n  \"name\": \"a\",\n  \"archive\": \"a.zip\",\n  \"preview\": \"a.png\",\n  \"size_mb\": 1.50,\n  \"thumbnail\": \"a.thumb\",\n  \"stars\": null,\n  \"color\": null,\n  \"textures_in_the_archive\": true,\n  \"meta\": {}\n}";
    assert_eq!(text, expected);
}

#[test]
fn test_round_trip_simple_record() {
    let a = sample_asset();
    let text = serialize_asset(&a);
    let b = deserialize_asset(&text).unwrap();
    assert_eq!(b.name, a.name);
    assert_eq!(b.archive, a.archive);
    assert_eq!(b.preview, a.preview);
    assert_eq!(b.size_mb_hundredths, a.size_mb_hundredths);
    assert_eq!(b.thumbnail, a.thumbnail);
    assert_eq!(b.stars, a.stars);
    assert_eq!(b.color, a.color);
    assert_eq!(b.textures_in_archive, a.textures_in_archive);
    assert_eq!(b.meta, a.meta);
}

#[test]
fn test_round_trip_populated_record() {
    let a = Asset {
        name: "weird \"name\" with \\ and\nnewline\tand\u{1}control".to_string(),
        archive: "Pack One.rar".to_string(),
        preview: "Pack One.webp".to_string(),
        size_mb_hundredths: 4274,
        thumbnail: "Pack One.thumb".to_string(),
        stars: Some(-5),
        color: Some("red/crimson".to_string()),
        textures_in_archive: false,
        meta: vec![
            ("k1".to_string(), "v1".to_string()),
            ("quoted \"key\"".to_string(), "line\nbreak \\ here".to_string()),
            ("empty".to_string(), "".to_string()),
        ],
    };
    let text = serialize_asset(&a);
    let b = deserialize_asset(&text).unwrap();
    assert_eq!(b.name, a.name);
    assert_eq!(b.archive, a.archive);
    assert_eq!(b.preview, a.preview);
    assert_eq!(b.size_mb_hundredths, a.size_mb_hundredths);
    assert_eq!(b.thumbnail, a.thumbnail);
    assert_eq!(b.stars, a.stars);
    assert_eq!(b.color, a.color);
    assert_eq!(b.textures_in_archive, a.textures_in_archive);
    assert_eq!(b.meta, a.meta);
}

#[test]
fn test_round_trip_extreme_numbers() {
    let a = Asset {
        size_mb_hundredths: u64::MAX,
        stars: Some(i32::MIN),
        ..sample_asset()
    };
    let text = serialize_asset(&a);
    let b = deserialize_asset(&text).unwrap();
    assert_eq!(b.size_mb_hundredths, u64::MAX);
    assert_eq!(b.stars, Some(i32::MIN));
}

#[test]
fn test_deserialize_accepts_shorter_numbers() {
    // One decimal, as the historical sidecars carry ("42.0"), and a bare
    // integer both scale to hundredths.
    let text = "{\n  \"type\": \"asset\",\n  \"name\": \"a\",\n  \"archive\": \"a.zip\",\n  \"preview\": \"a.png\",\n  \"size_mb\": 42.0,\n  \"thumbnail\": \"a.thumb\",\n  \"stars\": null,\n  \"color\": null,\n  \"textures_in_the_archive\": true,\n  \"meta\": {}\n}";
    assert_eq!(deserialize_asset(text).unwrap().size_mb_hundredths, 4200);

    let one = text.replace("42.0", "42.5");
    assert_eq!(deserialize_asset(&one).unwrap().size_mb_hundredths, 4250);

    let plain = text.replace("42.0", "7");
    assert_eq!(deserialize_asset(&plain).unwrap().size_mb_hundredths, 700);

    // Three decimals are beyond the format's precision.
    let three = text.replace("42.0", "42.001");
    assert!(deserialize_asset(&three).is_err());
}

#[test]
fn test_deserialize_tolerates_whitespace() {
    let text = "  {\n\n  \"type\" :  \"asset\",\n  \"name\": \"a\",\n  \"archive\": \"a.zip\",\n  \"preview\": \"a.png\",\n  \"size_mb\":   1.50 ,\n  \"thumbnail\": \"a.thumb\",\n  \"stars\": 3,\n  \"color\": \"blue\",\n  \"textures_in_the_archive\": false,\n  \"meta\": { \"k\" : \"v\" }\n}\n  ";
    let a = deserialize_asset(text).unwrap();
    assert_eq!(a.name, "a");
    assert_eq!(a.size_mb_hundredths, 150);
    assert_eq!(a.stars, Some(3));
    assert_eq!(a.color, Some("blue".to_string()));
    assert!(!a.textures_in_archive);
    assert_eq!(a.meta, vec![("k".to_string(), "v".to_string())]);
}

#[test]
fn test_deserialize_rejects_malformed() {
    let r = deserialize_asset("not json at all");
    assert!(r.is_err());
    assert!(r.err().unwrap().is_serialization());

    let truncated = "{\n  \"type\": \"asset\",\n  \"name\": \"a\"";
    assert!(deserialize_asset(truncated).is_err());

    let wrong_kind = "{\n  \"type\": \"folder\",\n  \"name\": \"a\",\n  \"archive\": \"a.zip\",\n  \"preview\": \"a.png\",\n  \"size_mb\": 1.50,\n  \"thumbnail\": \"a.thumb\",\n  \"stars\": null,\n  \"color\": null,\n  \"textures_in_the_archive\": true,\n  \"meta\": {}\n}";
    assert!(deserialize_asset(wrong_kind).is_err());

    let trailing = format!("{}{}", serialize_asset(&sample_asset()), "x");
    assert!(deserialize_asset(&trailing).is_err());
}

#[test]
fn test_error_variants_carry_messages() {
    let e = ScannerError::Io("disk failed".to_string());
    assert_eq!(e.message().as_str(), "disk failed");
    assert!(!e.is_validation());
    let v = ScannerError::Validation("bad".to_string());
    assert!(v.is_validation());
    let n = ScannerError::NotFound("missing".to_string());
    assert!(n.is_not_found());
    let c = ScannerError::Codec("bad image".to_string());
    assert!(c.is_codec());
    let s = ScannerError::Serialization("bad json".to_string());
    assert!(s.is_serialization());
}

#[test]
fn test_serialize_unpaired_files_exact_text() {
    let u = UnpairedFiles {
        archives: vec!["b.zip".to_string()],
        images: vec!["c.png".to_string(), "d.png".to_string()],
        total_archives: 1,
        total_images: 2,
    };
    let text = serialize_unpaired_files(&u);
    let expected = "{\n  \"unpaired_archives\": [\"b.zip\"],\n  \"unpaired_images\": [\"c.png\", \"d.png\"],\n  \"total_unpaired_archives\": 1,\n  \"total_unpaired_images\": 2\n}";
    assert_eq!(text, expected);
}

#[test]
fn test_serialize_unpaired_files_empty() {
    let u = UnpairedFiles {
        archives: Vec::new(),
        images: Vec::new(),
        total_archives: 0,
        total_images: 0,
    };
    let text = serialize_unpaired_files(&u);
    let expected = "{\n  \"unpaired_archives\": [],\n  \"unpaired_images\": [],\n  \"total_unpaired_archives\": 0,\n  \"total_unpaired_images\": 0\n}";
    assert_eq!(text, expected);
}

#[test]
fn test_deserialize_accepts_any_member_order() {
    let text = "{\n  \"meta\": {\"k\": \"v\"},\n  \"textures_in_the_archive\": false,\n  \"color\": \"blue\",\n  \"stars\": 4,\n  \"thumbnail\": \"a.thumb\",\n  \"size_mb\": 2.25,\n  \"preview\": \"a.png\",\n  \"archive\": \"a.zip\",\n  \"name\": \"a\",\n  \"type\": \"asset\"\n}";
    let a = deserialize_asset(text).unwrap();
    assert_eq!(a.name, "a");
    assert_eq!(a.archive, "a.zip");
    assert_eq!(a.preview, "a.png");
    assert_eq!(a.size_mb_hundredths, 225);
    assert_eq!(a.thumbnail, "a.thumb");
    assert_eq!(a.stars, Some(4));
    assert_eq!(a.color, Some("blue".to_string()));
    assert!(!a.textures_in_archive);
    assert_eq!(a.meta, vec![("k".to_string(), "v".to_string())]);
}

#[test]
fn test_deserialize_rejects_duplicate_missing_and_unknown_members() {
    // The same member twice.
    let duplicated = "{\n  \"type\": \"asset\",\n  \"name\": \"a\",\n  \"name\": \"b\",\n  \"archive\": \"a.zip\",\n  \"preview\": \"a.png\",\n  \"size_mb\": 1.50,\n  \"thumbnail\": \"a.thumb\",\n  \"stars\": null,\n  \"color\": null,\n  \"textures_in_the_archive\": true,\n  \"meta\": {}\n}";
    assert!(deserialize_asset(duplicated).is_err());

    // A member missing (no thumbnail).
    let missing = "{\n  \"type\": \"asset\",\n  \"name\": \"a\",\n  \"archive\": \"a.zip\",\n  \"preview\": \"a.png\",\n  \"size_mb\": 1.50,\n  \"stars\": null,\n  \"color\": null,\n  \"textures_in_the_archive\": true,\n  \"meta\": {}\n}";
    assert!(deserialize_asset(missing).is_err());

    // A member outside the schema.
    let unknown = "{\n  \"type\": \"asset\",\n  \"name\": \"a\",\n  \"archive\": \"a.zip\",\n  \"preview\": \"a.png\",\n  \"size_mb\": 1.50,\n  \"thumbnail\": \"a.thumb\",\n  \"stars\": null,\n  \"color\": null,\n  \"textures_in_the_archive\": true,\n  \"meta\": {},\n  \"extra\": 1\n}";
    assert!(deserialize_asset(unknown).is_err());
}
