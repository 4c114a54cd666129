use asset_scanner::builder::{get_file_size_mb, AssetBuilder};
use asset_scanner::geometry::{compute_resize_target, compute_square_crop_target};
use asset_scanner::thumbs::{probe_image, resize_to_square, ThumbnailGenerator};

#[test]
fn test_small_images_are_left_alone() {
    assert_eq!(compute_resize_target(800, 600).unwrap(), (800, 600));
    assert_eq!(compute_resize_target(1023, 1023).unwrap(), (1023, 1023));
}

#[test]
fn test_zero_dimension_is_rejected() {
    assert!(compute_resize_target(0, 100).is_err());
    assert!(compute_resize_target(100, 0).is_err());
    assert!(compute_resize_target(0, 100).err().unwrap().is_validation());
}

#[test]
fn test_similar_proportions_target_shorter_side() {
    // diffPct = 0, both sides >= 1024: shorter side becomes 1024.
    assert_eq!(compute_resize_target(2048, 2048).unwrap(), (1024, 1024));
    // diffPct = 20%: (1200, 1500) -> (1024, round(1500 * 1024 / 1200)).
    assert_eq!(compute_resize_target(1200, 1500).unwrap(), (1024, 1280));
    assert_eq!(compute_resize_target(1500, 1200).unwrap(), (1280, 1024));
}

#[test]
fn test_dissimilar_proportions_target_longer_side() {
    // diffPct = 75%: the longer side becomes 1600.
    assert_eq!(compute_resize_target(1024, 4096).unwrap(), (400, 1600));
    assert_eq!(compute_resize_target(4096, 1024).unwrap(), (1600, 400));
}

#[test]
fn test_no_upscaling_falls_back_to_source() {
    // diffPct just above 30 but the longer side is under 1600: the 1600
    // target would upscale, so the source dimensions come back.
    assert_eq!(compute_resize_target(1024, 1464).unwrap(), (1024, 1464));
}

#[test]
fn test_square_crop_target() {
    let c = compute_square_crop_target(800, 600, 256).unwrap();
    assert_eq!(c.scaled_w, 341); // round(800 * 256 / 600)
    assert_eq!(c.scaled_h, 256);
    assert_eq!((c.crop_x, c.crop_y), (0, 0));
    assert_eq!((c.crop_w, c.crop_h), (256, 256));
    assert!(!c.needs_exact_resize);

    assert!(compute_square_crop_target(0, 600, 256).is_err());
    assert!(compute_square_crop_target(800, 600, 0).is_err());
}

#[test]
fn test_resize_to_square_produces_exact_square() {
    let img = probe_image(image::DynamicImage::new_rgb8(800, 600));
    assert_eq!(img.width(), 800);
    assert_eq!(img.height(), 600);
    assert!(!img.has_alpha());

    let t = resize_to_square(img, 256).unwrap();
    assert_eq!(t.width(), 256);
    assert_eq!(t.height(), 256);
    assert!(!t.has_alpha());

    let tall = probe_image(image::DynamicImage::new_rgba8(100, 900));
    assert!(tall.has_alpha());
    let t2 = resize_to_square(tall, 128).unwrap();
    assert_eq!(t2.width(), 128);
    assert_eq!(t2.height(), 128);
    assert!(t2.has_alpha());
}

#[test]
fn test_thumbnail_generator_policies() {
    let gen = ThumbnailGenerator::default();
    assert_eq!(gen.thumbnail_size, 256);
    assert_eq!(gen.cache_dir_name, ".cache");
    assert_eq!(gen.get_webp_quality(true), 80);
    assert_eq!(gen.get_webp_quality(false), 75);

    let custom = ThumbnailGenerator::new(128);
    assert_eq!(custom.thumbnail_size, 128);
}

#[test]
fn test_thumbnail_freshness_rule() {
    let gen = ThumbnailGenerator::default();
    // Artifact at least as new as the source: cache hit.
    assert!(gen.is_thumbnail_current(true, Some(5), Some(5)));
    assert!(gen.is_thumbnail_current(true, Some(5), Some(9)));
    // Touched source: stale.
    assert!(!gen.is_thumbnail_current(true, Some(6), Some(5)));
    // Missing artifact or unreadable metadata: regenerate.
    assert!(!gen.is_thumbnail_current(false, Some(5), Some(9)));
    assert!(!gen.is_thumbnail_current(true, None, Some(9)));
    assert!(!gen.is_thumbnail_current(true, Some(5), None));
}

#[test]
fn test_thumbnail_paths() {
    let gen = ThumbnailGenerator::default();
    let p = gen.thumbnail_paths("work/photo.PNG", true).unwrap();
    assert_eq!(p.cache_dir, "work/.cache");
    assert_eq!(p.thumbnail_path, "work/.cache/photo.thumb");
    assert_eq!(p.thumbnail_file_name, "photo.thumb");

    let bare = gen.thumbnail_paths("photo.jpg", true).unwrap();
    assert_eq!(bare.cache_dir, ".cache");
    assert_eq!(bare.thumbnail_path, ".cache/photo.thumb");

    assert!(gen.thumbnail_paths("", true).err().unwrap().is_validation());
    assert!(gen.thumbnail_paths("x.png", false).err().unwrap().is_not_found());
    assert!(gen.thumbnail_paths("x.txt", true).err().unwrap().is_codec());
}

#[test]
fn test_render_thumbnail() {
    let gen = ThumbnailGenerator::default();
    let img = probe_image(image::DynamicImage::new_rgba8(640, 480));
    let (t, q) = gen.render_thumbnail(img).unwrap();
    assert_eq!(t.width(), 256);
    assert_eq!(t.height(), 256);
    assert_eq!(q, 80);
}

#[test]
fn test_asset_builder_validation() {
    let b = AssetBuilder::new();
    assert!(b.validate_asset_inputs("ok", "a.zip", "a.png", true, true, true).is_ok());

    let empty = b.validate_asset_inputs("", "a.zip", "a.png", true, true, true);
    assert!(empty.err().unwrap().is_validation());

    let bad_char = b.validate_asset_inputs("a/b", "a.zip", "a.png", true, true, true);
    assert!(bad_char.err().unwrap().is_validation());

    let missing = b.validate_asset_inputs("ok", "a.zip", "a.png", false, true, true);
    assert!(missing.err().unwrap().is_not_found());

    let bad_ext = b.validate_asset_inputs("ok", "a.txt", "a.png", true, true, true);
    assert!(bad_ext.err().unwrap().is_validation());

    // A file without any extension passes the allow-list check.
    assert!(b.validate_asset_inputs("ok", "archive", "a.png", true, true, true).is_ok());
}

#[test]
fn test_create_single_asset() {
    let b = AssetBuilder::new();
    // 1.5 MiB: 157286400 hundredths-numerator / 2^20 rounds to 150 -> 1.50 MB.
    let a = b
        .create_single_asset("a", "a.zip", "a.png", true, true, true, 1_572_864, true, None)
        .unwrap();
    assert_eq!(a.name, "a");
    assert_eq!(a.archive, "a.zip");
    assert_eq!(a.preview, "a.png");
    assert_eq!(a.size_mb_hundredths, 150);
    assert_eq!(a.thumbnail, "a.thumb");
    assert_eq!(a.stars, None);
    assert_eq!(a.color, None);
    assert!(!a.textures_in_archive);
    assert!(a.meta.is_empty());

    // Half-up rounding: 5243 bytes is 0.50001 hundredths, which rounds to 1.
    let tiny = b
        .create_single_asset("t", "t.zip", "t.png", true, true, true, 5243, false, None)
        .unwrap();
    assert_eq!(tiny.size_mb_hundredths, 1);
    assert!(tiny.textures_in_archive);

    // A generated thumbnail name is taken as-is.
    let with_thumb = b
        .create_single_asset(
            "t",
            "t.zip",
            "t.png",
            true,
            true,
            true,
            0,
            false,
            Some("t.thumb".to_string()),
        )
        .unwrap();
    assert_eq!(with_thumb.size_mb_hundredths, 0);
    assert_eq!(with_thumb.thumbnail, "t.thumb");

    let bad = b.create_single_asset("", "t.zip", "t.png", true, true, true, 0, false, None);
    assert!(bad.is_err());
}

#[test]
fn test_get_file_size_mb() {
    // 1 MiB is exactly 1.00 MB.
    assert_eq!(get_file_size_mb(1_048_576), 100);
    // 1.5 MiB rounds to 1.50 MB.
    assert_eq!(get_file_size_mb(1_572_864), 150);
    // 0.005000114... MB rounds half-up to 0.01.
    assert_eq!(get_file_size_mb(5243), 1);
    // Just under the half-hundredth boundary rounds down to zero.
    assert_eq!(get_file_size_mb(5242), 0);
    assert_eq!(get_file_size_mb(0), 0);
}

#[test]
fn test_create_empty_asset() {
    let b = AssetBuilder::new();
    let a = b.create_empty_asset("blank");
    assert_eq!(a.name, "blank");
    assert_eq!(a.archive, "");
    assert_eq!(a.preview, "");
    assert_eq!(a.size_mb_hundredths, 0);
    assert_eq!(a.thumbnail, "blank.thumb");
    assert_eq!(a.stars, None);
    assert_eq!(a.color, None);
    assert!(!a.textures_in_archive);
    assert!(a.meta.is_empty());
}

#[test]
fn test_generator_from_config() {
    let config = asset_scanner::types::ScannerConfig::default();
    assert_eq!(config.thumbnail_size, 256);
    assert!(config.parallel_processing);
    assert_eq!(config.cache_dir_name, ".cache");
    let gen = ThumbnailGenerator::from_config(&config);
    assert_eq!(gen.thumbnail_size, 256);
    assert_eq!(gen.cache_dir_name, ".cache");
}

#[test]
fn test_thirty_percent_boundary_is_dissimilar() {
    // (7000, 10000) sits exactly on the thirty-percent boundary, which
    // counts as dissimilar: the longer side goes to 1600.
    assert_eq!(compute_resize_target(7000, 10000).unwrap(), (1120, 1600));
    // The scaled result itself sits on the boundary and stays put.
    assert_eq!(compute_resize_target(1120, 1600).unwrap(), (1120, 1600));
}

#[test]
fn test_resize_target_is_idempotent() {
    // A dissimilar source whose scale lands exactly on the boundary: the
    // second application returns the first result unchanged.
    assert_eq!(compute_resize_target(6998, 10000).unwrap(), (1120, 1600));
    assert_eq!(compute_resize_target(1120, 1600).unwrap(), (1120, 1600));

    // Similar sources: their results also map to themselves.
    assert_eq!(compute_resize_target(2048, 2048).unwrap(), (1024, 1024));
    assert_eq!(compute_resize_target(1024, 1024).unwrap(), (1024, 1024));
    assert_eq!(compute_resize_target(1024, 1280).unwrap(), (1024, 1280));

    // A similar source whose longer output side rounds up to 1463, just
    // past the boundary: the 1600 rule would upscale, so it stays put.
    assert_eq!(compute_resize_target(10000, 14283).unwrap(), (1024, 1463));
    assert_eq!(compute_resize_target(1024, 1463).unwrap(), (1024, 1463));
}
