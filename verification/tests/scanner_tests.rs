use asset_scanner::pairing::{build_unpaired_files, group_files_by_name, has_valid_extension};
use asset_scanner::scan::{
    has_texture_folders, progress_point, scan_for_special_folders, RustAssetRepository, ScanStage,
};
use asset_scanner::types::FileExtensions;

#[test]
fn test_file_extensions() {
    let extensions = FileExtensions::default();

    assert!(extensions.archives.contains(&"zip".to_string()));
    assert!(extensions.archives.contains(&"rar".to_string()));
    assert!(extensions.archives.contains(&"sbsar".to_string()));
    assert!(extensions.archives.contains(&"7z".to_string()));

    assert!(extensions.images.contains(&"png".to_string()));
    assert!(extensions.images.contains(&"jpg".to_string()));
    assert!(extensions.images.contains(&"jpeg".to_string()));
    assert!(extensions.images.contains(&"webp".to_string()));
}

#[test]
fn test_group_files_by_name() {
    let files = vec![
        "test_001.zip".to_string(),
        "test_002.zip".to_string(),
        "test_003.zip".to_string(),
    ];

    let grouped = group_files_by_name(&files);

    assert_eq!(grouped.len(), 3);
    assert!(grouped.contains_key(&"test_001".to_string()));
    assert!(grouped.contains_key(&"test_002".to_string()));
    assert!(grouped.contains_key(&"test_003".to_string()));
}

#[test]
fn test_group_last_wins_on_case_collision() {
    let files = vec!["Asset.zip".to_string(), "ASSET.zip".to_string()];
    let grouped = group_files_by_name(&files);
    assert_eq!(grouped.len(), 1);
    assert_eq!(grouped.get(&"asset".to_string()), Some(&"ASSET.zip".to_string()));
}

#[test]
fn test_has_valid_extension_case_insensitive() {
    let exts = vec!["zip".to_string()];
    assert!(has_valid_extension("Test.ZIP", &exts));
    assert!(has_valid_extension("test.zip", &exts));
    assert!(!has_valid_extension("test.txt", &exts));
    assert!(!has_valid_extension("noextension", &exts));
}

#[test]
fn test_pairing_is_case_insensitive() {
    let repo = RustAssetRepository::new();
    let archives = vec!["Asset.ZIP".to_string()];
    let images = vec!["asset.PNG".to_string()];
    let plan = repo.plan_scan(&archives, &images);
    assert_eq!(plan.pairs.len(), 1);
    assert_eq!(plan.pairs[0].name, "asset");
    assert_eq!(plan.pairs[0].archive_file, "Asset.ZIP");
    assert_eq!(plan.pairs[0].image_file, "asset.PNG");
}

#[test]
fn test_scan_one_pair_and_unpaired_report() {
    let repo = RustAssetRepository::new();
    let archives = vec!["a.zip".to_string(), "b.zip".to_string()];
    let images = vec!["a.png".to_string(), "c.png".to_string()];
    let plan = repo.plan_scan(&archives, &images);

    assert_eq!(plan.pairs.len(), 1);
    assert_eq!(plan.pairs[0].name, "a");
    assert_eq!(plan.pairs[0].archive_file, "a.zip");
    assert_eq!(plan.pairs[0].image_file, "a.png");
    assert_eq!(plan.pairs[0].asset_file_name, "a.asset");

    assert_eq!(plan.unpaired.archives, vec!["b.zip".to_string()]);
    assert_eq!(plan.unpaired.images, vec!["c.png".to_string()]);
    assert_eq!(plan.unpaired.total_archives, 1);
    assert_eq!(plan.unpaired.total_images, 1);
}

#[test]
fn test_scan_empty_folder() {
    let repo = RustAssetRepository::new();
    let archives: Vec<String> = Vec::new();
    let images: Vec<String> = Vec::new();
    let plan = repo.plan_scan(&archives, &images);

    assert_eq!(plan.pairs.len(), 0);
    assert!(plan.unpaired.archives.is_empty());
    assert!(plan.unpaired.images.is_empty());
    assert_eq!(plan.unpaired.total_archives, 0);
    assert_eq!(plan.unpaired.total_images, 0);

    let folders = scan_for_special_folders("/some/folder", false, false, false);
    assert_eq!(folders.len(), 0);
}

#[test]
fn test_unpaired_report_is_sorted() {
    let archives = vec!["z.zip".to_string(), "b.zip".to_string(), "m.zip".to_string()];
    let images: Vec<String> = Vec::new();
    let paired: Vec<String> = Vec::new();
    let report = build_unpaired_files(&archives, &images, &paired);
    assert_eq!(
        report.archives,
        vec!["b.zip".to_string(), "m.zip".to_string(), "z.zip".to_string()]
    );
    assert_eq!(report.total_archives, 3);
    assert_eq!(report.total_images, 0);
}

#[test]
fn test_special_folders() {
    let folders = scan_for_special_folders("/work", true, true, false);

    assert_eq!(folders.len(), 2);
    let names: Vec<&str> = folders.iter().map(|f| f.name.as_str()).collect();
    assert!(names.contains(&"tex"));
    assert!(names.contains(&"textures"));
    assert_eq!(folders[0].folder_type, "special_folder");
    assert_eq!(folders[0].folder_path, "/work/tex");
}

#[test]
fn test_texture_folder_detection() {
    assert!(!has_texture_folders(false, false, false));
    assert!(has_texture_folders(true, false, false));
    assert!(has_texture_folders(false, false, true));
}

#[test]
fn test_progress_schedule() {
    assert_eq!(progress_point(&ScanStage::Scanning), (0, 100));
    assert_eq!(progress_point(&ScanStage::FilesScanned), (20, 100));
    assert_eq!(progress_point(&ScanStage::Processing), (25, 100));
    assert_eq!(progress_point(&ScanStage::Converting), (80, 100));
    assert_eq!(progress_point(&ScanStage::SpecialFolders), (95, 100));
    assert_eq!(progress_point(&ScanStage::UnpairedList), (97, 100));
    assert_eq!(progress_point(&ScanStage::Completed), (100, 100));
}

#[test]
fn test_special_folders_fixed_order() {
    let folders = scan_for_special_folders("/work", true, true, true);
    let names: Vec<&str> = folders.iter().map(|f| f.name.as_str()).collect();
    assert_eq!(names, vec!["tex", "textures", "maps"]);

    let no_tex = scan_for_special_folders("/work", false, true, true);
    let names2: Vec<&str> = no_tex.iter().map(|f| f.name.as_str()).collect();
    assert_eq!(names2, vec!["textures", "maps"]);
}
