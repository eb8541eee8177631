use disk_scan::{classify_file, get_category_stats, FileNode, FileType};

fn leaf(name: &str, path: &str, size: u64, file_type: FileType) -> FileNode {
    FileNode {
        name: name.to_string(),
        path: path.to_string(),
        size,
        is_directory: false,
        children: vec![],
        file_type,
        modified: 0,
    }
}

#[test]
fn test_classify_documents() {
    assert_eq!(classify_file("test.pdf"), FileType::Document);
    assert_eq!(classify_file("test.doc"), FileType::Document);
    assert_eq!(classify_file("test.txt"), FileType::Document);
}

#[test]
fn test_classify_images() {
    assert_eq!(classify_file("test.jpg"), FileType::Image);
    assert_eq!(classify_file("test.png"), FileType::Image);
    assert_eq!(classify_file("test.gif"), FileType::Image);
}

#[test]
fn test_classify_videos() {
    assert_eq!(classify_file("test.mp4"), FileType::Video);
    assert_eq!(classify_file("test.avi"), FileType::Video);
    assert_eq!(classify_file("test.mov"), FileType::Video);
}

#[test]
fn test_classify_audio() {
    assert_eq!(classify_file("test.mp3"), FileType::Audio);
    assert_eq!(classify_file("test.wav"), FileType::Audio);
}

#[test]
fn test_classify_archives() {
    assert_eq!(classify_file("test.zip"), FileType::Archive);
    assert_eq!(classify_file("test.tar"), FileType::Archive);
    assert_eq!(classify_file("test.gz"), FileType::Archive);
}

#[test]
fn test_classify_executables() {
    assert_eq!(classify_file("test.exe"), FileType::Executable);
    assert_eq!(classify_file("test.app"), FileType::Executable);
    assert_eq!(classify_file("test.bin"), FileType::Executable);
}

#[test]
fn test_classify_code() {
    assert_eq!(classify_file("test.rs"), FileType::Code);
    assert_eq!(classify_file("test.ts"), FileType::Code);
    assert_eq!(classify_file("test.js"), FileType::Code);
    assert_eq!(classify_file("test.py"), FileType::Code);
}

#[test]
fn test_classify_other() {
    assert_eq!(classify_file("test.unknown"), FileType::Other);
    assert_eq!(classify_file("test"), FileType::Other);
}

#[test]
fn test_case_insensitive() {
    assert_eq!(classify_file("test.PDF"), FileType::Document);
    assert_eq!(classify_file("test.JPG"), FileType::Image);
    assert_eq!(classify_file("test.MP4"), FileType::Video);
}

#[test]
fn test_classify_system_and_paths() {
    assert_eq!(classify_file("boot.sys"), FileType::SystemFile);
    assert_eq!(classify_file("app.log"), FileType::SystemFile);
    assert_eq!(classify_file("/home/u/docs/report.pdf"), FileType::Document);
    // A hidden file's leading dot does not start an extension.
    assert_eq!(classify_file("/home/u/.bashrc"), FileType::Other);
    assert_eq!(classify_file("/home/u/archive.tar.gz"), FileType::Archive);
}

#[test]
fn test_classify_photo_library_context() {
    // Bookkeeping files count as images only inside a photo library.
    assert_eq!(
        classify_file("/Users/u/Pictures/Photos Library.photoslibrary/database/index.db"),
        FileType::Image
    );
    assert_eq!(classify_file("/tmp/index.db"), FileType::Other);
    assert_eq!(
        classify_file("/Users/u/Pictures/Photo Booth Library/meta.plist"),
        FileType::Image
    );
}

#[test]
fn test_get_category_stats() {
    let root = FileNode {
        name: "root".to_string(),
        path: "/root".to_string(),
        size: 3000,
        is_directory: true,
        file_type: FileType::Other,
        modified: 0,
        children: vec![
            leaf("doc1.pdf", "/root/doc1.pdf", 1000, FileType::Document),
            leaf("doc2.txt", "/root/doc2.txt", 500, FileType::Document),
            leaf("image.jpg", "/root/image.jpg", 1500, FileType::Image),
        ],
    };

    let stats = get_category_stats(&root);

    let doc_stats = stats
        .iter()
        .find(|s| s.category == FileType::Document)
        .unwrap();
    assert_eq!(doc_stats.total_size, 1500);
    assert_eq!(doc_stats.file_count, 2);

    let img_stats = stats
        .iter()
        .find(|s| s.category == FileType::Image)
        .unwrap();
    assert_eq!(img_stats.total_size, 1500);
    assert_eq!(img_stats.file_count, 1);
}

#[test]
fn test_category_stats_no_empty_entries() {
    // Only categories that actually occur get an entry, each counting
    // at least one file.
    let root = FileNode {
        name: "r".to_string(),
        path: "/r".to_string(),
        size: 10,
        is_directory: true,
        file_type: FileType::Other,
        modified: 0,
        children: vec![leaf("v.mp4", "/r/v.mp4", 10, FileType::Video)],
    };
    let stats = get_category_stats(&root);
    assert_eq!(stats.len(), 1);
    assert_eq!(stats[0].category, FileType::Video);
    assert!(stats.iter().all(|s| s.file_count >= 1));

    let empty_dir = FileNode {
        name: "e".to_string(),
        path: "/e".to_string(),
        size: 0,
        is_directory: true,
        file_type: FileType::Other,
        modified: 0,
        children: vec![],
    };
    assert!(get_category_stats(&empty_dir).is_empty());
}

#[test]
fn test_category_stats_nested() {
    let sub = FileNode {
        name: "sub".to_string(),
        path: "/r/sub".to_string(),
        size: 700,
        is_directory: true,
        file_type: FileType::Other,
        modified: 0,
        children: vec![leaf("a.mp3", "/r/sub/a.mp3", 700, FileType::Audio)],
    };
    let root = FileNode {
        name: "r".to_string(),
        path: "/r".to_string(),
        size: 1200,
        is_directory: true,
        file_type: FileType::Other,
        modified: 0,
        children: vec![sub, leaf("b.mp3", "/r/b.mp3", 500, FileType::Audio)],
    };
    let stats = get_category_stats(&root);
    assert_eq!(stats.len(), 1);
    assert_eq!(stats[0].category, FileType::Audio);
    assert_eq!(stats[0].total_size, 1200);
    assert_eq!(stats[0].file_count, 2);
}
