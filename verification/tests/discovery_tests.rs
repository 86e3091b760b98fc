use photo_archiver::archive::archive_plan;
use photo_archiver::date::Date;
use photo_archiver::discovery::{discover, DiscoverError, EntryMeta, FsEntry};

// 2024-03-05 12:00:00 UTC
const T_2024_03_05: i64 = 1709640000;
// 2023-07-15 12:00:00 UTC
const T_2023_07_15: i64 = 1689422400;

fn comps(parts: &[&str]) -> Vec<Vec<u8>> {
    parts.iter().map(|p| p.as_bytes().to_vec()).collect()
}

fn dir_entry(parts: &[&str], mtime: i64) -> FsEntry {
    FsEntry { path: comps(parts), is_dir: true, meta: Some(EntryMeta { len: 4096, mtime_secs: mtime }) }
}

fn file_entry(parts: &[&str], len: u64, mtime: i64) -> FsEntry {
    FsEntry { path: comps(parts), is_dir: false, meta: Some(EntryMeta { len, mtime_secs: mtime }) }
}

#[test]
fn plain_file_yields_one_asset_with_its_own_length() {
    let entries = vec![
        dir_entry(&["in"], T_2024_03_05),
        dir_entry(&["in", "2024"], T_2024_03_05),
        file_entry(&["in", "2024", "IMG_001.jpg"], 100, T_2024_03_05),
    ];
    let assets = discover(&entries).unwrap();
    assert_eq!(assets.len(), 1);
    assert_eq!(assets[0].path, comps(&["in", "2024", "IMG_001.jpg"]));
    assert_eq!(assets[0].size, 100);
    assert_eq!(assets[0].date, Date { year: 2024, month: 3, day: 5 });
}

#[test]
fn unrecognized_or_absent_extensions_never_produce_an_asset() {
    let entries = vec![
        dir_entry(&["in"], T_2024_03_05),
        file_entry(&["in", "notes.txt"], 10, T_2024_03_05),
        file_entry(&["in", "README"], 20, T_2024_03_05),
        file_entry(&["in", "photo.jpeg"], 30, T_2024_03_05),
        file_entry(&["in", "archive.tar.gz"], 40, T_2024_03_05),
        file_entry(&["in", ".jpg"], 50, T_2024_03_05),
        file_entry(&["in", "trailingdot."], 60, T_2024_03_05),
    ];
    let assets = discover(&entries).unwrap();
    assert_eq!(assets.len(), 0);
}

#[test]
fn extension_match_ignores_ascii_case() {
    let entries = vec![
        file_entry(&["in", "a.JPG"], 1, T_2024_03_05),
        file_entry(&["in", "b.NeF"], 2, T_2024_03_05),
        file_entry(&["in", "c.DnG"], 3, T_2024_03_05),
    ];
    let assets = discover(&entries).unwrap();
    assert_eq!(assets.len(), 3);
    assert_eq!(assets[0].size, 1);
    assert_eq!(assets[1].size, 2);
    assert_eq!(assets[2].size, 3);
}

#[test]
fn sidecar_directory_collapses_to_one_asset() {
    let scratch = "/tmp/pa_scratch_sidecar";
    fs_extra::dir::create_all(format!("{}/2024/jpg", scratch), true).unwrap();
    fs_extra::file::write_all(format!("{}/2024/jpg/IMG_001.jpg", scratch), &"x".repeat(100))
        .unwrap();
    fs_extra::file::write_all(format!("{}/2024/jpg/IMG_002.jpg", scratch), &"y".repeat(150))
        .unwrap();

    let entries = vec![
        dir_entry(&[scratch], T_2024_03_05),
        dir_entry(&[scratch, "2024"], T_2024_03_05),
        dir_entry(&[scratch, "2024", "jpg"], T_2023_07_15),
        file_entry(&[scratch, "2024", "jpg", "IMG_001.jpg"], 100, T_2024_03_05),
        file_entry(&[scratch, "2024", "jpg", "IMG_002.jpg"], 150, T_2024_03_05),
    ];
    let assets = discover(&entries).unwrap();
    let _ = fs_extra::dir::remove(scratch);

    assert_eq!(assets.len(), 1);
    assert_eq!(assets[0].path, comps(&[scratch, "2024", "jpg"]));
    // recursive size of the directory, read from disk
    assert_eq!(assets[0].size, 250);
    // the date comes from the directory's own metadata, not the files'
    assert_eq!(assets[0].date, Date { year: 2023, month: 7, day: 15 });
}

#[test]
fn mixed_tree_yields_file_asset_and_collapsed_directory_asset() {
    let scratch = "/tmp/pa_scratch_mixed";
    fs_extra::dir::create_all(format!("{}/2024/jpg", scratch), true).unwrap();
    fs_extra::file::write_all(format!("{}/2024/jpg/IMG_001.jpg", scratch), &"x".repeat(100))
        .unwrap();
    fs_extra::file::write_all(format!("{}/2024/jpg/IMG_002.jpg", scratch), &"y".repeat(150))
        .unwrap();

    let entries = vec![
        dir_entry(&[scratch], T_2024_03_05),
        dir_entry(&[scratch, "2024"], T_2024_03_05),
        file_entry(&[scratch, "2024", "IMG_001.jpg"], 100, T_2024_03_05),
        dir_entry(&[scratch, "2024", "jpg"], T_2024_03_05),
        file_entry(&[scratch, "2024", "jpg", "IMG_001.jpg"], 100, T_2024_03_05),
        file_entry(&[scratch, "2024", "jpg", "IMG_002.jpg"], 150, T_2024_03_05),
    ];
    let assets = discover(&entries).unwrap();
    let _ = fs_extra::dir::remove(scratch);

    assert_eq!(assets.len(), 2);
    assert_eq!(assets[0].path, comps(&[scratch, "2024", "IMG_001.jpg"]));
    assert_eq!(assets[0].size, 100);
    assert_eq!(assets[1].path, comps(&[scratch, "2024", "jpg"]));
    assert_eq!(assets[1].size, 250);
    assert_eq!(assets[1].date, Date { year: 2024, month: 3, day: 5 });

    // the collapsed directory is archived as one unit under its date bucket
    let plan = archive_plan(&comps(&["out"]), &assets[1]);
    assert_eq!(plan.dest, comps(&["out", "2024", "2024-03-05", "jpg"]));
}

#[test]
fn duplicate_walk_entries_deduplicate_on_representative_path() {
    let entries = vec![
        file_entry(&["in", "IMG_001.jpg"], 100, T_2024_03_05),
        file_entry(&["in", "IMG_001.jpg"], 100, T_2024_03_05),
    ];
    let assets = discover(&entries).unwrap();
    assert_eq!(assets.len(), 1);
}

#[test]
fn missing_file_metadata_is_fatal() {
    let entries = vec![
        FsEntry { path: comps(&["in", "IMG_001.jpg"]), is_dir: false, meta: None },
    ];
    match discover(&entries) {
        Err(DiscoverError::Metadata { path }) => {
            assert_eq!(path, comps(&["in", "IMG_001.jpg"]));
        }
        _ => panic!("expected a metadata error"),
    }
}

#[test]
fn missing_sidecar_directory_metadata_is_fatal() {
    let entries = vec![
        FsEntry { path: comps(&["in", "jpg"]), is_dir: true, meta: None },
        file_entry(&["in", "jpg", "IMG_001.jpg"], 100, T_2024_03_05),
    ];
    match discover(&entries) {
        Err(DiscoverError::Metadata { path }) => {
            assert_eq!(path, comps(&["in", "jpg"]));
        }
        _ => panic!("expected a metadata error"),
    }
}

#[test]
fn unreadable_sidecar_directory_size_is_fatal() {
    // the sidecar directory exists in the walked entries but not on disk,
    // so reading its recursive size back fails
    let entries = vec![
        dir_entry(&["/tmp/pa_no_such_scratch_dir", "jpg"], T_2024_03_05),
        file_entry(&["/tmp/pa_no_such_scratch_dir", "jpg", "IMG_001.jpg"], 100, T_2024_03_05),
    ];
    match discover(&entries) {
        Err(DiscoverError::DirSize { path }) => {
            assert_eq!(path, comps(&["/tmp/pa_no_such_scratch_dir", "jpg"]));
        }
        _ => panic!("expected a directory-size error"),
    }
}

#[test]
fn unmappable_modification_time_is_fatal() {
    let entries = vec![
        file_entry(&["in", "IMG_001.jpg"], 100, i64::MAX),
    ];
    match discover(&entries) {
        Err(DiscoverError::Timestamp { path }) => {
            assert_eq!(path, comps(&["in", "IMG_001.jpg"]));
        }
        _ => panic!("expected a timestamp error"),
    }
}

#[test]
fn root_named_jpg_collapses_files_directly_under_it() {
    let scratch = "/tmp/pa_scratch_rootjpg";
    fs_extra::dir::create_all(format!("{}/jpg", scratch), true).unwrap();
    fs_extra::file::write_all(format!("{}/jpg/IMG_001.jpg", scratch), &"x".repeat(42)).unwrap();

    let entries = vec![
        dir_entry(&[scratch, "jpg"], T_2024_03_05),
        file_entry(&[scratch, "jpg", "IMG_001.jpg"], 42, T_2024_03_05),
    ];
    let assets = discover(&entries).unwrap();
    let _ = fs_extra::dir::remove(scratch);

    assert_eq!(assets.len(), 1);
    assert_eq!(assets[0].path, comps(&[scratch, "jpg"]));
    assert_eq!(assets[0].size, 42);
}
