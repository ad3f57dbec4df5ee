use osmwater::acquire::{
    archive_name, cleanup, cleanup_after_run, directory_name, download_unzip_read, download_url,
    find_file, AcquireError, Action, Cleanup, Event, Stage, WalkEntry,
};

fn found(path: &str) -> WalkEntry {
    WalkEntry::Found(String::from(path))
}

fn tree() -> Vec<WalkEntry> {
    vec![
        found("water-polygons-split-4326"),
        found("water-polygons-split-4326/README.txt"),
        found("water-polygons-split-4326/water_polygons.cpg"),
        found("water-polygons-split-4326/water_polygons.dbf"),
        found("water-polygons-split-4326/water_polygons.prj"),
        found("water-polygons-split-4326/water_polygons.shp"),
        found("water-polygons-split-4326/water_polygons.shx"),
    ]
}

#[test]
fn each_supported_coordinate_system_has_its_archive() {
    assert_eq!(
        download_url("3857"),
        "https://osmdata.openstreetmap.de/download/water-polygons-split-3857.zip"
    );
    assert_eq!(
        download_url("4326"),
        "https://osmdata.openstreetmap.de/download/water-polygons-split-4326.zip"
    );
}

#[test]
fn any_other_coordinate_system_falls_back_to_one_archive() {
    let fallback = "https://osmdata.openstreetmap.de/download/water-polygons-split-4326.zip";
    assert_eq!(download_url("27700"), fallback);
    assert_eq!(download_url(""), fallback);
    assert_eq!(download_url("03857"), fallback);
    assert_eq!(download_url("3857 "), fallback);
}

#[test]
fn the_names_are_made_from_the_identifier() {
    assert_eq!(archive_name("4326"), "water-polygons-split-4326.zip");
    assert_eq!(archive_name("3857"), "water-polygons-split-3857.zip");
    assert_eq!(archive_name("27700"), "water-polygons-split-27700.zip");
    assert_eq!(archive_name(""), "water-polygons-split-.zip");
    assert_eq!(directory_name("4326"), "water-polygons-split-4326");
    assert_eq!(directory_name("27700"), "water-polygons-split-27700");
}

#[test]
fn cleaning_up_names_the_directory_and_the_archive() {
    assert_eq!(
        cleanup("3857"),
        Cleanup {
            directory: String::from("water-polygons-split-3857"),
            archive: String::from("water-polygons-split-3857.zip"),
        }
    );
}

#[test]
fn cleaning_up_needs_nothing_to_have_been_stored() {
    let first = cleanup("4326");
    let second = cleanup("4326");
    assert_eq!(first, second);
    assert_eq!(first.archive, archive_name("4326"));
    assert_eq!(first.directory, directory_name("4326"));
}

#[test]
fn the_download_is_removed_unless_kept() {
    assert!(cleanup_after_run(true, false));
    assert!(!cleanup_after_run(true, true));
    assert!(!cleanup_after_run(false, false));
    assert!(!cleanup_after_run(false, true));
}

#[test]
fn the_file_with_the_extension_is_found() {
    assert_eq!(
        find_file(&tree(), "shp"),
        Ok(String::from("water-polygons-split-4326/water_polygons.shp"))
    );
    assert_eq!(
        find_file(&tree(), "dbf"),
        Ok(String::from("water-polygons-split-4326/water_polygons.dbf"))
    );
}

#[test]
fn where_no_file_has_the_extension_the_path_is_empty() {
    assert_eq!(find_file(&tree(), "zip"), Ok(String::new()));
    assert_eq!(find_file(&tree(), "SHP"), Ok(String::new()));
    assert_eq!(find_file(&Vec::new(), "shp"), Ok(String::new()));
}

#[test]
fn of_several_files_with_the_extension_the_last_is_found() {
    let entries = vec![found("a/one.shp"), found("a/two.shx"), found("a/b/three.shp"), found("a/four.dbf")];
    assert_eq!(find_file(&entries, "shp"), Ok(String::from("a/b/three.shp")));
}

#[test]
fn an_unreadable_entry_fails_the_search() {
    let mut entries = tree();
    entries.push(WalkEntry::Failed);
    assert_eq!(find_file(&entries, "shp"), Err(AcquireError::TraversalFailed));
    entries.insert(0, WalkEntry::Failed);
    assert_eq!(find_file(&entries, "shp"), Err(AcquireError::TraversalFailed));
    assert_eq!(find_file(&vec![WalkEntry::Failed], "txt"), Err(AcquireError::TraversalFailed));
}

#[test]
fn the_steps_follow_each_other() {
    let (stage, action) = download_unzip_read("3857", Stage::Idle, &Event::Start).unwrap();
    assert_eq!(stage, Stage::Downloading);
    assert_eq!(
        action,
        Action::Download {
            url: String::from("https://osmdata.openstreetmap.de/download/water-polygons-split-3857.zip"),
            archive: String::from("water-polygons-split-3857.zip"),
        }
    );
    let (stage, action) = download_unzip_read("3857", stage, &Event::Downloaded).unwrap();
    assert_eq!(stage, Stage::Extracting);
    assert_eq!(action, Action::Extract { archive: String::from("water-polygons-split-3857.zip") });
    let (stage, action) = download_unzip_read("3857", stage, &Event::Extracted).unwrap();
    assert_eq!(stage, Stage::Locating);
    assert_eq!(action, Action::Walk { directory: String::from("water-polygons-split-3857") });
    let entries = vec![
        found("water-polygons-split-3857"),
        found("water-polygons-split-3857/water_polygons.dbf"),
        found("water-polygons-split-3857/water_polygons.shp"),
    ];
    let (stage, action) = download_unzip_read("3857", stage, &Event::Walked(entries)).unwrap();
    assert_eq!(stage, Stage::Ready);
    assert_eq!(
        action,
        Action::Read { path: String::from("water-polygons-split-3857/water_polygons.shp") }
    );
}

#[test]
fn another_coordinate_system_downloads_the_fallback_under_its_own_name() {
    let (_, action) = download_unzip_read("27700", Stage::Idle, &Event::Start).unwrap();
    assert_eq!(
        action,
        Action::Download {
            url: String::from("https://osmdata.openstreetmap.de/download/water-polygons-split-4326.zip"),
            archive: String::from("water-polygons-split-27700.zip"),
        }
    );
}

#[test]
fn cancelling_removes_what_was_stored_at_every_stage_before_the_end() {
    for stage in [Stage::Idle, Stage::Downloading, Stage::Extracting, Stage::Locating] {
        assert_eq!(
            download_unzip_read("4326", stage, &Event::Cancel),
            Ok((
                Stage::Cancelled,
                Action::Remove {
                    directory: String::from("water-polygons-split-4326"),
                    archive: String::from("water-polygons-split-4326.zip"),
                }
            ))
        );
    }
}

#[test]
fn nothing_follows_the_end() {
    let events =
        [Event::Start, Event::Downloaded, Event::Extracted, Event::Walked(tree()), Event::Cancel];
    for stage in [Stage::Ready, Stage::Cancelled] {
        for event in &events {
            assert_eq!(download_unzip_read("4326", stage, event), Err(AcquireError::OutOfOrder));
        }
    }
}

#[test]
fn an_event_out_of_order_is_refused() {
    assert_eq!(download_unzip_read("4326", Stage::Idle, &Event::Downloaded), Err(AcquireError::OutOfOrder));
    assert_eq!(download_unzip_read("4326", Stage::Idle, &Event::Walked(tree())), Err(AcquireError::OutOfOrder));
    assert_eq!(download_unzip_read("4326", Stage::Downloading, &Event::Start), Err(AcquireError::OutOfOrder));
    assert_eq!(download_unzip_read("4326", Stage::Downloading, &Event::Extracted), Err(AcquireError::OutOfOrder));
    assert_eq!(download_unzip_read("4326", Stage::Extracting, &Event::Downloaded), Err(AcquireError::OutOfOrder));
    assert_eq!(download_unzip_read("4326", Stage::Locating, &Event::Extracted), Err(AcquireError::OutOfOrder));
}

#[test]
fn an_archive_without_the_dataset_fails() {
    let entries = vec![found("water-polygons-split-4326"), found("water-polygons-split-4326/README.txt")];
    assert_eq!(
        download_unzip_read("4326", Stage::Locating, &Event::Walked(entries)),
        Err(AcquireError::NotFound)
    );
    assert_eq!(
        download_unzip_read("4326", Stage::Locating, &Event::Walked(Vec::new())),
        Err(AcquireError::NotFound)
    );
}

#[test]
fn an_unreadable_entry_fails_the_fetching() {
    let mut entries = tree();
    entries.push(WalkEntry::Failed);
    assert_eq!(
        download_unzip_read("4326", Stage::Locating, &Event::Walked(entries)),
        Err(AcquireError::TraversalFailed)
    );
}
