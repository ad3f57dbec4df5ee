//! Fetching the water dataset: which archive to download for a coordinate
//! system, what the files are called, which file of the unpacked tree is the
//! dataset, and the order of the steps.
//!
//! The library decides; the caller downloads, unpacks, walks the directory
//! and removes files, and reports back what happened. All names are relative
//! to the working directory.
use crate::geometry::views;
use crate::path::{extension, extension_of, same_text};
use vstd::prelude::*;
use vstd::string::StringExecFns;

verus! {

/// The archive of water polygons in Web Mercator.
pub const URL_3857: &'static str =
    "https://osmdata.openstreetmap.de/download/water-polygons-split-3857.zip";

/// The archive of water polygons in WGS 84, which is also the one fetched
/// for any other coordinate system.
pub const URL_4326: &'static str =
    "https://osmdata.openstreetmap.de/download/water-polygons-split-4326.zip";

/// What the name of the archive and of the directory it unpacks to begin with.
pub const NAME_PREFIX: &'static str = "water-polygons-split-";

/// What the name of the archive ends with.
pub const ARCHIVE_SUFFIX: &'static str = ".zip";

/// The extension of the dataset inside the archive.
pub const DATASET_EXTENSION: &'static str = "shp";

/// The address of the archive for coordinate system `srid`.
pub open spec fn url_of(srid: Seq<char>) -> Seq<char> {
    if srid == "3857"@ {
        URL_3857@
    } else {
        URL_4326@
    }
}

/// The name of the archive for coordinate system `srid`.
pub open spec fn archive_name_of(srid: Seq<char>) -> Seq<char> {
    NAME_PREFIX@ + srid + ARCHIVE_SUFFIX@
}

/// The name of the directory that the archive for `srid` unpacks to.
pub open spec fn directory_name_of(srid: Seq<char>) -> Seq<char> {
    NAME_PREFIX@ + srid
}

/// The address to download the archive for coordinate system `srid` from.
pub fn download_url(srid: &str) -> (r: &'static str)
    ensures
        r@ == url_of(srid@),
{
    if same_text(srid, "3857") {
        URL_3857
    } else {
        URL_4326
    }
}

/// The name under which the archive for `srid` is stored.
pub fn archive_name(srid: &str) -> (r: String)
    ensures
        r@ == archive_name_of(srid@),
{
    String::from_str(NAME_PREFIX).concat(srid).concat(ARCHIVE_SUFFIX)
}

/// The name of the directory that the archive for `srid` unpacks to.
pub fn directory_name(srid: &str) -> (r: String)
    ensures
        r@ == directory_name_of(srid@),
{
    String::from_str(NAME_PREFIX).concat(srid)
}

/// One entry of a directory walk.
#[derive(Clone, Debug, PartialEq, Eq, Hash)]
pub enum WalkEntry {
    /// The path of a file or directory below the root of the walk.
    Found(String),
    /// An entry that the walk could not read, or whose path is no text.
    Failed,
}

/// What an entry of a walk holds.
pub ghost enum WalkEntryView {
    Found(Seq<char>),
    Failed,
}

impl View for WalkEntry {
    type V = WalkEntryView;

    open spec fn view(&self) -> WalkEntryView {
        match self {
            WalkEntry::Found(path) => WalkEntryView::Found(path@),
            WalkEntry::Failed => WalkEntryView::Failed,
        }
    }
}

/// Why the dataset could not be fetched.
#[derive(Clone, Copy, Debug, PartialEq, Eq, Structural, Hash)]
pub enum AcquireError {
    /// The walk through the unpacked archive met an entry it could not read.
    TraversalFailed,
    /// The unpacked archive holds no file with the extension of the dataset.
    NotFound,
    /// The event does not belong to the stage.
    OutOfOrder,
}

/// Whether the walk met an entry it could not read.
pub open spec fn walk_failed(entries: Seq<WalkEntryView>) -> bool {
    exists|i: int| 0 <= i < entries.len() && entries[i] is Failed
}

/// Whether `entry` is a path with the extension `ext`.
pub open spec fn has_extension(entry: WalkEntryView, ext: Seq<char>) -> bool {
    match entry {
        WalkEntryView::Found(path) => extension_of(path) == Some(ext),
        WalkEntryView::Failed => false,
    }
}

/// The last path of `entries` with the extension `ext`, or the empty path
/// where there is none.
pub open spec fn last_with_extension(entries: Seq<WalkEntryView>, ext: Seq<char>) -> Seq<char>
    decreases entries.len(),
{
    if entries.len() == 0 {
        Seq::empty()
    } else {
        match entries.last() {
            WalkEntryView::Found(path) if has_extension(entries.last(), ext) => path,
            _ => last_with_extension(entries.drop_last(), ext),
        }
    }
}

/// What a walk locates: the last path with the extension `ext`, the empty
/// path where no entry has it, and a failure where an entry could not be read.
pub open spec fn located(entries: Seq<WalkEntryView>, ext: Seq<char>) -> Result<
    Seq<char>,
    AcquireError,
> {
    if walk_failed(entries) {
        Err(AcquireError::TraversalFailed)
    } else {
        Ok(last_with_extension(entries, ext))
    }
}

/// Finds among the entries of a walk the file with the extension `ext`.
///
/// The file is taken to be the only one. Where several have the extension
/// the last one is returned, and where none has it the empty path, which is
/// the path of no file. One unreadable entry fails the whole search.
pub fn find_file(entries: &Vec<WalkEntry>, ext: &str) -> (r: Result<String, AcquireError>)
    ensures
        match r {
            Ok(path) => located(views(entries@), ext@) == Ok::<Seq<char>, AcquireError>(path@),
            Err(e) => located(views(entries@), ext@) == Err::<Seq<char>, AcquireError>(e),
        },
{
    let mut found: String = String::new();
    let mut i: usize = 0;
    while i < entries.len()
        invariant
            i <= entries.len(),
            !walk_failed(views(entries@).take(i as int)),
            found@ == last_with_extension(views(entries@).take(i as int), ext@),
        decreases entries.len() - i,
    {
        let ghost seen = views(entries@).take(i as int);
        let ghost next = views(entries@).take(i + 1);
        proof {
            assert(next.drop_last() == seen);
            assert(next.last() == entries@[i as int]@);
        }
        match &entries[i] {
            WalkEntry::Found(path) => {
                let matches = match extension(path.as_str()) {
                    Some(e) => same_text(e.as_str(), ext),
                    None => false,
                };
                if matches {
                    found = path.clone();
                }
                proof {
                    if walk_failed(next) {
                        let k = choose|k: int| 0 <= k < next.len() && next[k] is Failed;
                        assert(seen[k] is Failed);
                    }
                }
            },
            WalkEntry::Failed => {
                proof {
                    assert(views(entries@)[i as int] is Failed);
                }
                return Err(AcquireError::TraversalFailed);
            },
        }
        i += 1;
    }
    assert(views(entries@).take(entries.len() as int) == views(entries@));
    Ok(found)
}

/// What cleaning up removes: first the directory, then the archive.
#[derive(Clone, Debug, PartialEq, Eq, Hash)]
pub struct Cleanup {
    pub directory: String,
    pub archive: String,
}

/// What is to be removed to clean up after the download for `srid`: the
/// directory the archive unpacked to, and the archive. The names depend on
/// `srid` alone, so cleaning up can be asked for at any time, before
/// anything was downloaded and more than once: what is not there is not
/// removed.
pub fn cleanup(srid: &str) -> (r: Cleanup)
    ensures
        r.directory@ == directory_name_of(srid@),
        r.archive@ == archive_name_of(srid@),
{
    Cleanup { directory: directory_name(srid), archive: archive_name(srid) }
}

/// Whether what was downloaded is removed at the end of a run: only where
/// there was a download, and unless it is to be kept.
pub fn cleanup_after_run(download: bool, keep: bool) -> (r: bool)
    ensures
        r == (download && !keep),
{
    download && !keep
}

/// How far the fetching of the dataset has come.
#[derive(Clone, Copy, Debug, PartialEq, Eq, Structural, Hash)]
pub enum Stage {
    /// Nothing has been asked for yet.
    Idle,
    /// The archive is being downloaded.
    Downloading,
    /// The archive is being unpacked.
    Extracting,
    /// The unpacked tree is being walked for the dataset.
    Locating,
    /// The dataset is found and can be read.
    Ready,
    /// The run was cancelled.
    Cancelled,
}

impl Stage {
    /// Whether nothing follows this stage.
    pub open spec fn is_final(self) -> bool {
        self is Ready || self is Cancelled
    }
}

/// What the caller reports.
#[derive(Clone, Debug, PartialEq, Eq, Hash)]
pub enum Event {
    /// The dataset is asked for.
    Start,
    /// The archive has been stored.
    Downloaded,
    /// The archive has been unpacked.
    Extracted,
    /// The unpacked tree has been walked; these are its entries.
    Walked(Vec<WalkEntry>),
    /// The run is to be cancelled.
    Cancel,
}

/// What an event holds.
pub ghost enum EventView {
    Start,
    Downloaded,
    Extracted,
    Walked(Seq<WalkEntryView>),
    Cancel,
}

impl View for Event {
    type V = EventView;

    open spec fn view(&self) -> EventView {
        match self {
            Event::Start => EventView::Start,
            Event::Downloaded => EventView::Downloaded,
            Event::Extracted => EventView::Extracted,
            Event::Walked(entries) => EventView::Walked(views(entries@)),
            Event::Cancel => EventView::Cancel,
        }
    }
}

/// What the caller is to do next.
#[derive(Clone, Debug, PartialEq, Eq, Hash)]
pub enum Action {
    /// Download `url` and store it as `archive`.
    Download { url: String, archive: String },
    /// Unpack `archive` into the directory it lies in.
    Extract { archive: String },
    /// Walk the tree below `directory` and report its entries.
    Walk { directory: String },
    /// Read the shapefile at `path`.
    Read { path: String },
    /// Remove `directory` with all below it, then `archive`, and end the run.
    Remove { directory: String, archive: String },
}

/// What an action holds.
pub ghost enum ActionView {
    Download { url: Seq<char>, archive: Seq<char> },
    Extract { archive: Seq<char> },
    Walk { directory: Seq<char> },
    Read { path: Seq<char> },
    Remove { directory: Seq<char>, archive: Seq<char> },
}

impl View for Action {
    type V = ActionView;

    open spec fn view(&self) -> ActionView {
        match self {
            Action::Download { url, archive } => ActionView::Download {
                url: url@,
                archive: archive@,
            },
            Action::Extract { archive } => ActionView::Extract { archive: archive@ },
            Action::Walk { directory } => ActionView::Walk { directory: directory@ },
            Action::Read { path } => ActionView::Read { path: path@ },
            Action::Remove { directory, archive } => ActionView::Remove {
                directory: directory@,
                archive: archive@,
            },
        }
    }
}

/// The step that `event` causes at `stage` while the dataset for `srid` is
/// fetched: the stage that follows and what is to be done, or why there is
/// no such step.
pub open spec fn step(srid: Seq<char>, stage: Stage, event: EventView) -> Result<
    (Stage, ActionView),
    AcquireError,
> {
    match (stage, event) {
        (Stage::Ready, _) | (Stage::Cancelled, _) => Err(AcquireError::OutOfOrder),
        (_, EventView::Cancel) => Ok(
            (
                Stage::Cancelled,
                ActionView::Remove {
                    directory: directory_name_of(srid),
                    archive: archive_name_of(srid),
                },
            ),
        ),
        (Stage::Idle, EventView::Start) => Ok(
            (
                Stage::Downloading,
                ActionView::Download { url: url_of(srid), archive: archive_name_of(srid) },
            ),
        ),
        (Stage::Downloading, EventView::Downloaded) => Ok(
            (Stage::Extracting, ActionView::Extract { archive: archive_name_of(srid) }),
        ),
        (Stage::Extracting, EventView::Extracted) => Ok(
            (Stage::Locating, ActionView::Walk { directory: directory_name_of(srid) }),
        ),
        (Stage::Locating, EventView::Walked(entries)) => match located(
            entries,
            DATASET_EXTENSION@,
        ) {
            Err(e) => Err(e),
            Ok(path) => if path.len() == 0 {
                Err(AcquireError::NotFound)
            } else {
                Ok((Stage::Ready, ActionView::Read { path }))
            },
        },
        _ => Err(AcquireError::OutOfOrder),
    }
}

/// The stage that follows `stage` where nothing is cancelled and nothing
/// fails.
pub open spec fn successor(stage: Stage) -> Stage {
    match stage {
        Stage::Idle => Stage::Downloading,
        Stage::Downloading => Stage::Extracting,
        Stage::Extracting => Stage::Locating,
        Stage::Locating => Stage::Ready,
        Stage::Ready => Stage::Ready,
        Stage::Cancelled => Stage::Cancelled,
    }
}

/// Every step leads to the next stage of the line, from `Idle` to `Ready`,
/// or, on `Cancel`, to `Cancelled`. No step leads back, and none passes a
/// stage over.
pub proof fn lemma_steps_follow_the_line(srid: Seq<char>, stage: Stage, event: EventView)
    ensures
        step(srid, stage, event) matches Ok((next, _)) ==> !stage.is_final() && (if event
            is Cancel {
            next == Stage::Cancelled
        } else {
            next == successor(stage)
        }),
{
}

/// Cancelling is answered at every stage before the end, and always in one
/// way: with the removal of the directory and of the archive that a download
/// for the same coordinate system stores, whether or not it was stored yet.
pub proof fn lemma_cancel_removes_the_download(srid: Seq<char>, stage: Stage)
    requires
        !stage.is_final(),
    ensures
        step(srid, stage, EventView::Cancel) == Ok::<(Stage, ActionView), AcquireError>(
            (
                Stage::Cancelled,
                ActionView::Remove {
                    directory: directory_name_of(srid),
                    archive: archive_name_of(srid),
                },
            ),
        ),
        step(srid, Stage::Idle, EventView::Start) matches Ok((_, ActionView::Download { archive, .. }))
            && archive == archive_name_of(srid),
        archive_name_of(srid) == directory_name_of(srid) + ARCHIVE_SUFFIX@,
{
}

/// At the end nothing is answered any more.
pub proof fn lemma_nothing_follows_the_end(srid: Seq<char>, stage: Stage, event: EventView)
    requires
        stage.is_final(),
    ensures
        step(srid, stage, event) == Err::<(Stage, ActionView), AcquireError>(
            AcquireError::OutOfOrder,
        ),
{
}

/// The dataset is read only where the walk found it: the path handed out is
/// one of the entries of the walk and has the extension of the dataset.
pub proof fn lemma_the_dataset_was_found(srid: Seq<char>, entries: Seq<WalkEntryView>)
    ensures
        step(srid, Stage::Locating, EventView::Walked(entries)) matches Ok(
            (_, ActionView::Read { path }),
        ) ==> entries.contains(WalkEntryView::Found(path)) && extension_of(path) == Some(
            DATASET_EXTENSION@,
        ),
{
    lemma_last_with_extension(entries, DATASET_EXTENSION@);
}

/// What `last_with_extension` returns is an entry with the extension, and
/// not empty, where any entry has the extension. Where none has it the path
/// is empty.
pub proof fn lemma_last_with_extension(entries: Seq<WalkEntryView>, ext: Seq<char>)
    ensures
        ({
            let path = last_with_extension(entries, ext);
            if exists|i: int| 0 <= i < entries.len() && has_extension(entries[i], ext) {
                entries.contains(WalkEntryView::Found(path)) && extension_of(path) == Some(ext)
                    && path.len() > 0
            } else {
                path.len() == 0
            }
        }),
    decreases entries.len(),
{
    if entries.len() > 0 {
        let front = entries.drop_last();
        let last = entries.len() - 1;
        let path = last_with_extension(front, ext);
        lemma_last_with_extension(front, ext);
        if has_extension(entries.last(), ext) {
            assert(has_extension(entries[last], ext));
            assert(entries[last] == WalkEntryView::Found(last_with_extension(entries, ext)));
            lemma_extension_needs_a_name(last_with_extension(entries, ext));
        } else if exists|i: int| 0 <= i < entries.len() && has_extension(entries[i], ext) {
            let i = choose|i: int| 0 <= i < entries.len() && has_extension(entries[i], ext);
            assert(has_extension(front[i], ext));
            let k = choose|k: int| 0 <= k < front.len() && front[k] == WalkEntryView::Found(path);
            assert(entries[k] == WalkEntryView::Found(path));
        } else {
            assert forall|i: int| 0 <= i < front.len() implies !has_extension(front[i], ext) by {
                assert(front[i] == entries[i]);
            }
        }
    }
}

/// A path with an extension is not empty.
pub proof fn lemma_extension_needs_a_name(path: Seq<char>)
    ensures
        extension_of(path) is Some ==> path.len() > 0,
{
    crate::path::lemma_last_index_of(path, '/');
    crate::path::lemma_last_index_of(crate::path::file_name_of(path), '.');
}

/// Fetches the dataset for `srid` step by step: download, unpack, locate,
/// read. Called with the stage reached and what the caller reports, it
/// returns the next stage and what the caller is to do. The caller begins at
/// `Idle` with `Start` and ends when told to read. `Cancel` is answered at
/// every stage before the end with the removal of whatever was stored.
pub fn download_unzip_read(srid: &str, stage: Stage, event: &Event) -> (r: Result<
    (Stage, Action),
    AcquireError,
>)
    ensures
        match r {
            Ok((next, action)) => step(srid@, stage, event@) == Ok::<
                (Stage, ActionView),
                AcquireError,
            >((next, action@)),
            Err(e) => step(srid@, stage, event@) == Err::<(Stage, ActionView), AcquireError>(e),
        },
{
    match stage {
        Stage::Ready => {
            return Err(AcquireError::OutOfOrder);
        },
        Stage::Cancelled => {
            return Err(AcquireError::OutOfOrder);
        },
        _ => {},
    }
    match event {
        Event::Cancel => {
            let targets = cleanup(srid);
            Ok(
                (
                    Stage::Cancelled,
                    Action::Remove { directory: targets.directory, archive: targets.archive },
                ),
            )
        },
        Event::Start => match stage {
            Stage::Idle => Ok(
                (
                    Stage::Downloading,
                    Action::Download {
                        url: download_url(srid).to_owned(),
                        archive: archive_name(srid),
                    },
                ),
            ),
            _ => Err(AcquireError::OutOfOrder),
        },
        Event::Downloaded => match stage {
            Stage::Downloading => Ok(
                (Stage::Extracting, Action::Extract { archive: archive_name(srid) }),
            ),
            _ => Err(AcquireError::OutOfOrder),
        },
        Event::Extracted => match stage {
            Stage::Extracting => Ok(
                (Stage::Locating, Action::Walk { directory: directory_name(srid) }),
            ),
            _ => Err(AcquireError::OutOfOrder),
        },
        Event::Walked(entries) => match stage {
            Stage::Locating => match find_file(entries, DATASET_EXTENSION) {
                Err(e) => Err(e),
                Ok(path) => {
                    if path.as_str().unicode_len() == 0 {
                        Err(AcquireError::NotFound)
                    } else {
                        Ok((Stage::Ready, Action::Read { path }))
                    }
                },
            },
            _ => Err(AcquireError::OutOfOrder),
        },
    }
}

} // verus!
