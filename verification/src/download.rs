//! Downloads: a file as it is, or a directory as a zip archive made on the
//! spot.

use crate::archive::{
    archive_entries, is_archive_of, with_data, write_failure, writer_open, zip_failure,
    ArchiveEntry, ArchiveWriter,
};
use crate::paths::{
    ends_with_zip, file_name, has_suffix, join_path, join_spec, relative_spec, relative_to,
    strip_zip, strip_zip_spec, zip_suffix,
};
use crate::response_status::{ErrorKind, Failure, ResponseStatus};
use urlencoding::FromUrlEncodingError;
use vstd::prelude::*;
use vstd::utf8::{decode_utf8, encode_utf8, valid_utf8};

verus! {

/// `urlencoding::FromUrlEncodingError`, the error of a failed decoding.
/// Nothing is known of what is in it.
#[verifier::external_type_specification]
#[verifier::external_body]
pub struct ExFromUrlEncodingError(FromUrlEncodingError);

/// Whether the byte is a digit of a hexadecimal number, in either case.
pub open spec fn is_hex_digit(byte: u8) -> bool {
    ||| 0x30 <= byte <= 0x39
    ||| 0x41 <= byte <= 0x46
    ||| 0x61 <= byte <= 0x66
}

/// The number that a hexadecimal digit stands for.
pub open spec fn hex_value(byte: u8) -> int {
    if byte <= 0x39 {
        byte - 0x30
    } else if byte <= 0x46 {
        byte - 0x41 + 10
    } else {
        byte - 0x61 + 10
    }
}

/// The bytes with their percent escapes taken out: a percent sign and the
/// two hexadecimal digits after it give the one byte that they spell, and
/// every other byte stays as it is, a percent sign that no two such digits
/// follow too.
pub open spec fn unescaped(data: Seq<u8>) -> Seq<u8>
    decreases data.len(),
{
    if data.len() == 0 {
        data
    } else if data[0] != 0x25 {
        seq![data[0]] + unescaped(data.skip(1))
    } else if data.len() < 3 {
        data
    } else if is_hex_digit(data[1]) && is_hex_digit(data[2]) {
        seq![(16 * hex_value(data[1]) + hex_value(data[2])) as u8] + unescaped(data.skip(3))
    } else if is_hex_digit(data[1]) {
        seq![0x25u8, data[1]] + unescaped(data.skip(2))
    } else {
        seq![0x25u8] + unescaped(data.skip(1))
    }
}

/// What `urlencoding::decode` makes of a text: the text that its bytes
/// spell once the percent escapes are taken out, or `None` where those
/// bytes are no text.
pub open spec fn percent_decoded(encoded: Seq<char>) -> Option<Seq<char>> {
    if valid_utf8(unescaped(encode_utf8(encoded))) {
        Some(decode_utf8(unescaped(encode_utf8(encoded))))
    } else {
        None
    }
}

/// `urlencoding::decode`: the text with its percent escapes taken out, as
/// `percent_decoded` says, or an error where what is left is no text.
#[verifier::external_body]
fn decode(encoded: &str) -> (r: Result<String, FromUrlEncodingError>)
    ensures
        match r {
            Ok(text) => percent_decoded(encoded@) == Some(text@),
            Err(_) => percent_decoded(encoded@) is None,
        },
{
    urlencoding::decode(encoded)
}

/// Serves downloads from the repository at `obex_path`.
pub struct Downloader {
    pub obex_path: String,
}

/// What a download answers with: the path of a file to send as it is, or
/// the path that was asked for together with the bytes of an archive.
pub struct DownloadResponse {
    pub path: Option<String>,
    pub data: Option<Vec<u8>>,
}

/// A `DownloadResponse` as contracts speak of it.
pub struct Download {
    pub path: Option<Seq<char>>,
    pub data: Option<Seq<u8>>,
}

impl View for DownloadResponse {
    type V = Download;

    open spec fn view(&self) -> Download {
        Download {
            path: match self.path {
                Some(p) => Some(p@),
                None => None,
            },
            data: match self.data {
                Some(d) => Some(d@),
                None => None,
            },
        }
    }
}

impl DownloadResponse {
    /// The file at `path`, to be sent as it is.
    pub fn from(path: String) -> (r: Self)
        ensures
            r@ == (Download { path: Some(path@), data: None }),
    {
        DownloadResponse { path: Some(path), data: None }
    }

    /// An archive, made for the request of `path`.
    pub fn from_zip(path: String, data: Vec<u8>) -> (r: Self)
        ensures
            r@ == (Download { path: Some(path@), data: Some(data@) }),
    {
        DownloadResponse { path: Some(path), data: Some(data) }
    }

    /// The name under which an archive is offered for saving: the last
    /// segment of the path that was asked for. A response that carries no
    /// archive has none.
    pub fn attachment_name(&self) -> (r: Option<String>)
        ensures
            r is Some <==> self@.path is Some && self@.data is Some,
            r matches Some(name) ==> {
                let path = self@.path->0;
                &&& name@.len() <= path.len()
                &&& name@ == path.skip(path.len() - name@.len())
                &&& !name@.contains('/')
                &&& name@.len() < path.len() ==> path[path.len() - name@.len() - 1] == '/'
            },
    {
        match (&self.path, &self.data) {
            (Some(path), Some(_)) => Some(file_name(path.as_str())),
            _ => None,
        }
    }
}

/// The paths that a request is about.
pub struct Located {
    /// The path that was asked for, below the repository.
    pub relative: String,
    /// The same on disk.
    pub absolute: String,
    /// The path on disk of what was asked for without its `.zip`.
    pub stripped: String,
}

/// A `Located` as contracts speak of it.
pub struct Location {
    pub relative: Seq<char>,
    pub absolute: Seq<char>,
    pub stripped: Seq<char>,
}

impl View for Located {
    type V = Location;

    open spec fn view(&self) -> Location {
        Location { relative: self.relative@, absolute: self.absolute@, stripped: self.stripped@ }
    }
}

/// What was found on disk at the paths of a request.
#[derive(Clone, Copy, Debug, PartialEq, Eq, Structural)]
pub struct PathProbe {
    /// The path without its `.zip` is a directory.
    pub stripped_is_dir: bool,
    /// The path without its `.zip` exists.
    pub stripped_exists: bool,
    /// The path as it was asked for is a file.
    pub path_is_file: bool,
}

/// What is to be done for a request.
pub enum Route {
    /// Archive `directory`; the request was for `requested`.
    Archive { directory: String, requested: String },
    /// Send the file at this path as it is.
    File(String),
    /// List the directory at this path below the repository.
    Listing(String),
}

/// A `Route` as contracts speak of it.
pub enum Plan {
    Archive { directory: Seq<char>, requested: Seq<char> },
    File(Seq<char>),
    Listing(Seq<char>),
}

impl View for Route {
    type V = Plan;

    open spec fn view(&self) -> Plan {
        match *self {
            Route::Archive { directory, requested } => Plan::Archive {
                directory: directory@,
                requested: requested@,
            },
            Route::File(path) => Plan::File(path@),
            Route::Listing(path) => Plan::Listing(path@),
        }
    }
}

/// One step of the walk through a directory that is to be archived.
pub enum WalkSlot {
    /// The walk failed here; the text says why.
    Failed(String),
    /// A directory.
    Directory { path: String },
    /// Anything that is no directory, with what it holds or the reason why
    /// it could not be read.
    File { path: String, content: Result<Vec<u8>, String> },
}

/// The paths of the request for `relative` in the repository at `obex_path`.
pub open spec fn location_of(obex_path: Seq<char>, relative: Seq<char>) -> Location {
    Location {
        relative,
        absolute: join_spec(obex_path, relative),
        stripped: join_spec(obex_path, strip_zip_spec(relative)),
    }
}

/// The message for a request that nothing on disk answers to.
pub open spec fn no_such_message(relative: Seq<char>, stripped: Seq<char>) -> Seq<char> {
    "No such file ("@ + relative + ") or directory ("@ + stripped + ")"@
}

/// The longest path, in bytes, that a zip archive can store a file under.
pub const MAX_ENTRY_PATH_BYTES: usize = 65535;

/// The message for a file whose path no archive can store.
pub open spec fn too_long_message(path: Seq<char>) -> Seq<char> {
    "Path is too long for an archive: "@ + path
}

/// The message for a walk that left the directory it was to stay in.
pub open spec fn outside_message(path: Seq<char>) -> Seq<char> {
    "Not inside the archived directory: "@ + path
}

/// What is to be done for a request: a path that ends in `.zip` and names
/// a directory once that is taken off asks for the archive of the
/// directory; else the path without `.zip` must exist; a file is then sent
/// as it is, and anything else is listed.
pub open spec fn route_of(at: Location, probe: PathProbe) -> Result<Plan, Failure> {
    if has_suffix(at.relative, zip_suffix()) && probe.stripped_is_dir {
        Ok(Plan::Archive { directory: at.stripped, requested: at.absolute })
    } else if !probe.stripped_exists {
        Err(
            Failure {
                kind: ErrorKind::NotFound,
                message: no_such_message(at.relative, at.stripped),
            },
        )
    } else if probe.path_is_file {
        Ok(Plan::File(at.absolute))
    } else {
        Ok(Plan::Listing(at.relative))
    }
}

/// What one step of the walk through `directory` gives to the archive: a
/// file under its path as seen from `directory`, nothing for a directory,
/// or the error that ends the request. A step that failed, a file that
/// could not be read, a file outside `directory` and a path longer than an
/// archive can store are such errors.
pub open spec fn slot_entry(slot: WalkSlot, directory: Seq<char>) -> Result<
    Option<ArchiveEntry>,
    Failure,
> {
    match slot {
        WalkSlot::Failed(why) => Err(Failure { kind: ErrorKind::Io, message: why@ }),
        WalkSlot::Directory { .. } => Ok(None),
        WalkSlot::File { path, content } => match content {
            Err(why) => Err(Failure { kind: ErrorKind::Io, message: why@ }),
            Ok(bytes) => match relative_spec(directory, path@) {
                None => Err(Failure { kind: ErrorKind::Io, message: outside_message(path@) }),
                Some(inside) => if encode_utf8(inside).len() > MAX_ENTRY_PATH_BYTES {
                    Err(Failure { kind: ErrorKind::Io, message: too_long_message(path@) })
                } else {
                    Ok(Some(ArchiveEntry { path: inside, content: bytes@ }))
                },
            },
        },
    }
}

/// The files that the walk through `directory` gives to the archive, in the
/// order of the walk, or the error of the first step that has one.
pub open spec fn walk_entries(walk: Seq<WalkSlot>, directory: Seq<char>) -> Result<
    Seq<ArchiveEntry>,
    Failure,
>
    decreases walk.len(),
{
    if walk.len() == 0 {
        Ok(Seq::empty())
    } else {
        match walk_entries(walk.drop_last(), directory) {
            Err(e) => Err(e),
            Ok(entries) => match slot_entry(walk.last(), directory) {
                Err(e) => Err(e),
                Ok(None) => Ok(entries),
                Ok(Some(entry)) => Ok(entries.push(entry)),
            },
        }
    }
}

/// The answer to a request for the archive of `directory`: for a walk
/// without a failure the path that was asked for and an archive of exactly
/// the files of the walk, and else the error of the first step that
/// failed.
pub open spec fn archive_answer(
    r: Result<DownloadResponse, ResponseStatus>,
    directory: Seq<char>,
    requested: Seq<char>,
    walk: Seq<WalkSlot>,
) -> bool {
    match walk_entries(walk, directory) {
        Ok(entries) => {
            &&& r is Ok
            &&& r->Ok_0@.path == Some(requested)
            &&& r->Ok_0@.data is Some
            &&& is_archive_of(r->Ok_0@.data->0, entries)
        },
        Err(failure) => r is Err && r->Err_0@ == failure,
    }
}

/// What holds of the answer to the request at `at`: the error of the
/// route where there is none; the file itself, or the directory to list,
/// by its path on disk; and for an archive what `archive_answer` says.
pub open spec fn download_answer(
    r: Result<DownloadResponse, ResponseStatus>,
    at: Location,
    probe: PathProbe,
    walk: Seq<WalkSlot>,
) -> bool {
    match route_of(at, probe) {
        Err(failure) => r matches Err(e) && e@ == failure,
        Ok(Plan::File(path)) => r matches Ok(response) && response@ == (Download {
            path: Some(path),
            data: None,
        }),
        Ok(Plan::Listing(_)) => r matches Ok(response) && response@ == (Download {
            path: Some(at.absolute),
            data: None,
        }),
        Ok(Plan::Archive { directory, requested }) => archive_answer(
            r,
            directory,
            requested,
            walk,
        ),
    }
}

/// Once a step of the walk has failed, the steps after it change nothing.
pub proof fn lemma_walk_failure_is_final(walk: Seq<WalkSlot>, k: int, directory: Seq<char>)
    requires
        0 <= k <= walk.len(),
        walk_entries(walk.take(k), directory) is Err,
    ensures
        walk_entries(walk, directory) == walk_entries(walk.take(k), directory),
    decreases walk.len() - k,
{
    if k < walk.len() {
        assert(walk.take(k + 1).drop_last() == walk.take(k));
        lemma_walk_failure_is_final(walk, k + 1, directory);
    } else {
        assert(walk.take(k) == walk);
    }
}

/// What one step of the walk gives to the archive.
fn entry_of<'a>(slot: &'a WalkSlot, directory: &str) -> (r: Result<
    Option<(String, &'a Vec<u8>)>,
    ResponseStatus,
>)
    ensures
        match r {
            Ok(Some((path, content))) => slot_entry(*slot, directory@) == Ok::<
                Option<ArchiveEntry>,
                Failure,
            >(Some(ArchiveEntry { path: path@, content: content@ })),
            Ok(None) => slot_entry(*slot, directory@) == Ok::<Option<ArchiveEntry>, Failure>(None),
            Err(e) => slot_entry(*slot, directory@) == Err::<Option<ArchiveEntry>, Failure>(e@),
        },
{
    match slot {
        WalkSlot::Failed(why) => Err(ResponseStatus::new(ErrorKind::Io, why.clone())),
        WalkSlot::Directory { .. } => Ok(None),
        WalkSlot::File { path, content } => {
            let bytes = match content {
                Ok(bytes) => bytes,
                Err(why) => {
                    return Err(ResponseStatus::new(ErrorKind::Io, why.clone()));
                },
            };
            match relative_to(directory, path.as_str()) {
                None => Err(failure(ErrorKind::Io, "Not inside the archived directory: ", path)),
                Some(inside) => {
                    if inside.as_str().as_bytes().len() > MAX_ENTRY_PATH_BYTES {
                        Err(failure(ErrorKind::Io, "Path is too long for an archive: ", path))
                    } else {
                        Ok(Some((inside, bytes)))
                    }
                },
            }
        },
    }
}

/// Starts the file `path` in the archive and writes all of `content` to it.
fn add_file(zip: &mut ArchiveWriter, path: &str, content: &[u8]) -> (r: Result<(), ResponseStatus>)
    requires
        writer_open(*old(zip)),
    ensures
        r is Ok,
        archive_entries(*final(zip)) == archive_entries(*old(zip)).push(
            ArchiveEntry { path: path@, content: content@ },
        ),
        writer_open(*final(zip)),
{
    match zip.start_file(path) {
        Err(error) => {
            return Err(zip_failure(error));
        },
        Ok(()) => {},
    }
    assert(with_data(archive_entries(*zip), content@) =~= archive_entries(*old(zip)).push(
        ArchiveEntry { path: path@, content: content@ },
    )) by {
        assert(Seq::<u8>::empty() + content@ =~= content@);
    }
    match zip.write_all(content) {
        Err(error) => {
            return Err(write_failure(error));
        },
        Ok(()) => {},
    }
    Ok(())
}

fn failure(kind: ErrorKind, prefix: &str, detail: &String) -> (r: ResponseStatus)
    ensures
        r@ == (Failure { kind, message: prefix@ + detail@ }),
{
    ResponseStatus::new(kind, prefix.to_string().concat(detail.as_str()))
}

impl Located {
    /// What is to be done for the request, given what was found on disk.
    pub fn route(&self, probe: &PathProbe) -> (r: Result<Route, ResponseStatus>)
        ensures
            match r {
                Ok(route) => route_of(self@, *probe) == Ok::<Plan, Failure>(route@),
                Err(e) => route_of(self@, *probe) == Err::<Plan, Failure>(e@),
            },
    {
        if ends_with_zip(self.relative.as_str()) && probe.stripped_is_dir {
            Ok(
                Route::Archive {
                    directory: self.stripped.clone(),
                    requested: self.absolute.clone(),
                },
            )
        } else if !probe.stripped_exists {
            let message = "No such file (".to_string().concat(self.relative.as_str()).concat(
                ") or directory (",
            ).concat(self.stripped.as_str()).concat(")");
            Err(ResponseStatus::new(ErrorKind::NotFound, message))
        } else if probe.path_is_file {
            Ok(Route::File(self.absolute.clone()))
        } else {
            Ok(Route::Listing(self.relative.clone()))
        }
    }
}

impl Downloader {
    /// The paths of the request for `relative`.
    pub fn resolve(&self, relative: String) -> (r: Located)
        ensures
            r@ == location_of(self.obex_path@, relative@),
    {
        let absolute = join_path(self.obex_path.as_str(), relative.as_str());
        let bare = strip_zip(relative.as_str());
        let stripped = join_path(self.obex_path.as_str(), bare.as_str());
        Located { relative, absolute, stripped }
    }

    /// The paths of a request whose path still has its percent escapes. A
    /// path that decodes to no text names nothing that could be served: it
    /// is refused as not found, which is the client's fault.
    pub fn locate(&self, path: &str) -> (r: Result<Located, ResponseStatus>)
        ensures
            match r {
                Ok(at) => percent_decoded(path@) matches Some(relative) && at@ == location_of(
                    self.obex_path@,
                    relative,
                ),
                Err(e) => percent_decoded(path@) is None && e.kind == ErrorKind::NotFound,
            },
    {
        match decode(path) {
            Ok(relative) => Ok(self.resolve(relative)),
            Err(error) => Err(ResponseStatus::new(ErrorKind::NotFound, error.to_string())),
        }
    }

    /// Packs what the walk through `directory` found into a zip archive and
    /// answers the request for `requested_path` with it.
    ///
    /// The archive holds every file of the walk under its path as seen from
    /// `directory`, tracked or not, and no directory. A step of the walk
    /// that failed, a file that could not be read, a path outside
    /// `directory` and a path too long for an archive each end the request
    /// with their own error, and nothing else does. No archive is handed
    /// out in part.
    pub fn get_dir(directory: &str, requested_path: String, walk: &Vec<WalkSlot>) -> (r: Result<
        DownloadResponse,
        ResponseStatus,
    >)
        ensures
            archive_answer(r, directory@, requested_path@, walk@),
    {
        let mut zip = ArchiveWriter::new();
        let mut i: usize = 0;
        while i < walk.len()
            invariant
                0 <= i <= walk@.len(),
                walk_entries(walk@.take(i as int), directory@) == Ok::<Seq<ArchiveEntry>, Failure>(
                    archive_entries(zip),
                ),
                writer_open(zip),
            decreases walk@.len() - i,
        {
            proof {
                assert(walk@.take(i + 1).drop_last() == walk@.take(i as int));
                assert(walk@.take(i + 1).last() == walk@[i as int]);
            }
            match entry_of(&walk[i], directory) {
                Err(e) => {
                    proof {
                        lemma_walk_failure_is_final(walk@, i + 1, directory@);
                    }
                    return Err(e);
                },
                Ok(None) => {},
                Ok(Some((path, content))) => {
                    match add_file(&mut zip, path.as_str(), content.as_slice()) {
                        Err(e) => {
                            return Err(e);
                        },
                        Ok(()) => {},
                    }
                },
            }
            i += 1;
        }
        assert(walk@.take(i as int) == walk@);
        let ghost filled = zip;
        match zip.finish() {
            Ok(data) => {
                assert(is_archive_of(data@, archive_entries(filled)));
                Ok(DownloadResponse::from_zip(requested_path, data))
            },
            Err(error) => Err(zip_failure(error)),
        }
    }

    /// Answers the request at `at`, given what was found on disk and, for
    /// an archive, what the walk through the directory found.
    ///
    /// A path that names a directory is handed back like a file: it is the
    /// caller who lists it.
    pub fn serve(at: &Located, probe: &PathProbe, walk: &Vec<WalkSlot>) -> (r: Result<
        DownloadResponse,
        ResponseStatus,
    >)
        ensures
            download_answer(r, at@, *probe, walk@),
    {
        match at.route(probe) {
            Err(e) => Err(e),
            Ok(Route::File(path)) => Ok(DownloadResponse::from(path)),
            Ok(Route::Listing(_)) => Ok(DownloadResponse::from(at.absolute.clone())),
            Ok(Route::Archive { directory, requested }) => Downloader::get_dir(
                directory.as_str(),
                requested,
                walk,
            ),
        }
    }

    /// Answers the request for `path`, which still has its percent
    /// escapes.
    pub fn download(&self, path: &str, probe: &PathProbe, walk: &Vec<WalkSlot>) -> (r: Result<
        DownloadResponse,
        ResponseStatus,
    >)
        ensures
            match percent_decoded(path@) {
                Some(relative) => download_answer(
                    r,
                    location_of(self.obex_path@, relative),
                    *probe,
                    walk@,
                ),
                None => r matches Err(e) && e.kind == ErrorKind::NotFound,
            },
    {
        match self.locate(path) {
            Ok(at) => Downloader::serve(&at, probe, walk),
            Err(e) => Err(e),
        }
    }
}

/// How the files of a walk come from those of the walk without its last
/// step.
proof fn lemma_walk_step(walk: Seq<WalkSlot>, directory: Seq<char>)
    requires
        walk.len() > 0,
        walk_entries(walk, directory) is Ok,
    ensures
        walk_entries(walk.drop_last(), directory) is Ok,
        !(walk.last() is Failed),
        walk.last() is Directory ==> walk_entries(walk, directory) == walk_entries(
            walk.drop_last(),
            directory,
        ),
        walk.last() is File ==> {
            &&& walk.last()->File_content is Ok
            &&& relative_spec(directory, walk.last()->File_path@) is Some
            &&& walk_entries(walk, directory)->Ok_0 == walk_entries(
                walk.drop_last(),
                directory,
            )->Ok_0.push(
                ArchiveEntry {
                    path: relative_spec(directory, walk.last()->File_path@)->0,
                    content: walk.last()->File_content->Ok_0@,
                },
            )
        },
{
}

/// Every file that the walk found is in the archive, under its path as
/// seen from the directory and with all that it holds.
pub proof fn lemma_every_file_is_archived(walk: Seq<WalkSlot>, directory: Seq<char>, i: int)
    requires
        0 <= i < walk.len(),
        walk[i] is File,
        walk_entries(walk, directory) is Ok,
    ensures
        walk[i]->File_content is Ok,
        relative_spec(directory, walk[i]->File_path@) is Some,
        exists|j: int|
            0 <= j < walk_entries(walk, directory)->Ok_0.len() && #[trigger] walk_entries(
                walk,
                directory,
            )->Ok_0[j] == (ArchiveEntry {
                path: relative_spec(directory, walk[i]->File_path@)->0,
                content: walk[i]->File_content->Ok_0@,
            }),
    decreases walk.len(),
{
    lemma_walk_step(walk, directory);
    let entries = walk_entries(walk, directory)->Ok_0;
    let before = walk_entries(walk.drop_last(), directory)->Ok_0;
    if i == walk.len() - 1 {
        assert(entries[entries.len() - 1] == (ArchiveEntry {
            path: relative_spec(directory, walk[i]->File_path@)->0,
            content: walk[i]->File_content->Ok_0@,
        }));
    } else {
        assert(walk.drop_last()[i] == walk[i]);
        lemma_every_file_is_archived(walk.drop_last(), directory, i);
        let j = choose|j: int|
            0 <= j < before.len() && #[trigger] before[j] == (ArchiveEntry {
                path: relative_spec(directory, walk[i]->File_path@)->0,
                content: walk[i]->File_content->Ok_0@,
            });
        assert(entries[j] == before[j]);
    }
}

/// Everything in the archive is a file that the walk found: no directory
/// is stored, and nothing is made up.
pub proof fn lemma_only_files_are_archived(walk: Seq<WalkSlot>, directory: Seq<char>, j: int)
    requires
        walk_entries(walk, directory) is Ok,
        0 <= j < walk_entries(walk, directory)->Ok_0.len(),
    ensures
        exists|i: int|
            0 <= i < walk.len() && (#[trigger] walk[i]) is File && walk[i]->File_content is Ok
                && relative_spec(directory, walk[i]->File_path@) is Some && walk_entries(
                walk,
                directory,
            )->Ok_0[j] == (ArchiveEntry {
                path: relative_spec(directory, walk[i]->File_path@)->0,
                content: walk[i]->File_content->Ok_0@,
            }),
    decreases walk.len(),
{
    lemma_walk_step(walk, directory);
    let entries = walk_entries(walk, directory)->Ok_0;
    let before = walk_entries(walk.drop_last(), directory)->Ok_0;
    if j < before.len() {
        lemma_only_files_are_archived(walk.drop_last(), directory, j);
        let i = choose|i: int|
            0 <= i < walk.drop_last().len() && (#[trigger] walk.drop_last()[i]) is File
                && walk.drop_last()[i]->File_content is Ok && relative_spec(
                directory,
                walk.drop_last()[i]->File_path@,
            ) is Some && before[j] == (ArchiveEntry {
                path: relative_spec(directory, walk.drop_last()[i]->File_path@)->0,
                content: walk.drop_last()[i]->File_content->Ok_0@,
            });
        assert(walk[i] == walk.drop_last()[i]);
        assert(entries[j] == before[j]);
    } else {
        let i = walk.len() - 1;
        assert(walk[i] is File);
    }
}

} // verus!
