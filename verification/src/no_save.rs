//! What `aube add --no-save` remembers before it changes a project, and how it puts it back.

use crate::text;
use vstd::prelude::*;

verus! {

/// What reading a file gave.
#[derive(Debug)]
pub enum FileRead {
    Bytes(Vec<u8>),
    /// There is no such file.
    Missing,
    Failed,
}

/// How a file is put back: as it was, or away if it was not there.
#[derive(Debug)]
pub enum Restore {
    Write(Vec<u8>),
    Delete,
}

/// What trying to delete a file gave.
#[derive(Debug, Clone, Copy, PartialEq, Eq, Structural)]
pub enum Removal {
    Removed,
    /// There was no such file.
    Missing,
    Failed,
}

/// The contents of a file, `None` where there is none.
pub open spec fn contents(read: FileRead) -> Option<Seq<u8>> {
    match read {
        FileRead::Bytes(bytes) => Some(bytes@),
        _ => None,
    }
}

/// How a file with these contents is put back.
pub enum RestoreModel {
    Write(Seq<u8>),
    Delete,
}

impl View for Restore {
    type V = RestoreModel;

    open spec fn view(&self) -> RestoreModel {
        match *self {
            Restore::Write(bytes) => RestoreModel::Write(bytes@),
            Restore::Delete => RestoreModel::Delete,
        }
    }
}

/// How a file with these contents is put back: by writing them, or, where there was no file,
/// by deleting what is there now.
pub open spec fn way_back(before: Option<Seq<u8>>) -> RestoreModel {
    match before {
        Some(bytes) => RestoreModel::Write(bytes),
        None => RestoreModel::Delete,
    }
}

/// The contents of a file that has the contents `now`, after it was put back.
pub open spec fn put_back(now: Option<Seq<u8>>, way: RestoreModel) -> Option<Seq<u8>> {
    match way {
        RestoreModel::Write(bytes) => Some(bytes),
        RestoreModel::Delete => None,
    }
}

/// How a lockfile that was read before the change is put back: its bytes are written again, or,
/// where there was none, the new one is deleted. `None` where the lockfile could not be read:
/// nothing may be changed then.
pub fn lockfile_restore(read: FileRead) -> (r: Option<Restore>)
    ensures
        match r {
            None => read is Failed,
            Some(way) => read !is Failed && way@ == way_back(contents(read)),
        },
{
    match read {
        FileRead::Bytes(bytes) => Some(Restore::Write(bytes)),
        FileRead::Missing => Some(Restore::Delete),
        FileRead::Failed => None,
    }
}

/// How a manifest that was read before the change is put back. `None` where it could not be
/// read: a project has a manifest, so one that is missing is a failure too.
pub fn manifest_restore(read: FileRead) -> (r: Option<Restore>)
    ensures
        match r {
            None => read !is Bytes,
            Some(way) => read is Bytes && way@ == way_back(contents(read)),
        },
{
    match read {
        FileRead::Bytes(bytes) => Some(Restore::Write(bytes)),
        _ => None,
    }
}

/// Whether a file that should be away is away.
pub fn is_away(removal: Removal) -> (r: bool)
    ensures
        r == (removal != Removal::Failed),
{
    match removal {
        Removal::Failed => false,
        _ => true,
    }
}

/// What is counted when the manifests of members were put back.
pub open spec fn manifest_noun_text() -> Seq<char> {
    "package.json file"@
}

/// What is counted when the manifests of members were put back.
pub fn manifest_noun() -> (r: String)
    ensures
        r@ == manifest_noun_text(),
{
    "package.json file".to_owned()
}

/// Calls `pluralizer::pluralize`: a word in the form that a count asks for. With the count in
/// front, the text starts with the count, in decimal, and a space. The form of the word goes by
/// rules that a program may extend while it runs, so nothing is stated of it; but the word that
/// is handed over is the one for manifests.
#[verifier::external_body]
fn pluralize(word: &str, count: isize, include_count: bool) -> (r: String)
    requires
        word@ == manifest_noun_text(),
    ensures
        include_count && count >= 0 ==> text::begins_with(
            r@,
            text::decimal_text(count as nat) + " "@,
        ),
{
    pluralizer::pluralize(word, count, include_count)
}

/// What is said when everything was put back in one project.
pub fn restored_project_message() -> (r: String)
    ensures
        r@ == "Restored package.json and lockfile (--no-save)"@,
{
    "Restored package.json and lockfile (--no-save)".to_owned()
}

/// What is said when everything was put back, given how the number of manifests reads.
pub open spec fn restored_text(manifests: Seq<char>) -> Seq<char> {
    "Restored "@ + manifests + " and lockfile (--no-save)"@
}

/// What is said when everything was put back, given how the number of manifests reads.
pub fn restored_members_text(manifests: &str) -> (r: String)
    ensures
        r@ == restored_text(manifests@),
{
    let mut r = "Restored ".to_owned();
    r.append(manifests);
    r.append(" and lockfile (--no-save)");
    r
}

/// What is said when the manifests of `count` members and the lockfile were put back.
pub fn restored_members_message(count: usize) -> (r: String)
    requires
        count <= isize::MAX,
    ensures
        exists|manifests: Seq<char>|
            r@ == #[trigger] restored_text(manifests) && text::begins_with(
                manifests,
                text::decimal_text(count as nat) + " "@,
            ),
{
    let noun = manifest_noun();
    let manifests = pluralize(noun.as_str(), count as isize, true);
    restored_members_text(manifests.as_str())
}

/// `aube add --no-save` leaves a file as it found it: whatever was written to the file in
/// between, and whether or not it was there before, putting it back gives its old contents.
pub proof fn putting_back_undoes_every_change(before: Option<Seq<u8>>, now: Option<Seq<u8>>)
    ensures
        put_back(now, way_back(before)) == before,
{
}

/// What was read of a file is its bytes; a missing file has none, and one that is put back by
/// writing has exactly the bytes that were read.
pub proof fn read_bytes_are_written_back(bytes: Vec<u8>, read: FileRead)
    ensures
        read == FileRead::Bytes(bytes) ==> way_back(contents(read)) == RestoreModel::Write(bytes@),
        read is Missing ==> way_back(contents(read)) == RestoreModel::Delete,
{
}

/// The message names what was put back, between fixed words.
pub proof fn messages_name_what_was_put_back(manifests: Seq<char>)
    ensures
        text::begins_with(restored_text(manifests), "Restored "@ + manifests),
        text::finishes_with(restored_text(manifests), " and lockfile (--no-save)"@),
        restored_text(manifests).len() == "Restored "@.len() + manifests.len()
            + " and lockfile (--no-save)"@.len(),
        manifest_noun_text() == "package.json file"@,
{
    text::beginnings_and_ends_are_cut_off(
        "Restored "@ + manifests,
        " and lockfile (--no-save)"@,
        manifests,
        manifests,
    );
}

} // verus!
