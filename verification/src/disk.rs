//! What the four storage operations do to the session directory, and the
//! laws that follow.
//!
//! The directory is modeled as a map from file paths to file contents.
//! Each operation is a function of the store configuration, the directory
//! and its inputs; the embedding application performs the matching
//! filesystem call and reports its outcome.

use vstd::prelude::*;

use crate::codec::{dec_record, enc_record, lemma_decode_encode};
use crate::record::RecordView;
use crate::store::{sep, FileStore};

verus! {

/// The contents of the session directory: each file's text, by path.
pub type DirView = Map<Seq<char>, Seq<char>>;

/// The directory after a record is created or saved: its file holds the
/// record's encoding, other files are untouched.  Creating and saving are
/// the same operation in this store: an unconditional whole-file write,
/// with no existence check and no collision detection.
pub open spec fn save_dir(dir: DirView, st: FileStore, r: RecordView) -> DirView {
    dir.insert(st.path_spec(r.id), enc_record(r))
}

/// What loading an identifier returns: the decoded contents of its file.
/// `None` covers both failures the store reports as its one error kind:
/// a missing file, and contents that encode no record.
pub open spec fn load_dir(dir: DirView, st: FileStore, id: Seq<char>) -> Option<RecordView> {
    if dir.dom().contains(st.path_spec(id)) {
        dec_record(dir[st.path_spec(id)])
    } else {
        None
    }
}

/// The directory after a delete: the identifier's file is gone.  Deleting
/// fails, returning `None`, when there is no such file.
pub open spec fn delete_dir(dir: DirView, st: FileStore, id: Seq<char>) -> Option<DirView> {
    if dir.dom().contains(st.path_spec(id)) {
        Some(dir.remove(st.path_spec(id)))
    } else {
        None
    }
}

/// Path determinism: the derived path is a function of the configuration
/// and the identifier alone — the concatenation of directory, separator,
/// prefix, identifier and extension — so deriving it twice for the same
/// identifier gives the same path.
pub proof fn lemma_path_deterministic(st: FileStore, id: Seq<char>)
    ensures
        st.path_spec(id) == st.dir@ + sep() + st.prefix@ + id + st.extension@,
{
}

/// Round trip: loading an identifier right after saving a well-formed
/// record under it gives that record back.
pub proof fn lemma_save_then_load(dir: DirView, st: FileStore, r: RecordView)
    requires
        r.wf(),
    ensures
        load_dir(save_dir(dir, st, r), st, r.id) == Some(r),
{
    lemma_decode_encode(r);
}

/// Overwrite: saving twice under one identifier keeps the second record
/// only — the directory is as if the first save had never happened, and
/// a load returns the second record's content, with no merge and no
/// versioning.
pub proof fn lemma_save_overwrites(dir: DirView, st: FileStore, r1: RecordView, r2: RecordView)
    requires
        r1.id == r2.id,
        r2.wf(),
    ensures
        save_dir(save_dir(dir, st, r1), st, r2) == save_dir(dir, st, r2),
        load_dir(save_dir(save_dir(dir, st, r1), st, r2), st, r2.id) == Some(r2),
{
    assert(save_dir(save_dir(dir, st, r1), st, r2) =~= save_dir(dir, st, r2));
    lemma_decode_encode(r2);
}

/// Delete removes: after a save, deleting the identifier succeeds, and a
/// subsequent load fails, for the file is gone and this store treats
/// absence as an error, not as an empty result.
pub proof fn lemma_delete_removes(dir: DirView, st: FileStore, r: RecordView)
    ensures
        delete_dir(save_dir(dir, st, r), st, r.id) is Some,
        load_dir(delete_dir(save_dir(dir, st, r), st, r.id)->Some_0, st, r.id) is None,
{
}

/// Idempotent save: saving the same record again writes the same text to
/// the same file, so the directory is exactly as after the first save.
pub proof fn lemma_save_idempotent(dir: DirView, st: FileStore, r: RecordView)
    ensures
        save_dir(save_dir(dir, st, r), st, r) == save_dir(dir, st, r),
{
    assert(save_dir(save_dir(dir, st, r), st, r) =~= save_dir(dir, st, r));
}

} // verus!
