//! The store configuration and the derivation of a record's file path.

use vstd::prelude::*;
use vstd::string::StringExecFns;

use crate::codec::{enc_record, encode_record};
use crate::record::Record;

verus! {

/// The path separator this store joins components with.
pub open spec fn sep() -> Seq<char> {
    seq!['/']
}

/// Configuration of a file-backed session store: where session files live
/// and how their names are built.  The three fields are fixed at
/// construction and never change.
#[derive(Clone, Debug, Default)]
pub struct FileStore {
    /// Directory to use for session storage, without a trailing separator.
    pub dir: &'static str,
    /// Optional prefix for session file names.
    pub prefix: &'static str,
    /// Optional extension for session file names.
    pub extension: &'static str,
}

impl FileStore {
    /// The path at which a record with the given identifier is kept:
    /// directory, separator, prefix, identifier, extension.
    pub open spec fn path_spec(self, id: Seq<char>) -> Seq<char> {
        self.dir@ + sep() + self.prefix@ + id + self.extension@
    }

    /// Creates a store that keeps its files under `dir`, named
    /// `prefix` + identifier + `extension`.
    pub fn new(dir: &'static str, prefix: &'static str, extension: &'static str) -> (s: Self)
        ensures
            s.dir@ == dir@,
            s.prefix@ == prefix@,
            s.extension@ == extension@,
    {
        Self { dir, prefix, extension }
    }

    /// Creates a store that keeps its files under `dir`, named by the bare
    /// identifier: empty prefix and extension.
    pub fn in_dir(d: &'static str) -> (s: Self)
        ensures
            s.dir@ == d@,
            s.prefix@.len() == 0,
            s.extension@.len() == 0,
    {
        proof {
            reveal_strlit("");
        }
        Self { dir: d, prefix: "", extension: "" }
    }

    /// Returns the full path a session with the given identifier should be
    /// found or created at.
    pub fn path(&self, session_id: &str) -> (r: String)
        ensures
            r@ == self.path_spec(session_id@),
    {
        let mut s = String::new();
        s.append(self.dir);
        s.append("/");
        s.append(self.prefix);
        s.append(session_id);
        s.append(self.extension);
        proof {
            reveal_strlit("/");
            assert(("/")@ =~= sep());
            assert(s@ =~= self.path_spec(session_id@));
        }
        s
    }

    /// Everything a save does short of the filesystem write: saving (or
    /// creating — the two are the same operation here) means writing the
    /// returned text to the returned path, replacing the file
    /// unconditionally.
    pub fn save_plan(&self, record: &Record) -> (p: (String, String))
        ensures
            p.0@ == self.path_spec(record@.id),
            p.1@ == enc_record(record@),
    {
        let path = self.path(record.id.as_str());
        let content = encode_record(record);
        (path, content)
    }
}

} // verus!
