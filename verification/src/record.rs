//! The session record the store persists, and its mathematical content.

use vstd::prelude::*;
use vstd::string::StrSliceExecFns;

verus! {

/// A character that may stand in a record's strings as it is: the on-disk
/// encoding quotes strings verbatim, so the quote, the backslash and the
/// control characters are kept out.
pub open spec fn plain_char(c: char) -> bool {
    c != '"' && c != '\\' && (c as u32) >= 32
}

/// Every character of the string is plain.
pub open spec fn plain(s: Seq<char>) -> bool {
    forall|i: int| 0 <= i < s.len() ==> plain_char(s[i])
}

/// Both strings of a payload pair are plain.
pub open spec fn pair_plain(p: (Seq<char>, Seq<char>)) -> bool {
    plain(p.0) && plain(p.1)
}

/// Every key and every value among the pairs is plain.
pub open spec fn pairs_wf(d: Seq<(Seq<char>, Seq<char>)>) -> bool {
    forall|i: int| 0 <= i < d.len() ==> pair_plain(#[trigger] d[i])
}

/// The pairs of a payload, as sequences of characters.
pub open spec fn pairs_view(d: Seq<(String, String)>) -> Seq<(Seq<char>, Seq<char>)> {
    Seq::new(d.len(), |i: int| (d[i].0@, d[i].1@))
}

/// Mathematical content of a session record: the rendered identifier and
/// the payload, a sequence of key/value pairs of text.
#[verifier::ext_equal]
pub struct RecordView {
    pub id: Seq<char>,
    pub data: Seq<(Seq<char>, Seq<char>)>,
}

impl RecordView {
    /// A record the store can encode losslessly: the identifier and every
    /// payload key and value consist of plain characters.
    pub open spec fn wf(self) -> bool {
        &&& plain(self.id)
        &&& pairs_wf(self.data)
    }
}

/// A session record: the identifier, as the session framework renders it,
/// and the session payload as key/value pairs of text.  The store never
/// interprets either; it only writes and reads them back.
#[derive(Clone, Debug, PartialEq, Eq)]
pub struct Record {
    /// The rendered session identifier.
    pub id: String,
    /// The payload: keys with their values, in order.
    pub data: Vec<(String, String)>,
}

impl View for Record {
    type V = RecordView;

    open spec fn view(&self) -> RecordView {
        RecordView { id: self.id@, data: pairs_view(self.data@) }
    }
}

/// Whether a character needs no escaping in the on-disk encoding.
pub fn is_plain_char(c: char) -> (b: bool)
    ensures
        b == plain_char(c),
{
    c != '"' && c != '\\' && (c as u32) >= 32
}

/// Whether every character of the string is plain.
pub fn is_plain_str(s: &str) -> (b: bool)
    ensures
        b == plain(s@),
{
    let n = s.unicode_len();
    let mut i: usize = 0;
    while i < n
        invariant
            n == s@.len(),
            0 <= i <= n,
            forall|k: int| 0 <= k < i ==> plain_char(s@[k]),
        decreases n - i,
    {
        let c = s.get_char(i);
        if !is_plain_char(c) {
            assert(!plain_char(s@[i as int]));
            return false;
        }
        i += 1;
    }
    true
}

impl Record {
    /// Whether the store can encode this record losslessly: the identifier
    /// and every payload key and value consist of plain characters.
    pub fn is_wf(&self) -> (b: bool)
        ensures
            b == self@.wf(),
    {
        if !is_plain_str(self.id.as_str()) {
            return false;
        }
        let n = self.data.len();
        let mut i: usize = 0;
        while i < n
            invariant
                n == self.data.len(),
                0 <= i <= n,
                plain(self@.id),
                forall|k: int| 0 <= k < i ==> pair_plain(#[trigger] self@.data[k]),
            decreases n - i,
        {
            proof {
                assert(self@.data[i as int] == (self.data@[i as int].0@, self.data@[i as int].1@));
            }
            if !is_plain_str(self.data[i].0.as_str()) {
                assert(!pair_plain(self@.data[i as int]));
                return false;
            }
            if !is_plain_str(self.data[i].1.as_str()) {
                assert(!pair_plain(self@.data[i as int]));
                return false;
            }
            proof {
                assert(pair_plain(self@.data[i as int]));
            }
            i += 1;
        }
        true
    }
}

} // verus!
