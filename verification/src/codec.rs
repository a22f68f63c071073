//! The on-disk encoding of a record, its decoder, and the proof that the
//! decoder inverts the encoder.
//!
//! A record is kept as one JSON-style object,
//! `{"id":"<id>","data":{"<key>":"<value>",...}}`, with every string
//! written verbatim between its quotes.  That is why the strings of a
//! well-formed record are plain (see [`crate::record::plain`]): nothing
//! is escaped.

use vstd::prelude::*;
use vstd::string::StrSliceExecFns;
use vstd::string::StringExecFns;

use crate::record::{
    is_plain_char, pair_plain, pairs_view, pairs_wf, plain, plain_char, Record, RecordView,
};

verus! {

/// The opening of an encoded record, up to the identifier.
pub open spec fn head() -> Seq<char> {
    seq!['{', '"', 'i', 'd', '"', ':', '"']
}

/// What stands between the identifier and the payload pairs: the quote
/// that closes the identifier, then the key of the payload object.
pub open spec fn mid() -> Seq<char> {
    seq!['"', ',', '"', 'd', 'a', 't', 'a', '"', ':', '{']
}

/// The closing of an encoded record.
pub open spec fn tail() -> Seq<char> {
    seq!['}', '}']
}

/// The encoding of one payload pair: `"key":"value"`.
pub open spec fn enc_pair(p: (Seq<char>, Seq<char>)) -> Seq<char> {
    seq!['"'] + p.0 + seq!['"', ':', '"'] + p.1 + seq!['"']
}

/// The encoding of a payload: its pairs, separated by commas.
pub open spec fn enc_pairs(d: Seq<(Seq<char>, Seq<char>)>) -> Seq<char>
    decreases d.len(),
{
    if d.len() == 0 {
        Seq::empty()
    } else if d.len() == 1 {
        enc_pair(d[0])
    } else {
        enc_pair(d[0]) + seq![','] + enc_pairs(d.drop_first())
    }
}

/// The encoding of a whole record.
pub open spec fn enc_record(r: RecordView) -> Seq<char> {
    head() + r.id + mid() + enc_pairs(r.data) + tail()
}

/// The index of the quote that closes the string starting at `i`: the
/// first quote at or after `i`, provided only plain characters stand
/// before it.
pub open spec fn scan_plain(s: Seq<char>, i: int) -> Option<int>
    decreases s.len() - i,
{
    if i < 0 || i >= s.len() {
        None
    } else if s[i] == '"' {
        Some(i)
    } else if plain_char(s[i]) {
        scan_plain(s, i + 1)
    } else {
        None
    }
}

/// Parses the payload pairs of an encoded record, starting at the opening
/// quote of the first key.  Returns the pairs and the index of the brace
/// that closes the payload object.
pub open spec fn parse_pairs(s: Seq<char>, i: int) -> Option<(Seq<(Seq<char>, Seq<char>)>, int)>
    decreases s.len() - i,
{
    if i < 0 || i >= s.len() || s[i] != '"' {
        None
    } else {
        match scan_plain(s, i + 1) {
            None => None,
            Some(kq) => {
                if !(i < kq && kq + 2 < s.len() && s[kq + 1] == ':' && s[kq + 2] == '"') {
                    None
                } else {
                    match scan_plain(s, kq + 3) {
                        None => None,
                        Some(vq) => {
                            if !(kq + 2 < vq && vq + 1 < s.len()) {
                                None
                            } else {
                                let pair = (s.subrange(i + 1, kq), s.subrange(kq + 3, vq));
                                if s[vq + 1] == ',' {
                                    match parse_pairs(s, vq + 2) {
                                        None => None,
                                        Some((rest, e)) => Some((seq![pair] + rest, e)),
                                    }
                                } else if s[vq + 1] == '}' {
                                    Some((seq![pair], vq + 1))
                                } else {
                                    None
                                }
                            }
                        },
                    }
                }
            },
        }
    }
}

/// Decodes a sequence of characters as an encoded record.  `None` means
/// the text is not the encoding of any well-formed record.
pub open spec fn dec_record(s: Seq<char>) -> Option<RecordView> {
    if s.len() < 7 || s.subrange(0, 7) != head() {
        None
    } else {
        match scan_plain(s, 7) {
            None => None,
            Some(q) => {
                if !(q + 10 <= s.len() && s.subrange(q, q + 10) == mid()) {
                    None
                } else {
                    let id = s.subrange(7, q);
                    if q + 10 < s.len() && s[q + 10] == '}' {
                        if s.len() == q + 12 && s[q + 11] == '}' {
                            Some(RecordView { id, data: Seq::empty() })
                        } else {
                            None
                        }
                    } else {
                        match parse_pairs(s, q + 10) {
                            None => None,
                            Some((data, e)) => {
                                if s.len() == e + 2 && s[e + 1] == '}' {
                                    Some(RecordView { id, data })
                                } else {
                                    None
                                }
                            },
                        }
                    }
                }
            },
        }
    }
}

/// Encodes the payload pairs of `data` from index `i` on, as they stand
/// inside the payload object of an encoded record.
fn encode_pairs(data: &Vec<(String, String)>, i: usize) -> (s: String)
    requires
        i <= data.len(),
    ensures
        s@ == enc_pairs(pairs_view(data@).skip(i as int)),
    decreases data.len() - i,
{
    proof {
        reveal_strlit("\"");
        reveal_strlit("\":\"");
        reveal_strlit(",");
    }
    if i == data.len() {
        let s = String::new();
        proof {
            assert(pairs_view(data@).skip(i as int) =~= Seq::<(Seq<char>, Seq<char>)>::empty());
        }
        s
    } else {
        let mut s = String::from_str("\"");
        s.append(data[i].0.as_str());
        s.append("\":\"");
        s.append(data[i].1.as_str());
        s.append("\"");
        proof {
            assert(s@ =~= enc_pair(pairs_view(data@).skip(i as int)[0]));
        }
        if i + 1 == data.len() {
            proof {
                assert(pairs_view(data@).skip(i as int).len() == 1);
            }
            s
        } else {
            s.append(",");
            let rest = encode_pairs(data, i + 1);
            s.append(rest.as_str());
            proof {
                let d = pairs_view(data@).skip(i as int);
                assert(d.drop_first() =~= pairs_view(data@).skip(i as int + 1));
                assert(s@ =~= enc_pair(d[0]) + seq![','] + enc_pairs(d.drop_first()));
            }
            s
        }
    }
}

/// Finds the quote that closes the string starting at `i`, checking that
/// only plain characters stand before it.
fn scan_quote(s: &str, i: usize) -> (r: Option<usize>)
    requires
        i <= s@.len(),
    ensures
        match r {
            Some(j) => {
                &&& scan_plain(s@, i as int) == Some(j as int)
                &&& i <= j < s@.len()
                &&& s@[j as int] == '"'
            },
            None => scan_plain(s@, i as int) is None,
        },
    decreases s@.len() - i,
{
    let n = s.unicode_len();
    if i >= n {
        None
    } else {
        let c = s.get_char(i);
        if c == '"' {
            Some(i)
        } else if is_plain_char(c) {
            scan_quote(s, i + 1)
        } else {
            None
        }
    }
}

/// Parses the payload pairs of an encoded record, starting at the opening
/// quote of the first key.  Returns the pairs and the index of the brace
/// that closes the payload object.
fn parse_pairs_exec(s: &str, i: usize) -> (r: Option<(Vec<(String, String)>, usize)>)
    requires
        i <= s@.len(),
    ensures
        match r {
            Some(p) => {
                &&& parse_pairs(s@, i as int) == Some((pairs_view(p.0@), p.1 as int))
                &&& i <= p.1 < s@.len()
            },
            None => parse_pairs(s@, i as int) is None,
        },
    decreases s@.len() - i,
{
    let n = s.unicode_len();
    if i >= n {
        return None;
    }
    if s.get_char(i) != '"' {
        return None;
    }
    let kq = match scan_quote(s, i + 1) {
        None => {
            return None;
        },
        Some(kq) => kq,
    };
    if n - kq <= 2 {
        return None;
    }
    assert(kq + 2 < n);
    if s.get_char(kq + 1) != ':' || s.get_char(kq + 2) != '"' {
        return None;
    }
    let vq = match scan_quote(s, kq + 3) {
        None => {
            return None;
        },
        Some(vq) => vq,
    };
    if n - vq <= 1 {
        return None;
    }
    assert(vq + 1 < n);
    let key = String::from_str(s.substring_char(i + 1, kq));
    let val = String::from_str(s.substring_char(kq + 3, vq));
    let c = s.get_char(vq + 1);
    if c == ',' {
        match parse_pairs_exec(s, vq + 2) {
            None => None,
            Some((rest, e)) => {
                let ghost rest_view = rest@;
                let mut v = rest;
                v.insert(0, (key, val));
                proof {
                    assert(pairs_view(v@) =~= seq![
                        (s@.subrange(i as int + 1, kq as int), s@.subrange(kq as int + 3, vq as int)),
                    ] + pairs_view(rest_view));
                }
                Some((v, e))
            },
        }
    } else if c == '}' {
        let mut v: Vec<(String, String)> = Vec::new();
        v.push((key, val));
        proof {
            assert(pairs_view(v@) =~= seq![
                (s@.subrange(i as int + 1, kq as int), s@.subrange(kq as int + 3, vq as int)),
            ]);
        }
        Some((v, vq + 1))
    } else {
        None
    }
}

/// Deserializes on-disk text into the record it encodes.  `None` means the
/// text is not the encoding of any well-formed record.
pub fn decode_record(s: &str) -> (r: Option<Record>)
    ensures
        match r {
            Some(rec) => dec_record(s@) == Some(rec@),
            None => dec_record(s@) is None,
        },
{
    let n = s.unicode_len();
    if n < 7 {
        return None;
    }
    proof {
        assert forall|k: int| 0 <= k < 7 implies #[trigger] s@.subrange(0, 7)[k] == s@[k] by {}
    }
    if s.get_char(0) != '{' || s.get_char(1) != '"' || s.get_char(2) != 'i' || s.get_char(3) != 'd'
        || s.get_char(4) != '"' || s.get_char(5) != ':' || s.get_char(6) != '"' {
        proof {
            assert(s@.subrange(0, 7) != head());
        }
        return None;
    }
    proof {
        assert(s@.subrange(0, 7) =~= head());
    }
    let q = match scan_quote(s, 7) {
        None => {
            return None;
        },
        Some(q) => q,
    };
    if n - q < 10 {
        return None;
    }
    assert(q + 10 <= n);
    proof {
        assert forall|k: int| 0 <= k < 10 implies #[trigger] s@.subrange(q as int, q as int + 10)[k]
            == s@[q as int + k] by {}
    }
    if s.get_char(q + 1) != ',' || s.get_char(q + 2) != '"' || s.get_char(q + 3) != 'd'
        || s.get_char(q + 4) != 'a' || s.get_char(q + 5) != 't' || s.get_char(q + 6) != 'a'
        || s.get_char(q + 7) != '"' || s.get_char(q + 8) != ':' || s.get_char(q + 9) != '{' {
        proof {
            assert(s@.subrange(q as int, q as int + 10) != mid());
        }
        return None;
    }
    proof {
        assert(s@.subrange(q as int, q as int + 10) =~= mid());
    }
    let id = String::from_str(s.substring_char(7, q));
    if n - q > 10 && s.get_char(q + 10) == '}' {
        if n - q == 12 && s.get_char(q + 11) == '}' {
            let rec = Record { id, data: Vec::new() };
            proof {
                assert(rec@ =~= RecordView { id: s@.subrange(7, q as int), data: Seq::empty() });
            }
            Some(rec)
        } else {
            None
        }
    } else {
        match parse_pairs_exec(s, q + 10) {
            None => None,
            Some((data, e)) => {
                if n - e == 2 && s.get_char(e + 1) == '}' {
                    let ghost data_view = pairs_view(data@);
                    let rec = Record { id, data };
                    proof {
                        assert(rec@ =~= RecordView { id: s@.subrange(7, q as int), data: data_view });
                    }
                    Some(rec)
                } else {
                    None
                }
            },
        }
    }
}

/// Serializes a record into its on-disk text.
pub fn encode_record(r: &Record) -> (s: String)
    ensures
        s@ == enc_record(r@),
{
    let mut s = String::from_str("{\"id\":\"");
    proof {
        reveal_strlit("{\"id\":\"");
        assert(s@ =~= head());
    }
    s.append(r.id.as_str());
    s.append("\",\"data\":{");
    proof {
        reveal_strlit("\",\"data\":{");
        assert(("\",\"data\":{")@ =~= mid());
    }
    let pairs = encode_pairs(&r.data, 0);
    s.append(pairs.as_str());
    s.append("}}");
    proof {
        reveal_strlit("}}");
        assert(("}}")@ =~= tail());
        assert(pairs_view(r.data@).skip(0) =~= r@.data);
        assert(s@ =~= enc_record(r@));
    }
    s
}

/// The scanner finds exactly the quote that closes a plain string: if the
/// characters from `i` on are the plain string `u` followed by a quote,
/// the scan stops at that quote.
proof fn lemma_scan_at(s: Seq<char>, i: int, u: Seq<char>)
    requires
        0 <= i,
        plain(u),
        i + u.len() < s.len(),
        s.subrange(i, i + u.len()) == u,
        s[i + u.len()] == '"',
    ensures
        scan_plain(s, i) == Some(i + u.len()),
    decreases u.len(),
{
    if u.len() == 0 {
        assert(s[i] == '"');
    } else {
        assert(u[0] == s.subrange(i, i + u.len())[0]);
        assert(s[i] == u[0]);
        assert(plain_char(u[0]));
        assert forall|k: int| 0 <= k < u.drop_first().len() implies plain_char(
            #[trigger] u.drop_first()[k],
        ) by {
            assert(u.drop_first()[k] == u[k + 1]);
        }
        assert forall|k: int|
            0 <= k < u.len() - 1 implies #[trigger] s.subrange(i + 1, i + u.len())[k]
            == u.drop_first()[k] by {
            assert(s.subrange(i + 1, i + u.len())[k] == s[i + 1 + k]);
            assert(s[i + 1 + k] == s.subrange(i, i + u.len())[k + 1]);
        }
        assert(s.subrange(i + 1, i + u.len()) =~= u.drop_first());
        lemma_scan_at(s, i + 1, u.drop_first());
    }
}

/// The parser reads one encoded pair exactly: if the characters from `i`
/// on are `enc_pair(p)`, it finds the two quoted strings of `p` and stops
/// right after them.
proof fn lemma_pair_at(s: Seq<char>, i: int, p: (Seq<char>, Seq<char>))
    requires
        0 <= i,
        pair_plain(p),
        i + enc_pair(p).len() < s.len(),
        s.subrange(i, i + enc_pair(p).len()) == enc_pair(p),
    ensures
        s[i] == '"',
        scan_plain(s, i + 1) == Some(i + 1 + p.0.len()),
        s[i + 1 + p.0.len() + 1] == ':',
        s[i + 1 + p.0.len() + 2] == '"',
        scan_plain(s, i + 1 + p.0.len() + 3) == Some(i + enc_pair(p).len() - 1),
        s[i + enc_pair(p).len() - 1] == '"',
        s.subrange(i + 1, i + 1 + p.0.len()) == p.0,
        s.subrange(i + 1 + p.0.len() + 3, i + enc_pair(p).len() - 1) == p.1,
{
    let e = enc_pair(p);
    let kl = p.0.len() as int;
    let vl = p.1.len() as int;
    assert(e.len() == kl + vl + 5);
    assert(e[0] == '"');
    assert forall|j: int| 0 <= j < kl implies #[trigger] e[1 + j] == p.0[j] by {}
    assert(e[1 + kl] == '"');
    assert(e[2 + kl] == ':');
    assert(e[3 + kl] == '"');
    assert forall|j: int| 0 <= j < vl implies #[trigger] e[4 + kl + j] == p.1[j] by {}
    assert(e[4 + kl + vl] == '"');
    assert(s.subrange(i, i + e.len())[0] == e[0]);
    assert(s.subrange(i, i + e.len())[1 + kl] == e[1 + kl]);
    assert(s.subrange(i, i + e.len())[2 + kl] == e[2 + kl]);
    assert(s.subrange(i, i + e.len())[3 + kl] == e[3 + kl]);
    assert(s.subrange(i, i + e.len())[4 + kl + vl] == e[4 + kl + vl]);
    assert(s[i] == '"');
    assert(s[i + 1 + kl] == '"');
    assert(s[i + 1 + kl + 1] == ':');
    assert(s[i + 1 + kl + 2] == '"');
    assert(s[i + 4 + kl + vl] == '"');
    assert forall|j: int| 0 <= j < kl implies #[trigger] s.subrange(i + 1, i + 1 + kl)[j] == p.0[j]
        by {
        assert(s.subrange(i, i + e.len())[1 + j] == e[1 + j]);
        assert(s.subrange(i + 1, i + 1 + kl)[j] == s[i + 1 + j]);
    }
    assert(s.subrange(i + 1, i + 1 + kl) =~= p.0);
    lemma_scan_at(s, i + 1, p.0);
    assert forall|j: int|
        0 <= j < vl implies #[trigger] s.subrange(i + 4 + kl, i + 4 + kl + vl)[j] == p.1[j] by {
        assert(s.subrange(i, i + e.len())[4 + kl + j] == e[4 + kl + j]);
        assert(s.subrange(i + 4 + kl, i + 4 + kl + vl)[j] == s[i + 4 + kl + j]);
    }
    assert(s.subrange(i + 4 + kl, i + 4 + kl + vl) =~= p.1);
    lemma_scan_at(s, i + 4 + kl, p.1);
}

/// The parser reads an encoded payload exactly: if the characters from
/// `i` on are `enc_pairs(d)` followed by the closing brace, it returns
/// `d` and the index of that brace.
proof fn lemma_parse_pairs_at(s: Seq<char>, i: int, d: Seq<(Seq<char>, Seq<char>)>)
    requires
        0 <= i,
        d.len() >= 1,
        pairs_wf(d),
        i + enc_pairs(d).len() < s.len(),
        s.subrange(i, i + enc_pairs(d).len()) == enc_pairs(d),
        s[i + enc_pairs(d).len()] == '}',
    ensures
        parse_pairs(s, i) == Some((d, i + enc_pairs(d).len())),
    decreases d.len(),
{
    let ep = enc_pairs(d);
    let p = d[0];
    let e0 = enc_pair(p);
    let kl = p.0.len() as int;
    assert(pair_plain(p));
    assert forall|t: int| 0 <= t < ep.len() implies #[trigger] s[i + t] == ep[t] by {
        assert(s.subrange(i, i + ep.len())[t] == s[i + t]);
    }
    let kq = i + 1 + kl;
    let vq = i + e0.len() - 1;
    if d.len() == 1 {
        assert(ep == e0);
        lemma_pair_at(s, i, p);
        assert(s[vq + 1] == '}');
        assert(i < kq && kq + 2 < s.len() && s[kq + 1] == ':' && s[kq + 2] == '"');
        assert(kq + 2 < vq && vq + 1 < s.len());
        let pair = (s.subrange(i + 1, kq), s.subrange(kq + 3, vq));
        assert(pair.0 == p.0 && pair.1 == p.1);
        assert(pair =~= p);
        assert(parse_pairs(s, i) == Some((seq![pair], vq + 1)));
        assert(seq![pair] =~= d);
    } else {
        let dr = d.drop_first();
        assert(ep == e0 + seq![','] + enc_pairs(dr));
        assert forall|t: int| 0 <= t < e0.len() implies #[trigger] s.subrange(
            i,
            i + e0.len(),
        )[t] == e0[t] by {
            assert(s.subrange(i, i + e0.len())[t] == s[i + t]);
            assert(ep[t] == e0[t]);
        }
        assert(s.subrange(i, i + e0.len()) =~= e0);
        lemma_pair_at(s, i, p);
        assert(s[vq + 1] == ep[e0.len() as int]);
        assert(ep[e0.len() as int] == ',');
        let i2 = vq + 2;
        assert(i2 == i + e0.len() + 1);
        assert forall|k: int| 0 <= k < dr.len() implies pair_plain(#[trigger] dr[k]) by {
            assert(dr[k] == d[k + 1]);
        }
        assert forall|t: int| 0 <= t < enc_pairs(dr).len() implies #[trigger] s.subrange(
            i2,
            i2 + enc_pairs(dr).len(),
        )[t] == enc_pairs(dr)[t] by {
            assert(s.subrange(i2, i2 + enc_pairs(dr).len())[t] == s[i2 + t]);
            assert(ep[e0.len() + 1 + t] == enc_pairs(dr)[t]);
        }
        assert(s.subrange(i2, i2 + enc_pairs(dr).len()) =~= enc_pairs(dr));
        assert(i2 + enc_pairs(dr).len() == i + ep.len());
        lemma_parse_pairs_at(s, i2, dr);
        assert(parse_pairs(s, i2) == Some((dr, i + ep.len())));
        assert(i < kq && kq + 2 < s.len() && s[kq + 1] == ':' && s[kq + 2] == '"');
        assert(kq + 2 < vq && vq + 1 < s.len());
        let pair = (s.subrange(i + 1, kq), s.subrange(kq + 3, vq));
        assert(pair =~= p);
        assert(parse_pairs(s, i) == Some((seq![pair] + dr, i + ep.len())));
        assert(seq![pair] + dr =~= d);
    }
}

/// The decoder inverts the encoder: decoding the encoding of any
/// well-formed record gives that record back.
pub proof fn lemma_decode_encode(r: RecordView)
    requires
        r.wf(),
    ensures
        dec_record(enc_record(r)) == Some(r),
{
    let s = enc_record(r);
    let il = r.id.len() as int;
    let pl = enc_pairs(r.data).len() as int;
    assert(head().len() == 7 && mid().len() == 10 && tail().len() == 2);
    assert(s.len() == il + pl + 19);
    let q = 7 + il;
    assert forall|t: int| 0 <= t < s.len() implies #[trigger] s[t] == (if t < 7 {
        head()[t]
    } else if t < q {
        r.id[t - 7]
    } else if t < q + 10 {
        mid()[t - q]
    } else if t < q + 10 + pl {
        enc_pairs(r.data)[t - q - 10]
    } else {
        tail()[t - q - 10 - pl]
    }) by {}
    assert(s.subrange(0, 7) =~= head());
    assert(s.subrange(7, q) =~= r.id);
    assert(s[q] == mid()[0]);
    assert(mid()[0] == '"');
    lemma_scan_at(s, 7, r.id);
    assert(scan_plain(s, 7) == Some(q));
    assert(s.subrange(q, q + 10) =~= mid());
    assert(s[q + 10 + pl] == tail()[0] && s[q + 11 + pl] == tail()[1]);
    assert(tail()[0] == '}' && tail()[1] == '}');
    if r.data.len() == 0 {
        assert(pl == 0);
        assert(s[q + 10] == '}' && s[q + 11] == '}' && s.len() == q + 12);
        assert(dec_record(s) == Some(RecordView { id: s.subrange(7, q), data: Seq::empty() }));
        assert(RecordView { id: s.subrange(7, q), data: Seq::empty() } =~= r);
    } else {
        assert(enc_pairs(r.data)[0] == enc_pair(r.data[0])[0]);
        assert(enc_pair(r.data[0])[0] == '"');
        assert(s[q + 10] == '"');
        assert forall|t: int| 0 <= t < pl implies #[trigger] s.subrange(q + 10, q + 10 + pl)[t]
            == enc_pairs(r.data)[t] by {
            assert(s.subrange(q + 10, q + 10 + pl)[t] == s[q + 10 + t]);
        }
        assert(s.subrange(q + 10, q + 10 + pl) =~= enc_pairs(r.data));
        lemma_parse_pairs_at(s, q + 10, r.data);
        assert(parse_pairs(s, q + 10) == Some((r.data, q + 10 + pl)));
        let e = q + 10 + pl;
        assert(s.len() == e + 2 && s[e + 1] == '}');
        assert(dec_record(s) == Some(RecordView { id: s.subrange(7, q), data: r.data }));
        assert(RecordView { id: s.subrange(7, q), data: r.data } =~= r);
    }
}

} // verus!
