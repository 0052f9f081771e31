//! The durable record document: a single structured text
//! `{"records":{"<id>":{"id":…,"title":…,"status":…},…}}`, fully written on
//! every persist and fully parsed on every load.  The grammar is defined
//! here as spec functions, the encoder and parser are verified against
//! them, and the round-trip law says that a persisted store reloads to
//! exactly the same records.  Reading and writing the file itself happens
//! outside the library.

use vstd::prelude::*;
use crate::record::{
    Record, RecordV, Status, lemma_status_labels_distinct, spec_status_label, status_label,
};
use crate::store::{RecordStore, wf_store};
use crate::text::{normalize_id, push_char, str_eq};

verus! {

/// Why a store could not be loaded: the durable payload does not parse (or
/// breaks the store's invariant), or the file could not be opened or
/// created at all.
#[derive(Clone, Copy, PartialEq, Eq, Structural, Debug)]
pub enum StoreError {
    CorruptState,
    IOError,
}

/// A character as it appears inside a quoted string: quote and backslash
/// are escaped with a backslash, every other character stands as itself.
pub open spec fn esc_char(c: char) -> Seq<char> {
    if c == '"' || c == '\\' {
        seq!['\\', c]
    } else {
        seq![c]
    }
}

/// A whole string escaped character by character.
pub open spec fn spec_escape(s: Seq<char>) -> Seq<char>
    decreases s.len(),
{
    if s.len() == 0 {
        Seq::empty()
    } else {
        esc_char(s[0]) + spec_escape(s.drop_first())
    }
}

/// Escaping distributes over concatenation.
pub proof fn lemma_escape_app(a: Seq<char>, b: Seq<char>)
    ensures
        spec_escape(a + b) == spec_escape(a) + spec_escape(b),
    decreases a.len(),
{
    if a.len() == 0 {
        assert(a + b =~= b);
        assert(spec_escape(a) + spec_escape(b) =~= spec_escape(b));
    } else {
        assert((a + b).drop_first() =~= a.drop_first() + b);
        assert((a + b)[0] == a[0]);
        lemma_escape_app(a.drop_first(), b);
        assert(esc_char(a[0]) + (spec_escape(a.drop_first()) + spec_escape(b)) =~= (esc_char(a[0])
            + spec_escape(a.drop_first())) + spec_escape(b));
    }
}

/// The suffix of `s` starting at `i`.
pub open spec fn suf(s: Seq<char>, i: int) -> Seq<char> {
    s.subrange(i, s.len() as int)
}

/// Strip an expected literal off the front of `u`.
pub open spec fn strip_prefix(u: Seq<char>, lit: Seq<char>) -> Option<Seq<char>> {
    if lit.len() <= u.len() && u.subrange(0, lit.len() as int) == lit {
        Some(u.subrange(lit.len() as int, u.len() as int))
    } else {
        None
    }
}

/// Stripping a literal off itself leaves the rest.
pub proof fn lemma_strip_concat(lit: Seq<char>, rest: Seq<char>)
    ensures
        strip_prefix(lit + rest, lit) == Some(rest),
{
    assert((lit + rest).subrange(0, lit.len() as int) =~= lit);
    assert((lit + rest).subrange(lit.len() as int, (lit + rest).len() as int) =~= rest);
}

/// Parse the contents of a quoted string, the opening quote already
/// consumed: characters until an unescaped quote, `\"` and `\\` unescaped.
/// Yields the contents and the suffix after the closing quote.
pub open spec fn spec_parse_string(u: Seq<char>) -> Option<(Seq<char>, Seq<char>)>
    decreases u.len(),
{
    if u.len() == 0 {
        None
    } else if u[0] == '"' {
        Some((Seq::empty(), u.drop_first()))
    } else if u[0] == '\\' {
        if u.len() >= 2 && (u[1] == '"' || u[1] == '\\') {
            match spec_parse_string(u.drop_first().drop_first()) {
                None => None,
                Some((t, v)) => Some((seq![u[1]] + t, v)),
            }
        } else {
            None
        }
    } else {
        match spec_parse_string(u.drop_first()) {
            None => None,
            Some((t, v)) => Some((seq![u[0]] + t, v)),
        }
    }
}

/// A parsed string consumes at least its closing quote.
pub proof fn lemma_parse_string_len(u: Seq<char>)
    ensures
        spec_parse_string(u) matches Some(p) ==> p.1.len() < u.len(),
    decreases u.len(),
{
    if u.len() > 0 && u[0] != '"' {
        if u[0] == '\\' {
            if u.len() >= 2 && (u[1] == '"' || u[1] == '\\') {
                lemma_parse_string_len(u.drop_first().drop_first());
            }
        } else {
            lemma_parse_string_len(u.drop_first());
        }
    }
}

/// Parsing inverts escaping: an escaped string, its closing quote, and any
/// tail parse back to the string and the tail.
pub proof fn lemma_parse_string_escape(t: Seq<char>, rest: Seq<char>)
    ensures
        spec_parse_string(spec_escape(t) + seq!['"'] + rest) == Some((t, rest)),
    decreases t.len(),
{
    let u = spec_escape(t) + seq!['"'] + rest;
    if t.len() == 0 {
        assert(u =~= seq!['"'] + rest);
        assert(u[0] == '"');
        assert(u.drop_first() =~= rest);
        assert(t =~= Seq::<char>::empty());
    } else {
        let c = t[0];
        lemma_parse_string_escape(t.drop_first(), rest);
        if c == '"' || c == '\\' {
            assert(esc_char(c) =~= seq!['\\', c]);
            assert(u =~= seq!['\\', c] + (spec_escape(t.drop_first()) + seq!['"'] + rest));
            assert(u[0] == '\\');
            assert(u[1] == c);
            assert(u.len() >= 2);
            assert(u.drop_first().drop_first() =~= spec_escape(t.drop_first()) + seq!['"']
                + rest);
            assert(seq![c] + t.drop_first() =~= t);
        } else {
            assert(esc_char(c) =~= seq![c]);
            assert(u =~= seq![c] + (spec_escape(t.drop_first()) + seq!['"'] + rest));
            assert(u[0] == c);
            assert(u.drop_first() =~= spec_escape(t.drop_first()) + seq!['"'] + rest);
            assert(seq![c] + t.drop_first() =~= t);
        }
    }
}

/// The status named by a label, if any.
pub open spec fn spec_status_of_label(u: Seq<char>) -> Option<Status> {
    if u == spec_status_label(Status::Missing) {
        Some(Status::Missing)
    } else if u == spec_status_label(Status::Downloading) {
        Some(Status::Downloading)
    } else if u == spec_status_label(Status::Downloaded) {
        Some(Status::Downloaded)
    } else if u == spec_status_label(Status::Cleaned) {
        Some(Status::Cleaned)
    } else {
        None
    }
}

/// A status label names its own status.
pub proof fn lemma_status_label_round_trip(st: Status)
    ensures
        spec_status_of_label(spec_status_label(st)) == Some(st),
{
    lemma_status_labels_distinct(st, Status::Missing);
    lemma_status_labels_distinct(st, Status::Downloading);
    lemma_status_labels_distinct(st, Status::Downloaded);
    lemma_status_labels_distinct(st, Status::Cleaned);
}

/// The document text of one record: the id as key, then the object with
/// the id, title and status fields, every string escaped and quoted.
pub open spec fn spec_record_json(r: RecordV) -> Seq<char> {
    seq!['"'] + spec_escape(r.id) + seq!['"'] + ":{\"id\":\""@ + spec_escape(r.id) + seq!['"']
        + ",\"title\":\""@ + spec_escape(r.title) + seq!['"'] + ",\"status\":\""@ + spec_escape(
        spec_status_label(r.status),
    ) + seq!['"'] + seq!['}']
}

/// Parse one record object: the key string, the object fields in order,
/// the key and the id field required to agree, the status label required
/// to name a status.
pub open spec fn spec_parse_record(u: Seq<char>) -> Option<(RecordV, Seq<char>)> {
    if u.len() > 0 && u[0] == '"' {
        match spec_parse_string(u.drop_first()) {
            None => None,
            Some((key, u2)) => match strip_prefix(u2, ":{\"id\":\""@) {
                None => None,
                Some(u3) => match spec_parse_string(u3) {
                    None => None,
                    Some((idv, u4)) => if idv != key {
                        None
                    } else {
                        match strip_prefix(u4, ",\"title\":\""@) {
                            None => None,
                            Some(u5) => match spec_parse_string(u5) {
                                None => None,
                                Some((title, u6)) => match strip_prefix(u6, ",\"status\":\""@) {
                                    None => None,
                                    Some(u7) => match spec_parse_string(u7) {
                                        None => None,
                                        Some((label, u8)) => match spec_status_of_label(label) {
                                            None => None,
                                            Some(st) => if u8.len() > 0 && u8[0] == '}' {
                                                Some(
                                                    (
                                                        RecordV {
                                                            id: key,
                                                            title: title,
                                                            status: st,
                                                        },
                                                        u8.drop_first(),
                                                    ),
                                                )
                                            } else {
                                                None
                                            },
                                        },
                                    },
                                },
                            },
                        }
                    },
                },
            },
        }
    } else {
        None
    }
}

/// A parsed record consumes at least one character.
pub proof fn lemma_parse_record_shrinks(u: Seq<char>)
    ensures
        spec_parse_record(u) matches Some(p) ==> p.1.len() < u.len(),
{
    if u.len() > 0 && u[0] == '"' {
        let u1 = u.drop_first();
        lemma_parse_string_len(u1);
        match spec_parse_string(u1) {
            None => {},
            Some((key, u2)) => match strip_prefix(u2, ":{\"id\":\""@) {
                None => {},
                Some(u3) => {
                    lemma_parse_string_len(u3);
                    match spec_parse_string(u3) {
                        None => {},
                        Some((idv, u4)) => match strip_prefix(u4, ",\"title\":\""@) {
                            None => {},
                            Some(u5) => {
                                lemma_parse_string_len(u5);
                                match spec_parse_string(u5) {
                                    None => {},
                                    Some((title, u6)) => match strip_prefix(u6, ",\"status\":\""@) {
                                        None => {},
                                        Some(u7) => {
                                            lemma_parse_string_len(u7);
                                        },
                                    },
                                }
                            },
                        },
                    }
                },
            },
        }
    }
}

/// Parsing inverts the record text.
#[verifier::rlimit(100)]
pub proof fn lemma_parse_record_json(r: RecordV, rest: Seq<char>)
    ensures
        spec_parse_record(spec_record_json(r) + rest) == Some((r, rest)),
{
    let u = spec_record_json(r) + rest;
    let rest1 = ":{\"id\":\""@ + spec_escape(r.id) + seq!['"'] + ",\"title\":\""@ + spec_escape(
        r.title,
    ) + seq!['"'] + ",\"status\":\""@ + spec_escape(spec_status_label(r.status)) + seq!['"']
        + seq!['}'] + rest;
    assert(u[0] == '"');
    assert(u.len() > 0);
    assert(u.drop_first() =~= spec_escape(r.id) + seq!['"'] + rest1);
    lemma_parse_string_escape(r.id, rest1);
    let rest2 = spec_escape(r.id) + seq!['"'] + ",\"title\":\""@ + spec_escape(r.title)
        + seq!['"'] + ",\"status\":\""@ + spec_escape(spec_status_label(r.status)) + seq!['"']
        + seq!['}'] + rest;
    assert(rest1 =~= ":{\"id\":\""@ + rest2);
    lemma_strip_concat(":{\"id\":\""@, rest2);
    let rest3 = ",\"title\":\""@ + spec_escape(r.title) + seq!['"'] + ",\"status\":\""@
        + spec_escape(spec_status_label(r.status)) + seq!['"'] + seq!['}'] + rest;
    assert(rest2 =~= spec_escape(r.id) + seq!['"'] + rest3);
    lemma_parse_string_escape(r.id, rest3);
    let rest4 = spec_escape(r.title) + seq!['"'] + ",\"status\":\""@ + spec_escape(
        spec_status_label(r.status),
    ) + seq!['"'] + seq!['}'] + rest;
    assert(rest3 =~= ",\"title\":\""@ + rest4);
    lemma_strip_concat(",\"title\":\""@, rest4);
    let rest5 = ",\"status\":\""@ + spec_escape(spec_status_label(r.status)) + seq!['"']
        + seq!['}'] + rest;
    assert(rest4 =~= spec_escape(r.title) + seq!['"'] + rest5);
    lemma_parse_string_escape(r.title, rest5);
    let rest6 = spec_escape(spec_status_label(r.status)) + seq!['"'] + seq!['}'] + rest;
    assert(rest5 =~= ",\"status\":\""@ + rest6);
    lemma_strip_concat(",\"status\":\""@, rest6);
    let rest7 = seq!['}'] + rest;
    assert(rest6 =~= spec_escape(spec_status_label(r.status)) + seq!['"'] + rest7);
    lemma_parse_string_escape(spec_status_label(r.status), rest7);
    lemma_status_label_round_trip(r.status);
    assert(rest7[0] == '}');
    assert(rest7.len() > 0);
    assert(rest7.drop_first() =~= rest);
}

/// The document text of all records, comma-separated, in store order.
pub open spec fn spec_entries(rs: Seq<RecordV>) -> Seq<char>
    decreases rs.len(),
{
    if rs.len() == 0 {
        Seq::empty()
    } else if rs.len() == 1 {
        spec_record_json(rs[0])
    } else {
        spec_record_json(rs[0]) + seq![','] + spec_entries(rs.drop_first())
    }
}

/// The entries text grows at the back by a comma and one record.
pub proof fn lemma_entries_snoc(rs: Seq<RecordV>)
    requires
        rs.len() > 0,
    ensures
        rs.len() == 1 ==> spec_entries(rs) == spec_record_json(rs[0]),
        rs.len() > 1 ==> spec_entries(rs) == spec_entries(rs.drop_last()) + seq![',']
            + spec_record_json(rs.last()),
    decreases rs.len(),
{
    if rs.len() > 1 {
        let d = rs.drop_first();
        lemma_entries_snoc(d);
        assert(rs.drop_last()[0] == rs[0]);
        if rs.len() == 2 {
            assert(rs.drop_last().len() == 1);
            assert(d.len() == 1);
            assert(spec_entries(d) == spec_record_json(d[0]));
            assert(d[0] == rs.last());
            assert(spec_entries(rs.drop_last()) == spec_record_json(rs[0]));
        } else {
            assert(d.drop_last() =~= rs.drop_last().drop_first());
            assert(d.last() == rs.last());
            assert(spec_entries(d) == spec_entries(d.drop_last()) + seq![','] + spec_record_json(
                d.last(),
            ));
            assert(spec_entries(rs.drop_last()) == spec_record_json(rs.drop_last()[0])
                + seq![','] + spec_entries(rs.drop_last().drop_first()));
            assert(spec_record_json(rs[0]) + seq![','] + (spec_entries(d.drop_last()) + seq![',']
                + spec_record_json(d.last())) =~= (spec_record_json(rs[0]) + seq![',']
                + spec_entries(d.drop_last())) + seq![','] + spec_record_json(rs.last()));
        }
    }
}

/// Parse the comma-separated record objects, one or more.
pub open spec fn spec_parse_entries(u: Seq<char>) -> Option<(Seq<RecordV>, Seq<char>)>
    decreases u.len(),
    via spec_parse_entries_dec
{
    match spec_parse_record(u) {
        None => None,
        Some((r, v)) => if v.len() > 0 && v[0] == ',' {
            match spec_parse_entries(v.drop_first()) {
                None => None,
                Some((rs, w)) => Some((seq![r] + rs, w)),
            }
        } else {
            Some((seq![r], v))
        },
    }
}

#[via_fn]
proof fn spec_parse_entries_dec(u: Seq<char>) {
    lemma_parse_record_shrinks(u);
}

/// Parsing inverts the entries text, for any tail that does not begin with
/// a comma.
pub proof fn lemma_parse_entries_round(rs: Seq<RecordV>, rest: Seq<char>)
    requires
        rs.len() > 0,
        rest.len() == 0 || rest[0] != ',',
    ensures
        spec_parse_entries(spec_entries(rs) + rest) == Some((rs, rest)),
    decreases rs.len(),
{
    if rs.len() == 1 {
        assert(spec_entries(rs) + rest =~= spec_record_json(rs[0]) + rest);
        lemma_parse_record_json(rs[0], rest);
        assert(seq![rs[0]] =~= rs);
    } else {
        let tail = seq![','] + spec_entries(rs.drop_first()) + rest;
        assert(spec_entries(rs) + rest =~= spec_record_json(rs[0]) + tail);
        lemma_parse_record_json(rs[0], tail);
        assert(tail[0] == ',');
        assert(tail.len() > 0);
        assert(tail.drop_first() =~= spec_entries(rs.drop_first()) + rest);
        lemma_parse_entries_round(rs.drop_first(), rest);
        assert(seq![rs[0]] + rs.drop_first() =~= rs);
    }
}

/// The whole document text of a store.
pub open spec fn spec_encode(rs: Seq<RecordV>) -> Seq<char> {
    "{\"records\":{"@ + spec_entries(rs) + "}}"@
}

/// Parse a whole document: the header, the record objects or nothing, the
/// closing braces, and nothing after them.
pub open spec fn spec_decode(s: Seq<char>) -> Option<Seq<RecordV>> {
    match strip_prefix(s, "{\"records\":{"@) {
        None => None,
        Some(u) => if u.len() > 0 && u[0] == '}' {
            match strip_prefix(u, "}}"@) {
                None => None,
                Some(w) => if w.len() == 0 {
                    Some(Seq::empty())
                } else {
                    None
                },
            }
        } else {
            match spec_parse_entries(u) {
                None => None,
                Some((rs, v)) => match strip_prefix(v, "}}"@) {
                    None => None,
                    Some(w) => if w.len() == 0 {
                        Some(rs)
                    } else {
                        None
                    },
                },
            }
        },
    }
}

/// Round-trip law: the document of any record sequence, zero records
/// included, parses back to exactly that sequence.
pub proof fn lemma_encode_decode_round_trip(rs: Seq<RecordV>)
    ensures
        spec_decode(spec_encode(rs)) == Some(rs),
{
    reveal_strlit("}}");
    let body = spec_entries(rs) + "}}"@;
    assert(spec_encode(rs) =~= "{\"records\":{"@ + body);
    lemma_strip_concat("{\"records\":{"@, body);
    if rs.len() == 0 {
        assert(body =~= "}}"@);
        assert(body[0] == '}');
        assert(body =~= "}}"@ + Seq::<char>::empty());
        lemma_strip_concat("}}"@, Seq::<char>::empty());
        assert(Some(Seq::<char>::empty()).is_some());
        assert(spec_decode(spec_encode(rs)) == Some(Seq::<RecordV>::empty()));
        assert(rs =~= Seq::<RecordV>::empty());
    } else {
        assert(spec_entries(rs).len() > 0) by {
            if rs.len() == 1 {
                assert(spec_entries(rs) == spec_record_json(rs[0]));
            }
            assert(spec_record_json(rs[0])[0] == '"');
        }
        assert(body[0] == spec_entries(rs)[0]);
        assert(spec_entries(rs)[0] == '"') by {
            if rs.len() == 1 {
                assert(spec_entries(rs) == spec_record_json(rs[0]));
                assert(spec_record_json(rs[0])[0] == '"');
            } else {
                assert(spec_entries(rs)[0] == spec_record_json(rs[0])[0]);
                assert(spec_record_json(rs[0])[0] == '"');
            }
        }
        assert(body[0] != '}');
        assert("}}"@[0] == '}');
        lemma_parse_entries_round(rs, "}}"@);
        assert(body =~= spec_entries(rs) + "}}"@);
        assert("}}"@ =~= "}}"@ + Seq::<char>::empty());
        lemma_strip_concat("}}"@, Seq::<char>::empty());
    }
}

/// A text that fails to parse is no store's document: every record
/// sequence's document parses back to it.
pub proof fn lemma_decode_complete(s: Seq<char>, rs: Seq<RecordV>)
    requires
        spec_decode(s) is None,
    ensures
        spec_encode(rs) != s,
{
    if spec_encode(rs) == s {
        lemma_encode_decode_round_trip(rs);
    }
}

/// The characters of a string, in order.
fn str_chars(s: &str) -> (r: Vec<char>)
    ensures
        r@ == s@,
{
    let n = s.unicode_len();
    let mut out: Vec<char> = Vec::new();
    let mut i: usize = 0;
    while i < n
        invariant
            n == s@.len(),
            i <= n,
            out@ =~= s@.subrange(0, i as int),
        decreases n - i,
    {
        out.push(s.get_char(i));
        proof {
            assert(out@ =~= s@.subrange(0, i + 1));
        }
        i = i + 1;
    }
    proof {
        assert(s@.subrange(0, n as int) =~= s@);
    }
    out
}

/// Append the escaped form of `s`.
fn escape_push(out: &mut String, s: &str)
    ensures
        final(out)@ == old(out)@ + spec_escape(s@),
{
    let n = s.unicode_len();
    let mut i: usize = 0;
    while i < n
        invariant
            n == s@.len(),
            i <= n,
            out@ == old(out)@ + spec_escape(s@.subrange(0, i as int)),
        decreases n - i,
    {
        let c = s.get_char(i);
        proof {
            let c0 = s@[i as int];
            assert(s@.subrange(0, i + 1) =~= s@.subrange(0, i as int) + seq![c0]);
            lemma_escape_app(s@.subrange(0, i as int), seq![c0]);
            assert(seq![c0].len() == 1);
            assert(seq![c0][0] == c0);
            assert(seq![c0].drop_first() =~= Seq::<char>::empty());
            assert(spec_escape(seq![c0]) == esc_char(c0) + spec_escape(Seq::<char>::empty()));
            assert(spec_escape(Seq::<char>::empty()) == Seq::<char>::empty());
            assert(esc_char(c0) + Seq::<char>::empty() =~= esc_char(c0));
        }
        if c == '"' || c == '\\' {
            push_char(out, '\\');
            push_char(out, c);
            proof {
                assert(out@ =~= old(out)@ + spec_escape(s@.subrange(0, i as int)) + seq!['\\', c]);
                assert(old(out)@ + spec_escape(s@.subrange(0, i as int)) + seq!['\\', c]
                    =~= old(out)@ + (spec_escape(s@.subrange(0, i as int)) + esc_char(
                    s@[i as int],
                )));
            }
        } else {
            push_char(out, c);
            proof {
                assert(out@ =~= old(out)@ + (spec_escape(s@.subrange(0, i as int)) + esc_char(
                    s@[i as int],
                )));
            }
        }
        i = i + 1;
    }
    proof {
        assert(s@.subrange(0, n as int) =~= s@);
    }
}

/// Append the document text of one record.
fn append_record_json(out: &mut String, rec: &Record)
    ensures
        final(out)@ == old(out)@ + spec_record_json(rec@),
{
    push_char(out, '"');
    escape_push(out, rec.id.as_str());
    push_char(out, '"');
    out.append(":{\"id\":\"");
    escape_push(out, rec.id.as_str());
    push_char(out, '"');
    out.append(",\"title\":\"");
    escape_push(out, rec.title.as_str());
    push_char(out, '"');
    out.append(",\"status\":\"");
    escape_push(out, status_label(rec.status));
    push_char(out, '"');
    push_char(out, '}');
    proof {
        assert(out@ =~= old(out)@ + spec_record_json(rec@));
    }
}

/// The whole document text of the store, as persisted.
pub fn encode_store(store: &RecordStore) -> (r: String)
    ensures
        r@ == spec_encode(store@),
{
    let recs = store.all();
    let mut out = String::new();
    out.append("{\"records\":{");
    let n = recs.len();
    let mut i: usize = 0;
    while i < n
        invariant
            n == recs@.len(),
            recs@.map_values(|rec: Record| rec@) == store@,
            i <= n,
            out@ == "{\"records\":{"@ + spec_entries(store@.subrange(0, i as int)),
        decreases n - i,
    {
        proof {
            assert(recs@.map_values(|rec: Record| rec@)[i as int] == store@[i as int]);
            assert(store@.subrange(0, i + 1).drop_last() =~= store@.subrange(0, i as int));
            assert(store@.subrange(0, i + 1).last() == store@[i as int]);
            assert(store@.subrange(0, i + 1)[0] == store@[0]);
            lemma_entries_snoc(store@.subrange(0, i + 1));
        }
        if i > 0 {
            push_char(&mut out, ',');
        }
        append_record_json(&mut out, &recs[i]);
        proof {
            if i == 0 {
                assert(spec_entries(store@.subrange(0, 1)) == spec_record_json(store@[0]));
                assert(spec_entries(store@.subrange(0, 0)) =~= Seq::<char>::empty());
                assert(out@ =~= "{\"records\":{"@ + spec_entries(store@.subrange(0, i + 1)));
            } else {
                assert(out@ =~= "{\"records\":{"@ + (spec_entries(store@.subrange(0, i as int))
                    + seq![','] + spec_record_json(store@[i as int])));
            }
        }
        i = i + 1;
    }
    out.append("}}");
    proof {
        assert(store@.subrange(0, n as int) =~= store@);
        assert(out@ =~= spec_encode(store@));
    }
    out
}

/// Expect a fixed literal at position `i`.
fn expect_lit(s: &Vec<char>, i: usize, lit: &str) -> (r: Option<usize>)
    requires
        i <= s@.len(),
    ensures
        match r {
            Some(j) => i <= j <= s@.len() && j == i + lit@.len() && strip_prefix(
                suf(s@, i as int),
                lit@,
            ) == Some(suf(s@, j as int)),
            None => strip_prefix(suf(s@, i as int), lit@) is None,
        },
{
    let n = s.len();
    let m = lit.unicode_len();
    if m > n - i {
        proof {
            assert(suf(s@, i as int).len() < lit@.len());
        }
        return None;
    }
    let mut k: usize = 0;
    while k < m
        invariant
            n == s@.len(),
            m == lit@.len(),
            i + m <= n,
            k <= m,
            forall|q: int| 0 <= q < k ==> s@[i + q] == lit@[q],
        decreases m - k,
    {
        if s[i + k] != lit.get_char(k) {
            proof {
                assert(suf(s@, i as int).subrange(0, lit@.len() as int)[k as int] == s@[i + k]);
            }
            return None;
        }
        k = k + 1;
    }
    proof {
        assert(suf(s@, i as int).subrange(0, lit@.len() as int) =~= lit@);
        assert(suf(s@, i as int).subrange(lit@.len() as int, suf(s@, i as int).len() as int)
            =~= suf(s@, i + m));
    }
    Some(i + m)
}

/// Parse quoted-string contents starting at `i`, the opening quote already
/// consumed.
fn parse_string_at(s: &Vec<char>, i: usize) -> (r: Option<(String, usize)>)
    requires
        i <= s@.len(),
    ensures
        match r {
            Some(p) => i < p.1 <= s@.len() && spec_parse_string(suf(s@, i as int)) == Some(
                (p.0@, suf(s@, p.1 as int)),
            ),
            None => spec_parse_string(suf(s@, i as int)) is None,
        },
{
    let n = s.len();
    let mut out = String::new();
    let mut cur: usize = i;
    loop
        invariant
            i <= cur <= n,
            n == s@.len(),
            (match spec_parse_string(suf(s@, cur as int)) {
                None => spec_parse_string(suf(s@, i as int)) is None,
                Some((t, v)) => spec_parse_string(suf(s@, i as int)) == Some((out@ + t, v)),
            }),
        decreases n - cur,
    {
        if cur >= n {
            proof {
                assert(suf(s@, cur as int).len() == 0);
            }
            return None;
        }
        let c = s[cur];
        proof {
            assert(suf(s@, cur as int)[0] == s@[cur as int]);
            assert(suf(s@, cur as int).drop_first() =~= suf(s@, cur + 1));
        }
        if c == '"' {
            proof {
                assert(spec_parse_string(suf(s@, cur as int)) == Some(
                    (Seq::<char>::empty(), suf(s@, cur + 1)),
                ));
                assert(out@ + Seq::<char>::empty() =~= out@);
            }
            return Some((out, cur + 1));
        } else if c == '\\' {
            if cur + 1 < n && (s[cur + 1] == '"' || s[cur + 1] == '\\') {
                proof {
                    assert(suf(s@, cur as int).len() >= 2);
                    assert(suf(s@, cur as int)[1] == s@[cur + 1]);
                    assert(suf(s@, cur as int).drop_first().drop_first() =~= suf(s@, cur + 2));
                }
                let d = s[cur + 1];
                let ghost out0 = out@;
                push_char(&mut out, d);
                proof {
                    match spec_parse_string(suf(s@, cur + 2)) {
                        None => {},
                        Some((t, v)) => {
                            assert(out@ + t =~= out0 + (seq![d] + t));
                        },
                    }
                }
                cur = cur + 2;
            } else {
                proof {
                    if suf(s@, cur as int).len() >= 2 {
                        assert(suf(s@, cur as int)[1] == s@[cur + 1]);
                    }
                }
                return None;
            }
        } else {
            push_char(&mut out, c);
            cur = cur + 1;
        }
    }
}

/// The status named by a label.
fn status_of_label(t: &str) -> (r: Option<Status>)
    ensures
        r == spec_status_of_label(t@),
{
    if str_eq(t, "Missing") {
        Some(Status::Missing)
    } else if str_eq(t, "Downloading") {
        Some(Status::Downloading)
    } else if str_eq(t, "Downloaded") {
        Some(Status::Downloaded)
    } else if str_eq(t, "Cleaned") {
        Some(Status::Cleaned)
    } else {
        None
    }
}

/// Parse one record object starting at `i`.
fn parse_record_at(s: &Vec<char>, i: usize) -> (r: Option<(Record, usize)>)
    requires
        i <= s@.len(),
    ensures
        match r {
            Some(p) => i < p.1 <= s@.len() && spec_parse_record(suf(s@, i as int)) == Some(
                (p.0@, suf(s@, p.1 as int)),
            ),
            None => spec_parse_record(suf(s@, i as int)) is None,
        },
{
    let n = s.len();
    let ghost u = suf(s@, i as int);
    if i >= n || s[i] != '"' {
        proof {
            if u.len() > 0 {
                assert(u[0] == s@[i as int]);
            }
        }
        return None;
    }
    proof {
        assert(u[0] == s@[i as int]);
        assert(u.drop_first() =~= suf(s@, i + 1));
    }
    let key = match parse_string_at(s, i + 1) {
        None => {
            return None;
        },
        Some(p) => p,
    };
    let (key, j2) = key;
    let j3 = match expect_lit(s, j2, ":{\"id\":\"") {
        None => {
            return None;
        },
        Some(j) => j,
    };
    let idv = match parse_string_at(s, j3) {
        None => {
            return None;
        },
        Some(p) => p,
    };
    let (idv, j4) = idv;
    if !(idv == key) {
        return None;
    }
    let j5 = match expect_lit(s, j4, ",\"title\":\"") {
        None => {
            return None;
        },
        Some(j) => j,
    };
    let title = match parse_string_at(s, j5) {
        None => {
            return None;
        },
        Some(p) => p,
    };
    let (title, j6) = title;
    let j7 = match expect_lit(s, j6, ",\"status\":\"") {
        None => {
            return None;
        },
        Some(j) => j,
    };
    let label = match parse_string_at(s, j7) {
        None => {
            return None;
        },
        Some(p) => p,
    };
    let (label, j8) = label;
    let st = match status_of_label(label.as_str()) {
        None => {
            return None;
        },
        Some(st) => st,
    };
    if j8 >= n || s[j8] != '}' {
        proof {
            if suf(s@, j8 as int).len() > 0 {
                assert(suf(s@, j8 as int)[0] == s@[j8 as int]);
            }
        }
        return None;
    }
    proof {
        assert(suf(s@, j8 as int)[0] == s@[j8 as int]);
        assert(suf(s@, j8 as int).drop_first() =~= suf(s@, j8 + 1));
    }
    Some((Record { id: key, title, status: st }, j8 + 1))
}

/// Parse the comma-separated record objects starting at `i`.
fn parse_entries_at(s: &Vec<char>, i: usize) -> (r: Option<(Vec<Record>, usize)>)
    requires
        i <= s@.len(),
    ensures
        match r {
            Some(p) => i <= p.1 <= s@.len() && spec_parse_entries(suf(s@, i as int)) == Some(
                (p.0@.map_values(|rec: Record| rec@), suf(s@, p.1 as int)),
            ),
            None => spec_parse_entries(suf(s@, i as int)) is None,
        },
{
    let n = s.len();
    let mut acc: Vec<Record> = Vec::new();
    let mut cur: usize = i;
    loop
        invariant
            i <= cur <= n,
            n == s@.len(),
            (match spec_parse_entries(suf(s@, cur as int)) {
                None => spec_parse_entries(suf(s@, i as int)) is None,
                Some((rs, v)) => spec_parse_entries(suf(s@, i as int)) == Some(
                    (acc@.map_values(|rec: Record| rec@) + rs, v),
                ),
            }),
        decreases n - cur,
    {
        let rec = match parse_record_at(s, cur) {
            None => {
                return None;
            },
            Some(p) => p,
        };
        let (rec, j) = rec;
        proof {
            if j < n {
                assert(suf(s@, j as int)[0] == s@[j as int]);
                assert(suf(s@, j as int).drop_first() =~= suf(s@, j + 1));
            }
        }
        if j < n && s[j] == ',' {
            let ghost accv = acc@.map_values(|r0: Record| r0@);
            acc.push(rec);
            proof {
                assert(acc@.map_values(|r0: Record| r0@) =~= accv.push(rec@));
                match spec_parse_entries(suf(s@, j + 1)) {
                    None => {},
                    Some((rs, v)) => {
                        assert(accv.push(rec@) + rs =~= accv + (seq![rec@] + rs));
                    },
                }
            }
            cur = j + 1;
        } else {
            proof {
                assert(suf(s@, j as int).len() > 0 ==> suf(s@, j as int)[0] == s@[j as int]);
                assert(spec_parse_entries(suf(s@, cur as int)) == Some(
                    (seq![rec@], suf(s@, j as int)),
                ));
            }
            let ghost accv = acc@.map_values(|r0: Record| r0@);
            acc.push(rec);
            proof {
                assert(acc@.map_values(|r0: Record| r0@) =~= accv.push(rec@));
                assert(accv.push(rec@) =~= accv + seq![rec@]);
            }
            return Some((acc, j));
        }
    }
}

/// Check the store invariant on reloaded records: non-empty normalized
/// ids, no two alike.
fn records_wf(records: &Vec<Record>) -> (r: bool)
    ensures
        r == wf_store(records@.map_values(|rec: Record| rec@)),
{
    let ghost v = records@.map_values(|rec: Record| rec@);
    let n = records.len();
    let mut i: usize = 0;
    while i < n
        invariant
            n == records@.len(),
            v == records@.map_values(|rec: Record| rec@),
            i <= n,
            forall|k: int| 0 <= k < i ==> crate::record::wf_record(#[trigger] v[k]),
            forall|a: int, b: int| 0 <= a < b < i ==> v[a].id != v[b].id,
        decreases n - i,
    {
        proof {
            assert(v[i as int] == records@[i as int]@);
        }
        if records[i].id.as_str().unicode_len() == 0 {
            return false;
        }
        let norm = normalize_id(records[i].id.as_str());
        if !(norm == records[i].id) {
            return false;
        }
        let mut j: usize = 0;
        while j < i
            invariant
                n == records@.len(),
                v == records@.map_values(|rec: Record| rec@),
                i < n,
                j <= i,
                forall|b: int| 0 <= b < j ==> v[b].id != v[i as int].id,
            decreases i - j,
        {
            proof {
                assert(v[j as int] == records@[j as int]@);
            }
            if records[j].id == records[i].id {
                proof {
                    assert(v[j as int].id == v[i as int].id);
                }
                return false;
            }
            j = j + 1;
        }
        i = i + 1;
    }
    true
}

/// Parse a persisted document back into a store.  The load succeeds
/// exactly when the text is a well-formed document whose records satisfy
/// the store invariant; everything else is CorruptState.
pub fn decode_store(text: &str) -> (r: Result<RecordStore, StoreError>)
    ensures
        match r {
            Ok(st) => st.wf() && spec_decode(text@) == Some(st@),
            Err(e) => e == StoreError::CorruptState && (match spec_decode(text@) {
                Some(rs) => !wf_store(rs),
                None => true,
            }),
        },
{
    let chars = str_chars(text);
    let n = chars.len();
    proof {
        assert(suf(chars@, 0) =~= text@);
    }
    let h = match expect_lit(&chars, 0, "{\"records\":{") {
        None => {
            return Err(StoreError::CorruptState);
        },
        Some(h) => h,
    };
    if h < n && chars[h] == '}' {
        proof {
            assert(suf(chars@, h as int)[0] == chars@[h as int]);
        }
        let j = match expect_lit(&chars, h, "}}") {
            None => {
                return Err(StoreError::CorruptState);
            },
            Some(j) => j,
        };
        if j != n {
            proof {
                assert(suf(chars@, j as int).len() > 0);
            }
            return Err(StoreError::CorruptState);
        }
        proof {
            assert(suf(chars@, j as int).len() == 0);
        }
        Ok(RecordStore::new())
    } else {
        proof {
            if suf(chars@, h as int).len() > 0 {
                assert(suf(chars@, h as int)[0] == chars@[h as int]);
            }
        }
        let recs = match parse_entries_at(&chars, h) {
            None => {
                return Err(StoreError::CorruptState);
            },
            Some(p) => p,
        };
        let (recs, j) = recs;
        let j2 = match expect_lit(&chars, j, "}}") {
            None => {
                return Err(StoreError::CorruptState);
            },
            Some(j2) => j2,
        };
        if j2 != n {
            proof {
                assert(suf(chars@, j2 as int).len() > 0);
            }
            return Err(StoreError::CorruptState);
        }
        proof {
            assert(suf(chars@, j2 as int).len() == 0);
        }
        if !records_wf(&recs) {
            return Err(StoreError::CorruptState);
        }
        Ok(RecordStore::from_records(recs))
    }
}

} // verus!

