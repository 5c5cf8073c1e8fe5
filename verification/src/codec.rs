//! The record codec: a note is persisted as a frontmatter block between two
//! `---` delimiter lines, followed by a blank line and the body.
//!
//! ```text
//! ---
//! id: <uuid>
//! title: <title>
//! created_at: <RFC 3339 instant>
//! updated_at: <RFC 3339 instant>
//! ---
//!
//! <content>
//! ```
//!
//! Decoding splits the input on the literal `---` into at most three parts,
//! reads the second as `key: value` lines (unknown keys ignored, a value that
//! fails to parse is a hard error), and takes the trimmed remainder as the
//! body. The path is not encoded: it is the file's location, injected by the
//! caller.

use vstd::prelude::*;
use crate::error::{AppError, ErrorKind};
use crate::ids::{uuid_of, uuid_parse};
use crate::note::{Note, NoteView};
use crate::textutil::{trimmed, trim_front, trim_back, ws, is_ws_char};
use crate::time::{Timestamp, raw_in_range, rfc3339_parsed, ts_parse};

verus! {

/// Frontmatter accumulator: id, title, creation instant, update instant, in
/// the order the keys were last seen.
pub type FmSt = (Option<u128>, Seq<char>, Option<Timestamp>, Option<Timestamp>);

pub open spec fn fm_init() -> FmSt {
    (None, Seq::<char>::empty(), None, None)
}

/// A `---` delimiter starts at position `i` of `s`.
pub open spec fn delim_at(s: Seq<char>, i: int) -> bool {
    0 <= i && i + 3 <= s.len() && s[i] == '-' && s[i + 1] == '-' && s[i + 2] == '-'
}

/// Position of the first `---` delimiter, or `s.len()` when there is none.
pub open spec fn find_delim(s: Seq<char>) -> nat
    decreases s.len(),
{
    if s.len() < 3 {
        s.len()
    } else if delim_at(s, 0) {
        0
    } else {
        1 + find_delim(s.subrange(1, s.len() as int))
    }
}

/// Position of the first occurrence of `c`, or `s.len()` when there is none.
pub open spec fn find_char(s: Seq<char>, c: char) -> nat
    decreases s.len(),
{
    if s.len() == 0 {
        0
    } else if s[0] == c {
        0
    } else {
        1 + find_char(s.subrange(1, s.len() as int), c)
    }
}

/// One `key: value` line folded into the accumulator. A line without a colon
/// is skipped; an unrecognized key is ignored; an `id`, `created_at` or
/// `updated_at` value that does not parse (or, for instants, falls outside
/// the representable range) fails the whole record.
pub open spec fn parse_fm_line(line: Seq<char>, st: FmSt) -> Option<FmSt> {
    let ci = find_char(line, ':');
    if ci >= line.len() {
        Some(st)
    } else {
        let key = trimmed(line.subrange(0, ci as int));
        let val = trimmed(line.subrange(ci as int + 1, line.len() as int));
        if key == "id"@ {
            match uuid_of(val) {
                Some(v) => Some((Some(v), st.1, st.2, st.3)),
                None => None,
            }
        } else if key == "title"@ {
            Some((st.0, val, st.2, st.3))
        } else if key == "created_at"@ {
            match rfc3339_parsed(val) {
                Some(p) => if raw_in_range(p.0, p.1) {
                    Some((st.0, st.1, Some(Timestamp { secs: p.0 as i64, nanos: p.1 as u32 }), st.3))
                } else {
                    None
                },
                None => None,
            }
        } else if key == "updated_at"@ {
            match rfc3339_parsed(val) {
                Some(p) => if raw_in_range(p.0, p.1) {
                    Some((st.0, st.1, st.2, Some(Timestamp { secs: p.0 as i64, nanos: p.1 as u32 })))
                } else {
                    None
                },
                None => None,
            }
        } else {
            Some(st)
        }
    }
}

/// The frontmatter block folded line by line (lines split on `\n`).
pub open spec fn parse_fm(s: Seq<char>, st: FmSt) -> Option<FmSt>
    decreases s.len(),
{
    let i = find_char(s, '\n');
    if i < s.len() {
        match parse_fm_line(s.subrange(0, i as int), st) {
            Some(st2) => parse_fm(s.subrange(i as int + 1, s.len() as int), st2),
            None => None,
        }
    } else {
        parse_fm_line(s, st)
    }
}

/// What decoding `s` yields: the note view with the given path, or `None`
/// when the record is malformed (missing frontmatter, unparseable value, or
/// a required key never set).
pub open spec fn decode_spec(s: Seq<char>, path: Seq<char>) -> Option<NoteView> {
    let i0 = find_delim(s);
    if i0 + 3 > s.len() {
        None
    } else {
        let rest = s.subrange(i0 as int + 3, s.len() as int);
        let i1 = find_delim(rest);
        if i1 + 3 > rest.len() {
            None
        } else {
            let fm = trimmed(rest.subrange(0, i1 as int));
            let body = trimmed(rest.subrange(i1 as int + 3, rest.len() as int));
            match parse_fm(fm, fm_init()) {
                Some(st) => match (st.0, st.2, st.3) {
                    (Some(id), Some(c), Some(u)) => Some(
                        NoteView {
                            id,
                            title: st.1,
                            content: body,
                            created_at: c,
                            updated_at: u,
                            path,
                        },
                    ),
                    _ => None,
                },
                None => None,
            }
        }
    }
}

/// The frontmatter text between the two delimiters, less the leading
/// newline of the closing delimiter line.
pub open spec fn fm_inner(nv: NoteView) -> Seq<char> {
    "\nid: "@ + crate::ids::uuid_str_of(nv.id) + "\ntitle: "@ + nv.title + "\ncreated_at: "@
        + crate::time::rfc3339_of(nv.created_at.secs as int, nv.created_at.nanos as int)
        + "\nupdated_at: "@
        + crate::time::rfc3339_of(nv.updated_at.secs as int, nv.updated_at.nanos as int)
}

/// What encoding a note yields, verbatim.
pub open spec fn encode_spec(nv: NoteView) -> Seq<char> {
    "---"@ + fm_inner(nv) + "\n---\n\n"@ + nv.content
}

/// No `---` delimiter anywhere in `s`.
pub open spec fn no_delim(s: Seq<char>) -> bool {
    forall|j: int| !delim_at(s, j)
}

/// A title the encoding keeps intact: no delimiter line can arise from it,
/// it spans a single line, and trimming leaves it alone.
pub open spec fn clean_title(t: Seq<char>) -> bool {
    no_delim(t) && (forall|j: int| 0 <= j < t.len() ==> t[j] != '\n') && (t.len() == 0 || (!ws(
        t[0],
    ) && !ws(t[t.len() - 1])))
}

/// A body the encoding keeps intact: trimming leaves it alone. It may hold
/// newlines, colons, even delimiter lines - everything after the second
/// delimiter belongs to it.
pub open spec fn clean_content(c: Seq<char>) -> bool {
    c.len() == 0 || (!ws(c[0]) && !ws(c[c.len() - 1]))
}

proof fn lemma_no_delim_concat(a: Seq<char>, b: Seq<char>)
    requires
        no_delim(a),
        no_delim(b),
        a.len() == 0 || b.len() == 0 || a[a.len() - 1] != '-' || b[0] != '-',
    ensures
        no_delim(a + b),
{
    let s = a + b;
    assert forall|j: int| !delim_at(s, j) by {
        if delim_at(s, j) {
            if j + 3 <= a.len() {
                assert(s[j] == a[j]);
                assert(s[j + 1] == a[j + 1]);
                assert(s[j + 2] == a[j + 2]);
                assert(delim_at(a, j));
            } else if j >= a.len() {
                assert(s[j] == b[j - a.len()]);
                assert(s[j + 1] == b[j + 1 - a.len()]);
                assert(s[j + 2] == b[j + 2 - a.len()]);
                assert(delim_at(b, j - a.len()));
            } else {
                assert(j < a.len() < j + 3);
                assert(s[a.len() - 1] == a[a.len() - 1]);
                assert(s[a.len() as int] == b[0]);
                assert(a[a.len() - 1] == '-');
                assert(b[0] == '-');
            }
        }
    }
}

proof fn lemma_trim_noop(s: Seq<char>)
    requires
        s.len() == 0 || (!ws(s[0]) && !ws(s[s.len() - 1])),
    ensures
        trimmed(s) == s,
{
    assert(trim_front(s) == s);
    assert(trim_back(s) == s);
}

proof fn lemma_trim_space_prefix(val: Seq<char>)
    requires
        val.len() == 0 || (!ws(val[0]) && !ws(val[val.len() - 1])),
    ensures
        trimmed(seq![' '] + val) == val,
{
    let s = seq![' '] + val;
    assert(ws(s[0]));
    assert(s.subrange(1, s.len() as int) =~= val);
    assert(trim_front(s) == trim_front(val));
    assert(trim_front(val) == val);
    assert(trim_back(val) == val);
}

/// Splitting off the first line of the frontmatter fold.
proof fn lemma_parse_fm_step(s: Seq<char>, line: Seq<char>, rest: Seq<char>, st: FmSt)
    requires
        s == line + seq!['\n'] + rest,
        forall|j: int| 0 <= j < line.len() ==> line[j] != '\n',
    ensures
        parse_fm(s, st) == (match parse_fm_line(line, st) {
            Some(st2) => parse_fm(rest, st2),
            None => None,
        }),
{
    assert(s[line.len() as int] == '\n');
    assert forall|j: int| 0 <= j < line.len() implies s[j] != '\n' by {
        assert(s[j] == line[j]);
    }
    lemma_find_char_at(s, '\n', line.len() as int);
    assert(s.subrange(0, line.len() as int) =~= line);
    assert(s.subrange(line.len() as int + 1, s.len() as int) =~= rest);
}

/// A frontmatter line of the exact shape the encoder writes: the first colon
/// closes the key, and the single space after it is trimmed off the value.
proof fn lemma_line_form(line: Seq<char>, key: Seq<char>, val: Seq<char>)
    requires
        line == key + ": "@ + val,
        key.len() > 0,
        forall|j: int| 0 <= j < key.len() ==> key[j] != ':',
        !ws(key[0]),
        !ws(key[key.len() - 1]),
        val.len() == 0 || (!ws(val[0]) && !ws(val[val.len() - 1])),
    ensures
        find_char(line, ':') == key.len(),
        trimmed(line.subrange(0, key.len() as int)) == key,
        trimmed(line.subrange(key.len() as int + 1, line.len() as int)) == val,
{
    reveal_strlit(": ");
    assert(line[key.len() as int] == ':');
    assert forall|j: int| 0 <= j < key.len() implies line[j] != ':' by {
        assert(line[j] == key[j]);
    }
    lemma_find_char_at(line, ':', key.len() as int);
    assert(line.subrange(0, key.len() as int) =~= key);
    lemma_trim_noop(key);
    assert(line.subrange(key.len() as int + 1, line.len() as int) =~= seq![' '] + val);
    lemma_trim_space_prefix(val);
}

/// The facts the id formatter guarantees of the text it returns.
pub open spec fn id_text_ok(u: Seq<char>, id: u128) -> bool {
    &&& u.len() == 36
    &&& forall|i: int| 0 <= i < 36 ==> crate::ids::uuid_char(#[trigger] u[i])
    &&& forall|i: int| 0 <= i < 36 ==> ((#[trigger] u[i] == '-') <==> (i == 8 || i == 13 || i == 18 || i == 23))
    &&& uuid_of(u) == Some(id)
}

/// The facts the instant formatter guarantees of the text it returns.
pub open spec fn ts_text_ok(c: Seq<char>, t: Timestamp) -> bool {
    &&& c.len() >= 20
    &&& forall|i: int| 0 <= i < c.len() ==> crate::time::rfc3339_char(#[trigger] c[i])
    &&& '0' <= c[0] <= '9'
    &&& '0' <= c[c.len() - 1] <= '9'
    &&& forall|i: int| 0 <= i < c.len() - 1 ==> !(c[i] == '-' && #[trigger] c[i + 1] == '-')
    &&& rfc3339_parsed(c) == Some((t.secs as int, t.nanos as int))
}

/// Round trip: a record the encoder lays out decodes back to the very note,
/// provided the title and body survive trimming and the title cannot forge a
/// delimiter. The id and instant texts are as the formatters produced them.
#[verifier::rlimit(100)]
proof fn lemma_decode_encode(nv: NoteView, u: Seq<char>, c1: Seq<char>, c2: Seq<char>)
    requires
        u == crate::ids::uuid_str_of(nv.id),
        c1 == crate::time::rfc3339_of(nv.created_at.secs as int, nv.created_at.nanos as int),
        c2 == crate::time::rfc3339_of(nv.updated_at.secs as int, nv.updated_at.nanos as int),
        id_text_ok(u, nv.id),
        ts_text_ok(c1, nv.created_at),
        ts_text_ok(c2, nv.updated_at),
        nv.created_at.valid(),
        nv.updated_at.valid(),
        clean_title(nv.title),
        clean_content(nv.content),
    ensures
        decode_spec(encode_spec(nv), nv.path) == Some(nv),
{
    reveal_strlit("---");
    reveal_strlit("\nid: ");
    reveal_strlit("id: ");
    reveal_strlit("id");
    reveal_strlit("\ntitle: ");
    reveal_strlit("title: ");
    reveal_strlit("title");
    reveal_strlit("\ncreated_at: ");
    reveal_strlit("created_at: ");
    reveal_strlit("created_at");
    reveal_strlit("\nupdated_at: ");
    reveal_strlit("updated_at: ");
    reveal_strlit("updated_at");
    reveal_strlit("\n---\n\n");
    reveal_strlit(": ");
    let t = nv.title;
    let b = nv.content;
    let e = encode_spec(nv);
    let inner = fm_inner(nv);
    let tail = "\n---\n\n"@ + b;

    // the opening delimiter is the very first one
    assert(e[0] == '-' && e[1] == '-' && e[2] == '-');
    assert(delim_at(e, 0));
    lemma_find_delim_at(e, 0);
    assert(find_delim(e) == 0);
    let rest = e.subrange(3, e.len() as int);
    assert(rest =~= inner + tail);

    // no delimiter inside the frontmatter
    assert(no_delim("\nid: "@)) by {
        assert forall|j: int| !delim_at("\nid: "@, j) by {
            if delim_at("\nid: "@, j) {
                assert("\nid: "@[j] == '-');
            }
        }
    }
    assert(no_delim("\ntitle: "@)) by {
        assert forall|j: int| !delim_at("\ntitle: "@, j) by {
            if delim_at("\ntitle: "@, j) {
                assert("\ntitle: "@[j] == '-');
            }
        }
    }
    assert(no_delim("\ncreated_at: "@)) by {
        assert forall|j: int| !delim_at("\ncreated_at: "@, j) by {
            if delim_at("\ncreated_at: "@, j) {
                assert("\ncreated_at: "@[j] == '-');
            }
        }
    }
    assert(no_delim("\nupdated_at: "@)) by {
        assert forall|j: int| !delim_at("\nupdated_at: "@, j) by {
            if delim_at("\nupdated_at: "@, j) {
                assert("\nupdated_at: "@[j] == '-');
            }
        }
    }
    assert(no_delim(u)) by {
        assert forall|j: int| !delim_at(u, j) by {
            if delim_at(u, j) {
                assert(u[j] == '-' && u[j + 1] == '-');
            }
        }
    }
    assert(no_delim(c1)) by {
        assert forall|j: int| !delim_at(c1, j) by {
            if delim_at(c1, j) {
                assert(c1[j] == '-' && c1[j + 1] == '-');
            }
        }
    }
    assert(no_delim(c2)) by {
        assert forall|j: int| !delim_at(c2, j) by {
            if delim_at(c2, j) {
                assert(c2[j] == '-' && c2[j + 1] == '-');
            }
        }
    }
    let s1 = "\nid: "@ + u;
    lemma_no_delim_concat("\nid: "@, u);
    let s2 = s1 + "\ntitle: "@;
    lemma_no_delim_concat(s1, "\ntitle: "@);
    let s3 = s2 + t;
    assert(s2[s2.len() - 1] == ' ');
    lemma_no_delim_concat(s2, t);
    let s4 = s3 + "\ncreated_at: "@;
    lemma_no_delim_concat(s3, "\ncreated_at: "@);
    let s5 = s4 + c1;
    assert(s4[s4.len() - 1] == ' ');
    lemma_no_delim_concat(s4, c1);
    let s6 = s5 + "\nupdated_at: "@;
    lemma_no_delim_concat(s5, "\nupdated_at: "@);
    let s7 = s6 + c2;
    assert(s6[s6.len() - 1] == ' ');
    lemma_no_delim_concat(s6, c2);
    assert(inner =~= s7);
    assert(no_delim(inner));

    // the second delimiter opens the closing line
    let p = inner.len() as int + 1;
    assert(rest[p] == '-' && rest[p + 1] == '-' && rest[p + 2] == '-') by {
        assert(rest[p] == tail[1]);
        assert(rest[p + 1] == tail[2]);
        assert(rest[p + 2] == tail[3]);
        assert(tail[1] == '-' && tail[2] == '-' && tail[3] == '-');
    }
    assert(delim_at(rest, p));
    assert forall|j: int| 0 <= j < p implies !delim_at(rest, j) by {
        if delim_at(rest, j) {
            if j + 3 <= inner.len() {
                assert(rest[j] == inner[j]);
                assert(rest[j + 1] == inner[j + 1]);
                assert(rest[j + 2] == inner[j + 2]);
                assert(delim_at(inner, j));
            } else {
                assert(j <= inner.len() < j + 3);
                assert(rest[inner.len() as int] == tail[0]);
                assert(tail[0] == '\n');
            }
        }
    }
    lemma_find_delim_at(rest, p);

    // the frontmatter block, trimmed
    let fm_raw = rest.subrange(0, p);
    assert(fm_raw =~= inner + seq!['\n']);
    let core = "id: "@ + u + "\ntitle: "@ + t + "\ncreated_at: "@ + c1 + "\nupdated_at: "@ + c2;
    assert(ws(fm_raw[0]));
    assert(fm_raw.subrange(1, fm_raw.len() as int) =~= core + seq!['\n']);
    assert(trim_front(fm_raw) == trim_front(core + seq!['\n']));
    assert(!ws((core + seq!['\n'])[0]));
    assert(trim_front(core + seq!['\n']) == core + seq!['\n']);
    assert(ws((core + seq!['\n'])[(core + seq!['\n']).len() - 1]));
    assert((core + seq!['\n']).subrange(0, (core + seq!['\n']).len() - 1) =~= core);
    assert(trim_back(core + seq!['\n']) == trim_back(core));
    assert(core[core.len() - 1] == c2[c2.len() - 1]);
    assert(!ws(core[core.len() - 1]));
    assert(trim_back(core) == core);
    assert(trimmed(fm_raw) == core);

    // the body, trimmed
    let braw = rest.subrange(p + 3, rest.len() as int);
    assert(braw =~= seq!['\n', '\n'] + b);
    assert(ws(braw[0]));
    assert(braw.subrange(1, braw.len() as int) =~= seq!['\n'] + b);
    assert(trim_front(braw) == trim_front(seq!['\n'] + b));
    assert(ws((seq!['\n'] + b)[0]));
    assert((seq!['\n'] + b).subrange(1, (seq!['\n'] + b).len() as int) =~= b);
    assert(trim_front(seq!['\n'] + b) == trim_front(b));
    assert(trim_front(b) == b);
    assert(trim_back(b) == b);
    assert(trimmed(braw) == b);

    // the frontmatter lines, folded in order
    let line1 = "id: "@ + u;
    let rest2 = "title: "@ + t + "\ncreated_at: "@ + c1 + "\nupdated_at: "@ + c2;
    assert(core =~= line1 + seq!['\n'] + rest2);
    assert forall|j: int| 0 <= j < line1.len() implies line1[j] != '\n' by {
        if j < 4 {
        } else {
            assert(line1[j] == u[j - 4]);
        }
    }
    lemma_parse_fm_step(core, line1, rest2, fm_init());
    assert(line1 =~= "id"@ + ": "@ + u);
    assert(!ws(u[0]) && !ws(u[35]));
    lemma_line_form("id"@ + ": "@ + u, "id"@, u);
    let st1 = parse_fm_line(line1, fm_init());
    assert(st1 == Some((Some(nv.id), Seq::<char>::empty(), None::<Timestamp>, None::<Timestamp>)));

    let line2 = "title: "@ + t;
    let rest3 = "created_at: "@ + c1 + "\nupdated_at: "@ + c2;
    assert(rest2 =~= line2 + seq!['\n'] + rest3);
    assert forall|j: int| 0 <= j < line2.len() implies line2[j] != '\n' by {
        if j < 7 {
        } else {
            assert(line2[j] == t[j - 7]);
        }
    }
    lemma_parse_fm_step(rest2, line2, rest3, st1->Some_0);
    assert(line2 =~= "title"@ + ": "@ + t);
    lemma_line_form("title"@ + ": "@ + t, "title"@, t);
    assert("title"@ != "id"@);
    let st2 = parse_fm_line(line2, st1->Some_0);
    assert(st2 == Some((Some(nv.id), t, None::<Timestamp>, None::<Timestamp>)));

    let line3 = "created_at: "@ + c1;
    let rest4 = "updated_at: "@ + c2;
    assert(rest3 =~= line3 + seq!['\n'] + rest4);
    assert forall|j: int| 0 <= j < line3.len() implies line3[j] != '\n' by {
        if j < 12 {
        } else {
            assert(line3[j] == c1[j - 12]);
        }
    }
    lemma_parse_fm_step(rest3, line3, rest4, st2->Some_0);
    assert(line3 =~= "created_at"@ + ": "@ + c1);
    assert(!ws(c1[0]) && !ws(c1[c1.len() - 1]));
    lemma_line_form("created_at"@ + ": "@ + c1, "created_at"@, c1);
    assert("created_at"@ != "id"@);
    assert("created_at"@ != "title"@);
    assert(crate::time::raw_in_range(nv.created_at.secs as int, nv.created_at.nanos as int));
    let st3 = parse_fm_line(line3, st2->Some_0);
    assert(st3 == Some(
        (Some(nv.id), t, Some(nv.created_at), None::<Timestamp>),
    )) by {
        assert(Timestamp {
            secs: (nv.created_at.secs as int) as i64,
            nanos: (nv.created_at.nanos as int) as u32,
        } == nv.created_at);
    }

    assert forall|j: int| 0 <= j < rest4.len() implies rest4[j] != '\n' by {
        if j < 12 {
        } else {
            assert(rest4[j] == c2[j - 12]);
        }
    }
    lemma_find_char_none(rest4, '\n');
    assert(rest4 =~= "updated_at"@ + ": "@ + c2);
    assert(!ws(c2[0]) && !ws(c2[c2.len() - 1]));
    lemma_line_form("updated_at"@ + ": "@ + c2, "updated_at"@, c2);
    assert("updated_at"@ != "id"@);
    assert("updated_at"@ != "title"@);
    assert("updated_at"@ != "created_at"@);
    assert(crate::time::raw_in_range(nv.updated_at.secs as int, nv.updated_at.nanos as int));
    let st4 = parse_fm_line(rest4, st3->Some_0);
    assert(st4 == Some((Some(nv.id), t, Some(nv.created_at), Some(nv.updated_at)))) by {
        assert(Timestamp {
            secs: (nv.updated_at.secs as int) as i64,
            nanos: (nv.updated_at.nanos as int) as u32,
        } == nv.updated_at);
    }
    assert(parse_fm(rest4, st3->Some_0) == st4);
    assert(parse_fm(core, fm_init()) == st4);

    assert(decode_spec(e, nv.path) == Some(nv));
}

pub proof fn lemma_find_delim(s: Seq<char>)
    ensures
        find_delim(s) <= s.len(),
        find_delim(s) + 3 <= s.len() ==> delim_at(s, find_delim(s) as int),
        forall|j: int| 0 <= j < find_delim(s) ==> !delim_at(s, j),
        find_delim(s) + 3 > s.len() ==> find_delim(s) == s.len(),
    decreases s.len(),
{
    if s.len() < 3 {
    } else if delim_at(s, 0) {
    } else {
        let t = s.subrange(1, s.len() as int);
        lemma_find_delim(t);
        assert forall|j: int| 0 <= j < find_delim(s) implies !delim_at(s, j) by {
            if j == 0 {
            } else {
                assert(!delim_at(t, j - 1));
                if delim_at(s, j) {
                    assert(t[j - 1] == s[j]);
                    assert(t[j] == s[j + 1]);
                    assert(t[j + 1] == s[j + 2]);
                    assert(delim_at(t, j - 1));
                }
            }
        }
        if find_delim(s) + 3 <= s.len() {
            let f = find_delim(t) as int;
            assert(delim_at(t, f));
            assert(s[f + 1] == t[f]);
            assert(s[f + 2] == t[f + 1]);
            assert(s[f + 3] == t[f + 2]);
            assert(delim_at(s, f + 1));
        }
    }
}

/// A delimiter at `i` with none earlier is the first one.
pub proof fn lemma_find_delim_at(s: Seq<char>, i: int)
    requires
        delim_at(s, i),
        forall|j: int| 0 <= j < i ==> !delim_at(s, j),
    ensures
        find_delim(s) == i,
{
    lemma_find_delim(s);
    let f = find_delim(s);
    if (f as int) < i {
        assert(f + 3 <= s.len());
        assert(!delim_at(s, f as int));
    } else if (f as int) > i {
        assert(!delim_at(s, i));
    }
}

pub proof fn lemma_find_char(s: Seq<char>, c: char)
    ensures
        find_char(s, c) <= s.len(),
        find_char(s, c) < s.len() ==> s[find_char(s, c) as int] == c,
        forall|j: int| 0 <= j < find_char(s, c) ==> s[j] != c,
    decreases s.len(),
{
    if s.len() == 0 {
    } else if s[0] == c {
    } else {
        let t = s.subrange(1, s.len() as int);
        lemma_find_char(t, c);
        assert forall|j: int| 0 <= j < find_char(s, c) implies s[j] != c by {
            if j > 0 {
                assert(t[j - 1] == s[j]);
            }
        }
    }
}

/// `c` at `i` with none earlier is the first occurrence.
pub proof fn lemma_find_char_at(s: Seq<char>, c: char, i: int)
    requires
        0 <= i < s.len(),
        s[i] == c,
        forall|j: int| 0 <= j < i ==> s[j] != c,
    ensures
        find_char(s, c) == i,
{
    lemma_find_char(s, c);
    let f = find_char(s, c);
    if (f as int) < i {
        assert(s[f as int] != c);
    } else if (f as int) > i {
        assert(s[i] != c);
    }
}

/// `c` nowhere in `s` puts the first occurrence at the end.
pub proof fn lemma_find_char_none(s: Seq<char>, c: char)
    requires
        forall|j: int| 0 <= j < s.len() ==> s[j] != c,
    ensures
        find_char(s, c) == s.len(),
{
    lemma_find_char(s, c);
    if find_char(s, c) < s.len() {
        assert(s[find_char(s, c) as int] == c);
    }
}

fn find_delim_str(s: &str) -> (r: usize)
    ensures
        r as nat == find_delim(s@),
{
    let n = s.unicode_len();
    if n < 3 {
        return n;
    }
    let mut i: usize = 0;
    while i <= n - 3
        invariant
            i <= n,
            n == s@.len(),
            n >= 3,
            forall|j: int| 0 <= j < i ==> !delim_at(s@, j),
        decreases n - i,
    {
        let c0 = s.get_char(i);
        let c1 = s.get_char(i + 1);
        let c2 = s.get_char(i + 2);
        if c0 == '-' && c1 == '-' && c2 == '-' {
            proof {
                lemma_find_delim_at(s@, i as int);
            }
            return i;
        }
        i += 1;
    }
    proof {
        lemma_find_delim(s@);
        if find_delim(s@) + 3 <= s@.len() {
            assert(!delim_at(s@, find_delim(s@) as int));
        }
    }
    n
}

fn find_char_str(s: &str, c: char) -> (r: usize)
    ensures
        r as nat == find_char(s@, c),
{
    let n = s.unicode_len();
    let mut i: usize = 0;
    while i < n
        invariant
            i <= n,
            n == s@.len(),
            forall|j: int| 0 <= j < i ==> s@[j] != c,
        decreases n - i,
    {
        if s.get_char(i) == c {
            proof {
                lemma_find_char_at(s@, c, i as int);
            }
            return i;
        }
        i += 1;
    }
    proof {
        lemma_find_char_none(s@, c);
    }
    n
}

/// Strips leading and trailing whitespace, like the trimming the decoder
/// applies to keys, values and the body.
pub fn trim_str<'a>(s: &'a str) -> (r: &'a str)
    ensures
        r@ == trimmed(s@),
{
    let n = s.unicode_len();
    proof {
        assert(s@.subrange(0, n as int) =~= s@);
    }
    let mut start: usize = 0;
    while start < n && is_ws_char(s.get_char(start))
        invariant
            start <= n,
            n == s@.len(),
            trim_front(s@) == trim_front(s@.subrange(start as int, n as int)),
        decreases n - start,
    {
        proof {
            let cur = s@.subrange(start as int, n as int);
            assert(cur[0] == s@[start as int]);
            assert(cur.subrange(1, cur.len() as int) =~= s@.subrange(start as int + 1, n as int));
        }
        start += 1;
    }
    proof {
        let cur = s@.subrange(start as int, n as int);
        assert(cur.len() == 0 || !ws(cur[0]));
        assert(trim_front(s@) == cur);
    }
    let mut end: usize = n;
    while end > start && is_ws_char(s.get_char(end - 1))
        invariant
            start <= end <= n,
            n == s@.len(),
            trim_front(s@) == s@.subrange(start as int, n as int),
            trim_back(s@.subrange(start as int, n as int)) == trim_back(
                s@.subrange(start as int, end as int),
            ),
        decreases end,
    {
        proof {
            let cur = s@.subrange(start as int, end as int);
            assert(cur[cur.len() - 1] == s@[end - 1]);
            assert(cur.subrange(0, cur.len() - 1) =~= s@.subrange(start as int, end as int - 1));
        }
        end -= 1;
    }
    proof {
        let cur = s@.subrange(start as int, end as int);
        assert(cur.len() == 0 || !ws(cur[cur.len() - 1]));
        assert(trimmed(s@) == cur);
    }
    s.substring_char(start, end)
}

fn str_eq(a: &str, b: &str) -> (r: bool)
    ensures
        r == (a@ == b@),
{
    let an = a.unicode_len();
    let bn = b.unicode_len();
    if an != bn {
        return false;
    }
    let mut i: usize = 0;
    while i < an
        invariant
            i <= an,
            an == a@.len(),
            bn == b@.len(),
            an == bn,
            forall|j: int| 0 <= j < i ==> a@[j] == b@[j],
        decreases an - i,
    {
        if a.get_char(i) != b.get_char(i) {
            return false;
        }
        i += 1;
    }
    proof {
        assert(a@ =~= b@);
    }
    true
}

/// Frontmatter fields read so far, executable side.
struct FmParse {
    id: Option<u128>,
    title: String,
    created: Option<Timestamp>,
    updated: Option<Timestamp>,
}

impl FmParse {
    spec fn view_st(&self) -> FmSt {
        (self.id, self.title@, self.created, self.updated)
    }
}

fn parse_line(line: &str, st: FmParse) -> (r: Option<FmParse>)
    ensures
        match r {
            Some(p) => parse_fm_line(line@, st.view_st()) == Some(p.view_st()),
            None => parse_fm_line(line@, st.view_st()) is None,
        },
{
    let m = line.unicode_len();
    let ci = find_char_str(line, ':');
    if ci >= m {
        return Some(st);
    }
    let key = trim_str(line.substring_char(0, ci));
    let val = trim_str(line.substring_char(ci + 1, m));
    if str_eq(key, "id") {
        match uuid_parse(val) {
            Some(v) => Some(
                FmParse { id: Some(v), title: st.title, created: st.created, updated: st.updated },
            ),
            None => None,
        }
    } else if str_eq(key, "title") {
        Some(
            FmParse {
                id: st.id,
                title: String::from_str(val),
                created: st.created,
                updated: st.updated,
            },
        )
    } else if str_eq(key, "created_at") {
        match ts_parse(val) {
            Some(p) => match Timestamp::from_raw(p.0, p.1) {
                Some(t) => Some(
                    FmParse { id: st.id, title: st.title, created: Some(t), updated: st.updated },
                ),
                None => None,
            },
            None => None,
        }
    } else if str_eq(key, "updated_at") {
        match ts_parse(val) {
            Some(p) => match Timestamp::from_raw(p.0, p.1) {
                Some(t) => Some(
                    FmParse { id: st.id, title: st.title, created: st.created, updated: Some(t) },
                ),
                None => None,
            },
            None => None,
        }
    } else {
        Some(st)
    }
}

fn parse_frontmatter(fm: &str) -> (r: Option<FmParse>)
    ensures
        match r {
            Some(p) => parse_fm(fm@, fm_init()) == Some(p.view_st()),
            None => parse_fm(fm@, fm_init()) is None,
        },
{
    let mut rest: &str = fm;
    let mut st = FmParse { id: None, title: String::new(), created: None, updated: None };
    loop
        invariant
            parse_fm(fm@, fm_init()) == parse_fm(rest@, st.view_st()),
        decreases rest@.len(),
    {
        let m = rest.unicode_len();
        let i = find_char_str(rest, '\n');
        if i < m {
            let line = rest.substring_char(0, i);
            let tail = rest.substring_char(i + 1, m);
            match parse_line(line, st) {
                Some(s2) => {
                    st = s2;
                },
                None => {
                    return None;
                },
            }
            rest = tail;
        } else {
            return parse_line(rest, st);
        }
    }
}

/// Decodes a persisted record; the note's path is the caller-supplied file
/// location. Exactly the records `decode_spec` accepts decode, to exactly
/// that value; everything else is an `InvalidFormat` error.
pub fn decode(text: &str, path: String) -> (r: Result<Note, AppError>)
    ensures
        decode_spec(text@, path@) matches Some(nv) ==> (r matches Ok(n) && n@ == nv),
        decode_spec(text@, path@) is None ==> (r matches Err(e) && e.kind
            == ErrorKind::InvalidFormat),
{
    let n = text.unicode_len();
    let i0 = find_delim_str(text);
    if i0 >= n || n - i0 < 3 {
        return Err(AppError::invalid_format());
    }
    let rest = text.substring_char(i0 + 3, n);
    let m = rest.unicode_len();
    let i1 = find_delim_str(rest);
    if i1 >= m || m - i1 < 3 {
        return Err(AppError::invalid_format());
    }
    let fm = trim_str(rest.substring_char(0, i1));
    let body = trim_str(rest.substring_char(i1 + 3, m));
    let st = match parse_frontmatter(fm) {
        Some(st) => st,
        None => {
            return Err(AppError::invalid_format());
        },
    };
    let id = match st.id {
        Some(v) => v,
        None => {
            return Err(AppError::invalid_format());
        },
    };
    let created = match st.created {
        Some(t) => t,
        None => {
            return Err(AppError::invalid_format());
        },
    };
    let updated = match st.updated {
        Some(t) => t,
        None => {
            return Err(AppError::invalid_format());
        },
    };
    Ok(
        Note {
            id,
            title: st.title,
            content: String::from_str(body),
            created_at: created,
            updated_at: updated,
            path,
        },
    )
}

/// Encodes a note, verbatim, as `encode_spec` lays it out.
///
/// Round trip: whenever the title cannot forge a delimiter or a line break
/// and both title and body survive trimming, the encoded record decodes
/// back to the very same note (the path is not encoded; decoding takes it
/// from the file's location).
pub fn encode(note: &Note) -> (r: String)
    requires
        note.valid(),
    ensures
        r@ == encode_spec(note@),
        clean_title(note@.title) && clean_content(note@.content) ==> decode_spec(r@, note@.path)
            == Some(note@),
{
    let mut s = String::from_str("---");
    s.append("\nid: ");
    let idtext = crate::ids::uuid_format(note.id);
    s.append(idtext.as_str());
    s.append("\ntitle: ");
    s.append(note.title.as_str());
    s.append("\ncreated_at: ");
    let ctext = crate::time::ts_format(&note.created_at);
    s.append(ctext.as_str());
    s.append("\nupdated_at: ");
    let utext = crate::time::ts_format(&note.updated_at);
    s.append(utext.as_str());
    s.append("\n---\n\n");
    s.append(note.content.as_str());
    proof {
        assert(s@ =~= encode_spec(note@));
        if clean_title(note@.title) && clean_content(note@.content) {
            lemma_decode_encode(note@, idtext@, ctext@, utext@);
        }
    }
    s
}

} // verus!

