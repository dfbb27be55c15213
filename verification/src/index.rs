//! The review index store and scheduler: one line of the ledger per
//! document, `<RFC 3339 date> @ <signed interval/score> @ <path>`. Parsing
//! tolerates malformed lines (they are kept verbatim); a malformed interval
//! field is the one fatal condition. Rendering round-trips exactly.
use vstd::prelude::*;

use crate::bytes::{
    find_first, is_ws, lemma_find_first_is, trim, trim_back, trim_front, trimmed, ws_back_len,
    ws_front_len,
};
use crate::dates::{
    is_due, parse_rfc3339, render_rfc3339, rfc3339_parse, rfc3339_render, spec_due, Stamp,
};
use crate::numbers::{
    dec_int, format_i64, is_digit, is_int_literal, lemma_dec_int_shape, lemma_literal_of_dec_int,
    literal_value, parse_i64,
};

verus! {

/// One scheduled document: when it was last reviewed, the running
/// interval/score in days, and the path of the document to quiz.
pub struct Entry {
    pub stamp: Stamp,
    pub interval_offset: i64,
    pub path: Vec<u8>,
}

/// The mathematical image of an `Entry`.
#[verifier::ext_equal]
pub struct EntryV {
    pub stamp: Stamp,
    pub interval_offset: int,
    pub path: Seq<u8>,
}

impl View for Entry {
    type V = EntryV;

    open spec fn view(&self) -> EntryV {
        EntryV {
            stamp: self.stamp,
            interval_offset: self.interval_offset as int,
            path: self.path@,
        }
    }
}

/// What one index line parses to.
#[verifier::ext_equal]
pub enum ParsedLineV {
    /// Fewer than three `@`-separated fields: kept verbatim.
    Malformed,
    /// Three fields, but the date is not RFC 3339: kept verbatim.
    BadDate,
    /// A good date but an interval field that is no `i64`: fatal.
    BadOffset,
    /// A well-formed entry.
    Entry(EntryV),
}

/// What one index line parses to, as the parser returns it.
pub enum ParsedLine {
    Malformed,
    BadDate,
    BadOffset,
    Entry(Entry),
}

impl View for ParsedLine {
    type V = ParsedLineV;

    open spec fn view(&self) -> ParsedLineV {
        match self {
            ParsedLine::Malformed => ParsedLineV::Malformed,
            ParsedLine::BadDate => ParsedLineV::BadDate,
            ParsedLine::BadOffset => ParsedLineV::BadOffset,
            ParsedLine::Entry(e) => ParsedLineV::Entry(e@),
        }
    }
}

/// The three trimmed fields of a line, split at its first two `@` bytes;
/// `None` when the line has fewer than two `@`s. The third field keeps any
/// further `@`s.
pub open spec fn split3(s: Seq<u8>) -> Option<(Seq<u8>, Seq<u8>, Seq<u8>)> {
    match find_first(s, 64) {
        None => None,
        Some(i) => {
            let rest = s.skip(i + 1);
            match find_first(rest, 64) {
                None => None,
                Some(j) => Some(
                    (trimmed(s.take(i)), trimmed(rest.take(j)), trimmed(rest.skip(j + 1))),
                ),
            }
        },
    }
}

/// The parse rule for one index line: three trimmed fields, an RFC 3339
/// date, and an interval that must be a decimal `i64`.
pub open spec fn spec_parse_line(s: Seq<u8>) -> ParsedLineV {
    match split3(s) {
        None => ParsedLineV::Malformed,
        Some((f1, f2, f3)) => match rfc3339_parse(f1) {
            None => ParsedLineV::BadDate,
            Some(d) => if is_int_literal(f2) && i64::MIN <= literal_value(f2) <= i64::MAX {
                ParsedLineV::Entry(
                    EntryV {
                        stamp: Stamp {
                            secs: d.0 as i64,
                            nanos: d.1 as u32,
                            offset_secs: d.2 as i32,
                        },
                        interval_offset: literal_value(f2),
                        path: f3,
                    },
                )
            } else {
                ParsedLineV::BadOffset
            },
        },
    }
}

/// Parses one line of the index.
pub fn parse_line(line: &[u8]) -> (r: ParsedLine)
    ensures
        r@ == spec_parse_line(line@),
{
    let len: usize = line.len();
    let i: usize = match crate::bytes::find_byte(line, 64) {
        Some(i) => i,
        None => {
            return ParsedLine::Malformed;
        },
    };
    proof {
        crate::bytes::lemma_find_first(line@, 64);
    }
    let rest: &[u8] = vstd::slice::slice_subrange(line, i + 1, len);
    proof {
        assert(rest@ =~= line@.skip(i as int + 1));
    }
    let rlen: usize = rest.len();
    let j: usize = match crate::bytes::find_byte(rest, 64) {
        Some(j) => j,
        None => {
            return ParsedLine::Malformed;
        },
    };
    proof {
        crate::bytes::lemma_find_first(rest@, 64);
    }
    let f1: &[u8] = trim(vstd::slice::slice_subrange(line, 0, i));
    let f2: &[u8] = trim(vstd::slice::slice_subrange(rest, 0, j));
    let f3: &[u8] = trim(vstd::slice::slice_subrange(rest, j + 1, rlen));
    proof {
        assert(line@.take(i as int) =~= line@.subrange(0, i as int));
        assert(rest@.take(j as int) =~= rest@.subrange(0, j as int));
        assert(rest@.skip(j as int + 1) =~= rest@.subrange(j as int + 1, rlen as int));
    }
    let st: Stamp = match parse_rfc3339(f1) {
        Some(st) => st,
        None => {
            return ParsedLine::BadDate;
        },
    };
    let off: i64 = match parse_i64(f2) {
        Some(off) => off,
        None => {
            return ParsedLine::BadOffset;
        },
    };
    let e = Entry { stamp: st, interval_offset: off, path: vstd::slice::slice_to_vec(f3) };
    proof {
        assert(ParsedLineV::Entry(e@) =~= spec_parse_line(line@));
    }
    ParsedLine::Entry(e)
}

/// The serialized form of an entry: the rendered date, the interval in
/// decimal, and the path, joined by ` @ `.
pub open spec fn spec_entry_bytes(e: EntryV) -> Seq<u8> {
    rfc3339_render(e.stamp.secs as int, e.stamp.nanos as int, e.stamp.offset_secs as int) + seq![
        32u8,
        64u8,
        32u8,
    ] + dec_int(e.interval_offset) + seq![32u8, 64u8, 32u8] + e.path
}

/// A path with no whitespace character at either end, which the field
/// trimming of a reparse would strip.
pub open spec fn path_trimmed(p: Seq<u8>) -> bool {
    ws_front_len(p) == 0 && ws_back_len(p) == 0
}

/// Serializes an entry as one index line (without the final newline).
///
/// Succeeds exactly on stamps within the rendering bounds. Round-trip law:
/// for a stamp whose rendering reparses exactly and a trimmed path, parsing
/// the rendered line yields the entry itself — so serializing, parsing, and
/// serializing again reproduces the same bytes.
#[verifier::rlimit(50)]
pub fn render_entry(e: &Entry) -> (r: Option<Vec<u8>>)
    ensures
        r is Some <==> e.stamp.wf(),
        r matches Some(v) ==> v@ == spec_entry_bytes(e@),
        r matches Some(v) ==> (e.stamp.rt_ok() && path_trimmed(e.path@)
            ==> spec_parse_line(v@) == ParsedLineV::Entry(e@)),
{
    if !e.stamp.check_wf() {
        return None;
    }
    let d: Vec<u8> = render_rfc3339(&e.stamp);
    let ghost dseq = d@;
    let mut v: Vec<u8> = d;
    v.push(32);
    v.push(64);
    v.push(32);
    let mut o: Vec<u8> = format_i64(e.interval_offset);
    let ghost oseq = o@;
    v.append(&mut o);
    v.push(32);
    v.push(64);
    v.push(32);
    let mut p: Vec<u8> = vstd::slice::slice_to_vec(e.path.as_slice());
    v.append(&mut p);
    let ghost pseq = e.path@;
    let ghost mid = seq![32u8, 64u8, 32u8];
    proof {
        assert(v@ =~= dseq + mid + oseq + mid + pseq);
        assert(v@ == spec_entry_bytes(e@));
        if e.stamp.rt_ok() && path_trimmed(pseq) {
            lemma_render_reparses(dseq, oseq, pseq, e@);
        }
    }
    Some(v)
}

/// Parsing a rendered entry line recovers the entry: the date field holds
/// no `@` or whitespace, the decimal field only sign and digits, so the
/// line splits back into the three fields it was joined from.
proof fn lemma_render_reparses(dseq: Seq<u8>, oseq: Seq<u8>, pseq: Seq<u8>, e: EntryV)
    requires
        e.stamp.rt_ok(),
        path_trimmed(pseq),
        pseq == e.path,
        dseq == rfc3339_render(
            e.stamp.secs as int,
            e.stamp.nanos as int,
            e.stamp.offset_secs as int,
        ),
        dseq.len() > 0,
        forall|k: int|
            0 <= k < dseq.len() ==> dseq[k] < 128 && dseq[k] != 64 && !is_ws(#[trigger] dseq[k]),
        rfc3339_parse(dseq) == Some(
            (e.stamp.secs as int, e.stamp.nanos as int, e.stamp.offset_secs as int),
        ),
        oseq == dec_int(e.interval_offset),
        i64::MIN <= e.interval_offset <= i64::MAX,
    ensures
        spec_parse_line(dseq + seq![32u8, 64u8, 32u8] + oseq + seq![32u8, 64u8, 32u8] + pseq)
            == ParsedLineV::Entry(e),
{
    let mid = seq![32u8, 64u8, 32u8];
    let v = dseq + mid + oseq + mid + pseq;
    let dlen = dseq.len() as int;
    let olen = oseq.len() as int;
    lemma_dec_int_shape(e.interval_offset);
    assert(forall|k: int|
        0 <= k < olen ==> oseq[k] < 128 && oseq[k] != 64 && !is_ws(#[trigger] oseq[k])) by {
        assert forall|k: int|
            0 <= k < olen implies oseq[k] < 128 && oseq[k] != 64 && !is_ws(#[trigger] oseq[k]) by {
            assert(is_digit(oseq[k]) || oseq[k] == 45);
        }
    }
    // the first `@` sits right after the date field
    assert(v[dlen + 1] == 64);
    assert forall|k: int| 0 <= k < dlen + 1 implies v[k] != 64 by {
        if k < dlen {
            assert(v[k] == dseq[k]);
        } else {
            assert(v[k] == 32);
        }
    }
    lemma_find_first_is(v, 64, dlen + 1);
    let rest = v.skip(dlen + 2);
    assert(rest =~= seq![32u8] + oseq + mid + pseq);
    // the second `@` sits right after the decimal field
    assert(rest[olen + 2] == 64);
    assert forall|k: int| 0 <= k < olen + 2 implies rest[k] != 64 by {
        if k == 0 {
            assert(rest[k] == 32);
        } else if k <= olen {
            assert(rest[k] == oseq[k - 1]);
        } else {
            assert(rest[k] == 32);
        }
    }
    lemma_find_first_is(rest, 64, olen + 2);
    // the three fields trim back to what they were joined from
    let f1 = v.take(dlen + 1);
    assert(f1 =~= dseq + seq![32u8]);
    assert(f1[0] == dseq[0]);
    assert(ws_front_len(f1) == 0);
    assert(trim_front(f1) == f1);
    assert(ws_back_len(f1) == 1);
    assert(f1.take(f1.len() - 1) =~= dseq);
    assert(trim_back(f1) == trim_back(dseq));
    assert(ws_back_len(dseq) == 0);
    assert(trim_back(dseq) == dseq);
    assert(trimmed(f1) == dseq);
    let f2 = rest.take(olen + 2);
    assert(f2 =~= seq![32u8] + oseq + seq![32u8]);
    assert(ws_front_len(f2) == 1);
    assert(f2.skip(1) =~= oseq + seq![32u8]);
    assert(trim_front(f2) == trim_front(oseq + seq![32u8]));
    assert(olen > 0 && (oseq + seq![32u8])[0] == oseq[0]);
    assert(ws_front_len(oseq + seq![32u8]) == 0);
    assert(trim_front(oseq + seq![32u8]) == oseq + seq![32u8]);
    assert(trim_front(f2) == oseq + seq![32u8]);
    assert(ws_back_len(oseq + seq![32u8]) == 1);
    assert((oseq + seq![32u8]).take(olen) =~= oseq);
    assert(trim_back(oseq + seq![32u8]) == trim_back(oseq));
    assert(ws_back_len(oseq) == 0);
    assert(trim_back(oseq) == oseq);
    assert(trimmed(f2) == oseq);
    let f3 = rest.skip(olen + 3);
    assert(f3 =~= seq![32u8] + pseq);
    assert(ws_front_len(f3) == 1);
    assert(f3.skip(1) =~= pseq);
    assert(trim_front(f3) == trim_front(pseq));
    assert(trim_front(pseq) == pseq);
    assert(trim_back(pseq) == pseq);
    assert(trimmed(f3) == pseq);
    assert(split3(v) == Some((dseq, oseq, pseq)));
    // the date field reparses to the stamp, the decimal field to the interval
    lemma_literal_of_dec_int(e.interval_offset);
    assert(spec_parse_line(v) =~= ParsedLineV::Entry(e));
}

/// What one run does with one line of the index.
pub enum LineStep {
    /// Too few fields: the line is kept verbatim, with a diagnostic.
    KeepMalformed(Vec<u8>),
    /// Unparsable date: the line is kept verbatim, with a diagnostic.
    KeepBadDate(Vec<u8>),
    /// A well-formed entry that is not yet due: the line is kept verbatim.
    KeepNotDue(Vec<u8>),
    /// A well-formed entry that is due: quiz its document and reschedule.
    Quiz(Entry),
    /// An interval field that is no `i64`: the run aborts.
    FatalOffset,
}

/// Decides what this run does with one index line.
///
/// Malformed-preservation law: a line with fewer than three fields, or an
/// unparsable date, is kept byte for byte. Idempotent-skip law: an entry
/// not yet due is kept byte for byte.
pub fn process_line(line: &[u8], now: &Stamp) -> (r: LineStep)
    ensures
        spec_parse_line(line@) is Malformed <==> r is KeepMalformed,
        spec_parse_line(line@) is BadDate <==> r is KeepBadDate,
        spec_parse_line(line@) is BadOffset <==> r is FatalOffset,
        r matches LineStep::KeepMalformed(v) ==> v@ == line@,
        r matches LineStep::KeepBadDate(v) ==> v@ == line@,
        r matches LineStep::KeepNotDue(v) ==> v@ == line@,
        spec_parse_line(line@) matches ParsedLineV::Entry(e) ==> (spec_due(
            *now,
            e.stamp,
            e.interval_offset,
        ) <==> r is Quiz),
        spec_parse_line(line@) matches ParsedLineV::Entry(e) && !spec_due(
            *now,
            e.stamp,
            e.interval_offset,
        ) ==> r is KeepNotDue,
        r matches LineStep::Quiz(en) ==> spec_parse_line(line@) == ParsedLineV::Entry(en@),
{
    match parse_line(line) {
        ParsedLine::Malformed => LineStep::KeepMalformed(vstd::slice::slice_to_vec(line)),
        ParsedLine::BadDate => LineStep::KeepBadDate(vstd::slice::slice_to_vec(line)),
        ParsedLine::BadOffset => LineStep::FatalOffset,
        ParsedLine::Entry(e) => {
            if is_due(now, &e.stamp, e.interval_offset) {
                LineStep::Quiz(e)
            } else {
                LineStep::KeepNotDue(vstd::slice::slice_to_vec(line))
            }
        },
    }
}

/// Reschedules a reviewed entry: the stamp becomes today's midnight and the
/// score delta is added to the interval; `None` exactly when the sum leaves
/// `i64`.
pub fn reschedule(e: Entry, delta: i64, today: &Stamp) -> (r: Option<Entry>)
    ensures
        r is Some <==> i64::MIN <= e.interval_offset + delta <= i64::MAX,
        r matches Some(n) ==> n.stamp == *today && n.interval_offset as int == e.interval_offset
            + delta && n.path@ == e.path@,
{
    match e.interval_offset.checked_add(delta) {
        Some(next) => Some(Entry { stamp: *today, interval_offset: next, path: e.path }),
        None => None,
    }
}

} // verus!
