//! Record lines: nine tab-separated columns, comment lines and the line that
//! starts inline sequence data.
use vstd::prelude::*;

use crate::annotation::{line_text, Annotation, Phase, RecordModel, Strand};
use crate::transform::texts_view;
use crate::attributes::{
    lemma_parse_segments_unique, parse_attribute_span, parse_attribute_text, Dialect, ParseError,
};
use crate::text::{chars_of, lemma_split_n_len, split_all, parse_decimal, parse_number, split_n, split_spans, string_of_range, trim, trim_span};
use crate::uid::new_uid;

verus! {

/// How the reader treats a line.
#[derive(Clone, Copy, Debug, PartialEq, Eq, Structural)]
pub enum LineKind {
    /// Starts with `#`: skipped.
    Comment,
    /// Starts with `>`: the annotations end here.
    SequenceStart,
    Record,
}

pub open spec fn line_kind(line: Seq<char>) -> LineKind {
    if line.len() > 0 && line[0] == '#' {
        LineKind::Comment
    } else if line.len() > 0 && line[0] == '>' {
        LineKind::SequenceStart
    } else {
        LineKind::Record
    }
}

pub open spec fn strand_of(t: Seq<char>) -> Strand {
    if t == seq!['+'] {
        Strand::Forward
    } else if t == seq!['-'] {
        Strand::Reverse
    } else {
        Strand::Unknown
    }
}

pub open spec fn phase_of(t: Seq<char>) -> Option<Phase> {
    if t == seq!['0'] {
        Some(Phase::Zero)
    } else if t == seq!['1'] {
        Some(Phase::One)
    } else if t == seq!['2'] {
        Some(Phase::Two)
    } else if t == seq!['.'] {
        Some(Phase::Unknown)
    } else {
        None
    }
}

pub open spec fn decimal_u64(t: Seq<char>) -> Option<u64> {
    match parse_decimal(t) {
        Some(v) => if v <= u64::MAX {
            Some(v as u64)
        } else {
            None
        },
        None => None,
    }
}

/// The columns of a line: cut at tabs into at most nine, the ninth keeping the rest.
pub open spec fn columns(line: Seq<char>) -> Seq<Seq<char>> {
    split_n(trim(line), '\t', 9)
}

/// A record line read with attribute dialect `d`. Each column is trimmed; an
/// unreadable score is kept as written.
pub open spec fn parse_line_text(line: Seq<char>, d: Dialect, fresh_uid: u128) -> Result<RecordModel, ParseError> {
    let c = columns(line);
    if c.len() < 9 {
        Err(ParseError::FieldCount)
    } else {
        match decimal_u64(trim(c[3])) {
            None => Err(ParseError::InvalidStart),
            Some(start) => match decimal_u64(trim(c[4])) {
                None => Err(ParseError::InvalidEnd),
                Some(end) => match phase_of(trim(c[7])) {
                    None => Err(ParseError::InvalidPhase),
                    Some(phase) => match parse_attribute_text(trim(c[8]), d, fresh_uid) {
                        Err(e) => Err(e),
                        Ok(st) => Ok(
                            RecordModel {
                                seq_id: trim(c[0]),
                                source: trim(c[1]),
                                feature_type: trim(c[2]),
                                start: start,
                                end: end,
                                score: trim(c[5]),
                                strand: strand_of(trim(c[6])),
                                phase: phase,
                                uid: st.uid,
                                taxon_id: st.taxon_id,
                                attributes: st.attributes,
                            },
                        ),
                    },
                },
            },
        }
    }
}

pub open spec fn record_result_view(r: Result<Annotation, ParseError>) -> Result<RecordModel, ParseError> {
    match r {
        Ok(a) => Ok(a@),
        Err(e) => Err(e),
    }
}

pub fn classify_line(line: &str) -> (r: LineKind)
    ensures
        r == line_kind(line@),
{
    if line.unicode_len() > 0 {
        let c = line.get_char(0);
        if c == '#' {
            return LineKind::Comment;
        } else if c == '>' {
            return LineKind::SequenceStart;
        }
    }
    LineKind::Record
}

fn is_one(s: &Vec<char>, a: usize, b: usize, c: char) -> (r: bool)
    requires
        a <= b <= s@.len(),
    ensures
        r == (s@.subrange(a as int, b as int) == seq![c]),
{
    assert(seq![c].len() == 1 && seq![c][0] == c);
    if b - a == 1 && s[a] == c {
        assert(s@.subrange(a as int, b as int) =~= seq![c]);
        true
    } else {
        proof {
            if b - a == 1 {
                assert(s@.subrange(a as int, b as int)[0] == s@[a as int]);
            }
        }
        false
    }
}

/// Reads one record line with attribute dialect `d`; `fresh_uid` is the
/// identifier of a record whose attributes give none.
pub fn parse_line(line: &str, d: Dialect, fresh_uid: u128) -> (r: Result<Annotation, ParseError>)
    ensures
        record_result_view(r) == parse_line_text(line@, d, fresh_uid),
        r matches Ok(a) ==> a.wf(),
{
    proof {
        let c = columns(line@);
        if c.len() >= 9 {
            lemma_parse_segments_unique(split_all(trim(c[8]), ';'), d);
        }
    }
    let s = chars_of(line);
    assert(s@.subrange(0, s@.len() as int) =~= line@);
    let (lo, hi) = trim_span(&s, 0, s.len());
    let cols = split_spans(&s, lo, hi, '\t', 9);
    let ghost c = columns(line@);
    proof {
        lemma_split_n_len(trim(line@), '\t', 9);
    }
    if cols.len() < 9 {
        return Err(ParseError::FieldCount);
    }
    let mut t: Vec<(usize, usize)> = Vec::new();
    let mut i: usize = 0;
    while i < 9
        invariant
            i <= 9,
            cols@.len() == 9 == c.len(),
            t@.len() == i,
            forall|j: int|
                0 <= j < 9 ==> (#[trigger] cols@[j]).0 <= cols@[j].1 <= s@.len() && s@.subrange(
                    cols@[j].0 as int,
                    cols@[j].1 as int,
                ) == c[j],
            forall|j: int|
                0 <= j < i ==> (#[trigger] t@[j]).0 <= t@[j].1 <= s@.len() && s@.subrange(
                    t@[j].0 as int,
                    t@[j].1 as int,
                ) == trim(c[j]),
        decreases 9 - i,
    {
        assert(cols@[i as int].0 <= cols@[i as int].1 <= s@.len());
        t.push(trim_span(&s, cols[i].0, cols[i].1));
        i = i + 1;
    }
    assert(t@[3].0 <= t@[3].1 <= s@.len());
    assert(t@[4].0 <= t@[4].1 <= s@.len());
    assert(t@[6].0 <= t@[6].1 <= s@.len());
    assert(t@[7].0 <= t@[7].1 <= s@.len());
    assert(t@[8].0 <= t@[8].1 <= s@.len());
    let start = match parse_number(&s, t[3].0, t[3].1, 18446744073709551615) {
        Some(v) => v,
        None => {
            return Err(ParseError::InvalidStart);
        },
    };
    let end = match parse_number(&s, t[4].0, t[4].1, 18446744073709551615) {
        Some(v) => v,
        None => {
            return Err(ParseError::InvalidEnd);
        },
    };
    let phase = if is_one(&s, t[7].0, t[7].1, '0') {
        Phase::Zero
    } else if is_one(&s, t[7].0, t[7].1, '1') {
        Phase::One
    } else if is_one(&s, t[7].0, t[7].1, '2') {
        Phase::Two
    } else if is_one(&s, t[7].0, t[7].1, '.') {
        Phase::Unknown
    } else {
        return Err(ParseError::InvalidPhase);
    };
    let strand = if is_one(&s, t[6].0, t[6].1, '+') {
        Strand::Forward
    } else if is_one(&s, t[6].0, t[6].1, '-') {
        Strand::Reverse
    } else {
        Strand::Unknown
    };
    let (uid, taxon_id, attributes) = match parse_attribute_span(&s, t[8].0, t[8].1, d, fresh_uid) {
        Ok(x) => x,
        Err(e) => {
            return Err(e);
        },
    };
    assert(t@[0].0 <= t@[0].1 <= s@.len());
    assert(t@[1].0 <= t@[1].1 <= s@.len());
    assert(t@[2].0 <= t@[2].1 <= s@.len());
    assert(t@[5].0 <= t@[5].1 <= s@.len());
    let a = Annotation {
        seq_id: string_of_range(s.as_slice(), t[0].0, t[0].1),
        source: string_of_range(s.as_slice(), t[1].0, t[1].1),
        feature_type: string_of_range(s.as_slice(), t[2].0, t[2].1),
        start: start,
        end: end,
        score: string_of_range(s.as_slice(), t[5].0, t[5].1),
        strand: strand,
        phase: phase,
        uid: uid,
        taxon_id: taxon_id,
        attributes: attributes,
    };
    Ok(a)
}

/// Reads one record line with a newly drawn identifier for a record whose
/// attributes give none.
pub fn parse_record(line: &str, d: Dialect) -> (r: Result<Annotation, ParseError>)
    ensures
        exists|u: u128| u != 0 && record_result_view(r) == parse_line_text(line@, d, u),
        r matches Ok(a) ==> a.wf(),
{
    let u = new_uid();
    parse_line(line, d, u)
}

/// The records of a stream of lines: comment lines are skipped, a line that
/// starts sequence data ends the records, every other line is a record; record
/// line `i` takes `fresh[i]` where its attributes give no identifier.
pub open spec fn read_text(lines: Seq<Seq<char>>, d: Dialect, fresh: Seq<u128>) -> Result<Seq<RecordModel>, ParseError>
    decreases lines.len(),
{
    if lines.len() == 0 {
        Ok(seq![])
    } else {
        match line_kind(lines[0]) {
            LineKind::SequenceStart => Ok(seq![]),
            LineKind::Comment => read_text(lines.drop_first(), d, fresh.drop_first()),
            LineKind::Record => match parse_line_text(lines[0], d, fresh[0]) {
                Err(e) => Err(e),
                Ok(m) => match read_text(lines.drop_first(), d, fresh.drop_first()) {
                    Err(e) => Err(e),
                    Ok(ms) => Ok(seq![m] + ms),
                },
            },
        }
    }
}

pub open spec fn prepend<T>(acc: Seq<T>, r: Result<Seq<T>, ParseError>) -> Result<Seq<T>, ParseError> {
    match r {
        Ok(ms) => Ok(acc + ms),
        Err(e) => Err(e),
    }
}

pub open spec fn records_view(r: Result<Vec<Annotation>, ParseError>) -> Result<Seq<RecordModel>, ParseError> {
    match r {
        Ok(v) => Ok(v@.map_values(|a: Annotation| a@)),
        Err(e) => Err(e),
    }
}

/// Reads the records of `lines` (see `read_text`).
pub fn read_records(lines: &Vec<String>, d: Dialect, fresh: &Vec<u128>) -> (r: Result<Vec<Annotation>, ParseError>)
    requires
        fresh@.len() >= lines@.len(),
    ensures
        records_view(r) == read_text(texts_view(lines@), d, fresh@),
{
    let ghost lv = texts_view(lines@);
    let mut out: Vec<Annotation> = Vec::new();
    let mut i: usize = 0;
    assert(lv.subrange(0, lv.len() as int) =~= lv);
    assert(fresh@.subrange(0, fresh@.len() as int) =~= fresh@);
    assert(out@.map_values(|a: Annotation| a@) =~= Seq::<RecordModel>::empty());
    while i < lines.len()
        invariant
            i <= lines@.len() <= fresh@.len(),
            lv == texts_view(lines@),
            read_text(lv, d, fresh@) == prepend(
                out@.map_values(|a: Annotation| a@),
                read_text(lv.subrange(i as int, lv.len() as int), d, fresh@.subrange(i as int, fresh@.len() as int)),
            ),
        decreases lines@.len() - i,
    {
        let ghost rest = lv.subrange(i as int, lv.len() as int);
        let ghost frest = fresh@.subrange(i as int, fresh@.len() as int);
        assert(rest.drop_first() =~= lv.subrange(i + 1, lv.len() as int));
        assert(frest.drop_first() =~= fresh@.subrange(i + 1, fresh@.len() as int));
        assert(rest[0] == lines@[i as int]@);
        assert(frest[0] == fresh@[i as int]);
        match classify_line(lines[i].as_str()) {
            LineKind::SequenceStart => {
                assert(out@.map_values(|a: Annotation| a@) + seq![] =~= out@.map_values(|a: Annotation| a@));
                return Ok(out);
            },
            LineKind::Comment => {},
            LineKind::Record => {
                match parse_line(lines[i].as_str(), d, fresh[i]) {
                    Err(e) => {
                        return Err(e);
                    },
                    Ok(a) => {
                        let ghost before = out@.map_values(|a: Annotation| a@);
                        out.push(a);
                        assert(out@.map_values(|a: Annotation| a@) =~= before.push(a@));
                        proof {
                            match read_text(lv.subrange(i + 1, lv.len() as int), d, fresh@.subrange(i + 1, fresh@.len() as int)) {
                                Ok(ms) => {
                                    assert(before + (seq![a@] + ms) =~= before.push(a@) + ms);
                                },
                                Err(e) => {},
                            }
                        }
                    },
                }
            },
        }
        i = i + 1;
    }
    assert(lv.subrange(i as int, lv.len() as int) =~= Seq::<Seq<char>>::empty());
    assert(out@.map_values(|a: Annotation| a@) + seq![] =~= out@.map_values(|a: Annotation| a@));
    Ok(out)
}

/// The records of `lines` read with `key "value"` attributes and written back
/// as lines with `key=value` attributes.
pub open spec fn gtf_to_gff_text(lines: Seq<Seq<char>>, fresh: Seq<u128>) -> Result<Seq<Seq<char>>, ParseError> {
    match read_text(lines, Dialect::Gtf, fresh) {
        Ok(ms) => Ok(ms.map_values(|m: RecordModel| line_text(m))),
        Err(e) => Err(e),
    }
}

pub open spec fn lines_view(r: Result<Vec<String>, ParseError>) -> Result<Seq<Seq<char>>, ParseError> {
    match r {
        Ok(v) => Ok(texts_view(v@)),
        Err(e) => Err(e),
    }
}

/// Converts lines with `key "value"` attributes to lines with `key=value`
/// attributes; `fresh[i]` is the identifier of line `i` where it gives none.
pub fn convert_gtf(lines: &Vec<String>, fresh: &Vec<u128>) -> (r: Result<Vec<String>, ParseError>)
    requires
        fresh@.len() >= lines@.len(),
    ensures
        lines_view(r) == gtf_to_gff_text(texts_view(lines@), fresh@),
{
    let recs = match read_records(lines, Dialect::Gtf, fresh) {
        Ok(v) => v,
        Err(e) => {
            return Err(e);
        },
    };
    let ghost ms = recs@.map_values(|a: Annotation| a@);
    let mut out: Vec<String> = Vec::new();
    let mut i: usize = 0;
    while i < recs.len()
        invariant
            i <= recs@.len(),
            ms == recs@.map_values(|a: Annotation| a@),
            texts_view(out@) == ms.subrange(0, i as int).map_values(|m: RecordModel| line_text(m)),
        decreases recs@.len() - i,
    {
        let l = recs[i].to_line();
        assert(ms[i as int] == recs@[i as int]@);
        assert(l@ == line_text(ms[i as int]));
        let ghost before = out@;
        out.push(l);
        assert(out@ == before.push(l));
        assert(texts_view(out@) =~= texts_view(before).push(l@));
        assert(texts_view(out@) =~= ms.subrange(0, i + 1).map_values(|m: RecordModel| line_text(m)));
        i = i + 1;
    }
    assert(ms.subrange(0, i as int) =~= ms);
    Ok(out)
}

/// Converts lines with `key "value"` attributes to lines with `key=value`
/// attributes, drawing a new identifier for each record that gives none.
pub fn gtf_command(lines: &Vec<String>) -> (r: Result<Vec<String>, ParseError>)
    ensures
        exists|u: Seq<u128>|
            u.len() == lines@.len() && (forall|i: int| 0 <= i < u.len() ==> u[i] != 0)
                && lines_view(r) == #[trigger] gtf_to_gff_text(texts_view(lines@), u),
{
    let mut fresh: Vec<u128> = Vec::new();
    let mut i: usize = 0;
    while i < lines.len()
        invariant
            i <= lines@.len(),
            fresh@.len() == i,
            forall|j: int| 0 <= j < fresh@.len() ==> fresh@[j] != 0,
        decreases lines@.len() - i,
    {
        fresh.push(new_uid());
        i = i + 1;
    }
    let r = convert_gtf(lines, &fresh);
    assert(lines_view(r) == gtf_to_gff_text(texts_view(lines@), fresh@));
    r
}

} // verus!
