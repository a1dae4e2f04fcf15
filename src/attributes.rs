//! The attribute column in its two dialects: `key=value;...` and
//! `key "value"; ...`.
use vstd::prelude::*;

use crate::annotation::{attrs_view, find_attr, keys_unique, lemma_unique_preserved, set_attr, AttrSeq};
use crate::text::{
    chars_of, parse_decimal, parse_number, same_text, split_all, split_all_spans, split_n,
    split_spans, string_of_range, trim, trim_span,
};
use crate::uid::{parse_uid, uid_of_text};

verus! {

/// The two attribute syntaxes: `key=value` pairs, and `key "value"` pairs.
#[derive(Clone, Copy, Debug, PartialEq, Eq, Structural)]
pub enum Dialect {
    Gff,
    Gtf,
}

/// Why a record line was refused.
#[derive(Clone, Copy, Debug, PartialEq, Eq, Structural)]
pub enum ParseError {
    /// Fewer than nine tab-separated columns.
    FieldCount,
    InvalidStart,
    InvalidEnd,
    InvalidPhase,
    /// A `uid` attribute that is no identifier.
    InvalidUid,
    /// A `taxon_id` attribute that is no number of 32 bits.
    InvalidTaxonId,
}

/// What the attribute column gives a record.
pub ghost struct AttrState {
    pub uid: u128,
    pub taxon_id: u32,
    pub attributes: AttrSeq,
}

pub open spec fn separator(d: Dialect) -> char {
    match d {
        Dialect::Gff => '=',
        Dialect::Gtf => ' ',
    }
}

/// `v` without one enclosing pair of double quotes.
pub open spec fn unquote(v: Seq<char>) -> Seq<char> {
    if v.len() >= 2 && v[0] == '"' && v.last() == '"' {
        v.subrange(1, v.len() - 1)
    } else {
        v
    }
}

/// The key and value of one `;`-separated segment, or `None` where the segment
/// has neither shape (it is then skipped).
pub open spec fn segment_pair(seg: Seq<char>, d: Dialect) -> Option<(Seq<char>, Seq<char>)> {
    let ps = split_n(trim(seg), separator(d), 2);
    if ps.len() == 2 {
        Some(
            (
                trim(ps[0]),
                match d {
                    Dialect::Gff => trim(ps[1]),
                    Dialect::Gtf => unquote(trim(ps[1])),
                },
            ),
        )
    } else {
        None
    }
}

/// One pair applied: `uid` and `taxon_id` go to the typed fields, any other
/// key to the attributes, where a later value replaces an earlier one.
pub open spec fn apply_pair(st: AttrState, k: Seq<char>, v: Seq<char>) -> Result<AttrState, ParseError> {
    if k == "uid"@ {
        match uid_of_text(v) {
            Some(u) => Ok(AttrState { uid: u, ..st }),
            None => Err(ParseError::InvalidUid),
        }
    } else if k == "taxon_id"@ {
        match parse_decimal(v) {
            Some(n) => if n <= u32::MAX {
                Ok(AttrState { taxon_id: n as u32, ..st })
            } else {
                Err(ParseError::InvalidTaxonId)
            },
            None => Err(ParseError::InvalidTaxonId),
        }
    } else {
        Ok(AttrState { attributes: set_attr(st.attributes, k, v), ..st })
    }
}

pub open spec fn parse_segments(segs: Seq<Seq<char>>, d: Dialect) -> Result<AttrState, ParseError>
    decreases segs.len(),
{
    if segs.len() == 0 {
        Ok(AttrState { uid: 0, taxon_id: 0, attributes: seq![] })
    } else {
        match parse_segments(segs.drop_last(), d) {
            Err(e) => Err(e),
            Ok(st) => match segment_pair(segs.last(), d) {
                None => Ok(st),
                Some(p) => apply_pair(st, p.0, p.1),
            },
        }
    }
}

/// The attribute column read in dialect `d`; a record without an identifier
/// (or with the all-zero one) gets `fresh_uid`.
pub open spec fn parse_attribute_text(field: Seq<char>, d: Dialect, fresh_uid: u128) -> Result<
    AttrState,
    ParseError,
> {
    match parse_segments(split_all(field, ';'), d) {
        Err(e) => Err(e),
        Ok(st) => Ok(
            if st.uid == 0 {
                AttrState { uid: fresh_uid, ..st }
            } else {
                st
            },
        ),
    }
}

pub open spec fn attr_result_view(r: Result<(u128, u32, Vec<(String, String)>), ParseError>) -> Result<
    AttrState,
    ParseError,
> {
    match r {
        Ok(t) => Ok(AttrState { uid: t.0, taxon_id: t.1, attributes: attrs_view(t.2@) }),
        Err(e) => Err(e),
    }
}

/// The attributes read from a column have unique keys.
pub proof fn lemma_parse_segments_unique(segs: Seq<Seq<char>>, d: Dialect)
    ensures
        parse_segments(segs, d) matches Ok(st) ==> keys_unique(st.attributes),
    decreases segs.len(),
{
    if segs.len() > 0 {
        lemma_parse_segments_unique(segs.drop_last(), d);
        if let Ok(st) = parse_segments(segs.drop_last(), d) {
            if let Some(p) = segment_pair(segs.last(), d) {
                lemma_unique_preserved(st.attributes, p.0, p.1);
            }
        }
    }
}

proof fn lemma_parse_segments_err(segs: Seq<Seq<char>>, d: Dialect, k: int, e: ParseError)
    requires
        0 <= k <= segs.len(),
        parse_segments(segs.subrange(0, k), d) == Err::<AttrState, ParseError>(e),
    ensures
        parse_segments(segs, d) == Err::<AttrState, ParseError>(e),
    decreases segs.len(),
{
    if k < segs.len() {
        assert(segs.drop_last().subrange(0, k) =~= segs.subrange(0, k));
        lemma_parse_segments_err(segs.drop_last(), d, k, e);
    } else {
        assert(segs.subrange(0, k) =~= segs);
    }
}

fn unquote_span(s: &Vec<char>, a: usize, b: usize) -> (r: (usize, usize))
    requires
        a <= b <= s@.len(),
    ensures
        a <= r.0 <= r.1 <= b,
        s@.subrange(r.0 as int, r.1 as int) == unquote(s@.subrange(a as int, b as int)),
{
    if b - a >= 2 && s[a] == '"' && s[b - 1] == '"' {
        assert(s@.subrange(a + 1, b - 1) =~= s@.subrange(a as int, b as int).subrange(
            1,
            b - a - 1,
        ));
        (a + 1, b - 1)
    } else {
        (a, b)
    }
}

fn segment_pair_span(s: &Vec<char>, a: usize, b: usize, d: Dialect) -> (r: Option<(String, String)>)
    requires
        a <= b <= s@.len(),
    ensures
        match r {
            Some(p) => segment_pair(s@.subrange(a as int, b as int), d) == Some((p.0@, p.1@)),
            None => segment_pair(s@.subrange(a as int, b as int), d) is None,
        },
{
    let (ta, tb) = trim_span(s, a, b);
    let sep = match d {
        Dialect::Gff => '=',
        Dialect::Gtf => ' ',
    };
    let ps = split_spans(s, ta, tb, sep, 2);
    if ps.len() != 2 {
        return None;
    }
    let (k0, k1) = trim_span(s, ps[0].0, ps[0].1);
    let (v0, v1) = trim_span(s, ps[1].0, ps[1].1);
    let (u0, u1) = match d {
        Dialect::Gff => (v0, v1),
        Dialect::Gtf => unquote_span(s, v0, v1),
    };
    Some((string_of_range(s.as_slice(), k0, k1), string_of_range(s.as_slice(), u0, u1)))
}

/// Reads the attribute column `s[lo..hi]` in dialect `d`.
pub fn parse_attribute_span(s: &Vec<char>, lo: usize, hi: usize, d: Dialect, fresh_uid: u128) -> (r:
    Result<(u128, u32, Vec<(String, String)>), ParseError>)
    requires
        lo <= hi <= s@.len(),
    ensures
        attr_result_view(r) == parse_attribute_text(s@.subrange(lo as int, hi as int), d, fresh_uid),
{
    let segs = split_all_spans(s, lo, hi, ';');
    let ghost segv = split_all(s@.subrange(lo as int, hi as int), ';');
    let mut uid: u128 = 0;
    let mut taxon: u32 = 0;
    let mut attrs: Vec<(String, String)> = Vec::new();
    let mut i: usize = 0;
    assert(segv.subrange(0, 0) =~= Seq::<Seq<char>>::empty());
    assert(attrs_view(attrs@) =~= Seq::<(Seq<char>, Seq<char>)>::empty());
    while i < segs.len()
        invariant
            i <= segs@.len() == segv.len(),
            segv == split_all(s@.subrange(lo as int, hi as int), ';'),
            forall|j: int|
                0 <= j < segs@.len() ==> (#[trigger] segs@[j]).0 <= segs@[j].1 <= s@.len()
                    && s@.subrange(segs@[j].0 as int, segs@[j].1 as int) == segv[j],
            parse_segments(segv.subrange(0, i as int), d) == Ok::<AttrState, ParseError>(
                AttrState { uid: uid, taxon_id: taxon, attributes: attrs_view(attrs@) },
            ),
        decreases segs@.len() - i,
    {
        let (a, b) = segs[i];
        let ghost st = AttrState { uid: uid, taxon_id: taxon, attributes: attrs_view(attrs@) };
        assert(segv.subrange(0, i + 1).drop_last() =~= segv.subrange(0, i as int));
        assert(segv.subrange(0, i + 1).last() == segv[i as int]);
        assert(segs@[i as int].0 <= segs@[i as int].1 <= s@.len());
        assert(s@.subrange(a as int, b as int) == segv[i as int]);
        assert(parse_segments(segv.subrange(0, i + 1), d) == match segment_pair(segv[i as int], d) {
            None => Ok(st),
            Some(p) => apply_pair(st, p.0, p.1),
        });
        match segment_pair_span(s, a, b, d) {
            None => {},
            Some((k, v)) => {
                if same_text(k.as_str(), "uid") {
                    match parse_uid(v.as_str()) {
                        Some(u) => {
                            uid = u;
                        },
                        None => {
                            proof {
                                lemma_parse_segments_err(segv, d, i + 1, ParseError::InvalidUid);
                            }
                            return Err(ParseError::InvalidUid);
                        },
                    }
                } else if same_text(k.as_str(), "taxon_id") {
                    let vc = chars_of(v.as_str());
                    assert(vc@.subrange(0, vc@.len() as int) =~= v@);
                    match parse_number(&vc, 0, vc.len(), 4294967295) {
                        Some(n) => {
                            taxon = n as u32;
                        },
                        None => {
                            proof {
                                lemma_parse_segments_err(
                                    segv,
                                    d,
                                    i + 1,
                                    ParseError::InvalidTaxonId,
                                );
                            }
                            return Err(ParseError::InvalidTaxonId);
                        },
                    }
                } else {
                    let ghost a0 = attrs_view(attrs@);
                    let p = find_attr(&attrs, k.as_str());
                    if p < attrs.len() {
                        attrs.set(p, (k, v));
                    } else {
                        attrs.push((k, v));
                    }
                    assert(attrs_view(attrs@) =~= set_attr(a0, k@, v@));

                }
            },
        }
        i = i + 1;
    }
    assert(segv.subrange(0, i as int) =~= segv);
    if uid == 0 {
        uid = fresh_uid;
    }
    Ok((uid, taxon, attrs))
}

/// Reads an attribute column in dialect `d`: the identifier (`fresh_uid` where
/// the column gives none, or the all-zero one), the taxon (0 where none is
/// given) and the other pairs in order of first appearance.
pub fn parse_attribute_field(field: &str, d: Dialect, fresh_uid: u128) -> (r: Result<
    (u128, u32, Vec<(String, String)>),
    ParseError,
>)
    ensures
        attr_result_view(r) == parse_attribute_text(field@, d, fresh_uid),
{
    let s = chars_of(field);
    assert(s@.subrange(0, s@.len() as int) =~= field@);
    parse_attribute_span(&s, 0, s.len(), d, fresh_uid)
}

} // verus!
