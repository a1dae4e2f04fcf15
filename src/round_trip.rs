//! Writing a record as a line and reading the line back gives the record.
use vstd::prelude::*;

use crate::annotation::{
    attribute_text, keys_unique, lemma_key_index, line_text, pairs_text, phase_text,
    set_attr, strand_text, AttrSeq, RecordModel,
};
use crate::attributes::{parse_attribute_text, parse_segments, segment_pair, AttrState, Dialect, ParseError};
use crate::reader::{columns, parse_line_text, phase_of, strand_of};
use crate::text::{
    decimal_text, is_space, is_trimmed, lacks, lemma_decimal_round_trip, lemma_split_all_concat,
    lemma_split_all_single, lemma_split_n_cons, lemma_trim_trimmed, split_all, split_n, trim,
};
use crate::uid::{lemma_uid_text, uid_text};

verus! {

/// A column that a line carries as it is: no tab, no whitespace at its ends.
pub open spec fn column_ok(s: Seq<char>) -> bool {
    lacks(s, '\t') && is_trimmed(s)
}

/// An attribute pair that the `key=value` form carries as it is: not a
/// reserved key, no `;` in either text, no `=` in the key, no whitespace at
/// the ends of either.
pub open spec fn pair_ok(k: Seq<char>, v: Seq<char>) -> bool {
    &&& k != "uid"@ && k != "taxon_id"@
    &&& lacks(k, ';') && lacks(k, '=') && lacks(v, ';')
    &&& is_trimmed(k) && is_trimmed(v)
}

/// A record whose line reads back as the record: a set identifier, a
/// non-empty sequence id, columns without tabs or outer whitespace, and unique
/// attribute keys that collide with no reserved key.
pub open spec fn writable(m: RecordModel) -> bool {
    &&& m.uid != 0
    &&& m.seq_id.len() > 0
    &&& column_ok(m.seq_id) && column_ok(m.source) && column_ok(m.feature_type) && column_ok(m.score)
    &&& keys_unique(m.attributes)
    &&& forall|i: int| 0 <= i < m.attributes.len() ==> pair_ok(#[trigger] m.attributes[i].0, m.attributes[i].1)
}

pub open spec fn seg(k: Seq<char>, v: Seq<char>) -> Seq<char> {
    k + seq!['='] + v
}

pub open spec fn head_segments(m: RecordModel) -> Seq<Seq<char>> {
    seq![seg("uid"@, uid_text(m.uid))] + if m.taxon_id != 0 {
        seq![seg("taxon_id"@, decimal_text(m.taxon_id as nat))]
    } else {
        seq![]
    }
}

pub open spec fn pair_segments(v: AttrSeq) -> Seq<Seq<char>> {
    Seq::new(v.len(), |i: int| seg(v[i].0, v[i].1))
}

pub open spec fn head_text(m: RecordModel) -> Seq<char> {
    "uid="@ + uid_text(m.uid) + (if m.taxon_id != 0 {
        ";taxon_id="@ + decimal_text(m.taxon_id as nat)
    } else {
        seq![]
    })
}

proof fn lemma_digits_plain(n: nat)
    ensures
        decimal_text(n).len() > 0,
        forall|i: int| 0 <= i < decimal_text(n).len() ==> !is_space(#[trigger] decimal_text(n)[i])
            && decimal_text(n)[i] != ';' && decimal_text(n)[i] != '=' && decimal_text(n)[i] != '\t',
        is_trimmed(decimal_text(n)),
        lacks(decimal_text(n), '\t') && lacks(decimal_text(n), ';') && lacks(decimal_text(n), '='),
{
    lemma_decimal_round_trip(n);
    assert((';' as u32) == 59 && ('=' as u32) == 61 && ('\t' as u32) == 9 && (' ' as u32) == 32);
}

proof fn lemma_literals()
    ensures
        "uid="@ == "uid"@ + seq!['='],
        ";taxon_id="@ == seq![';'] + "taxon_id"@ + seq!['='],
        "uid"@ != "taxon_id"@,
        lacks("uid"@, ';') && lacks("uid"@, '=') && is_trimmed("uid"@),
        lacks("taxon_id"@, ';') && lacks("taxon_id"@, '=') && is_trimmed("taxon_id"@),
        "uid"@.len() == 3,
        "uid"@[0] == 'u',
{
    reveal_strlit("uid=");
    reveal_strlit("uid");
    reveal_strlit(";taxon_id=");
    reveal_strlit("taxon_id");
    assert("uid="@ =~= "uid"@ + seq!['=']);
    assert(";taxon_id="@ =~= seq![';'] + "taxon_id"@ + seq!['=']);
}

/// One `key=value` segment reads as its pair.
proof fn lemma_segment(k: Seq<char>, v: Seq<char>)
    requires
        lacks(k, '='),
        is_trimmed(k),
        is_trimmed(v),
    ensures
        segment_pair(seg(k, v), Dialect::Gff) == Some((k, v)),
{
    let s = seg(k, v);
    if k.len() > 0 {
        assert(s[0] == k[0]);
    }
    if v.len() > 0 {
        assert(s.last() == v.last());
    }
    lemma_trim_trimmed(s);
    lemma_split_n_cons(k, v, '=', 2);
    assert(split_n(v, '=', 1) == seq![v]);
    lemma_trim_trimmed(k);
    lemma_trim_trimmed(v);
}

proof fn lemma_split_attributes(m: RecordModel, k: int)
    requires
        writable(m),
        0 <= k <= m.attributes.len(),
    ensures
        split_all(head_text(m) + pairs_text(m.attributes.subrange(0, k)), ';') == head_segments(m)
            + pair_segments(m.attributes.subrange(0, k)),
    decreases k,
{
    let v = m.attributes.subrange(0, k);
    lemma_literals();
    lemma_uid_text(m.uid);
    let h0 = seg("uid"@, uid_text(m.uid));
    assert(lacks(h0, ';'));
    if k == 0 {
        assert(pairs_text(v) == Seq::<char>::empty());
        assert(head_text(m) + pairs_text(v) =~= head_text(m));
        assert(pair_segments(v) =~= Seq::<Seq<char>>::empty());
        if m.taxon_id != 0 {
            lemma_digits_plain(m.taxon_id as nat);
            let h1 = seg("taxon_id"@, decimal_text(m.taxon_id as nat));
            assert(lacks(h1, ';'));
            assert(head_text(m) =~= h0 + seq![';'] + h1);
            lemma_split_all_concat(h0, h1, ';');
            lemma_split_all_single(h0, ';');
            lemma_split_all_single(h1, ';');
        } else {
            assert(head_text(m) =~= h0);
            lemma_split_all_single(h0, ';');
        }
        assert(head_segments(m) + pair_segments(v) =~= head_segments(m));
    } else {
        lemma_split_attributes(m, k - 1);
        let v0 = m.attributes.subrange(0, k - 1);
        let (key, val) = m.attributes[k - 1];
        assert(pair_ok(m.attributes[k - 1].0, m.attributes[k - 1].1));
        assert(v.drop_last() =~= v0);
        assert(v.last() == (key, val));
        let sk = seg(key, val);
        assert(lacks(sk, ';'));
        assert(head_text(m) + pairs_text(v) =~= (head_text(m) + pairs_text(v0)) + seq![';'] + sk);
        lemma_split_all_concat(head_text(m) + pairs_text(v0), sk, ';');
        lemma_split_all_single(sk, ';');
        assert(pair_segments(v) =~= pair_segments(v0).push(sk));
        assert(head_segments(m) + pair_segments(v) =~= head_segments(m) + pair_segments(v0) + seq![sk]);
    }
}

proof fn lemma_parse_segments(m: RecordModel, k: int)
    requires
        writable(m),
        0 <= k <= m.attributes.len(),
    ensures
        parse_segments(head_segments(m) + pair_segments(m.attributes.subrange(0, k)), Dialect::Gff)
            == Ok::<AttrState, ParseError>(
            AttrState { uid: m.uid, taxon_id: m.taxon_id, attributes: m.attributes.subrange(0, k) },
        ),
    decreases k,
{
    lemma_literals();
    lemma_uid_text(m.uid);
    let v = m.attributes.subrange(0, k);
    let segs = head_segments(m) + pair_segments(v);
    if k == 0 {
        assert(pair_segments(v) =~= Seq::<Seq<char>>::empty());
        assert(segs =~= head_segments(m));
        let h0 = seg("uid"@, uid_text(m.uid));
        lemma_segment("uid"@, uid_text(m.uid));
        assert(uid_text(m.uid)[0] == uid_text(m.uid)[0]);
        let init = AttrState { uid: 0, taxon_id: 0, attributes: seq![] };
        assert(seq![h0].drop_last() =~= Seq::<Seq<char>>::empty());
        assert(parse_segments(seq![h0].drop_last(), Dialect::Gff) == Ok::<AttrState, ParseError>(init));
        assert(seq![h0].last() == h0);
        assert(parse_segments(seq![h0], Dialect::Gff) == Ok::<AttrState, ParseError>(
            AttrState { uid: m.uid, ..init },
        ));
        if m.taxon_id != 0 {
            let h1 = seg("taxon_id"@, decimal_text(m.taxon_id as nat));
            lemma_digits_plain(m.taxon_id as nat);
            lemma_decimal_round_trip(m.taxon_id as nat);
            lemma_segment("taxon_id"@, decimal_text(m.taxon_id as nat));
            assert(segs =~= seq![h0, h1]);
            assert(seq![h0, h1].drop_last() =~= seq![h0]);
            assert(seq![h0, h1].last() == h1);
            assert(parse_segments(seq![h0, h1], Dialect::Gff) == Ok::<AttrState, ParseError>(
                AttrState { uid: m.uid, taxon_id: m.taxon_id, attributes: seq![] },
            ));
        } else {
            assert(segs =~= seq![h0]);
        }
        assert(v =~= Seq::<(Seq<char>, Seq<char>)>::empty());
    } else {
        lemma_parse_segments(m, k - 1);
        let v0 = m.attributes.subrange(0, k - 1);
        let (key, val) = m.attributes[k - 1];
        assert(pair_ok(m.attributes[k - 1].0, m.attributes[k - 1].1));
        let sk = seg(key, val);
        assert(segs.drop_last() =~= head_segments(m) + pair_segments(v0));
        assert(segs.last() == sk);
        lemma_segment(key, val);
        assert forall|j: int| 0 <= j < k - 1 implies v0[j].0 != key by {
            assert(v0[j] == m.attributes[j]);
        }
        lemma_key_index(v0, key, k - 1);
        assert(set_attr(v0, key, val) =~= v);
    }
}

proof fn lemma_attribute_text(m: RecordModel)
    requires
        writable(m),
    ensures
        is_trimmed(attribute_text(m)),
        attribute_text(m).len() > 0,
        parse_attribute_text(attribute_text(m), Dialect::Gff, 0) == Ok::<AttrState, ParseError>(
            AttrState { uid: m.uid, taxon_id: m.taxon_id, attributes: m.attributes },
        ),
{
    lemma_literals();
    lemma_uid_text(m.uid);
    let v = m.attributes;
    let a = attribute_text(m);
    assert(v.subrange(0, v.len() as int) =~= v);
    assert(a =~= head_text(m) + pairs_text(v));
    lemma_split_attributes(m, v.len() as int);
    lemma_parse_segments(m, v.len() as int);
    assert(a[0] == 'u');
    if v.len() > 0 {
        let (key, val) = v.last();
        assert(pair_ok(v[v.len() - 1].0, v[v.len() - 1].1));
        assert(a.last() == pairs_text(v).last());
        if val.len() > 0 {
            assert(pairs_text(v).last() == val.last());
        } else {
            assert(pairs_text(v).last() == '=');
        }
    } else if m.taxon_id != 0 {
        lemma_digits_plain(m.taxon_id as nat);
        assert(a.last() == decimal_text(m.taxon_id as nat).last());
    } else {
        assert(a.last() == uid_text(m.uid)[35]);
    }
}

pub open spec fn column_list(m: RecordModel) -> Seq<Seq<char>> {
    seq![
        m.seq_id,
        m.source,
        m.feature_type,
        decimal_text(m.start as nat),
        decimal_text(m.end as nat),
        m.score,
        strand_text(m.strand),
        phase_text(m.phase),
        attribute_text(m),
    ]
}

/// The line, regrouped from the right: column `k`, a tab, and the rest.
proof fn lemma_line_shape(m: RecordModel)
    ensures
        line_text(m) == m.seq_id + seq!['\t'] + (m.source + seq!['\t'] + (m.feature_type + seq!['\t']
            + (decimal_text(m.start as nat) + seq!['\t'] + (decimal_text(m.end as nat) + seq!['\t'] + (
        m.score + seq!['\t'] + (strand_text(m.strand) + seq!['\t'] + (phase_text(m.phase) + seq!['\t']
            + attribute_text(m)))))))),
{
    let t = seq!['\t'];
    let c0 = m.seq_id;
    let c1 = m.source;
    let c2 = m.feature_type;
    let c3 = decimal_text(m.start as nat);
    let c4 = decimal_text(m.end as nat);
    let c5 = m.score;
    let c6 = strand_text(m.strand);
    let c7 = phase_text(m.phase);
    let r8 = attribute_text(m);
    let r7 = c7 + t + r8;
    let r6 = c6 + t + r7;
    let r5 = c5 + t + r6;
    let r4 = c4 + t + r5;
    let r3 = c3 + t + r4;
    let r2 = c2 + t + r3;
    let r1 = c1 + t + r2;
    let l0 = c0;
    let l1 = l0 + t + c1;
    let l2 = l1 + t + c2;
    let l3 = l2 + t + c3;
    let l4 = l3 + t + c4;
    let l5 = l4 + t + c5;
    let l6 = l5 + t + c6;
    let l7 = l6 + t + c7;
    assert(line_text(m) == l7 + t + r8);
    assert(l7 + t + r8 =~= l6 + t + r7);
    assert(l6 + t + r7 =~= l5 + t + r6);
    assert(l5 + t + r6 =~= l4 + t + r5);
    assert(l4 + t + r5 =~= l3 + t + r4);
    assert(l3 + t + r4 =~= l2 + t + r3);
    assert(l2 + t + r3 =~= l1 + t + r2);
    assert(l1 + t + r2 =~= l0 + t + r1);
}

proof fn lemma_columns(m: RecordModel)
    requires
        writable(m),
    ensures
        trim(line_text(m)) == line_text(m),
        columns(line_text(m)) == column_list(m),
{
    let t = seq!['\t'];
    let c0 = m.seq_id;
    let c1 = m.source;
    let c2 = m.feature_type;
    let c3 = decimal_text(m.start as nat);
    let c4 = decimal_text(m.end as nat);
    let c5 = m.score;
    let c6 = strand_text(m.strand);
    let c7 = phase_text(m.phase);
    let r8 = attribute_text(m);
    let r7 = c7 + t + r8;
    let r6 = c6 + t + r7;
    let r5 = c5 + t + r6;
    let r4 = c4 + t + r5;
    let r3 = c3 + t + r4;
    let r2 = c2 + t + r3;
    let r1 = c1 + t + r2;
    let line = line_text(m);
    lemma_line_shape(m);
    assert(line == c0 + t + r1);
    lemma_digits_plain(m.start as nat);
    lemma_digits_plain(m.end as nat);
    lemma_attribute_text(m);
    assert(('\t' as u32) == 9);
    assert(lacks(c6, '\t'));
    assert(lacks(c7, '\t'));
    lemma_split_n_cons(c0, r1, '\t', 9);
    lemma_split_n_cons(c1, r2, '\t', 8);
    lemma_split_n_cons(c2, r3, '\t', 7);
    lemma_split_n_cons(c3, r4, '\t', 6);
    lemma_split_n_cons(c4, r5, '\t', 5);
    lemma_split_n_cons(c5, r6, '\t', 4);
    lemma_split_n_cons(c6, r7, '\t', 3);
    lemma_split_n_cons(c7, r8, '\t', 2);
    assert(split_n(r8, '\t', 1) == seq![r8]);
    assert(line[0] == c0[0]);
    assert(line.last() == r8.last());
    lemma_trim_trimmed(line);
    assert(split_n(line, '\t', 9) =~= column_list(m));
}

/// A writable record read back from its line, with any identifier to draw, is
/// the record itself; so writing, reading and writing again gives the first line.
pub proof fn law_round_trip(m: RecordModel, fresh_uid: u128)
    requires
        writable(m),
    ensures
        parse_line_text(line_text(m), Dialect::Gff, fresh_uid) == Ok::<RecordModel, ParseError>(m),
        parse_line_text(line_text(m), Dialect::Gff, fresh_uid) matches Ok(m2) && line_text(m2)
            == line_text(m),
{
    lemma_columns(m);
    lemma_attribute_text(m);
    let c = column_list(m);
    lemma_digits_plain(m.start as nat);
    lemma_digits_plain(m.end as nat);
    lemma_decimal_round_trip(m.start as nat);
    lemma_decimal_round_trip(m.end as nat);
    lemma_trim_trimmed(m.seq_id);
    lemma_trim_trimmed(m.source);
    lemma_trim_trimmed(m.feature_type);
    lemma_trim_trimmed(m.score);
    lemma_trim_trimmed(c[3]);
    lemma_trim_trimmed(c[4]);
    lemma_trim_trimmed(c[8]);
    assert(('0' as u32) == 48 && ('+' as u32) == 43 && ('.' as u32) == 46 && (' ' as u32) == 32);
    lemma_trim_trimmed(c[6]);
    lemma_trim_trimmed(c[7]);
    assert(strand_of(strand_text(m.strand)) == m.strand);
    assert(phase_of(phase_text(m.phase)) == Some(m.phase));
    assert(parse_attribute_text(attribute_text(m), Dialect::Gff, fresh_uid) == Ok::<AttrState, ParseError>(
        AttrState { uid: m.uid, taxon_id: m.taxon_id, attributes: m.attributes },
    ));
}

} // verus!
