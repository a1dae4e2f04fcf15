//! The field names that a stream of records offers.
use vstd::prelude::*;

use crate::annotation::{attrs_view, Annotation, AttrSeq, RecordModel};
use crate::text::same_text;
use crate::transform::texts_view;

verus! {

/// The typed fields, in the order in which they are listed.
pub open spec fn typed_fields() -> Seq<Seq<char>> {
    seq![
        "uid"@,
        "seq_id"@,
        "source"@,
        "feature_type"@,
        "start"@,
        "end"@,
        "score"@,
        "strand"@,
        "phase"@,
        "length"@,
    ]
}

pub open spec fn add_name(names: Seq<Seq<char>>, k: Seq<char>) -> Seq<Seq<char>> {
    if names.contains(k) {
        names
    } else {
        names.push(k)
    }
}

pub open spec fn names_from_attrs(names: Seq<Seq<char>>, attrs: AttrSeq) -> Seq<Seq<char>>
    decreases attrs.len(),
{
    if attrs.len() == 0 {
        names
    } else {
        add_name(names_from_attrs(names, attrs.drop_last()), attrs.last().0)
    }
}

pub open spec fn names_from_records(names: Seq<Seq<char>>, recs: Seq<RecordModel>) -> Seq<Seq<char>>
    decreases recs.len(),
{
    if recs.len() == 0 {
        names
    } else {
        names_from_attrs(names_from_records(names, recs.drop_last()), recs.last().attributes)
    }
}

/// The typed fields, then each attribute key of the first `limit` records, in
/// order of first appearance.
pub open spec fn fields_spec(recs: Seq<RecordModel>, limit: nat) -> Seq<Seq<char>> {
    let n = if limit < recs.len() {
        limit
    } else {
        recs.len()
    };
    names_from_records(typed_fields(), recs.subrange(0, n as int))
}

fn push_name(names: &mut Vec<String>, k: &String)
    ensures
        texts_view(final(names)@) == add_name(texts_view(old(names)@), k@),
{
    let ghost v = texts_view(names@);
    let mut i: usize = 0;
    while i < names.len()
        invariant
            i <= names@.len(),
            v == texts_view(names@),
            forall|j: int| 0 <= j < i ==> v[j] != k@,
        decreases names@.len() - i,
    {
        if same_text(names[i].as_str(), k.as_str()) {
            assert(v[i as int] == k@);
            return;
        }
        i = i + 1;
    }
    let ghost before = names@;
    let c = k.clone();
    names.push(c);
    assert(names@ == before.push(c));
    assert(texts_view(names@) =~= v.push(k@));
}

fn typed_field_names() -> (r: Vec<String>)
    ensures
        texts_view(r@) == typed_fields(),
{
    let mut r: Vec<String> = Vec::new();
    r.push(String::from_str("uid"));
    r.push(String::from_str("seq_id"));
    r.push(String::from_str("source"));
    r.push(String::from_str("feature_type"));
    r.push(String::from_str("start"));
    r.push(String::from_str("end"));
    r.push(String::from_str("score"));
    r.push(String::from_str("strand"));
    r.push(String::from_str("phase"));
    r.push(String::from_str("length"));
    assert(texts_view(r@) =~= typed_fields());
    r
}

/// The field names that the first `limit` records offer: the typed fields,
/// then the attribute keys in order of first appearance.
pub fn discover_fields(records: &Vec<Annotation>, limit: usize) -> (r: Vec<String>)
    ensures
        texts_view(r@) == fields_spec(records@.map_values(|a: Annotation| a@), limit as nat),
{
    let ghost ms = records@.map_values(|a: Annotation| a@);
    let n = if limit < records.len() {
        limit
    } else {
        records.len()
    };
    let mut names = typed_field_names();
    let mut i: usize = 0;
    while i < n
        invariant
            i <= n <= records@.len(),
            ms == records@.map_values(|a: Annotation| a@),
            texts_view(names@) == names_from_records(typed_fields(), ms.subrange(0, i as int)),
        decreases n - i,
    {
        let attrs = &records[i].attributes;
        let ghost av = attrs_view(attrs@);
        let ghost base = texts_view(names@);
        assert(ms[i as int] == records@[i as int]@);
        let mut j: usize = 0;
        while j < attrs.len()
            invariant
                j <= attrs@.len(),
                av == attrs_view(attrs@),
                texts_view(names@) == names_from_attrs(base, av.subrange(0, j as int)),
            decreases attrs@.len() - j,
        {
            assert(av.subrange(0, j + 1).drop_last() =~= av.subrange(0, j as int));
            assert(av.subrange(0, j + 1).last() == av[j as int]);
            push_name(&mut names, &attrs[j].0);
            j = j + 1;
        }
        assert(av.subrange(0, j as int) =~= av);
        assert(ms.subrange(0, i + 1).drop_last() =~= ms.subrange(0, i as int));
        assert(ms.subrange(0, i + 1).last() == ms[i as int]);
        i = i + 1;
    }
    names
}

} // verus!
