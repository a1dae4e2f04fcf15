//! Properties that relate the operations on records.
use vstd::prelude::*;

use crate::annotation::{field_value, has_key, lemma_lookup_set, lemma_set_twice, lookup, set_attr, RecordModel};
use crate::table::{join_key, join_spec, join_values, min_len, JoinKey, TableSeq};
use crate::transform::{
    add_all, add_pair, add_spec, project_row, project_spec, remove_spec,
    uid_selected,
};
use crate::uid::uid_text;

verus! {

/// Adding one pair a second time changes nothing: the record after two Adds of
/// the same pair is the record after one.
pub proof fn law_add_idempotent(
    m: RecordModel,
    k: Seq<char>,
    v: Seq<char>,
    overwrite: bool,
    filter: Seq<Seq<char>>,
)
    ensures
        add_spec(m, seq![(k, v)], overwrite, filter) matches Ok(m1) ==> add_spec(
            m1,
            seq![(k, v)],
            overwrite,
            filter,
        ) == Ok::<RecordModel, crate::transform::TransformError>(m1),
{
    let p = seq![(k, v)];
    assert(p.drop_last() =~= Seq::<(Seq<char>, Seq<char>)>::empty());
    assert(p.last() == (k, v));
    if let Ok(m1) = add_spec(m, p, overwrite, filter) {
        if uid_selected(filter, m.uid) {
            assert(add_all(m, p.drop_last(), overwrite) == Ok::<RecordModel, crate::transform::TransformError>(m));
            assert(add_all(m1, p.drop_last(), overwrite) == Ok::<RecordModel, crate::transform::TransformError>(m1));
            assert(add_all(m, p, overwrite) == add_pair(m, k, v, overwrite));
            assert(add_all(m1, p, overwrite) == add_pair(m1, k, v, overwrite));
            if k != "taxon_id"@ && !(has_key(m.attributes, k) && !overwrite) {
                lemma_lookup_set(m.attributes, k, v, k);
                lemma_set_twice(m.attributes, k, v);
                assert(m1.attributes == set_attr(m.attributes, k, v));
                if overwrite {
                    assert(add_pair(m1, k, v, overwrite) == Ok::<
                        RecordModel,
                        crate::transform::TransformError,
                    >(RecordModel { attributes: set_attr(m1.attributes, k, v), ..m1 }));
                    assert(RecordModel { attributes: set_attr(m1.attributes, k, v), ..m1 } == m1);
                }
            }
        }
    }
}

/// Add and Remove with a non-empty filter that does not list the record's
/// identifier leave the record as it was.
pub proof fn law_filter_leaves_record(
    m: RecordModel,
    pairs: Seq<(Seq<char>, Seq<char>)>,
    overwrite: bool,
    keys: Seq<Seq<char>>,
    filter: Seq<Seq<char>>,
)
    requires
        filter.len() > 0,
        !filter.contains(uid_text(m.uid)),
    ensures
        add_spec(m, pairs, overwrite, filter) == Ok::<RecordModel, crate::transform::TransformError>(m),
        remove_spec(m, keys, filter) == m,
{
}

/// Without `overwrite`, Add keeps the value of every key that was present.
pub proof fn law_add_keeps_present(
    m: RecordModel,
    pairs: Seq<(Seq<char>, Seq<char>)>,
    k: Seq<char>,
)
    requires
        lookup(m.attributes, k) is Some,
    ensures
        add_all(m, pairs, false) matches Ok(m1) ==> lookup(m1.attributes, k) == lookup(
            m.attributes,
            k,
        ),
    decreases pairs.len(),
{
    if pairs.len() > 0 {
        law_add_keeps_present(m, pairs.drop_last(), k);
        if let Ok(m0) = add_all(m, pairs.drop_last(), false) {
            let (k2, v2) = pairs.last();
            if k2 != "taxon_id"@ && !has_key(m0.attributes, k2) {
                lemma_lookup_set(m0.attributes, k2, v2, k);
            }
        }
    }
}

/// With `overwrite`, Add of a pair sets its key to its value, present or not.
pub proof fn law_add_overwrites(m: RecordModel, k: Seq<char>, v: Seq<char>, filter: Seq<Seq<char>>)
    requires
        k != "taxon_id"@,
        uid_selected(filter, m.uid),
    ensures
        add_spec(m, seq![(k, v)], true, filter) matches Ok(m1) && lookup(m1.attributes, k) == Some(
            v,
        ),
{
    let p = seq![(k, v)];
    assert(p.drop_last() =~= Seq::<(Seq<char>, Seq<char>)>::empty());
    assert(p.last() == (k, v));
    assert(add_all(m, p.drop_last(), true) == Ok::<RecordModel, crate::transform::TransformError>(m));
    lemma_lookup_set(m.attributes, k, v, k);
}

/// A field that a record lacks gives no column where `keep_empty` is off, and
/// an empty column where it is on.
pub proof fn law_project_absent(m: RecordModel, fields: Seq<Seq<char>>, f: Seq<char>)
    requires
        field_value(m, f) is None,
    ensures
        project_row(m, fields.push(f), false) == project_row(m, fields, false),
        project_row(m, fields.push(f), true) == project_row(m, fields, true).push(seq![]),
{
    assert(fields.push(f).drop_last() =~= fields);
}

/// With `keep_empty` every requested field gives a column, and no record is
/// dropped; without it a record is dropped exactly where no field gave a column.
pub proof fn law_project_drop(m: RecordModel, fields: Seq<Seq<char>>)
    ensures
        project_row(m, fields, true).len() == fields.len(),
        project_spec(m, fields, true) == Some(project_row(m, fields, true)),
        project_spec(m, fields, false) is None <==> project_row(m, fields, false).len() == 0,
    decreases fields.len(),
{
    if fields.len() > 0 {
        law_project_drop(m, fields.drop_last());
    }
}

proof fn lemma_join_values_uid(m: RecordModel, names: Seq<Seq<char>>, row: Seq<Seq<char>>, n: nat)
    ensures
        join_values(m, names, row, n) matches Ok(m1) ==> m1.uid == m.uid,
    decreases n,
{
    if n > 0 {
        lemma_join_values_uid(m, names, row, (n - 1) as nat);
    }
}

/// With `only_edited`, TableJoin drops a record exactly where the table has no
/// row for its join key; a record that is kept keeps its identifier.
pub proof fn law_join_only_edited(m: RecordModel, table: TableSeq, key: JoinKey, names: Seq<Seq<char>>)
    ensures
        !has_key(table, join_key(m, key)) ==> join_spec(m, table, key, names, true) == Ok::<
            Option<RecordModel>,
            crate::transform::TransformError,
        >(None),
        has_key(table, join_key(m, key)) ==> join_spec(m, table, key, names, true) != Ok::<
            Option<RecordModel>,
            crate::transform::TransformError,
        >(None),
        join_spec(m, table, key, names, true) matches Ok(Some(m1)) ==> m1.uid == m.uid,
{
    if let Some(row) = lookup(table, join_key(m, key)) {
        lemma_join_values_uid(m, names, row, min_len(names.len(), row.len()));
    }
}

} // verus!
