//! The record-by-record operations: adding and removing attributes, projecting
//! fields into columns, and joining values from a side table.
use vstd::prelude::*;

use crate::annotation::{
    attrs_view, field_value, find_attr, has_key, keys_unique, lemma_unique_preserved, remove_attr, set_attr, Annotation,
    RecordModel,
};
use crate::text::{chars_of, parse_decimal, parse_number, same_text};
use crate::uid::{uid_text, uid_to_text};

verus! {

/// Why an operation on a record failed.
#[derive(Clone, Copy, Debug, PartialEq, Eq, Structural)]
pub enum TransformError {
    /// A value for `taxon_id` that is no number of 32 bits.
    InvalidTaxonId,
}

pub open spec fn decimal_u32(t: Seq<char>) -> Option<u32> {
    match parse_decimal(t) {
        Some(v) => if v <= u32::MAX {
            Some(v as u32)
        } else {
            None
        },
        None => None,
    }
}

pub open spec fn texts_view(v: Seq<String>) -> Seq<Seq<char>> {
    v.map_values(|s: String| s@)
}

pub open spec fn pairs_view(v: Seq<(String, String)>) -> Seq<(Seq<char>, Seq<char>)> {
    attrs_view(v)
}

/// A record is changed where the filter is empty or lists its identifier.
pub open spec fn uid_selected(filter: Seq<Seq<char>>, uid: u128) -> bool {
    filter.len() == 0 || filter.contains(uid_text(uid))
}

/// One pair of Add: `taxon_id` sets the typed field; any other key is set
/// unless it is present and `overwrite` is off.
pub open spec fn add_pair(m: RecordModel, k: Seq<char>, v: Seq<char>, overwrite: bool) -> Result<
    RecordModel,
    TransformError,
> {
    if k == "taxon_id"@ {
        match decimal_u32(v) {
            Some(n) => Ok(RecordModel { taxon_id: n, ..m }),
            None => Err(TransformError::InvalidTaxonId),
        }
    } else if has_key(m.attributes, k) && !overwrite {
        Ok(m)
    } else {
        Ok(RecordModel { attributes: set_attr(m.attributes, k, v), ..m })
    }
}

/// The pairs of Add applied in order.
pub open spec fn add_all(m: RecordModel, pairs: Seq<(Seq<char>, Seq<char>)>, overwrite: bool) -> Result<
    RecordModel,
    TransformError,
>
    decreases pairs.len(),
{
    if pairs.len() == 0 {
        Ok(m)
    } else {
        match add_all(m, pairs.drop_last(), overwrite) {
            Err(e) => Err(e),
            Ok(m1) => add_pair(m1, pairs.last().0, pairs.last().1, overwrite),
        }
    }
}

/// Add on one record: the record unchanged where the filter leaves it out.
pub open spec fn add_spec(
    m: RecordModel,
    pairs: Seq<(Seq<char>, Seq<char>)>,
    overwrite: bool,
    filter: Seq<Seq<char>>,
) -> Result<RecordModel, TransformError> {
    if uid_selected(filter, m.uid) {
        add_all(m, pairs, overwrite)
    } else {
        Ok(m)
    }
}

pub open spec fn remove_key(m: RecordModel, k: Seq<char>) -> RecordModel {
    if k == "taxon_id"@ {
        RecordModel { taxon_id: 0, ..m }
    } else {
        RecordModel { attributes: remove_attr(m.attributes, k), ..m }
    }
}

pub open spec fn remove_all(m: RecordModel, keys: Seq<Seq<char>>) -> RecordModel
    decreases keys.len(),
{
    if keys.len() == 0 {
        m
    } else {
        remove_key(remove_all(m, keys.drop_last()), keys.last())
    }
}

/// Remove on one record: the record unchanged where the filter leaves it out.
pub open spec fn remove_spec(m: RecordModel, keys: Seq<Seq<char>>, filter: Seq<Seq<char>>) -> RecordModel {
    if uid_selected(filter, m.uid) {
        remove_all(m, keys)
    } else {
        m
    }
}

/// Add and Remove keep the attribute keys unique.
pub proof fn lemma_add_remove_unique(m: RecordModel, pairs: Seq<(Seq<char>, Seq<char>)>, overwrite: bool, keys: Seq<Seq<char>>)
    requires
        keys_unique(m.attributes),
    ensures
        add_all(m, pairs, overwrite) matches Ok(m1) ==> keys_unique(m1.attributes),
        keys_unique(remove_all(m, keys).attributes),
    decreases pairs.len() + keys.len(),
{
    if pairs.len() > 0 {
        lemma_add_remove_unique(m, pairs.drop_last(), overwrite, seq![]);
        if let Ok(m1) = add_all(m, pairs.drop_last(), overwrite) {
            lemma_unique_preserved(m1.attributes, pairs.last().0, pairs.last().1);
        }
    }
    if keys.len() > 0 {
        lemma_add_remove_unique(m, seq![], overwrite, keys.drop_last());
        let m1 = remove_all(m, keys.drop_last());
        lemma_unique_preserved(m1.attributes, keys.last(), seq![]);
    }
}

pub open spec fn result_view(r: Result<Annotation, TransformError>) -> Result<RecordModel, TransformError> {
    match r {
        Ok(a) => Ok(a@),
        Err(e) => Err(e),
    }
}

/// Whether some entry of `filter` is the written form of `uid`.
fn selected(filter: &Vec<String>, uid: u128) -> (r: bool)
    ensures
        r == uid_selected(texts_view(filter@), uid),
{
    if filter.len() == 0 {
        return true;
    }
    let t = uid_to_text(uid);
    let ghost f = texts_view(filter@);
    let mut i: usize = 0;
    while i < filter.len()
        invariant
            i <= filter@.len(),
            f == texts_view(filter@),
            t@ == uid_text(uid),
            forall|j: int| 0 <= j < i ==> f[j] != t@,
        decreases filter@.len() - i,
    {
        if same_text(filter[i].as_str(), t.as_str()) {
            assert(f[i as int] == t@);
            return true;
        }
        i = i + 1;
    }
    false
}

fn set_taxon(a: &mut Annotation, value: &String) -> (r: Result<(), TransformError>)
    ensures
        match decimal_u32(value@) {
            Some(n) => r is Ok && final(a)@ == (RecordModel { taxon_id: n, ..old(a)@ }),
            None => r == Err::<(), TransformError>(TransformError::InvalidTaxonId) && final(a)@
                == old(a)@,
        },
{
    let c = chars_of(value.as_str());
    assert(c@.subrange(0, c@.len() as int) =~= value@);
    match parse_number(&c, 0, c.len(), 4294967295) {
        Some(n) => {
            a.taxon_id = n as u32;
            Ok(())
        },
        None => Err(TransformError::InvalidTaxonId),
    }
}

/// Adds the pairs `pairs`, in order, to a record that `uid_filter` selects (an
/// empty filter selects every record). `taxon_id` sets the typed field and must
/// be a number; another key is set unless it is present and `overwrite` is off.
pub fn add_attributes(
    a: Annotation,
    pairs: &Vec<(String, String)>,
    overwrite: bool,
    uid_filter: &Vec<String>,
) -> (r: Result<Annotation, TransformError>)
    ensures
        result_view(r) == add_spec(a@, pairs_view(pairs@), overwrite, texts_view(uid_filter@)),
        a.wf() ==> (r matches Ok(b) ==> b.wf()),
{
    proof {
        if a.wf() {
            lemma_add_remove_unique(a@, pairs_view(pairs@), overwrite, seq![]);
        }
    }
    if !selected(uid_filter, a.uid) {
        return Ok(a);
    }
    let ghost m0 = a@;
    let mut rec = a;
    let ghost pv = pairs_view(pairs@);
    let mut i: usize = 0;
    while i < pairs.len()
        invariant
            i <= pairs@.len(),
            pv == pairs_view(pairs@),
            uid_selected(texts_view(uid_filter@), m0.uid),
            m0 == a@,
            add_all(m0, pv.subrange(0, i as int), overwrite) == Ok::<RecordModel, TransformError>(
                rec@,
            ),
        decreases pairs@.len() - i,
    {
        let ghost m1 = rec@;
        assert(pv.subrange(0, i + 1).drop_last() =~= pv.subrange(0, i as int));
        assert(pv.subrange(0, i + 1).last() == pv[i as int]);
        let key = &pairs[i].0;
        let value = &pairs[i].1;
        assert(pv[i as int] == (key@, value@));
        if same_text(key.as_str(), "taxon_id") {
            match set_taxon(&mut rec, value) {
                Ok(()) => {},
                Err(e) => {
                    proof {
                        lemma_add_all_err(m0, pv, overwrite, i + 1, e);
                    }
                    return Err(e);
                },
            }
        } else {
            let p = find_attr(&rec.attributes, key.as_str());
            if p >= rec.attributes.len() || overwrite {
                rec.set_attribute(key.clone(), value.clone());
            }
        }
        i = i + 1;
    }
    assert(pv.subrange(0, i as int) =~= pv);
    Ok(rec)
}

proof fn lemma_add_all_err(
    m: RecordModel,
    pairs: Seq<(Seq<char>, Seq<char>)>,
    overwrite: bool,
    k: int,
    e: TransformError,
)
    requires
        0 <= k <= pairs.len(),
        add_all(m, pairs.subrange(0, k), overwrite) == Err::<RecordModel, TransformError>(e),
    ensures
        add_all(m, pairs, overwrite) == Err::<RecordModel, TransformError>(e),
    decreases pairs.len(),
{
    if k < pairs.len() {
        assert(pairs.drop_last().subrange(0, k) =~= pairs.subrange(0, k));
        lemma_add_all_err(m, pairs.drop_last(), overwrite, k, e);
    } else {
        assert(pairs.subrange(0, k) =~= pairs);
    }
}

/// Removes the keys `keys` from a record that `uid_filter` selects (an empty
/// filter selects every record); `taxon_id` resets the typed field to 0.
pub fn remove_attributes(a: Annotation, keys: &Vec<String>, uid_filter: &Vec<String>) -> (r:
    Annotation)
    ensures
        r@ == remove_spec(a@, texts_view(keys@), texts_view(uid_filter@)),
        a.wf() ==> r.wf(),
{
    proof {
        if a.wf() {
            lemma_add_remove_unique(a@, seq![], false, texts_view(keys@));
        }
    }
    if !selected(uid_filter, a.uid) {
        return a;
    }
    let mut a = a;
    let ghost m0 = a@;
    let ghost kv = texts_view(keys@);
    let mut i: usize = 0;
    while i < keys.len()
        invariant
            i <= keys@.len(),
            kv == texts_view(keys@),
            remove_all(m0, kv.subrange(0, i as int)) == a@,
        decreases keys@.len() - i,
    {
        assert(kv.subrange(0, i + 1).drop_last() =~= kv.subrange(0, i as int));
        assert(kv.subrange(0, i + 1).last() == kv[i as int]);
        if same_text(keys[i].as_str(), "taxon_id") {
            a.taxon_id = 0;
        } else {
            a.remove_attribute(keys[i].as_str());
        }
        i = i + 1;
    }
    assert(kv.subrange(0, i as int) =~= kv);
    a
}

/// The projected row: one column per requested field, in order. An absent
/// attribute gives an empty column where `keep_empty` is on, and no column where not.
pub open spec fn project_row(m: RecordModel, fields: Seq<Seq<char>>, keep_empty: bool) -> Seq<
    Seq<char>,
>
    decreases fields.len(),
{
    if fields.len() == 0 {
        seq![]
    } else {
        let row = project_row(m, fields.drop_last(), keep_empty);
        match field_value(m, fields.last()) {
            Some(v) => row.push(v),
            None => if keep_empty {
                row.push(seq![])
            } else {
                row
            },
        }
    }
}

/// Project on one record: `None` (the record is dropped) exactly where the row
/// is empty and `keep_empty` is off.
pub open spec fn project_spec(m: RecordModel, fields: Seq<Seq<char>>, keep_empty: bool) -> Option<
    Seq<Seq<char>>,
> {
    let row = project_row(m, fields, keep_empty);
    if row.len() == 0 && !keep_empty {
        None
    } else {
        Some(row)
    }
}

pub open spec fn row_view(r: Option<Vec<String>>) -> Option<Seq<Seq<char>>> {
    match r {
        Some(v) => Some(texts_view(v@)),
        None => None,
    }
}

/// The values of the fields `fields` of a record, as columns.
pub fn project(a: &Annotation, fields: &Vec<String>, keep_empty: bool) -> (r: Option<Vec<String>>)
    ensures
        row_view(r) == project_spec(a@, texts_view(fields@), keep_empty),
{
    let ghost fv = texts_view(fields@);
    let mut row: Vec<String> = Vec::new();
    let mut i: usize = 0;
    while i < fields.len()
        invariant
            i <= fields@.len(),
            fv == texts_view(fields@),
            texts_view(row@) == project_row(a@, fv.subrange(0, i as int), keep_empty),
        decreases fields@.len() - i,
    {
        assert(fv.subrange(0, i + 1).drop_last() =~= fv.subrange(0, i as int));
        assert(fv.subrange(0, i + 1).last() == fv[i as int]);
        let ghost before = row@;
        match a.field_value(fields[i].as_str()) {
            Some(v) => {
                row.push(v);
            },
            None => {
                if keep_empty {
                    row.push(String::new());
                }
            },
        }
        assert(texts_view(row@) =~= project_row(a@, fv.subrange(0, i + 1), keep_empty));
        i = i + 1;
    }
    assert(fv.subrange(0, i as int) =~= fv);
    if row.len() == 0 && !keep_empty {
        None
    } else {
        Some(row)
    }
}

} // verus!
