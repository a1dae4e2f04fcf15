//! Side tables of values keyed by a join key, and the join of their rows into
//! records.
use vstd::prelude::*;

use crate::annotation::{field_value, key_index, keys_unique, lemma_unique_preserved, lookup, set_attr, Annotation, RecordModel};
use crate::transform::{decimal_u32, texts_view, TransformError};
use crate::text::{chars_of, split_all, split_all_spans, string_of, string_of_range, same_text, parse_number};

verus! {

/// Rows of a side table: a key and its values, keys unique, in order of first appearance.
pub type ValueTable = Vec<(String, Vec<String>)>;

pub type TableSeq = Seq<(Seq<char>, Seq<Seq<char>>)>;

/// Why a side table was refused.
#[derive(Clone, Copy, Debug, PartialEq, Eq, Structural)]
pub enum TableError {
    /// A line with fewer columns than the key and the requested values.
    ColumnCount,
}

/// How the join key of a record is formed.
#[derive(Clone, Debug)]
pub enum JoinKey {
    /// The value of a field, as projection selects it.
    Field(String),
    /// The sequence id and the `ID` attribute joined by `_`, as gene
    /// predictions name their sequences.
    Prodigal,
}

pub open spec fn table_view(t: Seq<(String, Vec<String>)>) -> TableSeq {
    t.map_values(|p: (String, Vec<String>)| (p.0@, texts_view(p.1@)))
}

pub open spec fn starts_with(s: Seq<char>, p: Seq<char>) -> bool {
    p.len() <= s.len() && s.subrange(0, p.len() as int) == p
}

/// One line of the table file applied to the rows read so far.
pub open spec fn table_line(t: TableSeq, line: Seq<char>, comment: Seq<char>, n_fields: nat) -> Result<
    TableSeq,
    TableError,
> {
    if starts_with(line, comment) {
        Ok(t)
    } else {
        let f = split_all(line, '\t');
        if f.len() < n_fields {
            Err(TableError::ColumnCount)
        } else {
            Ok(set_attr(t, f[0], f.subrange(1, n_fields as int)))
        }
    }
}

pub open spec fn table_lines(lines: Seq<Seq<char>>, comment: Seq<char>, n_fields: nat) -> Result<
    TableSeq,
    TableError,
>
    decreases lines.len(),
{
    if lines.len() == 0 {
        Ok(seq![])
    } else {
        match table_lines(lines.drop_last(), comment, n_fields) {
            Err(e) => Err(e),
            Ok(t) => table_line(t, lines.last(), comment, n_fields),
        }
    }
}

/// The table that the lines give: the first `skip_rows` lines are passed over,
/// then lines that start with `comment`; each other line is cut at tabs and
/// must have `n_fields` columns at least: the first is the key, the next
/// `n_fields - 1` its values, and a later line of the same key replaces an earlier one.
pub open spec fn table_spec(lines: Seq<Seq<char>>, skip_rows: nat, comment: Seq<char>, n_fields: nat) -> Result<
    TableSeq,
    TableError,
> {
    if skip_rows >= lines.len() {
        Ok(seq![])
    } else {
        table_lines(lines.subrange(skip_rows as int, lines.len() as int), comment, n_fields)
    }
}

pub open spec fn table_result_view(r: Result<ValueTable, TableError>) -> Result<TableSeq, TableError> {
    match r {
        Ok(t) => Ok(table_view(t@)),
        Err(e) => Err(e),
    }
}

proof fn lemma_table_lines_err(lines: Seq<Seq<char>>, comment: Seq<char>, n: nat, k: int, e: TableError)
    requires
        0 <= k <= lines.len(),
        table_lines(lines.subrange(0, k), comment, n) == Err::<TableSeq, TableError>(e),
    ensures
        table_lines(lines, comment, n) == Err::<TableSeq, TableError>(e),
    decreases lines.len(),
{
    if k < lines.len() {
        assert(lines.drop_last().subrange(0, k) =~= lines.subrange(0, k));
        lemma_table_lines_err(lines.drop_last(), comment, n, k, e);
    } else {
        assert(lines.subrange(0, k) =~= lines);
    }
}

fn starts_with_chars(s: &Vec<char>, p: &Vec<char>) -> (r: bool)
    ensures
        r == starts_with(s@, p@),
{
    if p.len() > s.len() {
        return false;
    }
    let mut i: usize = 0;
    while i < p.len()
        invariant
            p@.len() <= s@.len(),
            i <= p@.len(),
            forall|j: int| 0 <= j < i ==> s@[j] == p@[j],
        decreases p@.len() - i,
    {
        if s[i] != p[i] {
            assert(s@.subrange(0, p@.len() as int)[i as int] != p@[i as int]);
            return false;
        }
        i = i + 1;
    }
    assert(s@.subrange(0, p@.len() as int) =~= p@);
    true
}

/// Position of the row with key `key`, or `t.len()`.
fn find_row(t: &ValueTable, key: &str) -> (r: usize)
    ensures
        r == key_index(table_view(t@), key@),
{
    let ghost v = table_view(t@);
    let mut i: usize = 0;
    while i < t.len()
        invariant
            i <= t@.len(),
            v == table_view(t@),
            forall|j: int| 0 <= j < i ==> v[j].0 != key@,
        decreases t@.len() - i,
    {
        if same_text(t[i].0.as_str(), key) {
            proof {
                crate::annotation::lemma_key_index(v, key@, i as int);
            }
            return i;
        }
        i = i + 1;
    }
    proof {
        crate::annotation::lemma_key_index(v, key@, i as int);
    }
    i
}

/// Reads a side table from its lines (see `table_spec`).
pub fn read_table(lines: &Vec<String>, skip_rows: usize, comment: &str, n_fields: usize) -> (r: Result<
    ValueTable,
    TableError,
>)
    requires
        n_fields >= 1,
    ensures
        table_result_view(r) == table_spec(texts_view(lines@), skip_rows as nat, comment@, n_fields as nat),
{
    let ghost lv = texts_view(lines@);
    let mut t: ValueTable = Vec::new();
    if skip_rows >= lines.len() {
        assert(table_view(t@) =~= Seq::<(Seq<char>, Seq<Seq<char>>)>::empty());
        return Ok(t);
    }
    let ghost body = lv.subrange(skip_rows as int, lv.len() as int);
    let cm = chars_of(comment);
    let mut i: usize = skip_rows;
    assert(body.subrange(0, 0) =~= Seq::<Seq<char>>::empty());
    assert(table_view(t@) =~= Seq::<(Seq<char>, Seq<Seq<char>>)>::empty());
    while i < lines.len()
        invariant
            skip_rows <= i <= lines@.len(),
            lv == texts_view(lines@),
            body == lv.subrange(skip_rows as int, lv.len() as int),
            cm@ == comment@,
            n_fields >= 1,
            table_lines(body.subrange(0, i - skip_rows), comment@, n_fields as nat) == Ok::<
                TableSeq,
                TableError,
            >(table_view(t@)),
        decreases lines@.len() - i,
    {
        let k = i - skip_rows;
        assert(body.subrange(0, k + 1).drop_last() =~= body.subrange(0, k as int));
        assert(body.subrange(0, k + 1).last() == lv[i as int]);
        let ghost t0 = table_view(t@);
        let s = chars_of(lines[i].as_str());
        assert(s@ == lv[i as int]);
        if !starts_with_chars(&s, &cm) {
            let spans = split_all_spans(&s, 0, s.len(), '\t');
            assert(s@.subrange(0, s@.len() as int) =~= s@);
            if spans.len() < n_fields {
                proof {
                    lemma_table_lines_err(body, comment@, n_fields as nat, k + 1, TableError::ColumnCount);
                }
                return Err(TableError::ColumnCount);
            }
            let ghost f = split_all(s@, '\t');
            let mut vals: Vec<String> = Vec::new();
            let mut j: usize = 1;
            while j < n_fields
                invariant
                    1 <= j <= n_fields <= spans@.len() == f.len(),
                    f == split_all(s@, '\t'),
                    forall|q: int|
                        0 <= q < spans@.len() ==> (#[trigger] spans@[q]).0 <= spans@[q].1 <= s@.len()
                            && s@.subrange(spans@[q].0 as int, spans@[q].1 as int) == f[q],
                    texts_view(vals@) == f.subrange(1, j as int),
                decreases n_fields - j,
            {
                assert(spans@[j as int].0 <= spans@[j as int].1 <= s@.len());
                let ghost before = vals@;
                let x = string_of_range(s.as_slice(), spans[j].0, spans[j].1);
                assert(x@ == f[j as int]);
                vals.push(x);
                assert(vals@ == before.push(x));
                assert(texts_view(vals@) =~= texts_view(before).push(x@));
                assert(f.subrange(1, j + 1) =~= f.subrange(1, j as int).push(f[j as int]));
                j = j + 1;
            }
            assert(spans@[0].0 <= spans@[0].1 <= s@.len());
            let key = string_of_range(s.as_slice(), spans[0].0, spans[0].1);
            let p = find_row(&t, key.as_str());
            if p < t.len() {
                t.set(p, (key, vals));
            } else {
                t.push((key, vals));
            }
            assert(table_view(t@) =~= set_attr(t0, f[0], f.subrange(1, n_fields as int)));
        }
        i = i + 1;
    }
    assert(body.subrange(0, i - skip_rows) =~= body);
    Ok(t)
}

/// The join key of a record.
pub open spec fn join_key(m: RecordModel, key: JoinKey) -> Seq<char> {
    match key {
        JoinKey::Field(f) => match field_value(m, f@) {
            Some(v) => v,
            None => seq![],
        },
        JoinKey::Prodigal => match lookup(m.attributes, "ID"@) {
            Some(id) => m.seq_id + seq!['_'] + id,
            None => seq![],
        },
    }
}

/// One column of a matched row: `taxon_id` sets the typed field and must be a
/// number, `uid` is never changed, any other name overwrites the attribute.
pub open spec fn join_value(m: RecordModel, k: Seq<char>, v: Seq<char>) -> Result<RecordModel, TransformError> {
    if k == "taxon_id"@ {
        match decimal_u32(v) {
            Some(n) => Ok(RecordModel { taxon_id: n, ..m }),
            None => Err(TransformError::InvalidTaxonId),
        }
    } else if k == "uid"@ {
        Ok(m)
    } else {
        Ok(RecordModel { attributes: set_attr(m.attributes, k, v), ..m })
    }
}

/// The first `n` names paired with the first `n` values, applied in order.
pub open spec fn join_values(m: RecordModel, names: Seq<Seq<char>>, row: Seq<Seq<char>>, n: nat) -> Result<
    RecordModel,
    TransformError,
>
    decreases n,
{
    if n == 0 {
        Ok(m)
    } else {
        match join_values(m, names, row, (n - 1) as nat) {
            Err(e) => Err(e),
            Ok(m1) => join_value(m1, names[n - 1], row[n - 1]),
        }
    }
}

pub open spec fn min_len(a: nat, b: nat) -> nat {
    if a < b {
        a
    } else {
        b
    }
}

/// TableJoin on one record: `Ok(None)` drops it.
pub open spec fn join_spec(
    m: RecordModel,
    table: TableSeq,
    key: JoinKey,
    names: Seq<Seq<char>>,
    only_edited: bool,
) -> Result<Option<RecordModel>, TransformError> {
    match lookup(table, join_key(m, key)) {
        None => Ok(
            if only_edited {
                None
            } else {
                Some(m)
            },
        ),
        Some(row) => match join_values(m, names, row, min_len(names.len(), row.len())) {
            Err(e) => Err(e),
            Ok(m1) => Ok(Some(m1)),
        },
    }
}

pub open spec fn joined_view(r: Result<Option<Annotation>, TransformError>) -> Result<
    Option<RecordModel>,
    TransformError,
> {
    match r {
        Ok(Some(a)) => Ok(Some(a@)),
        Ok(None) => Ok(None),
        Err(e) => Err(e),
    }
}

proof fn lemma_join_values_err(
    m: RecordModel,
    names: Seq<Seq<char>>,
    row: Seq<Seq<char>>,
    k: nat,
    n: nat,
    e: TransformError,
)
    requires
        k <= n,
        join_values(m, names, row, k) == Err::<RecordModel, TransformError>(e),
    ensures
        join_values(m, names, row, n) == Err::<RecordModel, TransformError>(e),
    decreases n,
{
    if k < n {
        lemma_join_values_err(m, names, row, k, (n - 1) as nat, e);
    }
}

/// Joining keeps the attribute keys unique.
pub proof fn lemma_join_values_unique(m: RecordModel, names: Seq<Seq<char>>, row: Seq<Seq<char>>, n: nat)
    requires
        keys_unique(m.attributes),
    ensures
        join_values(m, names, row, n) matches Ok(m1) ==> keys_unique(m1.attributes),
    decreases n,
{
    if n > 0 {
        lemma_join_values_unique(m, names, row, (n - 1) as nat);
        if let Ok(m1) = join_values(m, names, row, (n - 1) as nat) {
            lemma_unique_preserved(m1.attributes, names[n - 1], row[n - 1]);
        }
    }
}

/// The join key of a record, as text.
pub fn record_join_key(a: &Annotation, key: &JoinKey) -> (r: String)
    ensures
        r@ == join_key(a@, *key),
{
    match key {
        JoinKey::Field(f) => match a.field_value(f.as_str()) {
            Some(v) => v,
            None => String::new(),
        },
        JoinKey::Prodigal => match a.get_attribute("ID") {
            Some(id) => {
                let mut out = chars_of(a.seq_id.as_str());
                out.push('_');
                let mut c = chars_of(id.as_str());
                out.append(&mut c);
                string_of(out.as_slice())
            },
            None => String::new(),
        },
    }
}

/// Joins the row of `table` that the record's key selects: the names `names`
/// are paired in order with the row's values (as many as the shorter of the two
/// has). A record without a row is dropped where `only_edited` is on.
pub fn table_join(
    a: Annotation,
    table: &ValueTable,
    key: &JoinKey,
    names: &Vec<String>,
    only_edited: bool,
) -> (r: Result<Option<Annotation>, TransformError>)
    ensures
        joined_view(r) == join_spec(a@, table_view(table@), *key, texts_view(names@), only_edited),
        a.wf() ==> (r matches Ok(Some(b)) ==> b.wf()),
{
    proof {
        if a.wf() {
            if let Some(row) = lookup(table_view(table@), join_key(a@, *key)) {
                lemma_join_values_unique(a@, texts_view(names@), row, min_len(texts_view(names@).len(), row.len()));
            }
        }
    }
    let k = record_join_key(&a, key);
    let p = find_row(table, k.as_str());
    if p >= table.len() {
        if only_edited {
            return Ok(None);
        } else {
            return Ok(Some(a));
        }
    }
    let row = &table[p].1;
    let ghost m0 = a@;
    let ghost nv = texts_view(names@);
    let ghost rv = texts_view(row@);
    assert(table_view(table@)[p as int].1 == rv);
    assert(lookup(table_view(table@), join_key(a@, *key)) == Some(rv));
    let n = if names.len() < row.len() {
        names.len()
    } else {
        row.len()
    };
    let mut rec = a;
    let mut i: usize = 0;
    while i < n
        invariant
            i <= n,
            n == min_len(nv.len(), rv.len()),
            nv == texts_view(names@),
            rv == texts_view(row@),
            join_values(m0, nv, rv, i as nat) == Ok::<RecordModel, TransformError>(rec@),
            m0 == a@,
            lookup(table_view(table@), join_key(a@, *key)) == Some(rv),
        decreases n - i,
    {
        let name = &names[i];
        let value = &row[i];
        assert(nv[i as int] == name@ && rv[i as int] == value@);
        if same_text(name.as_str(), "taxon_id") {
            let c = chars_of(value.as_str());
            assert(c@.subrange(0, c@.len() as int) =~= value@);
            match parse_number(&c, 0, c.len(), 4294967295) {
                Some(t) => {
                    rec.taxon_id = t as u32;
                },
                None => {
                    proof {
                        lemma_join_values_err(m0, nv, rv, (i + 1) as nat, n as nat, TransformError::InvalidTaxonId);
                    }
                    return Err(TransformError::InvalidTaxonId);
                },
            }
        } else if same_text(name.as_str(), "uid") {
        } else {
            rec.set_attribute(name.clone(), value.clone());
        }
        i = i + 1;
    }
    Ok(Some(rec))
}

} // verus!
