//! The annotation record: typed core columns, an identifier, a taxon and an
//! ordered map of further attributes.
use vstd::prelude::*;

use crate::text::{chars_of, decimal_chars, decimal_text, same_text, string_of};
use crate::uid::{uid_text, uid_to_text};

verus! {

/// Attribute pairs as texts, in their stored order.
pub type AttrSeq = Seq<(Seq<char>, Seq<char>)>;

#[derive(Clone, Copy, Debug, PartialEq, Eq, Structural)]
pub enum Strand {
    Forward,
    Reverse,
    Unknown,
}

#[derive(Clone, Copy, Debug, PartialEq, Eq, Structural)]
pub enum Phase {
    Zero,
    One,
    Two,
    Unknown,
}

pub open spec fn strand_text(s: Strand) -> Seq<char> {
    match s {
        Strand::Forward => seq!['+'],
        Strand::Reverse => seq!['-'],
        Strand::Unknown => seq!['.'],
    }
}

pub open spec fn phase_text(p: Phase) -> Seq<char> {
    match p {
        Phase::Zero => seq!['0'],
        Phase::One => seq!['1'],
        Phase::Two => seq!['2'],
        Phase::Unknown => seq!['.'],
    }
}

/// One annotation line. `score` keeps the score column as it was written;
/// `taxon_id` 0 means that no taxon is assigned.
#[derive(Clone, Debug)]
pub struct Annotation {
    pub seq_id: String,
    pub source: String,
    pub feature_type: String,
    pub start: u64,
    pub end: u64,
    pub score: String,
    pub strand: Strand,
    pub phase: Phase,
    pub uid: u128,
    pub taxon_id: u32,
    pub attributes: Vec<(String, String)>,
}

/// The mathematical value of an [`Annotation`].
pub ghost struct RecordModel {
    pub seq_id: Seq<char>,
    pub source: Seq<char>,
    pub feature_type: Seq<char>,
    pub start: u64,
    pub end: u64,
    pub score: Seq<char>,
    pub strand: Strand,
    pub phase: Phase,
    pub uid: u128,
    pub taxon_id: u32,
    pub attributes: AttrSeq,
}

pub open spec fn attrs_view(v: Seq<(String, String)>) -> AttrSeq {
    v.map_values(|p: (String, String)| (p.0@, p.1@))
}

impl View for Annotation {
    type V = RecordModel;

    open spec fn view(&self) -> RecordModel {
        RecordModel {
            seq_id: self.seq_id@,
            source: self.source@,
            feature_type: self.feature_type@,
            start: self.start,
            end: self.end,
            score: self.score@,
            strand: self.strand,
            phase: self.phase,
            uid: self.uid,
            taxon_id: self.taxon_id,
            attributes: attrs_view(self.attributes@),
        }
    }
}

/// Position of the first pair with key `k`, or `v.len()` where there is none.
pub open spec fn key_index<V>(v: Seq<(Seq<char>, V)>, k: Seq<char>) -> nat
    decreases v.len(),
{
    if v.len() == 0 {
        0
    } else if v[0].0 == k {
        0
    } else {
        1 + key_index(v.drop_first(), k)
    }
}

pub open spec fn has_key<V>(v: Seq<(Seq<char>, V)>, k: Seq<char>) -> bool {
    key_index(v, k) < v.len()
}

/// The value stored under `k`.
pub open spec fn lookup<V>(v: Seq<(Seq<char>, V)>, k: Seq<char>) -> Option<V> {
    if has_key(v, k) {
        Some(v[key_index(v, k) as int].1)
    } else {
        None
    }
}

/// `v` with `k` mapped to `x`: replaced in place where `k` is present, appended where not.
pub open spec fn set_attr<V>(v: Seq<(Seq<char>, V)>, k: Seq<char>, x: V) -> Seq<(Seq<char>, V)> {
    if has_key(v, k) {
        v.update(key_index(v, k) as int, (k, x))
    } else {
        v.push((k, x))
    }
}

/// `v` without the pair of key `k`.
pub open spec fn remove_attr<V>(v: Seq<(Seq<char>, V)>, k: Seq<char>) -> Seq<(Seq<char>, V)> {
    if has_key(v, k) {
        v.remove(key_index(v, k) as int)
    } else {
        v
    }
}

/// No key occurs twice.
pub open spec fn keys_unique<V>(v: Seq<(Seq<char>, V)>) -> bool {
    forall|i: int, j: int| 0 <= i < j < v.len() ==> v[i].0 != v[j].0
}

pub proof fn lemma_key_index<V>(v: Seq<(Seq<char>, V)>, k: Seq<char>, i: int)
    requires
        0 <= i <= v.len(),
        forall|j: int| 0 <= j < i ==> v[j].0 != k,
        i == v.len() || v[i].0 == k,
    ensures
        key_index(v, k) == i,
    decreases i,
{
    if i > 0 {
        lemma_key_index(v.drop_first(), k, i - 1);
    }
}

pub proof fn lemma_key_index_bound<V>(v: Seq<(Seq<char>, V)>, k: Seq<char>)
    ensures
        key_index(v, k) <= v.len(),
        forall|j: int| 0 <= j < key_index(v, k) ==> v[j].0 != k,
        key_index(v, k) < v.len() ==> v[key_index(v, k) as int].0 == k,
    decreases v.len(),
{
    if v.len() > 0 && v[0].0 != k {
        lemma_key_index_bound(v.drop_first(), k);
        assert forall|j: int| 0 <= j < key_index(v, k) implies v[j].0 != k by {
            if j > 0 {
                assert(v[j] == v.drop_first()[j - 1]);
            }
        }
    }
}

/// After `set_attr(v, k, x)`, `k` gives `x` and every other key what it gave before.
pub proof fn lemma_lookup_set<V>(v: Seq<(Seq<char>, V)>, k: Seq<char>, x: V, k2: Seq<char>)
    ensures
        lookup(set_attr(v, k, x), k2) == (if k2 == k {
            Some(x)
        } else {
            lookup(v, k2)
        }),
        has_key(set_attr(v, k, x), k),
{
    lemma_key_index_bound(v, k);
    lemma_key_index_bound(v, k2);
    let w = set_attr(v, k, x);
    let i = key_index(v, k) as int;
    let i2 = key_index(v, k2) as int;
    if k2 == k {
        lemma_key_index(w, k, i);
    } else {
        let n2 = if i2 < v.len() {
            i2
        } else {
            w.len() as int
        };
        assert forall|j: int| 0 <= j < n2 implies w[j].0 != k2 by {
            if j < v.len() && j != i {
                assert(w[j] == v[j]);
            }
        }
        if i2 < v.len() {
            assert(w[i2] == v[i2]);
        }
        lemma_key_index(w, k2, n2);
    }
    lemma_key_index(w, k, i);
}

/// Setting the same value twice is setting it once.
pub proof fn lemma_set_twice<V>(v: Seq<(Seq<char>, V)>, k: Seq<char>, x: V)
    ensures
        set_attr(set_attr(v, k, x), k, x) == set_attr(v, k, x),
{
    lemma_key_index_bound(v, k);
    let w = set_attr(v, k, x);
    let i = key_index(v, k) as int;
    lemma_key_index(w, k, i);
    assert(w.update(i, (k, x)) =~= w);
}

/// Setting and removing keep the keys unique.
pub proof fn lemma_unique_preserved<V>(v: Seq<(Seq<char>, V)>, k: Seq<char>, x: V)
    requires
        keys_unique(v),
    ensures
        keys_unique(set_attr(v, k, x)),
        keys_unique(remove_attr(v, k)),
{
    lemma_key_index_bound(v, k);
}

pub open spec fn length_text(start: u64, end: u64) -> Seq<char> {
    if end + 1 >= start {
        decimal_text((end + 1 - start) as nat)
    } else {
        seq!['-'] + decimal_text((start - end - 1) as nat)
    }
}

pub open spec fn taxon_text(t: u32) -> Seq<char> {
    if t == 0 {
        seq![]
    } else {
        decimal_text(t as nat)
    }
}

/// What a field name selects of a record: the typed columns by name, any other
/// name from the attributes.
pub open spec fn field_value(m: RecordModel, f: Seq<char>) -> Option<Seq<char>> {
    if f == "uid"@ {
        Some(uid_text(m.uid))
    } else if f == "taxon_id"@ {
        Some(taxon_text(m.taxon_id))
    } else if f == "seq_id"@ {
        Some(m.seq_id)
    } else if f == "source"@ {
        Some(m.source)
    } else if f == "feature_type"@ {
        Some(m.feature_type)
    } else if f == "start"@ {
        Some(decimal_text(m.start as nat))
    } else if f == "end"@ {
        Some(decimal_text(m.end as nat))
    } else if f == "score"@ {
        Some(m.score)
    } else if f == "strand"@ {
        Some(strand_text(m.strand))
    } else if f == "phase"@ {
        Some(phase_text(m.phase))
    } else if f == "length"@ {
        Some(length_text(m.start, m.end))
    } else {
        lookup(m.attributes, f)
    }
}

/// The attribute pairs written as `;key=value` each.
pub open spec fn pairs_text(v: AttrSeq) -> Seq<char>
    decreases v.len(),
{
    if v.len() == 0 {
        seq![]
    } else {
        pairs_text(v.drop_last()) + seq![';'] + v.last().0 + seq!['='] + v.last().1
    }
}

/// The attribute column in `key=value` form: the identifier, the taxon where one
/// is assigned, then the attributes in order.
pub open spec fn attribute_text(m: RecordModel) -> Seq<char> {
    "uid="@ + uid_text(m.uid) + (if m.taxon_id != 0 {
        ";taxon_id="@ + decimal_text(m.taxon_id as nat)
    } else {
        seq![]
    }) + pairs_text(m.attributes)
}

/// The record as one line of nine tab-separated columns.
pub open spec fn line_text(m: RecordModel) -> Seq<char> {
    m.seq_id + seq!['\t'] + m.source + seq!['\t'] + m.feature_type + seq!['\t'] + decimal_text(
        m.start as nat,
    ) + seq!['\t'] + decimal_text(m.end as nat) + seq!['\t'] + m.score + seq!['\t'] + strand_text(
        m.strand,
    ) + seq!['\t'] + phase_text(m.phase) + seq!['\t'] + attribute_text(m)
}

pub(crate) fn push_text(out: &mut Vec<char>, s: &str)
    ensures
        final(out)@ == old(out)@ + s@,
{
    let mut c = chars_of(s);
    out.append(&mut c);
}

fn push_chars(out: &mut Vec<char>, c: Vec<char>)
    ensures
        final(out)@ == old(out)@ + c@,
{
    let mut c = c;
    out.append(&mut c);
}

/// Position of the pair with key `key` in `attrs`, or `attrs.len()`.
pub fn find_attr(attrs: &Vec<(String, String)>, key: &str) -> (r: usize)
    ensures
        r == key_index(attrs_view(attrs@), key@),
{
    let ghost v = attrs_view(attrs@);
    let mut i: usize = 0;
    while i < attrs.len()
        invariant
            i <= attrs@.len(),
            v == attrs_view(attrs@),
            forall|j: int| 0 <= j < i ==> v[j].0 != key@,
        decreases attrs@.len() - i,
    {
        if same_text(attrs[i].0.as_str(), key) {
            proof {
                lemma_key_index(v, key@, i as int);
            }
            return i;
        }
        i = i + 1;
    }
    proof {
        lemma_key_index(v, key@, i as int);
    }
    i
}

fn strand_chars(s: Strand) -> (r: Vec<char>)
    ensures
        r@ == strand_text(s),
{
    let mut v: Vec<char> = Vec::new();
    match s {
        Strand::Forward => v.push('+'),
        Strand::Reverse => v.push('-'),
        Strand::Unknown => v.push('.'),
    }
    v
}

fn phase_chars(p: Phase) -> (r: Vec<char>)
    ensures
        r@ == phase_text(p),
{
    let mut v: Vec<char> = Vec::new();
    match p {
        Phase::Zero => v.push('0'),
        Phase::One => v.push('1'),
        Phase::Two => v.push('2'),
        Phase::Unknown => v.push('.'),
    }
    v
}

fn length_chars(start: u64, end: u64) -> (r: Vec<char>)
    ensures
        r@ == length_text(start, end),
{
    if end as u128 + 1 >= start as u128 {
        decimal_chars(end as u128 + 1 - start as u128)
    } else {
        let mut v: Vec<char> = Vec::new();
        v.push('-');
        push_chars(&mut v, decimal_chars(start as u128 - end as u128 - 1));
        v
    }
}

impl Annotation {
    /// Each attribute key occurs once.
    pub open spec fn wf(&self) -> bool {
        keys_unique(self@.attributes)
    }

    /// Number of bases covered, `end - start + 1`.
    pub open spec fn spec_length(&self) -> int {
        self.end - self.start + 1
    }

    /// The value stored under attribute `key`.
    pub fn get_attribute(&self, key: &str) -> (r: Option<String>)
        ensures
            match r {
                Some(s) => lookup(self@.attributes, key@) == Some(s@),
                None => lookup(self@.attributes, key@) is None,
            },
    {
        let i = find_attr(&self.attributes, key);
        if i < self.attributes.len() {
            Some(self.attributes[i].1.clone())
        } else {
            None
        }
    }

    /// Maps attribute `key` to `value`, in place where the key is present.
    pub fn set_attribute(&mut self, key: String, value: String)
        ensures
            final(self)@ == (RecordModel {
                attributes: set_attr(old(self)@.attributes, key@, value@),
                ..old(self)@
            }),
    {
        let i = find_attr(&self.attributes, key.as_str());
        let ghost v0 = attrs_view(self.attributes@);
        if i < self.attributes.len() {
            self.attributes.set(i, (key, value));
        } else {
            self.attributes.push((key, value));
        }
        assert(attrs_view(self.attributes@) =~= set_attr(v0, key@, value@));
    }

    /// Drops attribute `key`; nothing changes where it is absent.
    pub fn remove_attribute(&mut self, key: &str)
        ensures
            final(self)@ == (RecordModel {
                attributes: remove_attr(old(self)@.attributes, key@),
                ..old(self)@
            }),
    {
        let i = find_attr(&self.attributes, key);
        let ghost v0 = attrs_view(self.attributes@);
        if i < self.attributes.len() {
            self.attributes.remove(i);
        }
        assert(attrs_view(self.attributes@) =~= remove_attr(v0, key@));
    }

    /// The text that field name `name` selects: a typed column by its name, any
    /// other name from the attributes.
    pub fn field_value(&self, name: &str) -> (r: Option<String>)
        ensures
            match r {
                Some(s) => field_value(self@, name@) == Some(s@),
                None => field_value(self@, name@) is None,
            },
    {
        if same_text(name, "uid") {
            Some(uid_to_text(self.uid))
        } else if same_text(name, "taxon_id") {
            if self.taxon_id == 0 {
                Some(String::new())
            } else {
                Some(string_of(decimal_chars(self.taxon_id as u128).as_slice()))
            }
        } else if same_text(name, "seq_id") {
            Some(self.seq_id.clone())
        } else if same_text(name, "source") {
            Some(self.source.clone())
        } else if same_text(name, "feature_type") {
            Some(self.feature_type.clone())
        } else if same_text(name, "start") {
            Some(string_of(decimal_chars(self.start as u128).as_slice()))
        } else if same_text(name, "end") {
            Some(string_of(decimal_chars(self.end as u128).as_slice()))
        } else if same_text(name, "score") {
            Some(self.score.clone())
        } else if same_text(name, "strand") {
            Some(string_of(strand_chars(self.strand).as_slice()))
        } else if same_text(name, "phase") {
            Some(string_of(phase_chars(self.phase).as_slice()))
        } else if same_text(name, "length") {
            Some(string_of(length_chars(self.start, self.end).as_slice()))
        } else {
            self.get_attribute(name)
        }
    }

    /// The attribute column in `key=value` form.
    pub fn attribute_field(&self) -> (r: String)
        ensures
            r@ == attribute_text(self@),
    {
        let mut out: Vec<char> = Vec::new();
        push_text(&mut out, "uid=");
        push_chars(&mut out, chars_of(uid_to_text(self.uid).as_str()));
        if self.taxon_id != 0 {
            push_text(&mut out, ";taxon_id=");
            push_chars(&mut out, decimal_chars(self.taxon_id as u128));
        }
        let ghost head = out@;
        let ghost v = attrs_view(self.attributes@);
        let mut i: usize = 0;
        while i < self.attributes.len()
            invariant
                i <= self.attributes@.len(),
                v == attrs_view(self.attributes@),
                out@ == head + pairs_text(v.subrange(0, i as int)),
            decreases self.attributes@.len() - i,
        {
            out.push(';');
            push_text(&mut out, self.attributes[i].0.as_str());
            out.push('=');
            push_text(&mut out, self.attributes[i].1.as_str());
            assert(v.subrange(0, i + 1).drop_last() =~= v.subrange(0, i as int));
            i = i + 1;
        }
        assert(v.subrange(0, i as int) =~= v);
        let r = string_of(out.as_slice());
        assert(r@ =~= attribute_text(self@));
        r
    }

    /// The record as one line of nine tab-separated columns.
    pub fn to_line(&self) -> (r: String)
        ensures
            r@ == line_text(self@),
    {
        let mut out: Vec<char> = Vec::new();
        push_text(&mut out, self.seq_id.as_str());
        out.push('\t');
        push_text(&mut out, self.source.as_str());
        out.push('\t');
        push_text(&mut out, self.feature_type.as_str());
        out.push('\t');
        push_chars(&mut out, decimal_chars(self.start as u128));
        out.push('\t');
        push_chars(&mut out, decimal_chars(self.end as u128));
        out.push('\t');
        push_text(&mut out, self.score.as_str());
        out.push('\t');
        push_chars(&mut out, strand_chars(self.strand));
        out.push('\t');
        push_chars(&mut out, phase_chars(self.phase));
        out.push('\t');
        push_text(&mut out, self.attribute_field().as_str());
        let r = string_of(out.as_slice());
        assert(r@ =~= line_text(self@));
        r
    }
}

} // verus!
