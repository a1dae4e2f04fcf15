//! The options of each command, and the `key:value` argument form.
use vstd::prelude::*;

use crate::text::{split_n, split_spans, string_of_range, chars_of};

verus! {

/// Adds attributes to annotations.
pub struct AddCommand {
    /// Pairs to add, in order.
    pub attributes: Vec<(String, String)>,
    /// Replace the value of a key that is present.
    pub overwrite: bool,
    /// File of identifiers, one per line, that limits the change.
    pub uid_file: Option<String>,
    pub input_file: Option<String>,
    pub output_file: Option<String>,
}

/// Lists the field names of the first annotations.
pub struct FieldsCommand {
    /// Number of annotations read.
    pub num_ann: u16,
    pub input_file: Option<String>,
}

/// Removes attributes from annotations.
pub struct RmCommand {
    pub attributes: Vec<String>,
    pub uid_file: Option<String>,
    pub input_file: Option<String>,
    pub output_file: Option<String>,
}

/// Prints fields of annotations as tab-separated columns.
pub struct ViewCommand {
    /// Write a `#` line naming the columns first.
    pub header: bool,
    /// Keep annotations for which no field was found.
    pub keep_empty: bool,
    pub attributes: Vec<String>,
    pub input_file: Option<String>,
    pub output_file: Option<String>,
}

/// Sets attributes from a table keyed by a field of each annotation.
pub struct TableCommand {
    /// The field whose value is the join key (`uid` where none is given).
    pub key: Option<String>,
    /// The attribute that each value column sets, in column order.
    pub attributes: Vec<String>,
    /// Write only the annotations that the table matched.
    pub only_edited: bool,
    /// Table lines starting with this text are skipped.
    pub comment_char: String,
    pub table_file: String,
    /// Join on the sequence id and the `ID` attribute.
    pub prodigal_gene: bool,
    /// Number of table lines passed over first.
    pub skip_rows: usize,
    pub input_file: Option<String>,
    pub output_file: Option<String>,
}

/// Converts annotations with `key "value"` attributes to `key=value` attributes.
pub struct GtfCommand {
    pub input_file: Option<String>,
    pub output_file: Option<String>,
}

pub enum Commands {
    Add(AddCommand),
    Fields(FieldsCommand),
    Rm(RmCommand),
    View(ViewCommand),
    Table(TableCommand),
    Gtf(GtfCommand),
}

/// Why a `key:value` argument was refused.
#[derive(Clone, Copy, Debug, PartialEq, Eq, Structural)]
pub enum KeyValueError {
    /// The argument holds no `:`.
    MissingSeparator,
}

/// The key and value of a `key:value` argument, cut at the first `:`.
pub open spec fn key_value_spec(arg: Seq<char>) -> Result<(Seq<char>, Seq<char>), KeyValueError> {
    let ps = split_n(arg, ':', 2);
    if ps.len() == 2 {
        Ok((ps[0], ps[1]))
    } else {
        Err(KeyValueError::MissingSeparator)
    }
}

pub open spec fn key_value_view(r: Result<(String, String), KeyValueError>) -> Result<
    (Seq<char>, Seq<char>),
    KeyValueError,
> {
    match r {
        Ok(p) => Ok((p.0@, p.1@)),
        Err(e) => Err(e),
    }
}

/// Reads a `key:value` argument.
pub fn key_value_parser(arg: &str) -> (r: Result<(String, String), KeyValueError>)
    ensures
        key_value_view(r) == key_value_spec(arg@),
{
    let s = chars_of(arg);
    assert(s@.subrange(0, s@.len() as int) =~= arg@);
    let ps = split_spans(&s, 0, s.len(), ':', 2);
    if ps.len() != 2 {
        return Err(KeyValueError::MissingSeparator);
    }
    let k = string_of_range(s.as_slice(), ps[0].0, ps[0].1);
    let v = string_of_range(s.as_slice(), ps[1].0, ps[1].1);
    Ok((k, v))
}

} // verus!
