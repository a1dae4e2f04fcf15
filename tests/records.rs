use gff_edit::annotation::{Annotation, Phase, Strand};
use gff_edit::attributes::{parse_attribute_field, Dialect, ParseError};
use gff_edit::cli::{key_value_parser, KeyValueError};
use gff_edit::reader::{classify_line, convert_gtf, gtf_command, parse_line, parse_record, read_records, LineKind};
use gff_edit::schema::discover_fields;
use gff_edit::table::{read_table, table_join, JoinKey, TableError};
use gff_edit::transform::{add_attributes, project, remove_attributes, TransformError};
use gff_edit::uid::format_uid;

fn s(x: &str) -> String {
    x.to_string()
}

fn pairs(v: &[(&str, &str)]) -> Vec<(String, String)> {
    v.iter().map(|(k, x)| (s(k), s(x))).collect()
}

fn names(v: &[&str]) -> Vec<String> {
    v.iter().map(|x| s(x)).collect()
}

fn record(attrs: &str) -> Annotation {
    let line = format!("chr1\tX\tgene\t1\t100\t.\t+\t.\t{}", attrs);
    parse_line(&line, Dialect::Gff, 42).unwrap()
}

#[test]
fn add_taxon_to_gff_line() {
    let a = parse_line("chr1\tX\tgene\t1\t100\t.\t+\t.\tID=g1", Dialect::Gff, 42).unwrap();
    let a = add_attributes(a, &pairs(&[("taxon_id", "9606")]), false, &vec![]).unwrap();
    assert_eq!(a.taxon_id, 9606);
    assert_eq!(a.start, 1);
    assert_eq!(a.end, 100);
    let field = a.attribute_field();
    assert!(field.contains("taxon_id=9606;ID=g1"));
    assert!(a.to_line().starts_with("chr1\tX\tgene\t1\t100\t.\t+\t.\tuid="));
}

#[test]
fn quoted_attributes_with_uid() {
    let (uid, taxon, attrs) = parse_attribute_field(
        "gene_id \"ABC\"; uid \"00000000-0000-0000-0000-000000000001\";",
        Dialect::Gtf,
        99,
    )
    .unwrap();
    assert_eq!(uid, 1);
    assert_eq!(taxon, 0);
    assert_eq!(attrs, pairs(&[("gene_id", "ABC")]));
}

#[test]
fn table_join_sets_typed_and_generic() {
    let table = read_table(&names(&["g1\t9606\tsapiens"]), 0, "#", 3).unwrap();
    let a = record("ID=g1;organism=unknown;taxon_id=7");
    let out = table_join(a, &table, &JoinKey::Field(s("ID")), &names(&["taxon_id", "organism"]), false)
        .unwrap()
        .unwrap();
    assert_eq!(out.taxon_id, 9606);
    assert_eq!(out.get_attribute("organism"), Some(s("sapiens")));
}

#[test]
fn eight_columns_is_structural_error() {
    let r = parse_line("chr1\tX\tgene\t1\t100\t.\t+\t.", Dialect::Gff, 1);
    assert_eq!(r.unwrap_err(), ParseError::FieldCount);
    let lines = names(&["chr1\tX\tgene\t1\t100\t.\t+\t.\tID=a", "chr1\tX\tgene\t1\t100\t.\t+\t."]);
    assert_eq!(read_records(&lines, Dialect::Gff, &vec![1, 2]).unwrap_err(), ParseError::FieldCount);
}

#[test]
fn round_trip_of_serialized_record() {
    let a = record("ID=g1;Name=abc;taxon_id=12");
    let line = a.to_line();
    let b = parse_line(&line, Dialect::Gff, 7).unwrap();
    assert_eq!(b.to_line(), line);
    assert_eq!(b.uid, a.uid);
    assert_eq!(b.taxon_id, 12);
}

#[test]
fn add_twice_equals_add_once() {
    for overwrite in [false, true] {
        let p = pairs(&[("ID", "x")]);
        let once = add_attributes(record("ID=g1"), &p, overwrite, &vec![]).unwrap();
        let twice = add_attributes(once.clone(), &p, overwrite, &vec![]).unwrap();
        assert_eq!(once.to_line(), twice.to_line());
    }
}

#[test]
fn filter_without_uid_leaves_record() {
    let a = record("ID=g1");
    let before = a.to_line();
    let filter = names(&["00000000-0000-0000-0000-000000000005"]);
    let b = add_attributes(a, &pairs(&[("ID", "x"), ("new", "y")]), true, &filter).unwrap();
    assert_eq!(b.to_line(), before);
    let c = remove_attributes(b, &names(&["ID", "taxon_id"]), &filter);
    assert_eq!(c.to_line(), before);
}

#[test]
fn filter_with_uid_changes_record() {
    let a = record("ID=g1;uid=00000000-0000-0000-0000-000000000005");
    let filter = names(&["00000000-0000-0000-0000-000000000005"]);
    let b = add_attributes(a, &pairs(&[("new", "y")]), false, &filter).unwrap();
    assert_eq!(b.get_attribute("new"), Some(s("y")));
    let c = remove_attributes(b, &names(&["ID"]), &filter);
    assert_eq!(c.get_attribute("ID"), None);
    assert_eq!(c.get_attribute("new"), Some(s("y")));
}

#[test]
fn overwrite_policy() {
    let kept = add_attributes(record("ID=g1"), &pairs(&[("ID", "x")]), false, &vec![]).unwrap();
    assert_eq!(kept.get_attribute("ID"), Some(s("g1")));
    let replaced = add_attributes(record("ID=g1"), &pairs(&[("ID", "x")]), true, &vec![]).unwrap();
    assert_eq!(replaced.get_attribute("ID"), Some(s("x")));
    let added = add_attributes(record("ID=g1"), &pairs(&[("Name", "n")]), false, &vec![]).unwrap();
    assert_eq!(added.attributes, pairs(&[("ID", "g1"), ("Name", "n")]));
}

#[test]
fn add_bad_taxon_fails() {
    let r = add_attributes(record("ID=g1"), &pairs(&[("taxon_id", "human")]), true, &vec![]);
    assert_eq!(r.unwrap_err(), TransformError::InvalidTaxonId);
}

#[test]
fn remove_taxon_resets_typed_field() {
    let a = record("ID=g1;taxon_id=9606;Name=n");
    assert_eq!(a.taxon_id, 9606);
    let b = remove_attributes(a, &names(&["taxon_id", "Name", "absent"]), &vec![]);
    assert_eq!(b.taxon_id, 0);
    assert_eq!(b.attributes, pairs(&[("ID", "g1")]));
}

#[test]
fn projection_skips_or_keeps_empty() {
    let a = record("ID=g1");
    let f = names(&["ID", "missing", "start"]);
    assert_eq!(project(&a, &f, false), Some(names(&["g1", "1"])));
    assert_eq!(project(&a, &f, true), Some(names(&["g1", "", "1"])));
    let only_missing = names(&["missing"]);
    assert_eq!(project(&a, &only_missing, false), None);
    assert_eq!(project(&a, &only_missing, true), Some(names(&[""])));
}

#[test]
fn projection_of_typed_fields() {
    let a = parse_line("c\ts\tcds\t5\t10\t2.5\t-\t2\tID=x;taxon_id=3", Dialect::Gff, 1).unwrap();
    let f = names(&["seq_id", "source", "feature_type", "start", "end", "score", "strand", "phase", "length", "taxon_id", "uid"]);
    let row = project(&a, &f, false).unwrap();
    assert_eq!(
        row,
        names(&["c", "s", "cds", "5", "10", "2.5", "-", "2", "6", "3", "00000000-0000-0000-0000-000000000001"])
    );
    let b = record("ID=x");
    assert_eq!(project(&b, &names(&["taxon_id"]), false), Some(names(&[""])));
}

#[test]
fn join_only_edited_keeps_matching_records() {
    let table = read_table(&names(&["g1\tv1", "g3\tv3"]), 0, "#", 2).unwrap();
    let key = JoinKey::Field(s("ID"));
    let cols = names(&["note"]);
    let mut kept = Vec::new();
    for id in ["g1", "g2", "g3", "g4"] {
        let a = record(&format!("ID={}", id));
        if let Some(b) = table_join(a, &table, &key, &cols, true).unwrap() {
            kept.push(b.get_attribute("ID").unwrap());
        }
    }
    assert_eq!(kept, names(&["g1", "g3"]));
    let passed = table_join(record("ID=g2"), &table, &key, &cols, false).unwrap();
    assert!(passed.is_some());
}

#[test]
fn join_never_changes_uid_and_uses_prodigal_key() {
    let table = read_table(&names(&["chr1_7\t00000000-0000-0000-0000-000000000009\tyes"]), 0, "#", 3).unwrap();
    let a = record("ID=7");
    let uid = a.uid;
    let b = table_join(a, &table, &JoinKey::Prodigal, &names(&["uid", "flag"]), true).unwrap().unwrap();
    assert_eq!(b.uid, uid);
    assert_eq!(b.get_attribute("flag"), Some(s("yes")));
    let c = table_join(record("Name=7"), &table, &JoinKey::Prodigal, &names(&["flag"]), true).unwrap();
    assert!(c.is_none());
}

#[test]
fn join_bad_taxon_fails() {
    let table = read_table(&names(&["g1\tabc"]), 0, "#", 2).unwrap();
    let r = table_join(record("ID=g1"), &table, &JoinKey::Field(s("ID")), &names(&["taxon_id"]), false);
    assert_eq!(r.unwrap_err(), TransformError::InvalidTaxonId);
}

#[test]
fn table_skips_rows_comments_and_keeps_last_duplicate() {
    let lines = names(&["header\tignored", "#comment", "k\t1\textra", "k\t2", "j\t3"]);
    let t = read_table(&lines, 1, "#", 2).unwrap();
    assert_eq!(t, vec![(s("k"), names(&["2"])), (s("j"), names(&["3"]))]);
    let short = read_table(&names(&["k"]), 0, "#", 2);
    assert_eq!(short.unwrap_err(), TableError::ColumnCount);
}

#[test]
fn parse_errors_for_typed_fields() {
    let bad_start = parse_line("c\ts\tf\tx\t10\t.\t+\t0\tID=a", Dialect::Gff, 1);
    assert_eq!(bad_start.unwrap_err(), ParseError::InvalidStart);
    let bad_end = parse_line("c\ts\tf\t1\t-3\t.\t+\t0\tID=a", Dialect::Gff, 1);
    assert_eq!(bad_end.unwrap_err(), ParseError::InvalidEnd);
    let bad_phase = parse_line("c\ts\tf\t1\t3\t.\t+\t5\tID=a", Dialect::Gff, 1);
    assert_eq!(bad_phase.unwrap_err(), ParseError::InvalidPhase);
    let bad_uid = parse_line("c\ts\tf\t1\t3\t.\t+\t0\tuid=nope", Dialect::Gff, 1);
    assert_eq!(bad_uid.unwrap_err(), ParseError::InvalidUid);
    let bad_taxon = parse_line("c\ts\tf\t1\t3\t.\t+\t0\ttaxon_id=99999999999", Dialect::Gff, 1);
    assert_eq!(bad_taxon.unwrap_err(), ParseError::InvalidTaxonId);
}

#[test]
fn parse_reads_columns() {
    let a = parse_line("  c \ts\tf\t+7\t9\tbad\t?\t.\t a = b ;broken; c=d ;\n", Dialect::Gff, 3).unwrap();
    assert_eq!(a.seq_id, "c");
    assert_eq!(a.start, 7);
    assert_eq!(a.end, 9);
    assert_eq!(a.score, "bad");
    assert_eq!(a.strand, Strand::Unknown);
    assert_eq!(a.phase, Phase::Unknown);
    assert_eq!(a.uid, 3);
    assert_eq!(a.attributes, pairs(&[("a", "b"), ("c", "d")]));
}

#[test]
fn records_stop_at_sequence_and_skip_comments() {
    let lines = names(&[
        "#header",
        "chr1\tX\tgene\t1\t100\t.\t+\t.\tID=a",
        "chr1\tX\tgene\t5\t9\t.\t-\t1\tID=b",
        ">seq",
        "not a record",
    ]);
    let recs = read_records(&lines, Dialect::Gff, &vec![1, 2, 3, 4, 5]).unwrap();
    assert_eq!(recs.len(), 2);
    assert_eq!(recs[0].uid, 2);
    assert_eq!(recs[1].uid, 3);
    assert_eq!(recs[1].strand, Strand::Reverse);
    assert_eq!(recs[1].phase, Phase::One);
    assert_eq!(classify_line("#x"), LineKind::Comment);
    assert_eq!(classify_line(">x"), LineKind::SequenceStart);
    assert_eq!(classify_line("x"), LineKind::Record);
}

#[test]
fn gtf_lines_become_gff_lines() {
    let lines = names(&["chr1\tsrc\texon\t1\t2\t.\t+\t0\tgene_id \"G\"; uid \"00000000-0000-0000-0000-00000000000a\";"]);
    let out = convert_gtf(&lines, &vec![5]).unwrap();
    assert_eq!(out, names(&["chr1\tsrc\texon\t1\t2\t.\t+\t0\tuid=00000000-0000-0000-0000-00000000000a;gene_id=G"]));
    let drawn = gtf_command(&names(&["chr1\tsrc\texon\t1\t2\t.\t+\t0\tgene_id \"G\";"])).unwrap();
    assert_eq!(drawn.len(), 1);
    assert!(drawn[0].ends_with(";gene_id=G"));
    assert!(!drawn[0].contains("uid=00000000-0000-0000-0000-000000000000"));
}

#[test]
fn drawn_uid_is_not_nil() {
    let a = parse_record("chr1\tX\tgene\t1\t100\t.\t+\t.\tID=g1", Dialect::Gff).unwrap();
    assert_ne!(a.uid, 0);
}

#[test]
fn uid_is_written_hyphenated() {
    assert_eq!(format_uid(1), "00000000-0000-0000-0000-000000000001");
    assert_eq!(format_uid(0xabcdef), "00000000-0000-0000-0000-000000abcdef");
}

#[test]
fn fields_list_typed_then_first_seen_keys() {
    let recs = vec![record("ID=a;Name=x"), record("Note=y;ID=b"), record("Late=z")];
    let f = discover_fields(&recs, 2);
    assert_eq!(
        f,
        names(&["uid", "seq_id", "source", "feature_type", "start", "end", "score", "strand", "phase", "length", "ID", "Name", "Note"])
    );
}

#[test]
fn key_value_arguments() {
    assert_eq!(key_value_parser("a:b:c"), Ok((s("a"), s("b:c"))));
    assert_eq!(key_value_parser("ab"), Err(KeyValueError::MissingSeparator));
}
