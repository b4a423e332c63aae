use ferroleaf::synctex::{parse_edit_output, SyncTexScan};
use flate2::write::GzEncoder;
use flate2::Compression;
use std::io::Write;

#[test]
fn edit_output_with_all_fields() {
    let out = "This is SyncTeX command line utility, version 1.5\nSyncTeX result begin\nOutput:/p/main.pdf\nInput:/p/chap1.tex\nLine:42\nColumn:3\nSyncTeX result end\n";
    let loc = parse_edit_output(out).unwrap();
    assert_eq!(loc.file, "/p/chap1.tex");
    assert_eq!(loc.line, 42);
    assert_eq!(loc.column, 3);
}

#[test]
fn edit_output_defaults() {
    let loc = parse_edit_output("Input: /p/a.tex \nColumn:-1\n").unwrap();
    assert_eq!(loc.file, "/p/a.tex");
    assert_eq!(loc.line, 1);
    assert_eq!(loc.column, 0);
    // a line that does not parse as a number clears what came before
    let loc = parse_edit_output("Line:7\nInput:/a.tex\nLine:99999999999\n").unwrap();
    assert_eq!(loc.line, 1);
}

#[test]
fn edit_output_without_input() {
    assert!(parse_edit_output("Line:3\nColumn:1\n").is_none());
    assert!(parse_edit_output("").is_none());
}

const SYNCTEX: &str = "SyncTeX Version:1\nInput:1:/p/main.tex\nInput:2:/p/chap.tex\n{1\nh:1,10:100,200:0,0,0\n}1\n{2\nh:2,5:65536,131072:0,0,0\nv:1,7:1,2\nx:1,1:1,1\n}2\nInput:2:/p/chap2.tex\n";

#[test]
fn scan_keeps_records_of_the_page() {
    let s = SyncTexScan::scan(SYNCTEX, 2);
    assert_eq!(s.inputs.len(), 3);
    assert_eq!(s.records.len(), 2);
    assert_eq!(s.records[0].input, 2);
    assert_eq!(s.records[0].line, 5);
    assert_eq!(s.records[0].x, "65536");
    assert_eq!(s.records[0].y, "131072");
    assert_eq!(s.records[1].line, 7);
    // the last declaration of an input id wins
    let loc = s.location_of(0).unwrap();
    assert_eq!(loc.file, "/p/chap2.tex");
    assert_eq!(loc.line, 5);
    assert_eq!(loc.column, 0);
    assert_eq!(s.location_of(1).unwrap().file, "/p/main.tex");
}

#[test]
fn scan_other_page_and_unknown_input() {
    let s = SyncTexScan::scan(SYNCTEX, 1);
    assert_eq!(s.records.len(), 1);
    assert_eq!(s.records[0].line, 10);
    assert!(SyncTexScan::scan(SYNCTEX, 3).records.is_empty());
    let orphan = SyncTexScan::scan("{1\nh:9,4:1,1\n", 1);
    assert_eq!(orphan.records.len(), 1);
    assert!(orphan.location_of(0).is_none());
}

#[test]
fn compressed_scan_reads_gzip() {
    let mut enc = GzEncoder::new(Vec::new(), Compression::default());
    enc.write_all(SYNCTEX.as_bytes()).unwrap();
    let bytes = enc.finish().unwrap();
    let s = SyncTexScan::scan_compressed(&bytes, 2).unwrap();
    assert_eq!(s.records.len(), 2);
    assert!(SyncTexScan::scan_compressed(b"not gzip", 2).is_none());
}
