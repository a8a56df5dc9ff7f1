use std::io::Write;

use flate2::write::GzEncoder;
use flate2::Compression;

use soundalike::builder::PronounceBuilder;
use soundalike::dict::{parse_cmudict, read_cmudict};
use soundalike::vocab::{parse_u64, read_frameworks};

fn s(x: &str) -> String {
    x.to_string()
}

fn gzip(text: &str) -> Vec<u8> {
    let mut enc = GzEncoder::new(Vec::new(), Compression::default());
    enc.write_all(text.as_bytes()).unwrap();
    enc.finish().unwrap()
}

#[test]
fn cmudict_lines_and_comments() {
    let text = ";;; a comment  here\nREACT  R IY0 AE1 K T\nVUE  V Y UW1\n\nBAD\n";
    assert_eq!(
        parse_cmudict(text),
        vec![(s("REACT"), s("R IY0 AE1 K T")), (s("VUE"), s("V Y UW1"))]
    );
}

#[test]
fn cmudict_takes_second_part_only() {
    assert_eq!(parse_cmudict("A  B  C"), vec![(s("A"), s("B"))]);
    assert_eq!(parse_cmudict("W  X Y\r\nZ  Q"), vec![(s("W"), s("X Y")), (s("Z"), s("Q"))]);
    assert!(parse_cmudict("").is_empty());
}

#[test]
fn cmudict_from_gzip() {
    let gz = gzip("RECT  R EH1 K T\n");
    assert_eq!(read_cmudict(&gz), Some(vec![(s("RECT"), s("R EH1 K T"))]));
    assert_eq!(read_cmudict(b"not gzip"), None);
}

#[test]
fn cmudict_feeds_builder() {
    let entries = read_cmudict(&gzip("RECT  R EH1 K T\n")).unwrap();
    let b = PronounceBuilder::new(
        entries,
        vec![(s("EH"), 0, 500_000)],
        vec![(s("R"), 600_000, 500_000), (s("K"), 900_000, 0), (s("T"), 400_000, 0)],
    );
    assert_eq!(b.pronounce("rect").syllables(), 1);
}

#[test]
fn weights_parse_as_u64() {
    assert_eq!(parse_u64(&s("0")), Some(0));
    assert_eq!(parse_u64(&s("+5")), Some(5));
    assert_eq!(parse_u64(&s("1000")), Some(1000));
    assert_eq!(parse_u64(&s("18446744073709551615")), Some(u64::MAX));
    assert_eq!(parse_u64(&s("18446744073709551616")), None);
    assert_eq!(parse_u64(&s("")), None);
    assert_eq!(parse_u64(&s("+")), None);
    assert_eq!(parse_u64(&s("12a")), None);
    assert_eq!(parse_u64(&s("-1")), None);
}

#[test]
fn frameworks_rows() {
    assert_eq!(
        read_frameworks("React,R IY AE K T,1000\nVue,V Y UW,7\n"),
        Some(vec![
            (s("React"), s("R IY AE K T"), 1000),
            (s("Vue"), s("V Y UW"), 7),
        ])
    );
    assert_eq!(
        read_frameworks("\"Next, js\",N EH K S T,3\n"),
        Some(vec![(s("Next, js"), s("N EH K S T"), 3)])
    );
}

#[test]
fn frameworks_bad_rows() {
    assert_eq!(read_frameworks("A,B\n"), None);
    assert_eq!(read_frameworks("A,B,many\n"), None);
    assert_eq!(read_frameworks("A,B,1\nC,D,E,2\n"), None);
    assert_eq!(read_frameworks(""), Some(vec![]));
}
