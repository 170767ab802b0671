use std::io::{Cursor, Write};

use gunny_launcher::archive::{plan_zip_extraction, ExtractStep};
use zip::write::SimpleFileOptions;
use zip::{CompressionMethod, ZipWriter};

fn archive(entries: &[(&str, Option<&[u8]>)]) -> Vec<u8> {
    let mut w = ZipWriter::new(Cursor::new(Vec::new()));
    let opts = SimpleFileOptions::default().compression_method(CompressionMethod::Stored);
    for (name, data) in entries {
        match data {
            Some(bytes) => {
                w.start_file(*name, opts).unwrap();
                w.write_all(bytes).unwrap();
            }
            None => {
                w.add_directory(*name, opts).unwrap();
            }
        }
    }
    w.finish().unwrap().into_inner()
}

fn describe(step: &ExtractStep) -> String {
    match step {
        ExtractStep::SkipUnreadable => "skip".to_string(),
        ExtractStep::SkipUnsafe(n) => format!("unsafe {n}"),
        ExtractStep::CreateDir(p) => format!("dir {p}"),
        ExtractStep::WriteFile(p, c, ok) => {
            format!("file {p} {} {ok}", String::from_utf8_lossy(c))
        }
    }
}

#[test]
fn plan_for_plain_archive() {
    let data = archive(&[("ruffle/", None), ("ruffle/ruffle.exe", Some(b"MZ")), ("README", Some(b"hi"))]);
    let steps = plan_zip_extraction("/out", &data, false).unwrap();
    let got: Vec<String> = steps.iter().map(describe).collect();
    assert_eq!(
        got,
        vec!["dir /out/ruffle", "file /out/ruffle/ruffle.exe MZ true", "file /out/README hi true"]
    );
}

#[test]
fn plan_keeps_escaping_names_inside() {
    let data = archive(&[("../evil.txt", Some(b"x")), ("..\\win.txt", Some(b"y"))]);
    let unix: Vec<String> = plan_zip_extraction("/out", &data, false).unwrap().iter().map(describe).collect();
    assert_eq!(unix, vec!["file /out/evil.txt x true", "file /out/..\\win.txt y true"]);
    let win: Vec<String> =
        plan_zip_extraction("C:\\out", &data, true).unwrap().iter().map(describe).collect();
    assert_eq!(win, vec!["file C:\\out\\evil.txt x true", "file C:\\out\\win.txt y true"]);
}

#[test]
fn plan_refuses_drive_parts_on_windows() {
    let data = archive(&[("a\\C:\\x", Some(b"z"))]);
    let win: Vec<String> =
        plan_zip_extraction("C:\\out", &data, true).unwrap().iter().map(describe).collect();
    assert_eq!(win, vec!["unsafe a\\C:\\x"]);
}

#[test]
fn plan_for_unreadable_archive() {
    assert!(plan_zip_extraction("/out", b"not a zip archive", false).is_none());
    assert!(plan_zip_extraction("/out", &[], false).is_none());
}

#[test]
fn plan_paths_stay_under_dest() {
    let data = archive(&[("/abs", Some(b"1")), ("a/../../b/", None), ("./c", Some(b"2"))]);
    for step in plan_zip_extraction("/out", &data, false).unwrap() {
        match step {
            ExtractStep::CreateDir(p) | ExtractStep::WriteFile(p, _, _) => {
                assert!(p.starts_with("/out/") || p == "/out");
            }
            _ => {}
        }
    }
}
