use sherlog::model::{LogSource, LogSourceContents};
use sherlog::parse::io::{file_kind, kind_of_extension, FileContents, FileKind, LogParseError};
use sherlog::parse::sfile::ArchiveMember;
use sherlog::parse::from_file;

#[test]
fn the_extension_names_the_format() {
    assert!(matches!(file_kind("../logfiles/example.glog"), Ok(FileKind::Glog)));
    assert!(matches!(file_kind("EXAMPLE.GLOG"), Ok(FileKind::Glog)));
    assert!(matches!(file_kind("../logfiles/logfile1.sfile"), Ok(FileKind::Archive)));
    assert!(matches!(file_kind("logfile1.LFile"), Ok(FileKind::Archive)));
}

#[test]
fn an_extension_that_names_no_format_is_an_error() {
    match file_kind("notes.TXT") {
        Err(LogParseError::UnrecognizedFileExtension(extension)) => assert_eq!(extension, "TXT"),
        other => panic!("unexpected: {:?}", other),
    }
    let error = file_kind("a.glog.bak").unwrap_err();
    assert_eq!(error.message(), "Unrecognized file extension: bak");
    assert_eq!(file_kind("trailing.").unwrap_err().message(), "Unrecognized file extension: ");
}

#[test]
fn a_name_without_extension_is_an_error() {
    assert!(matches!(file_kind("notes"), Err(LogParseError::NoFileExtension)));
    assert!(matches!(file_kind("folder.d/notes"), Err(LogParseError::NoFileExtension)));
    assert!(matches!(file_kind(".glog"), Err(LogParseError::NoFileExtension)));
    assert!(matches!(file_kind(""), Err(LogParseError::NoFileExtension)));
    assert_eq!(file_kind("").unwrap_err().message(), "No file extension");
    assert_eq!(LogParseError::IoError("disk on fire".to_string()).message(), "disk on fire");
}

fn entry_count(source: &LogSource) -> usize {
    match &source.children {
        LogSourceContents::Entries(entries) => entries.len(),
        LogSourceContents::Sources(sources) => sources.iter().map(entry_count).sum(),
    }
}

#[test]
fn a_log_is_read_under_the_name_of_its_file() {
    let source = from_file(
        "../logfiles/example.glog",
        FileContents::Bytes(b"[tq|1]:[m|a]\n[tq|2]:[m|b]\n".to_vec()),
    )
    .unwrap();
    assert_eq!(source.name, "example.glog");
    assert_eq!(entry_count(&source), 2);
}

#[test]
fn an_archive_is_read_under_the_name_of_its_file() {
    let members = vec![ArchiveMember {
        name: "contr_Foo.glog".to_string(),
        data: b"[m|x]\n".to_vec(),
    }];
    let tree = from_file("/tmp/logfile1.sfile", FileContents::Members(members)).unwrap();
    assert_eq!(tree.name, "logfile1.sfile");
    assert_eq!(entry_count(&tree), 1);
}

#[test]
fn contents_of_the_wrong_kind_are_an_error() {
    let error = from_file("x.glog", FileContents::Members(Vec::new())).unwrap_err();
    assert!(matches!(error, LogParseError::IoError(_)));
    let error = from_file("x.sfile", FileContents::Bytes(Vec::new())).unwrap_err();
    assert!(matches!(error, LogParseError::IoError(_)));
    let error = from_file("x.zip", FileContents::Bytes(Vec::new())).unwrap_err();
    assert!(matches!(error, LogParseError::UnrecognizedFileExtension(_)));
    let error = from_file("x", FileContents::Bytes(Vec::new())).unwrap_err();
    assert!(matches!(error, LogParseError::NoFileExtension));
}

#[test]
fn extensions_in_lower_case_name_the_kinds() {
    assert_eq!(kind_of_extension("glog"), Some(FileKind::Glog));
    assert_eq!(kind_of_extension("sfile"), Some(FileKind::Archive));
    assert_eq!(kind_of_extension("lfile"), Some(FileKind::Archive));
    assert_eq!(kind_of_extension("GLOG"), None);
    assert_eq!(kind_of_extension("xlog"), None);
    assert_eq!(kind_of_extension(""), None);
}
