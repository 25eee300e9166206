use rustyrts::fs_utils::{
    get_cache_path, read_lines, CacheFileDescr, CacheFileKind, CacheFileParsingError, CacheKind,
    ChecksumKind,
};
use rustyrts::paths::{get_base_path, get_changes_path, get_graph_path, get_test_path, CachePath};

#[test]
fn cache_directories() {
    let base = CachePath::from_str("/tmp/target");
    assert_eq!(CacheKind::Static.map(base.clone()).as_str(), "/tmp/target/.rts_static");
    assert_eq!(CacheKind::Dynamic.map(base.clone()).as_str(), "/tmp/target/.rts_dynamic");
    assert_eq!(CacheKind::General.map(base).as_str(), "/tmp/target/.rts");
    assert!(get_cache_path(CacheKind::Static, None).is_none());
    assert_eq!(get_cache_path(CacheKind::Static, Some("t/")).unwrap().as_str(), "t/.rts_static");
}

#[test]
fn file_names_of_cache_files() {
    let mut path = CachePath::from_str("dir");
    let descr = CacheFileDescr::new(
        "my_crate".to_string(),
        Some("Test".to_string()),
        Some("doc]".to_string()),
        CacheFileKind::Checksums(ChecksumKind::VtblChecksum),
    );
    descr.apply(&mut path);
    assert_eq!(path.as_str(), "dir/Test_my_crate_doc].checksum_vtbl");
    let read = CacheFileDescr::try_from_path(&path).ok().unwrap();
    assert_eq!(read.compile_mode, Some("Test".to_string()));
    assert_eq!(read.doctest_name, Some("doc".to_string()));
    assert_eq!(read.crate_name, "my_crate");
    assert_eq!(read.kind, CacheFileKind::Checksums(ChecksumKind::VtblChecksum));
}

#[test]
fn names_that_are_no_cache_files() {
    let dir = CachePath::from_str("a/..");
    assert_eq!(CacheFileDescr::try_from_path(&dir).err(), Some(CacheFileParsingError::FoundDirectory));
    let no_ending = CachePath::from_str("a/Build_krate");
    assert_eq!(CacheFileDescr::try_from_path(&no_ending).err(), Some(CacheFileParsingError::InvalidFileName));
    let bad_doctest = CachePath::from_str("a/Build_krate_doc.test");
    assert_eq!(CacheFileDescr::try_from_path(&bad_doctest).err(), Some(CacheFileParsingError::InvalidFileName));
    let bad_kind = CachePath::from_str("a/krate.txt");
    assert_eq!(CacheFileDescr::try_from_path(&bad_kind).err(), Some(CacheFileParsingError::InvalidKind));
}

#[test]
fn kinds_are_read_from_their_endings() {
    for kind in [
        CacheFileKind::Tests,
        CacheFileKind::Changes,
        CacheFileKind::Graph,
        CacheFileKind::Traces,
        CacheFileKind::ProcessTraces,
        CacheFileKind::Checksums(ChecksumKind::Checksum),
        CacheFileKind::Checksums(ChecksumKind::ConstChecksum),
    ] {
        assert_eq!(CacheFileKind::from_str(kind.as_str()).ok(), Some(kind));
    }
    assert_eq!(ChecksumKind::from_str("checksum_old").err(), Some(CacheFileParsingError::InvalidKind));
}

#[test]
fn paths_of_a_project() {
    let base = get_base_path("/project");
    assert_eq!(base.as_str(), "/project/.rts");
    assert_eq!(get_graph_path(base.clone(), "krate").as_str(), "/project/.rts/krate.dot");
    assert_eq!(get_test_path(base.clone(), "krate").as_str(), "/project/.rts/krate.test");
    assert_eq!(get_changes_path(base, "krate").as_str(), "/project/.rts/krate.changes");
}

#[test]
fn path_operations() {
    let mut p = CachePath::from_str("a/b.tar.gz");
    assert_eq!(p.file_name(), Some("b.tar.gz".to_string()));
    assert_eq!(p.file_stem(), Some("b.tar".to_string()));
    assert_eq!(p.extension(), Some("gz".to_string()));
    assert!(p.set_extension("xz"));
    assert_eq!(p.as_str(), "a/b.tar.xz");
    assert!(p.set_extension(""));
    assert_eq!(p.as_str(), "a/b.tar");
    let mut hidden = CachePath::from_str(".bashrc");
    assert_eq!(hidden.extension(), None);
    assert!(hidden.set_extension("x"));
    assert_eq!(hidden.as_str(), ".bashrc.x");
    let mut root = CachePath::from_str("/");
    assert!(!root.set_extension("x"));
    let mut abs = CachePath::from_str("a");
    abs.push("/b");
    assert_eq!(abs.as_str(), "/b");
}

#[test]
fn lines_of_a_file() {
    assert_eq!(read_lines("a\n\nb\n"), vec!["a".to_string(), "b".to_string()]);
    assert!(read_lines("").is_empty());
}
