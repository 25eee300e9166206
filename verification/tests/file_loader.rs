use rustyrts::file_loader::{InstrumentationFileLoaderProxy, TestRunnerFileLoaderProxy};

#[test]
fn instrumentation_extends_first_file_only() {
    let mut loader = InstrumentationFileLoaderProxy::new("\nAPPX".to_string());
    assert_eq!(loader.read_file("#![feature(test)]\nfn a() {}"), "\nfn a() {}\nAPPX");
    assert_eq!(loader.read_file("#![feature(test)]"), "#![feature(test)]");
}

#[test]
fn test_runner_wraps_first_file() {
    let mut loader = TestRunnerFileLoaderProxy::new(
        InstrumentationFileLoaderProxy::new("+A".to_string()),
        "P:".to_string(),
        ":S".to_string(),
    );
    assert_eq!(loader.read_file("body#![feature(test)]x#![feature(test)]"), "P:bodyx+A:S");
    assert_eq!(loader.read_file("y"), "y");
}
