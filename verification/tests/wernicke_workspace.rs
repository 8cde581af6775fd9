use bf_tools::cranium::module::{Memory, NoImports};
use bf_tools::wernicke::analysis::Workspace;

#[test]
fn a_buffer_reads_back_what_was_set() {
    let mut workspace = Workspace::new();
    workspace.set("main.cra", "fn main() { }\n");
    assert_eq!(workspace.document("main.cra").map(|lines| lines.text().to_string()), Some("fn main() { }\n".to_string()));
    workspace.set("main.cra", "fn main() { print(1); }\n");
    assert_eq!(
        workspace.document("main.cra").map(|lines| lines.text().to_string()),
        Some("fn main() { print(1); }\n".to_string())
    );
    assert!(workspace.document("other.cra").is_none());
}

#[test]
fn a_removed_buffer_is_gone() {
    let mut workspace = Workspace::new();
    workspace.set("a.cra", "const A = 1;\n");
    workspace.set("b.cra", "const B = 2;\n");
    workspace.remove("a.cra");
    assert!(workspace.document("a.cra").is_none());
    assert!(workspace.document("b.cra").is_some());
}

#[test]
fn analysis_prefers_open_buffers() {
    let mut workspace = Workspace::new();
    workspace.set("main.cra", "fn main() { print(1); }\n");
    let disk = Memory::new(&[("main.cra", "fn main() { nope(); }\n")]);
    let analysis = workspace.analyze("main.cra", disk);
    assert!(analysis.program.is_some());
    assert!(analysis.error.is_none());
}

#[test]
fn analysis_reports_the_first_problem() {
    let mut workspace = Workspace::new();
    workspace.set("main.cra", "fn main() {\n    let x = nope;\n}\n");
    let analysis = workspace.analyze("main.cra", NoImports);
    assert!(analysis.program.is_some());
    let error = analysis.error.expect("an error");
    assert_eq!(error.file, "main.cra");
    assert_eq!(error.position, Some((2, 13)));
    assert!(error.message.contains("not defined"), "{}", error.message);
}

#[test]
fn analysis_of_an_unparsable_file_has_no_program() {
    let mut workspace = Workspace::new();
    workspace.set("main.cra", "fn main( {\n");
    let analysis = workspace.analyze("main.cra", NoImports);
    assert!(analysis.program.is_none());
    assert!(analysis.error.is_some());
}
