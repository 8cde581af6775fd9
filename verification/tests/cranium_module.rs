use bf_tools::cranium::ast::Item;
use bf_tools::cranium::lexer::tokenize;
use bf_tools::cranium::module::{
    gather, resolve_std, std_source, GatherError, Loaded, Memory, STD_GFX, STD_GFX_NAME,
};
use bf_tools::cranium::parser::parse;

fn names_of(loaded: &Loaded) -> Vec<String> {
    loaded.sources.names()
}

#[test]
fn splices_imported_items_ahead_of_the_importer() {
    let mut loader = Memory::new(&[
        ("main.cra", "import \"lib.cra\";\nfn main() { }\n"),
        ("lib.cra", "const K = 7;\n"),
    ]);
    let loaded = gather("main.cra", &mut loader).expect("loads");

    assert_eq!(names_of(&loaded), ["main.cra", "lib.cra"]);
    assert!(matches!(loaded.program.items[0], Item::Const { .. }));
    assert!(matches!(loaded.program.items[1], Item::Function(_)));
}

#[test]
fn reads_a_shared_file_once() {
    let mut loader = Memory::new(&[
        (
            "main.cra",
            "import \"a.cra\";\nimport \"b.cra\";\nfn main() { }\n",
        ),
        ("a.cra", "import \"shared.cra\";\nconst A = 1;\n"),
        ("b.cra", "import \"shared.cra\";\nconst B = 2;\n"),
        ("shared.cra", "const S = 3;\n"),
    ]);
    let loaded = gather("main.cra", &mut loader).expect("loads");

    assert_eq!(loaded.sources.len(), 4);
    assert_eq!(loaded.program.items.len(), 4);
}

#[test]
fn reports_an_import_cycle() {
    let mut loader = Memory::new(&[
        ("a.cra", "import \"b.cra\";\nfn main() { }\n"),
        ("b.cra", "import \"a.cra\";\n"),
    ]);
    let err = gather("a.cra", &mut loader).expect_err("cycle").error;

    let GatherError::Load(err) = err else {
        panic!("expected a load error, got {err:?}");
    };
    assert!(err.message.contains("import cycle"), "{}", err.message);
    assert!(err.message.contains("a.cra"), "{}", err.message);
}

#[test]
fn reports_a_missing_import() {
    let mut loader = Memory::new(&[("main.cra", "import \"nope.cra\";\n")]);
    let err = gather("main.cra", &mut loader)
        .expect_err("missing file")
        .error;

    let GatherError::Load(err) = err else {
        panic!("expected a load error, got {err:?}");
    };
    assert!(err.message.contains("nope.cra"), "{}", err.message);
    assert!(err.span.is_some(), "the failing import should be located");
}

#[test]
fn spans_name_the_file_they_came_from() {
    let mut loader = Memory::new(&[
        ("main.cra", "import \"lib.cra\";\nfn main() { }\n"),
        ("lib.cra", "const K = 7;\n"),
    ]);
    let loaded = gather("main.cra", &mut loader).expect("loads");

    let Item::Const { span, .. } = &loaded.program.items[0] else {
        panic!("expected the imported constant first");
    };
    assert_eq!(loaded.sources.name(span.file), "lib.cra");
}

#[test]
fn refuses_imports_from_a_detached_source() {
    let mut loader = Memory::new(&[("<source>", "import \"lib.cra\";\n")]);
    let err = gather("<source>", &mut loader)
        .expect_err("no such file")
        .error;
    assert!(matches!(err, GatherError::Load(_)));
}

#[test]
fn the_bundled_library_needs_no_filesystem() {
    // `Memory` knows nothing about `std/gfx.cra`, and does not have to.
    let mut loader = Memory::new(&[(
        "main.cra",
        "import \"std/gfx.cra\";
fn shade(x: byte, y: byte) { set_rgb(x, y, 0); }
fn main() { }
",
    )]);
    let loaded = gather("main.cra", &mut loader).expect("loads");

    assert_eq!(names_of(&loaded), ["main.cra", "std/gfx.cra"]);
}

#[test]
fn a_local_std_directory_does_not_shadow_the_bundled_one() {
    // The prefix is reserved, so an import means the same thing wherever
    // the program is compiled.
    let mut loader = Memory::new(&[
        (
            "main.cra",
            "import \"std/gfx.cra\";
fn main() { }
",
        ),
        (
            "std/gfx.cra",
            "const GFX_IMPOSTOR = 1;
",
        ),
    ]);
    let loaded = gather("main.cra", &mut loader).expect("loads");

    assert!(
        !loaded
            .program
            .items
            .iter()
            .any(|item| matches!(item, Item::Const { name, .. } if name == "GFX_IMPOSTOR")),
        "a local file shadowed the bundled library"
    );
}

#[test]
fn an_unknown_bundled_file_says_what_there_is() {
    let mut loader = Memory::new(&[(
        "main.cra",
        "import \"std/nope.cra\";
fn main() { }
",
    )]);
    let failure = gather("main.cra", &mut loader).expect_err("no such file");

    let GatherError::Load(error) = failure.error else {
        panic!("expected a load error");
    };
    assert!(error.message.contains("std/nope.cra"), "{}", error.message);
    assert!(error.message.contains("std/gfx.cra"), "{}", error.message);
}

#[test]
fn a_bundled_file_can_import_a_sibling_by_bare_name() {
    assert_eq!(
        resolve_std("std/gfx.cra", "gfx.cra"),
        Some(Ok("std/gfx.cra".to_string()))
    );
    // An ordinary file's ordinary import is left to the loader.
    assert_eq!(resolve_std("main.cra", "lib.cra"), None);
}

#[test]
fn every_bundled_file_parses() {
    for (name, source) in [(STD_GFX_NAME, STD_GFX)] {
        let tokens = tokenize(source).unwrap_or_else(|error| panic!("{name}: {}", error.message));
        parse(tokens).unwrap_or_else(|error| panic!("{name}: {}", error.message));
    }
}

#[test]
fn the_bundled_source_is_found_only_by_its_name() {
    assert_eq!(std_source("std/gfx.cra"), Some(STD_GFX));
    assert_eq!(std_source("std/nope.cra"), None);
    assert_eq!(std_source("gfx.cra"), None);
}
