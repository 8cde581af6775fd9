use bf_tools::hypothalamus::cli::{parse_args, Action, Error};
use bf_tools::hypothalamus::codegen::FreestandingOptions;
use bf_tools::hypothalamus::driver::{
    default_output_path, validate_config, wants_exe_extension, with_executable_extension,
    CompilerConfig, EmitKind, OptLevel,
};
use bf_tools::hypothalamus::target::{find_target, known_targets, RuntimeAbi, TargetProfile};

fn args(list: &[&str]) -> Vec<String> {
    list.iter().map(|s| s.to_string()).collect()
}

fn run_config(list: &[&str]) -> CompilerConfig {
    let action = parse_args(&args(list)).expect("valid args");
    match action {
        Action::Run(config) => *config,
        _ => panic!("expected run action"),
    }
}

#[test]
fn parses_emit_kinds() {
    assert_eq!(EmitKind::parse("jit"), Some(EmitKind::Jit));
    assert_eq!(EmitKind::parse("run"), Some(EmitKind::Jit));
    assert_eq!(EmitKind::parse("exe"), Some(EmitKind::Executable));
    assert_eq!(EmitKind::parse("obj"), Some(EmitKind::Object));
    assert_eq!(EmitKind::parse("llvm-ir"), None);
    assert_eq!(EmitKind::parse("bad"), None);
}

#[test]
fn folds_familiar_optimization_levels_onto_cranelift_levels() {
    assert_eq!(OptLevel::parse("0"), Some(OptLevel::Off));
    assert_eq!(OptLevel::parse("2"), Some(OptLevel::Speed));
    assert_eq!(OptLevel::parse("3"), Some(OptLevel::Speed));
    assert_eq!(OptLevel::parse("z"), Some(OptLevel::SpeedAndSize));
    assert_eq!(OptLevel::parse("fast"), None);

    assert_eq!(OptLevel::Off.cranelift_setting(), "none");
    assert_eq!(OptLevel::SpeedAndSize.cranelift_setting(), "speed_and_size");
}

#[test]
fn rejects_jit_output_path() {
    let mut config = CompilerConfig::new("examples/hello.bf");
    config.emit = EmitKind::Jit;
    config.output = Some("hello".to_string());

    assert!(matches!(
        validate_config(&config),
        Err(message) if message.contains("--emit jit")
    ));
}

#[test]
fn rejects_cross_target_jit() {
    let mut config = CompilerConfig::for_target(
        "examples/hello.bf",
        TargetProfile::resolve("aarch64-apple-darwin"),
    );
    config.emit = EmitKind::Jit;

    assert!(matches!(
        validate_config(&config),
        Err(message) if message.contains("in this process")
    ));
}

#[test]
fn rejects_hosted_output_for_freestanding_targets() {
    for emit in [EmitKind::Executable, EmitKind::Jit] {
        let mut config = CompilerConfig::for_target(
            "examples/hello.bf",
            TargetProfile::resolve("x86_64-none"),
        );
        config.emit = emit;

        assert!(matches!(
            validate_config(&config),
            Err(message) if message.contains("freestanding runtime")
        ));
    }
}

#[test]
fn rejects_stdout_output() {
    let mut config = CompilerConfig::new("examples/hello.bf");
    config.emit = EmitKind::Object;
    config.output = Some("-".to_string());

    assert!(matches!(
        validate_config(&config),
        Err(message) if message.contains("--output -")
    ));
}

#[test]
fn a_plain_object_request_is_accepted() {
    let mut config = CompilerConfig::new("examples/hello.bf");
    config.emit = EmitKind::Object;
    config.output = Some("hello.o".to_string());
    assert!(validate_config(&config).is_ok());
}

#[test]
fn object_output_defaults_to_a_dot_o_path() {
    let target = TargetProfile::resolve("x86_64-none");
    let output = default_output_path("hello.bf", EmitKind::Object, &target);

    assert_eq!(output, "hello.o");
}

#[test]
fn windows_executables_end_in_exe() {
    let target = TargetProfile::resolve("x86_64-pc-windows-msvc");
    let output = default_output_path("hello.bf", EmitKind::Executable, &target);

    assert_eq!(output, "hello.exe");
}

#[test]
fn native_executables_follow_the_host() {
    // The native target has no triple of its own, so the host decides
    // whether `.exe` is needed.
    let target = TargetProfile::native();
    let output = default_output_path("hello.bf", EmitKind::Executable, &target);

    if wants_exe_extension(&target) {
        assert_eq!(output, "hello.exe");
    } else {
        assert_eq!(output, "hello");
    }
}

#[test]
fn an_input_without_extension_gets_an_out_executable() {
    let target = TargetProfile::resolve("x86_64-unknown-linux-gnu");
    assert_eq!(default_output_path("hello", EmitKind::Executable, &target), "hello.out");
}

#[test]
fn requested_executable_paths_gain_the_host_extension() {
    let target = TargetProfile::native();
    let output = with_executable_extension("build/hello".to_string(), EmitKind::Executable, &target);

    if wants_exe_extension(&target) {
        assert_eq!(output, "build/hello.exe");
    } else {
        assert_eq!(output, "build/hello");
    }
}

#[test]
fn requested_paths_keep_an_extension_the_user_chose() {
    let target = TargetProfile::resolve("x86_64-pc-windows-msvc");

    // An explicit extension is honoured, whatever it is.
    assert_eq!(
        with_executable_extension("hello.bin".to_string(), EmitKind::Executable, &target),
        "hello.bin"
    );
    // Only executables get the treatment.
    assert_eq!(
        with_executable_extension("hello".to_string(), EmitKind::Object, &target),
        "hello"
    );
    assert_eq!(
        with_executable_extension("hello".to_string(), EmitKind::Executable, &target),
        "hello.exe"
    );
}

#[test]
fn resolves_known_native_target() {
    let target = TargetProfile::resolve("native");

    assert_eq!(target.name(), "native");
    assert_eq!(target.triple(), None);
    assert!(!target.is_freestanding());
    assert_eq!(target.default_emit(), EmitKind::Executable);
}

#[test]
fn resolves_raw_triples_as_hosted_targets() {
    let target = TargetProfile::resolve("x86_64-unknown-linux-gnu");

    assert_eq!(target.name(), "x86_64-unknown-linux-gnu");
    assert_eq!(target.triple(), Some("x86_64-unknown-linux-gnu"));
    assert!(!target.is_freestanding());
    assert_eq!(target.default_emit(), EmitKind::Executable);
}

#[test]
fn x86_64_none_is_a_freestanding_object_target() {
    let target = TargetProfile::resolve("x86_64-none");

    assert_eq!(target.triple(), Some("x86_64-unknown-none-elf"));
    assert!(target.is_freestanding());
    assert_eq!(target.default_emit(), EmitKind::Object);
}

#[test]
fn builds_custom_freestanding_targets() {
    let target = TargetProfile::custom(
        "weird-board",
        "custom board",
        Some("aarch64-unknown-none-elf".to_string()),
        RuntimeAbi::Freestanding(FreestandingOptions::default()),
        EmitKind::Object,
    );

    assert_eq!(target.name(), "weird-board");
    assert_eq!(target.triple(), Some("aarch64-unknown-none-elf"));
    assert!(target.is_freestanding());
}

#[test]
fn adopting_a_freestanding_abi_switches_the_default_output() {
    let target = TargetProfile::native()
        .with_runtime_abi(RuntimeAbi::Freestanding(FreestandingOptions::default()));

    assert_eq!(target.default_emit(), EmitKind::Object);
}

#[test]
fn every_known_target_can_be_found_by_name() {
    let presets = known_targets();
    assert!(!presets.is_empty());
    for preset in presets {
        let found = find_target(preset.name).expect("preset should be found");
        assert_eq!(found.name, preset.name);
    }
    assert!(find_target("no-such-board").is_none());
}

#[test]
fn parses_list_targets_action() {
    assert!(matches!(
        parse_args(&args(&["--list-targets"])),
        Ok(Action::ListTargets)
    ));
}

#[test]
fn parses_tools_doctor_action() {
    let action = parse_args(&args(&["tools", "doctor", "--linker", "/tools/cc"]))
        .expect("valid tools doctor args");

    match action {
        Action::ToolsDoctor(config) => assert_eq!(config.linker.as_deref(), Some("/tools/cc")),
        _ => panic!("expected tools doctor action"),
    }
}

#[test]
fn defaults_to_a_hosted_executable() {
    let config = run_config(&["hello.bf"]);

    assert_eq!(config.emit, EmitKind::Executable);
    assert_eq!(config.target.name(), "native");
    assert_eq!(config.opt_level, OptLevel::Speed);
    assert!(!config.target.is_freestanding());
}

#[test]
fn freestanding_defaults_to_object_output() {
    let config = run_config(&["--freestanding", "kernel.bf"]);

    assert_eq!(config.emit, EmitKind::Object);
    assert!(config.target.is_freestanding());
    match config.target.runtime_abi() {
        RuntimeAbi::Freestanding(options) => {
            assert_eq!(options.entry_symbol, "bf_main");
            assert_eq!(options.putchar_symbol, "bf_putchar");
            assert_eq!(options.getchar_symbol, "bf_getchar");
        }
        _ => panic!("expected freestanding runtime"),
    }
}

#[test]
fn x86_64_none_target_defaults_to_object_output() {
    let config = run_config(&["--target", "x86_64-none", "examples/hello.bf"]);

    assert_eq!(config.emit, EmitKind::Object);
    assert_eq!(config.target.triple(), Some("x86_64-unknown-none-elf"));
    assert!(config.target.is_freestanding());
}

#[test]
fn raw_target_triples_stay_hosted() {
    let config = run_config(&["--target", "x86_64-unknown-linux-gnu", "hello.bf"]);

    assert_eq!(config.emit, EmitKind::Executable);
    assert_eq!(config.target.triple(), Some("x86_64-unknown-linux-gnu"));
    assert!(!config.target.is_freestanding());
}

#[test]
fn parses_the_linker_override_and_object_retention() {
    let config = run_config(&["--linker=/tools/cc", "--keep-object", "hello.bf"]);

    assert_eq!(config.linker.as_deref(), Some("/tools/cc"));
    assert!(config.keep_object);
}

#[test]
fn folds_short_optimization_flags_onto_cranelift_levels() {
    assert_eq!(run_config(&["-O0", "hello.bf"]).opt_level, OptLevel::Off);
    assert_eq!(run_config(&["-O3", "hello.bf"]).opt_level, OptLevel::Speed);
    assert_eq!(
        run_config(&["-Oz", "hello.bf"]).opt_level,
        OptLevel::SpeedAndSize
    );
}

#[test]
fn freestanding_rejects_hosted_executable_output() {
    let err = parse_args(&args(&["--target", "x86_64-none", "--emit", "exe", "kernel.bf"]))
        .expect_err("freestanding executable should be rejected");

    assert!(matches!(err, Error::Usage(message) if message.contains("freestanding runtime")));
}

#[test]
fn freestanding_symbol_options_require_freestanding_runtime() {
    let err = parse_args(&args(&["--entry", "kernel_main", "hello.bf"]))
        .expect_err("freestanding symbol should be rejected in hosted mode");

    assert!(matches!(err, Error::Usage(message) if message.contains("freestanding target")));
}

#[test]
fn explains_options_the_llvm_backend_used_to_take() {
    for (arg, expected) in [
        ("--cc", "--linker"),
        ("--keep-ll", "--keep-object"),
        ("--gba-gcc", "32-bit ARM"),
    ] {
        let err = parse_args(&args(&[arg, "clang", "hello.bf"]))
            .expect_err("removed option should be rejected");

        assert!(
            matches!(&err, Error::Usage(message)
                if message.contains("was removed") && message.contains(expected)),
            "{arg} produced {err:?}"
        );
    }
}

#[test]
fn rejects_emit_kinds_the_llvm_backend_used_to_take() {
    for value in ["llvm-ir", "llvm-jit", "asm", "image"] {
        let err = parse_args(&args(&["--emit", value, "hello.bf"]))
            .expect_err("removed emit kind should be rejected");

        assert!(
            matches!(err, Error::Usage(message) if message.contains("expected exe, obj, or jit"))
        );
    }
}
