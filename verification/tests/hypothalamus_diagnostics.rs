use bf_tools::hypothalamus::diagnostics::{
    codegen_status, doctor_report, executable_status, linker_line, target_line, ToolDoctorConfig,
};
use bf_tools::hypothalamus::target::known_targets;

fn all_ok(count: usize) -> Vec<Result<(), String>> {
    (0..count).map(|_| Ok(())).collect()
}

#[test]
fn reports_the_backend_and_every_target() {
    let targets = known_targets();
    let report = doctor_report(
        &ToolDoctorConfig::default(),
        &Ok("x86_64-unknown-linux-gnu".to_owned()),
        &Some("/usr/bin/cc".to_owned()),
        &targets,
        &all_ok(targets.len()),
    );

    assert!(report.contains("Hypothalamus tool doctor"));
    assert!(report.contains("Backend:"));
    assert!(report.contains("cranelift: ok"));
    assert!(report.contains("jit: ok"));
    assert!(report.contains("Targets:"));
    for target in &targets {
        assert!(report.contains(target.name), "{} missing", target.name);
    }
}

#[test]
fn reports_a_configured_linker_that_is_not_installed() {
    let targets = known_targets();
    let report = doctor_report(
        &ToolDoctorConfig { linker: Some("hypothalamus-absent-linker".to_string()) },
        &Ok("x86_64-unknown-linux-gnu".to_owned()),
        &None,
        &targets,
        &all_ok(targets.len()),
    );

    assert!(report.contains("linker: missing"));
    assert!(report.contains("hypothalamus-absent-linker"));
    assert!(report.contains("codegen: ok"));
}

#[test]
fn the_whole_report_reads_line_by_line() {
    let targets = known_targets();
    let report = doctor_report(
        &ToolDoctorConfig::default(),
        &Ok("x86_64-unknown-linux-gnu".to_owned()),
        &None,
        &targets,
        &all_ok(targets.len()),
    );
    let lines: Vec<&str> = report.lines().collect();
    assert_eq!(lines[0], "Hypothalamus tool doctor");
    assert_eq!(lines[1], "");
    assert_eq!(lines[2], "Backend:");
    assert_eq!(lines[3], "  cranelift: ok (host x86_64-unknown-linux-gnu)");
    assert_eq!(lines[4], "  jit: ok (in-process; no external tool required)");
    assert_eq!(lines[5], "  obj: ok (no external tool required)");
    assert_eq!(lines[7], "Tools:");
    assert_eq!(lines[8], "  linker: missing (tried cc, clang, gcc; only --emit exe needs it)");
    assert_eq!(lines[10], "Targets:");
    assert_eq!(lines.len(), 11 + targets.len());
}

#[test]
fn an_unsupported_host_is_reported() {
    let report = doctor_report(
        &ToolDoctorConfig::default(),
        &Err("no backend".to_owned()),
        &None,
        &Vec::new(),
        &Vec::new(),
    );
    assert!(report.contains("  cranelift: unsupported (no backend)\n"));
    assert!(!report.contains("jit: ok"));
    assert!(report.ends_with("\nTargets:\n"));
}

#[test]
fn target_lines_are_padded_into_columns() {
    let targets = known_targets();
    let native = targets.iter().find(|t| t.name == "native").expect("native preset");
    assert_eq!(
        target_line(native, &Ok(()), true),
        "  native       host default             hosted        default: exe  codegen: ok       exe: ok\n"
    );
    assert_eq!(
        target_line(native, &Ok(()), false),
        "  native       host default             hosted        default: exe  codegen: ok       exe: needs a linker\n"
    );
    let line = target_line(native, &Err("bad".to_owned()), true);
    assert!(line.ends_with("codegen: unsupported (bad) exe: n/a\n"), "{line}");
}

#[test]
fn executable_column_follows_the_probes() {
    assert_eq!(executable_status(true, true, true), "n/a (freestanding)");
    assert_eq!(executable_status(false, false, true), "n/a");
    assert_eq!(executable_status(false, true, true), "ok");
    assert_eq!(executable_status(false, true, false), "needs a linker");
    assert_eq!(codegen_status(&Ok(())), "ok");
    assert_eq!(codegen_status(&Err("x".to_owned())), "unsupported (x)");
}

#[test]
fn linker_lines() {
    assert_eq!(linker_line(&Some("/usr/bin/cc".to_owned()), &None), "  linker: ok (/usr/bin/cc)\n");
    assert_eq!(
        linker_line(&None, &Some("ld.lld".to_owned())),
        "  linker: missing (`ld.lld` was not found; only --emit exe needs it)\n"
    );
}
