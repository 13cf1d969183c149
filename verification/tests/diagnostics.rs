use masterdata_core::diagnostics::{tool_status, ProbeOutcome};

#[test]
fn successful_probe_reports_trimmed_version() {
    let status = tool_status("rustc", "rustc", ProbeOutcome::Succeeded { stdout: "rustc 1.80.0\n".into() });
    assert!(status.available);
    assert_eq!(status.version.as_deref(), Some("rustc 1.80.0"));
    assert_eq!(status.detail, "rustc 1.80.0");
    assert_eq!(status.name, "rustc");

    let silent = tool_status("npm", "npm", ProbeOutcome::Succeeded { stdout: "  \n".into() });
    assert!(silent.available);
    assert_eq!(silent.version, None);
    assert_eq!(silent.detail, "");
}

#[test]
fn failed_or_missing_tools_are_unavailable() {
    let failed = tool_status("dotnet", "dotnet", ProbeOutcome::Failed { stderr: " no sdk \n".into() });
    assert!(!failed.available);
    assert_eq!(failed.version, None);
    assert_eq!(failed.detail, "no sdk");

    let missing = tool_status("node", "node", ProbeOutcome::NotStarted { error: "not found".into() });
    assert!(!missing.available);
    assert_eq!(missing.detail, "not found");
}
