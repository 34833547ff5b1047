use dm_core::api::{node_not_in_registry, node_uninstalled, ApiError};
use dm_core::env::{env_item, python_commands, python_item, rust_item, uv_item};
use dm_core::runtime::{
    active_binary_path, binary_missing_message, check_removal, down_started, down_step,
    not_installed_message, up_step, Wait, DOWN_ATTEMPTS, UP_ATTEMPTS,
};
use dm_core::types::{
    doctor_report, idle_status, mark_available, mark_installed, runtime_health, setup_report,
    versions_report, EnvItem,
};

#[test]
fn active_binary_lies_below_versions() {
    assert_eq!(
        active_binary_path("/home/.dm", &Some("0.4.1".to_string())),
        Ok("/home/.dm/versions/0.4.1/dora".to_string())
    );
    assert_eq!(
        active_binary_path("/home/.dm", &None),
        Err("No active dora version. Run `dm install` first.".to_string())
    );
    assert_eq!(
        binary_missing_message("/h/versions/1/dora", "1"),
        "dora binary not found at /h/versions/1/dora. Run `dm install 1` to fix."
    );
}

#[test]
fn removal_is_refused_for_missing_and_active_versions() {
    assert_eq!(check_removal("0.4.1", false, &None), Some("Version 0.4.1 is not installed.".to_string()));
    assert_eq!(
        check_removal("0.4.1", false, &Some("0.4.1".to_string())),
        Some("Version 0.4.1 is not installed.".to_string())
    );
    assert_eq!(
        check_removal("0.4.1", true, &Some("0.4.1".to_string())),
        Some("Cannot uninstall active version 0.4.1. Run `dm use <other>` first.".to_string())
    );
    assert_eq!(check_removal("0.4.1", true, &Some("0.3.9".to_string())), None);
    assert_eq!(check_removal("0.4.1", true, &None), None);
    assert_eq!(
        not_installed_message("0.4.1"),
        "Version 0.4.1 is not installed. Run `dm install 0.4.1` first."
    );
}

fn done(next: Wait) -> (bool, String) {
    match next {
        Wait::Done(result) => (result.success, result.message),
        Wait::Again => panic!("the wait is not over"),
    }
}

#[test]
fn waiting_for_the_runtime_to_come_up() {
    assert_eq!(UP_ATTEMPTS, 10);
    assert!(matches!(up_step(1, None, false), Wait::Again));
    assert!(matches!(up_step(9, None, false), Wait::Again));
    assert_eq!(done(up_step(10, None, false)), (false, "Timed out waiting for dora runtime to start.".to_string()));
    assert_eq!(done(up_step(3, None, true)), (true, "Dora runtime started successfully.".to_string()));
    assert_eq!(done(up_step(1, Some("  port in use\n".to_string()), false)), (false, "port in use".to_string()));
    assert_eq!(done(up_step(1, Some("x".to_string()), true)), (false, "x".to_string()));
}

#[test]
fn waiting_for_the_runtime_to_go_down() {
    assert_eq!(DOWN_ATTEMPTS, 3);
    assert!(down_started(0, "ignored").is_none());
    let failed = down_started(2, " no daemon \n").unwrap();
    assert!(!failed.success);
    assert_eq!(failed.message, "no daemon");
    assert!(matches!(down_step(1, true, "out"), Wait::Again));
    assert!(matches!(down_step(2, true, "out"), Wait::Again));
    assert_eq!(
        done(down_step(3, true, "out")),
        (false, "dora destroy returned success but runtime is still running.".to_string())
    );
    assert_eq!(done(down_step(1, false, " destroyed \n")), (true, "destroyed".to_string()));
}

fn item(found: bool) -> EnvItem {
    env_item("x", if found { Some(("/bin/x".to_string(), "1".to_string())) } else { None }, "install x")
}

#[test]
fn doctor_is_happy_only_when_everything_is_there() {
    for python in [false, true] {
        for uv in [false, true] {
            for active in [false, true] {
                for binary in [false, true] {
                    let report = doctor_report(
                        item(python),
                        item(uv),
                        item(false),
                        vec![],
                        if active { Some("0.4.1".to_string()) } else { None },
                        binary,
                    );
                    assert_eq!(report.all_ok, python && uv && active && binary);
                    assert_eq!(report.python.found, python);
                    assert_eq!(report.uv.found, uv);
                    assert_eq!(report.active_binary_ok, binary);
                    assert_eq!(report.active_version.is_some(), active);
                }
            }
        }
    }
}

#[test]
fn versions_are_marked() {
    let names = vec!["0.3.9".to_string(), "0.4.1".to_string()];
    let installed = mark_installed(&names, &Some("0.4.1".to_string()));
    let marks: Vec<(String, bool)> = installed.into_iter().map(|v| (v.version, v.active)).collect();
    assert_eq!(marks, vec![("0.3.9".to_string(), false), ("0.4.1".to_string(), true)]);
    assert!(mark_installed(&names, &None).iter().all(|v| !v.active));
    let tags = vec!["0.4.1".to_string(), "0.4.0".to_string()];
    let available = mark_available(&tags, &names);
    let marks: Vec<(String, bool)> = available.into_iter().map(|v| (v.tag, v.installed)).collect();
    assert_eq!(marks, vec![("0.4.1".to_string(), true), ("0.4.0".to_string(), false)]);
    let report = versions_report(&names, &Some("0.3.9".to_string()), &tags);
    assert_eq!(report.installed.len(), 2);
    assert!(report.installed[0].active && !report.installed[1].active);
    assert_eq!(report.available.len(), 2);
    assert!(report.available[0].installed && !report.available[1].installed);
}

#[test]
fn status_pieces() {
    let idle = idle_status("/home/.dm".to_string());
    assert_eq!(idle.dm_home, "/home/.dm");
    assert!(idle.active_version.is_none() && idle.actual_version.is_none());
    assert!(!idle.runtime_running);
    assert!(idle.runtime_output.is_empty() && idle.dataflows.is_empty());
    assert_eq!(runtime_health(0, " ok \n", "err"), (true, "ok".to_string()));
    assert_eq!(runtime_health(1, "ok", " err \n"), (false, "err".to_string()));
}

#[test]
fn setup_reports_what_is_installed() {
    let kept = setup_report(true, false, Some("0.4.0".to_string()), Some("0.4.1".to_string()));
    assert!(kept.python_installed && !kept.uv_installed && kept.dora_installed);
    assert_eq!(kept.dora_version, Some("0.4.0".to_string()));
    let fresh = setup_report(true, true, None, Some("0.4.1".to_string()));
    assert!(fresh.dora_installed);
    assert_eq!(fresh.dora_version, Some("0.4.1".to_string()));
    let none = setup_report(false, false, None, None);
    assert!(!none.dora_installed);
    assert_eq!(none.dora_version, None);
}

#[test]
fn env_items() {
    assert_eq!(python_commands(), vec!["python3.11", "python3", "python"]);
    let found = python_item(Some(("/usr/bin/python3".to_string(), "Python 3.12.0".to_string())));
    assert_eq!(found.name, "Python");
    assert!(found.found);
    assert_eq!(found.path, Some("/usr/bin/python3".to_string()));
    assert_eq!(found.version, Some("Python 3.12.0".to_string()));
    assert_eq!(found.suggestion, None);
    let python = python_item(None);
    assert!(!python.found && python.path.is_none() && python.version.is_none());
    assert_eq!(python.suggestion, Some("Install Python 3.11+: https://www.python.org/downloads/".to_string()));
    assert_eq!(uv_item(None).name, "uv");
    assert_eq!(uv_item(None).suggestion, Some("Install uv: pip install uv".to_string()));
    assert_eq!(rust_item(None).name, "Rust");
    assert_eq!(rust_item(None).suggestion, Some("Optional. Install: https://rustup.rs".to_string()));
}

#[test]
fn api_errors_carry_their_status() {
    let (status, body) = ApiError::bad_request("e".to_string(), "d".to_string()).into_parts();
    assert_eq!((status, body.error.as_str(), body.details.as_str()), (400, "e", "d"));
    assert_eq!(ApiError::not_found("e".to_string(), "d".to_string()).status, 404);
    assert_eq!(ApiError::internal("e".to_string(), "d".to_string()).status, 500);
    assert_eq!(ApiError::new(418, "e".to_string(), "d".to_string()).status, 418);
    let missing = node_not_in_registry("Failed to install node", "ghost");
    assert_eq!(missing.status, 404);
    assert_eq!(missing.error, "Failed to install node");
    assert_eq!(missing.details, "Node 'ghost' not found in registry");
    assert_eq!(node_uninstalled("yolo").message, "Uninstalled node 'yolo'");
}
