use sleepy_launcher::nvidia_search::{
    nvidia_dir_search_step, DirSearchAction, DirSearchEvent, DirSearchState,
};

/// Drives the search against a fake machine: `dirs` hold DLLs, `ldconfig`
/// maps programs to their output. Returns the actions taken and the outcome.
fn drive(
    configured: Option<&str>,
    env_dir: Option<&str>,
    dirs: &[&str],
    ldconfig: &[(&str, &str)],
) -> (Vec<DirSearchAction>, DirSearchAction) {
    let mut state = DirSearchState::Idle;
    let mut event = DirSearchEvent::Start {
        configured: configured.map(str::to_string),
        env_dir: env_dir.map(str::to_string),
    };
    let mut taken = Vec::new();
    for _ in 0..100 {
        let (next, action) = nvidia_dir_search_step(state, event);
        state = next;
        event = match &action {
            DirSearchAction::CheckDir(path) => {
                let has = dirs.contains(&path.as_str());
                DirSearchEvent::Probed {
                    dll_present: vec![false, has],
                    canonical: if has { Some(format!("{path}/.")) } else { None },
                }
            }
            DirSearchAction::RunLdconfig(program) => DirSearchEvent::LdconfigRan {
                output: ldconfig.iter().find(|(p, _)| p == program).map(|(_, o)| o.to_string()),
            },
            DirSearchAction::LocateLibrary(library) => DirSearchEvent::LibraryLocated {
                dir: library.rsplit_once('/').map(|(d, _)| d.to_string()),
            },
            _ => return (taken, action),
        };
        taken.push(action);
    }
    panic!("search did not end");
}

fn check(p: &str) -> DirSearchAction {
    DirSearchAction::CheckDir(p.to_string())
}

#[test]
fn configured_directory_is_kept() {
    let (taken, end) = drive(Some("/cfg"), Some("/env"), &["/cfg"], &[]);
    assert_eq!(taken, vec![check("/cfg")]);
    assert_eq!(end, DirSearchAction::KeepConfigured);
}

#[test]
fn environment_then_standard_directories() {
    let (taken, end) = drive(Some("/cfg"), Some("/env"), &["/usr/lib64/nvidia/wine"], &[]);
    assert_eq!(
        taken,
        vec![check("/cfg"), check("/env"), check("/usr/lib/nvidia/wine"), check("/usr/lib64/nvidia/wine")]
    );
    assert_eq!(end, DirSearchAction::Found("/usr/lib64/nvidia/wine/.".to_string()));
    let (_, end) = drive(None, Some("/env"), &["/env"], &[]);
    assert_eq!(end, DirSearchAction::Found("/env/.".to_string()));
}

#[test]
fn ldconfig_only_after_standard_directories() {
    let output = "\tlibGLX_nvidia.so.0 (libc6) => /opt/a/libGLX_nvidia.so.0\n\
                  \tlibGLX_nvidia.so.0 (libc6,x86-64) => /opt/b/libGLX_nvidia.so.0\n";
    let (taken, end) = drive(None, None, &["/opt/b/nvidia/wine"], &[("/sbin/ldconfig", output)]);
    assert_eq!(
        taken,
        vec![
            check("/usr/lib/nvidia/wine"),
            check("/usr/lib64/nvidia/wine"),
            check("/usr/lib/x86_64-linux-gnu/nvidia/wine"),
            DirSearchAction::RunLdconfig("ldconfig".to_string()),
            DirSearchAction::RunLdconfig("/sbin/ldconfig".to_string()),
            DirSearchAction::LocateLibrary("/opt/a/libGLX_nvidia.so.0".to_string()),
            check("/opt/a/nvidia/wine"),
            DirSearchAction::LocateLibrary("/opt/b/libGLX_nvidia.so.0".to_string()),
            check("/opt/b/nvidia/wine"),
        ]
    );
    assert_eq!(end, DirSearchAction::Found("/opt/b/nvidia/wine/.".to_string()));
}

#[test]
fn search_fails_after_last_program() {
    let (taken, end) = drive(None, None, &[], &[]);
    assert_eq!(taken.len(), 6);
    assert_eq!(taken[5], DirSearchAction::RunLdconfig("/usr/sbin/ldconfig".to_string()));
    assert_eq!(end, DirSearchAction::NotFound);
}

#[test]
fn library_without_directory_and_root_directory() {
    let output = "libGLX_nvidia.so.0 => libGLX_nvidia.so.0\nlibGLX_nvidia.so.0 => /libGLX_nvidia.so.0\n";
    let (taken, end) = drive(None, None, &[], &[("ldconfig", output)]);
    assert!(taken.contains(&DirSearchAction::LocateLibrary("libGLX_nvidia.so.0".to_string())));
    assert!(taken.contains(&check("nvidia/wine")));
    assert_eq!(end, DirSearchAction::NotFound);
}

#[test]
fn unexpected_event_ends_search() {
    let (state, action) = nvidia_dir_search_step(
        DirSearchState::Idle,
        DirSearchEvent::LdconfigRan { output: None },
    );
    assert!(matches!(state, DirSearchState::Finished));
    assert_eq!(action, DirSearchAction::NotFound);
}
