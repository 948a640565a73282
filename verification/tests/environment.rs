use std::collections::HashMap;

use sleepy_launcher::background::get_uri;
use sleepy_launcher::dlss::{
    canonical_nvidia_wine_dll_dir, is_nvidia_wine_dll_dir, ldconfig_nvidia_glx_libraries,
    ldconfig_programs, nvidia_wine_dlls, nvidia_wine_subdir, standard_nvidia_wine_dll_dirs,
    uses_spritz,
};
use sleepy_launcher::environment::{configure_dlss_environment, Environment};

fn env_of(pairs: &[(&str, &str)]) -> Environment {
    Environment::from_pairs(pairs.iter().map(|(k, v)| (k.to_string(), v.to_string())).collect())
}

fn as_map(env: Environment) -> HashMap<String, String> {
    env.into_pairs().into_iter().collect()
}

#[test]
fn environment_get_set() {
    let mut env = Environment::new();
    assert_eq!(env.get("A"), None);
    env.set("A", "1".to_string());
    env.set("B", "2".to_string());
    env.set("A", "3".to_string());
    assert_eq!(env.get("A"), Some("3"));
    env.set_default("A", "9".to_string());
    env.set_default("C", "4".to_string());
    assert_eq!(env.get("A"), Some("3"));
    assert_eq!(env.get("C"), Some("4"));
    let map = as_map(env);
    assert_eq!(map.len(), 3);
    assert_eq!(map["A"], "3");
}

#[test]
fn dlss_needs_dx12() {
    let mut env = env_of(&[("X", "1")]);
    assert!(!configure_dlss_environment(&mut env, false, Some("/nv".to_string()), None, None));
    let map = as_map(env);
    assert_eq!(map.len(), 1);
}

#[test]
fn dlss_defaults_and_overrides() {
    let mut env = env_of(&[("DXVK_ENABLE_NVAPI", "0"), ("WINEDLLOVERRIDES", "d3d12=n;nvcuda=d")]);
    let changed = configure_dlss_environment(
        &mut env,
        true,
        Some("/usr/lib/nvidia/wine".to_string()),
        Some("runner=n".to_string()),
        None,
    );
    assert!(changed);
    let map = as_map(env);
    assert_eq!(map["DXVK_ENABLE_NVAPI"], "0");
    assert_eq!(map["WINE_DISABLE_HARDWARE_SCHEDULING"], "0");
    assert_eq!(map["NVIDIA_WINE_DLL_DIR"], "/usr/lib/nvidia/wine");
    assert_eq!(
        map["WINEDLLOVERRIDES"],
        "d3d12=n;nvcuda=b;msasn1=n,b;wintrust=b;crypt32=b"
    );
}

#[test]
fn dlss_override_base_order() {
    let mut env = Environment::new();
    configure_dlss_environment(&mut env, true, None, Some("runner=n".to_string()), Some("proc=n".to_string()));
    assert_eq!(env.get("WINEDLLOVERRIDES"), Some("runner=n;nvcuda=b;msasn1=n,b;wintrust=b;crypt32=b"));
    assert_eq!(env.get("DXVK_ENABLE_NVAPI"), Some("1"));
    assert_eq!(env.get("NVIDIA_WINE_DLL_DIR"), None);
    let mut env = Environment::new();
    configure_dlss_environment(&mut env, true, None, None, Some("proc=n".to_string()));
    assert_eq!(env.get("WINEDLLOVERRIDES"), Some("proc=n;nvcuda=b;msasn1=n,b;wintrust=b;crypt32=b"));
    let mut env = Environment::new();
    configure_dlss_environment(&mut env, true, None, None, None);
    assert_eq!(env.get("WINEDLLOVERRIDES"), Some("nvcuda=b;msasn1=n,b;wintrust=b;crypt32=b"));
}

#[test]
fn configuring_twice_changes_nothing() {
    let mut env = env_of(&[("WINEDLLOVERRIDES", "*crypt32.dll=n; ;MSASN1=b;x=y")]);
    assert!(configure_dlss_environment(&mut env, true, Some("/nv".to_string()), None, None));
    let first = env.get("WINEDLLOVERRIDES").map(|s| s.to_string());
    assert!(!configure_dlss_environment(&mut env, true, Some("/nv".to_string()), None, None));
    assert_eq!(env.get("WINEDLLOVERRIDES").map(|s| s.to_string()), first);
    assert_eq!(first.as_deref(), Some("crypt32=b;msasn1=n,b;x=y;nvcuda=b;wintrust=b"));
}

#[test]
fn nvidia_dir_rules() {
    assert_eq!(nvidia_wine_dlls(), vec!["nvngx.dll", "_nvngx.dll"]);
    assert!(is_nvidia_wine_dll_dir(&[false, true]));
    assert!(!is_nvidia_wine_dll_dir(&[false, false]));
    assert!(!is_nvidia_wine_dll_dir(&[]));
    assert_eq!(canonical_nvidia_wine_dll_dir("a", &[true, false], Some("/real/a")), Some("/real/a"));
    assert_eq!(canonical_nvidia_wine_dll_dir("a", &[true, false], None), Some("a"));
    assert_eq!(canonical_nvidia_wine_dll_dir("a", &[false, false], Some("/real/a")), None);
    assert_eq!(standard_nvidia_wine_dll_dirs()[2], "/usr/lib/x86_64-linux-gnu/nvidia/wine");
    assert_eq!(ldconfig_programs(), vec!["ldconfig", "/sbin/ldconfig", "/usr/sbin/ldconfig"]);
    assert_eq!(nvidia_wine_subdir(), "nvidia/wine");
}

#[test]
fn ldconfig_output_parsing() {
    let output = "1234 libs found in cache `/etc/ld.so.cache'\n\
        \tlibGLX_nvidia.so.0 (libc6,x86-64) => /usr/lib/libGLX_nvidia.so.0\r\n\
        \tlibGLX_mesa.so.0 (libc6,x86-64) => /usr/lib/libGLX_mesa.so.0\n\
        \tlibGLX_nvidia.so.0 (libc6) => /usr/lib32/libGLX_nvidia.so.0 => extra\n\
        \tlibGLX_nvidia.so.0 without arrow\n\
        \tlibGLX_nvidia.so.0 (libc6) =>    ";
    assert_eq!(
        ldconfig_nvidia_glx_libraries(output),
        vec!["/usr/lib/libGLX_nvidia.so.0", "/usr/lib32/libGLX_nvidia.so.0", ""]
    );
    assert_eq!(ldconfig_nvidia_glx_libraries(""), Vec::<&str>::new());
}

#[test]
fn spritz_runner_detection() {
    assert!(uses_spritz(Some("Spritz-Wine-TkG-9.0")));
    assert!(uses_spritz(Some("wine-SPRITZ")));
    assert!(!uses_spritz(Some("wine-ge-proton")));
    assert!(!uses_spritz(Some("sprit")));
    assert!(!uses_spritz(None));
}

#[test]
fn api_uri_by_language() {
    assert_eq!(
        get_uri("zh", "zh-cn"),
        "https://hyp-api.mihoyo.com/hyp/hyp-connect/api/getAllGameBasicInfo?launcher_id=jGHBHlcOq1"
    );
    assert_eq!(
        get_uri("en", "en-us"),
        "https://sg-hyp-api.hoyoverse.com/hyp/hyp-connect/api/getAllGameBasicInfo?launcher_id=VYTpXlbWo8&language=en-us"
    );
}
