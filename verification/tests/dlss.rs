use sleepy_launcher::dlss::is_native_windows_dll_contents;
use sleepy_launcher::wine_overrides::set_wine_dll_override;

#[test]
fn appends_override_without_losing_existing_values() {
    assert_eq!(
        set_wine_dll_override(Some("d3d12=n;dxgi=n,b"), "nvcuda", "b"),
        "d3d12=n;dxgi=n,b;nvcuda=b"
    );
}

#[test]
fn replaces_disabled_override_and_removes_duplicates() {
    assert_eq!(
        set_wine_dll_override(Some("NVCUDA=disabled;d3d12=n;nvcuda.dll=n"), "nvcuda", "b"),
        "nvcuda=b;d3d12=n"
    );
}

#[test]
fn recognizes_wildcard_dll_names() {
    assert_eq!(
        set_wine_dll_override(Some("*MSASN1.DLL=b;dxgi=n"), "msasn1", "n,b"),
        "msasn1=n,b;dxgi=n"
    );
}

#[test]
fn distinguishes_wine_builtin_marker() {
    assert!(is_native_windows_dll_contents(b"MZ\x00\x00native windows dll"));
    assert!(!is_native_windows_dll_contents(b"MZ\x00Wine builtin DLL\x00"));
    assert!(!is_native_windows_dll_contents(b"not a PE file"));
}
