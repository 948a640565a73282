use sleepy_launcher::wine_overrides::{
    entry_configures, override_dll_name, override_entry_list, set_wine_dll_override,
    str_eq_ignore_ascii_case,
};

#[test]
fn dll_name_of_entries() {
    assert_eq!(override_dll_name("nvcuda=b"), Some("nvcuda"));
    assert_eq!(override_dll_name("  *MSASN1.DLL =n,b"), Some("MSASN1"));
    assert_eq!(override_dll_name("**d3d12.Dll=n"), Some("d3d12"));
    assert_eq!(override_dll_name("dxgi"), None);
    assert_eq!(override_dll_name("=b"), Some(""));
    assert_eq!(override_dll_name(".dll=b"), Some(""));
    assert_eq!(override_dll_name("dll=b"), Some("dll"));
    assert_eq!(override_dll_name("a=b=c"), Some("a"));
    assert_eq!(override_dll_name("\u{3000}kernel32\t=b"), Some("kernel32"));
}

#[test]
fn entries_are_trimmed_and_non_blank() {
    assert_eq!(override_entry_list(" a=b ; ;c=d;;"), vec!["a=b", "c=d"]);
    assert_eq!(override_entry_list(""), Vec::<&str>::new());
    assert_eq!(override_entry_list("single"), vec!["single"]);
}

#[test]
fn ascii_case_comparison() {
    assert!(str_eq_ignore_ascii_case("NvCuDa", "nvcuda"));
    assert!(!str_eq_ignore_ascii_case("nvcud", "nvcuda"));
    assert!(!str_eq_ignore_ascii_case("ÄB", "äb"));
    assert!(entry_configures("*NVCUDA.dll=n", "nvcuda"));
    assert!(!entry_configures("nvcuda", "nvcuda"));
    assert!(!entry_configures("nvcuda64=n", "nvcuda"));
}

#[test]
fn override_without_existing_value() {
    assert_eq!(set_wine_dll_override(None, "nvcuda", "b"), "nvcuda=b");
    assert_eq!(set_wine_dll_override(Some(""), "nvcuda", "b"), "nvcuda=b");
    assert_eq!(set_wine_dll_override(Some(" ; ;"), "nvcuda", "b"), "nvcuda=b");
}

#[test]
fn override_keeps_position_of_first_match() {
    assert_eq!(
        set_wine_dll_override(Some("a=n; nvcuda=n ;b=n;NvCuda.dll=b;c=b"), "nvcuda", "b"),
        "a=n;nvcuda=b;b=n;c=b"
    );
    assert_eq!(set_wine_dll_override(Some("noequals;x=y"), "noequals", "b"), "noequals;x=y;noequals=b");
}

#[test]
fn setting_an_override_twice_is_setting_it_once() {
    let inputs = [
        None,
        Some("d3d12=n;dxgi=n,b"),
        Some("NVCUDA=disabled;d3d12=n;nvcuda.dll=n"),
        Some(" ;*nvcuda=n; x ;nvcuda=b"),
    ];
    for input in inputs {
        let once = set_wine_dll_override(input, "nvcuda", "b");
        let twice = set_wine_dll_override(Some(&once), "nvcuda", "b");
        assert_eq!(once, twice);
    }
}

#[test]
fn idempotence_with_untrimmed_mode_and_its_limit() {
    let once = set_wine_dll_override(Some("a=b;nvcuda=n"), "nvcuda", "b ");
    assert_eq!(once, "a=b;nvcuda=b ");
    assert_eq!(set_wine_dll_override(Some(&once), "nvcuda", "b "), once);
    // A mode holding `;` splits into two entries when read back.
    let once = set_wine_dll_override(None, "d", "a;b");
    assert_eq!(once, "d=a;b");
    assert_eq!(set_wine_dll_override(Some(&once), "d", "a;b"), "d=a;b;b");
}
