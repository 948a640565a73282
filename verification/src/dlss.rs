//! The rules by which the launcher prepares Wine for DLSS: where NVIDIA's
//! Wine DLLs are, which runner needs a native `msasn1.dll`, and what a native
//! Windows DLL looks like.
use vstd::prelude::*;

use crate::text::{
    ascii_lower, ascii_lower_code, chars_of, contains_seq, find_seq, index_of, split, starts_with,
    trim, trim_range,
};

verus! {

/// The NVIDIA driver's Wine DLLs, either of which marks the driver's Wine DLL
/// directory.
pub fn nvidia_wine_dlls() -> (r: Vec<&'static str>)
    ensures
        r@.len() == 2,
        r@[0]@ == "nvngx.dll"@,
        r@[1]@ == "_nvngx.dll"@,
{
    vec!["nvngx.dll", "_nvngx.dll"]
}

/// The directories where distributions install the NVIDIA driver's Wine
/// DLLs, in the order they are tried after `NVIDIA_WINE_DLL_DIR`.
pub fn standard_nvidia_wine_dll_dirs() -> (r: Vec<&'static str>)
    ensures
        r@.len() == 3,
        r@[0]@ == "/usr/lib/nvidia/wine"@,
        r@[1]@ == "/usr/lib64/nvidia/wine"@,
        r@[2]@ == "/usr/lib/x86_64-linux-gnu/nvidia/wine"@,
{
    vec!["/usr/lib/nvidia/wine", "/usr/lib64/nvidia/wine", "/usr/lib/x86_64-linux-gnu/nvidia/wine"]
}

/// The `ldconfig` programs asked, in order, for NVIDIA's GLX library when no
/// standard directory holds the DLLs.
pub fn ldconfig_programs() -> (r: Vec<&'static str>)
    ensures
        r@.len() == 3,
        r@[0]@ == "ldconfig"@,
        r@[1]@ == "/sbin/ldconfig"@,
        r@[2]@ == "/usr/sbin/ldconfig"@,
{
    vec!["ldconfig", "/sbin/ldconfig", "/usr/sbin/ldconfig"]
}

/// Where the NVIDIA driver's Wine DLLs lie relative to the directory of its
/// GLX library.
pub fn nvidia_wine_subdir() -> (r: &'static str)
    ensures
        r@ == "nvidia/wine"@,
{
    "nvidia/wine"
}

/// Whether a directory is the NVIDIA driver's Wine DLL directory, given
/// whether each DLL of `nvidia_wine_dlls` is a regular file in it: it is
/// where any of them is.
pub fn is_nvidia_wine_dll_dir(dll_present: &[bool]) -> (r: bool)
    ensures
        r == exists|i: int| 0 <= i < dll_present@.len() && #[trigger] dll_present@[i],
{
    let mut i: usize = 0;
    while i < dll_present.len()
        invariant
            i <= dll_present@.len(),
            forall|j: int| 0 <= j < i ==> !#[trigger] dll_present@[j],
        decreases dll_present@.len() - i,
    {
        if dll_present[i] {
            return true;
        }
        i = i + 1;
    }
    false
}

/// The directory to use as NVIDIA's Wine DLL directory, given the directory
/// `path`, whether each DLL of `nvidia_wine_dlls` is a regular file in it, and
/// its canonical form where that could be had: none where it holds none of the
/// DLLs, else its canonical form, else `path` itself.
pub fn canonical_nvidia_wine_dll_dir<P>(path: P, dll_present: &[bool], canonical: Option<P>) -> (r:
    Option<P>)
    ensures
        r == if exists|i: int| 0 <= i < dll_present@.len() && #[trigger] dll_present@[i] {
            Some(
                match canonical {
                    Some(c) => c,
                    None => path,
                },
            )
        } else {
            None
        },
{
    if !is_nvidia_wine_dll_dir(dll_present) {
        return None;
    }
    match canonical {
        Some(c) => Some(c),
        None => Some(path),
    }
}

/// The bytes `MZ` that begin every PE file.
pub open spec fn pe_magic() -> Seq<u8> {
    seq![0x4du8, 0x5au8]
}

/// The text `Wine builtin DLL` that Wine writes into its own builtin DLLs.
pub open spec fn wine_builtin_marker() -> Seq<u8> {
    seq![
        0x57u8, 0x69u8, 0x6eu8, 0x65u8, 0x20u8, 0x62u8, 0x75u8, 0x69u8,
        0x6cu8, 0x74u8, 0x69u8, 0x6eu8, 0x20u8, 0x44u8, 0x4cu8, 0x4cu8,
    ]
}

/// A native Windows DLL: a PE file that does not carry Wine's builtin marker.
pub open spec fn is_native_windows_dll_bytes(contents: Seq<u8>) -> bool {
    starts_with(contents, pe_magic()) && !contains_seq(contents, wine_builtin_marker())
}

/// Whether the file contents `contents` are a native Windows DLL, as
/// `is_native_windows_dll_bytes` states.
pub fn is_native_windows_dll_contents(contents: &[u8]) -> (r: bool)
    ensures
        r == is_native_windows_dll_bytes(contents@),
{
    let marker: [u8; 16] = [
        0x57, 0x69, 0x6e, 0x65, 0x20, 0x62, 0x75, 0x69, 0x6c, 0x74, 0x69, 0x6e, 0x20, 0x44, 0x4c,
        0x4c,
    ];
    assert(marker@ =~= wine_builtin_marker());
    let n = contents.len();
    if n < 2 || contents[0] != 0x4d || contents[1] != 0x5a {
        proof {
            if n >= 2 {
                assert(contents@.take(2)[0] == contents@[0]);
                assert(contents@.take(2)[1] == contents@[1]);
            }
        }
        return false;
    }
    assert(contents@.take(2) =~= pe_magic());
    if n < 16 {
        return true;
    }
    let mut i: usize = 0;
    while i <= n - 16
        invariant
            n == contents@.len(),
            n >= 16,
            i <= n - 15,
            marker@ == wine_builtin_marker(),
            forall|k: int| 0 <= k < i ==> #[trigger] contents@.subrange(k, k + 16) != marker@,
        decreases n - i,
    {
        let mut j: usize = 0;
        while j < 16 && contents[i + j] == marker[j]
            invariant
                i + 16 <= n == contents@.len(),
                j <= 16,
                forall|m: int| 0 <= m < j ==> contents@[i + m] == marker@[m],
            decreases 16 - j,
        {
            j = j + 1;
        }
        if j == 16 {
            assert(contents@.subrange(i as int, i + 16) =~= marker@);
            return false;
        }
        assert(contents@.subrange(i as int, i + 16)[j as int] != marker@[j as int]);
        i = i + 1;
    }
    true
}

/// `spritz` as lower-case code points.
pub open spec fn spritz() -> Seq<u32> {
    seq![0x73u32, 0x70u32, 0x72u32, 0x69u32, 0x74u32, 0x7au32]
}

/// The code points of `s` with ASCII letters folded to lower case.
pub open spec fn ascii_lowered(s: Seq<char>) -> Seq<u32> {
    s.map_values(|c: char| ascii_lower(c))
}

/// The Wine runner's name names a Spritz build, in any ASCII case.
pub open spec fn is_spritz_name(runner: Seq<char>) -> bool {
    contains_seq(ascii_lowered(runner), spritz())
}

/// Whether the selected Wine runner is a Spritz build, as `is_spritz_name`
/// states; none is not.
pub fn uses_spritz(runner: Option<&str>) -> (r: bool)
    ensures
        r == match runner {
            Some(name) => is_spritz_name(name@),
            None => false,
        },
{
    let name = match runner {
        Some(name) => name,
        None => return false,
    };
    let v = chars_of(name);
    let n = v.len();
    let pattern: [u32; 6] = [0x73, 0x70, 0x72, 0x69, 0x74, 0x7a];
    let ghost lower = ascii_lowered(name@);
    assert(pattern@ =~= spritz());
    if n < 6 {
        return false;
    }
    let mut i: usize = 0;
    while i <= n - 6
        invariant
            n == v@.len(),
            v@ == name@,
            runner == Some(name),
            lower == ascii_lowered(name@),
            n >= 6,
            i <= n - 5,
            pattern@ == spritz(),
            forall|k: int| 0 <= k < i ==> #[trigger] lower.subrange(k, k + 6) != pattern@,
        decreases n - i,
    {
        let mut j: usize = 0;
        while j < 6 && ascii_lower_code(v[i + j]) == pattern[j]
            invariant
                i + 6 <= n == v@.len(),
                v@ == name@,
                lower == ascii_lowered(name@),
                j <= 6,
                forall|m: int| 0 <= m < j ==> lower[i + m] == pattern@[m],
            decreases 6 - j,
        {
            j = j + 1;
        }
        if j == 6 {
            assert(lower.subrange(i as int, i + 6) =~= pattern@);
            assert(lower.subrange(i as int, i + spritz().len()) == spritz());
            return true;
        }
        assert(lower.subrange(i as int, i + 6)[j as int] != pattern@[j as int]);
        i = i + 1;
    }
    false
}

/// The separator `=>` between a library and its path in `ldconfig -p` output.
pub open spec fn arrow() -> Seq<char> {
    seq!['=', '>']
}

/// The path that a line of `ldconfig -p` output gives for NVIDIA's GLX
/// library: for a line that mentions `libGLX_nvidia.so.0` and holds `=>`, the
/// text after the first `=>` (up to a further `=>`, if any), trimmed.
pub open spec fn ldconfig_library(line: Seq<char>) -> Option<Seq<char>> {
    if !contains_seq(line, "libGLX_nvidia.so.0"@) {
        None
    } else {
        match index_of(line, arrow()) {
            None => None,
            Some(i) => {
                let rest = line.skip(i + 2);
                Some(
                    trim(
                        match index_of(rest, arrow()) {
                            Some(j) => rest.take(j),
                            None => rest,
                        },
                    ),
                )
            },
        }
    }
}

/// The paths that the lines give, in order.
pub open spec fn libraries_of_lines(lines: Seq<Seq<char>>) -> Seq<Seq<char>> {
    lines.filter_map(|line: Seq<char>| ldconfig_library(line))
}

/// The paths of NVIDIA's GLX library that `ldconfig -p` output lists, in
/// order, one per line that gives one (see `ldconfig_library`).
pub open spec fn nvidia_glx_libraries(output: Seq<char>) -> Seq<Seq<char>> {
    libraries_of_lines(split(output, '\n'))
}

/// Adding a line adds the path it gives, if any.
proof fn lemma_libraries_of_lines_push(lines: Seq<Seq<char>>, line: Seq<char>)
    ensures
        libraries_of_lines(lines.push(line)) == libraries_of_lines(lines) + match ldconfig_library(
            line,
        ) {
            Some(path) => seq![path],
            None => Seq::empty(),
        },
{
    assert(lines.push(line).drop_last() =~= lines);
    assert(lines.push(line).last() == line);
    if ldconfig_library(line) is None {
        assert(libraries_of_lines(lines) + Seq::<Seq<char>>::empty() =~= libraries_of_lines(lines));
    }
}

/// The bounds of the path that the line `v[lo..hi]` gives, as
/// `ldconfig_library` states.
fn line_library(v: &Vec<char>, lo: usize, hi: usize, needle: &Vec<char>, sep: &Vec<char>) -> (r:
    Option<(usize, usize)>)
    requires
        lo <= hi <= v@.len(),
        needle@ == "libGLX_nvidia.so.0"@,
        sep@ == arrow(),
    ensures
        match r {
            Some((a, b)) => a <= b <= v@.len() && ldconfig_library(v@.subrange(lo as int, hi as int))
                == Some(v@.subrange(a as int, b as int)),
            None => ldconfig_library(v@.subrange(lo as int, hi as int)) is None,
        },
{
    let ghost line = v@.subrange(lo as int, hi as int);
    if find_seq(v, lo, hi, needle).is_none() {
        return None;
    }
    let i = match find_seq(v, lo, hi, sep) {
        Some(i) => i,
        None => return None,
    };
    let start = i + 2;
    let ghost rest = line.skip(i - lo + 2);
    assert(rest =~= v@.subrange(start as int, hi as int));
    let end = match find_seq(v, start, hi, sep) {
        Some(j) => {
            assert(rest.take(j - start) =~= v@.subrange(start as int, j as int));
            j
        },
        None => hi,
    };
    let (a, b) = trim_range(v, start, end);
    Some((a, b))
}

/// The paths of NVIDIA's GLX library that the `ldconfig -p` output `output`
/// lists, as `nvidia_glx_libraries` states.
pub fn ldconfig_nvidia_glx_libraries(output: &str) -> (r: Vec<&str>)
    ensures
        r@.len() == nvidia_glx_libraries(output@).len(),
        forall|j: int|
            0 <= j < r@.len() ==> #[trigger] r@[j]@ == nvidia_glx_libraries(output@)[j],
{
    let v = chars_of(output);
    let needle = chars_of("libGLX_nvidia.so.0");
    let sep = vec!['=', '>'];
    assert(sep@ =~= arrow());
    let n = v.len();
    let mut r: Vec<&str> = Vec::new();
    let mut start: usize = 0;
    let mut i: usize = 0;
    let ghost mut done: Seq<Seq<char>> = Seq::empty();
    assert(v@.take(0) =~= Seq::<char>::empty());
    assert(v@.subrange(0, 0) =~= Seq::<char>::empty());
    while i < n
        invariant
            v@ == output@,
            n == v@.len(),
            needle@ == "libGLX_nvidia.so.0"@,
            sep@ == arrow(),
            start <= i <= n,
            split(v@.take(i as int), '\n') == done.push(v@.subrange(start as int, i as int)),
            r@.len() == libraries_of_lines(done).len(),
            forall|j: int| 0 <= j < r@.len() ==> #[trigger] r@[j]@ == libraries_of_lines(done)[j],
        decreases n - i,
    {
        let ghost prefix = v@.take(i + 1);
        assert(prefix.drop_last() =~= v@.take(i as int));
        assert(prefix.last() == v@[i as int]);
        if v[i] == '\n' {
            let ghost line = v@.subrange(start as int, i as int);
            proof {
                lemma_libraries_of_lines_push(done, line);
            }
            match line_library(&v, start, i, &needle, &sep) {
                Some((a, b)) => {
                    r.push(output.substring_char(a, b));
                },
                None => {},
            }
            proof {
                done = done.push(line);
                assert(v@.subrange(i + 1, i + 1) =~= Seq::<char>::empty());
            }
            start = i + 1;
        } else {
            assert(v@.subrange(start as int, i + 1) =~= v@.subrange(start as int, i as int).push(
                v@[i as int],
            ));
            assert(done.push(v@.subrange(start as int, i as int)).update(
                done.len() as int,
                v@.subrange(start as int, i + 1),
            ) =~= done.push(v@.subrange(start as int, i + 1)));
        }
        i = i + 1;
    }
    let ghost line = v@.subrange(start as int, n as int);
    proof {
        lemma_libraries_of_lines_push(done, line);
        assert(v@.take(n as int) =~= v@);
    }
    match line_library(&v, start, n, &needle, &sep) {
        Some((a, b)) => {
            r.push(output.substring_char(a, b));
        },
        None => {},
    }
    r
}

/// Law: contents are a native Windows DLL exactly where they begin with the
/// bytes `M`, `Z` and the 16 bytes `Wine builtin DLL` occur at no offset.
pub proof fn law_native_windows_dll_bytes(contents: Seq<u8>)
    ensures
        is_native_windows_dll_bytes(contents) <==> (contents.len() >= 2 && contents[0] == 0x4du8
            && contents[1] == 0x5au8 && forall|k: int|
            0 <= k && k + 16 <= contents.len() ==> #[trigger] contents.subrange(k, k + 16) != seq![
                0x57u8, 0x69u8, 0x6eu8, 0x65u8, 0x20u8, 0x62u8, 0x75u8, 0x69u8,
                0x6cu8, 0x74u8, 0x69u8, 0x6eu8, 0x20u8, 0x44u8, 0x4cu8, 0x4cu8,
            ]),
{
    let marker = seq![
        0x57u8, 0x69u8, 0x6eu8, 0x65u8, 0x20u8, 0x62u8, 0x75u8, 0x69u8,
        0x6cu8, 0x74u8, 0x69u8, 0x6eu8, 0x20u8, 0x44u8, 0x4cu8, 0x4cu8,
    ];
    assert(wine_builtin_marker() =~= marker);
    assert(marker.len() == 16);
    if contents.len() >= 2 {
        assert(contents.take(2)[0] == contents[0]);
        assert(contents.take(2)[1] == contents[1]);
        if contents[0] == 0x4du8 && contents[1] == 0x5au8 {
            assert(contents.take(2) =~= pe_magic());
        }
    }
    if contains_seq(contents, marker) {
        let k = choose|k: int|
            0 <= k && k + marker.len() <= contents.len() && #[trigger] contents.subrange(
                k,
                k + marker.len(),
            ) == marker;
        assert(contents.subrange(k, k + 16) == marker);
    } else {
        assert forall|k: int| 0 <= k && k + 16 <= contents.len() implies #[trigger] contents.subrange(
            k,
            k + 16,
        ) != marker by {
            assert(contents.subrange(k, k + marker.len()) == contents.subrange(k, k + 16));
        }
    }
}

} // verus!
