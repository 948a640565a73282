//! The search for the NVIDIA driver's Wine DLL directory, as a step function:
//! the caller performs each action (probing a directory, running `ldconfig`,
//! locating a library's directory) and hands the outcome back as the next
//! event.
//!
//! The order: a directory already configured is kept where it holds a DLL;
//! else `NVIDIA_WINE_DLL_DIR`, then each of `standard_nvidia_wine_dll_dirs`,
//! then for each of `ldconfig_programs`, in order, the `nvidia/wine`
//! directory next to each NVIDIA GLX library it lists. The first candidate
//! that holds a DLL wins; `ldconfig` runs only once the fixed directories have
//! failed.
use vstd::prelude::*;

use crate::dlss::{
    canonical_nvidia_wine_dll_dir, ldconfig_nvidia_glx_libraries, ldconfig_programs,
    nvidia_glx_libraries, standard_nvidia_wine_dll_dirs,
};
use crate::text::chars_of;

verus! {

/// Where the search stands.
#[derive(Debug)]
pub enum DirSearchState {
    /// Not started.
    Idle,
    /// Probing the directory already configured; `env_dir` is the value of
    /// `NVIDIA_WINE_DLL_DIR`, for the search that may follow.
    ProbingConfigured { path: String, env_dir: Option<String> },
    /// Probing the directory of `NVIDIA_WINE_DLL_DIR`.
    ProbingEnv { path: String },
    /// Probing standard directory `index`.
    ProbingStandard { index: usize, path: String },
    /// Waiting for the output of `ldconfig` program `program`.
    RunningLdconfig { program: usize },
    /// Locating the directory of library `next` of those that program
    /// `program` listed.
    LocatingLibrary { program: usize, libraries: Vec<String>, next: usize },
    /// Probing the Wine directory next to library `next`.
    ProbingLibrary { program: usize, libraries: Vec<String>, next: usize, path: String },
    /// Done.
    Finished,
}

/// The outcome of the last action.
#[derive(Debug)]
pub enum DirSearchEvent {
    /// The search begins: the directory already configured, if any, and the
    /// value of `NVIDIA_WINE_DLL_DIR`, if set.
    Start { configured: Option<String>, env_dir: Option<String> },
    /// A directory was probed: whether each DLL of `nvidia_wine_dlls` is a
    /// regular file in it, and its canonical form where that could be had.
    Probed { dll_present: Vec<bool>, canonical: Option<String> },
    /// `ldconfig -p` ran, with this output, or could not run.
    LdconfigRan { output: Option<String> },
    /// The library's directory (the parent of its canonical path), if it has one.
    LibraryLocated { dir: Option<String> },
}

/// What the caller does next.
#[derive(Debug, PartialEq, Eq)]
pub enum DirSearchAction {
    /// Probe this directory.
    CheckDir(String),
    /// Run this `ldconfig` program with `-p`.
    RunLdconfig(String),
    /// Find the directory of this library.
    LocateLibrary(String),
    /// The configured directory holds a DLL; keep it.
    KeepConfigured,
    /// The directory found.
    Found(String),
    /// No directory holds the DLLs.
    NotFound,
}

/// `DirSearchState` with strings by their views.
pub enum SearchState {
    Idle,
    ProbingConfigured { path: Seq<char>, env_dir: Option<Seq<char>> },
    ProbingEnv { path: Seq<char> },
    ProbingStandard { index: int, path: Seq<char> },
    RunningLdconfig { program: int },
    LocatingLibrary { program: int, libraries: Seq<Seq<char>>, next: int },
    ProbingLibrary { program: int, libraries: Seq<Seq<char>>, next: int, path: Seq<char> },
    Finished,
}

/// `DirSearchEvent` with strings by their views.
pub enum SearchEvent {
    Start { configured: Option<Seq<char>>, env_dir: Option<Seq<char>> },
    Probed { dll_present: Seq<bool>, canonical: Option<Seq<char>> },
    LdconfigRan { output: Option<Seq<char>> },
    LibraryLocated { dir: Option<Seq<char>> },
}

/// `DirSearchAction` with strings by their views.
pub enum SearchAction {
    CheckDir(Seq<char>),
    RunLdconfig(Seq<char>),
    LocateLibrary(Seq<char>),
    KeepConfigured,
    Found(Seq<char>),
    NotFound,
}

/// The view of an optional string.
pub open spec fn opt_str(s: Option<String>) -> Option<Seq<char>> {
    match s {
        Some(v) => Some(v@),
        None => None,
    }
}

/// The views of strings.
pub open spec fn strs(s: Seq<String>) -> Seq<Seq<char>> {
    s.map_values(|x: String| x@)
}

impl View for DirSearchState {
    type V = SearchState;

    open spec fn view(&self) -> SearchState {
        match self {
            DirSearchState::Idle => SearchState::Idle,
            DirSearchState::ProbingConfigured { path, env_dir } => SearchState::ProbingConfigured {
                path: path@,
                env_dir: opt_str(*env_dir),
            },
            DirSearchState::ProbingEnv { path } => SearchState::ProbingEnv { path: path@ },
            DirSearchState::ProbingStandard { index, path } => SearchState::ProbingStandard {
                index: *index as int,
                path: path@,
            },
            DirSearchState::RunningLdconfig { program } => SearchState::RunningLdconfig {
                program: *program as int,
            },
            DirSearchState::LocatingLibrary { program, libraries, next } =>
                SearchState::LocatingLibrary {
                program: *program as int,
                libraries: strs(libraries@),
                next: *next as int,
            },
            DirSearchState::ProbingLibrary { program, libraries, next, path } =>
                SearchState::ProbingLibrary {
                program: *program as int,
                libraries: strs(libraries@),
                next: *next as int,
                path: path@,
            },
            DirSearchState::Finished => SearchState::Finished,
        }
    }
}

impl View for DirSearchEvent {
    type V = SearchEvent;

    open spec fn view(&self) -> SearchEvent {
        match self {
            DirSearchEvent::Start { configured, env_dir } => SearchEvent::Start {
                configured: opt_str(*configured),
                env_dir: opt_str(*env_dir),
            },
            DirSearchEvent::Probed { dll_present, canonical } => SearchEvent::Probed {
                dll_present: dll_present@,
                canonical: opt_str(*canonical),
            },
            DirSearchEvent::LdconfigRan { output } => SearchEvent::LdconfigRan {
                output: opt_str(*output),
            },
            DirSearchEvent::LibraryLocated { dir } => SearchEvent::LibraryLocated {
                dir: opt_str(*dir),
            },
        }
    }
}

impl View for DirSearchAction {
    type V = SearchAction;

    open spec fn view(&self) -> SearchAction {
        match self {
            DirSearchAction::CheckDir(p) => SearchAction::CheckDir(p@),
            DirSearchAction::RunLdconfig(p) => SearchAction::RunLdconfig(p@),
            DirSearchAction::LocateLibrary(p) => SearchAction::LocateLibrary(p@),
            DirSearchAction::KeepConfigured => SearchAction::KeepConfigured,
            DirSearchAction::Found(p) => SearchAction::Found(p@),
            DirSearchAction::NotFound => SearchAction::NotFound,
        }
    }
}

/// The standard directories, in order.
pub open spec fn standard_dirs() -> Seq<Seq<char>> {
    seq!["/usr/lib/nvidia/wine"@, "/usr/lib64/nvidia/wine"@, "/usr/lib/x86_64-linux-gnu/nvidia/wine"@]
}

/// The `ldconfig` programs, in order.
pub open spec fn ldconfig_names() -> Seq<Seq<char>> {
    seq!["ldconfig"@, "/sbin/ldconfig"@, "/usr/sbin/ldconfig"@]
}

/// `Path::join` of a relative path onto a directory: one `/` between them
/// unless the directory is empty or ends in `/`.
pub open spec fn path_join(dir: Seq<char>, rel: Seq<char>) -> Seq<char> {
    if dir.len() == 0 || dir.last() == '/' {
        dir + rel
    } else {
        dir.push('/') + rel
    }
}

/// What probing `path` found: none where it holds none of the DLLs, else
/// its canonical form, else `path` itself.
pub open spec fn probe_result(path: Seq<char>, dll_present: Seq<bool>, canonical: Option<
    Seq<char>,
>) -> Option<Seq<char>> {
    if exists|i: int| 0 <= i < dll_present.len() && #[trigger] dll_present[i] {
        Some(
            match canonical {
                Some(c) => c,
                None => path,
            },
        )
    } else {
        None
    }
}

/// The search from `NVIDIA_WINE_DLL_DIR` on.
pub open spec fn search_from_env(env_dir: Option<Seq<char>>) -> (SearchState, SearchAction) {
    match env_dir {
        Some(dir) => (SearchState::ProbingEnv { path: dir }, SearchAction::CheckDir(dir)),
        None => search_standard(0),
    }
}

/// The search from standard directory `index` on; after the last one,
/// the first `ldconfig` program runs.
pub open spec fn search_standard(index: int) -> (SearchState, SearchAction) {
    if 0 <= index < 3 {
        (
            SearchState::ProbingStandard { index, path: standard_dirs()[index] },
            SearchAction::CheckDir(standard_dirs()[index]),
        )
    } else {
        (SearchState::RunningLdconfig { program: 0 }, SearchAction::RunLdconfig(ldconfig_names()[0]))
    }
}

/// The search from library `next` of those that program `program` listed on;
/// after the last one, the next program runs, and after the last program the
/// search fails.
pub open spec fn search_library(program: int, libraries: Seq<Seq<char>>, next: int) -> (
    SearchState,
    SearchAction,
) {
    if 0 <= next < libraries.len() {
        (
            SearchState::LocatingLibrary { program, libraries, next },
            SearchAction::LocateLibrary(libraries[next]),
        )
    } else if 0 <= program + 1 < 3 {
        (
            SearchState::RunningLdconfig { program: program + 1 },
            SearchAction::RunLdconfig(ldconfig_names()[program + 1]),
        )
    } else {
        (SearchState::Finished, SearchAction::NotFound)
    }
}

/// One step of the search: the state after `event` and the next action.
/// An event that does not answer the state's action ends the search.
pub open spec fn nvidia_dir_step(state: SearchState, event: SearchEvent) -> (
    SearchState,
    SearchAction,
) {
    match event {
        SearchEvent::Start { configured, env_dir } => match configured {
            Some(path) => (
                SearchState::ProbingConfigured { path, env_dir },
                SearchAction::CheckDir(path),
            ),
            None => search_from_env(env_dir),
        },
        SearchEvent::Probed { dll_present, canonical } => match state {
            SearchState::ProbingConfigured { path, env_dir } => if probe_result(
                path,
                dll_present,
                canonical,
            ) is Some {
                (SearchState::Finished, SearchAction::KeepConfigured)
            } else {
                search_from_env(env_dir)
            },
            SearchState::ProbingEnv { path } => match probe_result(path, dll_present, canonical) {
                Some(dir) => (SearchState::Finished, SearchAction::Found(dir)),
                None => search_standard(0),
            },
            SearchState::ProbingStandard { index, path } => match probe_result(
                path,
                dll_present,
                canonical,
            ) {
                Some(dir) => (SearchState::Finished, SearchAction::Found(dir)),
                None => search_standard(index + 1),
            },
            SearchState::ProbingLibrary { program, libraries, next, path } => match probe_result(
                path,
                dll_present,
                canonical,
            ) {
                Some(dir) => (SearchState::Finished, SearchAction::Found(dir)),
                None => search_library(program, libraries, next + 1),
            },
            _ => (SearchState::Finished, SearchAction::NotFound),
        },
        SearchEvent::LdconfigRan { output } => match state {
            SearchState::RunningLdconfig { program } => search_library(
                program,
                match output {
                    Some(o) => nvidia_glx_libraries(o),
                    None => Seq::empty(),
                },
                0,
            ),
            _ => (SearchState::Finished, SearchAction::NotFound),
        },
        SearchEvent::LibraryLocated { dir } => match state {
            SearchState::LocatingLibrary { program, libraries, next } => match dir {
                Some(d) => {
                    let path = path_join(d, "nvidia/wine"@);
                    (
                        SearchState::ProbingLibrary { program, libraries, next, path },
                        SearchAction::CheckDir(path),
                    )
                },
                None => search_library(program, libraries, next + 1),
            },
            _ => (SearchState::Finished, SearchAction::NotFound),
        },
    }
}

/// The search from `NVIDIA_WINE_DLL_DIR` on, as `search_from_env` states.
fn start_from_env(env_dir: Option<String>) -> (r: (DirSearchState, DirSearchAction))
    ensures
        (r.0@, r.1@) == search_from_env(opt_str(env_dir)),
{
    match env_dir {
        Some(dir) => {
            let action = DirSearchAction::CheckDir(dir.clone());
            (DirSearchState::ProbingEnv { path: dir }, action)
        },
        None => start_standard(0),
    }
}

/// The search from standard directory `index` on, as `search_standard` states.
fn start_standard(index: usize) -> (r: (DirSearchState, DirSearchAction))
    ensures
        (r.0@, r.1@) == search_standard(index as int),
{
    if index < 3 {
        let dirs = standard_nvidia_wine_dll_dirs();
        let path = dirs[index].to_owned();
        let action = DirSearchAction::CheckDir(path.clone());
        (DirSearchState::ProbingStandard { index, path }, action)
    } else {
        let programs = ldconfig_programs();
        (
            DirSearchState::RunningLdconfig { program: 0 },
            DirSearchAction::RunLdconfig(programs[0].to_owned()),
        )
    }
}

/// The search from library `next` on, as `search_library` states.
fn start_library(program: usize, libraries: Vec<String>, next: usize) -> (r: (
    DirSearchState,
    DirSearchAction,
))
    ensures
        (r.0@, r.1@) == search_library(program as int, strs(libraries@), next as int),
{
    if next < libraries.len() {
        let library = libraries[next].clone();
        (
            DirSearchState::LocatingLibrary { program, libraries, next },
            DirSearchAction::LocateLibrary(library),
        )
    } else if program < 2 {
        let programs = ldconfig_programs();
        (
            DirSearchState::RunningLdconfig { program: program + 1 },
            DirSearchAction::RunLdconfig(programs[program + 1].to_owned()),
        )
    } else {
        (DirSearchState::Finished, DirSearchAction::NotFound)
    }
}

/// `path_join(dir, "nvidia/wine")`.
fn nvidia_dir_next_to(dir: String) -> (r: String)
    ensures
        r@ == path_join(dir@, "nvidia/wine"@),
{
    let v = chars_of(dir.as_str());
    let mut path = dir;
    if v.len() > 0 && v[v.len() - 1] != '/' {
        path.append("/");
    }
    path.append("nvidia/wine");
    proof {
        reveal_strlit("/");
    }
    path
}

/// Owned copies of the strings.
fn owned_strings(items: Vec<&str>) -> (r: Vec<String>)
    ensures
        strs(r@) == items@.map_values(|s: &str| s@),
{
    let mut r: Vec<String> = Vec::new();
    let mut i: usize = 0;
    while i < items.len()
        invariant
            i <= items@.len(),
            r@.len() == i,
            forall|j: int| 0 <= j < i ==> (#[trigger] r@[j])@ == items@[j]@,
        decreases items@.len() - i,
    {
        r.push(items[i].to_owned());
        i = i + 1;
    }
    assert(strs(r@) =~= items@.map_values(|s: &str| s@));
    r
}

/// The libraries that the `ldconfig` output lists, as owned strings.
fn listed_libraries(output: Option<String>) -> (r: Vec<String>)
    ensures
        strs(r@) == match opt_str(output) {
            Some(o) => nvidia_glx_libraries(o),
            None => Seq::empty(),
        },
{
    match output {
        Some(o) => {
            let found = ldconfig_nvidia_glx_libraries(o.as_str());
            let r = owned_strings(found);
            assert(found@.map_values(|s: &str| s@) =~= nvidia_glx_libraries(o@));
            r
        },
        None => {
            let r: Vec<String> = Vec::new();
            assert(strs(r@) =~= Seq::<Seq<char>>::empty());
            r
        },
    }
}

/// One step of the search for the NVIDIA driver's Wine DLL directory, as
/// `nvidia_dir_step` states: the state after `event`, and what to do next.
pub fn nvidia_dir_search_step(state: DirSearchState, event: DirSearchEvent) -> (r: (
    DirSearchState,
    DirSearchAction,
))
    ensures
        (r.0@, r.1@) == nvidia_dir_step(state@, event@),
{
    match event {
        DirSearchEvent::Start { configured, env_dir } => match configured {
            Some(path) => {
                let action = DirSearchAction::CheckDir(path.clone());
                (DirSearchState::ProbingConfigured { path, env_dir }, action)
            },
            None => start_from_env(env_dir),
        },
        DirSearchEvent::Probed { dll_present, canonical } => match state {
            DirSearchState::ProbingConfigured { path, env_dir } => {
                if canonical_nvidia_wine_dll_dir(path, dll_present.as_slice(), canonical).is_some() {
                    (DirSearchState::Finished, DirSearchAction::KeepConfigured)
                } else {
                    start_from_env(env_dir)
                }
            },
            DirSearchState::ProbingEnv { path } => {
                match canonical_nvidia_wine_dll_dir(path, dll_present.as_slice(), canonical) {
                    Some(dir) => (DirSearchState::Finished, DirSearchAction::Found(dir)),
                    None => start_standard(0),
                }
            },
            DirSearchState::ProbingStandard { index, path } => {
                match canonical_nvidia_wine_dll_dir(path, dll_present.as_slice(), canonical) {
                    Some(dir) => (DirSearchState::Finished, DirSearchAction::Found(dir)),
                    None => if index < 3 {
                        start_standard(index + 1)
                    } else {
                        start_standard(3)
                    },
                }
            },
            DirSearchState::ProbingLibrary { program, libraries, next, path } => {
                match canonical_nvidia_wine_dll_dir(path, dll_present.as_slice(), canonical) {
                    Some(dir) => (DirSearchState::Finished, DirSearchAction::Found(dir)),
                    None => {
                        let n = libraries.len();
                        if next < n {
                            start_library(program, libraries, next + 1)
                        } else {
                            start_library(program, libraries, n)
                        }
                    },
                }
            },
            _ => (DirSearchState::Finished, DirSearchAction::NotFound),
        },
        DirSearchEvent::LdconfigRan { output } => match state {
            DirSearchState::RunningLdconfig { program } => {
                start_library(program, listed_libraries(output), 0)
            },
            _ => (DirSearchState::Finished, DirSearchAction::NotFound),
        },
        DirSearchEvent::LibraryLocated { dir } => match state {
            DirSearchState::LocatingLibrary { program, libraries, next } => match dir {
                Some(d) => {
                    let path = nvidia_dir_next_to(d);
                    let action = DirSearchAction::CheckDir(path.clone());
                    (DirSearchState::ProbingLibrary { program, libraries, next, path }, action)
                },
                None => {
                    let n = libraries.len();
                    if next < n {
                        start_library(program, libraries, next + 1)
                    } else {
                        start_library(program, libraries, n)
                    }
                },
            },
            _ => (DirSearchState::Finished, DirSearchAction::NotFound),
        },
    }
}

/// Law: a configured directory that holds no DLL does not change the search:
/// probing it empty leads on exactly as a search started without it.
pub proof fn law_empty_configured_dir_searches_on(
    path: Seq<char>,
    env_dir: Option<Seq<char>>,
    dll_present: Seq<bool>,
    canonical: Option<Seq<char>>,
    any_state: SearchState,
)
    requires
        forall|i: int| 0 <= i < dll_present.len() ==> !dll_present[i],
    ensures
        nvidia_dir_step(
            SearchState::ProbingConfigured { path, env_dir },
            SearchEvent::Probed { dll_present, canonical },
        ) == nvidia_dir_step(any_state, SearchEvent::Start { configured: None, env_dir }),
{
}

/// Law: a probed directory that holds a DLL ends the search: a configured one
/// is kept, any other is the directory found (its canonical form where that
/// could be had).
pub proof fn law_probe_with_dll_ends_search(
    state: SearchState,
    dll_present: Seq<bool>,
    canonical: Option<Seq<char>>,
    i: int,
)
    requires
        0 <= i < dll_present.len(),
        dll_present[i],
    ensures
        ({
            let (next, action) = nvidia_dir_step(state, SearchEvent::Probed { dll_present, canonical });
            match state {
                SearchState::ProbingConfigured { .. } => next == SearchState::Finished && action
                    == SearchAction::KeepConfigured,
                SearchState::ProbingEnv { path } => next == SearchState::Finished && action
                    == SearchAction::Found(
                    match canonical {
                        Some(c) => c,
                        None => path,
                    },
                ),
                SearchState::ProbingStandard { path, .. } => next == SearchState::Finished && action
                    == SearchAction::Found(
                    match canonical {
                        Some(c) => c,
                        None => path,
                    },
                ),
                SearchState::ProbingLibrary { path, .. } => next == SearchState::Finished && action
                    == SearchAction::Found(
                    match canonical {
                        Some(c) => c,
                        None => path,
                    },
                ),
                _ => next == SearchState::Finished && action == SearchAction::NotFound,
            }
        }),
{
}

/// Law: without a configured directory or `NVIDIA_WINE_DLL_DIR`, and after
/// an empty `NVIDIA_WINE_DLL_DIR`, the search goes on to the first standard
/// directory, `/usr/lib/nvidia/wine`.
pub proof fn law_search_reaches_standard_dirs(
    any_state: SearchState,
    env_path: Seq<char>,
    dll_present: Seq<bool>,
    canonical: Option<Seq<char>>,
)
    requires
        forall|i: int| 0 <= i < dll_present.len() ==> !dll_present[i],
    ensures
        nvidia_dir_step(any_state, SearchEvent::Start { configured: None, env_dir: None }) == (
            SearchState::ProbingStandard { index: 0, path: "/usr/lib/nvidia/wine"@ },
            SearchAction::CheckDir("/usr/lib/nvidia/wine"@),
        ),
        nvidia_dir_step(
            SearchState::ProbingEnv { path: env_path },
            SearchEvent::Probed { dll_present, canonical },
        ) == (
            SearchState::ProbingStandard { index: 0, path: "/usr/lib/nvidia/wine"@ },
            SearchAction::CheckDir("/usr/lib/nvidia/wine"@),
        ),
{
}

/// Law: the order of the search after empty probes and listings: the
/// standard directories `/usr/lib/nvidia/wine`, `/usr/lib64/nvidia/wine` and
/// `/usr/lib/x86_64-linux-gnu/nvidia/wine`, then the programs `ldconfig`,
/// `/sbin/ldconfig` and `/usr/sbin/ldconfig`, after which the search fails;
/// a listed library's directory `d` is followed by `d/nvidia/wine`, and the
/// libraries of one listing come in the order listed.
pub proof fn law_search_order(
    path: Seq<char>,
    dll_present: Seq<bool>,
    canonical: Option<Seq<char>>,
    libraries: Seq<Seq<char>>,
    d: Seq<char>,
)
    requires
        forall|i: int| 0 <= i < dll_present.len() ==> !dll_present[i],
        d.len() > 0,
        d.last() != '/',
    ensures
        ({
            let empty = SearchEvent::Probed { dll_present, canonical };
            &&& nvidia_dir_step(SearchState::ProbingStandard { index: 0, path }, empty).1
                == SearchAction::CheckDir("/usr/lib64/nvidia/wine"@)
            &&& nvidia_dir_step(SearchState::ProbingStandard { index: 1, path }, empty).1
                == SearchAction::CheckDir("/usr/lib/x86_64-linux-gnu/nvidia/wine"@)
            &&& nvidia_dir_step(SearchState::ProbingStandard { index: 2, path }, empty)
                == (SearchState::RunningLdconfig { program: 0 }, SearchAction::RunLdconfig(
                "ldconfig"@,
            ))
            &&& nvidia_dir_step(
                SearchState::RunningLdconfig { program: 0 },
                SearchEvent::LdconfigRan { output: None },
            ) == (SearchState::RunningLdconfig { program: 1 }, SearchAction::RunLdconfig(
                "/sbin/ldconfig"@,
            ))
            &&& nvidia_dir_step(
                SearchState::RunningLdconfig { program: 1 },
                SearchEvent::LdconfigRan { output: None },
            ) == (SearchState::RunningLdconfig { program: 2 }, SearchAction::RunLdconfig(
                "/usr/sbin/ldconfig"@,
            ))
            &&& nvidia_dir_step(
                SearchState::RunningLdconfig { program: 2 },
                SearchEvent::LdconfigRan { output: None },
            ) == (SearchState::Finished, SearchAction::NotFound)
            &&& forall|k: int|
                0 <= k < libraries.len() ==> nvidia_dir_step(
                    SearchState::LocatingLibrary { program: 0, libraries, next: k },
                    SearchEvent::LibraryLocated { dir: Some(d) },
                ).1 == SearchAction::CheckDir(d.push('/') + "nvidia/wine"@)
            &&& forall|k: int|
                0 <= k && k + 1 < libraries.len() ==> #[trigger] nvidia_dir_step(
                    SearchState::ProbingLibrary { program: 0, libraries, next: k, path },
                    empty,
                ).1 == SearchAction::LocateLibrary(libraries[k + 1])
        }),
{
}

} // verus!
