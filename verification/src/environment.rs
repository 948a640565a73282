//! The game's environment variables and the DLSS settings the launcher adds
//! to them.
use vstd::prelude::*;

use crate::text::{
    ascii_lower, eq_ignore_ascii_case, is_trimmed, is_whitespace, join, lemma_before_first, str_eq,
    trim, trim_start_char,
};
use crate::wine_overrides::{
    all_entries, assignment, configures, configuring, dll_extension, dll_name,
    entries_with_override, has_dll_extension, is_entry, lemma_override_entries_are_entries,
    lemma_override_entries_join, lemma_with_override_configuring, lemma_with_override_join,
    lemma_with_override_other, lemma_with_override_settled, override_entries,
    set_wine_dll_override, with_override,
};

verus! {

/// The map that a list of name/value pairs sets: a later pair overrides an
/// earlier one with the same name.
pub open spec fn env_map(vars: Seq<(String, String)>) -> Map<Seq<char>, Seq<char>>
    decreases vars.len(),
{
    if vars.len() == 0 {
        Map::empty()
    } else {
        env_map(vars.drop_last()).insert(vars.last().0@, vars.last().1@)
    }
}

/// Environment variables, viewed as a map from names to values.
pub struct Environment {
    vars: Vec<(String, String)>,
}

impl View for Environment {
    type V = Map<Seq<char>, Seq<char>>;

    closed spec fn view(&self) -> Map<Seq<char>, Seq<char>> {
        env_map(self.vars@)
    }
}

/// The value of `name` in `env_map(vars)` is the one of its last pair.
pub proof fn lemma_env_map_last(vars: Seq<(String, String)>, name: Seq<char>, i: int)
    requires
        0 <= i < vars.len(),
        vars[i].0@ == name,
        forall|j: int| i < j < vars.len() ==> #[trigger] vars[j].0@ != name,
    ensures
        env_map(vars).contains_key(name),
        env_map(vars)[name] == vars[i].1@,
    decreases vars.len(),
{
    if i < vars.len() - 1 {
        lemma_env_map_last(vars.drop_last(), name, i);
        assert(vars.last() == vars[vars.len() - 1]);
    }
}

/// A name that no pair carries is not in `env_map(vars)`.
pub proof fn lemma_env_map_absent(vars: Seq<(String, String)>, name: Seq<char>)
    requires
        forall|j: int| 0 <= j < vars.len() ==> #[trigger] vars[j].0@ != name,
    ensures
        !env_map(vars).contains_key(name),
    decreases vars.len(),
{
    if vars.len() > 0 {
        assert(vars.last() == vars[vars.len() - 1]);
        lemma_env_map_absent(vars.drop_last(), name);
    }
}

impl Environment {
    /// No variables.
    pub fn new() -> (r: Self)
        ensures
            r@ == Map::<Seq<char>, Seq<char>>::empty(),
    {
        Environment { vars: Vec::new() }
    }

    /// The variables that `pairs` sets, a later pair overriding an earlier one.
    pub fn from_pairs(pairs: Vec<(String, String)>) -> (r: Self)
        ensures
            r@ == env_map(pairs@),
    {
        Environment { vars: pairs }
    }

    /// Name/value pairs that set exactly these variables.
    pub fn into_pairs(self) -> (r: Vec<(String, String)>)
        ensures
            env_map(r@) == self@,
    {
        self.vars
    }

    /// The value of `name`, if it is set.
    pub fn get(&self, name: &str) -> (r: Option<&str>)
        ensures
            match r {
                Some(v) => self@.contains_key(name@) && self@[name@] == v@,
                None => !self@.contains_key(name@),
            },
    {
        let mut i = self.vars.len();
        while i > 0
            invariant
                i <= self.vars@.len(),
                forall|j: int| i <= j < self.vars@.len() ==> #[trigger] self.vars@[j].0@ != name@,
            decreases i,
        {
            if str_eq(self.vars[i - 1].0.as_str(), name) {
                proof {
                    lemma_env_map_last(self.vars@, name@, i - 1);
                }
                return Some(self.vars[i - 1].1.as_str());
            }
            i = i - 1;
        }
        proof {
            lemma_env_map_absent(self.vars@, name@);
        }
        None
    }

    /// Sets `name` to `value`.
    pub fn set(&mut self, name: &str, value: String)
        ensures
            final(self)@ == old(self)@.insert(name@, value@),
    {
        let pair = (name.to_owned(), value);
        self.vars.push(pair);
        assert(self.vars@.drop_last() =~= old(self).vars@);
    }

    /// Sets `name` to `value` unless it is set already.
    pub fn set_default(&mut self, name: &str, value: String)
        ensures
            final(self)@ == if old(self)@.contains_key(name@) {
                old(self)@
            } else {
                old(self)@.insert(name@, value@)
            },
    {
        if self.get(name).is_none() {
            self.set(name, value);
        }
    }
}

/// The overrides the launcher sets for DLSS on top of `overrides`:
/// `nvcuda=b`, `msasn1=n,b`, `wintrust=b` and `crypt32=b`, in that order.
pub open spec fn dlss_overrides(overrides: Option<Seq<char>>) -> Seq<char> {
    let base = match overrides {
        Some(o) => o,
        None => Seq::empty(),
    };
    with_override(
        with_override(
            with_override(with_override(base, "nvcuda"@, "b"@), "msasn1"@, "n,b"@),
            "wintrust"@,
            "b"@,
        ),
        "crypt32"@,
        "b"@,
    )
}

/// The view of an optional string.
pub open spec fn opt_view(s: Option<String>) -> Option<Seq<char>> {
    match s {
        Some(v) => Some(v@),
        None => None,
    }
}

/// The game's environment with the DLSS defaults in place: `NVIDIA_WINE_DLL_DIR`
/// set to `nvidia_dir` where that is given; `DXVK_ENABLE_NVAPI` defaulting to
/// `1` and `WINE_DISABLE_HARDWARE_SCHEDULING` to `0`, explicit values being kept.
pub open spec fn dlss_defaults(env: Map<Seq<char>, Seq<char>>, nvidia_dir: Option<Seq<char>>) -> Map<
    Seq<char>,
    Seq<char>,
> {
    let e1 = match nvidia_dir {
        Some(dir) => env.insert("NVIDIA_WINE_DLL_DIR"@, dir),
        None => env,
    };
    let e2 = if e1.contains_key("DXVK_ENABLE_NVAPI"@) {
        e1
    } else {
        e1.insert("DXVK_ENABLE_NVAPI"@, "1"@)
    };
    if e2.contains_key("WINE_DISABLE_HARDWARE_SCHEDULING"@) {
        e2
    } else {
        e2.insert("WINE_DISABLE_HARDWARE_SCHEDULING"@, "0"@)
    }
}

/// The overrides that the DLSS ones go on top of: the environment's own
/// `WINEDLLOVERRIDES`, or else the runner's, or else the launcher process's.
pub open spec fn override_base(
    env: Map<Seq<char>, Seq<char>>,
    runner_overrides: Option<Seq<char>>,
    process_overrides: Option<Seq<char>>,
) -> Option<Seq<char>> {
    if env.contains_key("WINEDLLOVERRIDES"@) {
        Some(env["WINEDLLOVERRIDES"@])
    } else if runner_overrides is Some {
        runner_overrides
    } else {
        process_overrides
    }
}

/// The game's environment once DLSS is set up, where DX12 is on (else it is
/// left as it is): the DLSS defaults in place (`dlss_defaults`), and
/// `WINEDLLOVERRIDES` set to the DLSS overrides on top of `override_base`.
pub open spec fn dlss_environment(
    env: Map<Seq<char>, Seq<char>>,
    dx12: bool,
    nvidia_dir: Option<Seq<char>>,
    runner_overrides: Option<Seq<char>>,
    process_overrides: Option<Seq<char>>,
) -> Map<Seq<char>, Seq<char>> {
    if !dx12 {
        env
    } else {
        let defaults = dlss_defaults(env, nvidia_dir);
        defaults.insert(
            "WINEDLLOVERRIDES"@,
            dlss_overrides(override_base(defaults, runner_overrides, process_overrides)),
        )
    }
}

/// The names of the variables that the DLSS setup writes differ.
proof fn lemma_dlss_keys()
    ensures
        "NVIDIA_WINE_DLL_DIR"@ != "DXVK_ENABLE_NVAPI"@,
        "NVIDIA_WINE_DLL_DIR"@ != "WINE_DISABLE_HARDWARE_SCHEDULING"@,
        "NVIDIA_WINE_DLL_DIR"@ != "WINEDLLOVERRIDES"@,
        "DXVK_ENABLE_NVAPI"@ != "WINE_DISABLE_HARDWARE_SCHEDULING"@,
        "DXVK_ENABLE_NVAPI"@ != "WINEDLLOVERRIDES"@,
        "WINE_DISABLE_HARDWARE_SCHEDULING"@ != "WINEDLLOVERRIDES"@,
{
    reveal_strlit("NVIDIA_WINE_DLL_DIR");
    reveal_strlit("DXVK_ENABLE_NVAPI");
    reveal_strlit("WINE_DISABLE_HARDWARE_SCHEDULING");
    reveal_strlit("WINEDLLOVERRIDES");
    let k1 = "NVIDIA_WINE_DLL_DIR"@;
    let k2 = "DXVK_ENABLE_NVAPI"@;
    let k3 = "WINE_DISABLE_HARDWARE_SCHEDULING"@;
    let k4 = "WINEDLLOVERRIDES"@;
    assert(k1.len() != k2.len());
    assert(k1.len() != k3.len());
    assert(k2.len() != k3.len());
    assert(k4.len() != k3.len());
    assert(k1[0] != k4[0]);
    assert(k2[0] != k4[0]);
}

/// Sets the game's environment `env` up for DLSS, as `dlss_environment`
/// states, and tells whether that changed it. `nvidia_dir` is the NVIDIA Wine
/// DLL directory to record, given where the configured one is not valid;
/// `runner_overrides` and `process_overrides` are the `WINEDLLOVERRIDES` of the
/// selected Wine runner and of the launcher process.
pub fn configure_dlss_environment(
    env: &mut Environment,
    dx12: bool,
    nvidia_dir: Option<String>,
    runner_overrides: Option<String>,
    process_overrides: Option<String>,
) -> (changed: bool)
    ensures
        final(env)@ == dlss_environment(
            old(env)@,
            dx12,
            opt_view(nvidia_dir),
            opt_view(runner_overrides),
            opt_view(process_overrides),
        ),
        changed == (final(env)@ != old(env)@),
{
    if !dx12 {
        return false;
    }
    let ghost e0 = env@;
    proof {
        lemma_dlss_keys();
    }
    let mut changed_dir = false;
    match nvidia_dir {
        Some(dir) => {
            changed_dir = match env.get("NVIDIA_WINE_DLL_DIR") {
                Some(v) => !str_eq(v, dir.as_str()),
                None => true,
            };
            env.set("NVIDIA_WINE_DLL_DIR", dir);
        },
        None => {},
    }
    let ghost e1 = env@;
    let added_nvapi = env.get("DXVK_ENABLE_NVAPI").is_none();
    env.set_default("DXVK_ENABLE_NVAPI", "1".to_owned());
    let ghost e2 = env@;
    let added_hags = env.get("WINE_DISABLE_HARDWARE_SCHEDULING").is_none();
    env.set_default("WINE_DISABLE_HARDWARE_SCHEDULING", "0".to_owned());
    let ghost e3 = env@;
    let base: Option<String> = match env.get("WINEDLLOVERRIDES") {
        Some(v) => Some(v.to_owned()),
        None => match runner_overrides {
            Some(r) => Some(r),
            None => process_overrides,
        },
    };
    let o1 = match &base {
        Some(b) => set_wine_dll_override(Some(b.as_str()), "nvcuda", "b"),
        None => set_wine_dll_override(None, "nvcuda", "b"),
    };
    let o2 = set_wine_dll_override(Some(o1.as_str()), "msasn1", "n,b");
    let o3 = set_wine_dll_override(Some(o2.as_str()), "wintrust", "b");
    let overrides = set_wine_dll_override(Some(o3.as_str()), "crypt32", "b");
    let changed_overrides = match env.get("WINEDLLOVERRIDES") {
        Some(v) => !str_eq(v, overrides.as_str()),
        None => true,
    };
    assert(overrides@ == dlss_overrides(opt_view(base)));
    env.set("WINEDLLOVERRIDES", overrides);
    proof {
        let k1 = "NVIDIA_WINE_DLL_DIR"@;
        let k2 = "DXVK_ENABLE_NVAPI"@;
        let k3 = "WINE_DISABLE_HARDWARE_SCHEDULING"@;
        let k4 = "WINEDLLOVERRIDES"@;
        let e4 = env@;
        if changed_dir || added_nvapi || added_hags || changed_overrides {
            if changed_dir {
                assert(e4[k1] == e1[k1]);
                assert(!e0.contains_key(k1) || e0[k1] != e4[k1]);
            } else if added_nvapi {
                assert(e4.contains_key(k2) && !e0.contains_key(k2));
            } else if added_hags {
                assert(e4.contains_key(k3) && !e0.contains_key(k3));
            } else {
                assert(!e0.contains_key(k4) || e0[k4] != e4[k4]);
            }
        } else {
            assert(e1 =~= e0);
            assert(e2 =~= e1);
            assert(e3 =~= e2);
            assert(e4 =~= e3);
        }
    }
    changed_dir || added_nvapi || added_hags || changed_overrides
}

/// A DLL name as the launcher writes it into an override: not empty,
/// trimmed, without `=`, `;` or a leading `*`, and without a `.dll` extension.
pub open spec fn is_plain_dll(dll: Seq<char>) -> bool {
    &&& dll.len() > 0
    &&& is_trimmed(dll)
    &&& !dll.contains('=')
    &&& !dll.contains(';')
    &&& dll[0] != '*'
    &&& !has_dll_extension(dll)
}

/// A mode as the launcher writes it into an override: without `;` and
/// without trailing whitespace.
pub open spec fn is_plain_mode(mode: Seq<char>) -> bool {
    !mode.contains(';') && (mode.len() == 0 || !is_whitespace(mode.last()))
}

/// The entry `dll=mode` of a plain DLL and mode is an entry for that DLL.
pub proof fn lemma_plain_assignment(dll: Seq<char>, mode: Seq<char>)
    requires
        is_plain_dll(dll),
        is_plain_mode(mode),
    ensures
        dll_name(assignment(dll, mode)) == Some(dll),
        configures(assignment(dll, mode), dll),
        is_entry(assignment(dll, mode)),
{
    let a = assignment(dll, mode);
    let k = dll.len() as int;
    assert(a[k] == '=');
    assert(a.contains('='));
    assert forall|j: int| 0 <= j < k implies a[j] != '=' by {
        assert(a[j] == dll[j]);
    }
    lemma_before_first(a, '=', k);
    assert(a.take(k) =~= dll);
    assert(trim(dll) == dll);
    assert(trim_start_char(dll, '*') == dll);
    assert(!a.contains(';')) by {
        if a.contains(';') {
            let j = choose|j: int| 0 <= j < a.len() && a[j] == ';';
            if j < k {
                assert(dll[j] == ';');
            } else if j > k {
                assert(mode[j - k - 1] == ';');
            }
        }
    }
    assert(a[0] == dll[0]);
    if mode.len() > 0 {
        assert(a.last() == mode.last());
    } else {
        assert(a.last() == '=');
    }
}

/// No entry configures two DLLs whose names differ beyond ASCII case.
pub proof fn lemma_configures_disjoint(dll: Seq<char>, other: Seq<char>)
    requires
        !eq_ignore_ascii_case(dll, other),
    ensures
        forall|e: Seq<char>| #[trigger] configures(e, dll) ==> !configures(e, other),
{
    assert forall|e: Seq<char>| #[trigger] configures(e, dll) implies !configures(e, other) by {
        if configures(e, other) {
            let name = dll_name(e)->0;
            assert forall|i: int| 0 <= i < dll.len() implies #[trigger] ascii_lower(dll[i])
                == ascii_lower(other[i]) by {
                assert(ascii_lower(name[i]) == ascii_lower(dll[i]));
                assert(ascii_lower(name[i]) == ascii_lower(other[i]));
            }
        }
    }
}

/// The DLLs and modes of the DLSS overrides are plain, and no two DLL names
/// are equal up to ASCII case.
proof fn lemma_dlss_names()
    ensures
        is_plain_dll("nvcuda"@),
        is_plain_dll("msasn1"@),
        is_plain_dll("wintrust"@),
        is_plain_dll("crypt32"@),
        is_plain_mode("b"@),
        is_plain_mode("n,b"@),
        !eq_ignore_ascii_case("nvcuda"@, "msasn1"@),
        !eq_ignore_ascii_case("nvcuda"@, "wintrust"@),
        !eq_ignore_ascii_case("nvcuda"@, "crypt32"@),
        !eq_ignore_ascii_case("msasn1"@, "wintrust"@),
        !eq_ignore_ascii_case("msasn1"@, "crypt32"@),
        !eq_ignore_ascii_case("wintrust"@, "crypt32"@),
{
    reveal_strlit("nvcuda");
    reveal_strlit("msasn1");
    reveal_strlit("wintrust");
    reveal_strlit("crypt32");
    reveal_strlit("b");
    reveal_strlit("n,b");
    let d1 = "nvcuda"@;
    let d2 = "msasn1"@;
    let d3 = "wintrust"@;
    let d4 = "crypt32"@;
    assert(d1 =~= seq!['n', 'v', 'c', 'u', 'd', 'a']);
    assert(d2 =~= seq!['m', 's', 'a', 's', 'n', '1']);
    assert(d3 =~= seq!['w', 'i', 'n', 't', 'r', 'u', 's', 't']);
    assert(d4 =~= seq!['c', 'r', 'y', 'p', 't', '3', '2']);
    assert("b"@ =~= seq!['b']);
    assert("n,b"@ =~= seq!['n', ',', 'b']);
    assert(dll_extension()[0] == '.');
    assert(ascii_lower(d1.skip(2)[0]) != ascii_lower(dll_extension()[0]));
    assert(ascii_lower(d2.skip(2)[0]) != ascii_lower(dll_extension()[0]));
    assert(ascii_lower(d3.skip(4)[0]) != ascii_lower(dll_extension()[0]));
    assert(ascii_lower(d4.skip(3)[0]) != ascii_lower(dll_extension()[0]));
    assert(ascii_lower(d1[0]) != ascii_lower(d2[0]));
}

/// With the DLSS overrides set, each DLSS DLL has exactly one entry, its own.
pub open spec fn dlss_settled(es: Seq<Seq<char>>) -> bool {
    &&& es.filter(configuring("nvcuda"@)) == seq![assignment("nvcuda"@, "b"@)]
    &&& es.filter(configuring("msasn1"@)) == seq![assignment("msasn1"@, "n,b"@)]
    &&& es.filter(configuring("wintrust"@)) == seq![assignment("wintrust"@, "b"@)]
    &&& es.filter(configuring("crypt32"@)) == seq![assignment("crypt32"@, "b"@)]
}

/// The entries of the override list once the DLSS overrides are set.
pub open spec fn dlss_entries(es: Seq<Seq<char>>) -> Seq<Seq<char>> {
    entries_with_override(
        entries_with_override(
            entries_with_override(
                entries_with_override(es, "nvcuda"@, "b"@),
                "msasn1"@,
                "n,b"@,
            ),
            "wintrust"@,
            "b"@,
        ),
        "crypt32"@,
        "b"@,
    )
}

/// The DLSS overrides, as entries: the list they give is made of
/// `dlss_entries`, which holds only entries and leaves each DLSS DLL with
/// exactly its own entry.
pub proof fn lemma_dlss_overrides_entries(overrides: Option<Seq<char>>)
    ensures
        ({
            let base = match overrides {
                Some(o) => o,
                None => Seq::empty(),
            };
            let es = dlss_entries(override_entries(base));
            &&& dlss_overrides(overrides) == join(es, ';')
            &&& all_entries(es)
            &&& dlss_settled(es)
        }),
{
    let base = match overrides {
        Some(o) => o,
        None => Seq::<char>::empty(),
    };
    let (d1, d2, d3, d4) = ("nvcuda"@, "msasn1"@, "wintrust"@, "crypt32"@);
    let (b, nb) = ("b"@, "n,b"@);
    lemma_dlss_names();
    lemma_plain_assignment(d1, b);
    lemma_plain_assignment(d2, nb);
    lemma_plain_assignment(d3, b);
    lemma_plain_assignment(d4, b);
    lemma_configures_disjoint(d1, d2);
    lemma_configures_disjoint(d1, d3);
    lemma_configures_disjoint(d1, d4);
    lemma_configures_disjoint(d2, d3);
    lemma_configures_disjoint(d2, d4);
    lemma_configures_disjoint(d3, d4);
    assert(!eq_ignore_ascii_case(d2, d1));
    assert(!eq_ignore_ascii_case(d3, d1));
    assert(!eq_ignore_ascii_case(d4, d1));
    assert(!eq_ignore_ascii_case(d3, d2));
    assert(!eq_ignore_ascii_case(d4, d2));
    assert(!eq_ignore_ascii_case(d4, d3));
    let e0 = override_entries(base);
    lemma_override_entries_are_entries(base);
    let e1 = entries_with_override(e0, d1, b);
    lemma_with_override_join(e0, d1, b);
    lemma_override_entries_join(e0);
    let e2 = entries_with_override(e1, d2, nb);
    lemma_with_override_join(e1, d2, nb);
    let e3 = entries_with_override(e2, d3, b);
    lemma_with_override_join(e2, d3, b);
    let e4 = entries_with_override(e3, d4, b);
    lemma_with_override_join(e3, d4, b);
    lemma_with_override_configuring(e0, d1, b);
    lemma_with_override_other(e1, d1, d2, nb);
    lemma_with_override_other(e2, d1, d3, b);
    lemma_with_override_other(e3, d1, d4, b);
    lemma_with_override_configuring(e1, d2, nb);
    lemma_with_override_other(e2, d2, d3, b);
    lemma_with_override_other(e3, d2, d4, b);
    lemma_with_override_configuring(e2, d3, b);
    lemma_with_override_other(e3, d3, d4, b);
    lemma_with_override_configuring(e3, d4, b);
}

/// Law: setting the DLSS overrides on a list that has them already leaves
/// it as it is.
pub proof fn law_dlss_overrides_idempotent(overrides: Option<Seq<char>>)
    ensures
        dlss_overrides(Some(dlss_overrides(overrides))) == dlss_overrides(overrides),
{
    let base = match overrides {
        Some(o) => o,
        None => Seq::<char>::empty(),
    };
    lemma_dlss_overrides_entries(overrides);
    let es = dlss_entries(override_entries(base));
    let x = join(es, ';');
    lemma_dlss_overrides_entries(Some(x));
    lemma_override_entries_join(es);
    lemma_with_override_settled(es, "nvcuda"@, "b"@);
    lemma_with_override_settled(es, "msasn1"@, "n,b"@);
    lemma_with_override_settled(es, "wintrust"@, "b"@);
    lemma_with_override_settled(es, "crypt32"@, "b"@);
}

/// Law: setting the game's environment up for DLSS a second time, with the
/// same findings, changes nothing.
pub proof fn law_configure_dlss_idempotent(
    env: Map<Seq<char>, Seq<char>>,
    dx12: bool,
    nvidia_dir: Option<Seq<char>>,
    runner_overrides: Option<Seq<char>>,
    process_overrides: Option<Seq<char>>,
)
    ensures
        ({
            let once = dlss_environment(
                env,
                dx12,
                nvidia_dir,
                runner_overrides,
                process_overrides,
            );
            dlss_environment(once, dx12, nvidia_dir, runner_overrides, process_overrides) == once
        }),
{
    if dx12 {
        lemma_dlss_keys();
        let defaults = dlss_defaults(env, nvidia_dir);
        let base = override_base(defaults, runner_overrides, process_overrides);
        let once = dlss_environment(env, dx12, nvidia_dir, runner_overrides, process_overrides);
        let twice = dlss_environment(once, dx12, nvidia_dir, runner_overrides, process_overrides);
        law_dlss_overrides_idempotent(base);
        let defaults2 = dlss_defaults(once, nvidia_dir);
        assert(defaults2 =~= once);
        assert(twice =~= once);
    }
}

/// Law: explicit user choices of `DXVK_ENABLE_NVAPI` and
/// `WINE_DISABLE_HARDWARE_SCHEDULING` survive the DLSS setup, and with DX12
/// on both are set afterwards, as is `WINEDLLOVERRIDES`.
pub proof fn law_dlss_keeps_user_choices(
    env: Map<Seq<char>, Seq<char>>,
    dx12: bool,
    nvidia_dir: Option<Seq<char>>,
    runner_overrides: Option<Seq<char>>,
    process_overrides: Option<Seq<char>>,
)
    ensures
        ({
            let after = dlss_environment(env, dx12, nvidia_dir, runner_overrides, process_overrides);
            &&& env.contains_key("DXVK_ENABLE_NVAPI"@) ==> after.contains_key("DXVK_ENABLE_NVAPI"@)
                && after["DXVK_ENABLE_NVAPI"@] == env["DXVK_ENABLE_NVAPI"@]
            &&& env.contains_key("WINE_DISABLE_HARDWARE_SCHEDULING"@) ==> after.contains_key(
                "WINE_DISABLE_HARDWARE_SCHEDULING"@,
            ) && after["WINE_DISABLE_HARDWARE_SCHEDULING"@]
                == env["WINE_DISABLE_HARDWARE_SCHEDULING"@]
            &&& dx12 ==> after.contains_key("DXVK_ENABLE_NVAPI"@) && after.contains_key(
                "WINE_DISABLE_HARDWARE_SCHEDULING"@,
            ) && after.contains_key("WINEDLLOVERRIDES"@)
        }),
{
    lemma_dlss_keys();
}

/// Law: after the DLSS setup with DX12 on, `WINEDLLOVERRIDES` holds, for
/// each of `nvcuda`, `msasn1`, `wintrust` and `crypt32`, exactly one entry:
/// the DLSS one.
pub proof fn law_dlss_overrides_settled(
    env: Map<Seq<char>, Seq<char>>,
    nvidia_dir: Option<Seq<char>>,
    runner_overrides: Option<Seq<char>>,
    process_overrides: Option<Seq<char>>,
)
    ensures
        dlss_settled(
            override_entries(
                dlss_environment(env, true, nvidia_dir, runner_overrides, process_overrides)[
                    "WINEDLLOVERRIDES"@],
            ),
        ),
{
    let defaults = dlss_defaults(env, nvidia_dir);
    let base = override_base(defaults, runner_overrides, process_overrides);
    lemma_dlss_overrides_entries(base);
    let b = match base {
        Some(x) => x,
        None => Seq::<char>::empty(),
    };
    lemma_override_entries_join(dlss_entries(override_entries(b)));
}

/// Law: with DX12 on, a directory handed in for `NVIDIA_WINE_DLL_DIR` is what
/// the variable holds afterwards, whatever it held before; where none is
/// handed in, the variable is left as it was.
pub proof fn law_dlss_records_nvidia_dir(
    env: Map<Seq<char>, Seq<char>>,
    nvidia_dir: Option<Seq<char>>,
    runner_overrides: Option<Seq<char>>,
    process_overrides: Option<Seq<char>>,
)
    ensures
        ({
            let after = dlss_environment(env, true, nvidia_dir, runner_overrides, process_overrides);
            &&& nvidia_dir matches Some(dir) ==> after.contains_key("NVIDIA_WINE_DLL_DIR"@)
                && after["NVIDIA_WINE_DLL_DIR"@] == dir
            &&& nvidia_dir is None ==> (after.contains_key("NVIDIA_WINE_DLL_DIR"@)
                == env.contains_key("NVIDIA_WINE_DLL_DIR"@) && (env.contains_key(
                "NVIDIA_WINE_DLL_DIR"@,
            ) ==> after["NVIDIA_WINE_DLL_DIR"@] == env["NVIDIA_WINE_DLL_DIR"@]))
        }),
{
    lemma_dlss_keys();
}

/// Law: with DX12 on, an unset `DXVK_ENABLE_NVAPI` becomes `1` and an unset
/// `WINE_DISABLE_HARDWARE_SCHEDULING` becomes `0`; the DLSS overrides go on
/// top of the environment's own `WINEDLLOVERRIDES`, else the runner's, else the
/// launcher process's; and no other variable changes.
pub proof fn law_dlss_defaults_and_base(
    env: Map<Seq<char>, Seq<char>>,
    nvidia_dir: Option<Seq<char>>,
    runner_overrides: Option<Seq<char>>,
    process_overrides: Option<Seq<char>>,
)
    ensures
        ({
            let after = dlss_environment(env, true, nvidia_dir, runner_overrides, process_overrides);
            &&& !env.contains_key("DXVK_ENABLE_NVAPI"@) ==> after["DXVK_ENABLE_NVAPI"@] == "1"@
            &&& !env.contains_key("WINE_DISABLE_HARDWARE_SCHEDULING"@)
                ==> after["WINE_DISABLE_HARDWARE_SCHEDULING"@] == "0"@
            &&& after["WINEDLLOVERRIDES"@] == dlss_overrides(
                if env.contains_key("WINEDLLOVERRIDES"@) {
                    Some(env["WINEDLLOVERRIDES"@])
                } else if runner_overrides is Some {
                    runner_overrides
                } else {
                    process_overrides
                },
            )
            &&& forall|k: Seq<char>|
                k != "NVIDIA_WINE_DLL_DIR"@ && k != "DXVK_ENABLE_NVAPI"@ && k
                    != "WINE_DISABLE_HARDWARE_SCHEDULING"@ && k != "WINEDLLOVERRIDES"@
                    ==> (#[trigger] after.contains_key(k) == env.contains_key(k) && (
                env.contains_key(k) ==> after[k] == env[k]))
        }),
{
    lemma_dlss_keys();
}

} // verus!
