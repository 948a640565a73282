//! `WINEDLLOVERRIDES` values: `;`-separated entries of the form `dll=mode`.
use vstd::prelude::*;

use crate::sequences::{
    lemma_filter_all, lemma_filter_elements, lemma_filter_empty, lemma_filter_filter,
    lemma_filter_none, lemma_filter_push,
};
use crate::text::{
    before_first, chars_of, eq_ignore_ascii_case, find_char, is_trimmed, join, lemma_split_join,
    lemma_split_pieces, lemma_trim, lemma_trim_trimmed, range_eq_ignore_ascii_case, skip_char,
    split, trim, trim_range, trim_start_char,
};

verus! {

/// The `.dll` file extension.
pub open spec fn dll_extension() -> Seq<char> {
    seq!['.', 'd', 'l', 'l']
}

/// `name` ends in `.dll`, in any ASCII case.
pub open spec fn has_dll_extension(name: Seq<char>) -> bool {
    name.len() >= 4 && eq_ignore_ascii_case(name.skip(name.len() - 4), dll_extension())
}

/// The DLL that an override entry configures: the text before its first `=`,
/// trimmed, without leading `*` wildcards and without a `.dll` extension.
/// An entry without `=` configures nothing.
pub open spec fn dll_name(entry: Seq<char>) -> Option<Seq<char>> {
    if !entry.contains('=') {
        None
    } else {
        let name = trim_start_char(trim(before_first(entry, '=')), '*');
        if has_dll_extension(name) {
            Some(name.take(name.len() - 4))
        } else {
            Some(name)
        }
    }
}

/// The entry configures `dll` (compared up to ASCII case).
pub open spec fn configures(entry: Seq<char>, dll: Seq<char>) -> bool {
    match dll_name(entry) {
        Some(name) => eq_ignore_ascii_case(name, dll),
        None => false,
    }
}

/// The pieces, trimmed, with the empty ones left out.
pub open spec fn entries_of_pieces(pieces: Seq<Seq<char>>) -> Seq<Seq<char>> {
    pieces.map_values(|e: Seq<char>| trim(e)).filter(|e: Seq<char>| e.len() > 0)
}

/// The entries of an override list: its `;`-separated pieces, trimmed, with
/// the empty ones left out.
pub open spec fn override_entries(overrides: Seq<char>) -> Seq<Seq<char>> {
    entries_of_pieces(split(overrides, ';'))
}

/// The entry `dll=mode`.
pub open spec fn assignment(dll: Seq<char>, mode: Seq<char>) -> Seq<char> {
    dll.push('=') + mode
}

/// The position of the first entry that configures `dll`, if any.
pub open spec fn first_configuring(entries: Seq<Seq<char>>, dll: Seq<char>) -> Option<int>
    decreases entries.len(),
{
    if entries.len() == 0 {
        None
    } else {
        match first_configuring(entries.drop_last(), dll) {
            Some(i) => Some(i),
            None => if configures(entries.last(), dll) {
                Some(entries.len() - 1)
            } else {
                None
            },
        }
    }
}

/// The entries that configure `dll`.
pub open spec fn configuring(dll: Seq<char>) -> spec_fn(Seq<char>) -> bool {
    |e: Seq<char>| configures(e, dll)
}

/// The entries that do not configure `dll`.
pub open spec fn not_configuring(dll: Seq<char>) -> spec_fn(Seq<char>) -> bool {
    |e: Seq<char>| !configures(e, dll)
}

/// The entries once `dll` is set to `mode`: the first entry that configures
/// `dll` becomes `dll=mode` and the later ones are dropped; where none does,
/// `dll=mode` is appended. Every other entry stays, in order.
pub open spec fn entries_with_override(
    entries: Seq<Seq<char>>,
    dll: Seq<char>,
    mode: Seq<char>,
) -> Seq<Seq<char>> {
    match first_configuring(entries, dll) {
        Some(i) => entries.take(i).push(assignment(dll, mode)) + entries.skip(i + 1).filter(
            not_configuring(dll),
        ),
        None => entries.push(assignment(dll, mode)),
    }
}

/// The override list once `dll` is set to `mode`.
pub open spec fn with_override(overrides: Seq<char>, dll: Seq<char>, mode: Seq<char>) -> Seq<
    char,
> {
    join(entries_with_override(override_entries(overrides), dll, mode), ';')
}

/// The name of the DLL that the override entry `entry` configures, as
/// `dll_name` states; `None` for an entry without `=`.
pub fn override_dll_name(entry: &str) -> (r: Option<&str>)
    ensures
        match r {
            Some(name) => dll_name(entry@) == Some(name@),
            None => dll_name(entry@) is None,
        },
{
    let v = chars_of(entry);
    let n = v.len();
    let eq = find_char(&v, 0, n, '=');
    if eq == n {
        proof {
            assert(v@.subrange(0, n as int) =~= v@);
            assert(!entry@.contains('=')) by {
                if entry@.contains('=') {
                    let j = choose|j: int| 0 <= j < entry@.len() && entry@[j] == '=';
                    assert(v@[j] != '=');
                }
            }
        }
        return None;
    }
    proof {
        assert(entry@[eq as int] == '=');
        assert(v@.subrange(0, n as int) =~= v@);
    }
    let (a, b) = trim_range(&v, 0, eq);
    let start = skip_char(&v, a, b, '*');
    let ghost name = v@.subrange(start as int, b as int);
    let dot_dll = vec!['.', 'd', 'l', 'l'];
    let mut end = b;
    if b - start >= 4 {
        if range_eq_ignore_ascii_case(&v, b - 4, b, &dot_dll, 0, 4) {
            end = b - 4;
        }
    }
    proof {
        assert(dot_dll@.subrange(0, 4) =~= dll_extension());
        if b - start >= 4 {
            assert(name.skip(name.len() - 4) =~= v@.subrange(b - 4, b as int));
            assert(name.take(name.len() - 4) =~= v@.subrange(start as int, b - 4));
        }
    }
    Some(entry.substring_char(start, end))
}

/// `first_configuring` is the position of the first entry that configures
/// `dll`, and it is `None` exactly where no entry does.
pub proof fn lemma_first_configuring(entries: Seq<Seq<char>>, dll: Seq<char>)
    ensures
        match first_configuring(entries, dll) {
            Some(i) => 0 <= i < entries.len() && configures(entries[i], dll) && forall|j: int|
                0 <= j < i ==> !configures(#[trigger] entries[j], dll),
            None => forall|j: int| 0 <= j < entries.len() ==> !configures(#[trigger] entries[j], dll),
        },
    decreases entries.len(),
{
    if entries.len() > 0 {
        lemma_first_configuring(entries.drop_last(), dll);
        assert forall|j: int| 0 <= j < entries.len() - 1 implies #[trigger] entries[j]
            == entries.drop_last()[j] by {}
    }
}

/// Adding one piece adds its trimmed form to the entries unless it is blank.
pub proof fn lemma_entries_of_pieces_push(pieces: Seq<Seq<char>>, p: Seq<char>)
    ensures
        entries_of_pieces(pieces.push(p)) == if trim(p).len() > 0 {
            entries_of_pieces(pieces).push(trim(p))
        } else {
            entries_of_pieces(pieces)
        },
{
    let f = |e: Seq<char>| trim(e);
    let g = |e: Seq<char>| e.len() > 0;
    let m = pieces.push(p).map_values(f);
    assert(m =~= pieces.map_values(f).push(trim(p)));
    assert(m.drop_last() =~= pieces.map_values(f));
    reveal(Seq::filter);
    assert(m.filter(g) == if g(m.last()) {
        m.drop_last().filter(g).push(m.last())
    } else {
        m.drop_last().filter(g)
    });
}

/// `a` and `b` are equal up to ASCII case.
pub fn str_eq_ignore_ascii_case(a: &str, b: &str) -> (r: bool)
    ensures
        r == eq_ignore_ascii_case(a@, b@),
{
    let va = chars_of(a);
    let vb = chars_of(b);
    proof {
        assert(va@.subrange(0, va@.len() as int) =~= va@);
        assert(vb@.subrange(0, vb@.len() as int) =~= vb@);
    }
    range_eq_ignore_ascii_case(&va, 0, va.len(), &vb, 0, vb.len())
}

/// The entries of the override list `overrides`, as `override_entries` states.
pub fn override_entry_list(overrides: &str) -> (r: Vec<&str>)
    ensures
        r@.len() == override_entries(overrides@).len(),
        forall|j: int| 0 <= j < r@.len() ==> #[trigger] r@[j]@ == override_entries(overrides@)[j],
{
    let v = chars_of(overrides);
    let n = v.len();
    let mut r: Vec<&str> = Vec::new();
    let mut start: usize = 0;
    let mut i: usize = 0;
    let ghost mut done: Seq<Seq<char>> = Seq::empty();
    assert(v@.take(0) =~= Seq::<char>::empty());
    assert(v@.subrange(0, 0) =~= Seq::<char>::empty());
    while i < n
        invariant
            v@ == overrides@,
            n == v@.len(),
            start <= i <= n,
            split(v@.take(i as int), ';') == done.push(v@.subrange(start as int, i as int)),
            r@.len() == entries_of_pieces(done).len(),
            forall|j: int| 0 <= j < r@.len() ==> #[trigger] r@[j]@ == entries_of_pieces(done)[j],
        decreases n - i,
    {
        let ghost prefix = v@.take(i + 1);
        assert(prefix.drop_last() =~= v@.take(i as int));
        assert(prefix.last() == v@[i as int]);
        if v[i] == ';' {
            let ghost piece = v@.subrange(start as int, i as int);
            let (a, b) = trim_range(&v, start, i);
            proof {
                lemma_entries_of_pieces_push(done, piece);
            }
            if a < b {
                r.push(overrides.substring_char(a, b));
            }
            proof {
                done = done.push(piece);
                assert(v@.subrange(i + 1, i + 1) =~= Seq::<char>::empty());
            }
            start = i + 1;
        } else {
            assert(v@.subrange(start as int, i + 1) =~= v@.subrange(start as int, i as int).push(
                v@[i as int],
            ));
            assert(done.push(v@.subrange(start as int, i as int)).update(
                done.len() as int,
                v@.subrange(start as int, i + 1),
            ) =~= done.push(v@.subrange(start as int, i + 1)));
        }
        i = i + 1;
    }
    let ghost piece = v@.subrange(start as int, n as int);
    let (a, b) = trim_range(&v, start, n);
    proof {
        lemma_entries_of_pieces_push(done, piece);
        assert(v@.take(n as int) =~= v@);
    }
    if a < b {
        r.push(overrides.substring_char(a, b));
    }
    r
}

/// The entry configures `dll`, as `configures` states.
pub fn entry_configures(entry: &str, dll: &str) -> (r: bool)
    ensures
        r == configures(entry@, dll@),
{
    match override_dll_name(entry) {
        Some(name) => str_eq_ignore_ascii_case(name, dll),
        None => false,
    }
}

/// The override list `overrides` (none counts as empty) with `dll` set to
/// `mode`, as `with_override` states: the first entry for `dll` (compared up
/// to ASCII case, ignoring `*` wildcards and a `.dll` extension) becomes
/// `dll=mode`, later ones are dropped, blank entries are dropped, and every
/// other entry is kept, trimmed, in order; where no entry is for `dll`,
/// `dll=mode` is appended.
pub fn set_wine_dll_override(overrides: Option<&str>, dll: &str, mode: &str) -> (r: String)
    ensures
        r@ == with_override(
            match overrides {
                Some(o) => o@,
                None => Seq::empty(),
            },
            dll@,
            mode@,
        ),
{
    let text: &str = match overrides {
        Some(o) => o,
        None => "",
    };
    proof {
        reveal_strlit("");
    }
    let entries = override_entry_list(text);
    let ghost es = override_entries(text@);
    let mut assign = String::from_str(dll);
    assign.append("=");
    assign.append(mode);
    proof {
        reveal_strlit("=");
        assert(assign@ =~= assignment(dll@, mode@));
    }
    let ghost nc = not_configuring(dll@);
    let mut out: Vec<String> = Vec::new();
    let ghost mut outv: Seq<Seq<char>> = Seq::empty();
    let mut replaced = false;
    let mut k: usize = 0;
    assert(es.take(0) =~= Seq::<Seq<char>>::empty());
    while k < entries.len()
        invariant
            es == override_entries(text@),
            entries@.len() == es.len(),
            forall|j: int| 0 <= j < entries@.len() ==> #[trigger] entries@[j]@ == es[j],
            assign@ == assignment(dll@, mode@),
            nc == not_configuring(dll@),
            k <= entries@.len(),
            out@.len() == outv.len(),
            forall|j: int| 0 <= j < out@.len() ==> #[trigger] out@[j]@ == outv[j],
            replaced == first_configuring(es.take(k as int), dll@) is Some,
            outv == match first_configuring(es.take(k as int), dll@) {
                Some(i) => es.take(i).push(assignment(dll@, mode@)) + es.take(k as int).skip(
                    i + 1,
                ).filter(nc),
                None => es.take(k as int),
            },
        decreases entries@.len() - k,
    {
        let entry = entries[k];
        let conf = entry_configures(entry, dll);
        let ghost pre = es.take(k as int);
        let ghost post = es.take(k + 1);
        assert(post.drop_last() =~= pre);
        assert(post.last() == es[k as int]);
        proof {
            reveal(Seq::filter);
            lemma_first_configuring(pre, dll@);
            match first_configuring(pre, dll@) {
                Some(i) => {
                    assert(post.skip(i + 1) =~= pre.skip(i + 1).push(es[k as int]));
                    assert(post.skip(i + 1).drop_last() =~= pre.skip(i + 1));
                },
                None => {
                    assert(post.skip(k + 1) =~= Seq::<Seq<char>>::empty());
                },
            }
        }
        if conf {
            if !replaced {
                out.push(assign.clone());
                proof {
                    outv = outv.push(assign@);
                    assert(outv =~= es.take(k as int).push(assignment(dll@, mode@)) + es.take(
                        k + 1,
                    ).skip(k + 1).filter(nc));
                }
                replaced = true;
            }
        } else {
            out.push(entry.to_owned());
            proof {
                outv = outv.push(entry@);
                match first_configuring(pre, dll@) {
                    Some(i) => {
                        assert(outv =~= pre.take(i).push(assignment(dll@, mode@)) + post.skip(
                            i + 1,
                        ).filter(nc)) by {
                            assert(post.skip(i + 1).filter(nc) == pre.skip(i + 1).filter(nc).push(
                                es[k as int],
                            ));
                        }
                        assert(pre.take(i) =~= post.take(i));
                    },
                    None => {
                        assert(outv =~= post);
                    },
                }
            }
        }
        k = k + 1;
    }
    assert(es.take(es.len() as int) =~= es);
    if !replaced {
        out.push(assign);
        proof {
            outv = outv.push(assignment(dll@, mode@));
        }
    }
    assert(outv =~= entries_with_override(es, dll@, mode@));
    join_strings(&out, Ghost(outv))
}

/// The strings, joined with `;`.
fn join_strings(parts: &Vec<String>, Ghost(views): Ghost<Seq<Seq<char>>>) -> (r: String)
    requires
        parts@.len() == views.len(),
        forall|j: int| 0 <= j < parts@.len() ==> #[trigger] parts@[j]@ == views[j],
    ensures
        r@ == join(views, ';'),
{
    let mut r = String::new();
    let mut i: usize = 0;
    proof {
        reveal_strlit(";");
    }
    while i < parts.len()
        invariant
            parts@.len() == views.len(),
            forall|j: int| 0 <= j < parts@.len() ==> #[trigger] parts@[j]@ == views[j],
            i <= parts@.len(),
            r@ == join(views.take(i as int), ';'),
            ";"@ == seq![';'],
        decreases parts@.len() - i,
    {
        let ghost t = views.take(i + 1);
        assert(t.drop_last() =~= views.take(i as int));
        if i > 0 {
            r.append(";");
        }
        r.append(parts[i].as_str());
        proof {
            if i == 0 {
                assert(t =~= seq![views[0]]);
                assert(r@ =~= views[0]);
            } else {
                assert(r@ =~= join(views.take(i as int), ';').push(';') + views[i as int]);
            }
        }
        i = i + 1;
    }
    assert(views.take(views.len() as int) =~= views);
    r
}

/// An entry as an override list holds it: not empty, trimmed, without `;`.
pub open spec fn is_entry(e: Seq<char>) -> bool {
    e.len() > 0 && is_trimmed(e) && !e.contains(';')
}

/// Every element is an entry as an override list holds it.
pub open spec fn all_entries(es: Seq<Seq<char>>) -> bool {
    forall|i: int| 0 <= i < es.len() ==> is_entry(#[trigger] es[i])
}

/// Pieces without `;` give only entries as `is_entry` states.
proof fn lemma_entries_of_pieces_are_entries(pieces: Seq<Seq<char>>)
    requires
        forall|i: int| 0 <= i < pieces.len() ==> !(#[trigger] pieces[i]).contains(';'),
    ensures
        all_entries(entries_of_pieces(pieces)),
    decreases pieces.len(),
{
    if pieces.len() == 0 {
        reveal(Seq::filter);
    } else {
        let init = pieces.drop_last();
        assert forall|i: int| 0 <= i < init.len() implies !(#[trigger] init[i]).contains(';') by {
            assert(init[i] == pieces[i]);
        }
        lemma_entries_of_pieces_are_entries(init);
        assert(init.push(pieces.last()) =~= pieces);
        lemma_entries_of_pieces_push(init, pieces.last());
        lemma_trim(pieces.last());
        assert(!pieces[pieces.len() - 1].contains(';'));
    }
}

/// The entries of any override list are entries as `is_entry` states.
pub proof fn lemma_override_entries_are_entries(overrides: Seq<char>)
    ensures
        all_entries(override_entries(overrides)),
{
    lemma_split_pieces(overrides, ';');
    lemma_entries_of_pieces_are_entries(split(overrides, ';'));
}

/// Entries, read as pieces, give themselves.
proof fn lemma_entries_of_entries(es: Seq<Seq<char>>)
    requires
        all_entries(es),
    ensures
        entries_of_pieces(es) == es,
    decreases es.len(),
{
    if es.len() == 0 {
        reveal(Seq::filter);
        assert(entries_of_pieces(es) =~= es);
    } else {
        let init = es.drop_last();
        assert forall|i: int| 0 <= i < init.len() implies is_entry(#[trigger] init[i]) by {
            assert(init[i] == es[i]);
        }
        lemma_entries_of_entries(init);
        assert(init.push(es.last()) =~= es);
        lemma_entries_of_pieces_push(init, es.last());
        assert(is_entry(es[es.len() - 1]));
        lemma_trim_trimmed(es.last());
    }
}

/// Entries joined with `;` read back as the same entries.
pub proof fn lemma_override_entries_join(es: Seq<Seq<char>>)
    requires
        all_entries(es),
    ensures
        override_entries(join(es, ';')) == es,
{
    if es.len() == 0 {
        let empty = Seq::<Seq<char>>::empty();
        assert(split(join(es, ';'), ';') =~= empty.push(Seq::<char>::empty()));
        lemma_entries_of_pieces_push(empty, Seq::<char>::empty());
        lemma_entries_of_entries(empty);
        assert(es =~= empty);
    } else {
        assert forall|i: int| 0 <= i < es.len() implies !(#[trigger] es[i]).contains(';') by {
            assert(is_entry(es[i]));
        }
        lemma_split_join(es, ';');
        lemma_entries_of_entries(es);
    }
}

/// After `dll` is set, the one entry that configures it is `dll=mode`.
pub proof fn lemma_with_override_configuring(es: Seq<Seq<char>>, dll: Seq<char>, mode: Seq<char>)
    requires
        configures(assignment(dll, mode), dll),
    ensures
        entries_with_override(es, dll, mode).filter(configuring(dll)) == seq![assignment(dll, mode)],
{
    let a = assignment(dll, mode);
    let conf = configuring(dll);
    let nc = not_configuring(dll);
    lemma_first_configuring(es, dll);
    lemma_filter_push(Seq::<Seq<char>>::empty(), a, conf);
    reveal(Seq::filter);
    assert(Seq::<Seq<char>>::empty().push(a) =~= seq![a]);
    match first_configuring(es, dll) {
        Some(i) => {
            let before = es.take(i);
            let after = es.skip(i + 1).filter(nc);
            assert forall|j: int| 0 <= j < before.len() implies !conf(#[trigger] before[j]) by {
                assert(before[j] == es[j]);
            }
            lemma_filter_none(before, conf);
            lemma_filter_elements(es.skip(i + 1), nc);
            lemma_filter_none(after, conf);
            Seq::filter_distributes_over_add(before, seq![a], conf);
            Seq::filter_distributes_over_add(before + seq![a], after, conf);
            assert(before.push(a) =~= before + seq![a]);
            assert(Seq::<Seq<char>>::empty() + seq![a] + Seq::<Seq<char>>::empty() =~= seq![a]);
        },
        None => {
            lemma_filter_none(es, conf);
            lemma_filter_push(es, a, conf);
            assert(Seq::<Seq<char>>::empty().push(a) =~= seq![a]);
        },
    }
}

/// Setting another DLL, whose entries never configure `dll`, leaves the
/// entries that configure `dll` as they were.
pub proof fn lemma_with_override_other(
    es: Seq<Seq<char>>,
    dll: Seq<char>,
    other: Seq<char>,
    mode: Seq<char>,
)
    requires
        forall|e: Seq<char>| #[trigger] configures(e, dll) ==> !configures(e, other),
        !configures(assignment(other, mode), dll),
    ensures
        entries_with_override(es, other, mode).filter(configuring(dll)) == es.filter(
            configuring(dll),
        ),
{
    let a = assignment(other, mode);
    let conf = configuring(dll);
    let nc = not_configuring(other);
    lemma_first_configuring(es, other);
    reveal(Seq::filter);
    match first_configuring(es, other) {
        Some(i) => {
            let before = es.take(i);
            let rest = es.skip(i + 1);
            assert(es =~= before + seq![es[i]] + rest);
            assert(!conf(es[i]));
            assert(seq![es[i]].filter(conf) =~= Seq::<Seq<char>>::empty()) by {
                lemma_filter_push(Seq::<Seq<char>>::empty(), es[i], conf);
                assert(Seq::<Seq<char>>::empty().push(es[i]) =~= seq![es[i]]);
            }
            assert(seq![a].filter(conf) =~= Seq::<Seq<char>>::empty()) by {
                lemma_filter_push(Seq::<Seq<char>>::empty(), a, conf);
                assert(Seq::<Seq<char>>::empty().push(a) =~= seq![a]);
            }
            assert forall|x: Seq<char>| #[trigger] conf(x) implies nc(x) by {}
            lemma_filter_filter(rest, nc, conf);
            Seq::filter_distributes_over_add(before, seq![es[i]], conf);
            Seq::filter_distributes_over_add(before + seq![es[i]], rest, conf);
            Seq::filter_distributes_over_add(before, seq![a], conf);
            Seq::filter_distributes_over_add(before + seq![a], rest.filter(nc), conf);
            assert(before.push(a) =~= before + seq![a]);
            assert(before.filter(conf) + Seq::<Seq<char>>::empty() =~= before.filter(conf));
        },
        None => {
            lemma_filter_push(es, a, conf);
        },
    }
}

/// Entries in which `dll=mode` is the one entry that configures `dll` are
/// left as they are when `dll` is set to `mode`.
pub proof fn lemma_with_override_settled(es: Seq<Seq<char>>, dll: Seq<char>, mode: Seq<char>)
    requires
        es.filter(configuring(dll)) == seq![assignment(dll, mode)],
    ensures
        entries_with_override(es, dll, mode) == es,
{
    let a = assignment(dll, mode);
    let conf = configuring(dll);
    let nc = not_configuring(dll);
    lemma_first_configuring(es, dll);
    match first_configuring(es, dll) {
        Some(i) => {
            let before = es.take(i);
            let rest = es.skip(i + 1);
            assert(es =~= before + seq![es[i]] + rest);
            assert forall|j: int| 0 <= j < before.len() implies !conf(#[trigger] before[j]) by {
                assert(before[j] == es[j]);
            }
            lemma_filter_none(before, conf);
            assert(seq![es[i]].filter(conf) =~= seq![es[i]]) by {
                lemma_filter_push(Seq::<Seq<char>>::empty(), es[i], conf);
                reveal(Seq::filter);
                assert(Seq::<Seq<char>>::empty().push(es[i]) =~= seq![es[i]]);
            }
            Seq::filter_distributes_over_add(before, seq![es[i]], conf);
            Seq::filter_distributes_over_add(before + seq![es[i]], rest, conf);
            assert(es.filter(conf) =~= seq![es[i]] + rest.filter(conf));
            assert(es.filter(conf)[0] == es[i]);
            assert(rest.filter(conf).len() == 0);
            lemma_filter_empty(rest, conf);
            assert forall|j: int| 0 <= j < rest.len() implies nc(#[trigger] rest[j]) by {
                assert(!conf(rest[j]));
            }
            lemma_filter_all(rest, nc);
            assert(before.push(a) + rest =~= es);
        },
        None => {
            lemma_filter_none(es, conf);
            assert(es.filter(conf).len() == 1);
        },
    }
}

/// After `dll` is set, the list still holds only entries as `is_entry` states.
pub proof fn lemma_with_override_entries(es: Seq<Seq<char>>, dll: Seq<char>, mode: Seq<char>)
    requires
        all_entries(es),
        is_entry(assignment(dll, mode)),
    ensures
        all_entries(entries_with_override(es, dll, mode)),
{
    let a = assignment(dll, mode);
    let r = entries_with_override(es, dll, mode);
    match first_configuring(es, dll) {
        Some(i) => {
            lemma_first_configuring(es, dll);
            let before = es.take(i);
            let rest = es.skip(i + 1);
            let kept = rest.filter(not_configuring(dll));
            lemma_filter_elements(rest, not_configuring(dll));
            assert forall|j: int| 0 <= j < r.len() implies is_entry(#[trigger] r[j]) by {
                if j < i {
                    assert(r[j] == es[j]);
                } else if j == i {
                    assert(r[j] == a);
                } else {
                    assert(r[j] == kept[j - i - 1]);
                    let k = choose|k: int| 0 <= k < rest.len() && rest[k] == kept[j - i - 1];
                    assert(rest[k] == es[k + i + 1]);
                }
            }
        },
        None => {
            assert forall|j: int| 0 <= j < r.len() implies is_entry(#[trigger] r[j]) by {
                if j < es.len() {
                    assert(r[j] == es[j]);
                }
            }
        },
    }
}

/// Setting `dll` on an override list made of `es` gives the list made of the
/// entries with `dll` set.
pub proof fn lemma_with_override_join(es: Seq<Seq<char>>, dll: Seq<char>, mode: Seq<char>)
    requires
        all_entries(es),
        is_entry(assignment(dll, mode)),
    ensures
        with_override(join(es, ';'), dll, mode) == join(entries_with_override(es, dll, mode), ';'),
        all_entries(entries_with_override(es, dll, mode)),
{
    lemma_override_entries_join(es);
    lemma_with_override_entries(es, dll, mode);
}

/// Pieces without `;` that are not blank, joined with `;`, read back as the
/// same pieces, trimmed.
pub proof fn lemma_override_entries_join_pieces(pieces: Seq<Seq<char>>)
    requires
        forall|i: int|
            0 <= i < pieces.len() ==> !(#[trigger] pieces[i]).contains(';') && trim(
                pieces[i],
            ).len() > 0,
    ensures
        override_entries(join(pieces, ';')) == pieces.map_values(|e: Seq<char>| trim(e)),
{
    let t = pieces.map_values(|e: Seq<char>| trim(e));
    if pieces.len() == 0 {
        let empty = Seq::<Seq<char>>::empty();
        assert(split(join(pieces, ';'), ';') =~= empty.push(Seq::<char>::empty()));
        lemma_entries_of_pieces_push(empty, Seq::<char>::empty());
        reveal(Seq::filter);
        assert(entries_of_pieces(empty) =~= empty);
        assert(t =~= empty);
    } else {
        assert forall|i: int| 0 <= i < pieces.len() implies !(#[trigger] pieces[i]).contains(';') by {}
        lemma_split_join(pieces, ';');
        assert forall|i: int| 0 <= i < t.len() implies (|e: Seq<char>| e.len() > 0)(#[trigger] t[i]) by {}
        lemma_filter_all(t, |e: Seq<char>| e.len() > 0);
    }
}

/// Where the entries before `i` do not configure `dll` and entry `i` does,
/// `i` is the first entry that configures it.
proof fn lemma_first_configuring_at(es: Seq<Seq<char>>, dll: Seq<char>, i: int)
    requires
        0 <= i < es.len(),
        configures(es[i], dll),
        forall|j: int| 0 <= j < i ==> !configures(#[trigger] es[j], dll),
    ensures
        first_configuring(es, dll) == Some(i),
{
    lemma_first_configuring(es, dll);
}

/// An entry that configures a DLL is not blank.
proof fn lemma_configuring_not_blank(e: Seq<char>, dll: Seq<char>)
    requires
        configures(e, dll),
    ensures
        e.len() > 0,
{
    let j = choose|j: int| 0 <= j < e.len() && e[j] == '=';
}

/// The list once `dll` is set to `mode`, read back: the entries of the list
/// before, with the first entry for `dll` replaced by `dll=mode` (trimmed),
/// the later ones dropped, and `dll=mode` (trimmed) appended where there was
/// none; where `dll=mode` has no `;` and, trimmed, configures `dll`.
pub proof fn lemma_with_override_read_back(overrides: Seq<char>, dll: Seq<char>, mode: Seq<char>)
    requires
        !assignment(dll, mode).contains(';'),
        configures(trim(assignment(dll, mode)), dll),
    ensures
        ({
            let es = override_entries(overrides);
            let a = trim(assignment(dll, mode));
            override_entries(with_override(overrides, dll, mode)) == match first_configuring(
                es,
                dll,
            ) {
                Some(i) => es.take(i).push(a) + es.skip(i + 1).filter(not_configuring(dll)),
                None => es.push(a),
            }
        }),
{
    let es = override_entries(overrides);
    let full = assignment(dll, mode);
    let a = trim(full);
    let nc = not_configuring(dll);
    lemma_override_entries_are_entries(overrides);
    lemma_first_configuring(es, dll);
    lemma_configuring_not_blank(a, dll);
    let r = entries_with_override(es, dll, mode);
    match first_configuring(es, dll) {
        Some(i) => {
            let rest = es.skip(i + 1);
            let kept = rest.filter(nc);
            lemma_filter_elements(rest, nc);
            assert forall|j: int| 0 <= j < kept.len() implies is_entry(#[trigger] kept[j]) by {
                assert(rest.contains(kept[j]));
                let k = choose|k: int| 0 <= k < rest.len() && rest[k] == kept[j];
                assert(rest[k] == es[k + i + 1]);
            }
            assert forall|j: int| 0 <= j < r.len() implies !(#[trigger] r[j]).contains(';') && trim(
                r[j],
            ).len() > 0 by {
                if j < i {
                    assert(r[j] == es[j]);
                    lemma_trim_trimmed(es[j]);
                } else if j > i {
                    assert(r[j] == kept[j - i - 1]);
                    lemma_trim_trimmed(kept[j - i - 1]);
                }
            }
            lemma_override_entries_join_pieces(r);
            let expected = es.take(i).push(a) + kept;
            assert forall|j: int| 0 <= j < r.len() implies trim(#[trigger] r[j]) == expected[j] by {
                if j < i {
                    assert(r[j] == es[j]);
                    lemma_trim_trimmed(es[j]);
                } else if j > i {
                    assert(r[j] == kept[j - i - 1]);
                    lemma_trim_trimmed(kept[j - i - 1]);
                }
            }
            assert(r.map_values(|e: Seq<char>| trim(e)) =~= expected);
        },
        None => {
            assert forall|j: int| 0 <= j < r.len() implies !(#[trigger] r[j]).contains(';') && trim(
                r[j],
            ).len() > 0 by {
                if j < es.len() {
                    assert(r[j] == es[j]);
                    lemma_trim_trimmed(es[j]);
                }
            }
            lemma_override_entries_join_pieces(r);
            assert forall|j: int| 0 <= j < r.len() implies trim(#[trigger] r[j]) == es.push(a)[j] by {
                if j < es.len() {
                    assert(r[j] == es[j]);
                    lemma_trim_trimmed(es[j]);
                }
            }
            assert(r.map_values(|e: Seq<char>| trim(e)) =~= es.push(a));
        },
    }
}

/// Law: setting a DLL override twice is the same as setting it once, where
/// the entry `dll=mode` holds no `;` and, trimmed, configures `dll`.
pub proof fn law_set_override_idempotent(overrides: Seq<char>, dll: Seq<char>, mode: Seq<char>)
    requires
        !assignment(dll, mode).contains(';'),
        configures(trim(assignment(dll, mode)), dll),
    ensures
        with_override(with_override(overrides, dll, mode), dll, mode) == with_override(
            overrides,
            dll,
            mode,
        ),
{
    let es = override_entries(overrides);
    let full = assignment(dll, mode);
    let a = trim(full);
    let nc = not_configuring(dll);
    let once = with_override(overrides, dll, mode);
    lemma_override_entries_are_entries(overrides);
    lemma_with_override_read_back(overrides, dll, mode);
    lemma_first_configuring(es, dll);
    let t = override_entries(once);
    match first_configuring(es, dll) {
        Some(i) => {
            let kept = es.skip(i + 1).filter(nc);
            lemma_filter_elements(es.skip(i + 1), nc);
            assert forall|j: int| 0 <= j < i implies !configures(#[trigger] t[j], dll) by {
                assert(t[j] == es[j]);
            }
            lemma_first_configuring_at(t, dll, i);
            assert(t.skip(i + 1) =~= kept);
            assert forall|j: int| 0 <= j < kept.len() implies nc(#[trigger] kept[j]) by {}
            lemma_filter_all(kept, nc);
            assert(t.take(i) =~= es.take(i));
            assert(entries_with_override(t, dll, mode) =~= entries_with_override(es, dll, mode));
        },
        None => {
            assert forall|j: int| 0 <= j < es.len() implies !configures(#[trigger] t[j], dll) by {
                assert(t[j] == es[j]);
            }
            lemma_first_configuring_at(t, dll, es.len() as int);
            assert(t.take(es.len() as int) =~= es);
            assert(t.skip(es.len() as int + 1) =~= Seq::<Seq<char>>::empty());
            reveal(Seq::filter);
            assert(entries_with_override(t, dll, mode) =~= entries_with_override(es, dll, mode));
        },
    }
}

/// Law: once `dll` is set to `mode`, the list's one entry for `dll` is
/// `dll=mode` (trimmed), and its entries for other DLLs are those of the list
/// before, trimmed, in order, without the blank ones; where `dll=mode` holds
/// no `;` and, trimmed, configures `dll`.
pub proof fn law_set_override_result(overrides: Seq<char>, dll: Seq<char>, mode: Seq<char>)
    requires
        !assignment(dll, mode).contains(';'),
        configures(trim(assignment(dll, mode)), dll),
    ensures
        override_entries(with_override(overrides, dll, mode)).filter(configuring(dll)) == seq![
            trim(assignment(dll, mode)),
        ],
        override_entries(with_override(overrides, dll, mode)).filter(not_configuring(dll))
            == override_entries(overrides).filter(not_configuring(dll)),
{
    let es = override_entries(overrides);
    let a = trim(assignment(dll, mode));
    let conf = configuring(dll);
    let nc = not_configuring(dll);
    let empty = Seq::<Seq<char>>::empty();
    lemma_with_override_read_back(overrides, dll, mode);
    lemma_first_configuring(es, dll);
    lemma_filter_push(empty, a, conf);
    lemma_filter_push(empty, a, nc);
    lemma_filter_none(empty, conf);
    lemma_filter_none(empty, nc);
    assert(empty.push(a) =~= seq![a]);
    match first_configuring(es, dll) {
        Some(i) => {
            let before = es.take(i);
            let rest = es.skip(i + 1);
            let kept = rest.filter(nc);
            assert(es =~= before + seq![es[i]] + rest);
            assert forall|j: int| 0 <= j < before.len() implies nc(#[trigger] before[j]) by {
                assert(before[j] == es[j]);
            }
            lemma_filter_all(before, nc);
            assert forall|j: int| 0 <= j < before.len() implies !conf(#[trigger] before[j]) by {
                assert(before[j] == es[j]);
            }
            lemma_filter_none(before, conf);
            lemma_filter_elements(rest, nc);
            lemma_filter_none(kept, conf);
            lemma_filter_filter(rest, nc, nc);
            lemma_filter_push(empty, es[i], nc);
            assert(empty.push(es[i]) =~= seq![es[i]]);
            Seq::filter_distributes_over_add(before, seq![es[i]], nc);
            Seq::filter_distributes_over_add(before + seq![es[i]], rest, nc);
            Seq::filter_distributes_over_add(before, seq![a], nc);
            Seq::filter_distributes_over_add(before + seq![a], kept, nc);
            Seq::filter_distributes_over_add(before, seq![a], conf);
            Seq::filter_distributes_over_add(before + seq![a], kept, conf);
            assert(before.push(a) =~= before + seq![a]);
            assert(before + empty =~= before);
            assert(empty + seq![a] + empty =~= seq![a]);
        },
        None => {
            lemma_filter_none(es, conf);
            lemma_filter_push(es, a, conf);
            lemma_filter_push(es, a, nc);
        },
    }
}

} // verus!
