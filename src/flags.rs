use vstd::prelude::*;
use vstd::string::StringExecFns;
use indexmap::IndexMap;
use crate::model::{SourceArg, SourceCommand, text_or_empty, char_or_empty};
use crate::order::{text_lt, text_less};
use crate::ordered_map::{text_entries, inserted_all, new_text_map, insert_text};
use crate::text::{chars_of, char_text};

verus! {

broadcast use vstd::string::group_string_axioms;

/// The arguments that `idx` points at, in the order of `idx`.
pub open spec fn pick(args: Seq<SourceArg>, idx: Seq<usize>) -> Seq<SourceArg> {
    idx.map_values(|k: usize| args[k as int])
}

/// Whether `a` is visible, positional exactly when `positional` says, and of the
/// scope `scope` where one is named.
pub open spec fn chosen(a: SourceArg, positional: bool, scope: Option<bool>) -> bool {
    &&& !a.hidden
    &&& a.positional == positional
    &&& match scope {
        Some(g) => a.global == g,
        None => true,
    }
}

/// The arguments of `s` that are `chosen`, in their order.
pub open spec fn select(s: Seq<SourceArg>, positional: bool, scope: Option<bool>) -> Seq<SourceArg>
    decreases s.len(),
{
    if s.len() == 0 {
        Seq::empty()
    } else if chosen(s.last(), positional, scope) {
        select(s.drop_last(), positional, scope).push(s.last())
    } else {
        select(s.drop_last(), positional, scope)
    }
}

/// The visible flags of `s` whose scope is `global`, in their order.
pub open spec fn scoped(s: Seq<SourceArg>, global: bool) -> Seq<SourceArg> {
    select(s, false, Some(global))
}

/// Whether `a` goes before `b`: by declaration index when `by_index`, else by key.
pub open spec fn before(a: SourceArg, b: SourceArg, by_index: bool) -> bool {
    if by_index {
        a.index < b.index
    } else {
        text_lt(a.key(), b.key())
    }
}

/// `a` placed into `s` after every element that it does not go before.
pub open spec fn insert_sorted(s: Seq<SourceArg>, a: SourceArg, by_index: bool) -> Seq<SourceArg>
    decreases s.len(),
{
    if s.len() > 0 && before(a, s.last(), by_index) {
        insert_sorted(s.drop_last(), a, by_index).push(s.last())
    } else {
        s.push(a)
    }
}

/// `s` in ascending order, by declaration index when `by_index`, else by key;
/// arguments that tie keep their order.
pub open spec fn sort_args(s: Seq<SourceArg>, by_index: bool) -> Seq<SourceArg>
    decreases s.len(),
{
    if s.len() == 0 {
        s
    } else {
        insert_sorted(sort_args(s.drop_last(), by_index), s.last(), by_index)
    }
}

/// `a` placed into `s` after every element whose key is not above its own.
pub open spec fn insert_by_key(s: Seq<SourceArg>, a: SourceArg) -> Seq<SourceArg> {
    insert_sorted(s, a, false)
}

/// `s` in ascending order of key; arguments with equal keys keep their order.
pub open spec fn sort_by_key(s: Seq<SourceArg>) -> Seq<SourceArg> {
    sort_args(s, false)
}

/// Each key is not below the one before it.
pub open spec fn key_sorted(s: Seq<SourceArg>) -> bool {
    forall|i: int| 0 <= i < s.len() - 1 ==> !text_lt(#[trigger] s[i + 1].key(), s[i].key())
}

/// The displayed form of a flag: `-s, --long`, `--long` or `-s`.
pub open spec fn signature(a: SourceArg) -> Seq<char> {
    match a.long {
        Some(l) => match a.short {
            Some(c) => "-"@ + seq![c] + ", --"@ + l@,
            None => "--"@ + l@,
        },
        None => "-"@ + char_or_empty(a.short),
    }
}

/// The suffix of a flag's signature: `=` or `?` for a flag that takes a value
/// (`?` where the value must follow an explicit `=`), then `*` if it accumulates.
pub open spec fn modifier(a: SourceArg) -> Seq<char> {
    (if a.action.takes_values() {
        if a.require_equals {
            "?"@
        } else {
            "="@
        }
    } else {
        Seq::empty()
    }) + (if a.action.is_cumulative() {
        "*"@
    } else {
        Seq::empty()
    })
}

/// The help entry of a flag: its signature with its modifier, and its help text.
pub open spec fn flag_entry(a: SourceArg) -> (Seq<char>, Seq<char>) {
    (signature(a) + modifier(a), text_or_empty(a.help))
}

/// The help entries of the flags of `args` whose scope is `global`.
pub open spec fn expected_flags(args: Seq<SourceArg>, global: bool) -> Seq<(Seq<char>, Seq<char>)> {
    inserted_all(sort_by_key(scoped(args, global)).map_values(|a: SourceArg| flag_entry(a)))
}

/// The key of an argument as a text: its long name, else its short name.
pub fn key_text(a: &SourceArg) -> (r: String)
    ensures
        r@ == a.key(),
{
    match &a.long {
        Some(l) => l.clone(),
        None => match a.short {
            Some(c) => char_text(c),
            None => String::new(),
        },
    }
}

/// The displayed form of a flag.
pub fn signature_for(a: &SourceArg) -> (r: String)
    ensures
        r@ == signature(*a),
{
    let mut r = String::new();
    match &a.long {
        Some(l) => {
            match a.short {
                Some(c) => {
                    r.append("-");
                    r.append(char_text(c).as_str());
                    r.append(", --");
                },
                None => {
                    r.append("--");
                },
            }
            r.append(l.as_str());
        },
        None => {
            r.append("-");
            match a.short {
                Some(c) => {
                    r.append(char_text(c).as_str());
                },
                None => {},
            }
        },
    }
    assert(r@ =~= signature(*a));
    r
}

/// The suffix of a flag's signature.
pub fn modifier_for(a: &SourceArg) -> (r: String)
    ensures
        r@ == modifier(*a),
{
    let mut r = String::new();
    if a.action.takes_values() {
        if a.require_equals {
            r.append("?");
        } else {
            r.append("=");
        }
    }
    if a.action.is_cumulative() {
        r.append("*");
    }
    assert(r@ =~= modifier(*a));
    r
}

/// An optional text, or the empty text.
pub fn text_or_default(o: &Option<String>) -> (r: String)
    ensures
        r@ == text_or_empty(*o),
{
    match o {
        Some(s) => s.clone(),
        None => String::new(),
    }
}

/// The positions of the arguments of `args` that are `chosen`.
pub(crate) fn select_positions(args: &Vec<SourceArg>, positional: bool, scope: Option<bool>) -> (r: Vec<usize>)
    ensures
        pick(args@, r@) == select(args@, positional, scope),
        forall|t: int| 0 <= t < r.len() ==> r[t] < args.len(),
{
    let mut r: Vec<usize> = Vec::new();
    let mut i: usize = 0;
    while i < args.len()
        invariant
            i <= args.len(),
            pick(args@, r@) == select(args@.take(i as int), positional, scope),
            forall|t: int| 0 <= t < r.len() ==> r[t] < args.len(),
        decreases args.len() - i,
    {
        assert(args@.take(i + 1).drop_last() =~= args@.take(i as int));
        let a = &args[i];
        let in_scope = match scope {
            Some(g) => a.global == g,
            None => true,
        };
        if !a.hidden && a.positional == positional && in_scope {
            r.push(i);
            assert(pick(args@, r@) =~= pick(args@, r@.drop_last()).push(args@[i as int]));
        }
        i = i + 1;
    }
    assert(args@.take(args.len() as int) =~= args@);
    r
}

/// The keys of all arguments, as characters.
pub(crate) fn all_keys(args: &Vec<SourceArg>) -> (r: Vec<Vec<char>>)
    ensures
        r.len() == args.len(),
        forall|k: int| 0 <= k < args.len() ==> (#[trigger] r[k])@ == args[k].key(),
{
    let mut r: Vec<Vec<char>> = Vec::new();
    let mut i: usize = 0;
    while i < args.len()
        invariant
            i <= args.len(),
            r.len() == i,
            forall|k: int| 0 <= k < i ==> (#[trigger] r[k])@ == args[k].key(),
        decreases args.len() - i,
    {
        let key = key_text(&args[i]);
        r.push(chars_of(key.as_str()));
        i = i + 1;
    }
    r
}

/// Whether the argument at `x` goes before the one at `y`.
fn comes_before(args: &Vec<SourceArg>, keys: &Vec<Vec<char>>, x: usize, y: usize, by_index: bool) -> (r: bool)
    requires
        x < args.len(),
        y < args.len(),
        keys.len() == args.len(),
        forall|k: int| 0 <= k < args.len() ==> (#[trigger] keys[k])@ == args[k].key(),
    ensures
        r == before(args@[x as int], args@[y as int], by_index),
{
    if by_index {
        args[x].index < args[y].index
    } else {
        text_less(&keys[x], &keys[y])
    }
}

/// Sorts the positions `sel` by the arguments they point at, by declaration index
/// when `by_index`, else by key, keeping the order of ties.
pub(crate) fn sort_positions(args: &Vec<SourceArg>, keys: &Vec<Vec<char>>, sel: &Vec<usize>, by_index: bool) -> (r: Vec<usize>)
    requires
        keys.len() == args.len(),
        forall|k: int| 0 <= k < args.len() ==> (#[trigger] keys[k])@ == args[k].key(),
        forall|t: int| 0 <= t < sel.len() ==> sel[t] < args.len(),
    ensures
        pick(args@, r@) == sort_args(pick(args@, sel@), by_index),
        forall|t: int| 0 <= t < r.len() ==> r[t] < args.len(),
{
    let mut r: Vec<usize> = Vec::new();
    let mut t: usize = 0;
    while t < sel.len()
        invariant
            t <= sel.len(),
            keys.len() == args.len(),
            forall|k: int| 0 <= k < args.len() ==> (#[trigger] keys[k])@ == args[k].key(),
            forall|u: int| 0 <= u < sel.len() ==> sel[u] < args.len(),
            pick(args@, r@) == sort_args(pick(args@, sel@.take(t as int)), by_index),
            forall|u: int| 0 <= u < r.len() ==> r[u] < args.len(),
        decreases sel.len() - t,
    {
        let a = sel[t];
        let ghost s = pick(args@, r@);
        let ghost x = args@[a as int];
        let mut j: usize = r.len();
        assert(s.take(j as int) =~= s);
        assert(insert_sorted(s, x, by_index) + s.skip(j as int) =~= insert_sorted(s, x, by_index));
        while j > 0 && comes_before(args, keys, a, r[j - 1], by_index)
            invariant
                j <= r.len(),
                s == pick(args@, r@),
                a < args.len(),
                x == args@[a as int],
                keys.len() == args.len(),
                forall|k: int| 0 <= k < args.len() ==> (#[trigger] keys[k])@ == args[k].key(),
                forall|u: int| 0 <= u < r.len() ==> r[u] < args.len(),
                insert_sorted(s, x, by_index) == insert_sorted(s.take(j as int), x, by_index) + s.skip(j as int),
            decreases j,
        {
            assert(s.take(j as int).drop_last() =~= s.take(j - 1));
            assert(s.skip(j - 1) =~= seq![s[j - 1]] + s.skip(j as int));
            assert(insert_sorted(s.take(j - 1), x, by_index).push(s[j - 1]) + s.skip(j as int)
                =~= insert_sorted(s.take(j - 1), x, by_index) + s.skip(j - 1));
            j = j - 1;
        }
        proof {
            assert(pick(args@, sel@.take(t + 1)) =~= pick(args@, sel@.take(t as int)).push(x));
            assert(pick(args@, sel@.take(t + 1)).drop_last() =~= pick(args@, sel@.take(t as int)));
        }
        r.insert(j, a);
        assert(pick(args@, r@) =~= s.take(j as int).push(x) + s.skip(j as int));
        t = t + 1;
    }
    assert(sel@.take(sel.len() as int) =~= sel@);
    r
}

/// The help entries of a command's visible flags of one scope (global when
/// `persistent`), in ascending order of their long name, else short name.
pub fn flags_for(cmd: &SourceCommand, persistent: bool) -> (r: IndexMap<String, String>)
    ensures
        text_entries(r) == expected_flags(cmd.args@, persistent),
{
    let args = &cmd.args;
    let sel = select_positions(args, false, Some(persistent));
    let keys = all_keys(args);
    let sorted = sort_positions(args, &keys, &sel, false);
    let ghost order = pick(args@, sorted@);
    let mut m = new_text_map();
    let mut t: usize = 0;
    while t < sorted.len()
        invariant
            t <= sorted.len(),
            order == pick(args@, sorted@),
            forall|u: int| 0 <= u < sorted.len() ==> sorted[u] < args.len(),
            text_entries(m) == inserted_all(order.take(t as int).map_values(|a: SourceArg| flag_entry(a))),
        decreases sorted.len() - t,
    {
        let a = &args[sorted[t]];
        let mut key = signature_for(a);
        let suffix = modifier_for(a);
        key.append(suffix.as_str());
        let help = text_or_default(&a.help);
        proof {
            let e = order.take(t + 1).map_values(|a: SourceArg| flag_entry(a));
            assert(e.drop_last() =~= order.take(t as int).map_values(|a: SourceArg| flag_entry(a)));
            assert(e.last() == flag_entry(*a));
        }
        insert_text(&mut m, key, help);
        t = t + 1;
    }
    assert(order.take(sorted.len() as int) =~= order);
    m
}

} // verus!
