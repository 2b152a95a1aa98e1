use vstd::prelude::*;
use crate::model::{SourceArg, SourceCommand};
use crate::command::{Command, describes, visible_children};
use crate::order::{text_lt, lemma_text_lt_asymmetric, lemma_text_lt_total};
use crate::flags::{scoped, insert_by_key, sort_by_key, key_sorted, flag_entry, expected_flags};
use crate::completion::{
    visible_positionals, insert_by_index, sort_by_index, ordered_positionals, has_variadic,
    bounded_positionals, expected_positional, expected_positional_any, arg_actions,
    visible_flags, expected_flag_completions, lists_of,
};
use crate::ordered_map::{keys_of, inserted, inserted_all, text_entries, list_entries, texts_of};

verus! {

broadcast use vstd::seq_lib::group_to_multiset_ensures, vstd::seq_lib::group_seq_properties;

/// The keys of a sequence of arguments, in order.
pub open spec fn keys(s: Seq<SourceArg>) -> Seq<Seq<char>> {
    s.map_values(|a: SourceArg| a.key())
}

/// Each key is below the next.
pub open spec fn strictly_key_sorted(s: Seq<SourceArg>) -> bool {
    forall|i: int| 0 <= i < s.len() - 1 ==> text_lt(#[trigger] s[i].key(), s[i + 1].key())
}

proof fn lemma_insert_by_key(s: Seq<SourceArg>, a: SourceArg)
    requires
        key_sorted(s),
    ensures
        key_sorted(insert_by_key(s, a)),
        insert_by_key(s, a).len() == s.len() + 1,
        insert_by_key(s, a).last() == a || (s.len() > 0 && insert_by_key(s, a).last() == s.last()),
        keys(insert_by_key(s, a)).to_multiset() =~= keys(s).to_multiset().insert(a.key()),
        insert_by_key(s, a).to_multiset() =~= s.to_multiset().insert(a),
    decreases s.len(),
{
    let r = insert_by_key(s, a);
    if s.len() > 0 && text_lt(a.key(), s.last().key()) {
        let t = s.drop_last();
        assert forall|i: int| 0 <= i < t.len() - 1 implies !text_lt(#[trigger] t[i + 1].key(), t[i].key()) by {
            assert(s[i + 1] == t[i + 1]);
        }
        lemma_insert_by_key(t, a);
        let q = insert_by_key(t, a);
        if q.last() == a {
            lemma_text_lt_asymmetric(a.key(), s.last().key());
        } else {
            assert(s[s.len() - 2] == t.last());
            assert(s[(s.len() - 2) + 1] == s.last());
        }
        assert(!text_lt(s.last().key(), q.last().key()));
        assert forall|i: int| 0 <= i < r.len() - 1 implies !text_lt(#[trigger] r[i + 1].key(), r[i].key()) by {
            if i < r.len() - 2 {
                assert(r[i] == q[i] && r[i + 1] == q[i + 1]);
            } else {
                assert(r[i] == q.last() && r[i + 1] == s.last());
            }
        }
        assert(keys(r) =~= keys(q).push(s.last().key()));
        assert(keys(s) =~= keys(t).push(s.last().key()));
        assert(s =~= t.push(s.last()));
    } else {
        assert(keys(r) =~= keys(s).push(a.key()));
    }
}

proof fn lemma_sort_by_key(s: Seq<SourceArg>)
    ensures
        key_sorted(sort_by_key(s)),
        keys(sort_by_key(s)).to_multiset() =~= keys(s).to_multiset(),
        sort_by_key(s).to_multiset() =~= s.to_multiset(),
    decreases s.len(),
{
    if s.len() > 0 {
        lemma_sort_by_key(s.drop_last());
        lemma_insert_by_key(sort_by_key(s.drop_last()), s.last());
        assert(keys(s) =~= keys(s.drop_last()).push(s.last().key()));
        assert(s =~= s.drop_last().push(s.last()));
    }
}

/// The flags of each scope are entered into their map in ascending order of key
/// (long name, else short name); where no two of them share a key, the order is
/// strictly ascending.
pub proof fn lemma_flags_sorted(args: Seq<SourceArg>, global: bool)
    ensures
        key_sorted(sort_by_key(scoped(args, global))),
        keys(scoped(args, global)).no_duplicates() ==> strictly_key_sorted(
            sort_by_key(scoped(args, global)),
        ),
{
    let s = scoped(args, global);
    let r = sort_by_key(s);
    lemma_sort_by_key(s);
    if keys(s).no_duplicates() {
        keys(s).lemma_multiset_has_no_duplicates();
        keys(r).lemma_multiset_has_no_duplicates_conv();
        assert forall|i: int| 0 <= i < r.len() - 1 implies text_lt(#[trigger] r[i].key(), r[i + 1].key()) by {
            assert(keys(r)[i] != keys(r)[i + 1]);
            assert(!text_lt(r[i + 1].key(), r[i].key()));
            lemma_text_lt_total(r[i].key(), r[i + 1].key());
        }
    }
}

proof fn lemma_scoped_contains(s: Seq<SourceArg>, global: bool, x: SourceArg)
    ensures
        scoped(s, global).contains(x) <==> (s.contains(x) && x.is_flag() && x.global == global),
    decreases s.len(),
{
    if s.len() > 0 {
        lemma_scoped_contains(s.drop_last(), global, x);
        assert(s =~= s.drop_last().push(s.last()));
        if s.drop_last().contains(x) {
            let j = choose|j: int| 0 <= j < s.drop_last().len() && s.drop_last()[j] == x;
            assert(s[j] == x);
        }
        if s.contains(x) && x != s.last() {
            let j = choose|j: int| 0 <= j < s.len() && s[j] == x;
            assert(s.drop_last()[j] == x);
        }
    }
}

proof fn lemma_inserted_keys<V>(e: Seq<(Seq<char>, V)>, k: Seq<char>, v: V, x: Seq<char>)
    ensures
        keys_of(inserted(e, k, v)).contains(x) <==> (keys_of(e).contains(x) || x == k),
{
    if exists|i: int| 0 <= i < e.len() && #[trigger] e[i].0 == k {
        let i = choose|i: int| 0 <= i < e.len() && #[trigger] e[i].0 == k;
        assert(keys_of(inserted(e, k, v)) =~= keys_of(e));
        assert(keys_of(e)[i] == k);
    } else {
        assert(keys_of(inserted(e, k, v)) =~= keys_of(e).push(k));
    }
}

proof fn lemma_inserted_all_keys<V>(e: Seq<(Seq<char>, V)>, x: Seq<char>)
    ensures
        keys_of(inserted_all(e)).contains(x) <==> keys_of(e).contains(x),
    decreases e.len(),
{
    if e.len() > 0 {
        lemma_inserted_all_keys(e.drop_last(), x);
        lemma_inserted_keys(inserted_all(e.drop_last()), e.last().0, e.last().1, x);
        assert(keys_of(e) =~= keys_of(e.drop_last()).push(e.last().0));
    }
}

/// Every visible flag has an entry in the map of its own scope and is not among
/// the flags entered into the map of the other scope; every entry of the map of a
/// scope comes from a visible flag of that scope.
pub proof fn lemma_flags_partition(args: Seq<SourceArg>, a: SourceArg)
    requires
        args.contains(a),
        a.is_flag(),
    ensures
        keys_of(expected_flags(args, a.global)).contains(flag_entry(a).0),
        !sort_by_key(scoped(args, !a.global)).contains(a),
        forall|g: bool, k: Seq<char>|
            #[trigger] keys_of(expected_flags(args, g)).contains(k) ==> exists|b: SourceArg|
                args.contains(b) && b.is_flag() && b.global == g && flag_entry(b).0 == k,
{
    let own = sort_by_key(scoped(args, a.global));
    let other = sort_by_key(scoped(args, !a.global));
    lemma_sort_by_key(scoped(args, a.global));
    lemma_sort_by_key(scoped(args, !a.global));
    lemma_scoped_contains(args, a.global, a);
    lemma_scoped_contains(args, !a.global, a);
    assert(scoped(args, a.global).to_multiset().count(a) > 0);
    assert(own.to_multiset().count(a) > 0);
    assert(own.contains(a));
    if other.contains(a) {
        assert(other.to_multiset().count(a) > 0);
        assert(scoped(args, !a.global).to_multiset().count(a) > 0);
    }
    let e = own.map_values(|b: SourceArg| flag_entry(b));
    let j = choose|j: int| 0 <= j < own.len() && own[j] == a;
    assert(keys_of(e)[j] == flag_entry(a).0);
    lemma_inserted_all_keys(e, flag_entry(a).0);
    assert forall|g: bool, k: Seq<char>|
        #[trigger] keys_of(expected_flags(args, g)).contains(k) implies exists|b: SourceArg|
            args.contains(b) && b.is_flag() && b.global == g && flag_entry(b).0 == k by {
        let sorted = sort_by_key(scoped(args, g));
        let f = sorted.map_values(|b: SourceArg| flag_entry(b));
        lemma_sort_by_key(scoped(args, g));
        lemma_inserted_all_keys(f, k);
        let i = choose|i: int| 0 <= i < keys_of(f).len() && keys_of(f)[i] == k;
        let b = sorted[i];
        assert(sorted.contains(b));
        assert(sorted.to_multiset().count(b) > 0);
        assert(scoped(args, g).to_multiset().count(b) > 0);
        lemma_scoped_contains(args, g, b);
        assert(flag_entry(b).0 == k);
    }
}

/// Declaration indices never decrease along `s`.
pub open spec fn index_sorted(s: Seq<SourceArg>) -> bool {
    forall|i: int, j: int| 0 <= i < j < s.len() ==> s[i].index <= s[j].index
}

proof fn lemma_insert_by_index(s: Seq<SourceArg>, a: SourceArg)
    requires
        index_sorted(s),
    ensures
        index_sorted(insert_by_index(s, a)),
        insert_by_index(s, a).to_multiset() =~= s.to_multiset().insert(a),
    decreases s.len(),
{
    let r = insert_by_index(s, a);
    if s.len() > 0 && a.index < s.last().index {
        let t = s.drop_last();
        let l = s.last();
        lemma_insert_by_index(t, a);
        let q = insert_by_index(t, a);
        assert(s =~= t.push(l));
        assert forall|k: int| 0 <= k < q.len() implies #[trigger] q[k].index <= l.index by {
            assert(q.contains(q[k]));
            assert(q.to_multiset().count(q[k]) > 0);
            if q[k] != a {
                assert(t.to_multiset().count(q[k]) > 0);
                assert(t.contains(q[k]));
                let j = choose|j: int| 0 <= j < t.len() && t[j] == q[k];
                assert(s[j] == t[j]);
            }
        }
        assert forall|i: int, j: int| 0 <= i < j < r.len() implies r[i].index <= r[j].index by {
            assert(r[i] == q[i]);
            if j < r.len() - 1 {
                assert(r[j] == q[j]);
            }
        }
    } else {
        assert forall|i: int, j: int| 0 <= i < j < r.len() implies r[i].index <= r[j].index by {
            if j == r.len() - 1 && s.len() > 0 {
                assert(s[i].index <= s[s.len() - 1].index || i == s.len() - 1);
            }
        }
    }
}

proof fn lemma_sort_by_index(s: Seq<SourceArg>)
    ensures
        index_sorted(sort_by_index(s)),
        sort_by_index(s).to_multiset() =~= s.to_multiset(),
    decreases s.len(),
{
    if s.len() > 0 {
        lemma_sort_by_index(s.drop_last());
        lemma_insert_by_index(sort_by_index(s.drop_last()), s.last());
        assert(s =~= s.drop_last().push(s.last()));
    }
}

/// Of the visible positionals in declaration order, only the last can complete as
/// the trailing unbounded one; when it does, no visible positional has a higher
/// declaration index, and every other one keeps its own slot, in order. Otherwise
/// every visible positional has a slot and nothing completes as the trailing one.
pub proof fn lemma_positional_split(args: Seq<SourceArg>)
    ensures
        index_sorted(ordered_positionals(args)),
        has_variadic(ordered_positionals(args)) ==> {
            let p = ordered_positionals(args);
            &&& expected_positional_any(args) == arg_actions(p.last())
            &&& bounded_positionals(args) == p.drop_last()
            &&& forall|x: SourceArg| #[trigger] visible_positionals(args).contains(x) ==> x.index <= p.last().index
        },
        !has_variadic(ordered_positionals(args)) ==> {
            &&& expected_positional_any(args).len() == 0
            &&& bounded_positionals(args) == ordered_positionals(args)
        },
        expected_positional(args).len() + (if has_variadic(ordered_positionals(args)) { 1int } else { 0int })
            == visible_positionals(args).len(),
{
    let v = visible_positionals(args);
    let p = ordered_positionals(args);
    lemma_sort_by_index(v);
    assert(p.len() == v.len()) by {
        assert(p.to_multiset().len() == v.to_multiset().len());
    }
    if has_variadic(p) {
        assert forall|x: SourceArg| #[trigger] v.contains(x) implies x.index <= p.last().index by {
            assert(v.to_multiset().count(x) > 0);
            assert(p.to_multiset().count(x) > 0);
            assert(p.contains(x));
            let j = choose|j: int| 0 <= j < p.len() && p[j] == x;
            if j < p.len() - 1 {
                assert(p[j].index <= p[p.len() - 1].index);
            }
        }
    }
}

/// The arguments of `s` that are not hidden, in their order.
pub open spec fn shown(s: Seq<SourceArg>) -> Seq<SourceArg>
    decreases s.len(),
{
    if s.len() == 0 {
        Seq::empty()
    } else if !s.last().hidden {
        shown(s.drop_last()).push(s.last())
    } else {
        shown(s.drop_last())
    }
}

proof fn lemma_shown_selections(s: Seq<SourceArg>)
    ensures
        scoped(shown(s), true) == scoped(s, true),
        scoped(shown(s), false) == scoped(s, false),
        visible_flags(shown(s)) == visible_flags(s),
        visible_positionals(shown(s)) == visible_positionals(s),
    decreases s.len(),
{
    if s.len() > 0 {
        lemma_shown_selections(s.drop_last());
        if !s.last().hidden {
            assert(shown(s).drop_last() =~= shown(s.drop_last()));
        }
    }
}

/// Hidden arguments contribute no entry: everything derived from a command's
/// arguments is the same with its hidden arguments left out.
pub proof fn lemma_hidden_args_ignored(args: Seq<SourceArg>)
    ensures
        expected_flags(shown(args), false) == expected_flags(args, false),
        expected_flags(shown(args), true) == expected_flags(args, true),
        expected_flag_completions(shown(args)) == expected_flag_completions(args),
        expected_positional(shown(args)) == expected_positional(args),
        expected_positional_any(shown(args)) == expected_positional_any(args),
{
    lemma_shown_selections(args);
}

proof fn lemma_visible_children(s: Seq<SourceCommand>)
    ensures
        forall|i: int| 0 <= i < visible_children(s).len() ==> 0 <= #[trigger] visible_children(s)[i] < s.len()
            && !s[visible_children(s)[i]].hidden,
        forall|k: int| 0 <= k < s.len() && !(#[trigger] s[k]).hidden ==> visible_children(s).contains(k),
    decreases s.len(),
{
    if s.len() > 0 {
        let t = s.drop_last();
        lemma_visible_children(t);
        assert forall|k: int| 0 <= k < s.len() && !(#[trigger] s[k]).hidden implies visible_children(s).contains(k) by {
            if k < s.len() - 1 {
                assert(t[k] == s[k]);
                let j = choose|j: int| 0 <= j < visible_children(t).len() && visible_children(t)[j] == k;
                assert(visible_children(s)[j] == k);
            } else {
                assert(visible_children(s).last() == k);
            }
        }
        assert forall|i: int| 0 <= i < visible_children(s).len() implies 0 <= #[trigger] visible_children(s)[i] < s.len()
            && !s[visible_children(s)[i]].hidden by {
            if i < visible_children(t).len() {
                assert(visible_children(s)[i] == visible_children(t)[i]);
                assert(t[visible_children(t)[i]] == s[visible_children(t)[i]]);
            }
        }
    }
}

/// No hidden command appears in the output: each subcommand of the output is
/// derived from a subcommand that is not hidden, and each subcommand that is not
/// hidden has its output.
pub proof fn lemma_hidden_commands_ignored(out: Command, src: SourceCommand)
    requires
        describes(out, src),
    ensures
        forall|i: int| 0 <= i < out.commands@.len() ==> {
            let k = #[trigger] visible_children(src.subcommands@)[i];
            &&& 0 <= k < src.subcommands@.len()
            &&& !src.subcommands@[k].hidden
            &&& describes(out.commands@[i], src.subcommands@[k])
        },
        forall|k: int| 0 <= k < src.subcommands@.len() && !(#[trigger] src.subcommands@[k]).hidden
            ==> visible_children(src.subcommands@).contains(k),
{
    lemma_visible_children(src.subcommands@);
}

/// Two outputs hold the same document: equal texts, entries and lists throughout.
pub open spec fn same_output(a: Command, b: Command) -> bool
    decreases a,
{
    &&& a.name@ == b.name@
    &&& texts_of(a.aliases@) == texts_of(b.aliases@)
    &&& a.description@ == b.description@
    &&& text_entries(a.flags) == text_entries(b.flags)
    &&& text_entries(a.persistentflags) == text_entries(b.persistentflags)
    &&& list_entries(a.completion.flag) == list_entries(b.completion.flag)
    &&& lists_of(a.completion.positional@) == lists_of(b.completion.positional@)
    &&& texts_of(a.completion.positionalany@) == texts_of(b.completion.positionalany@)
    &&& lists_of(a.completion.dash@) == lists_of(b.completion.dash@)
    &&& texts_of(a.completion.dashany@) == texts_of(b.completion.dashany@)
    &&& a.commands@.len() == b.commands@.len()
    &&& forall|i: int| 0 <= i < a.commands@.len() ==> same_output(#[trigger] a.commands@[i], b.commands@[i])
}

/// The output is determined by the source: two outputs derived from one command
/// hold the same document.
pub proof fn lemma_deterministic(a: Command, b: Command, src: SourceCommand)
    requires
        describes(a, src),
        describes(b, src),
    ensures
        same_output(a, b),
    decreases src,
{
    let vis = visible_children(src.subcommands@);
    assert(lists_of(a.completion.dash@) =~= lists_of(b.completion.dash@));
    assert(texts_of(a.completion.dashany@) =~= texts_of(b.completion.dashany@));
    assert forall|i: int| 0 <= i < a.commands@.len() implies same_output(#[trigger] a.commands@[i], b.commands@[i]) by {
        assert(0 <= vis[i] < src.subcommands@.len());
        assert(decreases_to!(src => src.subcommands@[vis[i]]));
        lemma_deterministic(a.commands@[i], b.commands@[i], src.subcommands@[vis[i]]);
    }
}

/// The order and partition laws of the flags of one command's arguments.
pub open spec fn flag_laws(args: Seq<SourceArg>) -> bool {
    &&& forall|g: bool| key_sorted(sort_by_key(#[trigger] scoped(args, g)))
    &&& forall|g: bool|
        keys(#[trigger] scoped(args, g)).no_duplicates() ==> strictly_key_sorted(sort_by_key(scoped(args, g)))
    &&& forall|a: SourceArg|
        #[trigger] args.contains(a) && a.is_flag() ==> {
            &&& keys_of(expected_flags(args, a.global)).contains(flag_entry(a).0)
            &&& !sort_by_key(scoped(args, !a.global)).contains(a)
        }
}

/// The flag laws hold at `src` and at every command below it.
pub open spec fn flag_laws_everywhere(src: SourceCommand) -> bool
    decreases src,
{
    &&& flag_laws(src.args@)
    &&& forall|i: int|
        0 <= i < src.subcommands@.len() ==> flag_laws_everywhere(#[trigger] src.subcommands@[i])
}

/// At every command of a tree, the flags of each scope are entered in ascending
/// order of key (strictly where keys are distinct), and every visible flag has an
/// entry in the map of its own scope and is not among the flags of the other.
pub proof fn lemma_flag_laws_everywhere(src: SourceCommand)
    ensures
        flag_laws_everywhere(src),
    decreases src,
{
    let args = src.args@;
    lemma_flags_sorted(args, true);
    lemma_flags_sorted(args, false);
    assert forall|g: bool| key_sorted(sort_by_key(#[trigger] scoped(args, g))) by {
        lemma_flags_sorted(args, g);
    }
    assert forall|g: bool|
        keys(#[trigger] scoped(args, g)).no_duplicates() implies strictly_key_sorted(sort_by_key(scoped(args, g))) by {
        lemma_flags_sorted(args, g);
    }
    assert forall|a: SourceArg| #[trigger] args.contains(a) && a.is_flag() implies {
        &&& keys_of(expected_flags(args, a.global)).contains(flag_entry(a).0)
        &&& !sort_by_key(scoped(args, !a.global)).contains(a)
    } by {
        lemma_flags_partition(args, a);
    }
    assert forall|i: int| 0 <= i < src.subcommands@.len() implies flag_laws_everywhere(
        #[trigger] src.subcommands@[i],
    ) by {
        assert(decreases_to!(src => src.subcommands@[i]));
        lemma_flag_laws_everywhere(src.subcommands@[i]);
    }
}

} // verus!
