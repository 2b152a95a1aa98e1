use vstd::prelude::*;
use vstd::string::StringExecFns;
use indexmap::IndexMap;
use crate::model::{SourceArg, SourceCommand, SourceValue};
use crate::hint::{hint_actions, action_for};
use crate::flags::{pick, select, sort_by_key, insert_sorted, sort_args, all_keys, select_positions, sort_positions, key_text};
use crate::ordered_map::{list_entries, inserted_all, texts_of, new_list_map, insert_list};

verus! {

broadcast use vstd::string::group_string_axioms;

/// The token of a permitted value: its name, then a tab and its description if it has one.
pub open spec fn value_token(v: SourceValue) -> Seq<char> {
    match v.help {
        Some(h) => v.name@ + "\t"@ + h@,
        None => v.name@,
    }
}

/// The completion actions of an argument: those of its value hint, then its
/// permitted values.
pub open spec fn arg_actions(a: SourceArg) -> Seq<Seq<char>> {
    hint_actions(a.value_hint) + a.possible_values@.map_values(|v: SourceValue| value_token(v))
}

/// The tokens of an argument's permitted values.
pub fn values_for(a: &SourceArg) -> (r: Vec<String>)
    ensures
        texts_of(r@) == a.possible_values@.map_values(|v: SourceValue| value_token(v)),
{
    let mut r: Vec<String> = Vec::new();
    let mut i: usize = 0;
    while i < a.possible_values.len()
        invariant
            i <= a.possible_values.len(),
            texts_of(r@) == a.possible_values@.take(i as int).map_values(|v: SourceValue| value_token(v)),
        decreases a.possible_values.len() - i,
    {
        let v = &a.possible_values[i];
        let mut token = v.name.clone();
        match &v.help {
            Some(h) => {
                token.append("\t");
                token.append(h.as_str());
            },
            None => {},
        }
        assert(token@ == value_token(*v));
        let ghost prev = r@;
        r.push(token);
        assert(texts_of(r@) =~= texts_of(prev).push(value_token(*v)));
        assert(texts_of(r@) =~= a.possible_values@.take(i + 1).map_values(|v: SourceValue| value_token(v)));
        i = i + 1;
    }
    assert(a.possible_values@.take(i as int) =~= a.possible_values@);
    r
}

/// The completion actions of an argument.
pub fn actions_for(a: &SourceArg) -> (r: Vec<String>)
    ensures
        texts_of(r@) == arg_actions(*a),
{
    let mut r = action_for(a.value_hint);
    let mut values = values_for(a);
    let ghost before = r@;
    let ghost added = values@;
    r.append(&mut values);
    assert(texts_of(r@) =~= texts_of(before) + texts_of(added));
    r
}

/// The visible positional arguments of `s`, in their order.
pub open spec fn visible_positionals(s: Seq<SourceArg>) -> Seq<SourceArg> {
    select(s, true, None)
}

/// The visible flags of `s`, of either scope, in their order.
pub open spec fn visible_flags(s: Seq<SourceArg>) -> Seq<SourceArg> {
    select(s, false, None)
}

/// `a` placed into `s` after every element whose index is not above its own.
pub open spec fn insert_by_index(s: Seq<SourceArg>, a: SourceArg) -> Seq<SourceArg> {
    insert_sorted(s, a, true)
}

/// `s` in ascending order of declaration index; equal indices keep their order.
pub open spec fn sort_by_index(s: Seq<SourceArg>) -> Seq<SourceArg> {
    sort_args(s, true)
}

/// The visible positionals of `args` in declaration order.
pub open spec fn ordered_positionals(args: Seq<SourceArg>) -> Seq<SourceArg> {
    sort_by_index(visible_positionals(args))
}

/// Whether the last of the ordered positionals `p` takes an unlimited number of values.
pub open spec fn has_variadic(p: Seq<SourceArg>) -> bool {
    p.len() > 0 && p.last().unbounded
}

/// The ordered positionals of `args` without a trailing unbounded one.
pub open spec fn bounded_positionals(args: Seq<SourceArg>) -> Seq<SourceArg> {
    let p = ordered_positionals(args);
    if has_variadic(p) {
        p.drop_last()
    } else {
        p
    }
}

/// One action list per bounded positional of `args`, in declaration order.
pub open spec fn expected_positional(args: Seq<SourceArg>) -> Seq<Seq<Seq<char>>> {
    bounded_positionals(args).map_values(|a: SourceArg| arg_actions(a))
}

/// The actions of the trailing unbounded positional of `args`, if there is one.
pub open spec fn expected_positional_any(args: Seq<SourceArg>) -> Seq<Seq<char>> {
    let p = ordered_positionals(args);
    if has_variadic(p) {
        arg_actions(p.last())
    } else {
        Seq::empty()
    }
}

/// The key and actions of each argument of `s` that has actions, in order.
pub open spec fn completion_entries(s: Seq<SourceArg>) -> Seq<(Seq<char>, Seq<Seq<char>>)>
    decreases s.len(),
{
    if s.len() == 0 {
        Seq::empty()
    } else if arg_actions(s.last()).len() > 0 {
        completion_entries(s.drop_last()).push((s.last().key(), arg_actions(s.last())))
    } else {
        completion_entries(s.drop_last())
    }
}

/// The completion entries of the visible flags of `args`, in ascending order of key.
pub open spec fn expected_flag_completions(args: Seq<SourceArg>) -> Seq<(Seq<char>, Seq<Seq<char>>)> {
    inserted_all(completion_entries(sort_by_key(visible_flags(args))))
}

/// Lists of texts, as sequences of character sequences.
pub open spec fn lists_of(v: Seq<Vec<String>>) -> Seq<Seq<Seq<char>>> {
    v.map_values(|x: Vec<String>| texts_of(x@))
}

/// The positions of the visible positionals of `args`, in declaration order.
fn ordered_positions(args: &Vec<SourceArg>) -> (r: Vec<usize>)
    ensures
        pick(args@, r@) == ordered_positionals(args@),
        forall|t: int| 0 <= t < r.len() ==> r[t] < args.len(),
{
    let sel = select_positions(args, true, None);
    let keys = all_keys(args);
    sort_positions(args, &keys, &sel, true)
}

/// The actions of a command's trailing positional when it takes an unlimited
/// number of values; empty otherwise.
pub fn positionalany_completion_for(cmd: &SourceCommand) -> (r: Vec<String>)
    ensures
        texts_of(r@) == expected_positional_any(cmd.args@),
{
    let order = ordered_positions(&cmd.args);
    let n = order.len();
    if n > 0 && cmd.args[order[n - 1]].unbounded {
        actions_for(&cmd.args[order[n - 1]])
    } else {
        let r: Vec<String> = Vec::new();
        assert(texts_of(r@) =~= Seq::<Seq<char>>::empty());
        r
    }
}

/// One action list for each of a command's bounded positionals, in declaration
/// order; a trailing positional with an unlimited number of values is left out.
pub fn positional_completion_for(cmd: &SourceCommand) -> (r: Vec<Vec<String>>)
    ensures
        lists_of(r@) == expected_positional(cmd.args@),
{
    let args = &cmd.args;
    let order = ordered_positions(args);
    let ghost p = pick(args@, order@);
    let n = order.len();
    let count = if n > 0 && args[order[n - 1]].unbounded {
        n - 1
    } else {
        n
    };
    assert(bounded_positionals(args@) =~= p.take(count as int));
    let mut r: Vec<Vec<String>> = Vec::new();
    let mut t: usize = 0;
    while t < count
        invariant
            t <= count,
            count <= order.len(),
            p == pick(args@, order@),
            forall|u: int| 0 <= u < order.len() ==> order[u] < args.len(),
            lists_of(r@) == p.take(t as int).map_values(|a: SourceArg| arg_actions(a)),
        decreases count - t,
    {
        let actions = actions_for(&args[order[t]]);
        let ghost prev = r@;
        r.push(actions);
        assert(lists_of(r@) =~= lists_of(prev).push(arg_actions(p[t as int])));
        assert(lists_of(r@) =~= p.take(t + 1).map_values(|a: SourceArg| arg_actions(a)));
        t = t + 1;
    }
    r
}

/// The completion actions of a command's visible flags, keyed by long name, else
/// short name, in ascending order of that key; flags without actions are left out.
pub fn flag_completions_for(cmd: &SourceCommand) -> (r: IndexMap<String, Vec<String>>)
    ensures
        list_entries(r) == expected_flag_completions(cmd.args@),
{
    let args = &cmd.args;
    let sel = select_positions(args, false, None);
    let keys = all_keys(args);
    let sorted = sort_positions(args, &keys, &sel, false);
    let ghost order = pick(args@, sorted@);
    let mut m = new_list_map();
    let mut t: usize = 0;
    while t < sorted.len()
        invariant
            t <= sorted.len(),
            order == pick(args@, sorted@),
            forall|u: int| 0 <= u < sorted.len() ==> sorted[u] < args.len(),
            list_entries(m) == inserted_all(completion_entries(order.take(t as int))),
        decreases sorted.len() - t,
    {
        let a = &args[sorted[t]];
        let actions = actions_for(a);
        assert(order.take(t + 1).drop_last() =~= order.take(t as int));
        assert(order.take(t + 1).last() == *a);
        assert(texts_of(actions@).len() == actions@.len());
        if actions.len() > 0 {
            let key = key_text(a);
            proof {
                let e = completion_entries(order.take(t + 1));
                assert(e == completion_entries(order.take(t as int)).push((a.key(), arg_actions(*a))));
                assert(e.drop_last() =~= completion_entries(order.take(t as int)));
            }
            insert_list(&mut m, key, actions);
        }
        t = t + 1;
    }
    assert(order.take(sorted.len() as int) =~= order);
    m
}

} // verus!
