//! Cross-operation laws of the library.
//!
//! Each proof function here states a property that relates several
//! operations, over the same models their contracts use.

use vstd::prelude::*;

use crate::codec::{
    decode_aliases, decode_group_aliases, decode_groups, decode_leaf, encode_leaf, EntryV,
};
use crate::model::{
    distinct_keys, has_key, key_index, lemma_key_index, upsert, value_of, AliasV,
};

verus! {

/// Adding a fresh alias and then removing that same name restores the alias
/// entries exactly.
///
/// `add_alias` on a fresh name appends `(name, a)`; `remove_alias` then
/// removes the entry at that name's index. This law shows the two cancel:
/// the entries after the pair of operations are the entries before them,
/// and neither operation touches the groups.
pub proof fn lemma_add_then_remove_restores(
    s: Seq<(Seq<char>, AliasV)>,
    name: Seq<char>,
    a: AliasV,
)
    requires
        distinct_keys(s),
        !has_key(s, name),
    ensures
        s.push((name, a)).remove(key_index(s.push((name, a)), name)) =~= s,
{
    let added = s.push((name, a));
    assert(added[s.len() as int].0 == name);
    assert forall|p: int, q: int| 0 <= p < q < added.len() implies (#[trigger] added[p]).0 != (
    #[trigger] added[q]).0 by {
        if q < s.len() {
            assert(s[p].0 != s[q].0);
        } else {
            if added[p].0 == name {
                assert(s[p].0 == name);
            }
        }
    }
    lemma_key_index(added, name, s.len() as int);
    assert(added.remove(s.len() as int) =~= s);
}

/// The names of the members of group `g` that are themselves enabled and
/// that the shell can take, in stored alias order.
pub open spec fn enabled_members(
    s: Seq<(Seq<char>, AliasV)>,
    g: Seq<char>,
    shell: crate::shell::ShellType,
) -> Seq<Seq<char>>
    decreases s.len(),
{
    if s.len() == 0 {
        Seq::<Seq<char>>::empty()
    } else {
        enabled_members(s.drop_last(), g, shell) + if crate::listing::in_scope(
            s.last(),
            Some(g),
            shell,
        ) && s.last().1.enabled {
            seq![s.last().0]
        } else {
            Seq::<Seq<char>>::empty()
        }
    }
}

/// One dropping statement per name, each on its own line.
pub open spec fn unalias_lines(names: Seq<Seq<char>>) -> Seq<char>
    decreases names.len(),
{
    if names.len() == 0 {
        Seq::<char>::empty()
    } else {
        unalias_lines(names.drop_last()) + crate::remove::unalias_cmd(names.last()) + "\n"@
    }
}

/// Disabling a group drops exactly its currently enabled members: the
/// statements `disable_group` promises are one `unalias` line per enabled
/// member, in the group's stored alias order — no more and no fewer. In
/// particular the payload is empty exactly when no member was enabled.
pub proof fn lemma_disable_group_statements(
    s: Seq<(Seq<char>, AliasV)>,
    g: Seq<char>,
    shell: crate::shell::ShellType,
)
    ensures
        crate::disable::disable_cmds(s, g, shell) == unalias_lines(enabled_members(s, g, shell)),
    decreases s.len(),
{
    if s.len() > 0 {
        lemma_disable_group_statements(s.drop_last(), g, shell);
        let en = enabled_members(s, g, shell);
        let en0 = enabled_members(s.drop_last(), g, shell);
        if crate::listing::in_scope(s.last(), Some(g), shell) && s.last().1.enabled {
            assert(en =~= en0.push(s.last().0));
            assert(en.drop_last() =~= en0);
            assert(en.last() == s.last().0);
            assert(crate::disable::disable_cmds(s, g, shell) =~= unalias_lines(en));
        } else {
            assert(en =~= en0);
            assert(crate::disable::disable_cmds(s, g, shell) =~= unalias_lines(en));
        }
    }
}

/// A decoded alias of the encoded form is the alias itself, for any alias
/// that respects the shorthand discipline and sits in scope `g`.
proof fn lemma_leaf_round_trip(a: AliasV, g: Option<Seq<char>>)
    requires
        a.wf(),
        a.group == g,
    ensures
        decode_leaf(encode_leaf(a), g) == a,
{
}

/// A key of a concatenation is a key of one of the parts.
proof fn lemma_concat_has_key<V>(x: Seq<(Seq<char>, V)>, y: Seq<(Seq<char>, V)>, k: Seq<char>)
    ensures
        has_key(x + y, k) == (has_key(x, k) || has_key(y, k)),
{
    let c = x + y;
    if has_key(c, k) {
        let i = choose|i: int| 0 <= i < c.len() && (#[trigger] c[i]).0 == k;
        if i < x.len() {
            assert(x[i].0 == k);
        } else {
            assert(y[i - x.len()].0 == k);
        }
    }
    if has_key(x, k) {
        let i = choose|i: int| 0 <= i < x.len() && (#[trigger] x[i]).0 == k;
        assert(c[i].0 == k);
    }
    if has_key(y, k) {
        let i = choose|i: int| 0 <= i < y.len() && (#[trigger] y[i]).0 == k;
        assert(c[i + x.len()].0 == k);
    }
}

/// Folding top-level entries distributes over concatenation.
proof fn lemma_decode_aliases_append(
    acc: Seq<(Seq<char>, AliasV)>,
    e1: Seq<(Seq<char>, EntryV)>,
    e2: Seq<(Seq<char>, EntryV)>,
)
    ensures
        decode_aliases(acc, e1 + e2) == decode_aliases(decode_aliases(acc, e1), e2),
    decreases e2.len(),
{
    if e2.len() == 0 {
        assert(e1 + e2 =~= e1);
    } else {
        assert((e1 + e2).drop_last() =~= e1 + e2.drop_last());
        assert((e1 + e2).last() == e2.last());
        lemma_decode_aliases_append(acc, e1, e2.drop_last());
    }
}

/// Folding group flags distributes over concatenation.
proof fn lemma_decode_groups_append(
    acc: Seq<(Seq<char>, bool)>,
    e1: Seq<(Seq<char>, EntryV)>,
    e2: Seq<(Seq<char>, EntryV)>,
)
    ensures
        decode_groups(acc, e1 + e2) == decode_groups(decode_groups(acc, e1), e2),
    decreases e2.len(),
{
    if e2.len() == 0 {
        assert(e1 + e2 =~= e1);
    } else {
        assert((e1 + e2).drop_last() =~= e1 + e2.drop_last());
        assert((e1 + e2).last() == e2.last());
        lemma_decode_groups_append(acc, e1, e2.drop_last());
    }
}

/// The entries of one scope, in stored order: those whose group field is
/// exactly `g`.
pub open spec fn scope_entries(s: Seq<(Seq<char>, AliasV)>, g: Option<Seq<char>>) -> Seq<
    (Seq<char>, AliasV),
>
    decreases s.len(),
{
    if s.len() == 0 {
        Seq::<(Seq<char>, AliasV)>::empty()
    } else {
        scope_entries(s.drop_last(), g) + if s.last().1.group == g {
            seq![s.last()]
        } else {
            Seq::<(Seq<char>, AliasV)>::empty()
        }
    }
}

/// The scopes of all groups, in stored group order, concatenated.
pub open spec fn cat_scopes(
    groups: Seq<(Seq<char>, bool)>,
    s: Seq<(Seq<char>, AliasV)>,
) -> Seq<(Seq<char>, AliasV)>
    decreases groups.len(),
{
    if groups.len() == 0 {
        Seq::<(Seq<char>, AliasV)>::empty()
    } else {
        cat_scopes(groups.drop_last(), s) + scope_entries(s, Some(groups.last().0))
    }
}

/// Dropping the last entry keeps every other key and its value.
proof fn lemma_value_drop_last(s: Seq<(Seq<char>, AliasV)>, k: Seq<char>)
    requires
        distinct_keys(s),
        s.len() > 0,
        has_key(s.drop_last(), k),
    ensures
        has_key(s, k),
        value_of(s, k) == value_of(s.drop_last(), k),
{
    let s0 = s.drop_last();
    assert forall|i: int, j: int| 0 <= i < j < s0.len() implies (#[trigger] s0[i]).0 != (
    #[trigger] s0[j]).0 by {
        assert(s[i].0 != s[j].0);
    }
    let i = choose|i: int| 0 <= i < s0.len() && (#[trigger] s0[i]).0 == k;
    assert(s[i].0 == k);
    lemma_key_index(s, k, i);
    lemma_key_index(s0, k, i);
}

/// The scope of `g` holds exactly the keys of `s` whose stored alias names
/// group `g`, with the stored values, and its keys stay distinct.
proof fn lemma_scope_keys(s: Seq<(Seq<char>, AliasV)>, g: Option<Seq<char>>)
    requires
        distinct_keys(s),
    ensures
        distinct_keys(scope_entries(s, g)),
        forall|k: Seq<char>| #[trigger]
            has_key(scope_entries(s, g), k) == (has_key(s, k) && value_of(s, k).group == g),
        forall|k: Seq<char>|
            has_key(scope_entries(s, g), k) ==> #[trigger] value_of(scope_entries(s, g), k)
                == value_of(s, k),
    decreases s.len(),
{
    if s.len() == 0 {
    } else {
        let s0 = s.drop_last();
        assert forall|i: int, j: int| 0 <= i < j < s0.len() implies (#[trigger] s0[i]).0 != (
        #[trigger] s0[j]).0 by {
            assert(s[i].0 != s[j].0);
        }
        lemma_scope_keys(s0, g);
        let sc0 = scope_entries(s0, g);
        let sc = scope_entries(s, g);
        let last = s.last();
        lemma_key_index(s, last.0, s.len() - 1);

        if last.1.group == g {
            assert(sc =~= sc0.push(last));
            // the appended key is fresh among the scope's keys
            assert forall|i: int, j: int| 0 <= i < j < sc.len() implies (#[trigger] sc[i]).0
                != (#[trigger] sc[j]).0 by {
                if j < sc0.len() {
                    assert(sc0[i].0 != sc0[j].0);
                } else {
                    assert(sc[j] == last);
                    assert(has_key(sc0, sc0[i].0));
                    assert(has_key(s0, sc0[i].0));
                    let w = choose|w: int|
                        0 <= w < s0.len() && (#[trigger] s0[w]).0 == sc0[i].0;
                    assert(s[w].0 == sc0[i].0);
                    assert(s[w].0 != s[s.len() - 1].0);
                }
            }
            assert forall|k: Seq<char>| #[trigger]
                has_key(sc, k) == (has_key(s, k) && value_of(s, k).group == g) by {
                lemma_concat_has_key(sc0, seq![last], k);
                if k == last.0 {
                    assert(seq![last][0].0 == k);
                    assert(has_key(seq![last], k));
                } else {
                    if has_key(s, k) {
                        let w = choose|w: int| 0 <= w < s.len() && (#[trigger] s[w]).0 == k;
                        assert(w < s0.len());
                        assert(s0[w].0 == k);
                        lemma_value_drop_last(s, k);
                    }
                    if has_key(s0, k) {
                        lemma_value_drop_last(s, k);
                    }
                    if has_key(seq![last], k) {
                        assert(seq![last][0].0 == k);
                    }
                }
            }
            assert forall|k: Seq<char>| has_key(sc, k) implies #[trigger] value_of(sc, k)
                == value_of(s, k) by {
                if k == last.0 {
                    lemma_key_index(sc, k, sc.len() - 1);
                } else {
                    assert(has_key(sc0, k));
                    let w = choose|w: int| 0 <= w < sc0.len() && (#[trigger] sc0[w]).0 == k;
                    assert(sc[w] == sc0[w]);
                    lemma_key_index(sc, k, w);
                    lemma_key_index(sc0, k, w);
                    assert(has_key(s0, k));
                    lemma_value_drop_last(s, k);
                }
            }
        } else {
            assert(sc =~= sc0);
            assert forall|k: Seq<char>| #[trigger]
                has_key(sc, k) == (has_key(s, k) && value_of(s, k).group == g) by {
                if k == last.0 {
                    if has_key(sc0, k) {
                        assert(has_key(s0, k));
                        let w = choose|w: int|
                            0 <= w < s0.len() && (#[trigger] s0[w]).0 == k;
                        assert(s[w].0 == k);
                        assert(s[w].0 != s[s.len() - 1].0);
                    }
                } else {
                    if has_key(s, k) {
                        let w = choose|w: int| 0 <= w < s.len() && (#[trigger] s[w]).0 == k;
                        assert(w < s0.len());
                        assert(s0[w].0 == k);
                        lemma_value_drop_last(s, k);
                    }
                    if has_key(s0, k) {
                        lemma_value_drop_last(s, k);
                    }
                }
            }
            assert forall|k: Seq<char>| has_key(sc, k) implies #[trigger] value_of(sc, k)
                == value_of(s, k) by {
                assert(has_key(s0, k));
                lemma_value_drop_last(s, k);
            }
        }
    }
}

/// Folding group items distributes over concatenation.
proof fn lemma_decode_items_append(
    acc: Seq<(Seq<char>, AliasV)>,
    g: Seq<char>,
    i1: Seq<(Seq<char>, crate::codec::LeafV)>,
    i2: Seq<(Seq<char>, crate::codec::LeafV)>,
)
    ensures
        decode_group_aliases(acc, g, i1 + i2) == decode_group_aliases(
            decode_group_aliases(acc, g, i1),
            g,
            i2,
        ),
    decreases i2.len(),
{
    if i2.len() == 0 {
        assert(i1 + i2 =~= i1);
    } else {
        assert((i1 + i2).drop_last() =~= i1 + i2.drop_last());
        assert((i1 + i2).last() == i2.last());
        lemma_decode_items_append(acc, g, i1, i2.drop_last());
    }
}

/// Decoding the bare top-level entries of a configuration appends exactly
/// the ungrouped scope to the accumulator.
proof fn lemma_decode_tops(
    acc: Seq<(Seq<char>, AliasV)>,
    s: Seq<(Seq<char>, AliasV)>,
    groups: Seq<(Seq<char>, bool)>,
)
    requires
        distinct_keys(s),
        forall|i: int| 0 <= i < s.len() ==> (#[trigger] s[i]).1.wf(),
        forall|i: int|
            0 <= i < s.len() ==> match (#[trigger] s[i]).1.group {
                Some(g) => has_key(groups, g),
                None => true,
            },
        forall|i: int| 0 <= i < s.len() ==> !has_key(acc, (#[trigger] s[i]).0),
    ensures
        decode_aliases(acc, crate::codec::top_entries(s, groups)) =~= acc + scope_entries(
            s,
            None,
        ),
    decreases s.len(),
{
    if s.len() == 0 {
        assert(crate::codec::top_entries(s, groups) =~= Seq::<(Seq<char>, EntryV)>::empty());
        assert(acc + scope_entries(s, None) =~= acc);
    } else {
        let s0 = s.drop_last();
        assert forall|i: int, j: int| 0 <= i < j < s0.len() implies (#[trigger] s0[i]).0 != (
        #[trigger] s0[j]).0 by {
            assert(s[i].0 != s[j].0);
        }
        assert forall|i: int| 0 <= i < s0.len() implies (#[trigger] s0[i]).1.wf() && !has_key(
            acc,
            s0[i].0,
        ) && match s0[i].1.group {
            Some(g) => has_key(groups, g),
            None => true,
        } by {
            assert(s0[i] == s[i]);
            assert(s[i].1.wf());
        }
        lemma_decode_tops(acc, s0, groups);
        let last = s.last();
        let t0 = crate::codec::top_entries(s0, groups);
        if crate::codec::emitted_top(last.1, groups) {
            assert(crate::codec::top_entries(s, groups) =~= t0 + seq![
                (last.0, EntryV::Leaf(encode_leaf(last.1))),
            ]);
            lemma_decode_aliases_append(
                acc,
                t0,
                seq![(last.0, EntryV::Leaf(encode_leaf(last.1)))],
            );
            let mid = decode_aliases(acc, t0);
            let one = seq![(last.0, EntryV::Leaf(encode_leaf(last.1)))];
            assert(one.drop_last() =~= Seq::<(Seq<char>, EntryV)>::empty());
            assert(decode_aliases(mid, Seq::<(Seq<char>, EntryV)>::empty()) == mid);
            assert(decode_aliases(mid, one) == upsert(
                mid,
                last.0,
                decode_leaf(encode_leaf(last.1), None),
            ));
            // the group of a top-emitted alias is None, since a named group
            // would have to be present
            assert(last.1.group is None);
            lemma_leaf_round_trip(last.1, None);
            // the new key is fresh in the accumulator and in the scope so far
            lemma_scope_keys(s0, None);
            lemma_concat_has_key(acc, scope_entries(s0, None), last.0);
            assert(!has_key(acc, last.0));
            if has_key(s0, last.0) {
                let w = choose|w: int| 0 <= w < s0.len() && (#[trigger] s0[w]).0 == last.0;
                assert(s[w].0 == s[s.len() - 1].0);
                assert(false);
            }
            assert(!has_key(mid, last.0));
            assert(decode_aliases(acc, crate::codec::top_entries(s, groups)) =~= acc
                + scope_entries(s, None));
        } else {
            assert(crate::codec::top_entries(s, groups) =~= t0);
            assert(last.1.group is Some);
            assert(scope_entries(s, None) =~= scope_entries(s0, None));
        }
    }
}

/// Decoding one group's items appends exactly that group's scope to the
/// accumulator, provided none of the group's members is already there.
proof fn lemma_decode_members(
    acc: Seq<(Seq<char>, AliasV)>,
    s: Seq<(Seq<char>, AliasV)>,
    g: Seq<char>,
)
    requires
        distinct_keys(s),
        forall|i: int| 0 <= i < s.len() ==> (#[trigger] s[i]).1.wf(),
        forall|i: int|
            0 <= i < s.len() && (#[trigger] s[i]).1.group == Some(g) ==> !has_key(acc, s[i].0),
    ensures
        decode_group_aliases(acc, g, crate::codec::member_items(s, g)) =~= acc + scope_entries(
            s,
            Some(g),
        ),
    decreases s.len(),
{
    if s.len() == 0 {
        assert(acc + scope_entries(s, Some(g)) =~= acc);
    } else {
        let s0 = s.drop_last();
        assert forall|i: int, j: int| 0 <= i < j < s0.len() implies (#[trigger] s0[i]).0 != (
        #[trigger] s0[j]).0 by {
            assert(s[i].0 != s[j].0);
        }
        assert forall|i: int| 0 <= i < s0.len() implies (#[trigger] s0[i]).1.wf() && (
        s0[i].1.group == Some(g) ==> !has_key(acc, s0[i].0)) by {
            assert(s0[i] == s[i]);
            assert(s[i].1.wf());
            assert(s[i].1.group == Some(g) ==> !has_key(acc, s[i].0));
        }
        lemma_decode_members(acc, s0, g);
        let last = s.last();
        let m0 = crate::codec::member_items(s0, g);
        if last.1.group == Some(g) {
            assert(crate::codec::member_items(s, g) =~= m0 + seq![
                (last.0, encode_leaf(last.1)),
            ]);
            lemma_decode_items_append(acc, g, m0, seq![(last.0, encode_leaf(last.1))]);
            let mid = decode_group_aliases(acc, g, m0);
            let one = seq![(last.0, encode_leaf(last.1))];
            assert(one.drop_last() =~= Seq::<(Seq<char>, crate::codec::LeafV)>::empty());
            assert(decode_group_aliases(
                mid,
                g,
                Seq::<(Seq<char>, crate::codec::LeafV)>::empty(),
            ) == mid);
            assert(decode_group_aliases(mid, g, one) == upsert(
                mid,
                last.0,
                decode_leaf(encode_leaf(last.1), Some(g)),
            ));
            lemma_leaf_round_trip(last.1, Some(g));
            lemma_scope_keys(s0, Some(g));
            lemma_concat_has_key(acc, scope_entries(s0, Some(g)), last.0);
            assert(!has_key(acc, last.0));
            if has_key(s0, last.0) {
                let w = choose|w: int| 0 <= w < s0.len() && (#[trigger] s0[w]).0 == last.0;
                assert(s[w].0 == s[s.len() - 1].0);
                assert(false);
            }
            assert(!has_key(mid, last.0));
            assert(decode_group_aliases(acc, g, crate::codec::member_items(s, g)) =~= acc
                + scope_entries(s, Some(g)));
        } else {
            assert(crate::codec::member_items(s, g) =~= m0);
            assert(scope_entries(s, Some(g)) =~= scope_entries(s0, Some(g)));
        }
    }
}

/// The concatenated group scopes hold exactly the keys whose alias names a
/// group among `groups`.
proof fn lemma_cat_scopes_keys(groups: Seq<(Seq<char>, bool)>, s: Seq<(Seq<char>, AliasV)>)
    requires
        distinct_keys(s),
    ensures
        forall|k: Seq<char>| #[trigger]
            has_key(cat_scopes(groups, s), k) == (has_key(s, k) && (
            value_of(s, k).group matches Some(g) && has_key(groups, g))),
    decreases groups.len(),
{
    if groups.len() == 0 {
        assert forall|k: Seq<char>| !(#[trigger] has_key(cat_scopes(groups, s), k)) by {}
        assert forall|k: Seq<char>|
            !(has_key(s, k) && (value_of(s, k).group matches Some(g) && has_key(
                groups,
                g,
            ))) by {}
    } else {
        let g0 = groups.drop_last();
        lemma_cat_scopes_keys(g0, s);
        lemma_scope_keys(s, Some(groups.last().0));
        assert forall|k: Seq<char>| #[trigger]
            has_key(cat_scopes(groups, s), k) == (has_key(s, k) && (
            value_of(s, k).group matches Some(g) && has_key(groups, g))) by {
            lemma_concat_has_key(
                cat_scopes(g0, s),
                scope_entries(s, Some(groups.last().0)),
                k,
            );
            if has_key(s, k) && (value_of(s, k).group matches Some(g) && has_key(groups, g)) {
                let gk = value_of(s, k).group->0;
                let w = choose|w: int| 0 <= w < groups.len() && (#[trigger] groups[w]).0 == gk;
                if w < g0.len() {
                    assert(g0[w].0 == gk);
                }
            }
            if has_key(cat_scopes(g0, s), k) {
                let gk = value_of(s, k).group->0;
                let w = choose|w: int| 0 <= w < g0.len() && (#[trigger] g0[w]).0 == gk;
                assert(groups[w].0 == gk);
            }
        }
    }
}

/// Decoding the group tables appends each group's scope, in group order.
proof fn lemma_decode_blocks(
    acc: Seq<(Seq<char>, AliasV)>,
    groups: Seq<(Seq<char>, bool)>,
    s: Seq<(Seq<char>, AliasV)>,
)
    requires
        distinct_keys(s),
        distinct_keys(groups),
        forall|i: int| 0 <= i < s.len() ==> (#[trigger] s[i]).1.wf(),
        forall|k: Seq<char>|
            #[trigger] has_key(acc, k) ==> has_key(s, k) && value_of(s, k).group is None,
    ensures
        decode_aliases(acc, crate::codec::group_entries(groups, s)) =~= acc + cat_scopes(
            groups,
            s,
        ),
    decreases groups.len(),
{
    if groups.len() == 0 {
        assert(acc + cat_scopes(groups, s) =~= acc);
    } else {
        let g0 = groups.drop_last();
        assert forall|i: int, j: int| 0 <= i < j < g0.len() implies (#[trigger] g0[i]).0 != (
        #[trigger] g0[j]).0 by {
            assert(groups[i].0 != groups[j].0);
        }
        lemma_decode_blocks(acc, g0, s);
        let last = groups.last();
        let ge0 = crate::codec::group_entries(g0, s);
        assert(crate::codec::group_entries(groups, s) =~= ge0 + seq![
            (
                last.0,
                EntryV::Group {
                    enabled: last.1,
                    aliases: crate::codec::member_items(s, last.0),
                },
            ),
        ]);
        lemma_decode_aliases_append(
            acc,
            ge0,
            seq![
                (
                    last.0,
                    EntryV::Group {
                        enabled: last.1,
                        aliases: crate::codec::member_items(s, last.0),
                    },
                ),
            ],
        );
        let mid = decode_aliases(acc, ge0);
        let one = seq![
            (
                last.0,
                EntryV::Group {
                    enabled: last.1,
                    aliases: crate::codec::member_items(s, last.0),
                },
            ),
        ];
        assert(one.drop_last() =~= Seq::<(Seq<char>, EntryV)>::empty());
        assert(decode_aliases(mid, Seq::<(Seq<char>, EntryV)>::empty()) == mid);
        assert(decode_aliases(mid, one) == decode_group_aliases(
            mid,
            last.0,
            crate::codec::member_items(s, last.0),
        ));
        // members of the last group are in no earlier piece
        lemma_cat_scopes_keys(g0, s);
        assert forall|i: int|
            0 <= i < s.len() && (#[trigger] s[i]).1.group == Some(last.0) implies !has_key(
            mid,
            s[i].0,
        ) by {
            lemma_key_index(s, s[i].0, i);
            lemma_concat_has_key(acc, cat_scopes(g0, s), s[i].0);
            if has_key(cat_scopes(g0, s), s[i].0) {
                let gk = value_of(s, s[i].0).group->0;
                let w = choose|w: int| 0 <= w < g0.len() && (#[trigger] g0[w]).0 == gk;
                assert(groups[w].0 == gk);
                assert(groups[w].0 != groups[groups.len() - 1].0);
            }
        }
        lemma_decode_members(mid, s, last.0);
        assert(decode_aliases(acc, crate::codec::group_entries(groups, s)) =~= acc
            + cat_scopes(groups, s));
    }
}

/// Decoding the encoded entries registers exactly the original groups, in
/// order, with their flags.
proof fn lemma_decode_groups_of_encode(c: crate::model::ConfigV)
    requires
        distinct_keys(c.groups),
    ensures
        decode_groups(Seq::<(Seq<char>, bool)>::empty(), crate::codec::encode_entries(c)) =~= c.groups,
{
    // the top-level alias entries register no group
    lemma_tops_no_groups(Seq::<(Seq<char>, bool)>::empty(), c.aliases, c.groups);
    lemma_decode_groups_append(
        Seq::<(Seq<char>, bool)>::empty(),
        crate::codec::top_entries(c.aliases, c.groups),
        crate::codec::group_entries(c.groups, c.aliases),
    );
    lemma_group_blocks_register(Seq::<(Seq<char>, bool)>::empty(), c.groups, c.aliases);
    assert(Seq::<(Seq<char>, bool)>::empty() + c.groups =~= c.groups);
}

/// Leaf entries leave the group accumulator alone.
proof fn lemma_tops_no_groups(
    acc: Seq<(Seq<char>, bool)>,
    s: Seq<(Seq<char>, AliasV)>,
    groups: Seq<(Seq<char>, bool)>,
)
    ensures
        decode_groups(acc, crate::codec::top_entries(s, groups)) == acc,
    decreases s.len(),
{
    if s.len() == 0 {
        assert(crate::codec::top_entries(s, groups) =~= Seq::<(Seq<char>, EntryV)>::empty());
    } else {
        lemma_tops_no_groups(acc, s.drop_last(), groups);
        let t0 = crate::codec::top_entries(s.drop_last(), groups);
        if crate::codec::emitted_top(s.last().1, groups) {
            let one = seq![(s.last().0, EntryV::Leaf(encode_leaf(s.last().1)))];
            assert(crate::codec::top_entries(s, groups) =~= t0 + one);
            lemma_decode_groups_append(acc, t0, one);
            assert(one.drop_last() =~= Seq::<(Seq<char>, EntryV)>::empty());
            let mid = decode_groups(acc, t0);
            assert(decode_groups(mid, Seq::<(Seq<char>, EntryV)>::empty()) == mid);
            assert(decode_groups(mid, one) == mid);
        } else {
            assert(crate::codec::top_entries(s, groups) =~= t0);
        }
    }
}

/// Group tables register the groups one after the other, appending each.
proof fn lemma_group_blocks_register(
    acc: Seq<(Seq<char>, bool)>,
    groups: Seq<(Seq<char>, bool)>,
    s: Seq<(Seq<char>, AliasV)>,
)
    requires
        distinct_keys(groups),
        forall|i: int| 0 <= i < groups.len() ==> !has_key(acc, (#[trigger] groups[i]).0),
    ensures
        decode_groups(acc, crate::codec::group_entries(groups, s)) =~= acc + groups,
    decreases groups.len(),
{
    if groups.len() == 0 {
        assert(acc + groups =~= acc);
    } else {
        let g0 = groups.drop_last();
        assert forall|i: int, j: int| 0 <= i < j < g0.len() implies (#[trigger] g0[i]).0 != (
        #[trigger] g0[j]).0 by {
            assert(groups[i].0 != groups[j].0);
        }
        assert forall|i: int| 0 <= i < g0.len() implies !has_key(acc, (#[trigger] g0[i]).0) by {
            assert(g0[i] == groups[i]);
            assert(!has_key(acc, groups[i].0));
        }
        lemma_group_blocks_register(acc, g0, s);
        let last = groups.last();
        let ge0 = crate::codec::group_entries(g0, s);
        let one = seq![
            (
                last.0,
                EntryV::Group {
                    enabled: last.1,
                    aliases: crate::codec::member_items(s, last.0),
                },
            ),
        ];
        assert(crate::codec::group_entries(groups, s) =~= ge0 + one);
        lemma_decode_groups_append(acc, ge0, one);
        assert(one.drop_last() =~= Seq::<(Seq<char>, EntryV)>::empty());
        let mid = decode_groups(acc, ge0);
        assert(decode_groups(mid, Seq::<(Seq<char>, EntryV)>::empty()) == mid);
        assert(decode_groups(mid, one) == upsert(mid, last.0, last.1));
        lemma_concat_has_key(acc, g0, last.0);
        assert(!has_key(acc, last.0));
        if has_key(g0, last.0) {
            let w = choose|w: int| 0 <= w < g0.len() && (#[trigger] g0[w]).0 == last.0;
            assert(groups[w].0 == groups[groups.len() - 1].0);
            assert(false);
        }
        assert(!has_key(mid, last.0));
        assert(decode_groups(acc, crate::codec::group_entries(groups, s)) =~= acc + groups);
    }
}

/// Decoding an encoded configuration restores it: the groups come back as
/// the very same sequence, and the aliases come back scope by scope — first
/// the ungrouped aliases in their stored order, then each group's aliases
/// in their stored order, group by group. Every alias keeps its name and
/// value, so the configuration is restored as a mapping, with the order of
/// groups and the order of aliases within every scope preserved.
///
/// This asks only what every configuration reachable through the core
/// operations satisfies: distinct names, the shorthand discipline, and no
/// alias pointing at an absent group.
pub proof fn lemma_round_trip(c: crate::model::ConfigV)
    requires
        distinct_keys(c.aliases),
        distinct_keys(c.groups),
        forall|i: int| 0 <= i < c.aliases.len() ==> (#[trigger] c.aliases[i]).1.wf(),
        forall|i: int|
            0 <= i < c.aliases.len() ==> match (#[trigger] c.aliases[i]).1.group {
                Some(g) => has_key(c.groups, g),
                None => true,
            },
    ensures
        decode_groups(Seq::<(Seq<char>, bool)>::empty(), crate::codec::encode_entries(c))
            =~= c.groups,
        decode_aliases(Seq::<(Seq<char>, AliasV)>::empty(), crate::codec::encode_entries(c))
            =~= scope_entries(c.aliases, None) + cat_scopes(c.groups, c.aliases),
        crate::codec::decode_ok(crate::codec::encode_entries(c)),
{
    lemma_decode_groups_of_encode(c);

    let empty_a = Seq::<(Seq<char>, AliasV)>::empty();
    assert forall|i: int| 0 <= i < c.aliases.len() implies !has_key(
        empty_a,
        (#[trigger] c.aliases[i]).0,
    ) by {}
    lemma_decode_tops(empty_a, c.aliases, c.groups);
    lemma_decode_aliases_append(
        empty_a,
        crate::codec::top_entries(c.aliases, c.groups),
        crate::codec::group_entries(c.groups, c.aliases),
    );
    let mid = decode_aliases(empty_a, crate::codec::top_entries(c.aliases, c.groups));
    lemma_scope_keys(c.aliases, None);
    assert forall|k: Seq<char>| #[trigger] has_key(mid, k) implies has_key(c.aliases, k)
        && value_of(c.aliases, k).group is None by {
        lemma_concat_has_key(empty_a, scope_entries(c.aliases, None), k);
    }
    lemma_decode_blocks(mid, c.groups, c.aliases);
    assert(mid =~= scope_entries(c.aliases, None));
    lemma_encode_decode_ok(c.aliases, c.groups);
}

/// A lookup in a distinct concatenation lands in the part that holds the
/// key, the left part first.
proof fn lemma_concat_value<V>(x: Seq<(Seq<char>, V)>, y: Seq<(Seq<char>, V)>, k: Seq<char>)
    requires
        distinct_keys(x + y),
    ensures
        has_key(x, k) ==> has_key(x + y, k) && value_of(x + y, k) == value_of(x, k),
        !has_key(x, k) && has_key(y, k) ==> has_key(x + y, k) && value_of(x + y, k) == value_of(
            y,
            k,
        ),
{
    let c = x + y;
    assert forall|i: int, j: int| 0 <= i < j < x.len() implies (#[trigger] x[i]).0 != (
    #[trigger] x[j]).0 by {
        assert(c[i].0 != c[j].0);
    }
    assert forall|i: int, j: int| 0 <= i < j < y.len() implies (#[trigger] y[i]).0 != (
    #[trigger] y[j]).0 by {
        assert(c[i + x.len()].0 != c[j + x.len()].0);
    }
    if has_key(x, k) {
        let w = choose|w: int| 0 <= w < x.len() && (#[trigger] x[w]).0 == k;
        assert(c[w] == x[w]);
        lemma_key_index(c, k, w);
        lemma_key_index(x, k, w);
    } else if has_key(y, k) {
        let w = choose|w: int| 0 <= w < y.len() && (#[trigger] y[w]).0 == k;
        assert(c[w + x.len()] == y[w]);
        lemma_key_index(c, k, w + x.len());
        lemma_key_index(y, k, w);
    }
}

/// With distinct groups the concatenated scopes keep their keys distinct:
/// the scopes are pairwise disjoint.
proof fn lemma_cat_scopes_distinct(groups: Seq<(Seq<char>, bool)>, s: Seq<(Seq<char>, AliasV)>)
    requires
        distinct_keys(s),
        distinct_keys(groups),
    ensures
        distinct_keys(cat_scopes(groups, s)),
    decreases groups.len(),
{
    if groups.len() > 0 {
        let g0 = groups.drop_last();
        assert forall|i: int, j: int| 0 <= i < j < g0.len() implies (#[trigger] g0[i]).0 != (
        #[trigger] g0[j]).0 by {
            assert(groups[i].0 != groups[j].0);
        }
        lemma_cat_scopes_distinct(g0, s);
        lemma_cat_scopes_keys(g0, s);
        let last = groups.last();
        lemma_scope_keys(s, Some(last.0));
        let c0 = cat_scopes(g0, s);
        let sc = scope_entries(s, Some(last.0));
        let c = cat_scopes(groups, s);
        assert(c == c0 + sc);
        assert forall|p: int, q: int| 0 <= p < q < c.len() implies (#[trigger] c[p]).0 != (
        #[trigger] c[q]).0 by {
            if q < c0.len() {
                assert(c[p] == c0[p]);
                assert(c[q] == c0[q]);
                assert(c0[p].0 != c0[q].0);
            } else if p >= c0.len() {
                assert(c[p] == sc[p - c0.len()]);
                assert(c[q] == sc[q - c0.len()]);
                assert(sc[p - c0.len()].0 != sc[q - c0.len()].0);
            } else {
                assert(c[p] == c0[p]);
                assert(c[q] == sc[q - c0.len()]);
                if c0[p].0 == sc[q - c0.len()].0 {
                    let k = c0[p].0;
                    lemma_key_index(c0, k, p);
                    lemma_key_index(sc, k, q - c0.len());
                    // the key's group would have to be both an earlier group
                    // and the last one
                    assert(has_key(c0, k));
                    assert(has_key(sc, k));
                    assert(value_of(s, k).group == Some(last.0));
                    let gk = value_of(s, k).group->0;
                    let w = choose|w: int| 0 <= w < g0.len() && (#[trigger] g0[w]).0 == gk;
                    assert(groups[w].0 == gk);
                    assert(groups[w].0 != groups[groups.len() - 1].0);
                }
            }
        }
    }
}

/// A key of the concatenated scopes keeps its stored value.
proof fn lemma_cat_scopes_value(
    groups: Seq<(Seq<char>, bool)>,
    s: Seq<(Seq<char>, AliasV)>,
    k: Seq<char>,
)
    requires
        distinct_keys(s),
        distinct_keys(groups),
        has_key(cat_scopes(groups, s), k),
    ensures
        value_of(cat_scopes(groups, s), k) == value_of(s, k),
    decreases groups.len(),
{
    let g0 = groups.drop_last();
    assert forall|i: int, j: int| 0 <= i < j < g0.len() implies (#[trigger] g0[i]).0 != (
    #[trigger] g0[j]).0 by {
        assert(groups[i].0 != groups[j].0);
    }
    let c0 = cat_scopes(g0, s);
    let sc = scope_entries(s, Some(groups.last().0));
    lemma_cat_scopes_distinct(groups, s);
    lemma_concat_value(c0, sc, k);
    lemma_concat_has_key(c0, sc, k);
    if has_key(c0, k) {
        lemma_cat_scopes_value(g0, s, k);
    } else {
        lemma_scope_keys(s, Some(groups.last().0));
    }
}

/// The round trip restores the configuration as a mapping: the decoded
/// aliases hold exactly the original names, each with its original value.
/// Together with [`lemma_round_trip`] this is the whole round-trip law:
/// same groups in the same order, the same aliases as a mapping, and the
/// stored alias order preserved within every scope.
pub proof fn lemma_round_trip_mapping(c: crate::model::ConfigV)
    requires
        distinct_keys(c.aliases),
        distinct_keys(c.groups),
        forall|i: int| 0 <= i < c.aliases.len() ==> (#[trigger] c.aliases[i]).1.wf(),
        forall|i: int|
            0 <= i < c.aliases.len() ==> match (#[trigger] c.aliases[i]).1.group {
                Some(g) => has_key(c.groups, g),
                None => true,
            },
    ensures
        distinct_keys(
            decode_aliases(Seq::<(Seq<char>, AliasV)>::empty(), crate::codec::encode_entries(c)),
        ),
        forall|k: Seq<char>| #[trigger]
            has_key(
                decode_aliases(
                    Seq::<(Seq<char>, AliasV)>::empty(),
                    crate::codec::encode_entries(c),
                ),
                k,
            ) == has_key(c.aliases, k),
        forall|k: Seq<char>|
            has_key(c.aliases, k) ==> #[trigger] value_of(
                decode_aliases(
                    Seq::<(Seq<char>, AliasV)>::empty(),
                    crate::codec::encode_entries(c),
                ),
                k,
            ) == value_of(c.aliases, k),
{
    lemma_round_trip(c);
    let d = decode_aliases(Seq::<(Seq<char>, AliasV)>::empty(), crate::codec::encode_entries(c));
    let scn = scope_entries(c.aliases, None);
    let cat = cat_scopes(c.groups, c.aliases);
    assert(d == scn + cat);
    lemma_scope_keys(c.aliases, None);
    lemma_cat_scopes_keys(c.groups, c.aliases);
    lemma_cat_scopes_distinct(c.groups, c.aliases);

    assert forall|p: int, q: int| 0 <= p < q < d.len() implies (#[trigger] d[p]).0 != (
    #[trigger] d[q]).0 by {
        if q < scn.len() {
            assert(d[p] == scn[p]);
            assert(d[q] == scn[q]);
            assert(scn[p].0 != scn[q].0);
        } else if p >= scn.len() {
            assert(d[p] == cat[p - scn.len()]);
            assert(d[q] == cat[q - scn.len()]);
            assert(cat[p - scn.len()].0 != cat[q - scn.len()].0);
        } else {
            assert(d[p] == scn[p]);
            assert(d[q] == cat[q - scn.len()]);
            if scn[p].0 == cat[q - scn.len()].0 {
                let k = scn[p].0;
                lemma_key_index(scn, k, p);
                lemma_key_index(cat, k, q - scn.len());
                assert(has_key(scn, k));
                assert(has_key(cat, k));
                assert(value_of(c.aliases, k).group is None);
            }
        }
    }

    assert forall|k: Seq<char>| #[trigger] has_key(d, k) == has_key(c.aliases, k) by {
        lemma_concat_has_key(scn, cat, k);
        if has_key(c.aliases, k) {
            match value_of(c.aliases, k).group {
                Some(g) => {
                    let w = key_index(c.aliases, k);
                    assert(0 <= w < c.aliases.len() && c.aliases[w].0 == k);
                    assert(c.aliases[w].1 == value_of(c.aliases, k));
                    assert(has_key(c.groups, g));
                },
                None => {},
            }
        }
    }

    assert forall|k: Seq<char>| has_key(c.aliases, k) implies #[trigger] value_of(d, k)
        == value_of(c.aliases, k) by {
        lemma_concat_has_key(scn, cat, k);
        lemma_concat_value(scn, cat, k);
        if has_key(scn, k) {
        } else {
            assert(has_key(d, k));
            assert(has_key(cat, k));
            lemma_cat_scopes_value(c.groups, c.aliases, k);
        }
    }
}

/// The encoded entries never hide a nested group, so decoding them cannot
/// fail.
proof fn lemma_encode_decode_ok(s: Seq<(Seq<char>, AliasV)>, groups: Seq<(Seq<char>, bool)>)
    ensures
        crate::codec::decode_ok(
            crate::codec::top_entries(s, groups) + crate::codec::group_entries(groups, s),
        ),
{
    lemma_decode_ok_tops(s, groups);
    lemma_decode_ok_concat(
        crate::codec::top_entries(s, groups),
        crate::codec::group_entries(groups, s),
    );
}

/// `decode_ok` splits over concatenation.
proof fn lemma_decode_ok_concat(e1: Seq<(Seq<char>, EntryV)>, e2: Seq<(Seq<char>, EntryV)>)
    requires
        crate::codec::decode_ok(e1),
        crate::codec::decode_ok(e2),
    ensures
        crate::codec::decode_ok(e1 + e2),
    decreases e2.len(),
{
    if e2.len() == 0 {
        assert(e1 + e2 =~= e1);
    } else {
        assert((e1 + e2).drop_last() =~= e1 + e2.drop_last());
        assert((e1 + e2).last() == e2.last());
        lemma_decode_ok_concat(e1, e2.drop_last());
    }
}

/// Top-level alias entries are always legal to decode.
proof fn lemma_decode_ok_tops(s: Seq<(Seq<char>, AliasV)>, groups: Seq<(Seq<char>, bool)>)
    ensures
        crate::codec::decode_ok(crate::codec::top_entries(s, groups)),
        crate::codec::decode_ok(crate::codec::group_entries(groups, s)),
    decreases s.len() + groups.len(),
{
    if s.len() == 0 {
        assert(crate::codec::top_entries(s, groups) =~= Seq::<(Seq<char>, EntryV)>::empty());
    } else {
        lemma_decode_ok_tops(s.drop_last(), groups);
        let t0 = crate::codec::top_entries(s.drop_last(), groups);
        if crate::codec::emitted_top(s.last().1, groups) {
            let one = seq![(s.last().0, EntryV::Leaf(encode_leaf(s.last().1)))];
            assert(crate::codec::top_entries(s, groups) =~= t0 + one);
            assert(crate::codec::decode_ok(one)) by {
                assert(one.drop_last() =~= Seq::<(Seq<char>, EntryV)>::empty());
                assert(crate::codec::decode_ok(Seq::<(Seq<char>, EntryV)>::empty()));
            }
            lemma_decode_ok_concat(t0, one);
        } else {
            assert(crate::codec::top_entries(s, groups) =~= t0);
        }
    }
    if groups.len() == 0 {
        assert(crate::codec::group_entries(groups, s) =~= Seq::<(Seq<char>, EntryV)>::empty());
    } else {
        lemma_decode_ok_groups(groups, s);
    }
}

/// Group tables are always legal to decode: their items are leaves.
proof fn lemma_decode_ok_groups(groups: Seq<(Seq<char>, bool)>, s: Seq<(Seq<char>, AliasV)>)
    ensures
        crate::codec::decode_ok(crate::codec::group_entries(groups, s)),
    decreases groups.len(),
{
    if groups.len() > 0 {
        lemma_decode_ok_groups(groups.drop_last(), s);
        let last = groups.last();
        let ge0 = crate::codec::group_entries(groups.drop_last(), s);
        let one = seq![
            (
                last.0,
                EntryV::Group {
                    enabled: last.1,
                    aliases: crate::codec::member_items(s, last.0),
                },
            ),
        ];
        assert(crate::codec::group_entries(groups, s) =~= ge0 + one);
        assert(crate::codec::decode_ok(one)) by {
            assert(one.drop_last() =~= Seq::<(Seq<char>, EntryV)>::empty());
            assert(crate::codec::decode_ok(Seq::<(Seq<char>, EntryV)>::empty()));
            lemma_member_items_leaves(s, last.0);
        }
        lemma_decode_ok_concat(ge0, one);
    }
}

/// Encoded group items are never nested groups.
proof fn lemma_member_items_leaves(s: Seq<(Seq<char>, AliasV)>, g: Seq<char>)
    ensures
        forall|j: int|
            0 <= j < crate::codec::member_items(s, g).len() ==> !((#[trigger] crate::codec::member_items(
                s,
                g,
            )[j]).1 is Nested),
    decreases s.len(),
{
    if s.len() > 0 {
        lemma_member_items_leaves(s.drop_last(), g);
        let m0 = crate::codec::member_items(s.drop_last(), g);
        let ms = crate::codec::member_items(s, g);
        assert forall|j: int| 0 <= j < ms.len() implies !((#[trigger] ms[j]).1 is Nested) by {
            if j < m0.len() {
                assert(ms[j] == m0[j]);
            }
        }
    }
}

} // verus!
