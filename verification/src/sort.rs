//! Sorting aliases and groups by name.

use vstd::prelude::*;
use vstd::string::StringSliceAdditionalSpecFns;

use crate::listing::opt_str_view;
use crate::model::{
    distinct_keys, has_key, key_index, lemma_key_index, value_of, AliasV, Config,
};
use crate::outcome::{Failure, Outcome};

verus! {

/// Byte-wise lexicographic comparison, from position `i` on.
pub open spec fn lex_le_from(x: Seq<u8>, y: Seq<u8>, i: int) -> bool
    decreases x.len() - i,
{
    if i >= x.len() {
        true
    } else if i >= y.len() {
        false
    } else if x[i] < y[i] {
        true
    } else if x[i] > y[i] {
        false
    } else {
        lex_le_from(x, y, i + 1)
    }
}

/// Name order: the lexicographic order of the names' byte sequences, which
/// is how the stored strings compare.
pub open spec fn name_le(a: Seq<char>, b: Seq<char>) -> bool {
    lex_le_from(vstd::utf8::encode_utf8(a), vstd::utf8::encode_utf8(b), 0)
}

/// The byte order is total.
proof fn lemma_lex_total(x: Seq<u8>, y: Seq<u8>, i: int)
    ensures
        lex_le_from(x, y, i) || lex_le_from(y, x, i),
    decreases x.len() - i,
{
    if i < x.len() && i < y.len() && x[i] == y[i] {
        lemma_lex_total(x, y, i + 1);
    }
}

/// The byte order is transitive.
proof fn lemma_lex_trans(x: Seq<u8>, y: Seq<u8>, z: Seq<u8>, i: int)
    requires
        lex_le_from(x, y, i),
        lex_le_from(y, z, i),
    ensures
        lex_le_from(x, z, i),
    decreases x.len() - i,
{
    if i >= x.len() {
    } else {
        if i < y.len() && i < z.len() && x[i] == y[i] && y[i] == z[i] {
            lemma_lex_trans(x, y, z, i + 1);
        }
    }
}

/// Compares two byte slices from position `i` on.
fn bytes_le_from(x: &[u8], y: &[u8], i: usize) -> (r: bool)
    requires
        i <= x@.len(),
    ensures
        r == lex_le_from(x@, y@, i as int),
    decreases x@.len() - i as int,
{
    if i >= x.len() {
        true
    } else if i >= y.len() {
        false
    } else if x[i] < y[i] {
        true
    } else if x[i] > y[i] {
        false
    } else {
        bytes_le_from(x, y, i + 1)
    }
}

/// Compares two names in the stored byte order.
pub fn str_le(a: &str, b: &str) -> (r: bool)
    ensures
        r == name_le(a@, b@),
{
    bytes_le_from(a.as_bytes(), b.as_bytes(), 0)
}

/// Two association sequences carrying the same mapping: equal length, the
/// same keys, and the same value under every key.
pub open spec fn same_assoc<V>(s: Seq<(Seq<char>, V)>, t: Seq<(Seq<char>, V)>) -> bool {
    &&& s.len() == t.len()
    &&& forall|k: Seq<char>|
        #![trigger has_key(s, k)]
        #![trigger has_key(t, k)]
        has_key(s, k) == has_key(t, k)
    &&& forall|k: Seq<char>|
        #![trigger value_of(s, k)]
        #![trigger value_of(t, k)]
        has_key(s, k) ==> value_of(s, k) == value_of(t, k)
}

/// Swapping two entries keeps the keys distinct and the mapping intact.
proof fn lemma_swap_assoc<V>(s: Seq<(Seq<char>, V)>, x: int, y: int)
    requires
        distinct_keys(s),
        0 <= x < s.len(),
        0 <= y < s.len(),
    ensures
        distinct_keys(s.update(x, s[y]).update(y, s[x])),
        same_assoc(s, s.update(x, s[y]).update(y, s[x])),
{
    let t = s.update(x, s[y]).update(y, s[x]);
    assert forall|p: int, q: int| 0 <= p < q < t.len() implies (#[trigger] t[p]).0 != (
    #[trigger] t[q]).0 by {
        let p0: int = if p == x { y } else if p == y { x } else { p };
        let q0: int = if q == x { y } else if q == y { x } else { q };
        assert(t[p] == s[p0]);
        assert(t[q] == s[q0]);
        if p0 < q0 {
            assert(s[p0].0 != s[q0].0);
        } else if q0 < p0 {
            assert(s[q0].0 != s[p0].0);
        }
    }
    assert forall|k: Seq<char>| #[trigger] has_key(s, k) implies has_key(t, k) by {
        let i = choose|i: int| 0 <= i < s.len() && (#[trigger] s[i]).0 == k;
        let i2: int = if i == x { y } else if i == y { x } else { i };
        assert(t[i2] == s[i]);
    }
    assert forall|k: Seq<char>| #[trigger] has_key(t, k) implies has_key(s, k) by {
        let i = choose|i: int| 0 <= i < t.len() && (#[trigger] t[i]).0 == k;
        let i2: int = if i == x { y } else if i == y { x } else { i };
        assert(s[i2] == t[i]);
    }
    assert forall|k: Seq<char>| has_key(s, k) implies #[trigger] value_of(s, k) == value_of(
        t,
        k,
    ) by {
        let i = key_index(s, k);
        assert(0 <= i < s.len() && s[i].0 == k);
        let i2: int = if i == x { y } else if i == y { x } else { i };
        assert(t[i2] == s[i]);
        lemma_key_index(t, k, i2);
    }
}

/// The mapping relation chains.
proof fn lemma_same_assoc_trans<V>(
    a: Seq<(Seq<char>, V)>,
    b: Seq<(Seq<char>, V)>,
    c: Seq<(Seq<char>, V)>,
)
    requires
        same_assoc(a, b),
        same_assoc(b, c),
    ensures
        same_assoc(a, c),
{
}

/// Reorders the groups into name order; the mapping itself is untouched.
pub fn sort_groups(config: &mut Config) -> (r: Result<Outcome, Failure>)
    requires
        old(config).wf(),
    ensures
        final(config).wf(),
        final(config)@.aliases == old(config)@.aliases,
        same_assoc(old(config)@.groups, final(config)@.groups),
        forall|i: int, j: int|
            0 <= i < j < final(config)@.groups.len() ==> name_le(
                (#[trigger] final(config)@.groups[i]).0,
                (#[trigger] final(config)@.groups[j]).0,
            ),
        r matches Ok(o) && o == Outcome::ConfigChanged,
{
    let n = config.groups.len();
    let mut a: usize = 0;
    while a < n
        invariant
            n == config@.groups.len(),
            a <= n,
            config.wf(),
            config@.aliases == old(config)@.aliases,
            same_assoc(old(config)@.groups, config@.groups),
            forall|i: int, j: int|
                0 <= i < j < a ==> name_le(
                    (#[trigger] config@.groups[i]).0,
                    (#[trigger] config@.groups[j]).0,
                ),
            forall|i: int, j: int|
                0 <= i < a && a <= j < n ==> name_le(
                    (#[trigger] config@.groups[i]).0,
                    (#[trigger] config@.groups[j]).0,
                ),
        decreases n - a,
    {
        proof {
            lemma_lex_total(
                vstd::utf8::encode_utf8(config@.groups[a as int].0),
                vstd::utf8::encode_utf8(config@.groups[a as int].0),
                0,
            );
        }
        let mut m: usize = a;
        let mut t: usize = a + 1;
        while t < n
            invariant
                n == config@.groups.len(),
                a <= m,
                m < t,
                t <= n,
                forall|u: int|
                    a <= u < t ==> name_le(
                        config@.groups[m as int].0,
                        (#[trigger] config@.groups[u]).0,
                    ),
            decreases n - t,
        {
            let cand = config.groups.key_at(t);
            let best = config.groups.key_at(m);
            if str_le(cand.as_str(), best.as_str()) {
                proof {
                    assert forall|u: int|
                        a <= u < t + 1 implies name_le(
                        config@.groups[t as int].0,
                        (#[trigger] config@.groups[u]).0,
                    ) by {
                        if u < t {
                            lemma_lex_trans(
                                vstd::utf8::encode_utf8(config@.groups[t as int].0),
                                vstd::utf8::encode_utf8(config@.groups[m as int].0),
                                vstd::utf8::encode_utf8(config@.groups[u].0),
                                0,
                            );
                        } else {
                            lemma_lex_total(
                                vstd::utf8::encode_utf8(config@.groups[t as int].0),
                                vstd::utf8::encode_utf8(config@.groups[t as int].0),
                                0,
                            );
                        }
                    }
                }
                m = t;
            } else {
                proof {
                    lemma_lex_total(
                        vstd::utf8::encode_utf8(config@.groups[t as int].0),
                        vstd::utf8::encode_utf8(config@.groups[m as int].0),
                        0,
                    );
                }
            }
            t = t + 1;
        }
        proof {
            lemma_swap_assoc(config@.groups, a as int, m as int);
            lemma_same_assoc_trans(
                old(config)@.groups,
                config@.groups,
                config@.groups.update(a as int, config@.groups[m as int]).update(
                    m as int,
                    config@.groups[a as int],
                ),
            );
        }
        config.groups.swap_entries(a, m);
        a = a + 1;
    }
    Ok(Outcome::ConfigChanged)
}

/// Reorders all aliases into name order; the mapping itself is untouched.
pub fn sort_all_aliases(config: &mut Config) -> (r: Result<Outcome, Failure>)
    requires
        old(config).wf(),
    ensures
        final(config).wf(),
        final(config)@.groups == old(config)@.groups,
        same_assoc(old(config)@.aliases, final(config)@.aliases),
        forall|i: int, j: int|
            0 <= i < j < final(config)@.aliases.len() ==> name_le(
                (#[trigger] final(config)@.aliases[i]).0,
                (#[trigger] final(config)@.aliases[j]).0,
            ),
        r matches Ok(o) && o == Outcome::ConfigChanged,
{
    let n = config.aliases.len();
    let mut a: usize = 0;
    while a < n
        invariant
            n == config@.aliases.len(),
            a <= n,
            config.wf(),
            config@.groups == old(config)@.groups,
            same_assoc(old(config)@.aliases, config@.aliases),
            forall|i: int, j: int|
                0 <= i < j < a ==> name_le(
                    (#[trigger] config@.aliases[i]).0,
                    (#[trigger] config@.aliases[j]).0,
                ),
            forall|i: int, j: int|
                0 <= i < a && a <= j < n ==> name_le(
                    (#[trigger] config@.aliases[i]).0,
                    (#[trigger] config@.aliases[j]).0,
                ),
        decreases n - a,
    {
        proof {
            lemma_lex_total(
                vstd::utf8::encode_utf8(config@.aliases[a as int].0),
                vstd::utf8::encode_utf8(config@.aliases[a as int].0),
                0,
            );
        }
        let mut m: usize = a;
        let mut t: usize = a + 1;
        while t < n
            invariant
                n == config@.aliases.len(),
                a <= m,
                m < t,
                t <= n,
                forall|u: int|
                    a <= u < t ==> name_le(
                        config@.aliases[m as int].0,
                        (#[trigger] config@.aliases[u]).0,
                    ),
            decreases n - t,
        {
            let cand = config.aliases.key_at(t);
            let best = config.aliases.key_at(m);
            if str_le(cand.as_str(), best.as_str()) {
                proof {
                    assert forall|u: int|
                        a <= u < t + 1 implies name_le(
                        config@.aliases[t as int].0,
                        (#[trigger] config@.aliases[u]).0,
                    ) by {
                        if u < t {
                            lemma_lex_trans(
                                vstd::utf8::encode_utf8(config@.aliases[t as int].0),
                                vstd::utf8::encode_utf8(config@.aliases[m as int].0),
                                vstd::utf8::encode_utf8(config@.aliases[u].0),
                                0,
                            );
                        } else {
                            lemma_lex_total(
                                vstd::utf8::encode_utf8(config@.aliases[t as int].0),
                                vstd::utf8::encode_utf8(config@.aliases[t as int].0),
                                0,
                            );
                        }
                    }
                }
                m = t;
            } else {
                proof {
                    lemma_lex_total(
                        vstd::utf8::encode_utf8(config@.aliases[t as int].0),
                        vstd::utf8::encode_utf8(config@.aliases[m as int].0),
                        0,
                    );
                }
            }
            t = t + 1;
        }
        proof {
            lemma_swap_assoc(config@.aliases, a as int, m as int);
            lemma_same_assoc_trans(
                old(config)@.aliases,
                config@.aliases,
                config@.aliases.update(a as int, config@.aliases[m as int]).update(
                    m as int,
                    config@.aliases[a as int],
                ),
            );
        }
        config.aliases.swap_entries(a, m);
        a = a + 1;
    }
    Ok(Outcome::ConfigChanged)
}

/// True when the stored alias belongs to the sorting scope: the named group,
/// or the ungrouped aliases for `None`.
pub open spec fn in_grp(e: (Seq<char>, AliasV), g: Option<Seq<char>>) -> bool {
    e.1.group == g
}

/// True when `idx` is one of the scope positions.
pub open spec fn pos_contains(ps: Seq<usize>, idx: int) -> bool {
    exists|t: int| 0 <= t < ps.len() && (#[trigger] ps[t]) as int == idx
}

/// Reorders only the aliases of one scope — a group, or the ungrouped for
/// `None` — by name, among themselves: every alias outside the scope keeps
/// its exact position, so the scope's aliases need not end up adjacent.
///
/// Fails with `GroupDoesNotExist` when a named group is absent.
pub fn sort_aliases_in_group(config: &mut Config, group: Option<&str>) -> (r: Result<
    Outcome,
    Failure,
>)
    requires
        old(config).wf(),
    ensures
        final(config).wf(),
        final(config)@.groups == old(config)@.groups,
        match r {
            Ok(o) => {
                &&& match opt_str_view(group) {
                    Some(g) => has_key(old(config)@.groups, g),
                    None => true,
                }
                &&& o == Outcome::ConfigChanged
                &&& final(config)@.aliases.len() == old(config)@.aliases.len()
                &&& same_assoc(old(config)@.aliases, final(config)@.aliases)
                &&& forall|i: int|
                    0 <= i < old(config)@.aliases.len() && !in_grp(
                        #[trigger] old(config)@.aliases[i],
                        opt_str_view(group),
                    ) ==> final(config)@.aliases[i] == old(config)@.aliases[i]
                &&& forall|i: int|
                    0 <= i < old(config)@.aliases.len() ==> (in_grp(
                        #[trigger] final(config)@.aliases[i],
                        opt_str_view(group),
                    ) == in_grp(old(config)@.aliases[i], opt_str_view(group)))
                &&& forall|i: int, j: int|
                    0 <= i < j < final(config)@.aliases.len() && in_grp(
                        #[trigger] final(config)@.aliases[i],
                        opt_str_view(group),
                    ) && in_grp(#[trigger] final(config)@.aliases[j], opt_str_view(group))
                        ==> name_le(final(config)@.aliases[i].0, final(config)@.aliases[j].0)
            },
            Err(e) => {
                &&& final(config)@ == old(config)@
                &&& e == Failure::GroupDoesNotExist
                &&& (opt_str_view(group) matches Some(g) && !has_key(old(config)@.groups, g))
            },
        },
{
    if let Some(name) = group {
        if !config.groups.contains_key(name) {
            return Err(Failure::GroupDoesNotExist);
        }
    }
    let ghost g = opt_str_view(group);
    let ghost orig = config@.aliases;
    let n = config.aliases.len();

    let mut pos: Vec<usize> = Vec::new();
    let mut idx: usize = 0;
    while idx < n
        invariant
            n == config@.aliases.len(),
            idx <= n,
            g == opt_str_view(group),
            orig == config@.aliases,
            forall|s: int, t: int|
                0 <= s < t < pos@.len() ==> #[trigger] pos@[s] < #[trigger] pos@[t],
            forall|t: int| 0 <= t < pos@.len() ==> (#[trigger] pos@[t]) < idx,
            forall|t: int| 0 <= t < pos@.len() ==> in_grp(orig[#[trigger] pos@[t] as int], g),
            forall|id: int|
                0 <= id < idx && in_grp(#[trigger] orig[id], g) ==> pos_contains(pos@, id),
        decreases n - idx,
    {
        let a = config.aliases.val_at(idx);
        let matches_scope = match (&a.group, group) {
            (Some(ag), Some(gn)) => crate::model::str_eq(ag.as_str(), gn),
            (None, None) => true,
            _ => false,
        };
        proof {
            assert(matches_scope == in_grp(orig[idx as int], g));
        }
        if matches_scope {
            let ghost pos0 = pos@;
            pos.push(idx);
            proof {
                assert forall|id: int|
                    0 <= id <= idx && in_grp(#[trigger] orig[id], g) implies pos_contains(
                    pos@,
                    id,
                ) by {
                    if id == idx {
                        assert(pos@[pos@.len() - 1] as int == idx as int);
                    } else {
                        let t = choose|t: int|
                            0 <= t < pos0.len() && (#[trigger] pos0[t]) as int == id;
                        assert(pos@[t] as int == id);
                    }
                }
            }
        }
        idx = idx + 1;
    }

    let np = pos.len();
    let mut k: usize = 0;
    while k < np
        invariant
            np == pos@.len(),
            k <= np,
            n == config@.aliases.len(),
            n == orig.len(),
            g == opt_str_view(group),
            config.wf(),
            config@.groups == old(config)@.groups,
            same_assoc(orig, config@.aliases),
            forall|s: int, t: int| 0 <= s < t < np ==> #[trigger] pos@[s] < #[trigger] pos@[t],
            forall|t: int| 0 <= t < np ==> (#[trigger] pos@[t]) < n,
            forall|t: int| 0 <= t < np ==> in_grp(orig[#[trigger] pos@[t] as int], g),
            forall|id: int| 0 <= id < n && in_grp(#[trigger] orig[id], g) ==> pos_contains(
                pos@,
                id,
            ),
            forall|id: int|
                0 <= id < n && !pos_contains(pos@, id) ==> config@.aliases[id] == #[trigger] orig[id],
            forall|t: int|
                0 <= t < np ==> in_grp(#[trigger] config@.aliases[pos@[t] as int], g),
            forall|s: int, t: int|
                0 <= s < t < k ==> name_le(
                    (#[trigger] config@.aliases[pos@[s] as int]).0,
                    (#[trigger] config@.aliases[pos@[t] as int]).0,
                ),
            forall|s: int, t: int|
                0 <= s < k && k <= t < np ==> name_le(
                    (#[trigger] config@.aliases[pos@[s] as int]).0,
                    (#[trigger] config@.aliases[pos@[t] as int]).0,
                ),
        decreases np - k,
    {
        proof {
            lemma_lex_total(
                vstd::utf8::encode_utf8(config@.aliases[pos@[k as int] as int].0),
                vstd::utf8::encode_utf8(config@.aliases[pos@[k as int] as int].0),
                0,
            );
        }
        let mut m: usize = k;
        let mut t: usize = k + 1;
        while t < np
            invariant
                np == pos@.len(),
                n == config@.aliases.len(),
                k <= m,
                m < t,
                t <= np,
                forall|t2: int| 0 <= t2 < np ==> (#[trigger] pos@[t2]) < n,
                forall|u: int|
                    k <= u < t ==> name_le(
                        config@.aliases[pos@[m as int] as int].0,
                        (#[trigger] config@.aliases[pos@[u] as int]).0,
                    ),
            decreases np - t,
        {
            let pt = pos[t];
            let pm = pos[m];
            let cand = config.aliases.key_at(pt);
            let best = config.aliases.key_at(pm);
            if str_le(cand.as_str(), best.as_str()) {
                proof {
                    assert forall|u: int|
                        k <= u < t + 1 implies name_le(
                        config@.aliases[pos@[t as int] as int].0,
                        (#[trigger] config@.aliases[pos@[u] as int]).0,
                    ) by {
                        if u < t {
                            lemma_lex_trans(
                                vstd::utf8::encode_utf8(
                                    config@.aliases[pos@[t as int] as int].0,
                                ),
                                vstd::utf8::encode_utf8(
                                    config@.aliases[pos@[m as int] as int].0,
                                ),
                                vstd::utf8::encode_utf8(config@.aliases[pos@[u] as int].0),
                                0,
                            );
                        } else {
                            lemma_lex_total(
                                vstd::utf8::encode_utf8(
                                    config@.aliases[pos@[t as int] as int].0,
                                ),
                                vstd::utf8::encode_utf8(
                                    config@.aliases[pos@[t as int] as int].0,
                                ),
                                0,
                            );
                        }
                    }
                }
                m = t;
            } else {
                proof {
                    lemma_lex_total(
                        vstd::utf8::encode_utf8(config@.aliases[pos@[t as int] as int].0),
                        vstd::utf8::encode_utf8(config@.aliases[pos@[m as int] as int].0),
                        0,
                    );
                }
            }
            t = t + 1;
        }
        let pk = pos[k];
        let pm = pos[m];
        proof {
            lemma_swap_assoc(config@.aliases, pk as int, pm as int);
            lemma_same_assoc_trans(
                orig,
                config@.aliases,
                config@.aliases.update(pk as int, config@.aliases[pm as int]).update(
                    pm as int,
                    config@.aliases[pk as int],
                ),
            );
        }
        config.aliases.swap_entries(pk, pm);
        proof {
            assert forall|id: int|
                0 <= id < n && !pos_contains(pos@, id) implies config@.aliases[id]
                == #[trigger] orig[id] by {
                assert(pos@[k as int] as int != id);
                assert(pos@[m as int] as int != id);
            }
        }
        k = k + 1;
    }
    proof {
        assert forall|i: int|
            0 <= i < n && in_grp(#[trigger] config@.aliases[i], g) implies pos_contains(
            pos@,
            i,
        ) by {
            if !pos_contains(pos@, i) {
                assert(config@.aliases[i] == orig[i]);
            }
        }
        assert forall|i: int, j: int|
            0 <= i < j < n && in_grp(#[trigger] config@.aliases[i], g) && in_grp(
                #[trigger] config@.aliases[j],
                g,
            ) implies name_le(config@.aliases[i].0, config@.aliases[j].0) by {
            let s = choose|t: int| 0 <= t < pos@.len() && (#[trigger] pos@[t]) as int == i;
            let t = choose|t: int| 0 <= t < pos@.len() && (#[trigger] pos@[t]) as int == j;
            if t < s {
                assert(pos@[t] < pos@[s]);
            } else if t == s {
            }
            assert(s < t);
        }
    }
    Ok(Outcome::ConfigChanged)
}

} // verus!
