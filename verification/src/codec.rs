//! The structured on-disk representation and its conversions.
//!
//! On disk the configuration is a flat mapping whose entries are a bare
//! command string, an explicit alias table, or a group table of the first
//! two forms; a group inside a group is a decode failure.

use vstd::prelude::*;

use crate::model::{
    distinct_keys, has_key, key_index, lemma_upsert_has_key, upsert, Alias, AliasV, Config,
};

verus! {

/// The explicit form of one alias on disk.
#[derive(Debug, PartialEq, Eq)]
pub struct AliasSpec {
    pub command: String,
    pub enabled: bool,
    pub global: bool,
}

/// One on-disk entry: shorthand, explicit, or a group of the first two.
#[derive(Debug, PartialEq, Eq)]
pub enum AliasSpecTypes {
    Simple(String),
    Detailed(AliasSpec),
    Group(GroupSpec),
}

/// A group table: its flag and its named entries.
#[derive(Debug, PartialEq, Eq)]
pub struct GroupSpec {
    pub enabled: bool,
    pub aliases: Vec<(String, AliasSpecTypes)>,
}

/// The whole on-disk mapping, in file order.
#[derive(Debug, PartialEq, Eq)]
pub struct ConfigSpec {
    pub entries: Vec<(String, AliasSpecTypes)>,
}

/// Mathematical value of an [`AliasSpec`].
#[verifier::ext_equal]
pub ghost struct AliasSpecV {
    pub command: Seq<char>,
    pub enabled: bool,
    pub global: bool,
}

/// Mathematical value of an entry nested inside a group: the two alias
/// forms, or the illegal nested group (whose content never matters).
#[verifier::ext_equal]
pub ghost enum LeafV {
    Simple(Seq<char>),
    Detailed(AliasSpecV),
    Nested,
}

/// Mathematical value of a top-level entry.
#[verifier::ext_equal]
pub ghost enum EntryV {
    Leaf(LeafV),
    Group { enabled: bool, aliases: Seq<(Seq<char>, LeafV)> },
}

/// The shallow view of a nested entry.
pub open spec fn leaf_view(e: AliasSpecTypes) -> LeafV {
    match e {
        AliasSpecTypes::Simple(c) => LeafV::Simple(c@),
        AliasSpecTypes::Detailed(a) => LeafV::Detailed(
            AliasSpecV { command: a.command@, enabled: a.enabled, global: a.global },
        ),
        AliasSpecTypes::Group(_) => LeafV::Nested,
    }
}

/// The view of a top-level entry.
pub open spec fn entry_view(e: AliasSpecTypes) -> EntryV {
    match e {
        AliasSpecTypes::Group(g) => EntryV::Group {
            enabled: g.enabled,
            aliases: g.aliases@.map_values(|p: (String, AliasSpecTypes)| (p.0@, leaf_view(p.1))),
        },
        other => EntryV::Leaf(leaf_view(other)),
    }
}

impl View for ConfigSpec {
    type V = Seq<(Seq<char>, EntryV)>;

    open spec fn view(&self) -> Seq<(Seq<char>, EntryV)> {
        self.entries@.map_values(|p: (String, AliasSpecTypes)| (p.0@, entry_view(p.1)))
    }
}

/// The alias a legal nested entry decodes to, under group `g`: the
/// shorthand means enabled, not global, not detailed; the explicit form is
/// marked detailed as read.
pub open spec fn decode_leaf(l: LeafV, g: Option<Seq<char>>) -> AliasV {
    match l {
        LeafV::Simple(c) => AliasV {
            command: c,
            group: g,
            enabled: true,
            detailed: false,
            global: false,
        },
        LeafV::Detailed(a) => AliasV {
            command: a.command,
            group: g,
            enabled: a.enabled,
            detailed: true,
            global: a.global,
        },
        LeafV::Nested => AliasV {
            command: Seq::<char>::empty(),
            group: g,
            enabled: true,
            detailed: false,
            global: false,
        },
    }
}

/// The alias entries after folding one group's items, in item order.
pub open spec fn decode_group_aliases(
    acc: Seq<(Seq<char>, AliasV)>,
    gname: Seq<char>,
    items: Seq<(Seq<char>, LeafV)>,
) -> Seq<(Seq<char>, AliasV)>
    decreases items.len(),
{
    if items.len() == 0 {
        acc
    } else {
        upsert(
            decode_group_aliases(acc, gname, items.drop_last()),
            items.last().0,
            decode_leaf(items.last().1, Some(gname)),
        )
    }
}

/// The alias entries after folding the top-level entries, in file order.
pub open spec fn decode_aliases(
    acc: Seq<(Seq<char>, AliasV)>,
    entries: Seq<(Seq<char>, EntryV)>,
) -> Seq<(Seq<char>, AliasV)>
    decreases entries.len(),
{
    if entries.len() == 0 {
        acc
    } else {
        let a1 = decode_aliases(acc, entries.drop_last());
        match entries.last().1 {
            EntryV::Leaf(l) => upsert(a1, entries.last().0, decode_leaf(l, None)),
            EntryV::Group { enabled, aliases } => decode_group_aliases(
                a1,
                entries.last().0,
                aliases,
            ),
        }
    }
}

/// The group entries after folding the top-level entries, in file order.
pub open spec fn decode_groups(
    acc: Seq<(Seq<char>, bool)>,
    entries: Seq<(Seq<char>, EntryV)>,
) -> Seq<(Seq<char>, bool)>
    decreases entries.len(),
{
    if entries.len() == 0 {
        acc
    } else {
        let g1 = decode_groups(acc, entries.drop_last());
        match entries.last().1 {
            EntryV::Leaf(_) => g1,
            EntryV::Group { enabled, aliases } => upsert(g1, entries.last().0, enabled),
        }
    }
}

/// True when no group entry hides a nested group.
pub open spec fn decode_ok(entries: Seq<(Seq<char>, EntryV)>) -> bool
    decreases entries.len(),
{
    if entries.len() == 0 {
        true
    } else {
        decode_ok(entries.drop_last()) && match entries.last().1 {
            EntryV::Leaf(_) => true,
            EntryV::Group { enabled, aliases } => forall|j: int|
                0 <= j < aliases.len() ==> !((#[trigger] aliases[j]).1 is Nested),
        }
    }
}

/// One bad entry refutes `decode_ok` for the whole sequence.
proof fn lemma_decode_ok_at(entries: Seq<(Seq<char>, EntryV)>, i: int)
    requires
        0 <= i < entries.len(),
        !(match entries[i].1 {
            EntryV::Leaf(_) => true,
            EntryV::Group { enabled, aliases } => forall|j: int|
                0 <= j < aliases.len() ==> !((#[trigger] aliases[j]).1 is Nested),
        }),
    ensures
        !decode_ok(entries),
    decreases entries.len(),
{
    if i + 1 < entries.len() {
        assert(entries.drop_last()[i] == entries[i]);
        lemma_decode_ok_at(entries.drop_last(), i);
    }
}

/// What decoding failed on.
#[derive(Debug, Clone, Copy, PartialEq, Eq)]
pub enum DecodeError {
    /// A group table inside a group table.
    NestedGroup,
}

/// Builds the domain configuration from the on-disk representation.
///
/// Groups register under their flag and attribute every nested alias to
/// their name; any other entry becomes an ungrouped alias; a repeated alias
/// name keeps its first position with the later value. A nested group fails
/// with `NestedGroup` rather than dropping data.
pub fn convert_spec_to_config(spec: &ConfigSpec) -> (r: Result<Config, DecodeError>)
    ensures
        match r {
            Ok(c) => {
                &&& decode_ok(spec@)
                &&& c@.aliases =~= decode_aliases(Seq::<(Seq<char>, AliasV)>::empty(), spec@)
                &&& c@.groups =~= decode_groups(Seq::<(Seq<char>, bool)>::empty(), spec@)
                &&& c.wf()
                &&& c.aliases_wf()
                &&& c.groups_closed()
            },
            Err(e) => e == DecodeError::NestedGroup && !decode_ok(spec@),
        },
{
    let mut config = Config::new();
    let n = spec.entries.len();
    let mut i: usize = 0;
    while i < n
        invariant
            n == spec@.len(),
            i <= n,
            config.wf(),
            config.aliases_wf(),
            config.groups_closed(),
            decode_ok(spec@.take(i as int)),
            config@.aliases =~= decode_aliases(
                Seq::<(Seq<char>, AliasV)>::empty(),
                spec@.take(i as int),
            ),
            config@.groups =~= decode_groups(
                Seq::<(Seq<char>, bool)>::empty(),
                spec@.take(i as int),
            ),
        decreases n - i,
    {
        proof {
            assert(spec@.take(i + 1).drop_last() =~= spec@.take(i as int));
            assert(spec@.take(i + 1).last() == spec@[i as int]);
        }
        let name = &spec.entries[i].0;
        match &spec.entries[i].1 {
            AliasSpecTypes::Group(gs) => {
                proof {
                    assert(spec.entries@[i as int].1 is Group);
                    assert(spec.entries@[i as int].1 == AliasSpecTypes::Group(*gs));
                }
                let ghost groups_before = config@.groups;
                let gname = name.clone();
                config.groups.insert(gname.clone(), gs.enabled);
                proof {
                    lemma_upsert_has_key(groups_before, gname@, gname@, gs.enabled);
                    assert(config@.groups =~= upsert(groups_before, gname@, gs.enabled));
                    assert forall|k2: Seq<char>| has_key(groups_before, k2) implies has_key(
                        config@.groups,
                        k2,
                    ) by {
                        lemma_upsert_has_key(groups_before, gname@, k2, gs.enabled);
                    }
                }
                let ghost items = gs.aliases@.map_values(
                    |p: (String, AliasSpecTypes)| (p.0@, leaf_view(p.1)),
                );
                let m = gs.aliases.len();
                let mut j: usize = 0;
                while j < m
                    invariant
                        n == spec@.len(),
                        i < n,
                        spec.entries@[i as int].1 == AliasSpecTypes::Group(*gs),
                        spec@[i as int].1 == entry_view(spec.entries@[i as int].1),
                        m == gs.aliases@.len(),
                        j <= m,
                        items == gs.aliases@.map_values(
                            |p: (String, AliasSpecTypes)| (p.0@, leaf_view(p.1)),
                        ),
                        config.wf(),
                        config.aliases_wf(),
                        config.groups_closed(),
                        has_key(config@.groups, gname@),
                        config@.groups =~= upsert(groups_before, gname@, gs.enabled),
                        forall|t: int| 0 <= t < j ==> !((#[trigger] items[t]).1 is Nested),
                        config@.aliases =~= decode_group_aliases(
                            decode_aliases(
                                Seq::<(Seq<char>, AliasV)>::empty(),
                                spec@.take(i as int),
                            ),
                            gname@,
                            items.take(j as int),
                        ),
                    decreases m - j,
                {
                    proof {
                        assert(items.take(j + 1).drop_last() =~= items.take(j as int));
                        assert(items.take(j + 1).last() == items[j as int]);
                    }
                    let aname = &gs.aliases[j].0;
                    let ghost aliases_before = config@.aliases;
                    let alias = match &gs.aliases[j].1 {
                        AliasSpecTypes::Group(_) => {
                            proof {
                                let e = spec.entries@[i as int].1;
                                assert(e == AliasSpecTypes::Group(*gs));
                                assert(spec@[i as int].1 == entry_view(e));
                                assert(items[j as int] == (
                                    gs.aliases@[j as int].0@,
                                    leaf_view(gs.aliases@[j as int].1),
                                ));
                                assert(items[j as int].1 is Nested);
                                lemma_decode_ok_at(spec@, i as int);
                            }
                            return Err(DecodeError::NestedGroup);
                        },
                        AliasSpecTypes::Simple(cmd) => Alias {
                            command: cmd.clone(),
                            group: Some(gname.clone()),
                            enabled: true,
                            detailed: false,
                            global: false,
                        },
                        AliasSpecTypes::Detailed(a) => Alias {
                            command: a.command.clone(),
                            group: Some(gname.clone()),
                            enabled: a.enabled,
                            detailed: true,
                            global: a.global,
                        },
                    };
                    config.aliases.insert(aname.clone(), alias);
                    proof {
                        assert(config@.aliases =~= upsert(
                            aliases_before,
                            aname@,
                            decode_leaf(items[j as int].1, Some(gname@)),
                        ));
                    }
                    j = j + 1;
                }
                proof {
                    assert(items.take(m as int) =~= items);
                }
            },
            AliasSpecTypes::Simple(cmd) => {
                let ghost aliases_before = config@.aliases;
                let alias = Alias {
                    command: cmd.clone(),
                    group: None,
                    enabled: true,
                    detailed: false,
                    global: false,
                };
                config.aliases.insert(name.clone(), alias);
                proof {
                    assert(config@.aliases =~= upsert(
                        aliases_before,
                        name@,
                        decode_leaf(leaf_view(spec.entries@[i as int].1), None),
                    ));
                }
            },
            AliasSpecTypes::Detailed(a) => {
                let ghost aliases_before = config@.aliases;
                let alias = Alias {
                    command: a.command.clone(),
                    group: None,
                    enabled: a.enabled,
                    detailed: true,
                    global: a.global,
                };
                config.aliases.insert(name.clone(), alias);
                proof {
                    assert(config@.aliases =~= upsert(
                        aliases_before,
                        name@,
                        decode_leaf(leaf_view(spec.entries@[i as int].1), None),
                    ));
                }
            },
        }
        i = i + 1;
    }
    proof {
        assert(spec@.take(n as int) =~= spec@);
    }
    Ok(config)
}

/// The on-disk form of one alias: the bare shorthand only for an enabled,
/// non-global, non-detailed alias; the explicit form otherwise.
pub open spec fn encode_leaf(a: AliasV) -> LeafV {
    if a.enabled && !a.global && !a.detailed {
        LeafV::Simple(a.command)
    } else {
        LeafV::Detailed(AliasSpecV { command: a.command, enabled: a.enabled, global: a.global })
    }
}

/// True when the alias is written at top level: it has no group, or its
/// recorded group is gone and the alias degrades to a bare entry rather
/// than being dropped.
pub open spec fn emitted_top(a: AliasV, groups: Seq<(Seq<char>, bool)>) -> bool {
    match a.group {
        None => true,
        Some(g) => !has_key(groups, g),
    }
}

/// The top-level alias entries, in stored alias order.
pub open spec fn top_entries(
    aliases: Seq<(Seq<char>, AliasV)>,
    groups: Seq<(Seq<char>, bool)>,
) -> Seq<(Seq<char>, EntryV)>
    decreases aliases.len(),
{
    if aliases.len() == 0 {
        Seq::<(Seq<char>, EntryV)>::empty()
    } else {
        top_entries(aliases.drop_last(), groups) + if emitted_top(aliases.last().1, groups) {
            seq![(aliases.last().0, EntryV::Leaf(encode_leaf(aliases.last().1)))]
        } else {
            Seq::<(Seq<char>, EntryV)>::empty()
        }
    }
}

/// The items of one group's table: its members, in stored alias order.
pub open spec fn member_items(aliases: Seq<(Seq<char>, AliasV)>, g: Seq<char>) -> Seq<
    (Seq<char>, LeafV),
>
    decreases aliases.len(),
{
    if aliases.len() == 0 {
        Seq::<(Seq<char>, LeafV)>::empty()
    } else {
        member_items(aliases.drop_last(), g) + if aliases.last().1.group == Some(g) {
            seq![(aliases.last().0, encode_leaf(aliases.last().1))]
        } else {
            Seq::<(Seq<char>, LeafV)>::empty()
        }
    }
}

/// The group tables, in stored group order.
pub open spec fn group_entries(
    groups: Seq<(Seq<char>, bool)>,
    aliases: Seq<(Seq<char>, AliasV)>,
) -> Seq<(Seq<char>, EntryV)>
    decreases groups.len(),
{
    if groups.len() == 0 {
        Seq::<(Seq<char>, EntryV)>::empty()
    } else {
        group_entries(groups.drop_last(), aliases) + seq![
            (
                groups.last().0,
                EntryV::Group {
                    enabled: groups.last().1,
                    aliases: member_items(aliases, groups.last().0),
                },
            ),
        ]
    }
}

/// The whole on-disk mapping of a configuration: bare entries first, then
/// the group tables.
pub open spec fn encode_entries(c: crate::model::ConfigV) -> Seq<(Seq<char>, EntryV)> {
    top_entries(c.aliases, c.groups) + group_entries(c.groups, c.aliases)
}

/// Renders one alias in its on-disk form.
fn encode_alias(a: &Alias) -> (r: AliasSpecTypes)
    ensures
        leaf_view(r) == encode_leaf(a@),
        !(r is Group),
        entry_view(r) == EntryV::Leaf(encode_leaf(a@)),
{
    if a.enabled && !a.global && !a.detailed {
        AliasSpecTypes::Simple(a.command.clone())
    } else {
        AliasSpecTypes::Detailed(
            AliasSpec { command: a.command.clone(), enabled: a.enabled, global: a.global },
        )
    }
}

/// Builds the on-disk representation of a configuration.
///
/// Every alias without a present group becomes a bare top-level entry, in
/// stored alias order; then every group becomes a table holding exactly the
/// aliases attributed to it, in stored alias order, in stored group order.
pub fn config_to_spec(config: &Config) -> (r: ConfigSpec)
    ensures
        r@ =~~= encode_entries(config@),
{
    let mut entries: Vec<(String, AliasSpecTypes)> = Vec::new();
    let na = config.aliases.len();
    let mut i: usize = 0;
    while i < na
        invariant
            na == config@.aliases.len(),
            i <= na,
            entries@.map_values(|p: (String, AliasSpecTypes)| (p.0@, entry_view(p.1)))
                =~~= top_entries(config@.aliases.take(i as int), config@.groups),
        decreases na - i,
    {
        proof {
            assert(config@.aliases.take(i + 1).drop_last() =~= config@.aliases.take(i as int));
        }
        let a = config.aliases.val_at(i);
        let keep = match &a.group {
            None => true,
            Some(g) => !config.groups.contains_key(g.as_str()),
        };
        if keep {
            entries.push((config.aliases.key_at(i).clone(), encode_alias(a)));
        }
        proof {
            assert(entries@.map_values(|p: (String, AliasSpecTypes)| (p.0@, entry_view(p.1)))
                =~~= top_entries(config@.aliases.take(i + 1), config@.groups));
        }
        i = i + 1;
    }
    proof {
        assert(config@.aliases.take(na as int) =~= config@.aliases);
    }

    let ng = config.groups.len();
    let mut gi: usize = 0;
    while gi < ng
        invariant
            ng == config@.groups.len(),
            gi <= ng,
            entries@.map_values(|p: (String, AliasSpecTypes)| (p.0@, entry_view(p.1)))
                =~~= top_entries(config@.aliases, config@.groups) + group_entries(
                config@.groups.take(gi as int),
                config@.aliases,
            ),
        decreases ng - gi,
    {
        proof {
            assert(config@.groups.take(gi + 1).drop_last() =~= config@.groups.take(gi as int));
            assert(config@.groups.take(gi + 1).last() == config@.groups[gi as int]);
        }
        let gname = config.groups.key_at(gi).clone();
        let genabled = config.groups.val_at(gi);

        let mut items: Vec<(String, AliasSpecTypes)> = Vec::new();
        let na2 = config.aliases.len();
        let mut j: usize = 0;
        while j < na2
            invariant
                na2 == config@.aliases.len(),
                j <= na2,
                items@.map_values(|p: (String, AliasSpecTypes)| (p.0@, leaf_view(p.1)))
                    =~~= member_items(config@.aliases.take(j as int), gname@),
            decreases na2 - j,
        {
            proof {
                assert(config@.aliases.take(j + 1).drop_last() =~= config@.aliases.take(
                    j as int,
                ));
            }
            let a = config.aliases.val_at(j);
            let member = match &a.group {
                Some(g) => crate::model::str_eq(g.as_str(), gname.as_str()),
                None => false,
            };
            if member {
                items.push((config.aliases.key_at(j).clone(), encode_alias(a)));
            }
            proof {
                assert(items@.map_values(|p: (String, AliasSpecTypes)| (p.0@, leaf_view(p.1)))
                    =~~= member_items(config@.aliases.take(j + 1), gname@));
            }
            j = j + 1;
        }
        proof {
            assert(config@.aliases.take(na2 as int) =~= config@.aliases);
        }

        let group_entry = AliasSpecTypes::Group(GroupSpec { enabled: genabled, aliases: items });
        proof {
            assert(entry_view(group_entry) =~~= EntryV::Group {
                enabled: config@.groups[gi as int].1,
                aliases: member_items(config@.aliases, config@.groups[gi as int].0),
            });
        }
        let ghost prev = entries@.map_values(|p: (String, AliasSpecTypes)| (p.0@, entry_view(p.1)));
        let ghost gname_view = gname@;
        entries.push((gname, group_entry));
        proof {
            assert(entries@.map_values(|p: (String, AliasSpecTypes)| (p.0@, entry_view(p.1)))
                =~~= prev.push((gname_view, entry_view(group_entry))));
            assert(prev.push((gname_view, entry_view(group_entry))) =~~= top_entries(
                config@.aliases,
                config@.groups,
            ) + group_entries(config@.groups.take(gi + 1), config@.aliases));
            assert(entries@.map_values(|p: (String, AliasSpecTypes)| (p.0@, entry_view(p.1)))
                =~~= top_entries(config@.aliases, config@.groups) + group_entries(
                config@.groups.take(gi + 1),
                config@.aliases,
            ));
        }
        gi = gi + 1;
    }
    proof {
        assert(config@.groups.take(ng as int) =~= config@.groups);
    }
    ConfigSpec { entries }
}

} // verus!
