//! Grouping the MCUs of a family: by the version identity of the GPIO
//! descriptor they reference, by package name where the family uses
//! package-based features, and by known EEPROM size.

use vstd::prelude::*;
use crate::strutil::seq_views;
use crate::strutil::str_eq;
use crate::internal_peripheral::entry_views;

verus! {

/// Everything the grouping step reads of one MCU: its identifier, its
/// package, the version identity of its GPIO descriptor, and its EEPROM
/// size where one is known.
#[derive(Debug)]
pub struct McuInfo {
    pub ref_name: String,
    pub package_name: String,
    pub gpio_version: String,
    pub eeprom_size: Option<u32>,
}

/// The grouped maps the emitters consume, each an ordered association
/// list built in first-encounter order.
#[derive(Debug)]
pub struct GroupedMcus {
    pub gpio_map: Vec<(String, Vec<String>)>,
    pub package_map: Vec<(String, String)>,
    pub eeprom_map: Vec<(u32, Vec<String>)>,
}

/// The views of a string-pair list.
pub open spec fn pair_views(v: Seq<(String, String)>) -> Seq<(Seq<char>, Seq<char>)> {
    Seq::new(v.len(), |i: int| (v[i].0@, v[i].1@))
}

/// The views of a size-keyed entry list.
pub open spec fn size_entry_views(v: Seq<(u32, Vec<String>)>) -> Seq<(u32, Seq<Seq<char>>)> {
    Seq::new(v.len(), |i: int| (v[i].0, seq_views(v[i].1@)))
}

/// Append a member to the group of `key`, adding the group at the end on
/// first encounter.
pub open spec fn push_group(
    entries: Seq<(Seq<char>, Seq<Seq<char>>)>,
    key: Seq<char>,
    member: Seq<char>,
) -> Seq<(Seq<char>, Seq<Seq<char>>)>
    decreases entries.len(),
{
    if entries.len() == 0 {
        seq![(key, seq![member])]
    } else if entries[0].0 == key {
        seq![(entries[0].0, entries[0].1.push(member))] + entries.skip(1)
    } else {
        seq![entries[0]] + push_group(entries.skip(1), key, member)
    }
}

/// Append a member to the group of a numeric key.
pub open spec fn push_group_u32(
    entries: Seq<(u32, Seq<Seq<char>>)>,
    key: u32,
    member: Seq<char>,
) -> Seq<(u32, Seq<Seq<char>>)>
    decreases entries.len(),
{
    if entries.len() == 0 {
        seq![(key, seq![member])]
    } else if entries[0].0 == key {
        seq![(entries[0].0, entries[0].1.push(member))] + entries.skip(1)
    } else {
        seq![entries[0]] + push_group_u32(entries.skip(1), key, member)
    }
}

/// Set the value of a key, replacing in place, else appending.
pub open spec fn upsert_pair(
    entries: Seq<(Seq<char>, Seq<char>)>,
    key: Seq<char>,
    val: Seq<char>,
) -> Seq<(Seq<char>, Seq<char>)>
    decreases entries.len(),
{
    if entries.len() == 0 {
        seq![(key, val)]
    } else if entries[0].0 == key {
        seq![(key, val)] + entries.skip(1)
    } else {
        seq![entries[0]] + upsert_pair(entries.skip(1), key, val)
    }
}

/// Whether a family classifies its MCUs by package.
pub open spec fn package_policy(family_name: Seq<char>) -> bool {
    family_name == "STM32L0"@
}

/// The descriptor-version map: each MCU appended to the group of its GPIO
/// version, groups in first-encounter order.
pub open spec fn spec_gpio_map(infos: Seq<McuInfo>) -> Seq<(Seq<char>, Seq<Seq<char>>)>
    decreases infos.len(),
{
    if infos.len() == 0 {
        Seq::empty()
    } else {
        push_group(
            spec_gpio_map(infos.drop_last()),
            infos.last().gpio_version@,
            infos.last().ref_name@,
        )
    }
}

/// The package map: identifier to package name, only for families with
/// package-based classification.
pub open spec fn spec_package_map(infos: Seq<McuInfo>, with_packages: bool) -> Seq<
    (Seq<char>, Seq<char>),
>
    decreases infos.len(),
{
    if !with_packages || infos.len() == 0 {
        Seq::empty()
    } else {
        upsert_pair(
            spec_package_map(infos.drop_last(), with_packages),
            infos.last().ref_name@,
            infos.last().package_name@,
        )
    }
}

/// The EEPROM-size map: each MCU with a known size appended to its size's
/// group; MCUs of unknown size are left out.
pub open spec fn spec_eeprom_map(infos: Seq<McuInfo>) -> Seq<(u32, Seq<Seq<char>>)>
    decreases infos.len(),
{
    if infos.len() == 0 {
        Seq::empty()
    } else {
        let prev = spec_eeprom_map(infos.drop_last());
        match infos.last().eeprom_size {
            None => prev,
            Some(sz) => push_group_u32(prev, sz, infos.last().ref_name@),
        }
    }
}

proof fn lemma_push_group_at(
    entries: Seq<(Seq<char>, Seq<Seq<char>>)>,
    key: Seq<char>,
    member: Seq<char>,
    idx: int,
)
    requires
        0 <= idx < entries.len(),
        entries[idx].0 == key,
        forall|j: int| 0 <= j < idx ==> (#[trigger] entries[j]).0 != key,
    ensures
        push_group(entries, key, member) =~= entries.update(
            idx,
            (entries[idx].0, entries[idx].1.push(member)),
        ),
    decreases idx,
{
    if idx == 0 {
    } else {
        lemma_push_group_at(entries.skip(1), key, member, idx - 1);
        assert(seq![entries[0]] + entries.skip(1).update(
            idx - 1,
            (entries[idx].0, entries[idx].1.push(member)),
        ) =~= entries.update(idx, (entries[idx].0, entries[idx].1.push(member))));
    }
}

proof fn lemma_push_group_absent(
    entries: Seq<(Seq<char>, Seq<Seq<char>>)>,
    key: Seq<char>,
    member: Seq<char>,
)
    requires
        forall|j: int| 0 <= j < entries.len() ==> (#[trigger] entries[j]).0 != key,
    ensures
        push_group(entries, key, member) =~= entries.push((key, seq![member])),
    decreases entries.len(),
{
    if entries.len() == 0 {
    } else {
        lemma_push_group_absent(entries.skip(1), key, member);
        assert(seq![entries[0]] + entries.skip(1).push((key, seq![member])) =~= entries.push(
            (key, seq![member]),
        ));
    }
}

fn push_group_exec(entries: Vec<(String, Vec<String>)>, key: &String, member: &String) -> (r: Vec<
    (String, Vec<String>),
>)
    ensures
        entry_views(r@) == push_group(entry_views(entries@), key@, member@),
{
    let ghost orig = entry_views(entries@);
    let n = entries.len();
    let mut i: usize = 0;
    while i < n
        invariant
            i <= n,
            n == entries@.len(),
            orig == entry_views(entries@),
            forall|j: int| 0 <= j < i ==> (#[trigger] orig[j]).0 != key@,
        decreases n - i,
    {
        if str_eq(entries[i].0.as_str(), key.as_str()) {
            proof {
                lemma_push_group_at(orig, key@, member@, i as int);
            }
            let mut entries = entries;
            let mut pair = entries.remove(i);
            pair.1.push(member.clone());
            entries.insert(i, pair);
            assert(entry_views(entries@) =~~= orig.update(
                i as int,
                (orig[i as int].0, orig[i as int].1.push(member@)),
            ));
            return entries;
        }
        i = i + 1;
    }
    proof {
        lemma_push_group_absent(orig, key@, member@);
    }
    let mut entries = entries;
    let mut members: Vec<String> = Vec::new();
    members.push(member.clone());
    entries.push((key.clone(), members));
    assert(entry_views(entries@) =~~= orig.push((key@, seq![member@])));
    entries
}

proof fn lemma_push_group_u32_at(
    entries: Seq<(u32, Seq<Seq<char>>)>,
    key: u32,
    member: Seq<char>,
    idx: int,
)
    requires
        0 <= idx < entries.len(),
        entries[idx].0 == key,
        forall|j: int| 0 <= j < idx ==> (#[trigger] entries[j]).0 != key,
    ensures
        push_group_u32(entries, key, member) =~= entries.update(
            idx,
            (entries[idx].0, entries[idx].1.push(member)),
        ),
    decreases idx,
{
    if idx == 0 {
    } else {
        lemma_push_group_u32_at(entries.skip(1), key, member, idx - 1);
        assert(seq![entries[0]] + entries.skip(1).update(
            idx - 1,
            (entries[idx].0, entries[idx].1.push(member)),
        ) =~= entries.update(idx, (entries[idx].0, entries[idx].1.push(member))));
    }
}

proof fn lemma_push_group_u32_absent(
    entries: Seq<(u32, Seq<Seq<char>>)>,
    key: u32,
    member: Seq<char>,
)
    requires
        forall|j: int| 0 <= j < entries.len() ==> (#[trigger] entries[j]).0 != key,
    ensures
        push_group_u32(entries, key, member) =~= entries.push((key, seq![member])),
    decreases entries.len(),
{
    if entries.len() == 0 {
    } else {
        lemma_push_group_u32_absent(entries.skip(1), key, member);
        assert(seq![entries[0]] + entries.skip(1).push((key, seq![member])) =~= entries.push(
            (key, seq![member]),
        ));
    }
}

fn push_group_u32_exec(entries: Vec<(u32, Vec<String>)>, key: u32, member: &String) -> (r: Vec<
    (u32, Vec<String>),
>)
    ensures
        size_entry_views(r@) == push_group_u32(size_entry_views(entries@), key, member@),
{
    let ghost orig = size_entry_views(entries@);
    let n = entries.len();
    let mut i: usize = 0;
    while i < n
        invariant
            i <= n,
            n == entries@.len(),
            orig == size_entry_views(entries@),
            forall|j: int| 0 <= j < i ==> (#[trigger] orig[j]).0 != key,
        decreases n - i,
    {
        if entries[i].0 == key {
            proof {
                lemma_push_group_u32_at(orig, key, member@, i as int);
            }
            let mut entries = entries;
            let mut pair = entries.remove(i);
            pair.1.push(member.clone());
            entries.insert(i, pair);
            assert(size_entry_views(entries@) =~~= orig.update(
                i as int,
                (orig[i as int].0, orig[i as int].1.push(member@)),
            ));
            return entries;
        }
        i = i + 1;
    }
    proof {
        lemma_push_group_u32_absent(orig, key, member@);
    }
    let mut entries = entries;
    let mut members: Vec<String> = Vec::new();
    members.push(member.clone());
    entries.push((key, members));
    assert(size_entry_views(entries@) =~~= orig.push((key, seq![member@])));
    entries
}

proof fn lemma_upsert_pair_at(
    entries: Seq<(Seq<char>, Seq<char>)>,
    key: Seq<char>,
    val: Seq<char>,
    idx: int,
)
    requires
        0 <= idx < entries.len(),
        entries[idx].0 == key,
        forall|j: int| 0 <= j < idx ==> (#[trigger] entries[j]).0 != key,
    ensures
        upsert_pair(entries, key, val) =~= entries.update(idx, (key, val)),
    decreases idx,
{
    if idx == 0 {
    } else {
        lemma_upsert_pair_at(entries.skip(1), key, val, idx - 1);
        assert(seq![entries[0]] + entries.skip(1).update(idx - 1, (key, val)) =~= entries.update(
            idx,
            (key, val),
        ));
    }
}

proof fn lemma_upsert_pair_absent(
    entries: Seq<(Seq<char>, Seq<char>)>,
    key: Seq<char>,
    val: Seq<char>,
)
    requires
        forall|j: int| 0 <= j < entries.len() ==> (#[trigger] entries[j]).0 != key,
    ensures
        upsert_pair(entries, key, val) =~= entries.push((key, val)),
    decreases entries.len(),
{
    if entries.len() == 0 {
    } else {
        lemma_upsert_pair_absent(entries.skip(1), key, val);
        assert(seq![entries[0]] + entries.skip(1).push((key, val)) =~= entries.push((key, val)));
    }
}

fn upsert_pair_exec(entries: Vec<(String, String)>, key: &String, val: &String) -> (r: Vec<
    (String, String),
>)
    ensures
        pair_views(r@) == upsert_pair(pair_views(entries@), key@, val@),
{
    let ghost orig = pair_views(entries@);
    let n = entries.len();
    let mut i: usize = 0;
    while i < n
        invariant
            i <= n,
            n == entries@.len(),
            orig == pair_views(entries@),
            forall|j: int| 0 <= j < i ==> (#[trigger] orig[j]).0 != key@,
        decreases n - i,
    {
        if str_eq(entries[i].0.as_str(), key.as_str()) {
            proof {
                lemma_upsert_pair_at(orig, key@, val@, i as int);
            }
            let mut entries = entries;
            entries.remove(i);
            entries.insert(i, (key.clone(), val.clone()));
            assert(pair_views(entries@) =~~= orig.update(i as int, (key@, val@)));
            return entries;
        }
        i = i + 1;
    }
    proof {
        lemma_upsert_pair_absent(orig, key@, val@);
    }
    let mut entries = entries;
    entries.push((key.clone(), val.clone()));
    assert(pair_views(entries@) =~~= orig.push((key@, val@)));
    entries
}

/// Group the MCUs of one family: by GPIO descriptor version, by package
/// where the family uses package features, and by known EEPROM size, each
/// map in first-encounter order.
pub fn group_mcus(family_name: &str, infos: &Vec<McuInfo>) -> (r: GroupedMcus)
    ensures
        entry_views(r.gpio_map@) == spec_gpio_map(infos@),
        pair_views(r.package_map@) == spec_package_map(infos@, package_policy(family_name@)),
        size_entry_views(r.eeprom_map@) == spec_eeprom_map(infos@),
{
    let with_packages = str_eq(family_name, "STM32L0");
    let mut gpio_map: Vec<(String, Vec<String>)> = Vec::new();
    let mut package_map: Vec<(String, String)> = Vec::new();
    let mut eeprom_map: Vec<(u32, Vec<String>)> = Vec::new();
    let mut i: usize = 0;
    proof {
        assert(entry_views(gpio_map@) =~= spec_gpio_map(infos@.take(0)));
        assert(pair_views(package_map@) =~= spec_package_map(
            infos@.take(0),
            package_policy(family_name@),
        ));
        assert(size_entry_views(eeprom_map@) =~= spec_eeprom_map(infos@.take(0)));
    }
    while i < infos.len()
        invariant
            i <= infos@.len(),
            with_packages == package_policy(family_name@),
            entry_views(gpio_map@) == spec_gpio_map(infos@.take(i as int)),
            pair_views(package_map@) == spec_package_map(
                infos@.take(i as int),
                package_policy(family_name@),
            ),
            size_entry_views(eeprom_map@) == spec_eeprom_map(infos@.take(i as int)),
        decreases infos@.len() - i,
    {
        let info = &infos[i];
        proof {
            assert(infos@.take(i + 1).drop_last() =~= infos@.take(i as int));
            assert(infos@.take(i + 1).last() == infos@[i as int]);
        }
        gpio_map = push_group_exec(gpio_map, &info.gpio_version, &info.ref_name);
        if with_packages {
            package_map = upsert_pair_exec(package_map, &info.ref_name, &info.package_name);
        }
        match info.eeprom_size {
            Some(sz) => {
                eeprom_map = push_group_u32_exec(eeprom_map, sz, &info.ref_name);
            },
            None => {},
        }
        i = i + 1;
    }
    assert(infos@.take(i as int) =~= infos@);
    GroupedMcus { gpio_map, package_map, eeprom_map }
}

/// The identifiers of a list of MCUs, in order.
pub open spec fn ref_names(infos: Seq<McuInfo>) -> Seq<Seq<char>> {
    Seq::new(infos.len(), |i: int| infos[i].ref_name@)
}

/// All members of all groups, group by group.
pub open spec fn flatten_groups(entries: Seq<(Seq<char>, Seq<Seq<char>>)>) -> Seq<Seq<char>>
    decreases entries.len(),
{
    if entries.len() == 0 {
        Seq::empty()
    } else {
        entries[0].1 + flatten_groups(entries.skip(1))
    }
}

proof fn lemma_flatten_push_group(
    entries: Seq<(Seq<char>, Seq<Seq<char>>)>,
    key: Seq<char>,
    member: Seq<char>,
)
    ensures
        flatten_groups(push_group(entries, key, member)).to_multiset() == flatten_groups(
            entries,
        ).to_multiset().insert(member),
    decreases entries.len(),
{
    broadcast use vstd::seq_lib::group_to_multiset_ensures;
    broadcast use vstd::multiset::group_multiset_axioms;

    let r = push_group(entries, key, member);
    if entries.len() == 0 {
        assert(r.skip(1) =~= Seq::<(Seq<char>, Seq<Seq<char>>)>::empty());
        assert(r[0].1 == seq![member]);
        assert(flatten_groups(r) == seq![member] + flatten_groups(r.skip(1)));
        assert(seq![member] + Seq::<Seq<char>>::empty() =~= Seq::<Seq<char>>::empty().push(
            member,
        ));
        assert(flatten_groups(r).to_multiset() =~= flatten_groups(entries).to_multiset().insert(
            member,
        ));
    } else if entries[0].0 == key {
        assert(r[0] == (entries[0].0, entries[0].1.push(member)));
        assert(r.skip(1) =~= entries.skip(1));
        assert(flatten_groups(r) == entries[0].1.push(member) + flatten_groups(entries.skip(1)));
        vstd::seq_lib::lemma_multiset_commutative(
            entries[0].1.push(member),
            flatten_groups(entries.skip(1)),
        );
        vstd::seq_lib::lemma_multiset_commutative(entries[0].1, flatten_groups(entries.skip(1)));
        assert(entries[0].1.push(member).to_multiset() =~= entries[0].1.to_multiset().insert(
            member,
        ));
        assert(flatten_groups(r).to_multiset() =~= flatten_groups(entries).to_multiset().insert(
            member,
        ));
    } else {
        lemma_flatten_push_group(entries.skip(1), key, member);
        assert(r[0] == entries[0]);
        assert(r.skip(1) =~= push_group(entries.skip(1), key, member));
        assert(flatten_groups(r) == entries[0].1 + flatten_groups(
            push_group(entries.skip(1), key, member),
        ));
        vstd::seq_lib::lemma_multiset_commutative(
            entries[0].1,
            flatten_groups(push_group(entries.skip(1), key, member)),
        );
        vstd::seq_lib::lemma_multiset_commutative(entries[0].1, flatten_groups(entries.skip(1)));
        assert(flatten_groups(r).to_multiset() =~= flatten_groups(entries).to_multiset().insert(
            member,
        ));
    }
}

/// Grouping by descriptor version neither drops nor duplicates an MCU:
/// the members of all groups together are exactly the family's MCU
/// identifiers, each exactly once.
pub proof fn lemma_grouping_complete(infos: Seq<McuInfo>)
    ensures
        flatten_groups(spec_gpio_map(infos)).to_multiset() == ref_names(infos).to_multiset(),
    decreases infos.len(),
{
    broadcast use vstd::seq_lib::group_to_multiset_ensures;

    if infos.len() == 0 {
        assert(ref_names(infos) =~= Seq::<Seq<char>>::empty());
    } else {
        lemma_grouping_complete(infos.drop_last());
        lemma_flatten_push_group(
            spec_gpio_map(infos.drop_last()),
            infos.last().gpio_version@,
            infos.last().ref_name@,
        );
        assert(ref_names(infos.drop_last()).push(infos.last().ref_name@) =~= ref_names(infos));
    }
}

} // verus!
