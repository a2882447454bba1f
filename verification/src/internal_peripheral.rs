//! The GPIO peripheral descriptor: pins, their configuration parameters
//! and their signals, together with pin-name derivation, per-pin
//! capability collection and the aggregation of a whole descriptor into a
//! deterministic pin table.

use vstd::prelude::*;
use vstd::string::StringExecFns;
use crate::strutil::split_char;
use crate::strutil::split_underscore;
use crate::strutil::seq_views;
use crate::strutil::str_eq;
use crate::alphanum::sort_alphanum;
use crate::alphanum::dedup_adjacent;
use crate::alphanum::sorted_alphanum;
use crate::alphanum::lemma_sort_alphanum_sorted;
use crate::alphanum::lemma_sort_alphanum_multiset;
use crate::alphanum::lemma_dedup_keeps_sorted;
use crate::alphanum::sort_strings;
use crate::alphanum::dedup_strings;
use crate::classify::spec_classify;
use crate::classify::cap_text;
use crate::classify::cap_views;
use crate::classify::classify;
use crate::classify::render_capability;
use crate::classify::CapView;
use crate::classify::Capability;

verus! {

/// One named configuration parameter of a pin, with its single value.
#[derive(Debug)]
pub struct SpecificParameter {
    pub name: String,
    pub possible_value: String,
}

/// One signal a pin can carry, with the parameter holding its
/// alternate-function selector value.
#[derive(Debug)]
pub struct PinSignal {
    pub name: String,
    pub specific_parameter: SpecificParameter,
}

/// One pin entry of a GPIO descriptor.
#[derive(Debug)]
pub struct GPIOPin {
    pub port_name: String,
    pub name: String,
    pub specific_parameter: Vec<SpecificParameter>,
    pub pin_signal: Option<Vec<PinSignal>>,
}

/// A GPIO peripheral descriptor: the full list of its pin entries.
#[derive(Debug)]
pub struct IpGPIO {
    pub gpio_pin: Vec<GPIOPin>,
}

/// The raw AF token of a selector: its second underscore-delimited token,
/// where there is one.
pub open spec fn spec_af_value(sel: Seq<char>) -> Option<Seq<char>> {
    let toks = split_char(sel, '_');
    if toks.len() < 2 {
        None
    } else {
        Some(toks[1])
    }
}

impl PinSignal {
    /// The raw AF token of this signal's selector value; a selector with
    /// fewer than two underscore-delimited tokens has none.
    pub fn get_af_value(&self) -> (r: Option<String>)
        ensures
            r matches Some(s) ==> spec_af_value(self.specific_parameter.possible_value@) == Some(
                s@,
            ),
            r is None ==> spec_af_value(self.specific_parameter.possible_value@) is None,
    {
        let mut toks = split_underscore(self.specific_parameter.possible_value.as_str());
        if toks.len() < 2 {
            None
        } else {
            let t = toks.remove(1);
            Some(t)
        }
    }
}

/// The first parameter named `GPIO_Pin`, if any.
pub open spec fn find_gpio_pin_param(params: Seq<SpecificParameter>) -> Option<SpecificParameter>
    decreases params.len(),
{
    if params.len() == 0 {
        None
    } else if params[0].name@ == "GPIO_Pin"@ {
        Some(params[0])
    } else {
        find_gpio_pin_param(params.skip(1))
    }
}

/// The derived identifier of a pin: its port name followed by the third
/// underscore-delimited token of its `GPIO_Pin` parameter value. A pin
/// without that parameter, or with a short parameter value, has none and
/// is left out of every table.
pub open spec fn spec_pin_name(p: GPIOPin) -> Option<Seq<char>> {
    match find_gpio_pin_param(p.specific_parameter@) {
        None => None,
        Some(sp) => {
            let toks = split_char(sp.possible_value@, '_');
            if toks.len() < 3 {
                None
            } else {
                Some(p.port_name@ + toks[2])
            }
        },
    }
}

/// The rendered texts of a sequence of capabilities.
pub open spec fn cap_texts(caps: Seq<CapView>) -> Seq<Seq<char>> {
    Seq::new(caps.len(), |i: int| cap_text(caps[i]))
}

/// The rendered capability texts of one signal.
pub open spec fn spec_signal_caps(sig: PinSignal) -> Seq<Seq<char>> {
    cap_texts(spec_classify(sig.name@, sig.specific_parameter.possible_value@))
}

/// The rendered capability texts of a list of signals, in order.
pub open spec fn spec_sigs_caps(sigs: Seq<PinSignal>) -> Seq<Seq<char>>
    decreases sigs.len(),
{
    if sigs.len() == 0 {
        Seq::empty()
    } else {
        spec_signal_caps(sigs[0]) + spec_sigs_caps(sigs.skip(1))
    }
}

/// The rendered capability texts of one pin, in signal order.
pub open spec fn spec_af_modes(p: GPIOPin) -> Seq<Seq<char>> {
    match p.pin_signal {
        None => Seq::empty(),
        Some(sigs) => spec_sigs_caps(sigs@),
    }
}

proof fn lemma_sigs_caps_snoc(sigs: Seq<PinSignal>, i: int)
    requires
        0 <= i < sigs.len(),
    ensures
        spec_sigs_caps(sigs.take(i + 1)) == spec_sigs_caps(sigs.take(i)) + spec_signal_caps(
            sigs[i],
        ),
    decreases i,
{
    if i == 0 {
        assert(sigs.take(1)[0] == sigs[0]);
        assert(sigs.take(1).skip(1) =~= Seq::<PinSignal>::empty());
        assert(sigs.take(0) =~= Seq::<PinSignal>::empty());
        assert(spec_sigs_caps(sigs.take(0)) + spec_signal_caps(sigs[0]) =~= spec_signal_caps(
            sigs[0],
        ));
    } else {
        lemma_sigs_caps_snoc(sigs.skip(1), i - 1);
        assert(sigs.take(i + 1).skip(1) =~= sigs.skip(1).take(i));
        assert(sigs.take(i).skip(1) =~= sigs.skip(1).take(i - 1));
        assert(sigs.take(i + 1)[0] == sigs[0]);
        assert(sigs.take(i)[0] == sigs[0]);
        assert(spec_signal_caps(sigs.take(i + 1)[0]) + spec_sigs_caps(sigs.skip(1).take(i))
            =~= (spec_signal_caps(sigs[0]) + spec_sigs_caps(sigs.skip(1).take(i - 1))
            + spec_signal_caps(sigs.skip(1)[i - 1])));
    }
}

/// Render every capability of a classified signal.
fn render_caps(caps: &Vec<Capability>) -> (r: Vec<String>)
    ensures
        seq_views(r@) == cap_texts(cap_views(caps@)),
{
    let mut r: Vec<String> = Vec::new();
    let mut i: usize = 0;
    while i < caps.len()
        invariant
            i <= caps@.len(),
            r@.len() == i,
            forall|k: int| 0 <= k < i ==> (#[trigger] r@[k])@ == cap_text(caps@[k]@),
        decreases caps@.len() - i,
    {
        let line = render_capability(&caps[i]);
        r.push(line);
        i = i + 1;
    }
    assert(seq_views(r@) =~= cap_texts(cap_views(caps@)));
    r
}

impl GPIOPin {
    /// The derived pin identifier, as [`spec_pin_name`] states it.
    pub fn get_name(&self) -> (r: Option<String>)
        ensures
            r matches Some(s) ==> spec_pin_name(*self) == Some(s@),
            r is None ==> spec_pin_name(*self) is None,
    {
        let n = self.specific_parameter.len();
        let mut i: usize = 0;
        proof {
            assert(self.specific_parameter@.skip(0) =~= self.specific_parameter@);
        }
        while i < n
            invariant
                i <= n,
                n == self.specific_parameter@.len(),
                find_gpio_pin_param(self.specific_parameter@) == find_gpio_pin_param(
                    self.specific_parameter@.skip(i as int),
                ),
                forall|j: int|
                    0 <= j < i ==> (#[trigger] self.specific_parameter@[j]).name@ != "GPIO_Pin"@,
            decreases n - i,
        {
            if str_eq(self.specific_parameter[i].name.as_str(), "GPIO_Pin") {
                let sp = &self.specific_parameter[i];
                assert(find_gpio_pin_param(self.specific_parameter@) == Some(
                    self.specific_parameter@[i as int],
                ));
                let mut toks = split_underscore(sp.possible_value.as_str());
                if toks.len() < 3 {
                    return None;
                }
                let num = toks.remove(2);
                let mut out = self.port_name.clone();
                out.append(num.as_str());
                return Some(out);
            }
            proof {
                assert(self.specific_parameter@.skip(i as int).skip(1)
                    =~= self.specific_parameter@.skip(i + 1));
            }
            i = i + 1;
        }
        assert(self.specific_parameter@.skip(i as int) =~= Seq::<SpecificParameter>::empty());
        None
    }

    /// The rendered capability texts of all this pin's signals, in signal
    /// order, duplicates and all.
    pub fn get_af_modes(&self) -> (r: Vec<String>)
        ensures
            seq_views(r@) == spec_af_modes(*self),
    {
        let mut r: Vec<String> = Vec::new();
        match &self.pin_signal {
            None => {
                assert(seq_views(r@) =~= spec_af_modes(*self));
                r
            },
            Some(sigs) => {
                let mut i: usize = 0;
                while i < sigs.len()
                    invariant
                        i <= sigs@.len(),
                        self.pin_signal matches Some(ss) && ss@ == sigs@,
                        seq_views(r@) =~= spec_sigs_caps(sigs@.take(i as int)),
                    decreases sigs@.len() - i,
                {
                    let sig = &sigs[i];
                    let caps = classify(sig.name.as_str(), sig.specific_parameter.possible_value.as_str());
                    let mut rendered = render_caps(&caps);
                    proof {
                        lemma_sigs_caps_snoc(sigs@, i as int);
                        assert(cap_texts(cap_views(caps@)) == spec_signal_caps(sigs@[i as int]));
                    }
                    let ghost before = seq_views(r@);
                    let ghost added = seq_views(rendered@);
                    r.append(&mut rendered);
                    assert(seq_views(r@) =~= before + added);
                    i = i + 1;
                }
                assert(sigs@.take(i as int) =~= sigs@);
                r
            },
        }
    }
}

/// The views of a pin-table entry list.
pub open spec fn entry_views(v: Seq<(String, Vec<String>)>) -> Seq<(Seq<char>, Seq<Seq<char>>)> {
    Seq::new(v.len(), |i: int| (v[i].0@, seq_views(v[i].1@)))
}

/// The keys of an entry list, in order.
pub open spec fn entry_keys(entries: Seq<(Seq<char>, Seq<Seq<char>>)>) -> Seq<Seq<char>> {
    Seq::new(entries.len(), |i: int| entries[i].0)
}

/// Replace the value at an existing key in place, else append the pair:
/// the overwrite policy for duplicate derived pin identifiers.
pub open spec fn upsert(
    entries: Seq<(Seq<char>, Seq<Seq<char>>)>,
    key: Seq<char>,
    val: Seq<Seq<char>>,
) -> Seq<(Seq<char>, Seq<Seq<char>>)>
    decreases entries.len(),
{
    if entries.len() == 0 {
        seq![(key, val)]
    } else if entries[0].0 == key {
        seq![(key, val)] + entries.skip(1)
    } else {
        seq![entries[0]] + upsert(entries.skip(1), key, val)
    }
}

proof fn lemma_upsert_at(
    entries: Seq<(Seq<char>, Seq<Seq<char>>)>,
    key: Seq<char>,
    val: Seq<Seq<char>>,
    idx: int,
)
    requires
        0 <= idx < entries.len(),
        entries[idx].0 == key,
        forall|j: int| 0 <= j < idx ==> (#[trigger] entries[j]).0 != key,
    ensures
        upsert(entries, key, val) =~= entries.update(idx, (key, val)),
    decreases idx,
{
    if idx == 0 {
    } else {
        lemma_upsert_at(entries.skip(1), key, val, idx - 1);
        assert(seq![entries[0]] + entries.skip(1).update(idx - 1, (key, val)) =~= entries.update(
            idx,
            (key, val),
        ));
    }
}

proof fn lemma_upsert_absent(
    entries: Seq<(Seq<char>, Seq<Seq<char>>)>,
    key: Seq<char>,
    val: Seq<Seq<char>>,
)
    requires
        forall|j: int| 0 <= j < entries.len() ==> (#[trigger] entries[j]).0 != key,
    ensures
        upsert(entries, key, val) =~= entries.push((key, val)),
    decreases entries.len(),
{
    if entries.len() == 0 {
    } else {
        lemma_upsert_absent(entries.skip(1), key, val);
        assert(seq![entries[0]] + entries.skip(1).push((key, val)) =~= entries.push((key, val)));
    }
}

/// The length grows by at most one on each upsert.
pub proof fn lemma_upsert_len(
    entries: Seq<(Seq<char>, Seq<Seq<char>>)>,
    key: Seq<char>,
    val: Seq<Seq<char>>,
)
    ensures
        upsert(entries, key, val).len() <= entries.len() + 1,
    decreases entries.len(),
{
    if entries.len() == 0 {
    } else if entries[0].0 == key {
    } else {
        lemma_upsert_len(entries.skip(1), key, val);
    }
}

/// The pin table of a descriptor before ordering: every pin with a
/// derivable identifier contributes its capability texts, later pins
/// overwriting earlier ones with the same identifier.
pub open spec fn spec_pin_entries(pins: Seq<GPIOPin>) -> Seq<(Seq<char>, Seq<Seq<char>>)>
    decreases pins.len(),
{
    if pins.len() == 0 {
        Seq::empty()
    } else {
        let prev = spec_pin_entries(pins.drop_last());
        match spec_pin_name(pins.last()) {
            None => prev,
            Some(name) => upsert(prev, name, spec_af_modes(pins.last())),
        }
    }
}

/// The table never has more entries than the descriptor has pins.
pub proof fn lemma_pin_entries_len(pins: Seq<GPIOPin>)
    ensures
        spec_pin_entries(pins).len() <= pins.len(),
    decreases pins.len(),
{
    if pins.len() == 0 {
    } else {
        lemma_pin_entries_len(pins.drop_last());
        match spec_pin_name(pins.last()) {
            None => {},
            Some(name) => {
                lemma_upsert_len(spec_pin_entries(pins.drop_last()), name, spec_af_modes(
                    pins.last(),
                ));
            },
        }
    }
}

/// The value stored under the first occurrence of a key; absent keys hold
/// nothing.
pub open spec fn assoc_get(entries: Seq<(Seq<char>, Seq<Seq<char>>)>, key: Seq<char>) -> Seq<
    Seq<char>,
>
    decreases entries.len(),
{
    if entries.len() == 0 {
        Seq::empty()
    } else if entries[0].0 == key {
        entries[0].1
    } else {
        assoc_get(entries.skip(1), key)
    }
}

/// The ordered, deduplicated capability list of one pin identifier.
pub open spec fn spec_row_of(entries: Seq<(Seq<char>, Seq<Seq<char>>)>, key: Seq<char>) -> Seq<
    Seq<char>,
> {
    dedup_adjacent(sort_alphanum(assoc_get(entries, key)))
}

/// Of the given keys, those whose capability row is non-empty, in order.
pub open spec fn live_keys(
    entries: Seq<(Seq<char>, Seq<Seq<char>>)>,
    keys: Seq<Seq<char>>,
) -> Seq<Seq<char>>
    decreases keys.len(),
{
    if keys.len() == 0 {
        Seq::empty()
    } else if spec_row_of(entries, keys[0]).len() > 0 {
        seq![keys[0]] + live_keys(entries, keys.skip(1))
    } else {
        live_keys(entries, keys.skip(1))
    }
}

pub proof fn lemma_live_keys_len(entries: Seq<(Seq<char>, Seq<Seq<char>>)>, keys: Seq<Seq<char>>)
    ensures
        live_keys(entries, keys).len() <= keys.len(),
    decreases keys.len(),
{
    if keys.len() == 0 {
    } else {
        lemma_live_keys_len(entries, keys.skip(1));
    }
}

/// The aggregation of a whole descriptor: one row per pin identifier with
/// at least one capability, rows in alphanumeric identifier order, each
/// row's capabilities deduplicated and in alphanumeric order.
pub open spec fn spec_aggregate(pins: Seq<GPIOPin>) -> Seq<(Seq<char>, Seq<Seq<char>>)> {
    let entries = spec_pin_entries(pins);
    let keys = sort_alphanum(live_keys(entries, entry_keys(entries)));
    Seq::new(keys.len(), |i: int| (keys[i], spec_row_of(entries, keys[i])))
}

/// Insert one pin's row under the overwrite policy.
fn upsert_exec(entries: Vec<(String, Vec<String>)>, key: String, val: Vec<String>) -> (r: Vec<
    (String, Vec<String>),
>)
    ensures
        entry_views(r@) == upsert(entry_views(entries@), key@, seq_views(val@)),
{
    let ghost orig = entry_views(entries@);
    let n = entries.len();
    let mut i: usize = 0;
    while i < n
        invariant
            i <= n,
            n == entries@.len(),
            orig == entry_views(entries@),
            forall|j: int| 0 <= j < i ==> (#[trigger] orig[j]).0 != key@,
        decreases n - i,
    {
        if str_eq(entries[i].0.as_str(), key.as_str()) {
            proof {
                lemma_upsert_at(orig, key@, seq_views(val@), i as int);
            }
            let mut entries = entries;
            entries.remove(i);
            entries.insert(i, (key, val));
            assert(entry_views(entries@) =~~= orig.update(i as int, (key@, seq_views(val@))));
            return entries;
        }
        i = i + 1;
    }
    proof {
        lemma_upsert_absent(orig, key@, seq_views(val@));
    }
    let mut entries = entries;
    entries.push((key, val));
    assert(entry_views(entries@) =~~= orig.push((key@, seq_views(val@))));
    entries
}

/// Build the raw pin table of a descriptor, in pin order, later duplicate
/// identifiers overwriting earlier ones.
fn pin_entries_exec(pins: &Vec<GPIOPin>) -> (r: Vec<(String, Vec<String>)>)
    ensures
        entry_views(r@) == spec_pin_entries(pins@),
{
    let mut acc: Vec<(String, Vec<String>)> = Vec::new();
    let mut i: usize = 0;
    assert(entry_views(acc@) =~= spec_pin_entries(pins@.take(0)));
    while i < pins.len()
        invariant
            i <= pins@.len(),
            entry_views(acc@) == spec_pin_entries(pins@.take(i as int)),
        decreases pins@.len() - i,
    {
        let p = &pins[i];
        proof {
            assert(pins@.take(i + 1).drop_last() =~= pins@.take(i as int));
            assert(pins@.take(i + 1).last() == pins@[i as int]);
        }
        let name = p.get_name();
        match name {
            Some(name) => {
                let modes = p.get_af_modes();
                acc = upsert_exec(acc, name, modes);
            },
            None => {},
        }
        i = i + 1;
    }
    assert(pins@.take(i as int) =~= pins@);
    acc
}

/// The position of the first entry with the given key.
fn assoc_find(entries: &Vec<(String, Vec<String>)>, key: &str) -> (r: Option<usize>)
    ensures
        r matches Some(i) ==> i < entries@.len() && entries@[i as int].0@ == key@ && seq_views(
            entries@[i as int].1@,
        ) == assoc_get(entry_views(entries@), key@),
        r is None ==> assoc_get(entry_views(entries@), key@) == Seq::<Seq<char>>::empty(),
{
    let ghost ev = entry_views(entries@);
    let n = entries.len();
    let mut i: usize = 0;
    proof {
        assert(ev.skip(0) =~= ev);
    }
    while i < n
        invariant
            i <= n,
            n == entries@.len(),
            ev == entry_views(entries@),
            assoc_get(ev, key@) == assoc_get(ev.skip(i as int), key@),
        decreases n - i,
    {
        if str_eq(entries[i].0.as_str(), key) {
            assert(ev.skip(i as int)[0] == ev[i as int]);
            return Some(i);
        }
        proof {
            assert(ev.skip(i as int).skip(1) =~= ev.skip(i + 1));
        }
        i = i + 1;
    }
    assert(ev.skip(i as int) =~= Seq::<(Seq<char>, Seq<Seq<char>>)>::empty());
    None
}

/// The ordered, deduplicated capability row of one key.
fn row_of_exec(entries: &Vec<(String, Vec<String>)>, key: &str) -> (r: Vec<String>)
    ensures
        seq_views(r@) == spec_row_of(entry_views(entries@), key@),
{
    match assoc_find(entries, key) {
        Some(idx) => {
            let sorted = sort_strings(&entries[idx].1);
            dedup_strings(&sorted)
        },
        None => {
            let r: Vec<String> = Vec::new();
            assert(seq_views(r@) =~= spec_row_of(entry_views(entries@), key@));
            r
        },
    }
}

/// Aggregate a descriptor into its deterministic pin table: one row per
/// pin identifier that carries at least one capability, rows sorted
/// alphanumerically by identifier, capabilities within a row sorted and
/// deduplicated, duplicate identifiers resolved last-write-wins.
pub fn aggregate_pins(ip: &IpGPIO) -> (r: Vec<(String, Vec<String>)>)
    ensures
        entry_views(r@) == spec_aggregate(ip.gpio_pin@),
{
    let entries = pin_entries_exec(&ip.gpio_pin);
    let ghost ev = entry_views(entries@);
    let n = entries.len();
    let mut live: Vec<String> = Vec::new();
    let mut j = n;
    proof {
        assert(entry_keys(ev).skip(n as int) =~= Seq::<Seq<char>>::empty());
    }
    while j > 0
        invariant
            j <= n,
            n == entries@.len(),
            ev == entry_views(entries@),
            seq_views(live@) == live_keys(ev, entry_keys(ev).skip(j as int)),
        decreases j,
    {
        j = j - 1;
        let row = row_of_exec(&entries, entries[j].0.as_str());
        let ghost keys = entry_keys(ev).skip(j as int);
        proof {
            assert(keys[0] == ev[j as int].0);
            assert(keys.skip(1) =~= entry_keys(ev).skip(j + 1));
        }
        if row.len() > 0 {
            let k = entries[j].0.clone();
            let mut live2 = live;
            live2.insert(0, k);
            live = live2;
            assert(seq_views(live@) =~= seq![ev[j as int].0] + live_keys(ev, keys.skip(1)));
        }
    }
    proof {
        assert(entry_keys(ev).skip(0) =~= entry_keys(ev));
    }
    let sorted = sort_strings(&live);
    let ghost skeys = sort_alphanum(live_keys(ev, entry_keys(ev)));
    let mut out: Vec<(String, Vec<String>)> = Vec::new();
    let mut i: usize = 0;
    while i < sorted.len()
        invariant
            i <= sorted@.len(),
            ev == entry_views(entries@),
            seq_views(sorted@) == skeys,
            out@.len() == i,
            forall|k: int|
                0 <= k < i ==> (#[trigger] out@[k]).0@ == skeys[k] && seq_views(out@[k].1@)
                    == spec_row_of(ev, skeys[k]),
        decreases sorted@.len() - i,
    {
        let row = row_of_exec(&entries, sorted[i].as_str());
        let k = sorted[i].clone();
        out.push((k, row));
        i = i + 1;
    }
    assert(entry_views(out@) =~~= spec_aggregate(ip.gpio_pin@));
    out
}

/// Every key the live-key filter keeps has a non-empty capability row.
proof fn lemma_live_keys_rows(entries: Seq<(Seq<char>, Seq<Seq<char>>)>, keys: Seq<Seq<char>>)
    ensures
        forall|x: Seq<char>|
            live_keys(entries, keys).contains(x) ==> spec_row_of(entries, x).len() > 0,
    decreases keys.len(),
{
    if keys.len() == 0 {
    } else {
        lemma_live_keys_rows(entries, keys.skip(1));
        let r = live_keys(entries, keys);
        assert forall|x: Seq<char>| r.contains(x) implies spec_row_of(entries, x).len() > 0 by {
            if spec_row_of(entries, keys[0]).len() > 0 {
                let i = choose|i: int| 0 <= i < r.len() && r[i] == x;
                if i > 0 {
                    assert(live_keys(entries, keys.skip(1)).contains(x));
                }
            } else {
                assert(live_keys(entries, keys.skip(1)).contains(x));
            }
        }
    }
}

/// The aggregated table is deterministically ordered and never larger
/// than its input: pin rows stand in ascending alphanumeric identifier
/// order, the capabilities of each row stand in ascending alphanumeric
/// order and are never empty, and there are at most as many rows as the
/// descriptor has pin entries. That the same descriptor always aggregates
/// to the same table is [`aggregate_pins`]'s contract: its result is a
/// function of the descriptor alone.
pub proof fn lemma_aggregate_ordered(pins: Seq<GPIOPin>)
    ensures
        sorted_alphanum(entry_keys(spec_aggregate(pins))),
        forall|i: int|
            0 <= i < spec_aggregate(pins).len() ==> sorted_alphanum(
                (#[trigger] spec_aggregate(pins)[i]).1,
            ),
        forall|i: int|
            0 <= i < spec_aggregate(pins).len() ==> (#[trigger] spec_aggregate(pins)[i]).1.len()
                > 0,
        spec_aggregate(pins).len() <= pins.len(),
{
    broadcast use vstd::seq_lib::group_to_multiset_ensures;

    let entries = spec_pin_entries(pins);
    let live = live_keys(entries, entry_keys(entries));
    let keys = sort_alphanum(live);
    let rows = spec_aggregate(pins);
    lemma_sort_alphanum_sorted(live);
    assert(entry_keys(rows) =~= keys);
    lemma_live_keys_len(entries, entry_keys(entries));
    lemma_pin_entries_len(pins);
    lemma_sort_alphanum_multiset(live);
    lemma_live_keys_rows(entries, entry_keys(entries));
    assert forall|i: int| 0 <= i < rows.len() implies (#[trigger] rows[i]).1.len() > 0 by {
        let k = keys[i];
        assert(keys.contains(k));
        assert(keys.to_multiset().contains(k));
        assert(live.contains(k));
        assert(rows[i].1 == spec_row_of(entries, k));
    }
    assert forall|i: int| 0 <= i < rows.len() implies sorted_alphanum(
        (#[trigger] rows[i]).1,
    ) by {
        lemma_sort_alphanum_sorted(assoc_get(entries, keys[i]));
        lemma_dedup_keeps_sorted(sort_alphanum(assoc_get(entries, keys[i])));
    }
}

} // verus!
