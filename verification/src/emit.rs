//! The emitters: pure renderings of the grouped data into the
//! line-oriented generated text — pin-mapping tables, feature flags and
//! size constants.

use vstd::prelude::*;
use vstd::string::StrSliceExecFns;
use vstd::string::StringExecFns;
use crate::strutil::dec_string;
use crate::strutil::seq_views;
use crate::strutil::u32_to_dec;
use crate::strutil::chars_of;
use crate::strutil::str_eq;
use crate::strutil::lower_of;
use crate::strutil::lowercase;
use crate::alphanum::sort_alphanum;
use crate::alphanum::sort_strings;
use crate::alphanum::sort_u32s;
use crate::alphanum::sort_u32_vec;
use crate::alphanum::dedup_adjacent;
use crate::alphanum::dedup_strings;
use crate::internal_peripheral::IpGPIO;
use crate::internal_peripheral::GPIOPin;
use crate::internal_peripheral::entry_views;
use crate::internal_peripheral::entry_keys;
use crate::internal_peripheral::spec_aggregate;
use crate::internal_peripheral::aggregate_pins;
use crate::grouper::McuInfo;
use crate::grouper::pair_views;
use crate::grouper::size_entry_views;

verus! {

/// A version identity the generator supports: anything without an
/// underscore, followed by the literal `_gpio_v1_0`.
pub open spec fn gpio_version_ok(v: Seq<char>) -> bool {
    &&& v.len() >= 10
    &&& v.skip(v.len() - 10) == "_gpio_v1_0"@
    &&& forall|i: int| 0 <= i < v.len() - 10 ==> v[i] != '_'
}

/// The feature name of a version identity: `io-` and the text before the
/// `_gpio_v1_0` suffix.
pub open spec fn spec_gpio_feature(v: Seq<char>) -> Seq<char> {
    "io-"@ + v.take(v.len() - 10)
}

/// The message a malformed version identity fails with.
pub open spec fn spec_version_error(v: Seq<char>) -> Seq<char> {
    "Could not parse version "@ + v
}

fn version_error(version: &str) -> (r: String)
    ensures
        r@ == spec_version_error(version@),
{
    let mut msg = "Could not parse version ".to_owned();
    msg.append(version);
    msg
}

/// Convert a GPIO descriptor version identity to its feature name:
/// `io-` plus the identity without its required `_gpio_v1_0` suffix; an
/// identity without exactly that suffix is a format error.
pub fn gpio_version_to_feature(version: &str) -> (r: Result<String, String>)
    ensures
        gpio_version_ok(version@) ==> (r matches Ok(f) && f@ == spec_gpio_feature(version@)),
        !gpio_version_ok(version@) ==> (r matches Err(e) && e@ == spec_version_error(version@)),
{
    let cs = chars_of(version);
    let n = cs.len();
    if n < 10 {
        return Err(version_error(version));
    }
    let tail = version.substring_char(n - 10, n);
    assert(tail@ =~= version@.skip(n - 10));
    if !str_eq(tail, "_gpio_v1_0") {
        return Err(version_error(version));
    }
    let mut i: usize = 0;
    while i < n - 10
        invariant
            i <= n - 10,
            n == version@.len(),
            n >= 10,
            cs@ == version@,
            forall|j: int| 0 <= j < i ==> version@[j] != '_',
        decreases n - 10 - i,
    {
        if cs[i] == '_' {
            return Err(version_error(version));
        }
        i = i + 1;
    }
    let mut f = "io-".to_owned();
    f.append(version.substring_char(0, n - 10));
    assert(f@ =~= spec_gpio_feature(version@));
    Ok(f)
}

/// The feature name of an EEPROM size.
pub open spec fn spec_eeprom_feature(sz: u32) -> Seq<char> {
    "eeprom-"@ + dec_string(sz as nat)
}

/// The EEPROM feature name for a size in bytes.
pub fn eeprom_size_to_feature(size: u32) -> (r: String)
    ensures
        r@ == spec_eeprom_feature(size),
{
    let mut f = "eeprom-".to_owned();
    let d = u32_to_dec(size);
    f.append(d.as_str());
    f
}

/// The distinct GPIO descriptor versions of the grouped map, in ascending
/// alphanumeric order: the order in which descriptors are loaded and
/// their tables emitted.
pub fn sorted_gpio_versions(gpio_map: &Vec<(String, Vec<String>)>) -> (r: Vec<String>)
    ensures
        seq_views(r@) == sort_alphanum(entry_keys(entry_views(gpio_map@))),
{
    let mut keys: Vec<String> = Vec::new();
    let mut i: usize = 0;
    while i < gpio_map.len()
        invariant
            i <= gpio_map@.len(),
            keys@.len() == i,
            forall|j: int| 0 <= j < i ==> (#[trigger] keys@[j])@ == gpio_map@[j].0@,
        decreases gpio_map@.len() - i,
    {
        keys.push(gpio_map[i].0.clone());
        i = i + 1;
    }
    assert(seq_views(keys@) =~= entry_keys(entry_views(gpio_map@)));
    sort_strings(&keys)
}

/// The keys of a size-keyed entry list, in order.
pub open spec fn size_keys(entries: Seq<(u32, Seq<Seq<char>>)>) -> Seq<u32> {
    Seq::new(entries.len(), |i: int| entries[i].0)
}

/// The guard line of one EEPROM size.
pub open spec fn spec_size_cfg_line(sz: u32) -> Seq<char> {
    "#[cfg(feature = \""@ + spec_eeprom_feature(sz) + "\")]"@
}

/// The constant declaration of one EEPROM size.
pub open spec fn spec_size_const_line(sz: u32) -> Seq<char> {
    "const EEPROM_SIZE_BYTES: u32 = "@ + dec_string(sz as nat) + ";"@
}

/// The guarded constant lines of a list of sizes, in order.
pub open spec fn spec_size_lines(sizes: Seq<u32>) -> Seq<Seq<char>>
    decreases sizes.len(),
{
    if sizes.len() == 0 {
        Seq::empty()
    } else {
        spec_size_lines(sizes.drop_last()) + seq![
            spec_size_cfg_line(sizes.last()),
            spec_size_const_line(sizes.last()),
        ]
    }
}

/// The size-constant output: a header comment, then one guarded constant
/// per distinct known size, numerically sorted.
pub open spec fn spec_generate_eeprom_sizes(entries: Seq<(u32, Seq<Seq<char>>)>) -> Seq<Seq<char>> {
    seq!["// EEPROM sizes in bytes, generated with cube-parse"@] + spec_size_lines(
        sort_u32s(size_keys(entries)),
    )
}

/// Render the size-constant output for the grouped EEPROM sizes.
pub fn generate_eeprom_sizes(eeprom_map: &Vec<(u32, Vec<String>)>) -> (r: Vec<String>)
    ensures
        seq_views(r@) == spec_generate_eeprom_sizes(size_entry_views(eeprom_map@)),
{
    let mut keys: Vec<u32> = Vec::new();
    let mut i: usize = 0;
    while i < eeprom_map.len()
        invariant
            i <= eeprom_map@.len(),
            keys@.len() == i,
            forall|j: int| 0 <= j < i ==> keys@[j] == eeprom_map@[j].0,
        decreases eeprom_map@.len() - i,
    {
        keys.push(eeprom_map[i].0);
        i = i + 1;
    }
    assert(keys@ =~= size_keys(size_entry_views(eeprom_map@)));
    let sorted = sort_u32_vec(&keys);
    let ghost ss = sort_u32s(size_keys(size_entry_views(eeprom_map@)));
    let mut out: Vec<String> = Vec::new();
    out.push("// EEPROM sizes in bytes, generated with cube-parse".to_owned());
    let mut i: usize = 0;
    assert(seq_views(out@) =~= seq![
        "// EEPROM sizes in bytes, generated with cube-parse"@,
    ] + spec_size_lines(ss.take(0)));
    while i < sorted.len()
        invariant
            i <= sorted@.len(),
            sorted@ == ss,
            seq_views(out@) == seq![
                "// EEPROM sizes in bytes, generated with cube-parse"@,
            ] + spec_size_lines(ss.take(i as int)),
        decreases sorted@.len() - i,
    {
        proof {
            assert(ss.take(i + 1).drop_last() =~= ss.take(i as int));
            assert(ss.take(i + 1).last() == ss[i as int]);
        }
        let sz = sorted[i];
        let ghost prev = seq_views(out@);
        let mut cfg = "#[cfg(feature = \"".to_owned();
        let feat = eeprom_size_to_feature(sz);
        cfg.append(feat.as_str());
        cfg.append("\")]");
        assert(cfg@ =~= spec_size_cfg_line(sz));
        out.push(cfg);
        let mut cst = "const EEPROM_SIZE_BYTES: u32 = ".to_owned();
        let d = u32_to_dec(sz);
        cst.append(d.as_str());
        cst.append(";");
        assert(cst@ =~= spec_size_const_line(sz));
        out.push(cst);
        i = i + 1;
        proof {
            let t1 = ss.take(i as int);
            assert(t1.drop_last() =~= ss.take(i - 1));
            assert(t1.last() == ss[i - 1]);
            assert(spec_size_lines(t1) == spec_size_lines(ss.take(i - 1)) + seq![
                spec_size_cfg_line(ss[i - 1]),
                spec_size_const_line(ss[i - 1]),
            ]);
            assert(seq_views(out@) =~= prev + seq![
                spec_size_cfg_line(ss[i - 1]),
                spec_size_const_line(ss[i - 1]),
            ]);
            assert(prev + seq![
                spec_size_cfg_line(ss[i - 1]),
                spec_size_const_line(ss[i - 1]),
            ] =~= seq![
                "// EEPROM sizes in bytes, generated with cube-parse"@,
            ] + spec_size_lines(t1));
        }
    }
    assert(ss.take(i as int) =~= ss);
    out
}

/// The guard line of one descriptor version's table or feature block.
pub open spec fn spec_io_cfg_line(version: Seq<char>) -> Seq<char> {
    "#[cfg(feature = \""@ + spec_gpio_feature(version) + "\")]"@
}

/// The one-line form of a pin with a single capability.
pub open spec fn spec_pin_line_single(name: Seq<char>, cap: Seq<char>) -> Seq<char> {
    "    "@ + name + " => {"@ + cap + "},"@
}

/// The head line of a pin with several capabilities.
pub open spec fn spec_pin_block_head(name: Seq<char>) -> Seq<char> {
    "    "@ + name + " => {"@
}

/// One capability line inside a pin block.
pub open spec fn spec_cap_line(cap: Seq<char>) -> Seq<char> {
    "        "@ + cap + ","@
}

/// The capability lines of a pin block, in order.
pub open spec fn spec_cap_lines(caps: Seq<Seq<char>>) -> Seq<Seq<char>>
    decreases caps.len(),
{
    if caps.len() == 0 {
        Seq::empty()
    } else {
        spec_cap_lines(caps.drop_last()) + seq![spec_cap_line(caps.last())]
    }
}

/// The lines of one aggregated pin row: a single line for a lone
/// capability, a nested block otherwise.
pub open spec fn spec_row_lines(row: (Seq<char>, Seq<Seq<char>>)) -> Seq<Seq<char>> {
    if row.1.len() == 1 {
        seq![spec_pin_line_single(row.0, row.1[0])]
    } else {
        seq![spec_pin_block_head(row.0)] + spec_cap_lines(row.1) + seq!["    },"@]
    }
}

/// The lines of all aggregated rows, in order.
pub open spec fn spec_rows_lines(rows: Seq<(Seq<char>, Seq<Seq<char>>)>) -> Seq<Seq<char>>
    decreases rows.len(),
{
    if rows.len() == 0 {
        Seq::empty()
    } else {
        spec_rows_lines(rows.drop_last()) + spec_row_lines(rows.last())
    }
}

/// The pin table of one descriptor: the aggregated rows between the
/// table's opening and closing lines.
pub open spec fn spec_render_pin_modes(pins: Seq<GPIOPin>) -> Seq<Seq<char>> {
    seq!["pins! {"@] + spec_rows_lines(spec_aggregate(pins)) + seq!["}"@]
}

/// Render the pin table of one GPIO descriptor.
pub fn render_pin_modes(ip: &IpGPIO) -> (r: Vec<String>)
    ensures
        seq_views(r@) == spec_render_pin_modes(ip.gpio_pin@),
{
    let rows = aggregate_pins(ip);
    let ghost rv = spec_aggregate(ip.gpio_pin@);
    let mut out: Vec<String> = Vec::new();
    out.push("pins! {".to_owned());
    let mut i: usize = 0;
    assert(seq_views(out@) =~= seq!["pins! {"@] + spec_rows_lines(rv.take(0)));
    while i < rows.len()
        invariant
            i <= rows@.len(),
            entry_views(rows@) == rv,
            seq_views(out@) == seq!["pins! {"@] + spec_rows_lines(rv.take(i as int)),
        decreases rows@.len() - i,
    {
        proof {
            assert(rv.take(i + 1).drop_last() =~= rv.take(i as int));
            assert(rv.take(i + 1).last() == rv[i as int]);
        }
        let row = &rows[i];
        let ghost before = seq_views(out@);
        if row.1.len() == 1 {
            let mut line = "    ".to_owned();
            line.append(row.0.as_str());
            line.append(" => {");
            line.append(row.1[0].as_str());
            line.append("},");
            assert(line@ =~= spec_pin_line_single(rv[i as int].0, rv[i as int].1[0]));
            let ghost lv = line@;
            out.push(line);
            assert(seq_views(out@) =~= before + seq![lv]);
            assert(before + seq![lv] =~= before + spec_row_lines(rv[i as int]));
        } else {
            let mut head = "    ".to_owned();
            head.append(row.0.as_str());
            head.append(" => {");
            assert(head@ =~= spec_pin_block_head(rv[i as int].0));
            out.push(head);
            let ghost caps = rv[i as int].1;
            let mut j: usize = 0;
            assert(seq_views(out@) =~= before + seq![spec_pin_block_head(rv[i as int].0)]);
            assert(before + seq![spec_pin_block_head(rv[i as int].0)] =~= before + seq![
                spec_pin_block_head(rv[i as int].0),
            ] + spec_cap_lines(caps.take(0)));
            while j < row.1.len()
                invariant
                    j <= row.1@.len(),
                    i < rows@.len(),
                    entry_views(rows@) == rv,
                    caps == rv[i as int].1,
                    seq_views(row.1@) == caps,
                    seq_views(out@) == before + seq![spec_pin_block_head(rv[i as int].0)]
                        + spec_cap_lines(caps.take(j as int)),
                decreases row.1@.len() - j,
            {
                proof {
                    assert(caps.take(j + 1).drop_last() =~= caps.take(j as int));
                    assert(caps.take(j + 1).last() == caps[j as int]);
                }
                let mut line = "        ".to_owned();
                line.append(row.1[j].as_str());
                line.append(",");
                assert(line@ =~= spec_cap_line(caps[j as int]));
                let ghost prevcaps = seq_views(out@);
                out.push(line);
                j = j + 1;
                proof {
                    assert(seq_views(out@) =~= prevcaps + seq![spec_cap_line(caps[j - 1])]);
                    assert(spec_cap_lines(caps.take(j as int)) == spec_cap_lines(caps.take(j - 1))
                        + seq![spec_cap_line(caps[j - 1])]);
                    assert(prevcaps + seq![spec_cap_line(caps[j - 1])] =~= before + seq![
                        spec_pin_block_head(rv[i as int].0),
                    ] + spec_cap_lines(caps.take(j as int)));
                }
            }
            assert(caps.take(j as int) =~= caps);
            let ghost prevtail = seq_views(out@);
            out.push("    },".to_owned());
            assert(seq_views(out@) =~= prevtail + seq!["    },"@]);
            assert(prevtail + seq!["    },"@] =~= before + spec_row_lines(rv[i as int]));
        }
        i = i + 1;
        proof {
            assert(spec_rows_lines(rv.take(i as int)) == spec_rows_lines(rv.take(i - 1))
                + spec_row_lines(rv[i - 1]));
            assert(before + spec_row_lines(rv[i - 1]) =~= seq!["pins! {"@] + spec_rows_lines(
                rv.take(i as int),
            ));
        }
    }
    assert(rv.take(i as int) =~= rv);
    let ghost whole = seq_views(out@);
    out.push("}".to_owned());
    assert(seq_views(out@) =~= whole + seq!["}"@]);
    assert(whole + seq!["}"@] =~= spec_render_pin_modes(ip.gpio_pin@));
    out
}

/// The views of a list of loaded descriptors: each version identity with
/// its descriptor's pins.
pub open spec fn loaded_views(v: Seq<(String, IpGPIO)>) -> Seq<(Seq<char>, Seq<GPIOPin>)> {
    Seq::new(v.len(), |i: int| (v[i].0@, v[i].1.gpio_pin@))
}

/// One version's block of the pin-mapping output: the guard line, the pin
/// table, and two blank lines.
pub open spec fn spec_version_block(version: Seq<char>, pins: Seq<GPIOPin>) -> Seq<Seq<char>> {
    seq![spec_io_cfg_line(version)] + spec_render_pin_modes(pins) + seq![""@, ""@]
}

/// The whole pin-mapping output, version blocks in the given order.
pub open spec fn spec_pin_map_lines(ld: Seq<(Seq<char>, Seq<GPIOPin>)>) -> Seq<Seq<char>>
    decreases ld.len(),
{
    if ld.len() == 0 {
        Seq::empty()
    } else {
        spec_pin_map_lines(ld.drop_last()) + spec_version_block(ld.last().0, ld.last().1)
    }
}

/// The first version identity of the list that is not well-formed, if
/// any: the one the run fails on.
pub open spec fn first_bad_version(versions: Seq<Seq<char>>) -> Option<Seq<char>>
    decreases versions.len(),
{
    if versions.len() == 0 {
        None
    } else if !gpio_version_ok(versions[0]) {
        Some(versions[0])
    } else {
        first_bad_version(versions.skip(1))
    }
}

/// The version identities of a loaded descriptor list, in order.
pub open spec fn loaded_versions(ld: Seq<(Seq<char>, Seq<GPIOPin>)>) -> Seq<Seq<char>> {
    Seq::new(ld.len(), |i: int| ld[i].0)
}

/// Render the pin-mapping output for the loaded descriptors, in the given
/// order: one guarded table per version. The first malformed version
/// identity aborts the run with its format error.
pub fn generate_pin_mappings(loaded: &Vec<(String, IpGPIO)>) -> (r: Result<Vec<String>, String>)
    ensures
        first_bad_version(loaded_versions(loaded_views(loaded@))) matches Some(v) ==> (
        r matches Err(e) && e@ == spec_version_error(v)),
        first_bad_version(loaded_versions(loaded_views(loaded@))) is None ==> (r matches Ok(lines)
            && seq_views(lines@) == spec_pin_map_lines(loaded_views(loaded@))),
{
    let ghost lv = loaded_views(loaded@);
    let ghost vs = loaded_versions(lv);
    let mut out: Vec<String> = Vec::new();
    let mut i: usize = 0;
    proof {
        assert(vs.skip(0) =~= vs);
        assert(seq_views(out@) =~= spec_pin_map_lines(lv.take(0)));
    }
    while i < loaded.len()
        invariant
            i <= loaded@.len(),
            lv == loaded_views(loaded@),
            vs == loaded_versions(lv),
            first_bad_version(vs) == first_bad_version(vs.skip(i as int)),
            seq_views(out@) == spec_pin_map_lines(lv.take(i as int)),
        decreases loaded@.len() - i,
    {
        proof {
            assert(vs.skip(i as int)[0] == vs[i as int]);
            assert(vs.skip(i as int).skip(1) =~= vs.skip(i + 1));
        }
        let version = &loaded[i].0;
        match gpio_version_to_feature(version.as_str()) {
            Err(e) => {
                return Err(e);
            },
            Ok(feat) => {
                let ghost before = seq_views(out@);
                let mut cfg = "#[cfg(feature = \"".to_owned();
                cfg.append(feat.as_str());
                cfg.append("\")]");
                assert(cfg@ =~= spec_io_cfg_line(vs[i as int]));
                out.push(cfg);
                let mut table = render_pin_modes(&loaded[i].1);
                let ghost tl = seq_views(table@);
                let ghost mid = seq_views(out@);
                out.append(&mut table);
                assert(seq_views(out@) =~= mid + tl);
                let ghost mid2 = seq_views(out@);
                out.push("".to_owned());
                out.push("".to_owned());
                assert(seq_views(out@) =~= mid2 + seq![""@, ""@]);
                i = i + 1;
                proof {
                    assert(lv.take(i as int).drop_last() =~= lv.take(i - 1));
                    assert(lv.take(i as int).last() == lv[i - 1]);
                    assert(spec_pin_map_lines(lv.take(i as int)) == spec_pin_map_lines(
                        lv.take(i - 1),
                    ) + spec_version_block(lv[i - 1].0, lv[i - 1].1));
                    assert(mid =~= before + seq![spec_io_cfg_line(lv[i - 1].0)]);
                    assert(seq_views(out@) =~= before + spec_version_block(
                        lv[i - 1].0,
                        lv[i - 1].1,
                    ));
                }
            },
        }
    }
    proof {
        assert(vs.skip(i as int) =~= Seq::<Seq<char>>::empty());
        assert(lv.take(i as int) =~= lv);
    }
    Ok(out)
}

/// One `name = []` flag line.
pub open spec fn spec_flag_line(name: Seq<char>) -> Seq<char> {
    name + " = []"@
}

/// The flag lines of a list of names, in order.
pub open spec fn spec_flag_lines(names: Seq<Seq<char>>) -> Seq<Seq<char>> {
    Seq::new(names.len(), |i: int| spec_flag_line(names[i]))
}

/// The feature names of a list of version identities.
pub open spec fn spec_io_features(keys: Seq<Seq<char>>) -> Seq<Seq<char>> {
    Seq::new(keys.len(), |i: int| spec_gpio_feature(keys[i]))
}

/// The EEPROM feature names of a list of sizes.
pub open spec fn spec_size_flag_names(sizes: Seq<u32>) -> Seq<Seq<char>> {
    Seq::new(sizes.len(), |i: int| spec_eeprom_feature(sizes[i]))
}

/// The lowercased package names of the package map, in order.
pub open spec fn spec_package_names(pm: Seq<(Seq<char>, Seq<char>)>) -> Seq<Seq<char>> {
    Seq::new(pm.len(), |i: int| lower_of(pm[i].1))
}

/// The family dependency table for the `STM32L0` family: the identifier
/// starts with `STM32L0`, and the character after the next one selects
/// the line feature. The first matching rule wins; the rules are
/// mutually exclusive.
pub open spec fn l0_dep(mcu: Seq<char>) -> Option<Seq<char>> {
    if mcu.len() >= 9 && mcu.take(7) == "STM32L0"@ {
        if mcu[8] == '1' {
            Some("stm32l0x1"@)
        } else if mcu[8] == '2' {
            Some("stm32l0x2"@)
        } else if mcu[8] == '3' {
            Some("stm32l0x3"@)
        } else {
            None
        }
    } else {
        None
    }
}

/// The static dependency tag of an MCU under its family's rule table;
/// families without a table contribute none.
pub open spec fn family_dep(family: Seq<char>, mcu: Seq<char>) -> Option<Seq<char>> {
    if family == "STM32L0"@ {
        l0_dep(mcu)
    } else {
        None
    }
}

/// The value under the first occurrence of a key in a pair list.
pub open spec fn pair_get(pm: Seq<(Seq<char>, Seq<char>)>, key: Seq<char>) -> Option<Seq<char>>
    decreases pm.len(),
{
    if pm.len() == 0 {
        None
    } else if pm[0].0 == key {
        Some(pm[0].1)
    } else {
        pair_get(pm.skip(1), key)
    }
}

/// The EEPROM size recorded for an MCU identifier, if the identifier is
/// known and its size is.
pub open spec fn info_eeprom(infos: Seq<McuInfo>, key: Seq<char>) -> Option<u32>
    decreases infos.len(),
{
    if infos.len() == 0 {
        None
    } else if infos[0].ref_name@ == key {
        infos[0].eeprom_size
    } else {
        info_eeprom(infos.skip(1), key)
    }
}

/// The dependency list of one MCU alias: its family's static tag if one
/// matches, its lowercased package flag if the family keeps packages, its
/// IO feature, and its EEPROM feature if the size is known.
pub open spec fn spec_mcu_deps(
    family: Seq<char>,
    pm: Seq<(Seq<char>, Seq<char>)>,
    infos: Seq<McuInfo>,
    gpio_feature: Seq<char>,
    mcu: Seq<char>,
) -> Seq<Seq<char>> {
    (match family_dep(family, mcu) {
        Some(d) => seq![d],
        None => Seq::empty(),
    }) + (match pair_get(pm, mcu) {
        Some(p) => seq![lower_of(p)],
        None => Seq::empty(),
    }) + seq![gpio_feature] + (match info_eeprom(infos, mcu) {
        Some(sz) => seq![spec_eeprom_feature(sz)],
        None => Seq::empty(),
    })
}

/// A dependency name in quotes.
pub open spec fn spec_quoted(d: Seq<char>) -> Seq<char> {
    "\""@ + d + "\""@
}

/// The quoted dependency names joined with commas.
pub open spec fn spec_join_quoted(deps: Seq<Seq<char>>) -> Seq<char>
    decreases deps.len(),
{
    if deps.len() == 0 {
        Seq::empty()
    } else if deps.len() == 1 {
        spec_quoted(deps[0])
    } else {
        spec_join_quoted(deps.drop_last()) + ", "@ + spec_quoted(deps.last())
    }
}

/// The alias line of one MCU.
pub open spec fn spec_alias_line(mcu: Seq<char>, deps: Seq<Seq<char>>) -> Seq<char> {
    "mcu-"@ + mcu + " = ["@ + spec_join_quoted(deps) + "]"@
}

/// The alias lines of one descriptor version's MCUs, in list order.
pub open spec fn spec_entry_alias_lines(
    family: Seq<char>,
    pm: Seq<(Seq<char>, Seq<char>)>,
    infos: Seq<McuInfo>,
    version: Seq<char>,
    members: Seq<Seq<char>>,
) -> Seq<Seq<char>>
    decreases members.len(),
{
    if members.len() == 0 {
        Seq::empty()
    } else {
        spec_entry_alias_lines(family, pm, infos, version, members.drop_last()) + seq![
            spec_alias_line(
                members.last(),
                spec_mcu_deps(family, pm, infos, spec_gpio_feature(version), members.last()),
            ),
        ]
    }
}

/// The alias lines of all MCUs, version group by version group, before
/// sorting.
pub open spec fn spec_alias_lines(
    family: Seq<char>,
    pm: Seq<(Seq<char>, Seq<char>)>,
    infos: Seq<McuInfo>,
    gm: Seq<(Seq<char>, Seq<Seq<char>>)>,
) -> Seq<Seq<char>>
    decreases gm.len(),
{
    if gm.len() == 0 {
        Seq::empty()
    } else {
        spec_alias_lines(family, pm, infos, gm.drop_last()) + spec_entry_alias_lines(
            family,
            pm,
            infos,
            gm.last().0,
            gm.last().1,
        )
    }
}

/// The whole feature output on well-formed input: the IO flags sorted, the
/// EEPROM flags numerically sorted, the package flags where the family has
/// them, and the MCU alias lines sorted by identifier.
pub open spec fn spec_generate_features(
    gm: Seq<(Seq<char>, Seq<Seq<char>>)>,
    pm: Seq<(Seq<char>, Seq<char>)>,
    em: Seq<(u32, Seq<Seq<char>>)>,
    infos: Seq<McuInfo>,
    family: Seq<char>,
) -> Seq<Seq<char>> {
    seq![
        "# Features based on the GPIO peripheral version"@,
        "# This determines the pin function mapping of the MCU"@,
    ] + spec_flag_lines(sort_alphanum(spec_io_features(entry_keys(gm)))) + seq![""@] + seq![
        "# Features based on EEPROM size (in bytes)"@,
    ] + spec_flag_lines(spec_size_flag_names(sort_u32s(size_keys(em)))) + seq![""@] + (if pm.len()
        > 0 {
        seq!["# Physical packages"@] + spec_flag_lines(
            dedup_adjacent(sort_alphanum(spec_package_names(pm))),
        ) + seq![""@]
    } else {
        Seq::<Seq<char>>::empty()
    }) + seq![
        "# MCU aliases"@,
        "#"@,
        "# Note: These are just aliases, they should not be used to directly feature gate"@,
        "# functionality in the HAL! However, user code should usually depend on a MCU alias."@,
    ] + sort_alphanum(spec_alias_lines(family, pm, infos, gm))
}

/// Render one flag line per name, in order.
fn flag_lines_exec(names: &Vec<String>) -> (r: Vec<String>)
    ensures
        seq_views(r@) == spec_flag_lines(seq_views(names@)),
{
    let mut r: Vec<String> = Vec::new();
    let mut i: usize = 0;
    while i < names.len()
        invariant
            i <= names@.len(),
            r@.len() == i,
            forall|k: int| 0 <= k < i ==> (#[trigger] r@[k])@ == spec_flag_line(names@[k]@),
        decreases names@.len() - i,
    {
        let mut line = names[i].clone();
        line.append(" = []");
        r.push(line);
        i = i + 1;
    }
    assert(seq_views(r@) =~= spec_flag_lines(seq_views(names@)));
    r
}

/// The family dependency tag of an MCU identifier, where a rule matches.
fn family_dep_exec(family: &str, mcu: &str) -> (r: Option<&'static str>)
    ensures
        r matches Some(d) ==> family_dep(family@, mcu@) == Some(d@),
        r is None ==> family_dep(family@, mcu@) is None,
{
    if !str_eq(family, "STM32L0") {
        return None;
    }
    let cs = chars_of(mcu);
    if cs.len() < 9 {
        return None;
    }
    let head = mcu.substring_char(0, 7);
    assert(head@ =~= mcu@.take(7));
    if !str_eq(head, "STM32L0") {
        return None;
    }
    if cs[8] == '1' {
        Some("stm32l0x1")
    } else if cs[8] == '2' {
        Some("stm32l0x2")
    } else if cs[8] == '3' {
        Some("stm32l0x3")
    } else {
        None
    }
}

/// The value under a key in a pair list, if the key is present.
fn pair_get_exec(pm: &Vec<(String, String)>, key: &str) -> (r: Option<String>)
    ensures
        r matches Some(p) ==> pair_get(pair_views(pm@), key@) == Some(p@),
        r is None ==> pair_get(pair_views(pm@), key@) is None,
{
    let ghost pv = pair_views(pm@);
    let n = pm.len();
    let mut i: usize = 0;
    proof {
        assert(pv.skip(0) =~= pv);
    }
    while i < n
        invariant
            i <= n,
            n == pm@.len(),
            pv == pair_views(pm@),
            pair_get(pv, key@) == pair_get(pv.skip(i as int), key@),
        decreases n - i,
    {
        if str_eq(pm[i].0.as_str(), key) {
            assert(pv.skip(i as int)[0] == pv[i as int]);
            return Some(pm[i].1.clone());
        }
        proof {
            assert(pv.skip(i as int).skip(1) =~= pv.skip(i + 1));
        }
        i = i + 1;
    }
    assert(pv.skip(i as int) =~= Seq::<(Seq<char>, Seq<char>)>::empty());
    None
}

/// The recorded EEPROM size of an MCU identifier, where one is known.
fn info_eeprom_exec(infos: &Vec<McuInfo>, key: &str) -> (r: Option<u32>)
    ensures
        r == info_eeprom(infos@, key@),
{
    let n = infos.len();
    let mut i: usize = 0;
    proof {
        assert(infos@.skip(0) =~= infos@);
    }
    while i < n
        invariant
            i <= n,
            n == infos@.len(),
            info_eeprom(infos@, key@) == info_eeprom(infos@.skip(i as int), key@),
        decreases n - i,
    {
        if str_eq(infos[i].ref_name.as_str(), key) {
            return infos[i].eeprom_size;
        }
        proof {
            assert(infos@.skip(i as int).skip(1) =~= infos@.skip(i + 1));
        }
        i = i + 1;
    }
    assert(infos@.skip(i as int) =~= Seq::<McuInfo>::empty());
    None
}

/// The dependency list of one MCU alias.
fn deps_of(
    family: &str,
    pm: &Vec<(String, String)>,
    infos: &Vec<McuInfo>,
    gpio_feature: &String,
    mcu: &String,
) -> (r: Vec<String>)
    ensures
        seq_views(r@) == spec_mcu_deps(family@, pair_views(pm@), infos@, gpio_feature@, mcu@),
{
    let ghost pv = pair_views(pm@);
    let mut r: Vec<String> = Vec::new();
    match family_dep_exec(family, mcu.as_str()) {
        Some(d) => {
            r.push(d.to_owned());
        },
        None => {},
    }
    let ghost part1 = match family_dep(family@, mcu@) {
        Some(d) => seq![d],
        None => Seq::<Seq<char>>::empty(),
    };
    assert(seq_views(r@) =~= part1);
    match pair_get_exec(pm, mcu.as_str()) {
        Some(p) => {
            r.push(lowercase(p.as_str()));
        },
        None => {},
    }
    let ghost part2 = match pair_get(pv, mcu@) {
        Some(p) => seq![lower_of(p)],
        None => Seq::<Seq<char>>::empty(),
    };
    assert(seq_views(r@) =~= part1 + part2);
    r.push(gpio_feature.clone());
    assert(seq_views(r@) =~= part1 + part2 + seq![gpio_feature@]);
    match info_eeprom_exec(infos, mcu.as_str()) {
        Some(sz) => {
            r.push(eeprom_size_to_feature(sz));
        },
        None => {},
    }
    let ghost part4 = match info_eeprom(infos@, mcu@) {
        Some(sz) => seq![spec_eeprom_feature(sz)],
        None => Seq::<Seq<char>>::empty(),
    };
    assert(seq_views(r@) =~= part1 + part2 + seq![gpio_feature@] + part4);
    r
}

/// The quoted dependency names joined with commas.
fn join_quoted_exec(deps: &Vec<String>) -> (r: String)
    ensures
        r@ == spec_join_quoted(seq_views(deps@)),
{
    let ghost dv = seq_views(deps@);
    let mut s = String::new();
    let mut i: usize = 0;
    assert(s@ =~= spec_join_quoted(dv.take(0)));
    while i < deps.len()
        invariant
            i <= deps@.len(),
            dv == seq_views(deps@),
            s@ == spec_join_quoted(dv.take(i as int)),
        decreases deps@.len() - i,
    {
        proof {
            assert(dv.take(i + 1).drop_last() =~= dv.take(i as int));
            assert(dv.take(i + 1).last() == dv[i as int]);
        }
        if i > 0 {
            s.append(", ");
        }
        s.append("\"");
        s.append(deps[i].as_str());
        s.append("\"");
        i = i + 1;
        assert(s@ =~= spec_join_quoted(dv.take(i as int)));
    }
    assert(dv.take(i as int) =~= dv);
    s
}

/// The alias line of one MCU.
fn alias_line_exec(mcu: &String, deps: &Vec<String>) -> (r: String)
    ensures
        r@ == spec_alias_line(mcu@, seq_views(deps@)),
{
    let mut s = "mcu-".to_owned();
    s.append(mcu.as_str());
    s.append(" = [");
    let joined = join_quoted_exec(deps);
    s.append(joined.as_str());
    s.append("]");
    assert(s@ =~= spec_alias_line(mcu@, seq_views(deps@)));
    s
}

/// Render the feature output: IO flags, EEPROM flags, package flags where
/// the family keeps them, and one alias entry per MCU with its computed
/// dependency list. The first malformed descriptor version identity
/// aborts the run with its format error.
pub fn generate_features(
    gpio_map: &Vec<(String, Vec<String>)>,
    package_map: &Vec<(String, String)>,
    eeprom_map: &Vec<(u32, Vec<String>)>,
    infos: &Vec<McuInfo>,
    mcu_family: &str,
) -> (r: Result<Vec<String>, String>)
    ensures
        first_bad_version(entry_keys(entry_views(gpio_map@))) matches Some(v) ==> (r matches Err(e)
            && e@ == spec_version_error(v)),
        first_bad_version(entry_keys(entry_views(gpio_map@))) is None ==> (r matches Ok(lines)
            && seq_views(lines@) == spec_generate_features(
            entry_views(gpio_map@),
            pair_views(package_map@),
            size_entry_views(eeprom_map@),
            infos@,
            mcu_family@,
        )),
{
    let ghost gm = entry_views(gpio_map@);
    let ghost pm = pair_views(package_map@);
    let ghost em = size_entry_views(eeprom_map@);
    let ghost keys = entry_keys(gm);
    // IO features, one per descriptor version; the first malformed
    // version identity fails the run.
    let mut feats: Vec<String> = Vec::new();
    let n = gpio_map.len();
    let mut i: usize = 0;
    proof {
        assert(keys.skip(0) =~= keys);
    }
    while i < n
        invariant
            i <= n,
            n == gpio_map@.len(),
            gm == entry_views(gpio_map@),
            keys == entry_keys(gm),
            first_bad_version(keys) == first_bad_version(keys.skip(i as int)),
            feats@.len() == i,
            forall|k: int| 0 <= k < i ==> (#[trigger] feats@[k])@ == spec_gpio_feature(keys[k]),
        decreases n - i,
    {
        proof {
            assert(keys.skip(i as int)[0] == keys[i as int]);
            assert(keys.skip(i as int).skip(1) =~= keys.skip(i + 1));
        }
        match gpio_version_to_feature(gpio_map[i].0.as_str()) {
            Err(e) => {
                return Err(e);
            },
            Ok(f) => {
                feats.push(f);
            },
        }
        i = i + 1;
    }
    proof {
        assert(keys.skip(i as int) =~= Seq::<Seq<char>>::empty());
        assert(seq_views(feats@) =~= spec_io_features(keys));
    }
    let sorted_feats = sort_strings(&feats);
    // EEPROM sizes, numerically sorted.
    let mut sizes: Vec<u32> = Vec::new();
    let mut i: usize = 0;
    while i < eeprom_map.len()
        invariant
            i <= eeprom_map@.len(),
            em == size_entry_views(eeprom_map@),
            sizes@.len() == i,
            forall|k: int| 0 <= k < i ==> sizes@[k] == em[k].0,
        decreases eeprom_map@.len() - i,
    {
        sizes.push(eeprom_map[i].0);
        i = i + 1;
    }
    assert(sizes@ =~= size_keys(em));
    let sorted_sizes = sort_u32_vec(&sizes);
    let mut size_names: Vec<String> = Vec::new();
    let mut i: usize = 0;
    while i < sorted_sizes.len()
        invariant
            i <= sorted_sizes@.len(),
            sorted_sizes@ == sort_u32s(size_keys(em)),
            size_names@.len() == i,
            forall|k: int|
                0 <= k < i ==> (#[trigger] size_names@[k])@ == spec_eeprom_feature(
                    sort_u32s(size_keys(em))[k],
                ),
        decreases sorted_sizes@.len() - i,
    {
        size_names.push(eeprom_size_to_feature(sorted_sizes[i]));
        i = i + 1;
    }
    assert(seq_views(size_names@) =~= spec_size_flag_names(sort_u32s(size_keys(em))));
    // Package flags, lowercased, sorted, deduplicated.
    let mut lowers: Vec<String> = Vec::new();
    let mut i: usize = 0;
    while i < package_map.len()
        invariant
            i <= package_map@.len(),
            pm == pair_views(package_map@),
            lowers@.len() == i,
            forall|k: int| 0 <= k < i ==> (#[trigger] lowers@[k])@ == lower_of(pm[k].1),
        decreases package_map@.len() - i,
    {
        lowers.push(lowercase(package_map[i].1.as_str()));
        i = i + 1;
    }
    assert(seq_views(lowers@) =~= spec_package_names(pm));
    let sorted_lowers = sort_strings(&lowers);
    let packages = dedup_strings(&sorted_lowers);
    // Alias lines, one per MCU, then sorted by identifier.
    let mut aliases: Vec<String> = Vec::new();
    let mut e: usize = 0;
    proof {
        assert(seq_views(aliases@) =~= spec_alias_lines(mcu_family@, pm, infos@, gm.take(0)));
    }
    while e < gpio_map.len()
        invariant
            e <= gpio_map@.len(),
            gm == entry_views(gpio_map@),
            pm == pair_views(package_map@),
            keys == entry_keys(gm),
            feats@.len() == gm.len(),
            forall|k: int|
                0 <= k < gm.len() ==> (#[trigger] feats@[k])@ == spec_gpio_feature(keys[k]),
            seq_views(aliases@) == spec_alias_lines(mcu_family@, pm, infos@, gm.take(e as int)),
        decreases gpio_map@.len() - e,
    {
        proof {
            assert(gm.take(e + 1).drop_last() =~= gm.take(e as int));
            assert(gm.take(e + 1).last() == gm[e as int]);
        }
        let ghost members = gm[e as int].1;
        let ghost before = seq_views(aliases@);
        let feat = &feats[e];
        assert(feat@ == spec_gpio_feature(gm[e as int].0));
        let mcus = &gpio_map[e].1;
        let mut j: usize = 0;
        proof {
            assert(members.take(0) =~= Seq::<Seq<char>>::empty());
            assert(before + spec_entry_alias_lines(
                mcu_family@,
                pm,
                infos@,
                gm[e as int].0,
                members.take(0),
            ) =~= before);
        }
        while j < mcus.len()
            invariant
                j <= mcus@.len(),
                e < gpio_map@.len(),
                gm == entry_views(gpio_map@),
                pm == pair_views(package_map@),
                members == gm[e as int].1,
                seq_views(mcus@) == members,
                feat@ == spec_gpio_feature(gm[e as int].0),
                seq_views(aliases@) == before + spec_entry_alias_lines(
                    mcu_family@,
                    pm,
                    infos@,
                    gm[e as int].0,
                    members.take(j as int),
                ),
            decreases mcus@.len() - j,
        {
            proof {
                assert(members.take(j + 1).drop_last() =~= members.take(j as int));
                assert(members.take(j + 1).last() == members[j as int]);
            }
            let mcu = &mcus[j];
            let deps = deps_of(mcu_family, package_map, infos, feat, mcu);
            let line = alias_line_exec(mcu, &deps);
            let ghost prev = seq_views(aliases@);
            aliases.push(line);
            j = j + 1;
            proof {
                assert(seq_views(aliases@) =~= prev + seq![
                    spec_alias_line(
                        members[j - 1],
                        spec_mcu_deps(
                            mcu_family@,
                            pm,
                            infos@,
                            spec_gpio_feature(gm[e as int].0),
                            members[j - 1],
                        ),
                    ),
                ]);
                assert(spec_entry_alias_lines(
                    mcu_family@,
                    pm,
                    infos@,
                    gm[e as int].0,
                    members.take(j as int),
                ) == spec_entry_alias_lines(
                    mcu_family@,
                    pm,
                    infos@,
                    gm[e as int].0,
                    members.take(j - 1),
                ) + seq![
                    spec_alias_line(
                        members[j - 1],
                        spec_mcu_deps(
                            mcu_family@,
                            pm,
                            infos@,
                            spec_gpio_feature(gm[e as int].0),
                            members[j - 1],
                        ),
                    ),
                ]);
                assert(seq_views(aliases@) =~= before + spec_entry_alias_lines(
                    mcu_family@,
                    pm,
                    infos@,
                    gm[e as int].0,
                    members.take(j as int),
                ));
            }
        }
        e = e + 1;
        proof {
            assert(members.take(j as int) =~= members);
            assert(spec_alias_lines(mcu_family@, pm, infos@, gm.take(e as int))
                == spec_alias_lines(mcu_family@, pm, infos@, gm.take(e - 1))
                + spec_entry_alias_lines(mcu_family@, pm, infos@, gm[e - 1].0, members));
        }
    }
    assert(gm.take(e as int) =~= gm);
    let sorted_aliases = sort_strings(&aliases);
    // Assemble the sections.
    let mut out: Vec<String> = Vec::new();
    out.push("# Features based on the GPIO peripheral version".to_owned());
    out.push("# This determines the pin function mapping of the MCU".to_owned());
    let ghost mut acc = seq![
        "# Features based on the GPIO peripheral version"@,
        "# This determines the pin function mapping of the MCU"@,
    ];
    assert(seq_views(out@) =~= acc);
    let mut io_lines = flag_lines_exec(&sorted_feats);
    let ghost gpart = seq_views(io_lines@);
    out.append(&mut io_lines);
    proof {
        assert(seq_views(out@) =~= acc + gpart);
        acc = acc + spec_flag_lines(sort_alphanum(spec_io_features(keys)));
        assert(seq_views(out@) =~= acc);
    }
    out.push("".to_owned());
    proof {
        acc = acc + seq![""@];
        assert(seq_views(out@) =~= acc);
    }
    out.push("# Features based on EEPROM size (in bytes)".to_owned());
    proof {
        acc = acc + seq!["# Features based on EEPROM size (in bytes)"@];
        assert(seq_views(out@) =~= acc);
    }
    let mut size_lines = flag_lines_exec(&size_names);
    let ghost spart = seq_views(size_lines@);
    out.append(&mut size_lines);
    proof {
        assert(seq_views(out@) =~= acc + spart);
        acc = acc + spec_flag_lines(spec_size_flag_names(sort_u32s(size_keys(em))));
        assert(seq_views(out@) =~= acc);
    }
    out.push("".to_owned());
    proof {
        acc = acc + seq![""@];
        assert(seq_views(out@) =~= acc);
    }
    if package_map.len() > 0 {
        out.push("# Physical packages".to_owned());
        let mut pkg_lines = flag_lines_exec(&packages);
        let ghost ppart = seq_views(pkg_lines@);
        out.append(&mut pkg_lines);
        out.push("".to_owned());
        proof {
            assert(seq_views(out@) =~= acc + seq!["# Physical packages"@] + ppart + seq![""@]);
            acc = acc + (seq!["# Physical packages"@] + spec_flag_lines(
                dedup_adjacent(sort_alphanum(spec_package_names(pm))),
            ) + seq![""@]);
            assert(seq_views(out@) =~= acc);
        }
    } else {
        proof {
            assert(pm.len() == 0);
            acc = acc + Seq::<Seq<char>>::empty();
            assert(seq_views(out@) =~= acc);
        }
    }
    out.push("# MCU aliases".to_owned());
    out.push("#".to_owned());
    out.push(
        "# Note: These are just aliases, they should not be used to directly feature gate".to_owned(),
    );
    out.push(
        "# functionality in the HAL! However, user code should usually depend on a MCU alias.".to_owned(),
    );
    proof {
        acc = acc + seq![
            "# MCU aliases"@,
            "#"@,
            "# Note: These are just aliases, they should not be used to directly feature gate"@,
            "# functionality in the HAL! However, user code should usually depend on a MCU alias."@,
        ];
        assert(seq_views(out@) =~= acc);
    }
    let ghost apart = seq_views(sorted_aliases@);
    let mut sorted_aliases = sorted_aliases;
    out.append(&mut sorted_aliases);
    proof {
        assert(seq_views(out@) =~= acc + apart);
        acc = acc + sort_alphanum(spec_alias_lines(mcu_family@, pm, infos@, gm));
        assert(seq_views(out@) =~= acc);
        assert(acc == spec_generate_features(gm, pm, em, infos@, mcu_family@));
    }
    Ok(out)
}

} // verus!
