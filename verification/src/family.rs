//! The family hierarchy of the vendor database: families, sub-families
//! and the MCUs under them, with family lookup and flattening.

use vstd::prelude::*;
use vstd::string::StringExecFns;
use crate::strutil::str_eq;

verus! {

/// One MCU as the family hierarchy lists it.
#[derive(Debug)]
pub struct Mcu {
    pub name: String,
    pub package_name: String,
    pub ref_name: String,
}

/// A sub-family: a named group of MCUs.
#[derive(Debug)]
pub struct SubFamily {
    pub name: String,
    pub mcus: Vec<Mcu>,
}

/// A family: a named group of sub-families.
#[derive(Debug)]
pub struct Family {
    pub name: String,
    pub sub_families: Vec<SubFamily>,
}

/// The whole family hierarchy.
#[derive(Debug)]
pub struct Families {
    pub families: Vec<Family>,
}

/// The first family with the given name.
pub open spec fn spec_find_family(fams: Seq<Family>, name: Seq<char>) -> Option<Family>
    decreases fams.len(),
{
    if fams.len() == 0 {
        None
    } else if fams[0].name@ == name {
        Some(fams[0])
    } else {
        spec_find_family(fams.skip(1), name)
    }
}

/// Find the requested family; a family name with no match is the lookup
/// error that aborts a run.
pub fn find_family<'a>(families: &'a Families, name: &str) -> (r: Result<&'a Family, String>)
    ensures
        r matches Ok(f) ==> spec_find_family(families.families@, name@) == Some(*f),
        r matches Err(e) ==> spec_find_family(families.families@, name@) is None && e@
            == "Could not find family "@ + name@,
{
    let n = families.families.len();
    let mut i: usize = 0;
    proof {
        assert(families.families@.skip(0) =~= families.families@);
    }
    while i < n
        invariant
            i <= n,
            n == families.families@.len(),
            spec_find_family(families.families@, name@) == spec_find_family(
                families.families@.skip(i as int),
                name@,
            ),
        decreases n - i,
    {
        if str_eq(families.families[i].name.as_str(), name) {
            return Ok(&families.families[i]);
        }
        proof {
            assert(families.families@.skip(i as int).skip(1) =~= families.families@.skip(i + 1));
        }
        i = i + 1;
    }
    assert(families.families@.skip(i as int) =~= Seq::<Family>::empty());
    let mut msg = "Could not find family ".to_owned();
    msg.append(name);
    Err(msg)
}

/// The MCUs of a list of sub-families, flattened in order.
pub open spec fn spec_sub_family_mcus(sfs: Seq<SubFamily>) -> Seq<Mcu>
    decreases sfs.len(),
{
    if sfs.len() == 0 {
        Seq::empty()
    } else {
        spec_sub_family_mcus(sfs.drop_last()) + sfs.last().mcus@
    }
}

/// All MCUs of a family, sub-family by sub-family, in order.
pub open spec fn spec_family_mcus(f: Family) -> Seq<Mcu> {
    spec_sub_family_mcus(f.sub_families@)
}

/// Flatten a family into its MCU list, in hierarchy order.
pub fn family_mcus(f: &Family) -> (r: Vec<Mcu>)
    ensures
        r@ == spec_family_mcus(*f),
{
    let mut out: Vec<Mcu> = Vec::new();
    let mut i: usize = 0;
    assert(out@ =~= spec_sub_family_mcus(f.sub_families@.take(0)));
    while i < f.sub_families.len()
        invariant
            i <= f.sub_families@.len(),
            out@ == spec_sub_family_mcus(f.sub_families@.take(i as int)),
        decreases f.sub_families@.len() - i,
    {
        proof {
            assert(f.sub_families@.take(i + 1).drop_last() =~= f.sub_families@.take(i as int));
            assert(f.sub_families@.take(i + 1).last() == f.sub_families@[i as int]);
        }
        let sf = &f.sub_families[i];
        let ghost before = out@;
        let mut j: usize = 0;
        while j < sf.mcus.len()
            invariant
                j <= sf.mcus@.len(),
                sf.mcus@ == f.sub_families@[i as int].mcus@,
                out@ == before + sf.mcus@.take(j as int),
            decreases sf.mcus@.len() - j,
        {
            let m = &sf.mcus[j];
            out.push(
                Mcu {
                    name: m.name.clone(),
                    package_name: m.package_name.clone(),
                    ref_name: m.ref_name.clone(),
                },
            );
            j = j + 1;
            assert(out@ =~= before + sf.mcus@.take(j as int));
        }
        assert(sf.mcus@.take(j as int) =~= sf.mcus@);
        i = i + 1;
    }
    assert(f.sub_families@.take(i as int) =~= f.sub_families@);
    out
}

} // verus!
