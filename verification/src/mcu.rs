//! The per-MCU record: its peripheral instance list and its EEPROM size
//! field, with the lookups the grouping step needs.

use vstd::prelude::*;
use crate::strutil::spec_parse_u32;
use crate::strutil::parse_u32;
use crate::strutil::str_eq;

verus! {

/// One peripheral instance of an MCU, with the descriptor version it
/// refers to.
#[derive(Debug)]
pub struct IP {
    pub instance_name: String,
    pub name: String,
    pub version: String,
}

/// One MCU record: its peripheral instances and its EEPROM size in bytes
/// as the raw text of the record (absent or non-numeric means no EEPROM
/// size is known).
#[derive(Debug)]
pub struct Mcu {
    pub ip: Vec<IP>,
    pub eeprom_size_bytes: String,
}

/// The first peripheral instance with the given name.
pub open spec fn spec_find_ip(ips: Seq<IP>, name: Seq<char>) -> Option<IP>
    decreases ips.len(),
{
    if ips.len() == 0 {
        None
    } else if ips[0].name@ == name {
        Some(ips[0])
    } else {
        spec_find_ip(ips.skip(1), name)
    }
}

impl Mcu {
    /// The first peripheral instance with the given name, if any.
    pub fn get_ip(&self, name: &str) -> (r: Option<&IP>)
        ensures
            r matches Some(ip) ==> spec_find_ip(self.ip@, name@) == Some(*ip),
            r is None ==> spec_find_ip(self.ip@, name@) is None,
    {
        let n = self.ip.len();
        let mut i: usize = 0;
        proof {
            assert(self.ip@.skip(0) =~= self.ip@);
        }
        while i < n
            invariant
                i <= n,
                n == self.ip@.len(),
                spec_find_ip(self.ip@, name@) == spec_find_ip(self.ip@.skip(i as int), name@),
            decreases n - i,
        {
            if str_eq(self.ip[i].name.as_str(), name) {
                return Some(&self.ip[i]);
            }
            proof {
                assert(self.ip@.skip(i as int).skip(1) =~= self.ip@.skip(i + 1));
            }
            i = i + 1;
        }
        assert(self.ip@.skip(i as int) =~= Seq::<IP>::empty());
        None
    }

    /// The EEPROM size in bytes, where the record's size field is a
    /// decimal number; anything else means the size is unknown.
    pub fn get_eeprom_size(&self) -> (r: Option<u32>)
        ensures
            r == spec_parse_u32(self.eeprom_size_bytes@),
    {
        parse_u32(self.eeprom_size_bytes.as_str())
    }
}

impl IP {
    /// The descriptor version this peripheral instance refers to.
    pub fn get_version(&self) -> (r: &str)
        ensures
            r@ == self.version@,
    {
        self.version.as_str()
    }
}

} // verus!
