use cube_parse::family::family_mcus;
use cube_parse::family::find_family;
use cube_parse::family::Families;
use cube_parse::family::Family;
use cube_parse::family::Mcu as FamilyMcu;
use cube_parse::family::SubFamily;
use cube_parse::grouper::group_mcus;
use cube_parse::grouper::McuInfo;
use cube_parse::mcu::Mcu;
use cube_parse::mcu::IP;

fn info(ref_name: &str, package: &str, version: &str, eeprom: Option<u32>) -> McuInfo {
    McuInfo {
        ref_name: ref_name.to_string(),
        package_name: package.to_string(),
        gpio_version: version.to_string(),
        eeprom_size: eeprom,
    }
}

#[test]
fn grouping_keeps_every_mcu_exactly_once() {
    let infos = vec![
        info("STM32L051K8Tx", "LQFP32", "STM32L051_gpio_v1_0", Some(2048)),
        info("STM32L072KZTx", "LQFP32", "STM32L072_gpio_v1_0", None),
        info("STM32L051T8Yx", "WLCSP36", "STM32L051_gpio_v1_0", Some(2048)),
    ];
    let grouped = group_mcus("STM32L0", &infos);
    assert_eq!(grouped.gpio_map.len(), 2);
    assert_eq!(grouped.gpio_map[0].0, "STM32L051_gpio_v1_0");
    assert_eq!(
        grouped.gpio_map[0].1,
        vec!["STM32L051K8Tx".to_string(), "STM32L051T8Yx".to_string()]
    );
    assert_eq!(grouped.gpio_map[1].0, "STM32L072_gpio_v1_0");
    assert_eq!(grouped.gpio_map[1].1, vec!["STM32L072KZTx".to_string()]);
    // The union of all groups is the full MCU set, each exactly once.
    let total: usize = grouped.gpio_map.iter().map(|e| e.1.len()).sum();
    assert_eq!(total, infos.len());
    let mut seen: Vec<&String> = grouped.gpio_map.iter().flat_map(|e| e.1.iter()).collect();
    seen.sort();
    seen.dedup();
    assert_eq!(seen.len(), infos.len());
}

#[test]
fn package_map_exists_only_for_the_package_family() {
    let infos = vec![info("STM32L051K8Tx", "LQFP32", "STM32L051_gpio_v1_0", None)];
    let with = group_mcus("STM32L0", &infos);
    assert_eq!(with.package_map.len(), 1);
    assert_eq!(with.package_map[0].0, "STM32L051K8Tx");
    assert_eq!(with.package_map[0].1, "LQFP32");
    let without = group_mcus("STM32F0", &infos);
    assert_eq!(without.package_map.len(), 0);
}

#[test]
fn eeprom_map_omits_unknown_sizes() {
    let infos = vec![
        info("M1", "P1", "V1", Some(512)),
        info("M2", "P1", "V1", None),
        info("M3", "P1", "V1", Some(512)),
        info("M4", "P1", "V1", Some(2048)),
    ];
    let grouped = group_mcus("STM32L0", &infos);
    assert_eq!(grouped.eeprom_map.len(), 2);
    assert_eq!(grouped.eeprom_map[0].0, 512);
    assert_eq!(grouped.eeprom_map[0].1, vec!["M1".to_string(), "M3".to_string()]);
    assert_eq!(grouped.eeprom_map[1].0, 2048);
    assert_eq!(grouped.eeprom_map[1].1, vec!["M4".to_string()]);
}

fn sample_families() -> Families {
    Families {
        families: vec![
            Family {
                name: "STM32L0".to_string(),
                sub_families: vec![
                    SubFamily {
                        name: "STM32L0x1".to_string(),
                        mcus: vec![FamilyMcu {
                            name: "STM32L051K(6-8)Tx".to_string(),
                            package_name: "LQFP32".to_string(),
                            ref_name: "STM32L051K8Tx".to_string(),
                        }],
                    },
                    SubFamily {
                        name: "STM32L0x2".to_string(),
                        mcus: vec![FamilyMcu {
                            name: "STM32L072K(B-Z)Tx".to_string(),
                            package_name: "LQFP32".to_string(),
                            ref_name: "STM32L072KZTx".to_string(),
                        }],
                    },
                ],
            },
            Family {
                name: "STM32F0".to_string(),
                sub_families: vec![],
            },
        ],
    }
}

#[test]
fn family_lookup_finds_by_name() {
    let families = sample_families();
    let f = find_family(&families, "STM32L0").unwrap();
    assert_eq!(f.name, "STM32L0");
    let err = find_family(&families, "STM32H7").unwrap_err();
    assert_eq!(err, "Could not find family STM32H7");
}

#[test]
fn family_mcus_flattens_sub_families_in_order() {
    let families = sample_families();
    let f = find_family(&families, "STM32L0").unwrap();
    let mcus = family_mcus(f);
    assert_eq!(mcus.len(), 2);
    assert_eq!(mcus[0].ref_name, "STM32L051K8Tx");
    assert_eq!(mcus[1].ref_name, "STM32L072KZTx");
}

#[test]
fn mcu_record_lookups() {
    let mcu = Mcu {
        ip: vec![
            IP {
                instance_name: "SPI1".to_string(),
                name: "SPI".to_string(),
                version: "spi2s1_v2_2".to_string(),
            },
            IP {
                instance_name: "GPIO".to_string(),
                name: "GPIO".to_string(),
                version: "STM32L051_gpio_v1_0".to_string(),
            },
        ],
        eeprom_size_bytes: "2048".to_string(),
    };
    assert_eq!(mcu.get_ip("GPIO").unwrap().get_version(), "STM32L051_gpio_v1_0");
    assert!(mcu.get_ip("ADC").is_none());
    assert_eq!(mcu.get_eeprom_size(), Some(2048));
    let no_size = Mcu {
        ip: vec![],
        eeprom_size_bytes: "".to_string(),
    };
    assert_eq!(no_size.get_eeprom_size(), None);
}
