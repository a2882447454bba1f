use cube_parse::emit::generate_eeprom_sizes;
use cube_parse::emit::generate_features;
use cube_parse::emit::generate_pin_mappings;
use cube_parse::emit::sorted_gpio_versions;
use cube_parse::grouper::group_mcus;
use cube_parse::grouper::McuInfo;
use cube_parse::internal_peripheral::GPIOPin;
use cube_parse::internal_peripheral::IpGPIO;
use cube_parse::internal_peripheral::PinSignal;
use cube_parse::internal_peripheral::SpecificParameter;

fn mcu_info(ref_name: &str, package: &str, version: &str, eeprom: Option<u32>) -> McuInfo {
    McuInfo {
        ref_name: ref_name.to_string(),
        package_name: package.to_string(),
        gpio_version: version.to_string(),
        eeprom_size: eeprom,
    }
}

#[test]
fn eeprom_sizes_emit_sorted_guarded_constants() {
    let map = vec![
        (2048u32, vec!["M2".to_string()]),
        (512u32, vec!["M1".to_string()]),
    ];
    let lines = generate_eeprom_sizes(&map);
    assert_eq!(
        lines,
        vec![
            "// EEPROM sizes in bytes, generated with cube-parse".to_string(),
            "#[cfg(feature = \"eeprom-512\")]".to_string(),
            "const EEPROM_SIZE_BYTES: u32 = 512;".to_string(),
            "#[cfg(feature = \"eeprom-2048\")]".to_string(),
            "const EEPROM_SIZE_BYTES: u32 = 2048;".to_string(),
        ]
    );
}

#[test]
fn features_emit_all_sections_in_order() {
    let infos = vec![
        mcu_info("STM32L051K8Tx", "LQFP32", "STM32L051_gpio_v1_0", Some(2048)),
        mcu_info("STM32L072KZTx", "TSSOP20", "STM32L072_gpio_v1_0", None),
    ];
    let grouped = group_mcus("STM32L0", &infos);
    let lines = generate_features(
        &grouped.gpio_map,
        &grouped.package_map,
        &grouped.eeprom_map,
        &infos,
        "STM32L0",
    )
    .unwrap();
    assert_eq!(
        lines,
        vec![
            "# Features based on the GPIO peripheral version".to_string(),
            "# This determines the pin function mapping of the MCU".to_string(),
            "io-STM32L051 = []".to_string(),
            "io-STM32L072 = []".to_string(),
            "".to_string(),
            "# Features based on EEPROM size (in bytes)".to_string(),
            "eeprom-2048 = []".to_string(),
            "".to_string(),
            "# Physical packages".to_string(),
            "lqfp32 = []".to_string(),
            "tssop20 = []".to_string(),
            "".to_string(),
            "# MCU aliases".to_string(),
            "#".to_string(),
            "# Note: These are just aliases, they should not be used to directly feature gate"
                .to_string(),
            "# functionality in the HAL! However, user code should usually depend on a MCU alias."
                .to_string(),
            "mcu-STM32L051K8Tx = [\"stm32l0x1\", \"lqfp32\", \"io-STM32L051\", \"eeprom-2048\"]"
                .to_string(),
            "mcu-STM32L072KZTx = [\"stm32l0x2\", \"tssop20\", \"io-STM32L072\"]".to_string(),
        ]
    );
}

#[test]
fn features_without_packages_skip_the_package_section() {
    let infos = vec![mcu_info("STM32F042K6Tx", "LQFP32", "STM32F042_gpio_v1_0", None)];
    let grouped = group_mcus("STM32F0", &infos);
    let lines = generate_features(
        &grouped.gpio_map,
        &grouped.package_map,
        &grouped.eeprom_map,
        &infos,
        "STM32F0",
    )
    .unwrap();
    assert_eq!(
        lines,
        vec![
            "# Features based on the GPIO peripheral version".to_string(),
            "# This determines the pin function mapping of the MCU".to_string(),
            "io-STM32F042 = []".to_string(),
            "".to_string(),
            "# Features based on EEPROM size (in bytes)".to_string(),
            "".to_string(),
            "# MCU aliases".to_string(),
            "#".to_string(),
            "# Note: These are just aliases, they should not be used to directly feature gate"
                .to_string(),
            "# functionality in the HAL! However, user code should usually depend on a MCU alias."
                .to_string(),
            "mcu-STM32F042K6Tx = [\"io-STM32F042\"]".to_string(),
        ]
    );
}

#[test]
fn features_fail_on_a_malformed_version() {
    let infos = vec![mcu_info("M1", "P1", "STM32L051_gpio_v1_1", None)];
    let grouped = group_mcus("STM32L0", &infos);
    let err = generate_features(
        &grouped.gpio_map,
        &grouped.package_map,
        &grouped.eeprom_map,
        &infos,
        "STM32L0",
    )
    .unwrap_err();
    assert_eq!(err, "Could not parse version STM32L051_gpio_v1_1");
}

fn sample_descriptor() -> IpGPIO {
    IpGPIO {
        gpio_pin: vec![GPIOPin {
            port_name: "PA".to_string(),
            name: "PA3".to_string(),
            specific_parameter: vec![SpecificParameter {
                name: "GPIO_Pin".to_string(),
                possible_value: "GPIO_PIN_3".to_string(),
            }],
            pin_signal: Some(vec![PinSignal {
                name: "USART1_RX".to_string(),
                specific_parameter: SpecificParameter {
                    name: "GPIO_AF".to_string(),
                    possible_value: "GPIO_AF5_USART1".to_string(),
                },
            }]),
        }],
    }
}

#[test]
fn pin_mappings_emit_guarded_tables_per_version() {
    let loaded = vec![("STM32L051_gpio_v1_0".to_string(), sample_descriptor())];
    let lines = generate_pin_mappings(&loaded).unwrap();
    assert_eq!(
        lines,
        vec![
            "#[cfg(feature = \"io-STM32L051\")]".to_string(),
            "pins! {".to_string(),
            "    PA3 => {5: RxPinUSART1},".to_string(),
            "}".to_string(),
            "".to_string(),
            "".to_string(),
        ]
    );
}

#[test]
fn pin_mappings_fail_on_a_malformed_version() {
    let loaded = vec![("STM32L051_xxio_v1_0".to_string(), sample_descriptor())];
    let err = generate_pin_mappings(&loaded).unwrap_err();
    assert_eq!(err, "Could not parse version STM32L051_xxio_v1_0");
}

#[test]
fn gpio_versions_come_out_alphanumerically_sorted() {
    let map = vec![
        ("STM32L152x8_gpio_v1_0".to_string(), vec!["M2".to_string()]),
        ("STM32L051_gpio_v1_0".to_string(), vec!["M1".to_string()]),
    ];
    let versions = sorted_gpio_versions(&map);
    assert_eq!(
        versions,
        vec![
            "STM32L051_gpio_v1_0".to_string(),
            "STM32L152x8_gpio_v1_0".to_string(),
        ]
    );
}
