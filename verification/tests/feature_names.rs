use cube_parse::emit::eeprom_size_to_feature;
use cube_parse::emit::gpio_version_to_feature;

#[test]
fn test_gpio_version_to_feature() {
    // Success
    assert_eq!(
        gpio_version_to_feature("STM32L152x8_gpio_v1_0").unwrap(),
        "io-STM32L152x8"
    );
    assert_eq!(
        gpio_version_to_feature("STM32F333_gpio_v1_0").unwrap(),
        "io-STM32F333"
    );

    // Error parsing, unsupported version
    assert!(gpio_version_to_feature("STM32F333_gpio_v1_1").is_err());

    // Error parsing, wrong pattern
    assert!(gpio_version_to_feature("STM32F333_qqio_v1_0").is_err());

    // Error parsing, too many underscores
    assert!(gpio_version_to_feature("STM32_STM32F333_gpio_v1_0").is_err());
}

#[test]
fn gpio_version_error_message_names_the_input() {
    let err = gpio_version_to_feature("STM32F333_gpio_v1_1").unwrap_err();
    assert_eq!(err, "Could not parse version STM32F333_gpio_v1_1");
}

#[test]
fn gpio_version_too_short_fails() {
    assert!(gpio_version_to_feature("").is_err());
    assert!(gpio_version_to_feature("gpio_v1_0").is_err());
}

#[test]
fn gpio_version_empty_prefix_is_accepted() {
    assert_eq!(gpio_version_to_feature("_gpio_v1_0").unwrap(), "io-");
}

#[test]
fn eeprom_feature_renders_the_size() {
    assert_eq!(eeprom_size_to_feature(2048), "eeprom-2048");
    assert_eq!(eeprom_size_to_feature(0), "eeprom-0");
    assert_eq!(eeprom_size_to_feature(4294967295), "eeprom-4294967295");
}
