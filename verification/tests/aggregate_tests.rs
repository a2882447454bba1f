use cube_parse::internal_peripheral::aggregate_pins;
use cube_parse::internal_peripheral::GPIOPin;
use cube_parse::internal_peripheral::IpGPIO;
use cube_parse::internal_peripheral::PinSignal;
use cube_parse::internal_peripheral::SpecificParameter;
use cube_parse::emit::render_pin_modes;

fn param(name: &str, value: &str) -> SpecificParameter {
    SpecificParameter {
        name: name.to_string(),
        possible_value: value.to_string(),
    }
}

fn signal(name: &str, selector: &str) -> PinSignal {
    PinSignal {
        name: name.to_string(),
        specific_parameter: param("GPIO_AF", selector),
    }
}

fn pin(port: &str, pin_param: Option<&str>, signals: Option<Vec<PinSignal>>) -> GPIOPin {
    let mut params = Vec::new();
    params.push(param("Mode", "Alternate"));
    if let Some(v) = pin_param {
        params.push(param("GPIO_Pin", v));
    }
    GPIOPin {
        port_name: port.to_string(),
        name: format!("{}-pin", port),
        specific_parameter: params,
        pin_signal: signals,
    }
}

#[test]
fn pin_name_derives_from_port_and_pin_parameter() {
    let p = pin("PA", Some("GPIO_PIN_3"), None);
    assert_eq!(p.get_name(), Some("PA3".to_string()));
}

#[test]
fn pin_without_pin_parameter_has_no_name() {
    let p = pin("PA", None, None);
    assert_eq!(p.get_name(), None);
}

#[test]
fn pin_with_short_pin_parameter_has_no_name() {
    let p = pin("PA", Some("GPIOPIN3"), None);
    assert_eq!(p.get_name(), None);
}

#[test]
fn af_modes_render_in_signal_order() {
    let p = pin(
        "PA",
        Some("GPIO_PIN_9"),
        Some(vec![
            signal("SPI1_SCK", "GPIO_AF10_SPI1"),
            signal("USART2_RX", "GPIO_AF2_USART2"),
            signal("ADC1_IN3", "GPIO_AF1_ADC1"),
        ]),
    );
    let modes = p.get_af_modes();
    assert_eq!(modes, vec!["10: SckPinSPI1".to_string(), "2: RxPinUSART2".to_string()]);
}

#[test]
fn af_value_is_the_second_token() {
    let s = signal("USART2_RX", "GPIO_AF5_USART2");
    assert_eq!(s.get_af_value(), Some("AF5".to_string()));
    let s = signal("USART2_RX", "NOSEP");
    assert_eq!(s.get_af_value(), None);
}

#[test]
fn aggregation_sorts_pins_and_capabilities_alphanumerically() {
    // A10 carries two capabilities whose AF numbers force numeric order;
    // A2 must come before A10 although "A10" < "A2" as plain bytes.
    let ip = IpGPIO {
        gpio_pin: vec![
            pin(
                "A",
                Some("GPIO_PIN_10"),
                Some(vec![
                    signal("SPI1_SCK", "GPIO_AF10_SPI1"),
                    signal("USART2_RX", "GPIO_AF2_USART2"),
                ]),
            ),
            pin(
                "A",
                Some("GPIO_PIN_2"),
                Some(vec![signal("USART2_TX", "GPIO_AF7_USART2")]),
            ),
        ],
    };
    let rows = aggregate_pins(&ip);
    assert_eq!(rows.len(), 2);
    assert_eq!(rows[0].0, "A2");
    assert_eq!(rows[1].0, "A10");
    assert_eq!(
        rows[1].1,
        vec!["2: RxPinUSART2".to_string(), "10: SckPinSPI1".to_string()]
    );
}

#[test]
fn aggregation_is_deterministic_across_runs() {
    let build = || IpGPIO {
        gpio_pin: vec![
            pin(
                "B",
                Some("GPIO_PIN_6"),
                Some(vec![
                    signal("I2C1_SCL", "GPIO_AF4_I2C1"),
                    signal("USART1_TX", "GPIO_AF0_USART1"),
                ]),
            ),
            pin(
                "A",
                Some("GPIO_PIN_15"),
                Some(vec![signal("SPI1_MISO", "GPIO_AF5_SPI1")]),
            ),
        ],
    };
    let first = aggregate_pins(&build());
    let second = aggregate_pins(&build());
    assert_eq!(first, second);
}

#[test]
fn duplicate_capabilities_within_a_pin_are_deduplicated() {
    let ip = IpGPIO {
        gpio_pin: vec![pin(
            "C",
            Some("GPIO_PIN_1"),
            Some(vec![
                signal("USART3_RX", "GPIO_AF7_USART3"),
                signal("USART3_RX", "GPIO_AF7_USART3"),
            ]),
        )],
    };
    let rows = aggregate_pins(&ip);
    assert_eq!(rows.len(), 1);
    assert_eq!(rows[0].1, vec!["7: RxPinUSART3".to_string()]);
}

#[test]
fn later_duplicate_pin_identifiers_overwrite_earlier_ones() {
    let ip = IpGPIO {
        gpio_pin: vec![
            pin(
                "D",
                Some("GPIO_PIN_2"),
                Some(vec![signal("USART1_RX", "GPIO_AF1_USART1")]),
            ),
            pin(
                "D",
                Some("GPIO_PIN_2"),
                Some(vec![signal("SPI1_SCK", "GPIO_AF3_SPI1")]),
            ),
        ],
    };
    let rows = aggregate_pins(&ip);
    assert_eq!(rows.len(), 1);
    assert_eq!(rows[0].0, "D2");
    assert_eq!(rows[0].1, vec!["3: SckPinSPI1".to_string()]);
}

#[test]
fn pins_without_capabilities_are_absent_and_output_is_never_larger() {
    // An end-to-end two-pin descriptor: pin A has one classifiable signal
    // and one that matches nothing, pin B has no signals at all.
    let ip = IpGPIO {
        gpio_pin: vec![
            pin(
                "PA",
                Some("GPIO_PIN_3"),
                Some(vec![
                    signal("USART1_RX", "GPIO_AF5_USART1"),
                    signal("ADC1_IN3", "GPIO_AF1_ADC1"),
                ]),
            ),
            pin("PB", Some("GPIO_PIN_4"), None),
        ],
    };
    let rows = aggregate_pins(&ip);
    assert_eq!(rows.len(), 1);
    assert!(rows.len() <= ip.gpio_pin.len());
    assert_eq!(rows[0].0, "PA3");
    assert_eq!(rows[0].1, vec!["5: RxPinUSART1".to_string()]);
    let lines = render_pin_modes(&ip);
    assert_eq!(
        lines,
        vec![
            "pins! {".to_string(),
            "    PA3 => {5: RxPinUSART1},".to_string(),
            "}".to_string(),
        ]
    );
}

#[test]
fn multi_capability_pins_render_as_a_nested_block() {
    let ip = IpGPIO {
        gpio_pin: vec![pin(
            "PA",
            Some("GPIO_PIN_9"),
            Some(vec![
                signal("USART1_TX", "GPIO_AF7_USART1"),
                signal("SPI2_MOSI", "GPIO_AF5_SPI2"),
            ]),
        )],
    };
    let lines = render_pin_modes(&ip);
    assert_eq!(
        lines,
        vec![
            "pins! {".to_string(),
            "    PA9 => {".to_string(),
            "        5: MosiPinSPI2,".to_string(),
            "        7: TxPinUSART1,".to_string(),
            "    },".to_string(),
            "}".to_string(),
        ]
    );
}
