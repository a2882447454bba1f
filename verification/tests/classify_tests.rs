use cube_parse::classify::af_number;
use cube_parse::classify::classify;
use cube_parse::classify::instance_name;
use cube_parse::classify::render_capability;
use cube_parse::classify::Role;

#[test]
fn usart_rx_signal_yields_one_receive_capability() {
    let caps = classify("USART2_RX", "GPIO_AF5_USART2");
    assert_eq!(caps.len(), 1);
    assert_eq!(caps[0].af, 5);
    assert!(caps[0].role == Role::UsartRx);
    assert_eq!(caps[0].instance, "USART2");
    assert_eq!(render_capability(&caps[0]), "5: RxPinUSART2");
}

#[test]
fn spi_mosi_signal_yields_one_mosi_capability() {
    let caps = classify("SPI1_MOSI", "GPIO_AF0_SPI1");
    assert_eq!(caps.len(), 1);
    assert_eq!(caps[0].af, 0);
    assert!(caps[0].role == Role::SpiMosi);
    assert_eq!(caps[0].instance, "SPI1");
    assert_eq!(render_capability(&caps[0]), "0: MosiPinSPI1");
}

#[test]
fn unrecognized_signal_yields_nothing() {
    let caps = classify("ADC1_IN3", "GPIO_AF1_ADC1");
    assert_eq!(caps.len(), 0);
}

#[test]
fn selector_without_two_tokens_yields_nothing() {
    let caps = classify("USART2_RX", "NOSEPARATOR");
    assert_eq!(caps.len(), 0);
    let caps = classify("USART2_RX", "");
    assert_eq!(caps.len(), 0);
}

#[test]
fn af_number_comes_from_the_second_token() {
    assert_eq!(af_number("GPIO_AF7_USART1"), Some(7));
    assert_eq!(af_number("X_AF12_Y"), Some(12));
    assert_eq!(af_number("X_AF0"), Some(0));
    assert_eq!(af_number("AF5"), None);
    assert_eq!(af_number("X_5_Y"), None);
    assert_eq!(af_number("X_AF_Y"), None);
    assert_eq!(af_number("X_AF+5_Y"), None);
}

#[test]
fn low_power_uart_matches_the_usart_patterns() {
    let caps = classify("LPUART1_TX", "GPIO_AF6_LPUART1");
    assert_eq!(caps.len(), 1);
    assert!(caps[0].role == Role::UsartTx);
    assert_eq!(caps[0].instance, "LPUART1");
    assert_eq!(render_capability(&caps[0]), "6: TxPinLPUART1");
}

#[test]
fn plain_uart_matches_the_usart_patterns() {
    let caps = classify("UART4_RX", "GPIO_AF8_UART4");
    assert_eq!(caps.len(), 1);
    assert!(caps[0].role == Role::UsartRx);
}

#[test]
fn i2c_signals_classify_by_suffix() {
    let scl = classify("I2C1_SCL", "GPIO_AF4_I2C1");
    assert_eq!(scl.len(), 1);
    assert!(scl[0].role == Role::I2cScl);
    let sda = classify("I2C1_SDA", "GPIO_AF4_I2C1");
    assert_eq!(sda.len(), 1);
    assert!(sda[0].role == Role::I2cSda);
}

#[test]
fn spi_remaining_roles_classify_by_suffix() {
    let miso = classify("SPI2_MISO", "GPIO_AF5_SPI2");
    assert_eq!(miso.len(), 1);
    assert!(miso[0].role == Role::SpiMiso);
    let sck = classify("SPI2_SCK", "GPIO_AF5_SPI2");
    assert_eq!(sck.len(), 1);
    assert!(sck[0].role == Role::SpiSck);
}

#[test]
fn instance_name_is_text_before_first_underscore() {
    assert_eq!(instance_name("USART2_RX"), "USART2");
    assert_eq!(instance_name("NOSEP"), "NOSEP");
    assert_eq!(instance_name(""), "");
}
