use cube_parse::alphanum::alphanum_cmp_str;
use cube_parse::alphanum::dedup_strings;
use cube_parse::alphanum::sort_strings;
use cube_parse::alphanum::sort_u32_vec;
use cube_parse::alphanum::Cmp;
use cube_parse::strutil::parse_u32;
use cube_parse::strutil::u32_to_dec;

#[test]
fn digit_runs_compare_as_numbers() {
    assert_eq!(alphanum_cmp_str("A2", "A10"), Cmp::Lt);
    assert_eq!(alphanum_cmp_str("AF2", "AF10"), Cmp::Lt);
    assert_eq!(alphanum_cmp_str("A10", "A2"), Cmp::Gt);
    assert_eq!(alphanum_cmp_str("A10", "A10"), Cmp::Eq);
    assert_eq!(alphanum_cmp_str("shot-2", "shot-11"), Cmp::Lt);
}

#[test]
fn plain_text_compares_by_scalar_value() {
    assert_eq!(alphanum_cmp_str("abc", "abd"), Cmp::Lt);
    assert_eq!(alphanum_cmp_str("ab", "abc"), Cmp::Lt);
    assert_eq!(alphanum_cmp_str("", ""), Cmp::Eq);
    assert_eq!(alphanum_cmp_str("b", "a"), Cmp::Gt);
}

#[test]
fn comparison_agrees_with_the_reference_on_plain_names() {
    let samples = [
        "A2", "A10", "PA3", "PB14", "io-STM32L051", "io-STM32L072", "shot-1", "shot-2",
        "shot-11", "mcu-STM32L071KBTx", "2: RxPinUSART2", "10: SckPinSPI1", "eeprom-512",
        "eeprom-2048", "", "LQFP32",
    ];
    for a in samples.iter() {
        for b in samples.iter() {
            let mine = match alphanum_cmp_str(a, b) {
                Cmp::Lt => std::cmp::Ordering::Less,
                Cmp::Eq => std::cmp::Ordering::Equal,
                Cmp::Gt => std::cmp::Ordering::Greater,
            };
            assert_eq!(mine, alphanumeric_sort::compare_str(a, b), "{} vs {}", a, b);
        }
    }
}

#[test]
fn sorting_orders_strings_alphanumerically() {
    let v = vec![
        "A10".to_string(),
        "A2".to_string(),
        "B1".to_string(),
        "A2".to_string(),
    ];
    let sorted = sort_strings(&v);
    assert_eq!(
        sorted,
        vec![
            "A2".to_string(),
            "A2".to_string(),
            "A10".to_string(),
            "B1".to_string(),
        ]
    );
    let deduped = dedup_strings(&sorted);
    assert_eq!(
        deduped,
        vec!["A2".to_string(), "A10".to_string(), "B1".to_string()]
    );
}

#[test]
fn sorting_numbers_is_ascending() {
    let v = vec![2048u32, 512, 6144, 512];
    assert_eq!(sort_u32_vec(&v), vec![512, 512, 2048, 6144]);
}

#[test]
fn parse_u32_accepts_decimal_numbers() {
    assert_eq!(parse_u32("2048"), Some(2048));
    assert_eq!(parse_u32("0"), Some(0));
    assert_eq!(parse_u32("+12"), Some(12));
    assert_eq!(parse_u32("4294967295"), Some(4294967295));
}

#[test]
fn parse_u32_rejects_everything_else() {
    assert_eq!(parse_u32(""), None);
    assert_eq!(parse_u32("+"), None);
    assert_eq!(parse_u32("-1"), None);
    assert_eq!(parse_u32("12a"), None);
    assert_eq!(parse_u32("4294967296"), None);
    assert_eq!(parse_u32("99999999999999999999"), None);
    assert_eq!(parse_u32(" 12"), None);
}

#[test]
fn parse_u32_agrees_with_the_standard_parser() {
    let samples = ["2048", "0", "+12", "4294967295", "4294967296", "", "007", "12a", "-3"];
    for s in samples.iter() {
        assert_eq!(parse_u32(s), s.parse::<u32>().ok(), "input {:?}", s);
    }
}

#[test]
fn u32_renders_in_decimal() {
    assert_eq!(u32_to_dec(0), "0");
    assert_eq!(u32_to_dec(7), "7");
    assert_eq!(u32_to_dec(2048), "2048");
    assert_eq!(u32_to_dec(4294967295), "4294967295");
}
