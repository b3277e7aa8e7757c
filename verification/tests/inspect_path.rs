use txpool_parser::encode::to_pretty_text;
use txpool_parser::json::Json;
use txpool_parser::translate::{detect_format, parse_debug_format, DumpFormat, TranslateError};

fn cv(s: &str) -> Vec<char> {
    s.chars().collect()
}

fn render(v: &Json) -> String {
    to_pretty_text(v).into_iter().collect()
}

const ADDR_A: &str = "aaaaaaaaaaaaaaaaaaaaaaaaaaaaaaaaaaaaaaaa";
const ADDR_B: &str = "bbbbbbbbbbbbbbbbbbbbbbbbbbbbbbbbbbbbbbbb";

#[test]
fn unknown_format_is_rejected() {
    let input = cv("just some text, neither marker occurs");
    let r = parse_debug_format(&input);
    assert!(matches!(r, Err(TranslateError::UnrecognizedFormat)));
    let d = detect_format(&input);
    assert!(matches!(d, Err(TranslateError::UnrecognizedFormat)));
}

#[test]
fn empty_input_is_rejected() {
    let input = cv("");
    assert!(matches!(
        parse_debug_format(&input),
        Err(TranslateError::UnrecognizedFormat)
    ));
}

#[test]
fn detector_prefers_content() {
    let both = cv("TxpoolContent TxpoolInspect");
    assert_eq!(detect_format(&both).unwrap(), DumpFormat::Content);
    let inspect_only = cv("TxpoolInspect { }");
    assert_eq!(detect_format(&inspect_only).unwrap(), DumpFormat::Inspect);
}

#[test]
fn inspect_address_nonce_and_fields() {
    let input = cv(&format!(
        "TxpoolInspect {{\n    {a}: {{\n        \"5\": TxpoolInspectSummary {{\n            to: Some({b}),\n            value: 12345,\n        }},\n    }},\n}}\n",
        a = ADDR_A,
        b = ADDR_B,
    ));
    let got = parse_debug_format(&input).unwrap();
    let expected = Json::Obj(vec![(
        cv("pending"),
        Json::Obj(vec![(
            cv(&format!("0x{}", ADDR_A)),
            Json::Obj(vec![(
                cv("5"),
                Json::Obj(vec![
                    (cv("to"), Json::Str(cv(&format!("0x{}", ADDR_B)))),
                    (cv("value"), Json::Num(cv("12345"))),
                ]),
            )]),
        )]),
    )]);
    assert_eq!(render(&got), render(&expected));
}

#[test]
fn absent_optional_value_yields_null() {
    let input = cv(&format!(
        "TxpoolInspect {{\n    {a}: {{\n        \"0\": TxpoolInspectSummary {{\n            to: None,\n            gas: 21000,\n        }},\n    }},\n}}\n",
        a = ADDR_A,
    ));
    let got = parse_debug_format(&input).unwrap();
    let expected = Json::Obj(vec![(
        cv("pending"),
        Json::Obj(vec![(
            cv(&format!("0x{}", ADDR_A)),
            Json::Obj(vec![(
                cv("0"),
                Json::Obj(vec![
                    (cv("to"), Json::Null),
                    (cv("gas"), Json::Num(cv("21000"))),
                ]),
            )]),
        )]),
    )]);
    assert_eq!(render(&got), render(&expected));
    assert!(render(&got).contains("\"to\": null"));
}

#[test]
fn inspect_without_addresses_yields_empty_pending() {
    let input = cv("TxpoolInspect { }\n");
    let got = parse_debug_format(&input).unwrap();
    assert_eq!(render(&got), "{\n  \"pending\": {}\n}");
}

#[test]
fn inspect_gas_price_and_unparsable_number_omitted() {
    let input = cv(&format!(
        "TxpoolInspect {{\n    {a}: {{\n        \"7\": TxpoolInspectSummary {{\n            gas_price: 1000000007,\n            value: 99999999999999999999999999,\n        }},\n    }},\n}}\n",
        a = ADDR_A,
    ));
    let got = parse_debug_format(&input).unwrap();
    let text = render(&got);
    assert!(text.contains("\"gas_price\": 1000000007"));
    assert!(!text.contains("\"value\""));
}

#[test]
fn inspect_plus_sign_and_leading_zero_numbers() {
    let input = cv(&format!(
        "TxpoolInspect {{\n    {a}: {{\n        \"1\": TxpoolInspectSummary {{\n            value: +7,\n            gas: 007,\n        }},\n    }},\n}}\n",
        a = ADDR_A,
    ));
    let got = parse_debug_format(&input).unwrap();
    let text = render(&got);
    assert!(text.contains("\"value\": 7"));
    assert!(text.contains("\"gas\": 7"));
}

#[test]
fn nonce_block_opens_only_for_quoted_digits() {
    // stems that are not a quoted decimal have no known shape: those lines
    // are skipped, and only the quoted-digits stem opens a nonce block
    let input = cv(&format!(
        "TxpoolInspect {{\n    {a}: {{\n        x: TxpoolInspectSummary {{\n        \"abc\": TxpoolInspectSummary {{\n        \"\": TxpoolInspectSummary {{\n        \"9\": TxpoolInspectSummary {{\n            gas: 8,\n        }},\n    }},\n}}\n",
        a = ADDR_A,
    ));
    let got = parse_debug_format(&input).unwrap();
    let expected = Json::Obj(vec![(
        cv("pending"),
        Json::Obj(vec![(
            cv(&format!("0x{}", ADDR_A)),
            Json::Obj(vec![(
                cv("9"),
                Json::Obj(vec![(cv("gas"), Json::Num(cv("8")))]),
            )]),
        )]),
    )]);
    assert_eq!(render(&got), render(&expected));
}

#[test]
fn address_capture_takes_the_window_before_the_colon() {
    // forty-one hex characters before `: {`: the captured address is the
    // window of forty that ends at the colon
    let input = cv(&format!(
        "TxpoolInspect {{\n    b{a}: {{\n        \"3\": TxpoolInspectSummary {{\n            gas: 5,\n        }},\n    }},\n}}\n",
        a = ADDR_A,
    ));
    let got = parse_debug_format(&input).unwrap();
    let text = render(&got);
    assert!(text.contains(&format!("\"0x{}\"", ADDR_A)));
    assert!(!text.contains(&format!("0xb{}", &ADDR_A[1..])));
}

#[test]
fn inspect_close_pops_one_level() {
    // two addresses in a row: the closers return the machine to the idle
    // state, so the second address opens its own block
    let input = cv(&format!(
        "TxpoolInspect {{\n    {a}: {{\n        \"1\": TxpoolInspectSummary {{\n            gas: 1,\n        }},\n    }},\n    {b}: {{\n        \"2\": TxpoolInspectSummary {{\n            gas: 2,\n        }},\n    }},\n}}\n",
        a = ADDR_A,
        b = ADDR_B,
    ));
    let got = parse_debug_format(&input).unwrap();
    let text = render(&got);
    assert!(text.contains(&format!("0x{}", ADDR_A)));
    assert!(text.contains(&format!("0x{}", ADDR_B)));
    assert!(text.contains("\"gas\": 1"));
    assert!(text.contains("\"gas\": 2"));
}
