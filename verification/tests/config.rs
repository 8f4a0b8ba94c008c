use assistant_core::config::{
    model_setting, parse_i32, provider_setting, AssistantModelConfig, LLMProviderConfig,
};

fn provider(entries: &[(&str, &str)]) -> Vec<LLMProviderConfig> {
    entries
        .iter()
        .map(|(name, value)| LLMProviderConfig { name: name.to_string(), value: value.to_string() })
        .collect()
}

fn model(entries: &[(&str, Option<&str>)]) -> Vec<AssistantModelConfig> {
    entries
        .iter()
        .map(|(name, value)| AssistantModelConfig {
            name: name.to_string(),
            value: value.map(str::to_string),
        })
        .collect()
}

#[test]
fn absent_key_has_no_value() {
    assert_eq!(provider_setting(&provider(&[]), "endpoint"), None);
    assert_eq!(provider_setting(&provider(&[("api_key", "k")]), "endpoint"), None);
    assert_eq!(model_setting(&model(&[]), "model"), None);
}

#[test]
fn present_key_has_its_value() {
    let settings = provider(&[("endpoint", "https://e"), ("api_key", "k")]);
    assert_eq!(provider_setting(&settings, "endpoint"), Some("https://e"));
    assert_eq!(provider_setting(&settings, "api_key"), Some("k"));
}

#[test]
fn last_setting_of_a_name_wins() {
    let settings = provider(&[("endpoint", "first"), ("x", "y"), ("endpoint", "second")]);
    assert_eq!(provider_setting(&settings, "endpoint"), Some("second"));
    let settings = model(&[("model", Some("a")), ("model", Some("b"))]);
    assert_eq!(model_setting(&settings, "model"), Some("b"));
}

#[test]
fn setting_without_value_counts_as_absent() {
    let settings = model(&[("model", Some("a")), ("model", None)]);
    assert_eq!(model_setting(&settings, "model"), Some("a"));
    let settings = model(&[("model", None)]);
    assert_eq!(model_setting(&settings, "model"), None);
}

#[test]
fn names_are_compared_exactly() {
    let settings = provider(&[("Endpoint", "x"), ("endpoint ", "y")]);
    assert_eq!(provider_setting(&settings, "endpoint"), None);
}

#[test]
fn integers_are_read_as_the_standard_reads_them() {
    let samples = [
        "",
        "0",
        "-0",
        "+0",
        "7",
        "2000",
        "+2000",
        "-2000",
        "0002000",
        "-0002000",
        "2147483647",
        "+2147483647",
        "2147483648",
        "2147483649",
        "-2147483647",
        "-2147483648",
        "-2147483649",
        "21474836470",
        "00000000000000000000002147483647",
        "99999999999999999999999999",
        "-99999999999999999999999999",
        "+",
        "-",
        "+-1",
        "--1",
        "1-",
        "1+1",
        " 1",
        "1 ",
        "1.5",
        "1e3",
        "0x10",
        "1_000",
        "\u{661}\u{662}",
        "\u{ff11}",
        "12a",
        "a12",
        "/",
        ":",
    ];
    for sample in samples {
        assert_eq!(parse_i32(sample), sample.parse::<i32>().ok(), "{:?}", sample);
    }
}

#[test]
fn integer_edge_values() {
    assert_eq!(parse_i32("2147483647"), Some(i32::MAX));
    assert_eq!(parse_i32("-2147483648"), Some(i32::MIN));
    assert_eq!(parse_i32("2147483648"), None);
    assert_eq!(parse_i32("-2147483649"), None);
    assert_eq!(parse_i32("+17"), Some(17));
    assert_eq!(parse_i32("-"), None);
}
