//! Usage by pane: what agents report, and how it adds up.

use gridterm::usage::collector::{
    attr_int, attr_str, dp_value, parse_metrics, read_report, Measure, MetricUpdate, PointValue,
};
use gridterm::usage::{
    price_for, price_of_lowered, BillingMode, Price, TokenKind, UsageStore, NO_USAGE,
};
use serde_json::Value;

fn read(text: &str) -> Value {
    serde_json::from_str(text).unwrap()
}

fn amount(v: &PointValue) -> u64 {
    v.tokens().unwrap()
}

fn dollars(v: &PointValue) -> f64 {
    match v {
        PointValue::Number(n) => n.as_f64().unwrap_or(0.0),
        PointValue::Whole(n) => *n as f64,
        PointValue::Digits(s) => s.parse().unwrap_or(0.0),
        PointValue::Missing => 0.0,
    }
}

#[test]
fn collector_captures_metrics() {
    let mut store = UsageStore::new();
    let body = r#"{
        "resourceMetrics": [{
            "resource": { "attributes": [
                { "key": "gridterm.pane", "value": { "intValue": "2" } }
            ]},
            "scopeMetrics": [{ "metrics": [
                { "name": "claude_code.token.usage", "sum": { "dataPoints": [
                    { "asInt": "1000", "attributes": [
                        { "key": "type", "value": { "stringValue": "input" } },
                        { "key": "model", "value": { "stringValue": "sonnet-4" } }]},
                    { "asInt": "500", "attributes": [
                        { "key": "type", "value": { "stringValue": "output" } },
                        { "key": "model", "value": { "stringValue": "sonnet-4" } }]}
                ]}},
                { "name": "claude_code.cost.usage", "sum": { "dataPoints": [
                    { "asDouble": 0.012, "attributes": [
                        { "key": "model", "value": { "stringValue": "sonnet-4" } }]}
                ]}}
            ]}]
        }]
    }"#;

    let mut total_cost = 0.0;
    for u in read_report(body) {
        match u.measure {
            Measure::Tokens(_) => store.record(&u, amount(&u.value)),
            Measure::Cost => {
                store.record(&u, 0);
                total_cost += dollars(&u.value);
            }
        }
    }

    let report = store.report(&vec!["0.0120".to_string()], "0.0120");
    assert!(report.contains("pane 2"), "missing pane: {report}");
    assert!(total_cost > 0.0, "total should be > 0: {report}");
    let p = store.pane(2).unwrap();
    assert_eq!(p.input_tokens, 1000);
    assert_eq!(p.output_tokens, 500);
    assert_eq!(p.model, "sonnet-4");
    assert_eq!(
        report,
        "pane 2 [sonnet-4]: $0.0120  (in 1000, out 500, cache 0 tokens)\n\nTotal (API-billed panes): $0.0120"
    );
}

fn metric(name: &str, attrs: &str, value: &str) -> Vec<MetricUpdate> {
    parse_metrics(&read(&format!(
        r#"{{"resourceMetrics":[{{"scopeMetrics":[{{"metrics":[
            {{"name":"{name}","gauge":{{"dataPoints":[{{{value},"attributes":[{attrs}]}}]}}}}
        ]}}]}}]}}"#
    )))
}

fn attr(key: &str, value: &str) -> String {
    format!(r#"{{"key":"{key}","value":{{"stringValue":"{value}"}}}}"#)
}

#[test]
fn known_metrics_have_four_kinds_of_tokens() {
    let cases = [
        ("input", TokenKind::Input),
        ("output", TokenKind::Output),
        ("cacheRead", TokenKind::CacheRead),
        ("cacheCreation", TokenKind::CacheCreation),
        ("else", TokenKind::Input),
    ];
    for (word, kind) in cases {
        for name in ["claude_code.token.usage", "claude_code.token.usage.tokens"] {
            let got = metric(name, &attr("type", word), r#""asInt":3"#);
            assert_eq!(got.len(), 1);
            assert_eq!(got[0].measure, Measure::Tokens(kind));
            assert_eq!(got[0].pane, 0);
            assert_eq!(got[0].model, "");
            assert_eq!(amount(&got[0].value), 3);
        }
    }
}

#[test]
fn other_metrics_go_by_their_name() {
    let both = format!("{},{}", attr("gen_ai.token.type", "completion"), attr("type", "cacheRead"));
    let got = metric("gen_ai.client.token.usage", &both, r#""asInt":"7""#);
    assert_eq!(got[0].measure, Measure::Tokens(TokenKind::Output));
    let got = metric("my.tokens", &attr("type", "cacheRead"), r#""asInt":"7""#);
    assert_eq!(got[0].measure, Measure::Tokens(TokenKind::CacheRead));
    let got = metric("my.tokens", &attr("type", "cacheCreation"), r#""asInt":"7""#);
    assert_eq!(got[0].measure, Measure::Tokens(TokenKind::Input));
    for name in ["claude_code.cost.usage", "claude_code.cost.usage.USD", "my.cost"] {
        let got = metric(name, &attr("model", "m"), r#""asDouble":0.5"#);
        assert_eq!(got[0].measure, Measure::Cost);
        assert_eq!(got[0].model, "m");
        assert_eq!(dollars(&got[0].value), 0.5);
    }
    assert_eq!(metric("lines.of.code", "", r#""asInt":1"#).len(), 0);
}

#[test]
fn updates_come_in_the_order_of_the_request() {
    let body = read(
        r#"{"resourceMetrics":[
        {"resource":{"attributes":[{"key":"gridterm.pane","value":{"stringValue":"4"}}]},
         "scopeMetrics":[{"metrics":[{"name":"a.token","sum":{"dataPoints":[{"asInt":1},{"asInt":2}]}}]},
                         {},
                         {"metrics":[{"name":"b.cost","sum":{"dataPoints":[{"asInt":3}]}},{"name":"c.token"}]}]},
        {},
        {"scopeMetrics":[{"metrics":[{"name":"d.token","gauge":{"dataPoints":[{"asInt":4}]}}]}]}]}"#,
    );
    let got: Vec<(usize, u64)> = parse_metrics(&body).iter().map(|u| (u.pane, amount(&u.value))).collect();
    assert_eq!(got, vec![(4, 1), (4, 2), (4, 3), (0, 4)]);
    assert_eq!(parse_metrics(&read("{}")).len(), 0);
    assert_eq!(parse_metrics(&read(r#"{"resourceMetrics":5}"#)).len(), 0);
}

#[test]
fn values_of_data_points() {
    assert_eq!(amount(&dp_value(&read(r#"{"asInt":12}"#))), 12);
    assert_eq!(amount(&dp_value(&read(r#"{"asInt":"12"}"#))), 12);
    assert_eq!(amount(&dp_value(&read(r#"{"asInt":-12}"#))), 0);
    assert_eq!(amount(&dp_value(&read(r#"{"asInt":true}"#))), 0);
    assert_eq!(amount(&dp_value(&read("{}"))), 0);
    assert_eq!(dp_value(&read(r#"{"asInt":"1e3"}"#)).tokens(), None);
    assert_eq!(dp_value(&read(r#"{"asDouble":2.5}"#)).tokens(), None);
    assert_eq!(dollars(&dp_value(&read(r#"{"asDouble":2.5}"#))), 2.5);
}

#[test]
fn amounts_go_through_doubles() {
    for n in [
        1i64,
        1000,
        (1 << 53) - 1,
        1 << 53,
        (1 << 53) + 1,
        (1 << 53) + 3,
        (1 << 62) + 12345,
        i64::MAX,
    ] {
        assert_eq!(PointValue::Whole(n).tokens(), Some((n as f64) as u64), "{n}");
        let text = n.to_string();
        let parsed: f64 = text.parse().unwrap();
        assert_eq!(PointValue::Digits(text).tokens(), Some(parsed as u64), "{n}");
    }
    let huge = u64::MAX.to_string();
    let parsed: f64 = huge.parse().unwrap();
    assert_eq!(PointValue::Digits(huge).tokens(), Some(parsed as u64));
    assert_eq!(PointValue::Digits("99999999999999999999".to_string()).tokens(), None);
}

#[test]
fn attributes_are_found_by_key() {
    let attrs = read(
        r#"[{"key":"a","value":{"stringValue":"x"}},
            {"key":"a","value":{"stringValue":"y"}},
            {"key":"b","value":{"intValue":5}},
            {"key":"c","value":{"intValue":"-6"}},
            {"key":"d","value":{"stringValue":"+7"}},
            {"key":"e","value":{"boolValue":true}},
            {"key":"e","value":{"intValue":8}},
            {"key":"f"},
            {"key":"f","value":{"intValue":9}},
            {"key":"g","value":{"intValue":"no"}}]"#,
    );
    assert_eq!(attr_str(Some(&attrs), "a").as_deref(), Some("x"));
    assert_eq!(attr_str(Some(&attrs), "b"), None);
    assert_eq!(attr_str(Some(&attrs), "z"), None);
    assert_eq!(attr_str(None, "a"), None);
    assert_eq!(attr_int(Some(&attrs), "a"), None);
    assert_eq!(attr_int(Some(&attrs), "b"), Some(5));
    assert_eq!(attr_int(Some(&attrs), "c"), Some(-6));
    assert_eq!(attr_int(Some(&attrs), "d"), Some(7));
    assert_eq!(attr_int(Some(&attrs), "e"), Some(8));
    assert_eq!(attr_int(Some(&attrs), "f"), None);
    assert_eq!(attr_int(Some(&attrs), "g"), None);
    assert_eq!(attr_int(None, "a"), None);
}

#[test]
fn prices_by_model() {
    let cents = |p: Option<Price>| p.map(|p| (p.input, p.output, p.cache_read));
    assert_eq!(cents(price_for("Big-OPUS-4")), Some((1500, 7500, 150)));
    assert_eq!(cents(price_for("sonnet")), Some((300, 1500, 30)));
    assert_eq!(cents(price_for("haiku-3")), Some((80, 400, 8)));
    assert_eq!(cents(price_for("GPT-5-mini")), Some((125, 1000, 13)));
    assert_eq!(cents(price_for("codex")), Some((125, 1000, 13)));
    assert_eq!(cents(price_for("o3-pro")), Some((200, 800, 50)));
    assert_eq!(cents(price_for("o4")), Some((200, 800, 50)));
    assert_eq!(cents(price_for("other")), None);
    assert_eq!(cents(price_of_lowered("opus sonnet")), Some((1500, 7500, 150)));
    assert_eq!(cents(price_of_lowered("OPUS")), None);
}

#[test]
fn usage_adds_up_by_pane_and_kind() {
    let mut store = UsageStore::new();
    store.add_tokens(3, "a", TokenKind::Input, 10);
    store.add_tokens(1, "b", TokenKind::Output, 20);
    store.add_tokens(3, "", TokenKind::Input, 5);
    store.add_tokens(3, "c", TokenKind::CacheRead, 7);
    store.add_tokens(3, "", TokenKind::CacheCreation, 9);
    store.add_cost(2, "d");
    assert_eq!(store.used_panes(), vec![1, 2, 3]);
    let u = store.pane(3).unwrap();
    assert_eq!(u.input_tokens, 15);
    assert_eq!(u.cache_read_tokens, 7);
    assert_eq!(u.cache_creation_tokens, 9);
    assert_eq!(u.total_tokens(), 22);
    assert_eq!(u.model, "c");
    assert_eq!(u.tokens(TokenKind::CacheCreation), 9);
    assert_eq!(store.pane(1).unwrap().output_tokens, 20);
    assert_eq!(store.pane(2).unwrap().total_tokens(), 0);
    assert!(store.pane(0).is_none());
}

#[test]
fn reports_by_billing_mode() {
    let mut store = UsageStore::new();
    assert_eq!(store.report(&vec![], "0.0000"), NO_USAGE);
    store.add_tokens(0, "", TokenKind::Input, 1);
    store.add_tokens(5, "m", TokenKind::Output, 2);
    store.set_mode(5, BillingMode::Api);
    store.set_mode(5, BillingMode::Subscription);
    assert_eq!(store.mode(0), BillingMode::Api);
    assert_eq!(store.mode(5), BillingMode::Subscription);
    assert_eq!(
        store.report(&vec!["0.1000".to_string(), "0.2000".to_string()], "0.1000"),
        "pane 0 [?]: $0.1000  (in 1, out 0, cache 0 tokens)\npane 5 [m]: subscription — 2 tokens (in 0, out 2)\n\nTotal (API-billed panes): $0.1000"
    );
}

#[test]
fn posted_reports_are_read() {
    let body = r#"{"resourceMetrics":[{"resource":{"attributes":[
        {"key":"gridterm.pane","value":{"intValue":"3"}}]},
        "scopeMetrics":[{"metrics":[{"name":"claude_code.token.usage","sum":{"dataPoints":[
            {"asInt":"7","attributes":[{"key":"type","value":{"stringValue":"output"}}]}]}}]}]}]}"#;
    let updates = read_report(body);
    assert_eq!(updates.len(), 1);
    assert_eq!(updates[0].pane, 3);
    assert!(updates[0].measure == Measure::Tokens(TokenKind::Output));
    assert_eq!(updates[0].value.tokens(), Some(7));
    assert!(read_report("not json").is_empty());
    assert!(read_report("").is_empty());
    assert!(read_report("{}").is_empty());
}

#[test]
fn subscriptions_are_not_billed() {
    let mut store = UsageStore::new();
    store.set_mode(0, BillingMode::Subscription);
    store.add_cost(0, "");
    store.add_cost(1, "");
    assert_eq!(store.used_panes(), vec![0, 1]);
    assert_eq!(store.billed_panes(), vec![1]);
    assert_eq!(
        store.report(&vec!["1.5000".to_string(), "2.0000".to_string()], "2.0000"),
        "pane 0 [?]: subscription — 0 tokens (in 0, out 0)\npane 1 [?]: $2.0000  (in 0, out 0, cache 0 tokens)\n\nTotal (API-billed panes): $2.0000"
    );
    store.set_mode(0, BillingMode::Api);
    assert_eq!(store.billed_panes(), vec![0, 1]);
}

#[test]
fn usage_follows_the_panes_of_a_closed_column() {
    let mut store = UsageStore::new();
    for p in [0, 1, 2, 3, 7] {
        store.add_tokens(p, "m", TokenKind::Input, 10 + p as u64);
    }
    store.set_mode(2, BillingMode::Subscription);
    store.close_column(4, 2);
    assert_eq!(store.used_panes(), vec![0, 1, 2, 3, 7]);
    let tokens: Vec<u64> =
        store.used_panes().iter().map(|p| store.pane(*p).unwrap().input_tokens).collect();
    assert_eq!(tokens, vec![10, 12, 11, 13, 17]);
    assert_eq!(store.mode(1), BillingMode::Subscription);
    assert_eq!(store.mode(2), BillingMode::Api);
    assert_eq!(store.billed_panes(), vec![0, 2, 3, 7]);
}
