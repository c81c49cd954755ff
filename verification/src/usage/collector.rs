//! Reads the metrics that coding agents report over OTLP, as JSON: which pane
//! they are for, and what was used there.

use serde_json::Value;
use vstd::prelude::*;

use crate::json;
use crate::json::{as_int, as_items, as_text, copy, get, parse, Json};
use crate::rounding;
use crate::rounding::to_double;
use crate::text;
use crate::text::{contains_text, read_integer, read_natural, same_text, to_chars};
use crate::usage::TokenKind;

verus! {

/// The value of a data point, as it was reported.
pub enum PointValue {
    /// An integer.
    Whole(i64),
    /// A text that may denote a number.
    Digits(String),
    /// A number, by the document that holds it.
    Number(Value),
    /// None.
    Missing,
}

/// What a [`PointValue`] holds.
pub ghost enum ValueView {
    Whole(i64),
    Digits(Seq<char>),
    Number(Json),
    Missing,
}

impl View for PointValue {
    type V = ValueView;

    open spec fn view(&self) -> ValueView {
        match *self {
            PointValue::Whole(n) => ValueView::Whole(n),
            PointValue::Digits(s) => ValueView::Digits(s@),
            PointValue::Number(v) => ValueView::Number(json::json_of(v)),
            PointValue::Missing => ValueView::Missing,
        }
    }
}

/// What was used.
#[derive(Clone, Copy, Debug, PartialEq, Eq, Structural)]
pub enum Measure {
    Tokens(TokenKind),
    /// Money, in USD.
    Cost,
}

/// One thing that an agent reports: so much of that was used in a pane.
pub struct MetricUpdate {
    pub pane: usize,
    pub model: String,
    pub measure: Measure,
    pub value: PointValue,
}

/// What a [`MetricUpdate`] holds.
pub ghost struct UpdateView {
    pub pane: usize,
    pub model: Seq<char>,
    pub measure: Measure,
    pub value: ValueView,
}

impl View for MetricUpdate {
    type V = UpdateView;

    open spec fn view(&self) -> UpdateView {
        UpdateView {
            pane: self.pane,
            model: self.model@,
            measure: self.measure,
            value: self.value@,
        }
    }
}

/// What a list of updates holds.
pub open spec fn update_views(updates: Seq<MetricUpdate>) -> Seq<UpdateView> {
    updates.map_values(|u: MetricUpdate| u@)
}

/// How many tokens a whole number is: it goes through a double-precision
/// number, and there are none below zero.
pub open spec fn whole_amount(n: int) -> nat {
    if n <= 0 {
        0
    } else if rounding::rounded(n as nat) > u64::MAX {
        u64::MAX as nat
    } else {
        rounding::rounded(n as nat)
    }
}

/// How many tokens a value is, where it is a whole number or a text of digits
/// for one; of other values nothing is said.
pub open spec fn token_amount(v: ValueView) -> Option<nat> {
    match v {
        ValueView::Whole(n) => Some(whole_amount(n as int)),
        ValueView::Digits(s) => match text::natural(s) {
            Some(n) => if n <= u64::MAX {
                Some(whole_amount(n as int))
            } else {
                None
            },
            None => None,
        },
        ValueView::Number(_) => None,
        ValueView::Missing => Some(0),
    }
}

fn natural_amount(n: u64) -> (r: u64)
    ensures
        r == whole_amount(n as int),
{
    let d: u128 = to_double(n);
    if d > 0xffff_ffff_ffff_ffff {
        0xffff_ffff_ffff_ffff
    } else {
        d as u64
    }
}

impl PointValue {
    /// How many tokens the value is, where it is a whole number or a text of
    /// digits for one; `None` for other values, which are to be read as
    /// double-precision numbers.
    pub fn tokens(&self) -> (r: Option<u64>)
        ensures
            match r {
                Some(n) => token_amount(self@) == Some(n as nat),
                None => token_amount(self@) is None,
            },
    {
        match self {
            PointValue::Whole(n) => if *n <= 0 {
                Some(0)
            } else {
                Some(natural_amount(*n as u64))
            },
            PointValue::Digits(s) => {
                let v: Vec<char> = to_chars(s.as_str());
                assert(v@.skip(0) =~= s@);
                match read_natural(&v, 0, 0xffff_ffff_ffff_ffff) {
                    Some(n) => Some(natural_amount(n)),
                    None => None,
                }
            },
            PointValue::Number(_) => None,
            PointValue::Missing => Some(0),
        }
    }
}

/// The value of a data point: its integer, as a number or a text, or else its
/// number.
pub open spec fn point_value(dp: Json) -> ValueView {
    match json::member(dp, "asInt"@) {
        Some(i) => match json::int_of(i) {
            Some(n) => ValueView::Whole(n),
            None => match json::text_of(i) {
                Some(s) => ValueView::Digits(s),
                None => ValueView::Missing,
            },
        },
        None => match json::member(dp, "asDouble"@) {
            Some(d) => ValueView::Number(d),
            None => ValueView::Missing,
        },
    }
}

/// Reads the value of a data point (asInt or asDouble).
pub fn dp_value(dp: &Value) -> (r: PointValue)
    ensures
        r@ == point_value(json::json_of(*dp)),
{
    if let Some(i) = get(dp, "asInt") {
        return match as_int(i) {
            Some(n) => PointValue::Whole(n),
            None => match as_text(i) {
                Some(s) => PointValue::Digits(s.to_owned()),
                None => PointValue::Missing,
            },
        };
    }
    match get(dp, "asDouble") {
        Some(d) => PointValue::Number(copy(d)),
        None => PointValue::Missing,
    }
}

/// The documents in a list.
pub open spec fn docs(items: Seq<Value>) -> Seq<Json> {
    items.map_values(|x: Value| json::json_of(x))
}

/// The items of a document that there may be; none where it is no array.
pub open spec fn items(j: Option<Json>) -> Seq<Json> {
    match j {
        Some(d) => match json::items_of(d) {
            Some(a) => a,
            None => seq![],
        },
        None => seq![],
    }
}

/// The document of a value that there may be.
pub open spec fn held(v: Option<&Value>) -> Option<Json> {
    match v {
        Some(x) => Some(json::json_of(*x)),
        None => None,
    }
}

/// Whether an attribute is that of a key.
pub open spec fn has_key(attr: Json, key: Seq<char>) -> bool {
    match json::member(attr, "key"@) {
        Some(k) => json::text_of(k) == Some(key),
        None => false,
    }
}

/// The text of the first attribute of a key.
pub open spec fn text_attr(attrs: Seq<Json>, key: Seq<char>) -> Option<Seq<char>>
    decreases attrs.len(),
{
    if attrs.len() == 0 {
        None
    } else if has_key(attrs[0], key) {
        match json::member_of(json::member(attrs[0], "value"@), "stringValue"@) {
            Some(s) => json::text_of(s),
            None => None,
        }
    } else {
        text_attr(attrs.skip(1), key)
    }
}

/// The integer of the first attribute of a key that has a value of one of the
/// two kinds: an integer, which may be written as a text, or a text. A key
/// without a value ends the search.
pub open spec fn int_attr(attrs: Seq<Json>, key: Seq<char>) -> Option<i64>
    decreases attrs.len(),
{
    if attrs.len() == 0 {
        None
    } else if has_key(attrs[0], key) {
        match json::member(attrs[0], "value"@) {
            None => None,
            Some(v) => match json::member(v, "intValue"@) {
                Some(i) => match json::int_of(i) {
                    Some(n) => Some(n),
                    None => match json::text_of(i) {
                        Some(s) => text::small_integer(s),
                        None => None,
                    },
                },
                None => match json::member(v, "stringValue"@) {
                    Some(Json::Text(s)) => text::small_integer(s),
                    _ => int_attr(attrs.skip(1), key),
                },
            },
        }
    } else {
        int_attr(attrs.skip(1), key)
    }
}

fn is_of_key(attr: &Value, key: &str) -> (r: bool)
    ensures
        r == has_key(json::json_of(*attr), key@),
{
    match get(attr, "key") {
        Some(k) => match as_text(k) {
            Some(s) => same_text(s, key),
            None => false,
        },
        None => false,
    }
}

/// Finds a string attribute by key in an OTLP attributes array.
pub fn attr_str(attrs: Option<&Value>, key: &str) -> (r: Option<String>)
    ensures
        crate::ai::client::opt_view(r) == text_attr(
            items(held(attrs)),
            key@,
        ),
{
    let list: &Vec<Value> = match attrs {
        Some(v) => match as_items(v) {
            Some(a) => a,
            None => {
                return None;
            },
        },
        None => {
            return None;
        },
    };
    let ghost all = docs(list@);
    let n: usize = list.len();
    let mut i: usize = 0;
    assert(all.skip(0) =~= all);
    while i < n
        invariant
            i <= n,
            n == list.len(),
            all == docs(list@),
            all == items(held(attrs)),
            text_attr(all, key@) == text_attr(all.skip(i as int), key@),
        decreases n - i,
    {
        let a: &Value = &list[i];
        proof {
            assert(all.skip(i as int)[0] == json::json_of(*a));
            assert(all.skip(i as int).skip(1) =~= all.skip(i + 1));
        }
        if is_of_key(a, key) {
            return match get(a, "value") {
                Some(v) => match get(v, "stringValue") {
                    Some(s) => match as_text(s) {
                        Some(t) => Some(t.to_owned()),
                        None => None,
                    },
                    None => None,
                },
                None => None,
            };
        }
        i = i + 1;
    }
    None
}

/// Finds an integer attribute by key (stringValue or intValue).
pub fn attr_int(attrs: Option<&Value>, key: &str) -> (r: Option<i64>)
    ensures
        r == int_attr(
            items(held(attrs)),
            key@,
        ),
{
    let list: &Vec<Value> = match attrs {
        Some(v) => match as_items(v) {
            Some(a) => a,
            None => {
                return None;
            },
        },
        None => {
            return None;
        },
    };
    let ghost all = docs(list@);
    let n: usize = list.len();
    let mut i: usize = 0;
    assert(all.skip(0) =~= all);
    while i < n
        invariant
            i <= n,
            n == list.len(),
            all == docs(list@),
            all == items(held(attrs)),
            int_attr(all, key@) == int_attr(all.skip(i as int), key@),
        decreases n - i,
    {
        let a: &Value = &list[i];
        proof {
            assert(all.skip(i as int)[0] == json::json_of(*a));
            assert(all.skip(i as int).skip(1) =~= all.skip(i + 1));
        }
        if is_of_key(a, key) {
            match get(a, "value") {
                None => {
                    return None;
                },
                Some(v) => {
                    if let Some(k) = get(v, "intValue") {
                        return match as_int(k) {
                            Some(m) => Some(m),
                            None => match as_text(k) {
                                Some(s) => read_integer(s),
                                None => None,
                            },
                        };
                    }
                    if let Some(s) = get(v, "stringValue") {
                        if let Some(t) = as_text(s) {
                            return read_integer(t);
                        }
                    }
                },
            }
        }
        i = i + 1;
    }
    None
}

/// The kind of tokens that a metric of known name counts.
pub open spec fn known_kind(kind: Option<Seq<char>>) -> TokenKind {
    if kind == Some("output"@) {
        TokenKind::Output
    } else if kind == Some("cacheRead"@) {
        TokenKind::CacheRead
    } else if kind == Some("cacheCreation"@) {
        TokenKind::CacheCreation
    } else {
        TokenKind::Input
    }
}

/// The kind of tokens that any other metric counts.
pub open spec fn generic_kind(kind: Option<Seq<char>>) -> TokenKind {
    if kind == Some("output"@) || kind == Some("completion"@) {
        TokenKind::Output
    } else if kind == Some("cacheRead"@) {
        TokenKind::CacheRead
    } else {
        TokenKind::Input
    }
}

/// What a data point of the metric `name` measures, if anything that counts
/// here: tokens or money, by the name of the metric.
pub open spec fn measure_of(name: Seq<char>, attrs: Seq<Json>) -> Option<Measure> {
    if name == "claude_code.token.usage"@ || name == "claude_code.token.usage.tokens"@ {
        Some(Measure::Tokens(known_kind(text_attr(attrs, "type"@))))
    } else if name == "claude_code.cost.usage"@ || name == "claude_code.cost.usage.USD"@ {
        Some(Measure::Cost)
    } else if text::has_text(name, "token"@) {
        Some(
            Measure::Tokens(
                generic_kind(
                    match text_attr(attrs, "gen_ai.token.type"@) {
                        Some(t) => Some(t),
                        None => text_attr(attrs, "type"@),
                    },
                ),
            ),
        )
    } else if text::has_text(name, "cost"@) {
        Some(Measure::Cost)
    } else {
        None
    }
}

/// What a data point of the metric `name` reports for a pane, if anything.
pub open spec fn point_update(pane: usize, name: Seq<char>, dp: Json) -> Option<UpdateView> {
    let attrs = items(json::member(dp, "attributes"@));
    match measure_of(name, attrs) {
        Some(measure) => Some(
            UpdateView {
                pane,
                model: match text_attr(attrs, "model"@) {
                    Some(m) => m,
                    None => seq![],
                },
                measure,
                value: point_value(dp),
            },
        ),
        None => None,
    }
}

/// What data points report.
pub open spec fn point_updates(pane: usize, name: Seq<char>, dps: Seq<Json>) -> Seq<UpdateView>
    decreases dps.len(),
{
    if dps.len() == 0 {
        seq![]
    } else {
        let rest = point_updates(pane, name, dps.drop_last());
        match point_update(pane, name, dps.last()) {
            Some(u) => rest.push(u),
            None => rest,
        }
    }
}

/// The name of a metric.
pub open spec fn metric_name(metric: Json) -> Seq<char> {
    match json::member(metric, "name"@) {
        Some(n) => match json::text_of(n) {
            Some(s) => s,
            None => seq![],
        },
        None => seq![],
    }
}

/// The data points of a metric: of its sum, or else of its gauge.
pub open spec fn data_points(metric: Json) -> Seq<Json> {
    let holder = match json::member(metric, "sum"@) {
        Some(s) => Some(s),
        None => json::member(metric, "gauge"@),
    };
    items(json::member_of(holder, "dataPoints"@))
}

/// What metrics report.
pub open spec fn metric_updates(pane: usize, metrics: Seq<Json>) -> Seq<UpdateView>
    decreases metrics.len(),
{
    if metrics.len() == 0 {
        seq![]
    } else {
        metric_updates(pane, metrics.drop_last()) + point_updates(
            pane,
            metric_name(metrics.last()),
            data_points(metrics.last()),
        )
    }
}

/// What the metrics of scopes report.
pub open spec fn scope_updates(pane: usize, scopes: Seq<Json>) -> Seq<UpdateView>
    decreases scopes.len(),
{
    if scopes.len() == 0 {
        seq![]
    } else {
        scope_updates(pane, scopes.drop_last()) + metric_updates(
            pane,
            items(json::member(scopes.last(), "metrics"@)),
        )
    }
}

/// The pane that the metrics of a resource are for: that of the attribute which
/// every shell is started with, or the first. A negative number wraps around.
pub open spec fn resource_pane(resource: Json) -> usize {
    match int_attr(
        items(json::member_of(json::member(resource, "resource"@), "attributes"@)),
        "gridterm.pane"@,
    ) {
        Some(n) => n as usize,
        None => 0,
    }
}

/// What the metrics of resources report.
pub open spec fn resource_updates(resources: Seq<Json>) -> Seq<UpdateView>
    decreases resources.len(),
{
    if resources.len() == 0 {
        seq![]
    } else {
        resource_updates(resources.drop_last()) + scope_updates(
            resource_pane(resources.last()),
            items(json::member(resources.last(), "scopeMetrics"@)),
        )
    }
}

/// What a request reports, in its order.
pub open spec fn reported(request: Json) -> Seq<UpdateView> {
    resource_updates(items(json::member(request, "resourceMetrics"@)))
}

fn read_measure(name: &str, attrs: Option<&Value>) -> (r: Option<Measure>)
    ensures
        r == measure_of(
            name@,
            items(held(attrs)),
        ),
{
    if same_text(name, "claude_code.token.usage") || same_text(
        name,
        "claude_code.token.usage.tokens",
    ) {
        return Some(
            Measure::Tokens(
                match attr_str(attrs, "type") {
                    Some(t) => if same_text(t.as_str(), "output") {
                        TokenKind::Output
                    } else if same_text(t.as_str(), "cacheRead") {
                        TokenKind::CacheRead
                    } else if same_text(t.as_str(), "cacheCreation") {
                        TokenKind::CacheCreation
                    } else {
                        TokenKind::Input
                    },
                    None => TokenKind::Input,
                },
            ),
        );
    }
    if same_text(name, "claude_code.cost.usage") || same_text(name, "claude_code.cost.usage.USD") {
        return Some(Measure::Cost);
    }
    let v: Vec<char> = to_chars(name);
    let token: Vec<char> = to_chars("token");
    let cost: Vec<char> = to_chars("cost");
    if contains_text(&v, &token) {
        let kind: Option<String> = match attr_str(attrs, "gen_ai.token.type") {
            Some(t) => Some(t),
            None => attr_str(attrs, "type"),
        };
        return Some(
            Measure::Tokens(
                match kind {
                    Some(t) => if same_text(t.as_str(), "output") || same_text(
                        t.as_str(),
                        "completion",
                    ) {
                        TokenKind::Output
                    } else if same_text(t.as_str(), "cacheRead") {
                        TokenKind::CacheRead
                    } else {
                        TokenKind::Input
                    },
                    None => TokenKind::Input,
                },
            ),
        );
    }
    if contains_text(&v, &cost) {
        return Some(Measure::Cost);
    }
    None
}

fn read_point(pane: usize, name: &str, dp: &Value) -> (r: Option<MetricUpdate>)
    ensures
        match r {
            Some(u) => point_update(pane, name@, json::json_of(*dp)) == Some(u@),
            None => point_update(pane, name@, json::json_of(*dp)) is None,
        },
{
    let attrs: Option<&Value> = get(dp, "attributes");
    match read_measure(name, attrs) {
        Some(measure) => {
            let model: String = match attr_str(attrs, "model") {
                Some(m) => m,
                None => {
                    let s: String = String::new();
                    assert(s@ =~= seq![]);
                    s
                },
            };
            Some(MetricUpdate { pane, model, measure, value: dp_value(dp) })
        },
        None => None,
    }
}

/// The items of a member, where that is an array.
fn list_in<'a>(v: &'a Value, key: &str) -> (r: Option<&'a Vec<Value>>)
    ensures
        items(json::member(json::json_of(*v), key@)) == (match r {
            Some(a) => docs(a@),
            None => seq![],
        }),
{
    match get(v, key) {
        Some(a) => as_items(a),
        None => None,
    }
}

fn read_points(out: &mut Vec<MetricUpdate>, pane: usize, name: &str, dps: &Vec<Value>)
    ensures
        update_views(final(out)@) == update_views(old(out)@) + point_updates(
            pane,
            name@,
            docs(dps@),
        ),
{
    let ghost all = docs(dps@);
    let ghost before = update_views(out@);
    let n: usize = dps.len();
    let mut i: usize = 0;
    assert(before =~= before + point_updates(pane, name@, all.take(0)));
    while i < n
        invariant
            i <= n,
            n == dps.len(),
            all == docs(dps@),
            update_views(out@) == before + point_updates(pane, name@, all.take(i as int)),
        decreases n - i,
    {
        let ghost mid = update_views(out@);
        proof {
            assert(all.take(i + 1).drop_last() =~= all.take(i as int));
            assert(all.take(i + 1).last() == json::json_of(dps@[i as int]));
        }
        if let Some(u) = read_point(pane, name, &dps[i]) {
            out.push(u);
            assert(update_views(out@) =~= mid.push(u@));
        }
        assert(update_views(out@) =~= before + point_updates(pane, name@, all.take(i + 1)));
        i = i + 1;
    }
    assert(all.take(n as int) =~= all);
}

fn read_metrics(out: &mut Vec<MetricUpdate>, pane: usize, metrics: &Vec<Value>)
    ensures
        update_views(final(out)@) == update_views(old(out)@) + metric_updates(
            pane,
            docs(metrics@),
        ),
{
    let ghost all = docs(metrics@);
    let ghost before = update_views(out@);
    let n: usize = metrics.len();
    let mut i: usize = 0;
    assert(before =~= before + metric_updates(pane, all.take(0)));
    while i < n
        invariant
            i <= n,
            n == metrics.len(),
            all == docs(metrics@),
            update_views(out@) == before + metric_updates(pane, all.take(i as int)),
        decreases n - i,
    {
        let metric: &Value = &metrics[i];
        proof {
            assert(all.take(i + 1).drop_last() =~= all.take(i as int));
            assert(all.take(i + 1).last() == json::json_of(*metric));
        }
        let name: &str = match get(metric, "name") {
            Some(v) => match as_text(v) {
                Some(s) => s,
                None => "",
            },
            None => "",
        };
        proof {
            reveal_strlit("");
            assert(name@ =~= metric_name(json::json_of(*metric)));
        }
        let holder: Option<&Value> = match get(metric, "sum") {
            Some(s) => Some(s),
            None => get(metric, "gauge"),
        };
        let ghost mid = update_views(out@);
        let points: Option<&Vec<Value>> = match holder {
            Some(h) => list_in(h, "dataPoints"),
            None => None,
        };
        match points {
            Some(dps) => read_points(out, pane, name, dps),
            None => {
                assert(data_points(json::json_of(*metric)) =~= seq![]);
            },
        }
        proof {
            assert(update_views(out@) =~= mid + point_updates(
                pane,
                name@,
                data_points(json::json_of(*metric)),
            ));
            assert(update_views(out@) =~= before + metric_updates(pane, all.take(i + 1)));
        }
        i = i + 1;
    }
    assert(all.take(n as int) =~= all);
}

fn read_scopes(out: &mut Vec<MetricUpdate>, pane: usize, scopes: &Vec<Value>)
    ensures
        update_views(final(out)@) == update_views(old(out)@) + scope_updates(pane, docs(scopes@)),
{
    let ghost all = docs(scopes@);
    let ghost before = update_views(out@);
    let n: usize = scopes.len();
    let mut i: usize = 0;
    assert(before =~= before + scope_updates(pane, all.take(0)));
    while i < n
        invariant
            i <= n,
            n == scopes.len(),
            all == docs(scopes@),
            update_views(out@) == before + scope_updates(pane, all.take(i as int)),
        decreases n - i,
    {
        let scope: &Value = &scopes[i];
        proof {
            assert(all.take(i + 1).drop_last() =~= all.take(i as int));
            assert(all.take(i + 1).last() == json::json_of(*scope));
        }
        let ghost mid = update_views(out@);
        match list_in(scope, "metrics") {
            Some(metrics) => read_metrics(out, pane, metrics),
            None => {},
        }
        proof {
            assert(update_views(out@) =~= mid + metric_updates(
                pane,
                items(json::member(json::json_of(*scope), "metrics"@)),
            ));
            assert(update_views(out@) =~= before + scope_updates(pane, all.take(i + 1)));
        }
        i = i + 1;
    }
    assert(all.take(n as int) =~= all);
}

/// Reads a request of an agent (an OTLP/HTTP ExportMetricsServiceRequest, as
/// JSON): what it reports, attributed to panes by the resource attribute that
/// every shell is started with.
pub fn parse_metrics(request: &Value) -> (r: Vec<MetricUpdate>)
    ensures
        update_views(r@) == reported(json::json_of(*request)),
{
    let mut out: Vec<MetricUpdate> = Vec::new();
    assert(update_views(out@) =~= seq![]);
    let resources: &Vec<Value> = match list_in(request, "resourceMetrics") {
        Some(a) => a,
        None => {
            return out;
        },
    };
    let ghost all = docs(resources@);
    let n: usize = resources.len();
    let mut i: usize = 0;
    assert(update_views(out@) =~= resource_updates(all.take(0)));
    while i < n
        invariant
            i <= n,
            n == resources.len(),
            all == docs(resources@),
            update_views(out@) == resource_updates(all.take(i as int)),
        decreases n - i,
    {
        let rm: &Value = &resources[i];
        proof {
            assert(all.take(i + 1).drop_last() =~= all.take(i as int));
            assert(all.take(i + 1).last() == json::json_of(*rm));
        }
        let attrs: Option<&Value> = match get(rm, "resource") {
            Some(r) => get(r, "attributes"),
            None => None,
        };
        let pane: usize = match attr_int(attrs, "gridterm.pane") {
            Some(n) => n as usize,
            None => 0,
        };
        assert(pane == resource_pane(json::json_of(*rm)));
        let ghost mid = update_views(out@);
        match list_in(rm, "scopeMetrics") {
            Some(scopes) => read_scopes(&mut out, pane, scopes),
            None => {},
        }
        proof {
            assert(update_views(out@) =~= mid + scope_updates(
                pane,
                items(json::member(json::json_of(*rm), "scopeMetrics"@)),
            ));
        }
        i = i + 1;
    }
    assert(all.take(n as int) =~= all);
    out
}

/// Reads the body of a request that was posted: what the document in it
/// reports, and nothing where it holds none.
pub fn read_report(body: &str) -> (r: Vec<MetricUpdate>)
    ensures
        update_views(r@) == (match json::parsed(body@) {
            Some(j) => reported(j),
            None => Seq::<UpdateView>::empty(),
        }),
{
    match parse(body) {
        Ok(request) => parse_metrics(&request),
        Err(_) => {
            let r: Vec<MetricUpdate> = Vec::new();
            assert(update_views(r@) =~= Seq::<UpdateView>::empty());
            r
        },
    }
}

/// Metrics of two requests that are sent as one report what the two report, one
/// after the other.
pub proof fn law_requests_can_be_joined(a: Seq<Json>, b: Seq<Json>)
    ensures
        resource_updates(a + b) == resource_updates(a) + resource_updates(b),
    decreases b.len(),
{
    if b.len() == 0 {
        assert(a + b =~= a);
        assert(resource_updates(a) + resource_updates(b) =~= resource_updates(a));
    } else {
        law_requests_can_be_joined(a, b.drop_last());
        assert((a + b).drop_last() =~= a + b.drop_last());
        assert((a + b).last() == b.last());
        assert(resource_updates(a + b) =~= resource_updates(a) + resource_updates(b));
    }
}

/// Whether metrics of this name count here: those about tokens and those about
/// costs.
proof fn lemma_names_that_count(name: Seq<char>, attrs: Seq<Json>)
    ensures
        measure_of(name, attrs) is Some <==> text::has_text(name, "token"@) || text::has_text(
            name,
            "cost"@,
        ),
{
    reveal_strlit("claude_code.token.usage");
    reveal_strlit("claude_code.token.usage.tokens");
    reveal_strlit("claude_code.cost.usage");
    reveal_strlit("claude_code.cost.usage.USD");
    reveal_strlit("token");
    reveal_strlit("cost");
    let t = "token"@;
    let c = "cost"@;
    let a = "claude_code.token.usage"@;
    let b = "claude_code.token.usage.tokens"@;
    let d = "claude_code.cost.usage"@;
    let e = "claude_code.cost.usage.USD"@;
    assert(a.subrange(12, 17) =~= t);
    assert(b.subrange(12, 17) =~= t);
    assert(d.subrange(12, 16) =~= c);
    assert(e.subrange(12, 16) =~= c);
    assert(text::occurs_at(a, t, 12));
    assert(text::occurs_at(b, t, 12));
    assert(text::occurs_at(d, c, 12));
    assert(text::occurs_at(e, c, 12));
}

/// No data point is lost: of a metric whose name is about tokens or costs, each
/// data point gives exactly one update, in their order, for the pane, with its
/// own value; of any other metric none does.
pub proof fn law_every_data_point_counts(pane: usize, name: Seq<char>, dps: Seq<Json>, i: int)
    ensures
        text::has_text(name, "token"@) || text::has_text(name, "cost"@) ==> {
            &&& point_updates(pane, name, dps).len() == dps.len()
            &&& 0 <= i < dps.len() ==> {
                let u = point_updates(pane, name, dps)[i];
                &&& u.pane == pane
                &&& u.value == point_value(dps[i])
                &&& measure_of(name, items(json::member(dps[i], "attributes"@))) == Some(u.measure)
                &&& u.model == (match text_attr(
                    items(json::member(dps[i], "attributes"@)),
                    "model"@,
                ) {
                    Some(m) => m,
                    None => seq![],
                })
            }
        },
        !(text::has_text(name, "token"@) || text::has_text(name, "cost"@)) ==> point_updates(
            pane,
            name,
            dps,
        ).len() == 0,
    decreases dps.len(),
{
    if dps.len() > 0 {
        lemma_names_that_count(name, items(json::member(dps.last(), "attributes"@)));
        law_every_data_point_counts(pane, name, dps.drop_last(), i);
        law_every_data_point_counts(pane, name, dps.drop_last(), 0);
    }
}

/// What data points report comes one behind the other.
pub proof fn law_data_points_can_be_joined(
    pane: usize,
    name: Seq<char>,
    a: Seq<Json>,
    b: Seq<Json>,
)
    ensures
        point_updates(pane, name, a + b) == point_updates(pane, name, a) + point_updates(
            pane,
            name,
            b,
        ),
    decreases b.len(),
{
    if b.len() == 0 {
        assert(a + b =~= a);
        assert(point_updates(pane, name, a) + point_updates(pane, name, b) =~= point_updates(
            pane,
            name,
            a,
        ));
    } else {
        law_data_points_can_be_joined(pane, name, a, b.drop_last());
        assert((a + b).drop_last() =~= a + b.drop_last());
        assert((a + b).last() == b.last());
        assert(point_updates(pane, name, a + b) =~= point_updates(pane, name, a) + point_updates(
            pane,
            name,
            b,
        ));
    }
}

/// All metrics of all scopes of all resources of a request count, in their
/// order: what several report is what each reports, one behind the other.
pub proof fn law_every_metric_counts(pane: usize, a: Seq<Json>, b: Seq<Json>, j: Json)
    ensures
        metric_updates(pane, a + b) == metric_updates(pane, a) + metric_updates(pane, b),
        metric_updates(pane, seq![j]) == point_updates(pane, metric_name(j), data_points(j)),
        scope_updates(pane, a + b) == scope_updates(pane, a) + scope_updates(pane, b),
        scope_updates(pane, seq![j]) == metric_updates(pane, items(json::member(j, "metrics"@))),
        resource_updates(seq![j]) == scope_updates(
            resource_pane(j),
            items(json::member(j, "scopeMetrics"@)),
        ),
    decreases b.len(),
{
    let e = Seq::<Json>::empty();
    let none = Seq::<UpdateView>::empty();
    assert(seq![j].drop_last() =~= e);
    assert(metric_updates(pane, e) == none && scope_updates(pane, e) == none && resource_updates(e)
        == none);
    assert(metric_updates(pane, seq![j]) == metric_updates(pane, seq![j].drop_last())
        + point_updates(pane, metric_name(j), data_points(j)));
    assert(scope_updates(pane, seq![j]) == scope_updates(pane, seq![j].drop_last())
        + metric_updates(pane, items(json::member(j, "metrics"@))));
    assert(resource_updates(seq![j]) == resource_updates(seq![j].drop_last()) + scope_updates(
        resource_pane(j),
        items(json::member(j, "scopeMetrics"@)),
    ));
    assert(metric_updates(pane, seq![j]) =~= point_updates(pane, metric_name(j), data_points(j)));
    assert(scope_updates(pane, seq![j]) =~= metric_updates(
        pane,
        items(json::member(j, "metrics"@)),
    ));
    assert(resource_updates(seq![j]) =~= scope_updates(
        resource_pane(j),
        items(json::member(j, "scopeMetrics"@)),
    ));
    if b.len() == 0 {
        assert(a + b =~= a);
        assert(metric_updates(pane, a) + metric_updates(pane, b) =~= metric_updates(pane, a));
        assert(scope_updates(pane, a) + scope_updates(pane, b) =~= scope_updates(pane, a));
    } else {
        law_every_metric_counts(pane, a, b.drop_last(), j);
        assert((a + b).drop_last() =~= a + b.drop_last());
        assert((a + b).last() == b.last());
        assert(metric_updates(pane, a + b) =~= metric_updates(pane, a) + metric_updates(pane, b));
        assert(scope_updates(pane, a + b) =~= scope_updates(pane, a) + scope_updates(pane, b));
    }
}

/// An attribute is the first of its key: others before it do not count, nor does
/// what comes behind it; where there is none of the key, there is none.
pub proof fn law_the_first_attribute_counts(
    before: Seq<Json>,
    attr: Json,
    after: Seq<Json>,
    key: Seq<char>,
)
    requires
        forall|i: int| 0 <= i < before.len() ==> !has_key(#[trigger] before[i], key),
        has_key(attr, key),
    ensures
        text_attr(before + seq![attr] + after, key) == text_attr(seq![attr], key),
        text_attr(before, key) is None,
        int_attr(before, key) is None,
        json::member_of(json::member(attr, "value"@), "stringValue"@) matches Some(
            Json::Text(s),
        ) ==> text_attr(seq![attr], key) == Some(s),
        json::member_of(json::member(attr, "value"@), "intValue"@) matches Some(j) ==> {
            &&& json::int_of(j) matches Some(n) ==> int_attr(before + seq![attr] + after, key)
                == Some(n)
            &&& j matches Json::Text(s) ==> int_attr(before + seq![attr] + after, key)
                == text::small_integer(s)
        },
    decreases before.len(),
{
    let all = before + seq![attr] + after;
    if before.len() > 0 {
        let b = before.skip(1);
        assert forall|i: int| 0 <= i < b.len() implies !has_key(#[trigger] b[i], key) by {
            assert(b[i] == before[i + 1]);
        }
        law_the_first_attribute_counts(b, attr, after, key);
        assert(all.skip(1) =~= b + seq![attr] + after);
        assert(all[0] == before[0]);
    } else {
        assert(all[0] == attr);
    }
}

/// What an agent calls output is counted as output, what it calls read from or
/// put into a cache as that, and everything else as input; so it is under the
/// general names, where a completion is output too.
pub proof fn law_kinds_of_tokens(kind: Seq<char>)
    ensures
        known_kind(Some("input"@)) == TokenKind::Input,
        known_kind(Some("output"@)) == TokenKind::Output,
        known_kind(Some("cacheRead"@)) == TokenKind::CacheRead,
        known_kind(Some("cacheCreation"@)) == TokenKind::CacheCreation,
        known_kind(None) == TokenKind::Input,
        generic_kind(Some("input"@)) == TokenKind::Input,
        generic_kind(Some("prompt"@)) == TokenKind::Input,
        generic_kind(Some("output"@)) == TokenKind::Output,
        generic_kind(Some("completion"@)) == TokenKind::Output,
        generic_kind(Some("cacheRead"@)) == TokenKind::CacheRead,
        generic_kind(None) == TokenKind::Input,
        known_kind(Some(kind)) == TokenKind::Output ==> kind == "output"@,
        known_kind(Some(kind)) == TokenKind::CacheRead ==> kind == "cacheRead"@,
        known_kind(Some(kind)) == TokenKind::CacheCreation ==> kind == "cacheCreation"@,
{
    reveal_strlit("input");
    reveal_strlit("prompt");
    reveal_strlit("output");
    reveal_strlit("completion");
    reveal_strlit("cacheRead");
    reveal_strlit("cacheCreation");
    assert("input"@.len() == 5 && "prompt"@.len() == 6 && "output"@.len() == 6
        && "completion"@.len() == 10 && "cacheRead"@.len() == 9 && "cacheCreation"@.len() == 13);
    assert("prompt"@[0] == 'p' && "output"@[0] == 'o');
}

/// Metrics about costs are costs and those about tokens are tokens, whatever
/// else their names say.
pub proof fn law_names_say_what_is_measured(name: Seq<char>, attrs: Seq<Json>)
    ensures
        measure_of(name, attrs) is Some <==> text::has_text(name, "token"@) || text::has_text(
            name,
            "cost"@,
        ),
        text::has_text(name, "cost"@) && !text::has_text(name, "token"@) ==> measure_of(name, attrs)
            == Some(Measure::Cost),
        text::has_text(name, "token"@) && !text::has_text(name, "cost"@) ==> measure_of(
            name,
            attrs,
        ) matches Some(Measure::Tokens(_)),
        measure_of("claude_code.token.usage"@, attrs) == Some(
            Measure::Tokens(known_kind(text_attr(attrs, "type"@))),
        ),
        measure_of("claude_code.cost.usage"@, attrs) == Some(Measure::Cost),
{
    lemma_names_that_count(name, attrs);
    reveal_strlit("claude_code.token.usage");
    reveal_strlit("claude_code.token.usage.tokens");
    reveal_strlit("claude_code.cost.usage");
    reveal_strlit("claude_code.cost.usage.USD");
    reveal_strlit("token");
    reveal_strlit("cost");
    assert("claude_code.token.usage"@[12] == 't');
    assert("claude_code.cost.usage"@[12] == 'c');
    assert("claude_code.token.usage.tokens"@[12] == 't');
    assert("claude_code.cost.usage.USD"@[12] == 'c');
    let t = "token"@;
    let c = "cost"@;
    assert("claude_code.token.usage"@.subrange(12, 17) =~= t);
    assert("claude_code.token.usage.tokens"@.subrange(12, 17) =~= t);
    assert("claude_code.cost.usage"@.subrange(12, 16) =~= c);
    assert("claude_code.cost.usage.USD"@.subrange(12, 16) =~= c);
    assert(text::occurs_at("claude_code.token.usage"@, t, 12));
    assert(text::occurs_at("claude_code.token.usage.tokens"@, t, 12));
    assert(text::occurs_at("claude_code.cost.usage"@, c, 12));
    assert(text::occurs_at("claude_code.cost.usage.USD"@, c, 12));
}

/// A count of tokens is what was reported, as a number or as digits, as long as
/// it fits a double-precision number; there are none below zero.
pub proof fn law_counts_are_taken_as_reported(n: u64)
    ensures
        n < rounding::LIMIT ==> token_amount(ValueView::Whole(n as i64)) == Some(n as nat),
        n < rounding::LIMIT ==> token_amount(ValueView::Digits(text::decimal(n as nat))) == Some(
            n as nat,
        ),
        token_amount(ValueView::Whole((-(n / 2)) as i64)) == Some(0nat),
        token_amount(ValueView::Missing) == Some(0nat),
{
    text::lemma_decimal_read_back(n as nat);
    if n < rounding::LIMIT {
        rounding::law_small_counts_are_exact(n as nat);
    }
}

/// The value of a data point is its integer, as it is written, or else its
/// number.
pub proof fn law_values_are_taken_as_written(dp: Json)
    ensures
        json::member(dp, "asInt"@) matches Some(j) ==> {
            &&& json::int_of(j) matches Some(n) ==> point_value(dp) == ValueView::Whole(n)
            &&& j matches Json::Text(s) ==> point_value(dp) == ValueView::Digits(s)
        },
        json::member(dp, "asInt"@) is None ==> point_value(dp) == (match json::member(
            dp,
            "asDouble"@,
        ) {
            Some(d) => ValueView::Number(d),
            None => ValueView::Missing,
        }),
{
}

/// The data points of a metric are those of its sum or, where it has none, of
/// its gauge, all of them; and a resource is for the pane that its tag names, or
/// else for the first.
pub proof fn law_metrics_are_opened(metric: Json, resource: Json)
    ensures
        json::member(metric, "name"@) matches Some(Json::Text(s)) ==> metric_name(metric) == s,
        json::member(metric, "sum"@) matches Some(h) ==> (json::member(h, "dataPoints"@) matches Some(
            Json::Array(a),
        ) ==> data_points(metric) == a),
        json::member(metric, "sum"@) is None ==> (json::member(metric, "gauge"@) matches Some(h)
            ==> (json::member(h, "dataPoints"@) matches Some(Json::Array(a)) ==> data_points(metric)
            == a)),
        ({
            let attrs = items(
                json::member_of(json::member(resource, "resource"@), "attributes"@),
            );
            &&& int_attr(attrs, "gridterm.pane"@) matches Some(n) ==> (n >= 0 && n <= usize::MAX
                ==> resource_pane(resource) == n)
            &&& int_attr(attrs, "gridterm.pane"@) is None ==> resource_pane(resource) == 0
        }),
{
}

/// A report is read through its resources, and a list is all of its items.
pub proof fn law_reports_are_opened(request: Json, list: Seq<Json>, other: Json)
    ensures
        json::member(request, "resourceMetrics"@) == Some(Json::Array(list)) ==> reported(request)
            == resource_updates(list),
        json::member(request, "resourceMetrics"@) is None ==> reported(request).len() == 0,
        items(Some(Json::Array(list))) == list,
        !(other is Array) ==> items(Some(other)).len() == 0,
        items(None).len() == 0,
{
}

/// The kind of a token that another program reports: by its own attribute first,
/// else by the common one.
pub proof fn law_kinds_of_other_programs(name: Seq<char>, attrs: Seq<Json>, kind: Seq<char>)
    requires
        text::has_text(name, "token"@),
        name != "claude_code.token.usage"@,
        name != "claude_code.token.usage.tokens"@,
        name != "claude_code.cost.usage"@,
        name != "claude_code.cost.usage.USD"@,
    ensures
        text_attr(attrs, "gen_ai.token.type"@) == Some(kind) ==> measure_of(name, attrs) == Some(
            Measure::Tokens(generic_kind(Some(kind))),
        ),
        text_attr(attrs, "gen_ai.token.type"@) is None && text_attr(attrs, "type"@) == Some(kind)
            ==> measure_of(name, attrs) == Some(Measure::Tokens(generic_kind(Some(kind)))),
        text_attr(attrs, "gen_ai.token.type"@) is None && text_attr(attrs, "type"@) is None
            ==> measure_of(name, attrs) == Some(Measure::Tokens(TokenKind::Input)),
        generic_kind(Some(kind)) == TokenKind::Output ==> kind == "output"@ || kind
            == "completion"@,
        generic_kind(Some(kind)) == TokenKind::CacheRead ==> kind == "cacheRead"@,
        generic_kind(Some(kind)) != TokenKind::CacheCreation,
{
}

/// A number may be given as text; an attribute without a value has none, whatever
/// follows it.
pub proof fn law_numbers_may_be_text(
    attr: Json,
    after: Seq<Json>,
    key: Seq<char>,
    value: Json,
    s: Seq<char>,
)
    requires
        has_key(attr, key),
    ensures
        ({
            let attrs = seq![attr] + after;
            &&& json::member(attr, "value"@) == Some(value) && json::member(value, "intValue"@)
                is None && json::member(value, "stringValue"@) == Some(Json::Text(s)) ==> int_attr(
                attrs,
                key,
            ) == text::small_integer(s)
            &&& json::member(attr, "value"@) is None ==> int_attr(attrs, key) is None && text_attr(
                attrs,
                key,
            ) is None
            &&& json::member(attr, "value"@) == Some(value) && json::member(value, "intValue"@)
                is None && json::member(value, "stringValue"@) is None ==> int_attr(attrs, key)
                == int_attr(after, key) && text_attr(attrs, key) is None
        }),
        json::member(attr, "key"@) == Some(Json::Text(key)),
{
    let attrs = seq![attr] + after;
    assert(attrs[0] == attr);
    assert(attrs.skip(1) =~= after);
}

/// However great a count is, what is taken for it is as near as 53 binary digits
/// allow, and it never is more than a count can be. What is no count is not
/// taken for one.
pub proof fn law_great_counts_are_taken(n: u64, k: i64, s: Seq<char>, j: Json)
    requires
        k > 0,
    ensures
        token_amount(ValueView::Digits(text::decimal(n as nat))) matches Some(a) && (a - n)
            * rounding::LIMIT <= n && (n - a) * rounding::LIMIT <= n && a <= u64::MAX,
        token_amount(ValueView::Whole(k)) matches Some(a) && (a - k) * rounding::LIMIT <= k && (k
            - a) * rounding::LIMIT <= k && a <= u64::MAX,
        text::natural(s) is None ==> token_amount(ValueView::Digits(s)) is None,
        token_amount(ValueView::Number(j)) is None,
{
    text::lemma_decimal_read_back(n as nat);
    rounding::law_rounding_is_close(n as nat);
    rounding::law_rounding_is_close(k as nat);
    let a = whole_amount(n as int);
    let r = rounding::rounded(n as nat);
    if n == 0 {
        assert(0 * rounding::LIMIT == 0);
    } else if a != r {
        let l = rounding::LIMIT as int;
        assert((a - n) * l <= (r - n) * l) by (nonlinear_arith)
            requires
                a <= r,
                l >= 0,
        ;
        assert((n - a) * l <= 0) by (nonlinear_arith)
            requires
                n <= a,
                l >= 0,
        ;
    }
    let b = whole_amount(k as int);
    let q = rounding::rounded(k as nat);
    if b != q {
        let l = rounding::LIMIT as int;
        assert((b - k) * l <= (q - k) * l) by (nonlinear_arith)
            requires
                b <= q,
                l >= 0,
        ;
        assert((k - b) * l <= 0) by (nonlinear_arith)
            requires
                k <= b,
                l >= 0,
        ;
    }
}

} // verus!
