//! What the coding agents in the panes use up: tokens by pane and kind, and how
//! that is reported. Amounts of money are the caller's: they come here as they
//! are to be shown.

use vstd::prelude::*;

use crate::text;
use crate::text::{contains_text, push_decimal, to_chars, to_lowercase};
use crate::ui;
use crate::ui::number_after_closing;

pub mod collector;

verus! {

/// How a given agent/session is billed.
#[derive(Clone, Copy, Debug, PartialEq, Eq, Structural)]
pub enum BillingMode {
    /// Pay-per-token (API key): we can show real dollars.
    Api,
    /// Subscription/quota: show tokens, not dollars.
    Subscription,
}

/// What a number of tokens was used for.
#[derive(Clone, Copy, Debug, PartialEq, Eq, Structural)]
pub enum TokenKind {
    Input,
    Output,
    CacheRead,
    CacheCreation,
}

/// Accumulated usage for one agent session.
pub struct SessionUsage {
    pub input_tokens: u64,
    pub output_tokens: u64,
    pub cache_read_tokens: u64,
    pub cache_creation_tokens: u64,
    /// Most recent model seen for this session.
    pub model: String,
}

/// What a [`SessionUsage`] holds.
pub ghost struct UsageView {
    pub input: nat,
    pub output: nat,
    pub cache_read: nat,
    pub cache_creation: nat,
    pub model: Seq<char>,
}

impl View for SessionUsage {
    type V = UsageView;

    open spec fn view(&self) -> UsageView {
        UsageView {
            input: self.input_tokens as nat,
            output: self.output_tokens as nat,
            cache_read: self.cache_read_tokens as nat,
            cache_creation: self.cache_creation_tokens as nat,
            model: self.model@,
        }
    }
}

impl Clone for SessionUsage {
    fn clone(&self) -> (r: Self)
        ensures
            r@ == self@,
    {
        SessionUsage {
            input_tokens: self.input_tokens,
            output_tokens: self.output_tokens,
            cache_read_tokens: self.cache_read_tokens,
            cache_creation_tokens: self.cache_creation_tokens,
            model: self.model.clone(),
        }
    }
}

impl UsageView {
    /// Nothing used yet.
    pub open spec fn nothing() -> UsageView {
        UsageView { input: 0, output: 0, cache_read: 0, cache_creation: 0, model: seq![] }
    }

    /// How many tokens of a kind were used.
    pub open spec fn of(self, kind: TokenKind) -> nat {
        match kind {
            TokenKind::Input => self.input,
            TokenKind::Output => self.output,
            TokenKind::CacheRead => self.cache_read,
            TokenKind::CacheCreation => self.cache_creation,
        }
    }

    /// How many tokens count: those created in a cache do not.
    pub open spec fn total(self) -> nat {
        self.input + self.output + self.cache_read
    }

    /// The usage with the model that was seen last, where one was named.
    pub open spec fn seen(self, model: Seq<char>) -> UsageView {
        if model.len() > 0 {
            UsageView { model, ..self }
        } else {
            self
        }
    }

    /// The usage with more tokens of a kind.
    pub open spec fn plus(self, kind: TokenKind, amount: nat) -> UsageView {
        match kind {
            TokenKind::Input => UsageView { input: self.input + amount, ..self },
            TokenKind::Output => UsageView { output: self.output + amount, ..self },
            TokenKind::CacheRead => UsageView { cache_read: self.cache_read + amount, ..self },
            TokenKind::CacheCreation => UsageView {
                cache_creation: self.cache_creation + amount,
                ..self
            },
        }
    }
}

impl SessionUsage {
    /// Nothing used yet.
    pub fn new() -> (r: Self)
        ensures
            r@ == UsageView::nothing(),
    {
        let r = SessionUsage {
            input_tokens: 0,
            output_tokens: 0,
            cache_read_tokens: 0,
            cache_creation_tokens: 0,
            model: String::new(),
        };
        assert(r.model@ =~= seq![]);
        r
    }

    /// How many tokens count.
    pub fn total_tokens(&self) -> (r: u64)
        requires
            self@.total() <= u64::MAX,
        ensures
            r == self@.total(),
    {
        self.input_tokens + self.output_tokens + self.cache_read_tokens
    }

    /// How many tokens of a kind were used.
    pub fn tokens(&self, kind: TokenKind) -> (r: u64)
        ensures
            r == self@.of(kind),
    {
        match kind {
            TokenKind::Input => self.input_tokens,
            TokenKind::Output => self.output_tokens,
            TokenKind::CacheRead => self.cache_read_tokens,
            TokenKind::CacheCreation => self.cache_creation_tokens,
        }
    }

    fn see(&mut self, model: &str)
        ensures
            final(self)@ == old(self)@.seen(model@),
    {
        if !model.is_empty() {
            self.model = model.to_owned();
        }
    }

    fn add_amount(&mut self, kind: TokenKind, amount: u64)
        requires
            old(self)@.of(kind) + amount <= u64::MAX,
        ensures
            final(self)@ == old(self)@.plus(kind, amount as nat),
    {
        match kind {
            TokenKind::Input => {
                self.input_tokens = self.input_tokens + amount;
            },
            TokenKind::Output => {
                self.output_tokens = self.output_tokens + amount;
            },
            TokenKind::CacheRead => {
                self.cache_read_tokens = self.cache_read_tokens + amount;
            },
            TokenKind::CacheCreation => {
                self.cache_creation_tokens = self.cache_creation_tokens + amount;
            },
        }
    }
}

/// Per-model pricing in cents (of USD) per 1M tokens.
#[derive(Clone, Copy, Debug, PartialEq, Eq, Structural)]
pub struct Price {
    pub input: u32,
    pub output: u32,
    pub cache_read: u32,
}

/// The price of a model, by its name in lowercase; none for an unknown one.
pub open spec fn price(lowered: Seq<char>) -> Option<Price> {
    if text::has_text(lowered, "opus"@) {
        Some(Price { input: 1500, output: 7500, cache_read: 150 })
    } else if text::has_text(lowered, "sonnet"@) {
        Some(Price { input: 300, output: 1500, cache_read: 30 })
    } else if text::has_text(lowered, "haiku"@) {
        Some(Price { input: 80, output: 400, cache_read: 8 })
    } else if text::has_text(lowered, "gpt-5"@) || text::has_text(lowered, "codex"@) {
        Some(Price { input: 125, output: 1000, cache_read: 13 })
    } else if text::has_text(lowered, "o3"@) || text::has_text(lowered, "o4"@) {
        Some(Price { input: 200, output: 800, cache_read: 50 })
    } else {
        None
    }
}

fn names(v: &Vec<char>, part: &str) -> (r: bool)
    ensures
        r == text::has_text(v@, part@),
{
    let p: Vec<char> = to_chars(part);
    contains_text(v, &p)
}

/// The price of a model, by its name in lowercase.
pub fn price_of_lowered(lowered: &str) -> (r: Option<Price>)
    ensures
        r == price(lowered@),
{
    let v: Vec<char> = to_chars(lowered);
    if names(&v, "opus") {
        Some(Price { input: 1500, output: 7500, cache_read: 150 })
    } else if names(&v, "sonnet") {
        Some(Price { input: 300, output: 1500, cache_read: 30 })
    } else if names(&v, "haiku") {
        Some(Price { input: 80, output: 400, cache_read: 8 })
    } else if names(&v, "gpt-5") || names(&v, "codex") {
        Some(Price { input: 125, output: 1000, cache_read: 13 })
    } else if names(&v, "o3") || names(&v, "o4") {
        Some(Price { input: 200, output: 800, cache_read: 50 })
    } else {
        None
    }
}

/// Looks up a price sheet entry by (fuzzy) model name. Returns `None` for
/// unknown models (the cost that the agent reports is then all there is).
pub fn price_for(model: &str) -> (r: Option<Price>)
    ensures
        r == price(text::lowercase(model@)),
{
    price_of_lowered(to_lowercase(model).as_str())
}

/// The usage of one pane.
pub struct PaneUsage {
    pub pane: usize,
    pub usage: SessionUsage,
}

/// Usage by pane, in the order of the panes, and how panes are billed.
pub struct UsageStore {
    panes: Vec<PaneUsage>,
    modes: Vec<(usize, BillingMode)>,
}

/// The usage of the panes in a list, by pane.
pub open spec fn usages(panes: Seq<PaneUsage>) -> Map<usize, UsageView>
    decreases panes.len(),
{
    if panes.len() == 0 {
        Map::empty()
    } else {
        usages(panes.drop_last()).insert(panes.last().pane, panes.last().usage@)
    }
}

/// How the panes in a list are billed; the later entries count.
pub open spec fn billing(modes: Seq<(usize, BillingMode)>) -> Map<usize, BillingMode>
    decreases modes.len(),
{
    if modes.len() == 0 {
        Map::empty()
    } else {
        billing(modes.drop_last()).insert(modes.last().0, modes.last().1)
    }
}

/// Whether a list of panes has each once, in their order.
pub open spec fn in_order(panes: Seq<PaneUsage>) -> bool {
    forall|i: int, j: int| 0 <= i < j < panes.len() ==> panes[i].pane < panes[j].pane
}

/// A list in order has one entry for each pane.
proof fn lemma_usages(panes: Seq<PaneUsage>, pane: usize)
    requires
        in_order(panes),
    ensures
        usages(panes).contains_key(pane) <==> exists|i: int|
            0 <= i < panes.len() && (#[trigger] panes[i]).pane == pane,
        forall|i: int|
            0 <= i < panes.len() && (#[trigger] panes[i]).pane == pane ==> usages(panes)[pane]
                == panes[i].usage@,
    decreases panes.len(),
{
    if panes.len() > 0 {
        let init = panes.drop_last();
        lemma_usages(init, pane);
        assert forall|i: int| 0 <= i < init.len() implies init[i] == panes[i] by {}
        if usages(init).contains_key(pane) {
            let i = choose|i: int| 0 <= i < init.len() && (#[trigger] init[i]).pane == pane;
            assert(panes[i].pane == pane);
        }
        if panes.last().pane == pane {
            assert(panes[panes.len() - 1].pane == pane);
        }
        assert forall|i: int|
            0 <= i < panes.len() && (#[trigger] panes[i]).pane == pane implies usages(panes)[pane]
            == panes[i].usage@ by {
            if i < init.len() {
                assert(init[i].pane == pane);
            }
        }
        if exists|i: int| 0 <= i < panes.len() && (#[trigger] panes[i]).pane == pane {
            let i = choose|i: int| 0 <= i < panes.len() && (#[trigger] panes[i]).pane == pane;
            if i < init.len() {
                assert(init[i].pane == pane);
            }
        }
    }
}

/// The new number of a pane where the last of `cols` columns of `panes` panes is
/// closed.
pub open spec fn moved(pane: usize, panes: usize, cols: usize) -> usize {
    ui::number_after(pane as int, panes as int, cols as int) as usize
}

/// Whether `new` has, under the new numbers, what `old` has, and nothing else.
pub open spec fn renumbered<V>(
    old: Map<usize, V>,
    new: Map<usize, V>,
    panes: usize,
    cols: usize,
) -> bool {
    &&& forall|p: usize|
        #![trigger moved(p, panes, cols)]
        (new.contains_key(moved(p, panes, cols)) <==> old.contains_key(p)) && (old.contains_key(p)
            ==> new[moved(p, panes, cols)] == old[p])
    &&& forall|q: usize| #[trigger]
        new.contains_key(q) ==> exists|p: usize|
            old.contains_key(p) && #[trigger] moved(p, panes, cols) == q
}

proof fn lemma_moved_apart(p: usize, q: usize, panes: usize, cols: usize)
    requires
        cols > 1,
        moved(p, panes, cols) == moved(q, panes, cols),
    ensures
        p == q,
{
    ui::lemma_number_after(p as int, panes as int, cols as int);
    ui::lemma_number_after(q as int, panes as int, cols as int);
    ui::law_numbers_stay_apart(p as int, q as int, panes as int, cols as int);
}

/// What is added on both sides keeps them alike.
proof fn lemma_renumbered<V>(
    old: Map<usize, V>,
    new: Map<usize, V>,
    panes: usize,
    cols: usize,
    pane: usize,
    v: V,
)
    requires
        cols > 1,
        renumbered(old, new, panes, cols),
    ensures
        renumbered(old.insert(pane, v), new.insert(moved(pane, panes, cols), v), panes, cols),
{
    let o = old.insert(pane, v);
    let n = new.insert(moved(pane, panes, cols), v);
    assert forall|p: usize|
        #![trigger moved(p, panes, cols)]
        (n.contains_key(moved(p, panes, cols)) <==> o.contains_key(p)) && (o.contains_key(p)
            ==> n[moved(p, panes, cols)] == o[p]) by {
        if moved(p, panes, cols) == moved(pane, panes, cols) {
            lemma_moved_apart(p, pane, panes, cols);
        }
    }
    assert forall|q: usize| #[trigger] n.contains_key(q) implies exists|p: usize|
        o.contains_key(p) && #[trigger] moved(p, panes, cols) == q by {
        if q == moved(pane, panes, cols) {
            assert(o.contains_key(pane));
        } else {
            assert(new.contains_key(q));
            let p = choose|p: usize|
                old.contains_key(p) && #[trigger] moved(p, panes, cols) == q;
            assert(o.contains_key(p));
        }
    }
}

/// The name of a model as it is shown.
pub open spec fn shown_model(model: Seq<char>) -> Seq<char> {
    if model.len() == 0 {
        "?"@
    } else {
        model
    }
}

/// The line of a report for one pane, whose cost is shown as `cost`.
pub open spec fn report_line(
    pane: nat,
    u: UsageView,
    mode: BillingMode,
    cost: Seq<char>,
) -> Seq<char> {
    let head = "pane "@ + text::decimal(pane) + " ["@ + shown_model(u.model) + "]: "@;
    match mode {
        BillingMode::Api => head + "$"@ + cost + "  (in "@ + text::decimal(u.input) + ", out "@
            + text::decimal(u.output) + ", cache "@ + text::decimal(u.cache_read) + " tokens)\n"@,
        BillingMode::Subscription => head + "subscription — "@ + text::decimal(u.total())
            + " tokens (in "@ + text::decimal(u.input) + ", out "@ + text::decimal(u.output)
            + ")\n"@,
    }
}

/// The lines of a report for the first `n` panes of a list.
pub open spec fn report_lines(
    panes: Seq<PaneUsage>,
    modes: Map<usize, BillingMode>,
    costs: Seq<Seq<char>>,
    n: int,
) -> Seq<char>
    decreases n,
{
    if n <= 0 {
        seq![]
    } else {
        report_lines(panes, modes, costs, n - 1) + report_line(
            panes[n - 1].pane as nat,
            panes[n - 1].usage@,
            mode_in(modes, panes[n - 1].pane),
            costs[n - 1],
        )
    }
}

/// How a pane is billed: by token, where nothing else is said.
pub open spec fn mode_in(modes: Map<usize, BillingMode>, pane: usize) -> BillingMode {
    if modes.contains_key(pane) {
        modes[pane]
    } else {
        BillingMode::Api
    }
}

/// The panes of a list that are billed by token, in their order.
pub open spec fn billed(panes: Seq<PaneUsage>, modes: Map<usize, BillingMode>) -> Seq<usize> {
    panes.map_values(|p: PaneUsage| p.pane).filter(
        |p: usize| mode_in(modes, p) == BillingMode::Api,
    )
}

/// What is reported where no agent used anything yet.
pub const NO_USAGE: &'static str =
    "No agent usage captured yet. (Telemetry is auto-enabled for Codex and other coding agents started inside gridterm panes.)";

fn report_row(pane: usize, u: &SessionUsage, mode: BillingMode, cost: &str) -> (r: String)
    requires
        u@.total() <= u64::MAX,
    ensures
        r@ == report_line(pane as nat, u@, mode, cost@),
{
    let mut r: String = "pane ".to_owned();
    push_decimal(&mut r, pane as u128);
    r.append(" [");
    if u.model.as_str().is_empty() {
        r.append("?");
    } else {
        r.append(u.model.as_str());
    }
    r.append("]: ");
    match mode {
        BillingMode::Api => {
            r.append("$");
            r.append(cost);
            r.append("  (in ");
            push_decimal(&mut r, u.input_tokens as u128);
            r.append(", out ");
            push_decimal(&mut r, u.output_tokens as u128);
            r.append(", cache ");
            push_decimal(&mut r, u.cache_read_tokens as u128);
            r.append(" tokens)\n");
        },
        BillingMode::Subscription => {
            r.append("subscription — ");
            push_decimal(&mut r, u.total_tokens() as u128);
            r.append(" tokens (in ");
            push_decimal(&mut r, u.input_tokens as u128);
            r.append(", out ");
            push_decimal(&mut r, u.output_tokens as u128);
            r.append(")\n");
        },
    }
    r
}

impl UsageStore {
    /// The panes that have a usage, in their order.
    pub closed spec fn rows(self) -> Seq<PaneUsage> {
        self.panes@
    }

    /// How panes are billed.
    pub closed spec fn modes(self) -> Map<usize, BillingMode> {
        billing(self.modes@)
    }

    /// Usage by pane.
    pub open spec fn by_pane(self) -> Map<usize, UsageView> {
        usages(self.rows())
    }

    /// Whether each pane has one usage, in the order of the panes.
    pub open spec fn wf(self) -> bool {
        in_order(self.rows())
    }

    /// The usage of a pane, where there may be none yet.
    pub open spec fn used(self, pane: usize) -> UsageView {
        used_in(self.by_pane(), pane)
    }

    /// Nothing is used yet.
    pub fn new() -> (r: Self)
        ensures
            r.wf(),
            r.rows() == Seq::<PaneUsage>::empty(),
            r.by_pane() == Map::<usize, UsageView>::empty(),
            r.modes() == Map::<usize, BillingMode>::empty(),
    {
        let r = UsageStore { panes: Vec::new(), modes: Vec::new() };
        assert(r.panes@ =~= Seq::<PaneUsage>::empty());
        r
    }

    /// Where the usage of a pane is, or is to be.
    fn place(&self, pane: usize) -> (r: usize)
        requires
            self.wf(),
        ensures
            r <= self.panes.len(),
            forall|i: int| 0 <= i < r ==> (#[trigger] self.panes@[i]).pane < pane,
            forall|i: int| r <= i < self.panes.len() ==> (#[trigger] self.panes@[i]).pane >= pane,
    {
        let n: usize = self.panes.len();
        let mut i: usize = 0;
        while i < n && self.panes[i].pane < pane
            invariant
                i <= n,
                n == self.panes.len(),
                forall|j: int| 0 <= j < i ==> (#[trigger] self.panes@[j]).pane < pane,
            decreases n - i,
        {
            i = i + 1;
        }
        proof {
            if i < n {
                assert forall|j: int| i <= j < n implies (#[trigger] self.panes@[j]).pane
                    >= pane by {
                    if i < j {
                        assert(self.panes@[i as int].pane < self.panes@[j].pane);
                    }
                }
            }
        }
        i
    }

    /// Makes `usage` the usage of a pane.
    fn put(&mut self, at: usize, pane: usize, usage: SessionUsage)
        requires
            old(self).wf(),
            at <= old(self).panes.len(),
            forall|i: int| 0 <= i < at ==> (#[trigger] old(self).panes@[i]).pane < pane,
            forall|i: int|
                at <= i < old(self).panes.len() ==> (#[trigger] old(self).panes@[i]).pane >= pane,
        ensures
            final(self).wf(),
            final(self).by_pane() == old(self).by_pane().insert(pane, usage@),
            final(self).modes() == old(self).modes(),
    {
        let ghost before = self.panes@;
        if at < self.panes.len() && self.panes[at].pane == pane {
            self.panes.set(at, PaneUsage { pane, usage });
            assert(self.panes@ =~= before.update(at as int, PaneUsage { pane, usage }));
        } else {
            self.panes.insert(at, PaneUsage { pane, usage });
            assert(self.panes@ =~= before.insert(at as int, PaneUsage { pane, usage }));
        }
        proof {
            let after = self.panes@;
            assert(in_order(after));
            assert(after[at as int].pane == pane && after[at as int].usage@ == usage@);
            assert forall|k: usize|
                usages(after).contains_key(k) <==> usages(before).insert(
                    pane,
                    usage@,
                ).contains_key(k) by {
                lemma_usages(before, k);
                lemma_usages(after, k);
                if k != pane {
                    if usages(before).contains_key(k) {
                        let i = choose|i: int|
                            0 <= i < before.len() && (#[trigger] before[i]).pane == k;
                        if after.len() == before.len() || i < at {
                            assert(after[i] == before[i]);
                        } else {
                            assert(after[i + 1] == before[i]);
                        }
                    }
                    if usages(after).contains_key(k) {
                        let i = choose|i: int|
                            0 <= i < after.len() && (#[trigger] after[i]).pane == k;
                        if after.len() == before.len() || i < at {
                            assert(after[i] == before[i]);
                        } else {
                            assert(after[i] == before[i - 1]);
                        }
                    }
                }
            }
            assert forall|k: usize| usages(after).contains_key(k) implies usages(after)[k]
                == usages(before).insert(pane, usage@)[k] by {
                lemma_usages(before, k);
                lemma_usages(after, k);
                let i = choose|i: int| 0 <= i < after.len() && (#[trigger] after[i]).pane == k;
                if k != pane {
                    if after.len() == before.len() || i < at {
                        assert(after[i] == before[i]);
                    } else {
                        assert(after[i] == before[i - 1]);
                    }
                }
            }
            assert(usages(after) =~= usages(before).insert(pane, usage@));
        }
    }

    fn current(&self, at: usize, pane: usize) -> (r: SessionUsage)
        requires
            self.wf(),
            at <= self.panes.len(),
            forall|i: int| 0 <= i < at ==> (#[trigger] self.panes@[i]).pane < pane,
            forall|i: int|
                at <= i < self.panes.len() ==> (#[trigger] self.panes@[i]).pane >= pane,
        ensures
            r@ == self.used(pane),
    {
        proof {
            lemma_usages(self.panes@, pane);
        }
        if at < self.panes.len() && self.panes[at].pane == pane {
            self.panes[at].usage.clone()
        } else {
            proof {
                assert forall|i: int| 0 <= i < self.panes.len() implies (
                #[trigger] self.panes@[i]).pane != pane by {
                    if i > at {
                        assert(self.panes@[at as int].pane < self.panes@[i].pane);
                    }
                }
            }
            SessionUsage::new()
        }
    }

    /// Records token usage for a pane (called by the collector).
    pub fn add_tokens(&mut self, pane: usize, model: &str, kind: TokenKind, amount: u64)
        requires
            old(self).wf(),
            old(self).used(pane).of(kind) + amount <= u64::MAX,
        ensures
            final(self).wf(),
            final(self).by_pane() == old(self).by_pane().insert(
                pane,
                old(self).used(pane).seen(model@).plus(kind, amount as nat),
            ),
            final(self).modes() == old(self).modes(),
    {
        let at: usize = self.place(pane);
        let mut u: SessionUsage = self.current(at, pane);
        u.see(model);
        u.add_amount(kind, amount);
        self.put(at, pane, u);
    }

    /// Records that an agent in a pane reported a cost (called by the
    /// collector).
    pub fn add_cost(&mut self, pane: usize, model: &str)
        requires
            old(self).wf(),
        ensures
            final(self).wf(),
            final(self).by_pane() == old(self).by_pane().insert(
                pane,
                old(self).used(pane).seen(model@),
            ),
            final(self).modes() == old(self).modes(),
    {
        let at: usize = self.place(pane);
        let mut u: SessionUsage = self.current(at, pane);
        u.see(model);
        self.put(at, pane, u);
    }

    /// Records what an agent reported (called by the collector); `amount` is how
    /// many tokens it is, where it is about tokens.
    pub fn record(&mut self, u: &collector::MetricUpdate, amount: u64)
        requires
            old(self).wf(),
            u.measure matches collector::Measure::Tokens(kind) ==> old(self).used(u.pane).of(kind)
                + amount <= u64::MAX,
        ensures
            final(self).wf(),
            final(self).by_pane() == recorded(old(self).by_pane(), u@, amount as nat),
            final(self).modes() == old(self).modes(),
    {
        match u.measure {
            collector::Measure::Tokens(kind) => self.add_tokens(
                u.pane,
                u.model.as_str(),
                kind,
                amount,
            ),
            collector::Measure::Cost => self.add_cost(u.pane, u.model.as_str()),
        }
    }

    /// Renumbers the panes where the last of `cols` columns of `panes` panes is
    /// closed: the panes that stay are counted under their new places, and what
    /// was used in the others behind them.
    pub fn close_column(&mut self, panes: usize, cols: usize)
        requires
            old(self).wf(),
            cols > 1,
        ensures
            final(self).wf(),
            renumbered(old(self).by_pane(), final(self).by_pane(), panes, cols),
            renumbered(old(self).modes(), final(self).modes(), panes, cols),
    {
        let mut r: UsageStore = UsageStore::new();
        let n: usize = self.panes.len();
        let mut i: usize = 0;
        assert(usages(self.panes@.take(0)) =~= Map::<usize, UsageView>::empty());
        while i < n
            invariant
                i <= n,
                n == self.panes.len(),
                cols > 1,
                r.wf(),
                r.modes() == Map::<usize, BillingMode>::empty(),
                renumbered(usages(self.panes@.take(i as int)), r.by_pane(), panes, cols),
            decreases n - i,
        {
            let pane: usize = self.panes[i].pane;
            let new: usize = number_after_closing(pane, panes, cols);
            proof {
                assert(self.panes@.take(i + 1).drop_last() =~= self.panes@.take(i as int));
                lemma_renumbered(
                    usages(self.panes@.take(i as int)),
                    r.by_pane(),
                    panes,
                    cols,
                    pane,
                    self.panes@[i as int].usage@,
                );
            }
            let at: usize = r.place(new);
            r.put(at, new, self.panes[i].usage.clone());
            i = i + 1;
        }
        assert(self.panes@.take(n as int) =~= self.panes@);
        let m: usize = self.modes.len();
        let mut j: usize = 0;
        assert(billing(self.modes@.take(0)) =~= Map::<usize, BillingMode>::empty());
        while j < m
            invariant
                j <= m,
                m == self.modes.len(),
                cols > 1,
                r.wf(),
                renumbered(self.by_pane(), r.by_pane(), panes, cols),
                renumbered(billing(self.modes@.take(j as int)), r.modes(), panes, cols),
            decreases m - j,
        {
            let (pane, mode) = self.modes[j];
            let new: usize = number_after_closing(pane, panes, cols);
            proof {
                assert(self.modes@.take(j + 1).drop_last() =~= self.modes@.take(j as int));
                lemma_renumbered(
                    billing(self.modes@.take(j as int)),
                    r.modes(),
                    panes,
                    cols,
                    pane,
                    mode,
                );
            }
            r.set_mode(new, mode);
            j = j + 1;
        }
        assert(self.modes@.take(m as int) =~= self.modes@);
        *self = r;
    }

    /// Says how a pane is billed.
    pub fn set_mode(&mut self, pane: usize, mode: BillingMode)
        ensures
            final(self).rows() == old(self).rows(),
            final(self).modes() == old(self).modes().insert(pane, mode),
    {
        let ghost before = self.modes@;
        self.modes.push((pane, mode));
        assert(self.modes@.drop_last() =~= before);
    }

    /// How a pane is billed.
    pub fn mode(&self, pane: usize) -> (r: BillingMode)
        ensures
            r == mode_in(self.modes(), pane),
    {
        let mut i: usize = self.modes.len();
        proof {
            assert(self.modes@.take(i as int) =~= self.modes@);
        }
        while i > 0
            invariant
                i <= self.modes.len(),
                mode_in(self.modes(), pane) == mode_in(billing(self.modes@.take(i as int)), pane),
            decreases i,
        {
            proof {
                let t = self.modes@.take(i as int);
                assert(t.drop_last() =~= self.modes@.take(i - 1));
                assert(t.last() == self.modes@[i - 1]);
            }
            if self.modes[i - 1].0 == pane {
                return self.modes[i - 1].1;
            }
            i = i - 1;
        }
        BillingMode::Api
    }

    /// Snapshots one pane's usage (for the on-screen badge).
    pub fn pane(&self, pane: usize) -> (r: Option<SessionUsage>)
        requires
            self.wf(),
        ensures
            match r {
                Some(u) => self.by_pane().contains_key(pane) && u@ == self.by_pane()[pane],
                None => !self.by_pane().contains_key(pane),
            },
    {
        let at: usize = self.place(pane);
        proof {
            lemma_usages(self.panes@, pane);
        }
        if at < self.panes.len() && self.panes[at].pane == pane {
            Some(self.panes[at].usage.clone())
        } else {
            proof {
                assert forall|i: int| 0 <= i < self.panes.len() implies (
                #[trigger] self.panes@[i]).pane != pane by {
                    if i > at {
                        assert(self.panes@[at as int].pane < self.panes@[i].pane);
                    }
                }
            }
            None
        }
    }

    /// The panes that have a usage, in their order.
    pub fn used_panes(&self) -> (r: Vec<usize>)
        ensures
            r@ == self.rows().map_values(|p: PaneUsage| p.pane),
    {
        let n: usize = self.panes.len();
        let mut r: Vec<usize> = Vec::new();
        let mut i: usize = 0;
        while i < n
            invariant
                i <= n,
                n == self.panes.len(),
                r.len() == i,
                forall|j: int| 0 <= j < i ==> #[trigger] r@[j] == self.panes@[j].pane,
            decreases n - i,
        {
            r.push(self.panes[i].pane);
            i = i + 1;
        }
        assert(r@ =~= self.rows().map_values(|p: PaneUsage| p.pane));
        r
    }

    /// The panes that have a usage and are billed by token, in their order.
    pub fn billed_panes(&self) -> (r: Vec<usize>)
        ensures
            r@ == billed(self.rows(), self.modes()),
    {
        let used: Vec<usize> = self.used_panes();
        let n: usize = used.len();
        let mut r: Vec<usize> = Vec::new();
        let mut i: usize = 0;
        let ghost by_token = |p: usize| mode_in(self.modes(), p) == BillingMode::Api;
        proof {
            reveal(Seq::filter);
            assert(used@.take(0).filter(by_token) =~= seq![]);
        }
        while i < n
            invariant
                i <= n,
                n == used.len(),
                by_token == (|p: usize| mode_in(self.modes(), p) == BillingMode::Api),
                r@ == used@.take(i as int).filter(by_token),
            decreases n - i,
        {
            proof {
                reveal(Seq::filter);
                assert(used@.take(i + 1).drop_last() =~= used@.take(i as int));
            }
            if self.mode(used[i]) == BillingMode::Api {
                r.push(used[i]);
            }
            i = i + 1;
        }
        assert(used@.take(n as int) =~= used@);
        r
    }

    /// A compact text report for the assistant's usage tool. `costs` shows the
    /// cost of each pane that has a usage, in their order, and `total` the sum
    /// for [`Self::billed_panes`].
    pub fn report(&self, costs: &Vec<String>, total: &str) -> (r: String)
        requires
            costs.len() == self.rows().len(),
            forall|i: int|
                0 <= i < self.rows().len() ==> (#[trigger] self.rows()[i]).usage@.total()
                    <= u64::MAX,
        ensures
            r@ == (if self.rows().len() == 0 {
                NO_USAGE@
            } else {
                report_lines(
                    self.rows(),
                    self.modes(),
                    text::views(costs@),
                    self.rows().len() as int,
                ) + "\nTotal (API-billed panes): $"@ + total@
            }),
    {
        let n: usize = self.panes.len();
        if n == 0 {
            return NO_USAGE.to_owned();
        }
        let mut out: String = String::new();
        assert(out@ =~= seq![]);
        let mut i: usize = 0;
        while i < n
            invariant
                i <= n,
                n == self.panes.len(),
                n == costs.len(),
                forall|j: int|
                    0 <= j < self.rows().len() ==> (#[trigger] self.rows()[j]).usage@.total()
                        <= u64::MAX,
                out@ == report_lines(self.rows(), self.modes(), text::views(costs@), i as int),
            decreases n - i,
        {
            assert(self.rows()[i as int].usage@.total() <= u64::MAX);
            let mode: BillingMode = self.mode(self.panes[i].pane);
            let row: String = report_row(
                self.panes[i].pane,
                &self.panes[i].usage,
                mode,
                costs[i].as_str(),
            );
            out.append(row.as_str());
            i = i + 1;
        }
        out.append("\nTotal (API-billed panes): $");
        out.append(total);
        out
    }
}

/// The usage of a pane, where there may be none yet.
pub open spec fn used_in(by_pane: Map<usize, UsageView>, pane: usize) -> UsageView {
    if by_pane.contains_key(pane) {
        by_pane[pane]
    } else {
        UsageView::nothing()
    }
}

/// Usage by pane once an update is recorded that is `amount` tokens.
pub open spec fn recorded(
    by_pane: Map<usize, UsageView>,
    u: collector::UpdateView,
    amount: nat,
) -> Map<usize, UsageView> {
    let seen = used_in(by_pane, u.pane).seen(u.model);
    by_pane.insert(
        u.pane,
        match u.measure {
            collector::Measure::Tokens(kind) => seen.plus(kind, amount),
            collector::Measure::Cost => seen,
        },
    )
}

/// Usage by pane once updates are recorded, one after the other.
pub open spec fn all_recorded(
    by_pane: Map<usize, UsageView>,
    updates: Seq<(collector::UpdateView, nat)>,
) -> Map<usize, UsageView>
    decreases updates.len(),
{
    if updates.len() == 0 {
        by_pane
    } else {
        recorded(all_recorded(by_pane, updates.drop_last()), updates.last().0, updates.last().1)
    }
}

/// How many tokens of a kind updates report for a pane.
pub open spec fn reported_tokens(
    updates: Seq<(collector::UpdateView, nat)>,
    pane: usize,
    kind: TokenKind,
) -> nat
    decreases updates.len(),
{
    if updates.len() == 0 {
        0
    } else {
        let (u, amount) = updates.last();
        reported_tokens(updates.drop_last(), pane, kind) + (if u.pane == pane && u.measure
            == collector::Measure::Tokens(kind) {
            amount
        } else {
            0
        })
    }
}

/// What is counted for a pane and a kind of tokens is what was reported for
/// them, whatever is reported for other panes and kinds and in which order.
pub proof fn law_usage_is_what_was_reported(
    by_pane: Map<usize, UsageView>,
    updates: Seq<(collector::UpdateView, nat)>,
    pane: usize,
    kind: TokenKind,
)
    ensures
        used_in(all_recorded(by_pane, updates), pane).of(kind) == used_in(by_pane, pane).of(kind)
            + reported_tokens(updates, pane, kind),
    decreases updates.len(),
{
    if updates.len() > 0 {
        law_usage_is_what_was_reported(by_pane, updates.drop_last(), pane, kind);
    }
}

/// What is recorded for one pane leaves the usage of every other as it is.
pub proof fn law_panes_are_counted_apart(
    by_pane: Map<usize, UsageView>,
    u: collector::UpdateView,
    amount: nat,
    other: usize,
)
    requires
        other != u.pane,
    ensures
        used_in(recorded(by_pane, u, amount), other) == used_in(by_pane, other),
{
}

/// Amounts add up: to record two is to record their sum, whatever came between
/// for another kind.
pub proof fn law_amounts_add_up(u: UsageView, kind: TokenKind, a: nat, b: nat)
    ensures
        u.plus(kind, a).plus(kind, b) == u.plus(kind, a + b),
        u.plus(kind, a).of(kind) == u.of(kind) + a,
        forall|other: TokenKind| other != kind ==> u.plus(kind, a).of(other) == u.of(other),
{
}

/// A pane with a subscription is not billed by token: it is not among those
/// whose costs are summed up, and its line shows tokens whatever its cost.
pub proof fn law_subscriptions_are_not_billed(
    panes: Seq<PaneUsage>,
    modes: Map<usize, BillingMode>,
    pane: usize,
    u: UsageView,
    cost: Seq<char>,
    other: Seq<char>,
)
    requires
        mode_in(modes, pane) == BillingMode::Subscription,
    ensures
        !billed(panes, modes).contains(pane),
        report_line(pane as nat, u, mode_in(modes, pane), cost) == report_line(
            pane as nat,
            u,
            mode_in(modes, pane),
            other,
        ),
{
    let by_token = |p: usize| mode_in(modes, p) == BillingMode::Api;
    let numbers = panes.map_values(|p: PaneUsage| p.pane);
    if billed(panes, modes).contains(pane) {
        let i = billed(panes, modes).index_of(pane);
        numbers.lemma_filter_pred(by_token, i);
    }
}

/// The model that is remembered is the last that was named.
pub proof fn law_last_named_model_is_kept(u: UsageView, a: Seq<char>, b: Seq<char>)
    ensures
        b.len() > 0 ==> u.seen(a).seen(b).model == b,
        b.len() == 0 ==> u.seen(a).seen(b) == u.seen(a),
{
}

/// The price of a model is that of its family, which its name has in it; a model
/// of no known family has none.
pub proof fn law_prices_go_by_family(l: Seq<char>)
    ensures
        text::has_text(l, "opus"@) ==> price(l) == Some(
            Price { input: 1500, output: 7500, cache_read: 150 },
        ),
        text::has_text(l, "sonnet"@) && !text::has_text(l, "opus"@) ==> price(l) == Some(
            Price { input: 300, output: 1500, cache_read: 30 },
        ),
        text::has_text(l, "haiku"@) && !text::has_text(l, "opus"@) && !text::has_text(
            l,
            "sonnet"@,
        ) ==> price(l) == Some(Price { input: 80, output: 400, cache_read: 8 }),
        price(l) is None <==> !text::has_text(l, "opus"@) && !text::has_text(l, "sonnet"@)
            && !text::has_text(l, "haiku"@) && !text::has_text(l, "gpt-5"@) && !text::has_text(
            l,
            "codex"@,
        ) && !text::has_text(l, "o3"@) && !text::has_text(l, "o4"@),
        price(l) matches Some(p) ==> p.cache_read < p.input < p.output,
{
}

/// The report has a line for every pane with a usage, in the order of the panes.
pub proof fn law_every_pane_is_reported(
    panes: Seq<PaneUsage>,
    modes: Map<usize, BillingMode>,
    costs: Seq<Seq<char>>,
    n: int,
    i: int,
)
    requires
        0 <= i < n,
    ensures
        (report_lines(panes, modes, costs, i) + report_line(
            panes[i].pane as nat,
            panes[i].usage@,
            mode_in(modes, panes[i].pane),
            costs[i],
        )).is_prefix_of(report_lines(panes, modes, costs, n)),
        report_lines(panes, modes, costs, 0).len() == 0,
    decreases n,
{
    let a = report_lines(panes, modes, costs, i + 1);
    let b = report_lines(panes, modes, costs, n);
    if i + 1 < n {
        law_every_pane_is_reported(panes, modes, costs, n - 1, i);
        let c = report_lines(panes, modes, costs, n - 1);
        assert(b.take(a.len() as int) =~= c.take(a.len() as int));
    }
    assert(b.take(a.len() as int) =~= a);
}

/// The line of a pane has its number, its model, and what it used: its cost and
/// its counts where it is billed by token, else how many tokens it used in all.
pub proof fn law_lines_say_what_was_used(
    pane: nat,
    u: UsageView,
    cost: Seq<char>,
)
    ensures
        ({
            let api = report_line(pane, u, BillingMode::Api, cost);
            let sub = report_line(pane, u, BillingMode::Subscription, cost);
            let head = "pane "@ + text::decimal(pane) + " ["@ + (if u.model.len() == 0 {
                "?"@
            } else {
                u.model
            }) + "]: "@;
            &&& (head + "$"@ + cost).is_prefix_of(api)
            &&& api.skip((head + "$"@ + cost).len() as int) == "  (in "@ + text::decimal(u.input)
                + ", out "@ + text::decimal(u.output) + ", cache "@ + text::decimal(u.cache_read)
                + " tokens)\n"@
            &&& head.is_prefix_of(sub)
            &&& sub.skip(head.len() as int) == "subscription — "@ + text::decimal(
                u.input + u.output + u.cache_read,
            ) + " tokens (in "@ + text::decimal(u.input) + ", out "@ + text::decimal(u.output)
                + ")\n"@
        }),
{
    let api = report_line(pane, u, BillingMode::Api, cost);
    let sub = report_line(pane, u, BillingMode::Subscription, cost);
    let head = "pane "@ + text::decimal(pane) + " ["@ + (if u.model.len() == 0 {
        "?"@
    } else {
        u.model
    }) + "]: "@;
    let front = head + "$"@ + cost;
    assert(api.take(front.len() as int) =~= front);
    assert(api.skip(front.len() as int) =~= "  (in "@ + text::decimal(u.input) + ", out "@
        + text::decimal(u.output) + ", cache "@ + text::decimal(u.cache_read) + " tokens)\n"@);
    assert(sub.take(head.len() as int) =~= head);
    assert(sub.skip(head.len() as int) =~= "subscription — "@ + text::decimal(
        u.input + u.output + u.cache_read,
    ) + " tokens (in "@ + text::decimal(u.input) + ", out "@ + text::decimal(u.output) + ")\n"@);
}

/// A pane that is billed by token and has a usage is among those whose costs are
/// summed up, and no other is; they are in the order of the panes.
pub proof fn law_billed_panes_are_all_of_them(
    panes: Seq<PaneUsage>,
    modes: Map<usize, BillingMode>,
    i: int,
)
    requires
        0 <= i < panes.len(),
    ensures
        mode_in(modes, panes[i].pane) == BillingMode::Api ==> billed(panes, modes).contains(
            panes[i].pane,
        ),
        billed(panes.take(i + 1), modes) == (if mode_in(modes, panes[i].pane) == BillingMode::Api {
            billed(panes.take(i), modes).push(panes[i].pane)
        } else {
            billed(panes.take(i), modes)
        }),
        billed(panes.take(0), modes).len() == 0,
{
    let by_token = |p: usize| mode_in(modes, p) == BillingMode::Api;
    let f = |p: PaneUsage| p.pane;
    let numbers = panes.map_values(f);
    if by_token(numbers[i]) {
        numbers.lemma_filter_contains(by_token, i);
    }
    reveal(Seq::filter);
    let upto = panes.take(i + 1).map_values(f);
    assert(upto.drop_last() =~= panes.take(i).map_values(f));
    assert(upto.last() == panes[i].pane);
    assert(panes.take(0).map_values(f) =~= Seq::<usize>::empty());
}

/// Recording keeps everything that was counted before: no count of any pane ever
/// goes down, and a cost adds no tokens.
pub proof fn law_counts_never_go_down(
    by_pane: Map<usize, UsageView>,
    u: collector::UpdateView,
    amount: nat,
    pane: usize,
    kind: TokenKind,
)
    ensures
        used_in(recorded(by_pane, u, amount), pane).of(kind) >= used_in(by_pane, pane).of(kind),
        u.measure == collector::Measure::Cost ==> used_in(recorded(by_pane, u, amount), pane).of(
            kind,
        ) == used_in(by_pane, pane).of(kind),
        u.measure == collector::Measure::Tokens(kind) && pane == u.pane ==> used_in(
            recorded(by_pane, u, amount),
            pane,
        ).of(kind) == used_in(by_pane, pane).of(kind) + amount,
        pane == u.pane && u.model.len() > 0 ==> used_in(recorded(by_pane, u, amount), pane).model
            == u.model,
        pane == u.pane && u.model.len() == 0 ==> used_in(recorded(by_pane, u, amount), pane).model
            == used_in(by_pane, pane).model,
        recorded(by_pane, u, amount).contains_key(u.pane),
{
}

/// What counts of a usage is what went in, what came out and what was read from
/// a cache.
pub proof fn law_totals(u: UsageView)
    ensures
        u.total() == u.of(TokenKind::Input) + u.of(TokenKind::Output) + u.of(TokenKind::CacheRead),
        u.of(TokenKind::Input) == u.input,
        u.of(TokenKind::Output) == u.output,
        u.of(TokenKind::CacheRead) == u.cache_read,
        u.of(TokenKind::CacheCreation) == u.cache_creation,
{
}

/// The other families of models have their prices too.
pub proof fn law_prices_of_other_families(l: Seq<char>)
    requires
        !text::has_text(l, "opus"@),
        !text::has_text(l, "sonnet"@),
        !text::has_text(l, "haiku"@),
    ensures
        text::has_text(l, "gpt-5"@) || text::has_text(l, "codex"@) ==> price(l) == Some(
            Price { input: 125, output: 1000, cache_read: 13 },
        ),
        (text::has_text(l, "o3"@) || text::has_text(l, "o4"@)) && !text::has_text(l, "gpt-5"@)
            && !text::has_text(l, "codex"@) ==> price(l) == Some(
            Price { input: 200, output: 800, cache_read: 50 },
        ),
{
}

/// Every row is found under its pane, and no other pane has one; of the ways to
/// bill a pane the last one that was set counts.
pub proof fn law_rows_are_found_by_their_pane(
    panes: Seq<PaneUsage>,
    i: int,
    pane: usize,
    modes: Seq<(usize, BillingMode)>,
    mode: BillingMode,
    other: usize,
)
    requires
        in_order(panes),
        0 <= i < panes.len(),
    ensures
        used_in(usages(panes), panes[i].pane) == panes[i].usage@,
        (forall|k: int| 0 <= k < panes.len() ==> (#[trigger] panes[k]).pane != pane) ==> used_in(
            usages(panes),
            pane,
        ) == UsageView::nothing(),
        mode_in(billing(modes.push((pane, mode))), pane) == mode,
        other != pane ==> mode_in(billing(modes.push((pane, mode))), other) == mode_in(
            billing(modes),
            other,
        ),
        mode_in(billing(seq![]), pane) == BillingMode::Api,
        ({
            let u = UsageView::nothing();
            u.input == 0 && u.output == 0 && u.cache_read == 0 && u.cache_creation == 0
                && u.model.len() == 0
        }),
{
    lemma_usages(panes, panes[i].pane);
    lemma_usages(panes, pane);
    assert(modes.push((pane, mode)).drop_last() =~= modes);
}

} // verus!
