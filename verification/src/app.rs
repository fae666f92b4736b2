//! The state of the log viewer and everything that changes it.
use std::collections::VecDeque;
use vstd::prelude::*;

use crate::config::FieldConfig;
use crate::json::JsonValue;
use crate::config::{divisor, has_prefix, split_dots};
use crate::json::json_parse;
use crate::text::{
    chars_of, char_is_numeric, contains_sub, decimal, find_first, find_from, spec_is_whitespace,
    spec_crop, spec_likely_json_object, spec_parse_u64,
};
use crate::keys::Key;
use crate::layout::Rect;
use crate::stats::{mean, window_push, RouteStats, MAX_SAMPLES};

verus! {

/// How many trace lines are kept.
pub const MAX_TRACES: usize = 1000;

/// How many error and warning lines are kept.
pub const MAX_ERRORS: usize = 500;

/// How many distinct field paths are collected for suggestions.
pub const MAX_KEYS: usize = 5000;

/// The panel that scrolling acts on.
#[derive(Debug, Clone, Copy, PartialEq, Eq, Structural)]
pub enum Section {
    Traces,
    Errors,
}

/// The question that the configuration dialog asks.
#[derive(Debug, Clone, Copy, PartialEq, Eq, Structural)]
pub enum ConfigStep {
    Route,
    Latency,
    Scale,
}

/// The configuration dialog: the answers typed so far and the suggested
/// field paths.
#[derive(Debug)]
pub struct ConfigState {
    pub step: ConfigStep,
    pub route_input: String,
    pub latency_input: String,
    pub scale_input: String,
    pub suggestions: Vec<String>,
    pub selected_idx: usize,
}

/// The viewer: recent traces and errors, latency statistics per route,
/// scroll positions, and the field paths seen in JSON records.
#[derive(Debug)]
pub struct App {
    pub cfg: FieldConfig,
    pub traces: VecDeque<String>,
    pub latencies: Vec<(String, RouteStats)>,
    pub errors: VecDeque<String>,
    pub bar_cache_dirty: bool,
    pub cached_bar_data: Vec<(String, u64)>,
    pub traces_scroll: usize,
    pub traces_view_rows: usize,
    pub errors_scroll: usize,
    pub errors_view_rows: usize,
    pub selected_section: Section,
    pub traces_h_scroll: usize,
    pub traces_view_cols: usize,
    pub traces_max_line_width: usize,
    pub errors_h_scroll: usize,
    pub errors_view_cols: usize,
    pub errors_max_line_width: usize,
    pub show_help: bool,
    pub json_key_freq: Vec<(String, usize)>,
    pub show_config: bool,
    pub config_state: Option<ConfigState>,
}

/// `a - b`, or 0 when `b` is larger (`usize::saturating_sub`).
pub open spec fn sat_sub(a: int, b: int) -> int {
    if a >= b {
        a - b
    } else {
        0
    }
}

/// The smaller of two numbers.
pub open spec fn min_of(a: int, b: int) -> int {
    if a <= b {
        a
    } else {
        b
    }
}

/// The rows that one page moves: one less than the visible rows, but at
/// least one.
pub open spec fn page_size(view_rows: int) -> int {
    if sat_sub(view_rows, 1) >= 1 {
        sat_sub(view_rows, 1)
    } else {
        1
    }
}

/// Keys in a table occur once each.
pub open spec fn distinct_keys<V>(t: Seq<(Seq<char>, V)>) -> bool {
    forall|i: int, j: int| 0 <= i < j < t.len() ==> t[i].0 != t[j].0
}

/// The first position of `k` among `keys`.
pub open spec fn key_pos(keys: Seq<Seq<char>>, k: Seq<char>) -> Option<int>
    decreases keys.len(),
{
    if keys.len() == 0 {
        None
    } else if keys[0] == k {
        Some(0)
    } else {
        match key_pos(keys.drop_first(), k) {
            Some(i) => Some(i + 1),
            None => None,
        }
    }
}

/// A found position holds `k` and no earlier one does; when none is found,
/// no position holds `k`.
pub proof fn lemma_key_pos(keys: Seq<Seq<char>>, k: Seq<char>)
    ensures
        key_pos(keys, k) matches Some(i) ==> 0 <= i < keys.len() && keys[i] == k && forall|
            j: int,
        |
            0 <= j < i ==> keys[j] != k,
        key_pos(keys, k) is None ==> forall|j: int| 0 <= j < keys.len() ==> keys[j] != k,
    decreases keys.len(),
{
    if keys.len() > 0 {
        lemma_key_pos(keys.drop_first(), k);
        if keys[0] != k {
            assert forall|j: int| 1 <= j < keys.len() implies keys[j] == keys.drop_first()[j
                - 1] by {}
        }
    }
}

/// The keys of a table.
pub open spec fn keys_of<V>(t: Seq<(Seq<char>, V)>) -> Seq<Seq<char>> {
    Seq::new(t.len(), |i: int| t[i].0)
}

/// The keys of a table of owned strings.
pub open spec fn string_keys<V>(t: Seq<(String, V)>) -> Seq<Seq<char>> {
    Seq::new(t.len(), |i: int| t[i].0@)
}

/// A counter that stops at its largest value.
pub open spec fn bump_count(c: usize) -> usize {
    if c < usize::MAX {
        (c + 1) as usize
    } else {
        c
    }
}

/// Counts one more sighting of `k`: its count grows by one, or it enters
/// the table with a count of one.
pub open spec fn freq_bump(t: Seq<(Seq<char>, usize)>, k: Seq<char>) -> Seq<(Seq<char>, usize)> {
    match key_pos(keys_of(t), k) {
        Some(i) => t.update(i, (k, bump_count(t[i].1))),
        None => t.push((k, 1usize)),
    }
}

/// Records a latency for `route`: it joins the route's window, or the route
/// enters the table with that one sample.
pub open spec fn record_latency(t: Seq<(Seq<char>, Seq<u64>)>, route: Seq<char>, l: u64) -> Seq<
    (Seq<char>, Seq<u64>),
> {
    match key_pos(keys_of(t), route) {
        Some(i) => t.update(i, (route, window_push(t[i].1, l))),
        None => t.push((route, seq![l])),
    }
}

/// The entries of a bounded list after `x` arrives: the oldest leaves when
/// the list is full.
pub open spec fn push_capped(s: Seq<String>, x: String, cap: nat) -> Seq<String> {
    if s.len() >= cap {
        s.drop_first().push(x)
    } else {
        s.push(x)
    }
}

/// The view of the field-path table.
pub open spec fn freq_entries(t: Seq<(String, usize)>) -> Seq<(Seq<char>, usize)> {
    Seq::new(t.len(), |i: int| (t[i].0@, t[i].1))
}

/// The view of the latency table.
pub open spec fn latency_entries(t: Seq<(String, RouteStats)>) -> Seq<(Seq<char>, Seq<u64>)> {
    Seq::new(t.len(), |i: int| (t[i].0@, t[i].1.samples@))
}

/// The position of the entry with key `k` (`HashMap` lookup).
pub fn find_key<V>(t: &Vec<(String, V)>, k: &str) -> (r: Option<usize>)
    ensures
        r matches Some(i) ==> key_pos(string_keys(t@), k@) == Some(i as int),
        r is None ==> key_pos(string_keys(t@), k@) is None,
{
    let mut i: usize = 0;
    while i < t.len()
        invariant
            i <= t.len(),
            forall|j: int| 0 <= j < i ==> string_keys(t@)[j] != k@,
        decreases t.len() - i,
    {
        if crate::text::str_eq(t[i].0.as_str(), k) {
            assert(string_keys(t@)[i as int] == k@);
            proof {
                lemma_key_pos(string_keys(t@), k@);
            }
            return Some(i);
        }
        i = i + 1;
    }
    proof {
        lemma_key_pos(string_keys(t@), k@);
    }
    None
}

/// The path of an object member below `prefix`.
pub open spec fn child_path(prefix: Seq<char>, key: Seq<char>) -> Seq<char> {
    if prefix.len() == 0 {
        key
    } else {
        prefix + seq!['.'] + key
    }
}

/// The path of an array element below `prefix`, such as `items[3]`.
pub open spec fn index_path(prefix: Seq<char>, idx: nat) -> Seq<char> {
    prefix + seq!['['] + decimal(idx) + seq![']']
}

/// The field paths that one JSON value adds to the table: every object
/// member counts once under its dotted path, arrays are walked with `[i]`
/// suffixes, and nothing more is walked once the table holds
/// [`MAX_KEYS`] paths.
pub open spec fn collect_paths(t: Seq<(Seq<char>, usize)>, v: JsonValue, prefix: Seq<char>) -> Seq<
    (Seq<char>, usize),
>
    decreases v, 0int,
{
    if t.len() >= MAX_KEYS {
        t
    } else {
        match v {
            JsonValue::Object(entries) => collect_members(t, entries@, prefix, 0),
            JsonValue::Array(items) => collect_items(t, items@, prefix, 0),
            _ => t,
        }
    }
}

/// [`collect_paths`] over the members from position `i` on.
pub open spec fn collect_members(
    t: Seq<(Seq<char>, usize)>,
    entries: Seq<(String, JsonValue)>,
    prefix: Seq<char>,
    i: int,
) -> Seq<(Seq<char>, usize)>
    decreases entries, entries.len() - i,
{
    if i < 0 || i >= entries.len() {
        t
    } else {
        let path = child_path(prefix, entries[i].0@);
        let t1 = freq_bump(t, path);
        let t2 = collect_paths(t1, entries[i].1, path);
        collect_members(t2, entries, prefix, i + 1)
    }
}

/// [`collect_paths`] over the array elements from position `i` on.
pub open spec fn collect_items(
    t: Seq<(Seq<char>, usize)>,
    items: Seq<JsonValue>,
    prefix: Seq<char>,
    i: int,
) -> Seq<(Seq<char>, usize)>
    decreases items, items.len() - i,
{
    if i < 0 || i >= items.len() {
        t
    } else {
        let t2 = collect_paths(t, items[i], index_path(prefix, i as nat));
        collect_items(t2, items, prefix, i + 1)
    }
}

/// The position of the last white-space character before position `p`.
pub open spec fn last_ws_before(s: Seq<char>, p: int) -> Option<int>
    decreases p,
{
    if p <= 0 {
        None
    } else if spec_is_whitespace(s[p - 1]) {
        Some(p - 1)
    } else {
        last_ws_before(s, p - 1)
    }
}

/// In a text line, the key of a `key=value` pair whose `=` stands at `p`:
/// the characters between the last white space before `p` and `p`.
pub open spec fn text_key_at(s: Seq<char>, p: int) -> Option<Seq<char>> {
    match last_ws_before(s, p) {
        Some(w) => Some(s.subrange(w + 1, p)),
        None => None,
    }
}

/// The keys of `key=value` pairs of a text line from position `p` on,
/// counted into the table while it holds fewer than [`MAX_KEYS`] paths.
pub open spec fn scan_text_keys(t: Seq<(Seq<char>, usize)>, s: Seq<char>, p: int) -> Seq<
    (Seq<char>, usize),
>
    decreases s.len() - p,
{
    if p < 0 || p >= s.len() {
        t
    } else {
        let t1 = if s[p] == '=' {
            match text_key_at(s, p) {
                Some(k) => if k.len() > 0 && t.len() < MAX_KEYS {
                    freq_bump(t, k)
                } else {
                    t
                },
                None => t,
            }
        } else {
            t
        };
        scan_text_keys(t1, s, p + 1)
    }
}

/// The position of the first white-space character of `s`, or its length.
pub open spec fn first_ws(s: Seq<char>) -> int
    decreases s.len(),
{
    if s.len() == 0 {
        0
    } else if spec_is_whitespace(s[0]) {
        0
    } else {
        1 + first_ws(s.drop_first())
    }
}

/// The position of the first character of `s` that is not numeric, or its
/// length.
pub open spec fn first_non_numeric(s: Seq<char>) -> int
    decreases s.len(),
{
    if s.len() == 0 {
        0
    } else if !char_is_numeric(s[0]) {
        0
    } else {
        1 + first_non_numeric(s.drop_first())
    }
}

/// The route and scaled latency of a text line: the word after the first
/// `<route field>=`, and the number that follows the first
/// `<latency field>=`, divided by the scale.
pub open spec fn text_sample(cfg: FieldConfig, s: Seq<char>) -> Option<(Seq<char>, u64)> {
    let rk = cfg.route_field_raw@.push('=');
    let lk = cfg.latency_field_raw@.push('=');
    match find_first(s, rk) {
        Some(a) => {
            let rest = s.skip(a + rk.len());
            let route = rest.take(first_ws(rest));
            match find_first(s, lk) {
                Some(b) => {
                    let lat = s.skip(b + lk.len());
                    match spec_parse_u64(lat.take(first_non_numeric(lat))) {
                        Some(l) => Some((route, (l / divisor(cfg.latency_scale)) as u64)),
                        None => None,
                    }
                },
                None => None,
            }
        },
        None => None,
    }
}

/// The route and scaled latency of a JSON record, when both are present.
pub open spec fn json_sample(cfg: FieldConfig, v: JsonValue) -> Option<(Seq<char>, u64)> {
    match (cfg.spec_route(v), cfg.spec_latency(v)) {
        (Some(r), Some(l)) => Some((r, l)),
        _ => None,
    }
}

/// The route and scaled latency of a JSON record, when both fields are
/// present (see [`json_sample`]).
pub fn json_record_sample(cfg: &FieldConfig, v: &JsonValue) -> (r: Option<(String, u64)>)
    ensures
        r matches Some(x) ==> json_sample(*cfg, *v) == Some((x.0@, x.1)),
        r is None ==> json_sample(*cfg, *v) is None,
{
    let route = cfg.extract_route(v);
    let latency = cfg.extract_latency(v);
    match (route, latency) {
        (Some(r), Some(l)) => Some((r, l)),
        _ => None,
    }
}

/// The JSON value of a line that looks like a JSON object and parses.
pub open spec fn line_json(s: Seq<char>) -> Option<JsonValue> {
    if spec_likely_json_object(s) {
        json_parse(s)
    } else {
        None
    }
}

/// The sample that a log line yields: from its JSON fields when it is a
/// JSON record that has both, else from `key=value` text.
pub open spec fn line_sample(cfg: FieldConfig, s: Seq<char>) -> Option<(Seq<char>, u64)> {
    match line_json(s) {
        Some(v) => match json_sample(cfg, v) {
            Some(x) => Some(x),
            None => text_sample(cfg, s),
        },
        None => text_sample(cfg, s),
    }
}

/// The field-path table after a log line: JSON records add their paths,
/// other lines the keys of their `key=value` pairs.
pub open spec fn line_keys(t: Seq<(Seq<char>, usize)>, s: Seq<char>) -> Seq<(Seq<char>, usize)> {
    if spec_likely_json_object(s) {
        match json_parse(s) {
            Some(v) => collect_paths(t, v, Seq::<char>::empty()),
            None => t,
        }
    } else {
        scan_text_keys(t, s, 0)
    }
}

/// The line reports an error or a warning.
pub open spec fn is_alert(s: Seq<char>) -> bool {
    contains_sub(s, "ERROR"@) || contains_sub(s, "WARN"@)
}

/// The position of the first white space at or after `from`, or the
/// length.
fn find_ws(v: &Vec<char>, from: usize) -> (r: usize)
    requires
        from <= v.len(),
    ensures
        r == from + first_ws(v@.skip(from as int)),
        from <= r <= v.len(),
{
    let mut i = from;
    while i < v.len()
        invariant
            from <= i <= v.len(),
            from + first_ws(v@.skip(from as int)) == i + first_ws(v@.skip(i as int)),
        decreases v.len() - i,
    {
        assert(v@.skip(i as int)[0] == v@[i as int]);
        assert(v@.skip(i as int).drop_first() =~= v@.skip(i + 1));
        if crate::text::is_whitespace(v[i]) {
            return i;
        }
        i = i + 1;
    }
    assert(v@.skip(i as int).len() == 0);
    i
}

/// The position of the first non-numeric character at or after `from`, or
/// the length.
fn find_non_numeric(v: &Vec<char>, from: usize) -> (r: usize)
    requires
        from <= v.len(),
    ensures
        r == from + first_non_numeric(v@.skip(from as int)),
        from <= r <= v.len(),
{
    let mut i = from;
    while i < v.len()
        invariant
            from <= i <= v.len(),
            from + first_non_numeric(v@.skip(from as int)) == i + first_non_numeric(
                v@.skip(i as int),
            ),
        decreases v.len() - i,
    {
        assert(v@.skip(i as int)[0] == v@[i as int]);
        assert(v@.skip(i as int).drop_first() =~= v@.skip(i + 1));
        if !crate::text::is_numeric(v[i]) {
            return i;
        }
        i = i + 1;
    }
    assert(v@.skip(i as int).len() == 0);
    i
}

/// `a` sorts before `b` as strings do (character by character, by code
/// point; a proper prefix first).
pub open spec fn lex_lt(a: Seq<char>, b: Seq<char>) -> bool
    decreases a.len(),
{
    if a.len() == 0 {
        b.len() > 0
    } else if b.len() == 0 {
        false
    } else if a[0] != b[0] {
        (a[0] as int) < (b[0] as int)
    } else {
        lex_lt(a.drop_first(), b.drop_first())
    }
}

/// `lex_lt` is a strict total order.
pub proof fn lemma_lex_order(a: Seq<char>, b: Seq<char>, c: Seq<char>)
    ensures
        !lex_lt(a, a),
        a != b ==> lex_lt(a, b) || lex_lt(b, a),
        lex_lt(a, b) ==> !lex_lt(b, a),
        lex_lt(a, b) && lex_lt(b, c) ==> lex_lt(a, c),
    decreases a.len(),
{
    if a.len() > 0 && b.len() > 0 && c.len() > 0 {
        lemma_lex_order(a.drop_first(), b.drop_first(), c.drop_first());
    }
    if a.len() > 0 && b.len() > 0 {
        lemma_lex_order(a.drop_first(), b.drop_first(), b.drop_first());
        if a != b && a[0] == b[0] {
            assert(a.drop_first() != b.drop_first()) by {
                if a.drop_first() == b.drop_first() {
                    assert(a =~= seq![a[0]] + a.drop_first());
                    assert(b =~= seq![b[0]] + b.drop_first());
                }
            }
        }
    }
    if a.len() > 0 {
        lemma_lex_order(a.drop_first(), a.drop_first(), a.drop_first());
    }
    if a.len() > 0 && b.len() > 0 && a[0] != b[0] {
        assert((a[0] as int) != (b[0] as int));
    }
    if a.len() == 0 && b.len() == 0 {
        assert(a =~= b);
    }
}

/// The order of suggestions: more sightings first, then by path.
pub open spec fn ranks_before(x: (Seq<char>, usize), y: (Seq<char>, usize)) -> bool {
    x.1 > y.1 || (x.1 == y.1 && lex_lt(x.0, y.0))
}

/// `ranks_before` is a strict total order on entries with different keys.
pub proof fn lemma_rank_order(x: (Seq<char>, usize), y: (Seq<char>, usize), z: (Seq<char>, usize))
    ensures
        !ranks_before(x, x),
        x.0 != y.0 ==> ranks_before(x, y) || ranks_before(y, x),
        ranks_before(x, y) ==> !ranks_before(y, x),
        ranks_before(x, y) && ranks_before(y, z) ==> ranks_before(x, z),
{
    lemma_lex_order(x.0, y.0, z.0);
    lemma_lex_order(y.0, x.0, x.0);
}

/// `r` is what the suggestion list shows for `prefix`: paths of the table
/// that start with `prefix`, best ranked first, at most `limit` of them,
/// and every path left out ranks below all shown ones.
pub open spec fn is_suggestion_list(
    t: Seq<(Seq<char>, usize)>,
    prefix: Seq<char>,
    limit: nat,
    r: Seq<Seq<char>>,
) -> bool {
    &&& r.len() <= limit
    &&& forall|j: int|
        0 <= j < r.len() ==> #[trigger] key_pos(keys_of(t), r[j]) is Some && has_prefix(
            r[j],
            prefix,
        )
    &&& forall|a: int, b: int|
        0 <= a < b < r.len() ==> ranks_before(
            t[key_pos(keys_of(t), r[a])->0],
            t[key_pos(keys_of(t), r[b])->0],
        )
    &&& forall|i: int|
        0 <= i < t.len() && has_prefix(t[i].0, prefix) && !r.contains(#[trigger] t[i].0) ==> r.len()
            == limit && (r.len() == 0 || ranks_before(
            t[key_pos(keys_of(t), r.last())->0],
            t[i],
        ))
}

fn lex_less(a: &Vec<char>, b: &Vec<char>) -> (r: bool)
    ensures
        r == lex_lt(a@, b@),
{
    let mut i: usize = 0;
    assert(a@.skip(0) =~= a@);
    assert(b@.skip(0) =~= b@);
    while i < a.len() && i < b.len()
        invariant
            i <= a.len(),
            i <= b.len(),
            forall|j: int| 0 <= j < i ==> a@[j] == b@[j],
            lex_lt(a@, b@) == lex_lt(a@.skip(i as int), b@.skip(i as int)),
        decreases a.len() - i,
    {
        assert(a@.skip(i as int)[0] == a@[i as int]);
        assert(b@.skip(i as int)[0] == b@[i as int]);
        if a[i] != b[i] {
            return a[i] < b[i];
        }
        assert(a@.skip(i as int).drop_first() =~= a@.skip(i + 1));
        assert(b@.skip(i as int).drop_first() =~= b@.skip(i + 1));
        i = i + 1;
    }
    assert(a@.skip(i as int).len() == a.len() - i);
    assert(b@.skip(i as int).len() == b.len() - i);
    i < b.len()
}

/// In a table with distinct keys, the key at `i` is found at `i`.
pub proof fn lemma_key_pos_distinct<V>(t: Seq<(Seq<char>, V)>, i: int)
    requires
        distinct_keys(t),
        0 <= i < t.len(),
    ensures
        key_pos(keys_of(t), t[i].0) == Some(i),
{
    lemma_key_pos(keys_of(t), t[i].0);
    assert(keys_of(t)[i] == t[i].0);
    if let Some(m) = key_pos(keys_of(t), t[i].0) {
        if m != i {
            assert(keys_of(t)[m] == t[m].0);
        }
    }
}

/// How many routes the bar chart shows.
pub const MAX_BARS: usize = 10;

/// The view of the bar chart data.
pub open spec fn bar_entries(r: Seq<(String, u64)>) -> Seq<(Seq<char>, u64)> {
    Seq::new(r.len(), |i: int| (r[i].0@, r[i].1))
}

/// `r` is what the bar chart shows for the latency table `t`: routes of
/// the table with their mean latency, highest first, at most
/// [`MAX_BARS`] of them, and every route left out has a mean no higher
/// than the lowest shown. Routes with equal means may come in any order.
pub open spec fn is_bar_chart(t: Seq<(Seq<char>, Seq<u64>)>, r: Seq<(Seq<char>, u64)>) -> bool {
    &&& r.len() <= MAX_BARS
    &&& forall|j: int|
        0 <= j < r.len() ==> #[trigger] key_pos(keys_of(t), r[j].0) is Some && r[j].1 == mean(
            t[key_pos(keys_of(t), r[j].0)->0].1,
        )
    &&& forall|a: int, b: int| 0 <= a < b < r.len() ==> r[a].0 != r[b].0 && r[a].1 >= r[b].1
    &&& forall|i: int|
        0 <= i < t.len() && !keys_of(r).contains(#[trigger] t[i].0) ==> r.len() == MAX_BARS && (
        r.len() == 0 || mean(t[i].1) <= r.last().1)
}

/// How many suggestions the configuration dialog shows.
pub const MAX_SUGGESTIONS: usize = 10;

/// The texts of a list of strings.
pub open spec fn texts(v: Seq<String>) -> Seq<Seq<char>> {
    Seq::new(v.len(), |j: int| v[j]@)
}

/// The text after Backspace: the last character goes, if there is one.
pub open spec fn drop_last_char(s: Seq<char>) -> Seq<char> {
    if s.len() > 0 {
        s.drop_last()
    } else {
        s
    }
}

/// The text that the dialog is editing at its current step.
pub open spec fn current_input(st: ConfigState) -> Seq<char> {
    match st.step {
        ConfigStep::Route => st.route_input@,
        ConfigStep::Latency => st.latency_input@,
        ConfigStep::Scale => st.scale_input@,
    }
}

/// `post` is `pre` with the dialog's answer for the current step replaced
/// by `text`, new suggestions for it, and the first suggestion selected;
/// at the scale step there are no suggestions to refresh.
pub open spec fn input_edited(pre: App, post: App, text: Seq<char>) -> bool {
    &&& pre.config_state matches Some(st)
    &&& post.config_state matches Some(ns)
    &&& post == (App { config_state: post.config_state, ..pre })
    &&& ns.step == st.step
    &&& current_input(ns) == text
    &&& match st.step {
        ConfigStep::Route => {
            &&& ns.latency_input == st.latency_input
            &&& ns.scale_input == st.scale_input
            &&& ns.selected_idx == 0
            &&& is_suggestion_list(
                pre.freq_view(),
                text,
                MAX_SUGGESTIONS as nat,
                texts(ns.suggestions@),
            )
        },
        ConfigStep::Latency => {
            &&& ns.route_input == st.route_input
            &&& ns.scale_input == st.scale_input
            &&& ns.selected_idx == 0
            &&& is_suggestion_list(
                pre.freq_view(),
                text,
                MAX_SUGGESTIONS as nat,
                texts(ns.suggestions@),
            )
        },
        ConfigStep::Scale => {
            &&& ns.route_input == st.route_input
            &&& ns.latency_input == st.latency_input
            &&& ns.suggestions == st.suggestions
            &&& ns.selected_idx == st.selected_idx
        },
    }
}

/// `post` is `pre` with the configuration dialog just opened: the route
/// step, nothing typed, and the best field paths suggested.
pub open spec fn config_opened(pre: App, post: App) -> bool {
    &&& post == (App { config_state: post.config_state, show_config: true, ..pre })
    &&& post.config_state matches Some(st)
    &&& st.step == ConfigStep::Route
    &&& st.route_input@.len() == 0
    &&& st.latency_input@.len() == 0
    &&& st.scale_input@.len() == 0
    &&& st.selected_idx == 0
    &&& is_suggestion_list(
        pre.freq_view(),
        Seq::<char>::empty(),
        MAX_SUGGESTIONS as nat,
        texts(st.suggestions@),
    )
}

/// `post` is `pre` after the dialog's answers were applied: a non-empty
/// route or latency answer replaces that field path, a scale answer that
/// parses replaces the scale, the latency statistics start over, and the
/// dialog closes.
pub open spec fn config_applied(pre: App, post: App) -> bool {
    match pre.config_state {
        Some(st) => {
            &&& (if st.route_input@.len() > 0 {
                post.cfg.route_field_raw@ == st.route_input@ && post.cfg.route_path.keys()
                    == split_dots(st.route_input@)
            } else {
                post.cfg.route_field_raw == pre.cfg.route_field_raw && post.cfg.route_path
                    == pre.cfg.route_path
            })
            &&& (if st.latency_input@.len() > 0 {
                post.cfg.latency_field_raw@ == st.latency_input@ && post.cfg.latency_path.keys()
                    == split_dots(st.latency_input@)
            } else {
                post.cfg.latency_field_raw == pre.cfg.latency_field_raw && post.cfg.latency_path
                    == pre.cfg.latency_path
            })
            &&& pre.cfg.wf() ==> post.cfg.wf()
            &&& post.cfg.latency_scale == (match spec_parse_u64(st.scale_input@) {
                Some(x) => x,
                None => pre.cfg.latency_scale,
            })
            &&& post.latencies@.len() == 0
            &&& post == (App {
                cfg: post.cfg,
                latencies: post.latencies,
                bar_cache_dirty: true,
                config_state: None,
                show_config: false,
                ..pre
            })
        },
        None => post == (App { config_state: None, show_config: false, ..pre }),
    }
}

/// The dialog state with another selected suggestion.
pub open spec fn with_selection(pre: App, idx: usize) -> App {
    match pre.config_state {
        Some(st) => App { config_state: Some(ConfigState { selected_idx: idx, ..st }), ..pre },
        None => pre,
    }
}

/// What a key does to an open configuration dialog.
pub open spec fn config_key_outcome(pre: App, key: Key, post: App) -> bool {
    match pre.config_state {
        None => post == pre,
        Some(st) => {
            let n = st.suggestions@.len();
            match key {
                Key::Esc => post == (App { show_config: false, config_state: None, ..pre }),
                Key::Up => post == (if n == 0 {
                    pre
                } else if st.selected_idx == 0 {
                    with_selection(pre, (n - 1) as usize)
                } else {
                    with_selection(pre, (st.selected_idx - 1) as usize)
                }),
                Key::Down => post == (if n == 0 {
                    pre
                } else {
                    with_selection(pre, ((st.selected_idx + 1) % (n as int)) as usize)
                }),
                Key::Tab | Key::Right => post == (if n > 0 && st.selected_idx < n {
                    match st.step {
                        ConfigStep::Route => App {
                            config_state: Some(
                                ConfigState {
                                    route_input: st.suggestions@[st.selected_idx as int],
                                    ..st
                                },
                            ),
                            ..pre
                        },
                        ConfigStep::Latency => App {
                            config_state: Some(
                                ConfigState {
                                    latency_input: st.suggestions@[st.selected_idx as int],
                                    ..st
                                },
                            ),
                            ..pre
                        },
                        ConfigStep::Scale => pre,
                    }
                } else {
                    pre
                }),
                Key::Enter => match st.step {
                    ConfigStep::Route => {
                        &&& post == (App { config_state: post.config_state, ..pre })
                        &&& post.config_state matches Some(ns)
                        &&& ns.step == ConfigStep::Latency
                        &&& ns.route_input == st.route_input
                        &&& ns.latency_input == st.latency_input
                        &&& ns.scale_input == st.scale_input
                        &&& ns.selected_idx == 0
                        &&& is_suggestion_list(
                            pre.freq_view(),
                            st.latency_input@,
                            MAX_SUGGESTIONS as nat,
                            texts(ns.suggestions@),
                        )
                    },
                    ConfigStep::Latency => {
                        &&& post == (App { config_state: post.config_state, ..pre })
                        &&& post.config_state matches Some(ns)
                        &&& ns.step == ConfigStep::Scale
                        &&& ns.route_input == st.route_input
                        &&& ns.latency_input == st.latency_input
                        &&& ns.scale_input == st.scale_input
                        &&& ns.selected_idx == 0
                        &&& ns.suggestions@.len() == 0
                    },
                    ConfigStep::Scale => config_applied(pre, post),
                },
                Key::Backspace => input_edited(pre, post, drop_last_char(current_input(st))),
                Key::Char(c) => if st.step == ConfigStep::Scale && !('0' <= c && c <= '9') {
                    post == pre
                } else {
                    input_edited(pre, post, current_input(st).push(c))
                },
                _ => post == pre,
            }
        },
    }
}

/// What a key does to the main view: `?` toggles the help, `c` opens the
/// configuration dialog, Tab switches panels, arrows, `h`/`j`/`k`/`l`,
/// Page Up/Down and Home/End scroll; while the help shows, only `?` and
/// Esc act, and they close it.
pub open spec fn nav_key_outcome(pre: App, key: Key, post: App) -> bool {
    if pre.show_help {
        post == (if key == Key::Char('?') || key == Key::Esc {
            App { show_help: false, ..pre }
        } else {
            pre
        })
    } else {
        match key {
            Key::Char('?') => post == (App { show_help: true, ..pre }),
            Key::Char('c') => config_opened(pre, post),
            Key::Tab | Key::BackTab => post == pre.after_toggle_section(),
            Key::Up | Key::Char('k') => post == pre.after_scroll_up(),
            Key::Down | Key::Char('j') => post == pre.after_scroll_down(),
            Key::Left | Key::Char('h') => post == pre.after_hscroll_left(),
            Key::Right | Key::Char('l') => post == pre.after_hscroll_right(),
            Key::PageUp => post == pre.after_page_up(),
            Key::PageDown => post == pre.after_page_down(),
            Key::Home => post == pre.after_to_home(),
            Key::End => post == pre.after_to_end(),
            _ => post == pre,
        }
    }
}

/// The widest of the lines, in characters; 0 when there are none.
pub open spec fn max_width(lines: Seq<String>) -> nat
    decreases lines.len(),
{
    if lines.len() == 0 {
        0
    } else {
        let w = max_width(lines.drop_last());
        if lines.last()@.len() > w {
            lines.last()@.len()
        } else {
            w
        }
    }
}

/// The lines that a panel shows, newest first: after skipping `scroll` of
/// the newest lines, up to `rows` lines, each cut to the columns
/// `h_scroll .. h_scroll + cols`.
pub open spec fn visible_lines(lines: Seq<String>, scroll: int, rows: int, h_scroll: int, cols: int) -> Seq<Seq<char>> {
    let k = min_of(rows, sat_sub(lines.len() as int, scroll));
    Seq::new(k as nat, |j: int| spec_crop(lines[lines.len() - 1 - scroll - j]@, h_scroll, cols))
}

fn widest(lines: &VecDeque<String>) -> (r: usize)
    ensures
        r == max_width(lines@),
{
    let mut w: usize = 0;
    let mut i: usize = 0;
    while i < lines.len()
        invariant
            i <= lines@.len(),
            w == max_width(lines@.take(i as int)),
        decreases lines@.len() - i,
    {
        let n = lines[i].as_str().unicode_len();
        assert(lines@.take(i + 1).drop_last() =~= lines@.take(i as int));
        if n > w {
            w = n;
        }
        i = i + 1;
    }
    assert(lines@.take(i as int) =~= lines@);
    w
}

fn visible(lines: &VecDeque<String>, scroll: usize, rows: usize, h_scroll: usize, cols: usize) -> (r: Vec<String>)
    ensures
        texts(r@) == visible_lines(lines@, scroll as int, rows as int, h_scroll as int, cols as int),
{
    let n = lines.len();
    let avail = n.saturating_sub(scroll);
    let k = if rows <= avail {
        rows
    } else {
        avail
    };
    let mut out: Vec<String> = Vec::new();
    let mut j: usize = 0;
    while j < k
        invariant
            j <= k,
            n == lines@.len(),
            k == min_of(rows as int, sat_sub(n as int, scroll as int)),
            out@.len() == j,
            forall|m: int|
                0 <= m < j ==> (#[trigger] out@[m])@ == spec_crop(
                    lines@[n - 1 - scroll - m]@,
                    h_scroll as int,
                    cols as int,
                ),
        decreases k - j,
    {
        let line = &lines[n - 1 - scroll - j];
        out.push(crate::text::crop_str(line.as_str(), h_scroll, cols));
        j = j + 1;
    }
    assert(texts(out@) =~= visible_lines(
        lines@,
        scroll as int,
        rows as int,
        h_scroll as int,
        cols as int,
    ));
    out
}

impl App {
    /// The collected field paths with their counts.
    pub open spec fn freq_view(self) -> Seq<(Seq<char>, usize)> {
        freq_entries(self.json_key_freq@)
    }

    /// The routes with their latency windows.
    pub open spec fn latency_view(self) -> Seq<(Seq<char>, Seq<u64>)> {
        latency_entries(self.latencies@)
    }

    /// The invariant that every operation keeps.
    pub open spec fn wf(self) -> bool {
        &&& self.traces@.len() <= MAX_TRACES
        &&& self.errors@.len() <= MAX_ERRORS
        &&& distinct_keys(self.freq_view())
        &&& distinct_keys(self.latency_view())
        &&& forall|i: int| 0 <= i < self.latencies@.len() ==> (#[trigger] self.latencies@[i]).1.wf()
        &&& self.config_state matches Some(st) ==> (st.selected_idx == 0 || st.selected_idx
            < st.suggestions@.len())
    }

    /// The furthest the trace panel can scroll.
    pub open spec fn spec_max_traces_scroll(self) -> int {
        sat_sub(self.traces@.len() as int, self.traces_view_rows as int)
    }

    /// The furthest the error panel can scroll.
    pub open spec fn spec_max_errors_scroll(self) -> int {
        sat_sub(self.errors@.len() as int, self.errors_view_rows as int)
    }

    /// The furthest the trace panel can scroll sideways.
    pub open spec fn spec_max_traces_h_scroll(self) -> int {
        sat_sub(self.traces_max_line_width as int, self.traces_view_cols as int)
    }

    /// The furthest the error panel can scroll sideways.
    pub open spec fn spec_max_errors_h_scroll(self) -> int {
        sat_sub(self.errors_max_line_width as int, self.errors_view_cols as int)
    }

    /// The state after `scroll_up`.
    pub open spec fn after_scroll_up(self) -> App {
        if self.selected_section == Section::Traces {
            (App {
                traces_scroll: min_of(
                    self.traces_scroll + 1,
                    self.spec_max_traces_scroll(),
                ) as usize,
                ..self
            })
        } else {
            (App {
                errors_scroll: min_of(
                    self.errors_scroll + 1,
                    self.spec_max_errors_scroll(),
                ) as usize,
                ..self
            })
        }
    }

    /// The state after `scroll_down`.
    pub open spec fn after_scroll_down(self) -> App {
        if self.selected_section == Section::Traces {
            (App {
                traces_scroll: sat_sub(self.traces_scroll as int, 1) as usize,
                ..self
            })
        } else {
            (App {
                errors_scroll: sat_sub(self.errors_scroll as int, 1) as usize,
                ..self
            })
        }
    }

    /// The state after `page_up`.
    pub open spec fn after_page_up(self) -> App {
        if self.selected_section == Section::Traces {
            (App {
                traces_scroll: min_of(
                    self.traces_scroll + page_size(self.traces_view_rows as int),
                    self.spec_max_traces_scroll(),
                ) as usize,
                ..self
            })
        } else {
            (App {
                errors_scroll: min_of(
                    self.errors_scroll + page_size(self.errors_view_rows as int),
                    self.spec_max_errors_scroll(),
                ) as usize,
                ..self
            })
        }
    }

    /// The state after `page_down`.
    pub open spec fn after_page_down(self) -> App {
        if self.selected_section == Section::Traces {
            (App {
                traces_scroll: sat_sub(
                    self.traces_scroll as int,
                    page_size(self.traces_view_rows as int),
                ) as usize,
                ..self
            })
        } else {
            (App {
                errors_scroll: sat_sub(
                    self.errors_scroll as int,
                    page_size(self.errors_view_rows as int),
                ) as usize,
                ..self
            })
        }
    }

    /// The state after `to_home`.
    pub open spec fn after_to_home(self) -> App {
        if self.selected_section == Section::Traces {
            (App {
                traces_scroll: 0,
                ..self
            })
        } else {
            (App {
                errors_scroll: 0,
                ..self
            })
        }
    }

    /// The state after `to_end`.
    pub open spec fn after_to_end(self) -> App {
        if self.selected_section == Section::Traces {
            (App {
                traces_scroll: self.spec_max_traces_scroll() as usize,
                ..self
            })
        } else {
            (App {
                errors_scroll: self.spec_max_errors_scroll() as usize,
                ..self
            })
        }
    }

    /// The state after `hscroll_left`.
    pub open spec fn after_hscroll_left(self) -> App {
        if self.selected_section == Section::Traces {
            (App {
                traces_h_scroll: sat_sub(self.traces_h_scroll as int, 1) as usize,
                ..self
            })
        } else {
            (App {
                errors_h_scroll: sat_sub(self.errors_h_scroll as int, 1) as usize,
                ..self
            })
        }
    }

    /// The state after `hscroll_right`.
    pub open spec fn after_hscroll_right(self) -> App {
        if self.selected_section == Section::Traces {
            (App {
                traces_h_scroll: min_of(
                    self.traces_h_scroll + 1,
                    self.spec_max_traces_h_scroll(),
                ) as usize,
                ..self
            })
        } else {
            (App {
                errors_h_scroll: min_of(
                    self.errors_h_scroll + 1,
                    self.spec_max_errors_h_scroll(),
                ) as usize,
                ..self
            })
        }
    }

    /// The state after `toggle_section`.
    pub open spec fn after_toggle_section(self) -> App {
        (App {
                selected_section: if self.selected_section == Section::Traces {
                    Section::Errors
                } else {
                    Section::Traces
                },
                ..self
            })
    }

    /// A fresh viewer with the given field configuration.
    pub fn new(cfg: FieldConfig) -> (r: Self)
        ensures
            r.wf(),
            r.cfg == cfg,
            r.traces@.len() == 0,
            r.errors@.len() == 0,
            r.latencies@.len() == 0,
            r.json_key_freq@.len() == 0,
            r.cached_bar_data@.len() == 0,
            r.bar_cache_dirty,
            r.traces_scroll == 0 && r.traces_view_rows == 0,
            r.errors_scroll == 0 && r.errors_view_rows == 0,
            r.selected_section == Section::Traces,
            r.traces_h_scroll == 0 && r.traces_view_cols == 0 && r.traces_max_line_width == 0,
            r.errors_h_scroll == 0 && r.errors_view_cols == 0 && r.errors_max_line_width == 0,
            !r.show_help,
            !r.show_config,
            r.config_state is None,
    {
        App {
            cfg,
            traces: VecDeque::with_capacity(1000),
            latencies: Vec::new(),
            errors: VecDeque::with_capacity(500),
            bar_cache_dirty: true,
            cached_bar_data: Vec::new(),
            traces_scroll: 0,
            traces_view_rows: 0,
            errors_scroll: 0,
            errors_view_rows: 0,
            selected_section: Section::Traces,
            traces_h_scroll: 0,
            traces_view_cols: 0,
            traces_max_line_width: 0,
            errors_h_scroll: 0,
            errors_view_cols: 0,
            errors_max_line_width: 0,
            show_help: false,
            json_key_freq: Vec::new(),
            show_config: false,
            config_state: None,
        }
    }

    /// How far the trace panel can scroll: the lines that do not fit.
    pub fn max_traces_scroll(&self) -> (r: usize)
        ensures
            r == self.spec_max_traces_scroll(),
    {
        self.traces.len().saturating_sub(self.traces_view_rows)
    }

    /// Brings the trace scroll offset back within range.
    pub fn clamp_traces_scroll(&mut self)
        ensures
            *final(self) == (App {
                traces_scroll: min_of(
                    old(self).traces_scroll as int,
                    old(self).spec_max_traces_scroll(),
                ) as usize,
                ..*old(self)
            }),
    {
        let max_off = self.max_traces_scroll();
        if self.traces_scroll > max_off {
            self.traces_scroll = max_off;
        }
    }

    /// How far the error panel can scroll: the lines that do not fit.
    pub fn max_errors_scroll(&self) -> (r: usize)
        ensures
            r == self.spec_max_errors_scroll(),
    {
        self.errors.len().saturating_sub(self.errors_view_rows)
    }

    /// Brings the error scroll offset back within range.
    pub fn clamp_errors_scroll(&mut self)
        ensures
            *final(self) == (App {
                errors_scroll: min_of(
                    old(self).errors_scroll as int,
                    old(self).spec_max_errors_scroll(),
                ) as usize,
                ..*old(self)
            }),
    {
        let max_off = self.max_errors_scroll();
        if self.errors_scroll > max_off {
            self.errors_scroll = max_off;
        }
    }
    /// Scrolls the focused panel one line towards older lines, no further
    /// than its maximum.
    pub fn scroll_up(&mut self)
        ensures
            *final(self) == old(self).after_scroll_up(),

    {
        match self.selected_section {
            Section::Traces => {
                let max_off = self.max_traces_scroll();
                self.traces_scroll = if self.traces_scroll < max_off {
                    self.traces_scroll + 1
                } else {
                    max_off
                };
            },
            Section::Errors => {
                let max_off = self.max_errors_scroll();
                self.errors_scroll = if self.errors_scroll < max_off {
                    self.errors_scroll + 1
                } else {
                    max_off
                };
            },
        }
    }

    /// Scrolls the focused panel one line towards the newest line.
    pub fn scroll_down(&mut self)
        ensures
            *final(self) == old(self).after_scroll_down(),

    {
        match self.selected_section {
            Section::Traces => {
                self.traces_scroll = self.traces_scroll.saturating_sub(1);
            },
            Section::Errors => {
                self.errors_scroll = self.errors_scroll.saturating_sub(1);
            },
        }
    }

    /// Scrolls the focused panel one page towards older lines.
    pub fn page_up(&mut self)
        ensures
            *final(self) == old(self).after_page_up(),

    {
        let page = match self.selected_section {
            Section::Traces => {
                let p = self.traces_view_rows.saturating_sub(1);
                if p >= 1 {
                    p
                } else {
                    1
                }
            },
            Section::Errors => {
                let p = self.errors_view_rows.saturating_sub(1);
                if p >= 1 {
                    p
                } else {
                    1
                }
            },
        };
        match self.selected_section {
            Section::Traces => {
                let max_off = self.max_traces_scroll();
                self.traces_scroll = if self.traces_scroll < max_off && page < max_off
                    - self.traces_scroll {
                    self.traces_scroll + page
                } else {
                    max_off
                };
            },
            Section::Errors => {
                let max_off = self.max_errors_scroll();
                self.errors_scroll = if self.errors_scroll < max_off && page < max_off
                    - self.errors_scroll {
                    self.errors_scroll + page
                } else {
                    max_off
                };
            },
        }
    }

    /// Scrolls the focused panel one page towards the newest line.
    pub fn page_down(&mut self)
        ensures
            *final(self) == old(self).after_page_down(),

    {
        let page = match self.selected_section {
            Section::Traces => {
                let p = self.traces_view_rows.saturating_sub(1);
                if p >= 1 {
                    p
                } else {
                    1
                }
            },
            Section::Errors => {
                let p = self.errors_view_rows.saturating_sub(1);
                if p >= 1 {
                    p
                } else {
                    1
                }
            },
        };
        match self.selected_section {
            Section::Traces => {
                self.traces_scroll = self.traces_scroll.saturating_sub(page);
            },
            Section::Errors => {
                self.errors_scroll = self.errors_scroll.saturating_sub(page);
            },
        }
    }

    /// Jumps the focused panel to the newest line.
    pub fn to_home(&mut self)
        ensures
            *final(self) == old(self).after_to_home(),

    {
        match self.selected_section {
            Section::Traces => self.traces_scroll = 0,
            Section::Errors => self.errors_scroll = 0,
        }
    }

    /// Jumps the focused panel to the oldest line that can be shown.
    pub fn to_end(&mut self)
        ensures
            *final(self) == old(self).after_to_end(),

    {
        match self.selected_section {
            Section::Traces => self.traces_scroll = self.max_traces_scroll(),
            Section::Errors => self.errors_scroll = self.max_errors_scroll(),
        }
    }

    /// How far the trace panel can scroll sideways.
    pub fn max_traces_h_scroll(&self) -> (r: usize)
        ensures
            r == self.spec_max_traces_h_scroll(),
    {
        self.traces_max_line_width.saturating_sub(self.traces_view_cols)
    }

    /// Brings the sideways trace offset back within range.
    pub fn clamp_traces_h_scroll(&mut self)
        ensures
            *final(self) == (App {
                traces_h_scroll: min_of(
                    old(self).traces_h_scroll as int,
                    old(self).spec_max_traces_h_scroll(),
                ) as usize,
                ..*old(self)
            }),
    {
        let max = self.max_traces_h_scroll();
        if self.traces_h_scroll > max {
            self.traces_h_scroll = max;
        }
    }

    /// How far the error panel can scroll sideways.
    pub fn max_errors_h_scroll(&self) -> (r: usize)
        ensures
            r == self.spec_max_errors_h_scroll(),
    {
        self.errors_max_line_width.saturating_sub(self.errors_view_cols)
    }

    /// Brings the sideways error offset back within range.
    pub fn clamp_errors_h_scroll(&mut self)
        ensures
            *final(self) == (App {
                errors_h_scroll: min_of(
                    old(self).errors_h_scroll as int,
                    old(self).spec_max_errors_h_scroll(),
                ) as usize,
                ..*old(self)
            }),
    {
        let max = self.max_errors_h_scroll();
        if self.errors_h_scroll > max {
            self.errors_h_scroll = max;
        }
    }

    /// Scrolls the focused panel one column to the left.
    pub fn hscroll_left(&mut self)
        ensures
            *final(self) == old(self).after_hscroll_left(),

    {
        match self.selected_section {
            Section::Traces => {
                self.traces_h_scroll = self.traces_h_scroll.saturating_sub(1);
            },
            Section::Errors => {
                self.errors_h_scroll = self.errors_h_scroll.saturating_sub(1);
            },
        }
    }

    /// Scrolls the focused panel one column to the right, no further than
    /// the widest line allows.
    pub fn hscroll_right(&mut self)
        ensures
            *final(self) == old(self).after_hscroll_right(),

    {
        match self.selected_section {
            Section::Traces => {
                let max_off = self.max_traces_h_scroll();
                self.traces_h_scroll = if self.traces_h_scroll < max_off {
                    self.traces_h_scroll + 1
                } else {
                    max_off
                };
            },
            Section::Errors => {
                let max_off = self.max_errors_h_scroll();
                self.errors_h_scroll = if self.errors_h_scroll < max_off {
                    self.errors_h_scroll + 1
                } else {
                    max_off
                };
            },
        }
    }

    /// Moves the focus to the other panel.
    pub fn toggle_section(&mut self)
        ensures
            *final(self) == old(self).after_toggle_section(),

    {
        self.selected_section = match self.selected_section {
            Section::Traces => Section::Errors,
            Section::Errors => Section::Traces,
        };
    }
    /// Keeps a trace line; the oldest leaves when [`MAX_TRACES`] are held.
    pub fn add_trace(&mut self, line: String)
        requires
            old(self).wf(),
        ensures
            final(self).wf(),
            final(self).traces@ == push_capped(old(self).traces@, line, MAX_TRACES as nat),
            *final(self) == (App {
                traces: final(self).traces,
                traces_scroll: min_of(
                    old(self).traces_scroll as int,
                    sat_sub(final(self).traces@.len() as int, old(self).traces_view_rows as int),
                ) as usize,
                ..*old(self)
            }),
    {
        if self.traces.len() == MAX_TRACES {
            self.traces.pop_front();
        }
        self.traces.push_back(line);
        self.clamp_traces_scroll();
    }

    /// Keeps an error or warning line; the oldest leaves when
    /// [`MAX_ERRORS`] are held.
    pub fn add_error(&mut self, error: String)
        requires
            old(self).wf(),
        ensures
            final(self).wf(),
            final(self).errors@ == push_capped(old(self).errors@, error, MAX_ERRORS as nat),
            *final(self) == (App {
                errors: final(self).errors,
                errors_scroll: min_of(
                    old(self).errors_scroll as int,
                    sat_sub(final(self).errors@.len() as int, old(self).errors_view_rows as int),
                ) as usize,
                ..*old(self)
            }),
    {
        if self.errors.len() == MAX_ERRORS {
            self.errors.pop_front();
        }
        self.errors.push_back(error);
        self.clamp_errors_scroll();
    }

    /// Records a latency sample for `route` and marks the bar chart stale.
    pub fn add_latency(&mut self, route: &str, latency: u64)
        requires
            old(self).wf(),
        ensures
            final(self).wf(),
            final(self).latency_view() == record_latency(
                old(self).latency_view(),
                route@,
                latency,
            ),
            *final(self) == (App {
                latencies: final(self).latencies,
                bar_cache_dirty: true,
                ..*old(self)
            }),
    {
        let ghost old_view = self.latency_view();
        assert(string_keys(self.latencies@) =~= keys_of(old_view));
        match find_key(&self.latencies, route) {
            Some(i) => {
                proof {
                    lemma_key_pos(keys_of(old_view), route@);
                }
                let mut entry = (String::new(), RouteStats::with_capacity(0));
                self.latencies.set_and_swap(i, &mut entry);
                assert(self.latencies@[i as int].1.wf());
                entry.1.add(latency);
                self.latencies.set(i, entry);
                assert(self.latency_view() =~= record_latency(old_view, route@, latency));
                assert(keys_of(self.latency_view()) =~= keys_of(old_view));
                assert forall|j: int| 0 <= j < self.latencies@.len() implies (
                #[trigger] self.latencies@[j]).1.wf() by {
                    if j != i {
                        assert(self.latencies@[j] == old(self).latencies@[j]);
                    }
                }
                assert(distinct_keys(self.latency_view())) by {
                    assert forall|a: int, b: int|
                        0 <= a < b < self.latency_view().len() implies self.latency_view()[a].0
                        != self.latency_view()[b].0 by {
                        assert(self.latency_view()[a].0 == keys_of(self.latency_view())[a]);
                        assert(self.latency_view()[b].0 == keys_of(self.latency_view())[b]);
                        assert(old_view[a].0 == keys_of(old_view)[a]);
                        assert(old_view[b].0 == keys_of(old_view)[b]);
                    }
                }
            },
            None => {
                let mut stats = RouteStats::with_capacity(MAX_SAMPLES);
                stats.add(latency);
                let name = crate::text::string_of(route);
                self.latencies.push((name, stats));
                proof {
                    lemma_key_pos(keys_of(old_view), route@);
                }
                assert(self.latency_view() =~= record_latency(old_view, route@, latency));
                assert forall|j: int| 0 <= j < self.latencies@.len() implies (
                #[trigger] self.latencies@[j]).1.wf() by {
                    if j < old(self).latencies@.len() {
                        assert(self.latencies@[j] == old(self).latencies@[j]);
                    }
                }
                assert(distinct_keys(self.latency_view())) by {
                    assert forall|a: int, b: int|
                        0 <= a < b < self.latency_view().len() implies self.latency_view()[a].0
                        != self.latency_view()[b].0 by {
                        if b == old_view.len() {
                            assert(keys_of(old_view)[a] == old_view[a].0);
                        }
                    }
                }
            },
        }
        self.bar_cache_dirty = true;
    }
    /// Counts one sighting of the field path `key`.
    pub fn bump_key(&mut self, key: String)
        requires
            old(self).wf(),
        ensures
            final(self).wf(),
            final(self).freq_view() == freq_bump(old(self).freq_view(), key@),
            *final(self) == (App { json_key_freq: final(self).json_key_freq, ..*old(self) }),
    {
        let ghost old_view = self.freq_view();
        assert(string_keys(self.json_key_freq@) =~= keys_of(old_view));
        proof {
            lemma_key_pos(keys_of(old_view), key@);
        }
        match find_key(&self.json_key_freq, key.as_str()) {
            Some(i) => {
                let c = self.json_key_freq[i].1;
                let n = c.saturating_add(1);
                self.json_key_freq.set(i, (key, n));
                assert(self.freq_view() =~= freq_bump(old_view, key@));
                assert(keys_of(self.freq_view()) =~= keys_of(old_view));
                assert(distinct_keys(self.freq_view())) by {
                    assert forall|a: int, b: int|
                        0 <= a < b < self.freq_view().len() implies self.freq_view()[a].0
                        != self.freq_view()[b].0 by {
                        assert(self.freq_view()[a].0 == keys_of(self.freq_view())[a]);
                        assert(self.freq_view()[b].0 == keys_of(self.freq_view())[b]);
                        assert(old_view[a].0 == keys_of(old_view)[a]);
                        assert(old_view[b].0 == keys_of(old_view)[b]);
                    }
                }
            },
            None => {
                self.json_key_freq.push((key, 1));
                assert(self.freq_view() =~= freq_bump(old_view, key@));
                assert(distinct_keys(self.freq_view())) by {
                    assert forall|a: int, b: int|
                        0 <= a < b < self.freq_view().len() implies self.freq_view()[a].0
                        != self.freq_view()[b].0 by {
                        if b == old_view.len() {
                            assert(keys_of(old_view)[a] == old_view[a].0);
                        }
                    }
                }
            },
        }
    }

    /// Counts every field path of a JSON value below `prefix`, for the
    /// suggestions of the configuration dialog.
    pub fn collect_json_paths(&mut self, v: &JsonValue, prefix: String)
        requires
            old(self).wf(),
        ensures
            final(self).wf(),
            final(self).freq_view() == collect_paths(old(self).freq_view(), *v, prefix@),
            *final(self) == (App { json_key_freq: final(self).json_key_freq, ..*old(self) }),
        decreases v,
    {
        if self.json_key_freq.len() >= MAX_KEYS {
            return;
        }
        match v {
            JsonValue::Object(entries) => {
                let ghost t0 = self.freq_view();
                let mut i: usize = 0;
                while i < entries.len()
                    invariant
                        i <= entries.len(),
                        self.wf(),
                        *v == JsonValue::Object(*entries),
                        t0.len() < MAX_KEYS,
                        collect_paths(t0, *v, prefix@) == collect_members(
                            self.freq_view(),
                            entries@,
                            prefix@,
                            i as int,
                        ),
                        *self == (App { json_key_freq: self.json_key_freq, ..*old(self) }),
                    decreases entries.len() - i,
                {
                    let ghost before = self.freq_view();
                    let path = if prefix.as_str().is_empty() {
                        crate::text::string_of(entries[i].0.as_str())
                    } else {
                        let mut p = crate::text::string_of(prefix.as_str());
                        crate::text::push_char(&mut p, '.');
                        crate::text::push_str(&mut p, entries[i].0.as_str());
                        p
                    };
                    assert(path@ == child_path(prefix@, entries@[i as int].0@));
                    let path_copy = crate::text::string_of(path.as_str());
                    self.bump_key(path);
                    self.collect_json_paths(&entries[i].1, path_copy);
                    i = i + 1;
                }
            },
            JsonValue::Array(items) => {
                let ghost t0 = self.freq_view();
                let mut i: usize = 0;
                while i < items.len()
                    invariant
                        i <= items.len(),
                        self.wf(),
                        *v == JsonValue::Array(*items),
                        t0.len() < MAX_KEYS,
                        collect_paths(t0, *v, prefix@) == collect_items(
                            self.freq_view(),
                            items@,
                            prefix@,
                            i as int,
                        ),
                        *self == (App { json_key_freq: self.json_key_freq, ..*old(self) }),
                    decreases items.len() - i,
                {
                    let mut path = crate::text::string_of(prefix.as_str());
                    crate::text::push_char(&mut path, '[');
                    let digits = crate::text::u64_to_string(i as u64);
                    crate::text::push_str(&mut path, digits.as_str());
                    crate::text::push_char(&mut path, ']');
                    assert(path@ =~= index_path(prefix@, i as nat));
                    self.collect_json_paths(&items[i], path);
                    i = i + 1;
                }
            },
            _ => {},
        }
    }
    /// Counts the keys of the `key=value` pairs of a text line.
    pub fn scan_text_keys(&mut self, v: &Vec<char>)
        requires
            old(self).wf(),
        ensures
            final(self).wf(),
            final(self).freq_view() == scan_text_keys(old(self).freq_view(), v@, 0),
            *final(self) == (App { json_key_freq: final(self).json_key_freq, ..*old(self) }),
    {
        let mut last: Option<usize> = None;
        let mut p: usize = 0;
        while p < v.len()
            invariant
                p <= v.len(),
                self.wf(),
                last matches Some(w) ==> w < p && last_ws_before(v@, p as int) == Some(w as int),
                last is None ==> last_ws_before(v@, p as int) is None,
                scan_text_keys(old(self).freq_view(), v@, 0) == scan_text_keys(
                    self.freq_view(),
                    v@,
                    p as int,
                ),
                *self == (App { json_key_freq: self.json_key_freq, ..*old(self) }),
            decreases v.len() - p,
        {
            let c = v[p];
            if c == '=' {
                if let Some(w) = last {
                    if w + 1 < p && self.json_key_freq.len() < MAX_KEYS {
                        let key = crate::text::string_from_range(v, w + 1, p);
                        self.bump_key(key);
                    }
                }
            }
            if crate::text::is_whitespace(c) {
                last = Some(p);
            }
            p = p + 1;
        }
    }

    /// The route and scaled latency of a text line (see [`text_sample`]).
    pub fn text_sample(&self, v: &Vec<char>) -> (r: Option<(String, u64)>)
        ensures
            r matches Some(x) ==> text_sample(self.cfg, v@) == Some((x.0@, x.1)),
            r is None ==> text_sample(self.cfg, v@) is None,
    {
        let mut rk = chars_of(self.cfg.route_field_raw.as_str());
        rk.push('=');
        let mut lk = chars_of(self.cfg.latency_field_raw.as_str());
        lk.push('=');
        match crate::text::find_sub(v, &rk, 0) {
            Some(a) => {
                assert(find_from(v@, rk@, 0) == Some(a as int));
                proof {
                    crate::text::lemma_find_from(v@, rk@, 0);
                }
                assert(crate::text::matches_at(v@, rk@, a as int));
                assert(a + rk.len() <= v.len());
                let start = a + rk.len();
                let end = find_ws(v, start);
                let route = crate::text::string_from_range(v, start, end);
                assert(route@ =~= v@.skip(start as int).take(first_ws(v@.skip(start as int))));
                match crate::text::find_sub(v, &lk, 0) {
                    Some(b) => {
                        assert(find_from(v@, lk@, 0) == Some(b as int));
                        proof {
                            crate::text::lemma_find_from(v@, lk@, 0);
                        }
                        let ls = b + lk.len();
                        let le = find_non_numeric(v, ls);
                        let digits = crate::text::string_from_range(v, ls, le);
                        assert(digits@ =~= v@.skip(ls as int).take(
                            first_non_numeric(v@.skip(ls as int)),
                        ));
                        match crate::text::parse_u64(digits.as_str()) {
                            Some(l) => {
                                let d: u64 = if self.cfg.latency_scale >= 1 {
                                    self.cfg.latency_scale
                                } else {
                                    1
                                };
                                Some((route, l / d))
                            },
                            None => None,
                        }
                    },
                    None => None,
                }
            },
            None => None,
        }
    }
    /// Takes in one log line: it joins the traces, and the errors when it
    /// mentions `ERROR` or `WARN`; a JSON record adds its field paths and,
    /// when its route and latency fields are present, a latency sample;
    /// otherwise the keys of its `key=value` pairs are counted and a
    /// `route=... latency=...` pair, when present, gives the sample.
    pub fn parse_log_line(&mut self, line: String)
        requires
            old(self).wf(),
        ensures
            final(self).wf(),
            final(self).traces@ == push_capped(old(self).traces@, line, MAX_TRACES as nat),
            final(self).errors@ == (if is_alert(line@) {
                push_capped(old(self).errors@, line, MAX_ERRORS as nat)
            } else {
                old(self).errors@
            }),
            final(self).freq_view() == line_keys(old(self).freq_view(), line@),
            final(self).latency_view() == (match line_sample(old(self).cfg, line@) {
                Some(x) => record_latency(old(self).latency_view(), x.0, x.1),
                None => old(self).latency_view(),
            }),
            final(self).bar_cache_dirty == (old(self).bar_cache_dirty || line_sample(
                old(self).cfg,
                line@,
            ) is Some),
            final(self).traces_scroll == min_of(
                old(self).traces_scroll as int,
                sat_sub(final(self).traces@.len() as int, old(self).traces_view_rows as int),
            ),
            final(self).errors_scroll == (if is_alert(line@) {
                min_of(
                    old(self).errors_scroll as int,
                    sat_sub(final(self).errors@.len() as int, old(self).errors_view_rows as int),
                )
            } else {
                old(self).errors_scroll as int
            }),
            *final(self) == (App {
                traces: final(self).traces,
                errors: final(self).errors,
                json_key_freq: final(self).json_key_freq,
                latencies: final(self).latencies,
                bar_cache_dirty: final(self).bar_cache_dirty,
                traces_scroll: final(self).traces_scroll,
                errors_scroll: final(self).errors_scroll,
                ..*old(self)
            }),
    {
        let v = chars_of(line.as_str());
        let alert = crate::text::contains_str(line.as_str(), "ERROR")
            || crate::text::contains_str(line.as_str(), "WARN");
        self.add_trace(line.clone());
        if alert {
            self.add_error(line.clone());
        }
        if crate::text::likely_json_object(line.as_str()) {
            match crate::json::parse_json(line.as_str()) {
                Some(json) => {
                    self.collect_json_paths(&json, String::new());
                    match json_record_sample(&self.cfg, &json) {
                        Some((r, l)) => {
                            self.add_latency(r.as_str(), l);
                            return;
                        },
                        None => {},
                    }
                },
                None => {},
            }
        } else {
            self.scan_text_keys(&v);
        }
        match self.text_sample(&v) {
            Some((route, l)) => {
                self.add_latency(route.as_str(), l);
            },
            None => {},
        }
    }
    /// Up to `limit` collected field paths that start with `prefix`, most
    /// often seen first, ties broken by path.
    pub fn build_suggestions(&self, prefix: &str, limit: usize) -> (r: Vec<String>)
        requires
            self.wf(),
        ensures
            is_suggestion_list(
                self.freq_view(),
                prefix@,
                limit as nat,
                Seq::new(r@.len(), |j: int| r@[j]@),
            ),
    {
        let t = &self.json_key_freq;
        let ghost tv = self.freq_view();
        let n = t.len();
        let p = chars_of(prefix);
        let mut keys: Vec<Vec<char>> = Vec::new();
        let mut ok: Vec<bool> = Vec::new();
        let mut taken: Vec<bool> = Vec::new();
        let mut i: usize = 0;
        while i < n
            invariant
                i <= n == t.len() == tv.len(),
                tv == freq_entries(t@),
                p@ == prefix@,
                keys.len() == i && ok.len() == i && taken.len() == i,
                forall|j: int| 0 <= j < i ==> (#[trigger] keys@[j])@ == tv[j].0,
                forall|j: int| 0 <= j < i ==> #[trigger] ok@[j] == has_prefix(tv[j].0, p@),
                forall|j: int| 0 <= j < i ==> !(#[trigger] taken@[j]),
            decreases n - i,
        {
            let k = chars_of(t[i].0.as_str());
            ok.push(crate::config::starts_with(&k, &p));
            keys.push(k);
            taken.push(false);
            i = i + 1;
        }
        let mut out: Vec<String> = Vec::new();
        let ghost mut idx: Seq<int> = Seq::empty();
        while out.len() < limit
            invariant
                n == t.len() == tv.len(),
                tv == freq_entries(t@),
                distinct_keys(tv),
                p@ == prefix@,
                keys.len() == n && ok.len() == n && taken.len() == n,
                forall|j: int| 0 <= j < n ==> (#[trigger] keys@[j])@ == tv[j].0,
                forall|j: int| 0 <= j < n ==> #[trigger] ok@[j] == has_prefix(tv[j].0, p@),
                out.len() <= limit,
                idx.len() == out.len(),
                forall|j: int|
                    0 <= j < idx.len() ==> 0 <= #[trigger] idx[j] < n && taken@[idx[j]]
                        && ok@[idx[j]] && out@[j]@ == tv[idx[j]].0,
                forall|m: int| 0 <= m < n && #[trigger] taken@[m] ==> idx.contains(m),
                forall|a: int, b: int|
                    0 <= a < b < idx.len() ==> ranks_before(tv[idx[a]], tv[idx[b]]),
                forall|j: int, m: int|
                    0 <= j < idx.len() && 0 <= m < n && ok@[m] && !taken@[m] ==> ranks_before(
                        tv[#[trigger] idx[j]],
                        #[trigger] tv[m],
                    ),
            ensures
                out.len() == limit || forall|m: int| 0 <= m < n && ok@[m] ==> taken@[m],
            decreases limit - out.len(),
        {
            let mut best: Option<usize> = None;
            let mut i: usize = 0;
            while i < n
                invariant
                    i <= n == t.len() == tv.len(),
                    tv == freq_entries(t@),
                    distinct_keys(tv),
                    keys.len() == n && ok.len() == n && taken.len() == n,
                    forall|j: int| 0 <= j < n ==> (#[trigger] keys@[j])@ == tv[j].0,
                    best matches Some(b) ==> b < i && ok@[b as int] && !taken@[b as int] && forall|
                        j: int,
                    |
                        0 <= j < i && ok@[j] && !taken@[j] && j != b ==> ranks_before(
                            tv[b as int],
                            #[trigger] tv[j],
                        ),
                    best is None ==> forall|j: int| 0 <= j < i ==> !(ok@[j] && !taken@[j]),
                decreases n - i,
            {
                if ok[i] && !taken[i] {
                    match best {
                        None => {
                            best = Some(i);
                        },
                        Some(b) => {
                            let better = t[i].1 > t[b].1 || (t[i].1 == t[b].1 && lex_less(
                                &keys[i],
                                &keys[b],
                            ));
                            assert(tv[i as int] == (t@[i as int].0@, t@[i as int].1));
                            assert(tv[b as int] == (t@[b as int].0@, t@[b as int].1));
                            assert(better == ranks_before(tv[i as int], tv[b as int]));
                            assert(tv[b as int].0 != tv[i as int].0);
                            if better {
                                proof {
                                    assert forall|j: int|
                                        0 <= j < i + 1 && ok@[j] && !taken@[j] && j != i implies ranks_before(
                                        tv[i as int],
                                        #[trigger] tv[j],
                                    ) by {
                                        if j != b {
                                            lemma_rank_order(tv[i as int], tv[b as int], tv[j]);
                                        }
                                    }
                                }
                                best = Some(i);
                            } else {
                                proof {
                                    lemma_rank_order(tv[b as int], tv[i as int], tv[i as int]);
                                }
                            }
                        },
                    }
                }
                i = i + 1;
            }
            match best {
                None => {
                    break ;
                },
                Some(b) => {
                    let ghost old_taken = taken@;
                    taken.set(b, true);
                    out.push(t[b].0.clone());
                    proof {
                        assert forall|m: int| 0 <= m < n && #[trigger] taken@[m] implies idx.push(
                            b as int,
                        ).contains(m) by {
                            if m != b {
                                assert(old_taken[m]);
                                let w = choose|w: int| 0 <= w < idx.len() && idx[w] == m;
                                assert(idx.push(b as int)[w] == m);
                            } else {
                                assert(idx.push(b as int)[idx.len() as int] == m);
                            }
                        }
                        idx = idx.push(b as int);
                    }
                },
            }
        }
        let ghost r = Seq::new(out@.len(), |j: int| out@[j]@);
        proof {
            assert forall|j: int| 0 <= j < r.len() implies #[trigger] key_pos(keys_of(tv), r[j])
                == Some(idx[j]) by {
                lemma_key_pos_distinct(tv, idx[j]);
            }
            assert forall|j: int| 0 <= j < r.len() implies #[trigger] key_pos(keys_of(tv), r[j])
                is Some && has_prefix(r[j], prefix@) by {}
            assert forall|a: int, b: int| 0 <= a < b < r.len() implies ranks_before(
                tv[key_pos(keys_of(tv), r[a])->0],
                tv[key_pos(keys_of(tv), r[b])->0],
            ) by {
                assert(key_pos(keys_of(tv), r[a]) == Some(idx[a]));
                assert(key_pos(keys_of(tv), r[b]) == Some(idx[b]));
            }
            assert forall|m: int|
                0 <= m < tv.len() && has_prefix(tv[m].0, prefix@) && !r.contains(
                    #[trigger] tv[m].0,
                ) implies r.len() == limit && (r.len() == 0 || ranks_before(
                tv[key_pos(keys_of(tv), r.last())->0],
                tv[m],
            )) by {
                if taken@[m] {
                    let w = choose|w: int| 0 <= w < idx.len() && idx[w] == m;
                    assert(r[w] == tv[m].0);
                }
                if r.len() > 0 {
                    assert(key_pos(keys_of(tv), r[r.len() - 1]) == Some(idx[r.len() - 1]));
                }
            }
        }
        out
    }
    /// Refreshes the bar chart: the routes with the highest mean latency,
    /// highest first.
    pub fn recompute_bar_cache(&mut self)
        requires
            old(self).wf(),
        ensures
            final(self).wf(),
            is_bar_chart(old(self).latency_view(), bar_entries(final(self).cached_bar_data@)),
            *final(self) == (App {
                cached_bar_data: final(self).cached_bar_data,
                bar_cache_dirty: false,
                ..*old(self)
            }),
    {
        let ghost tv = self.latency_view();
        let n = self.latencies.len();
        let mut avgs: Vec<u64> = Vec::new();
        let mut taken: Vec<bool> = Vec::new();
        let mut i: usize = 0;
        while i < n
            invariant
                i <= n == self.latencies.len() == tv.len(),
                tv == latency_entries(self.latencies@),
                self.wf(),
                avgs.len() == i && taken.len() == i,
                forall|j: int| 0 <= j < i ==> #[trigger] avgs@[j] == mean(tv[j].1),
                forall|j: int| 0 <= j < i ==> !(#[trigger] taken@[j]),
            decreases n - i,
        {
            assert(self.latencies@[i as int].1.wf());
            avgs.push(self.latencies[i].1.average());
            taken.push(false);
            i = i + 1;
        }
        let mut out: Vec<(String, u64)> = Vec::new();
        let ghost mut idx: Seq<int> = Seq::empty();
        while out.len() < MAX_BARS
            invariant
                n == self.latencies.len() == tv.len(),
                tv == latency_entries(self.latencies@),
                distinct_keys(tv),
                avgs.len() == n && taken.len() == n,
                forall|j: int| 0 <= j < n ==> #[trigger] avgs@[j] == mean(tv[j].1),
                out.len() <= MAX_BARS,
                idx.len() == out.len(),
                forall|j: int|
                    0 <= j < idx.len() ==> 0 <= #[trigger] idx[j] < n && taken@[idx[j]]
                        && out@[j].0@ == tv[idx[j]].0 && out@[j].1 == avgs@[idx[j]],
                forall|m: int| 0 <= m < n && #[trigger] taken@[m] ==> idx.contains(m),
                forall|a: int, b: int|
                    0 <= a < b < idx.len() ==> idx[a] != idx[b] && avgs@[idx[a]] >= avgs@[idx[b]],
                forall|j: int, m: int|
                    0 <= j < idx.len() && 0 <= m < n && !taken@[m] ==> avgs@[#[trigger] idx[j]]
                        >= #[trigger] avgs@[m],
            ensures
                out.len() == MAX_BARS || forall|m: int| 0 <= m < n ==> taken@[m],
            decreases MAX_BARS - out.len(),
        {
            let mut best: Option<usize> = None;
            let mut i: usize = 0;
            while i < n
                invariant
                    i <= n,
                    avgs.len() == n && taken.len() == n,
                    best matches Some(b) ==> b < i && !taken@[b as int] && forall|j: int|
                        0 <= j < i && !taken@[j] ==> avgs@[b as int] >= #[trigger] avgs@[j],
                    best is None ==> forall|j: int| 0 <= j < i ==> taken@[j],
                decreases n - i,
            {
                if !taken[i] {
                    match best {
                        None => {
                            best = Some(i);
                        },
                        Some(b) => {
                            if avgs[i] > avgs[b] {
                                best = Some(i);
                            }
                        },
                    }
                }
                i = i + 1;
            }
            match best {
                None => {
                    break ;
                },
                Some(b) => {
                    let ghost old_taken = taken@;
                    taken.set(b, true);
                    let name = self.latencies[b].0.clone();
                    out.push((name, avgs[b]));
                    proof {
                        assert forall|m: int| 0 <= m < n && #[trigger] taken@[m] implies idx.push(
                            b as int,
                        ).contains(m) by {
                            if m != b {
                                assert(old_taken[m]);
                                let w = choose|w: int| 0 <= w < idx.len() && idx[w] == m;
                                assert(idx.push(b as int)[w] == m);
                            } else {
                                assert(idx.push(b as int)[idx.len() as int] == m);
                            }
                        }
                        idx = idx.push(b as int);
                    }
                },
            }
        }
        let ghost r = bar_entries(out@);
        proof {
            assert forall|j: int| 0 <= j < r.len() implies #[trigger] key_pos(keys_of(tv), r[j].0)
                == Some(idx[j]) by {
                lemma_key_pos_distinct(tv, idx[j]);
            }
            assert forall|j: int|
                0 <= j < r.len() implies #[trigger] key_pos(keys_of(tv), r[j].0) is Some && r[j].1
                == mean(tv[key_pos(keys_of(tv), r[j].0)->0].1) by {}
            assert forall|a: int, b: int| 0 <= a < b < r.len() implies r[a].0 != r[b].0 && r[a].1
                >= r[b].1 by {
                assert(r[a].0 == tv[idx[a]].0);
                assert(r[b].0 == tv[idx[b]].0);
            }
            assert forall|m: int|
                0 <= m < tv.len() && !keys_of(r).contains(#[trigger] tv[m].0) implies r.len()
                == MAX_BARS && (r.len() == 0 || mean(tv[m].1) <= r.last().1) by {
                if taken@[m] {
                    let w = choose|w: int| 0 <= w < idx.len() && idx[w] == m;
                    assert(keys_of(r)[w] == tv[m].0);
                }
                if r.len() > 0 {
                    assert(avgs@[idx[r.len() - 1]] >= avgs@[m]);
                }
            }
        }
        self.cached_bar_data = out;
        self.bar_cache_dirty = false;
    }
    /// Opens the configuration dialog at the route step, with the most
    /// often seen field paths as suggestions.
    pub fn open_config(&mut self)
        requires
            old(self).wf(),
        ensures
            final(self).wf(),
            config_opened(*old(self), *final(self)),
    {
        proof {
            reveal_strlit("");
        }
        assert(""@ =~= Seq::<char>::empty());
        let suggestions = self.build_suggestions("", MAX_SUGGESTIONS);
        assert(texts(suggestions@) =~= Seq::new(suggestions@.len(), |j: int| suggestions@[j]@));
        self.config_state = Some(
            ConfigState {
                step: ConfigStep::Route,
                route_input: String::new(),
                latency_input: String::new(),
                scale_input: String::new(),
                suggestions,
                selected_idx: 0,
            },
        );
        self.show_config = true;
    }

    /// Applies the dialog's answers and closes it (see [`config_applied`]).
    pub fn apply_config_changes(&mut self)
        requires
            old(self).wf(),
        ensures
            final(self).wf(),
            config_applied(*old(self), *final(self)),
    {
        match self.config_state.take() {
            Some(state) => {
                if !state.route_input.as_str().is_empty() {
                    self.cfg.update_route_field(state.route_input.as_str());
                }
                if !state.latency_input.as_str().is_empty() {
                    self.cfg.update_latency_field(state.latency_input.as_str());
                }
                if !state.scale_input.as_str().is_empty() {
                    match crate::text::parse_u64(state.scale_input.as_str()) {
                        Some(scale) => {
                            self.cfg.latency_scale = scale;
                        },
                        None => {},
                    }
                }
                self.latencies.clear();
                self.bar_cache_dirty = true;
            },
            None => {},
        }
        self.config_state = None;
        self.show_config = false;
    }

    /// Handles a key while the configuration dialog is open (see
    /// [`config_key_outcome`]).
    pub fn handle_config_key(&mut self, code: Key)
        requires
            old(self).wf(),
        ensures
            final(self).wf(),
            config_key_outcome(*old(self), code, *final(self)),
    {
        if self.config_state.is_none() {
            return;
        }
        let ghost pre = *self;
        match code {
            Key::Esc => {
                self.show_config = false;
                self.config_state = None;
            },
            Key::Up => {
                let mut st = self.config_state.take().unwrap();
                if st.suggestions.len() > 0 {
                    st.selected_idx = if st.selected_idx == 0 {
                        st.suggestions.len() - 1
                    } else {
                        st.selected_idx - 1
                    };
                }
                self.config_state = Some(st);
            },
            Key::Down => {
                let mut st = self.config_state.take().unwrap();
                if st.suggestions.len() > 0 {
                    st.selected_idx = (st.selected_idx + 1) % st.suggestions.len();
                }
                self.config_state = Some(st);
            },
            Key::Tab | Key::Right => {
                let mut st = self.config_state.take().unwrap();
                if st.suggestions.len() > 0 && st.selected_idx < st.suggestions.len() {
                    let suggestion = st.suggestions[st.selected_idx].clone();
                    match st.step {
                        ConfigStep::Route => st.route_input = suggestion,
                        ConfigStep::Latency => st.latency_input = suggestion,
                        ConfigStep::Scale => {},
                    }
                }
                self.config_state = Some(st);
            },
            Key::Enter => {
                let step = match &self.config_state {
                    Some(st) => st.step,
                    None => ConfigStep::Scale,
                };
                match step {
                    ConfigStep::Route => {
                        let input = match &self.config_state {
                            Some(st) => crate::text::string_of(st.latency_input.as_str()),
                            None => String::new(),
                        };
                        let suggestions = self.build_suggestions(input.as_str(), MAX_SUGGESTIONS);
                        let mut st = self.config_state.take().unwrap();
                        st.step = ConfigStep::Latency;
                        st.selected_idx = 0;
                        st.suggestions = suggestions;
                        self.config_state = Some(st);
                    },
                    ConfigStep::Latency => {
                        let mut st = self.config_state.take().unwrap();
                        st.step = ConfigStep::Scale;
                        st.suggestions = Vec::new();
                        st.selected_idx = 0;
                        self.config_state = Some(st);
                    },
                    ConfigStep::Scale => {
                        self.apply_config_changes();
                    },
                }
            },
            Key::Backspace => {
                let (step, text) = match &self.config_state {
                    Some(st) => {
                        let cur = match st.step {
                            ConfigStep::Route => chars_of(st.route_input.as_str()),
                            ConfigStep::Latency => chars_of(st.latency_input.as_str()),
                            ConfigStep::Scale => chars_of(st.scale_input.as_str()),
                        };
                        let end = if cur.len() > 0 {
                            cur.len() - 1
                        } else {
                            0
                        };
                        (st.step, crate::text::string_from_range(&cur, 0, end))
                    },
                    None => (ConfigStep::Scale, String::new()),
                };
                proof {
                    let cur = current_input(pre.config_state->0);
                    assert(text@ =~= drop_last_char(cur));
                }
                self.replace_input(step, text);
            },
            Key::Char(c) => {
                let (step, text, keep) = match &self.config_state {
                    Some(st) => {
                        let mut cur = match st.step {
                            ConfigStep::Route => crate::text::string_of(st.route_input.as_str()),
                            ConfigStep::Latency => crate::text::string_of(
                                st.latency_input.as_str(),
                            ),
                            ConfigStep::Scale => crate::text::string_of(st.scale_input.as_str()),
                        };
                        let keep = st.step == ConfigStep::Scale && !('0' <= c && c <= '9');
                        crate::text::push_char(&mut cur, c);
                        (st.step, cur, keep)
                    },
                    None => (ConfigStep::Scale, String::new(), true),
                };
                if !keep {
                    self.replace_input(step, text);
                }
            },
            _ => {},
        }
    }

    /// Replaces the dialog's answer for `step` (the current step) with
    /// `text` and, for the route and latency steps, refreshes the
    /// suggestions for it.
    pub fn replace_input(&mut self, step: ConfigStep, text: String)
        requires
            old(self).wf(),
            old(self).config_state matches Some(st) && st.step == step,
        ensures
            final(self).wf(),
            input_edited(*old(self), *final(self), text@),
    {
        let suggestions = match step {
            ConfigStep::Scale => Vec::new(),
            _ => self.build_suggestions(text.as_str(), MAX_SUGGESTIONS),
        };
        let mut st = self.config_state.take().unwrap();
        match step {
            ConfigStep::Route => {
                st.route_input = text;
                st.suggestions = suggestions;
                st.selected_idx = 0;
            },
            ConfigStep::Latency => {
                st.latency_input = text;
                st.suggestions = suggestions;
                st.selected_idx = 0;
            },
            ConfigStep::Scale => {
                st.scale_input = text;
            },
        }
        self.config_state = Some(st);
    }

    /// Handles a key in the main view (see [`nav_key_outcome`]).
    pub fn handle_nav_key(&mut self, code: Key)
        requires
            old(self).wf(),
        ensures
            final(self).wf(),
            nav_key_outcome(*old(self), code, *final(self)),
    {
        if self.show_help {
            match code {
                Key::Char('?') | Key::Esc => self.show_help = false,
                _ => {},
            }
            return;
        }
        match code {
            Key::Char('?') => self.show_help = true,
            Key::Char('c') => self.open_config(),
            Key::Tab | Key::BackTab => self.toggle_section(),
            Key::Up => self.scroll_up(),
            Key::Down => self.scroll_down(),
            Key::Left => self.hscroll_left(),
            Key::Right => self.hscroll_right(),
            Key::PageUp => self.page_up(),
            Key::PageDown => self.page_down(),
            Key::Home => self.to_home(),
            Key::End => self.to_end(),
            Key::Char('j') => self.scroll_down(),
            Key::Char('k') => self.scroll_up(),
            Key::Char('h') => self.hscroll_left(),
            Key::Char('l') => self.hscroll_right(),
            _ => {},
        }
    }

    /// Handles a key press: `q` quits (the answer is `true`) unless the
    /// configuration dialog is open; other keys go to the dialog when it is
    /// open and to the main view otherwise.
    pub fn handle_key(&mut self, code: Key) -> (quit: bool)
        requires
            old(self).wf(),
        ensures
            final(self).wf(),
            quit == (code == Key::Char('q') && !old(self).show_config),
            quit ==> *final(self) == *old(self),
            !quit && old(self).show_config ==> config_key_outcome(*old(self), code, *final(self)),
            !quit && !old(self).show_config ==> nav_key_outcome(
                *old(self),
                code,
                *final(self),
            ),
    {
        if code == Key::Char('q') && !self.show_config {
            return true;
        }
        if self.show_config {
            self.handle_config_key(code);
        } else {
            self.handle_nav_key(code);
        }
        false
    }
    /// Fits the panels to their screen areas (borders take two rows and two
    /// columns) and brings all scroll offsets back within range.
    pub fn update_layout(&mut self, traces_area: Rect, errors_area: Rect)
        requires
            old(self).wf(),
        ensures
            final(self).wf(),
            final(self).traces_view_rows == sat_sub(traces_area.height as int, 2),
            final(self).traces_view_cols == sat_sub(traces_area.width as int, 2),
            final(self).traces_max_line_width == max_width(old(self).traces@),
            final(self).errors_view_rows == sat_sub(errors_area.height as int, 2),
            final(self).errors_view_cols == sat_sub(errors_area.width as int, 2),
            final(self).errors_max_line_width == max_width(old(self).errors@),
            final(self).traces_scroll == min_of(
                old(self).traces_scroll as int,
                final(self).spec_max_traces_scroll(),
            ),
            final(self).traces_h_scroll == min_of(
                old(self).traces_h_scroll as int,
                final(self).spec_max_traces_h_scroll(),
            ),
            final(self).errors_scroll == min_of(
                old(self).errors_scroll as int,
                final(self).spec_max_errors_scroll(),
            ),
            final(self).errors_h_scroll == min_of(
                old(self).errors_h_scroll as int,
                final(self).spec_max_errors_h_scroll(),
            ),
            *final(self) == (App {
                traces_view_rows: final(self).traces_view_rows,
                traces_view_cols: final(self).traces_view_cols,
                traces_max_line_width: final(self).traces_max_line_width,
                errors_view_rows: final(self).errors_view_rows,
                errors_view_cols: final(self).errors_view_cols,
                errors_max_line_width: final(self).errors_max_line_width,
                traces_scroll: final(self).traces_scroll,
                traces_h_scroll: final(self).traces_h_scroll,
                errors_scroll: final(self).errors_scroll,
                errors_h_scroll: final(self).errors_h_scroll,
                ..*old(self)
            }),
    {
        self.traces_view_rows = traces_area.height.saturating_sub(2) as usize;
        self.clamp_traces_scroll();
        self.traces_view_cols = traces_area.width.saturating_sub(2) as usize;
        self.traces_max_line_width = widest(&self.traces);
        self.clamp_traces_h_scroll();
        self.errors_view_rows = errors_area.height.saturating_sub(2) as usize;
        self.clamp_errors_scroll();
        self.errors_view_cols = errors_area.width.saturating_sub(2) as usize;
        self.errors_max_line_width = widest(&self.errors);
        self.clamp_errors_h_scroll();
    }

    /// The trace lines that the trace panel shows, newest first, cropped to
    /// its columns.
    pub fn visible_traces(&self) -> (r: Vec<String>)
        ensures
            texts(r@) == visible_lines(
                self.traces@,
                self.traces_scroll as int,
                self.traces_view_rows as int,
                self.traces_h_scroll as int,
                self.traces_view_cols as int,
            ),
    {
        visible(
            &self.traces,
            self.traces_scroll,
            self.traces_view_rows,
            self.traces_h_scroll,
            self.traces_view_cols,
        )
    }

    /// The error lines that the error panel shows, newest first, cropped to
    /// its columns.
    pub fn visible_errors(&self) -> (r: Vec<String>)
        ensures
            texts(r@) == visible_lines(
                self.errors@,
                self.errors_scroll as int,
                self.errors_view_rows as int,
                self.errors_h_scroll as int,
                self.errors_view_cols as int,
            ),
    {
        visible(
            &self.errors,
            self.errors_scroll,
            self.errors_view_rows,
            self.errors_h_scroll,
            self.errors_view_cols,
        )
    }
}

} // verus!
