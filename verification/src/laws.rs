//! Properties that hold across the viewer's operations.
use vstd::prelude::*;

use crate::app::{
    config_key_outcome, distinct_keys, freq_bump, is_suggestion_list, key_pos, keys_of,
    lemma_key_pos, lemma_rank_order, push_capped, ranks_before, record_latency, sat_sub, App,
    Section,
};
use crate::config::has_prefix;
use crate::config::{chosen_latency, chosen_route, chosen_scale, CliArgs, EnvConfig, FileConfig};
use crate::app::{collect_items, collect_members, collect_paths, MAX_KEYS};
use crate::app::{first_non_numeric, first_ws, text_sample, ConfigStep, texts, MAX_SUGGESTIONS};
use crate::config::{divisor, follow_keys, FieldConfig};
use crate::json::{JsonNumber, JsonValue};
use crate::keys::Key;
use crate::text::{char_is_numeric, find_from, is_digit, matches_at, spec_is_whitespace};
use crate::stats::{window_push, MAX_SAMPLES};
use crate::text::{all_digits, decimal, digit_char, digits_value, spec_crop, spec_parse_u64};

verus! {

/// Switching panels twice comes back to the same state.
pub proof fn law_toggle_twice(a: App)
    ensures
        a.after_toggle_section().after_toggle_section() == a,
{
}

/// Scrolling up one line and back down again restores the state, when the
/// panel was not yet at its furthest offset.
pub proof fn law_scroll_up_then_down(a: App)
    requires
        a.traces@.len() <= usize::MAX,
        a.errors@.len() <= usize::MAX,
        a.selected_section == Section::Traces ==> a.traces_scroll < a.spec_max_traces_scroll(),
        a.selected_section == Section::Errors ==> a.errors_scroll < a.spec_max_errors_scroll(),
    ensures
        a.after_scroll_up().after_scroll_down() == a,
{
    if a.selected_section == Section::Traces {
        assert(a.after_scroll_up().traces_scroll == a.traces_scroll + 1);
        assert(a.after_scroll_up().after_scroll_down().traces_scroll == a.traces_scroll);
    } else {
        assert(a.after_scroll_up().errors_scroll == a.errors_scroll + 1);
        assert(a.after_scroll_up().after_scroll_down().errors_scroll == a.errors_scroll);
    }
}

/// Scrolling down one line and back up again restores the state, when the
/// panel was scrolled and within range.
pub proof fn law_scroll_down_then_up(a: App)
    requires
        a.selected_section == Section::Traces ==> 0 < a.traces_scroll
            <= a.spec_max_traces_scroll(),
        a.selected_section == Section::Errors ==> 0 < a.errors_scroll
            <= a.spec_max_errors_scroll(),
    ensures
        a.after_scroll_down().after_scroll_up() == a,
{
}

/// Scrolling one column right and back left restores the state, when the
/// panel was not yet at its furthest column.
pub proof fn law_hscroll_right_then_left(a: App)
    requires
        a.selected_section == Section::Traces ==> a.traces_h_scroll
            < a.spec_max_traces_h_scroll(),
        a.selected_section == Section::Errors ==> a.errors_h_scroll
            < a.spec_max_errors_h_scroll(),
    ensures
        a.after_hscroll_right().after_hscroll_left() == a,
{
}

/// Scrolling towards older lines never passes the furthest offset, and
/// jumping to the end lands exactly on it.
pub proof fn law_scroll_within_range(a: App)
    requires
        a.wf(),
    ensures
        a.after_scroll_up().traces_scroll <= sat_sub(a.traces@.len() as int, a.traces_view_rows as int) || a.after_scroll_up().traces_scroll == a.traces_scroll,
        a.after_scroll_up().errors_scroll <= sat_sub(a.errors@.len() as int, a.errors_view_rows as int) || a.after_scroll_up().errors_scroll == a.errors_scroll,
        a.after_page_up().traces_scroll <= a.spec_max_traces_scroll() || a.after_page_up().traces_scroll == a.traces_scroll,
        a.after_page_up().errors_scroll <= a.spec_max_errors_scroll() || a.after_page_up().errors_scroll == a.errors_scroll,
        a.selected_section == Section::Traces ==> a.after_to_end().traces_scroll == a.spec_max_traces_scroll(),
        a.selected_section == Section::Errors ==> a.after_to_end().errors_scroll == a.spec_max_errors_scroll(),
        a.after_to_home().selected_section == a.selected_section,
{
}

/// In the configuration dialog, Down then Up selects the same suggestion
/// again.
pub proof fn law_selection_down_then_up(a: App, b: App, c: App)
    requires
        a.config_state matches Some(st) && st.selected_idx < st.suggestions@.len(),
        config_key_outcome(a, Key::Down, b),
        config_key_outcome(b, Key::Up, c),
    ensures
        c == a,
{
    let st = a.config_state->0;
    let n = st.suggestions@.len() as int;
    let i = st.selected_idx as int;
    assert(n <= usize::MAX) by {
        assert(st.suggestions@.len() == st.suggestions.len());
    }
    assert(0 <= (i + 1) % n < n) by (nonlinear_arith)
        requires
            n > 0,
    ;
    if i + 1 < n {
        assert((i + 1) % n == i + 1) by (nonlinear_arith)
            requires
                0 <= i + 1 < n,
        ;
    } else {
        assert((i + 1) % n == 0) by (nonlinear_arith)
            requires
                i + 1 == n,
                n > 0,
        ;
    }
}

proof fn lemma_decimal_digits(n: nat)
    ensures
        decimal(n).len() > 0,
        all_digits(decimal(n)),
        digits_value(decimal(n)) == n,
    decreases n,
{
    if n >= 10 {
        lemma_decimal_digits(n / 10);
        let d = decimal(n / 10);
        let s = decimal(n);
        assert(s.drop_last() =~= d);
        assert(s.last() == digit_char(n % 10));
        assert((digit_char(n % 10) as u32) - ('0' as u32) == n % 10);
        assert(n == (n / 10) * 10 + n % 10);
        assert(digits_value(s) == digits_value(s.drop_last()) * 10 + ((s.last() as u32) - (
        '0' as u32)) as nat);
        assert forall|i: int| 0 <= i < s.len() implies crate::text::is_digit(#[trigger] s[i]) by {
            if i < d.len() {
                assert(s[i] == d[i]);
            }
        }
    } else {
        assert(decimal(n).drop_last() =~= Seq::<char>::empty());
        assert((digit_char(n) as u32) - ('0' as u32) == n);
        assert(digits_value(Seq::<char>::empty()) == 0);
        assert(digits_value(decimal(n)) == digits_value(decimal(n).drop_last()) * 10 + ((
        decimal(n).last() as u32) - ('0' as u32)) as nat);
    }
}

/// A number written in decimal parses back to the same number.
pub proof fn law_decimal_parses_back(n: u64)
    ensures
        spec_parse_u64(decimal(n as nat)) == Some(n),
{
    lemma_decimal_digits(n as nat);
    let s = decimal(n as nat);
    assert(s[0] != '+') by {
        assert(crate::text::is_digit(s[0]));
    }
}

/// Cropping never yields more than `max_cols` characters, and a line that
/// fits is shown whole.
pub proof fn law_crop(s: Seq<char>, start: nat, max_cols: nat)
    ensures
        spec_crop(s, start as int, max_cols as int).len() <= max_cols,
        start == 0 && s.len() <= max_cols ==> spec_crop(s, 0, max_cols as int) == s,
{
    if start == 0 && s.len() <= max_cols {
        assert(spec_crop(s, 0, max_cols as int) =~= s);
    }
}

/// A bounded list keeps its newest entry last, never grows past its cap,
/// and loses at most its oldest entry.
pub proof fn law_bounded_list(s: Seq<String>, x: String, cap: nat)
    requires
        s.len() <= cap,
        cap > 0,
    ensures
        push_capped(s, x, cap).last() == x,
        push_capped(s, x, cap).len() <= cap,
        push_capped(s, x, cap).len() == (if s.len() < cap {
            s.len() + 1
        } else {
            cap
        }),
        forall|i: int|
            0 <= i < push_capped(s, x, cap).len() - 1 ==> #[trigger] push_capped(s, x, cap)[i]
                == s[i + s.len() + 1 - push_capped(s, x, cap).len()],
{
}

/// After a latency is recorded for a route, the route is in the table, its
/// newest sample is that latency, and its window holds at most
/// [`MAX_SAMPLES`] samples.
pub proof fn law_record_latency(t: Seq<(Seq<char>, Seq<u64>)>, route: Seq<char>, l: u64)
    requires
        forall|i: int| 0 <= i < t.len() ==> (#[trigger] t[i]).1.len() <= MAX_SAMPLES,
    ensures
        key_pos(keys_of(record_latency(t, route, l)), route) matches Some(i) && record_latency(
            t,
            route,
            l,
        )[i].1.last() == l && record_latency(t, route, l)[i].1.len() <= MAX_SAMPLES,
        record_latency(t, route, l).len() == t.len() + (if key_pos(keys_of(t), route) is Some {
            0int
        } else {
            1int
        }),
{
    crate::app::lemma_key_pos(keys_of(t), route);
    let r = record_latency(t, route, l);
    crate::app::lemma_key_pos(keys_of(r), route);
    match key_pos(keys_of(t), route) {
        Some(i) => {
            assert(keys_of(r) =~= keys_of(t));
            assert(window_push(t[i].1, l).last() == l);
        },
        None => {
            assert(keys_of(r) =~= keys_of(t).push(route));
            assert(keys_of(r)[t.len() as int] == route);
        },
    }
}

/// Counting a path raises its count by one (up to the largest count), or
/// enters it with a count of one.
pub proof fn law_freq_bump(t: Seq<(Seq<char>, usize)>, k: Seq<char>)
    ensures
        key_pos(keys_of(freq_bump(t, k)), k) matches Some(i) && freq_bump(t, k)[i].1 == (match key_pos(
            keys_of(t),
            k,
        ) {
            Some(j) => crate::app::bump_count(t[j].1),
            None => 1usize,
        }),
{
    crate::app::lemma_key_pos(keys_of(t), k);
    let r = freq_bump(t, k);
    crate::app::lemma_key_pos(keys_of(r), k);
    match key_pos(keys_of(t), k) {
        Some(i) => {
            assert(keys_of(r) =~= keys_of(t));
        },
        None => {
            assert(keys_of(r) =~= keys_of(t).push(k));
            assert(keys_of(r)[t.len() as int] == k);
        },
    }
}

/// A setting given on the command line wins over the config file and the
/// environment; with no setting anywhere the defaults apply.
pub proof fn law_configuration_priority(cli: CliArgs, file: Option<FileConfig>, env: EnvConfig)
    ensures
        cli.route_field matches Some(r) ==> chosen_route(cli, file, env) == r@,
        cli.latency_field matches Some(l) ==> chosen_latency(cli, file, env) == l@,
        cli.latency_scale matches Some(x) ==> chosen_scale(cli, file, env) == x,
        cli.route_field is None && file is None && env.route_field is None ==> chosen_route(
            cli,
            file,
            env,
        ) == "route"@,
        cli.latency_field is None && file is None && env.latency_field is None ==> chosen_latency(
            cli,
            file,
            env,
        ) == "latency"@,
        cli.latency_scale is None && file is None && env.latency_scale is None ==> chosen_scale(
            cli,
            file,
            env,
        ) == 1,
        cli.route_field is None && file is Some && file->0.route_field is Some ==> chosen_route(
            cli,
            file,
            env,
        ) == file->0.route_field->0@,
{
}

/// The table entry that holds key `k`.
pub open spec fn entry_of(t: Seq<(Seq<char>, usize)>, k: Seq<char>) -> (Seq<char>, usize) {
    t[key_pos(keys_of(t), k)->0]
}

/// Every path of a suggestion list is held by its own entry, and no path
/// is listed twice.
proof fn lemma_list_shape(t: Seq<(Seq<char>, usize)>, p: Seq<char>, l: nat, r: Seq<Seq<char>>)
    requires
        is_suggestion_list(t, p, l, r),
    ensures
        forall|j: int|
            0 <= j < r.len() ==> 0 <= #[trigger] key_pos(keys_of(t), r[j])->0 < t.len()
                && entry_of(t, r[j]).0 == r[j] && has_prefix(r[j], p),
        forall|a: int, b: int| 0 <= a < b < r.len() ==> r[a] != r[b],
        forall|a: int, b: int|
            0 <= a < b < r.len() ==> ranks_before(entry_of(t, r[a]), entry_of(t, r[b])),
{
    assert forall|j: int| 0 <= j < r.len() implies 0 <= #[trigger] key_pos(keys_of(t), r[j])->0
        < t.len() && entry_of(t, r[j]).0 == r[j] && has_prefix(r[j], p) by {
        assert(key_pos(keys_of(t), r[j]) is Some);
        lemma_key_pos(keys_of(t), r[j]);
        let i = key_pos(keys_of(t), r[j])->0;
        assert(keys_of(t)[i] == t[i].0);
    }
    assert forall|a: int, b: int| 0 <= a < b < r.len() implies r[a] != r[b] by {
        let e = entry_of(t, r[a]);
        lemma_rank_order(e, e, e);
        assert(ranks_before(entry_of(t, r[a]), entry_of(t, r[b])));
    }
}

/// The entry of a listed path ranks before the entry of the last listed
/// path, or is that entry.
proof fn lemma_before_last(
    t: Seq<(Seq<char>, usize)>,
    p: Seq<char>,
    l: nat,
    r: Seq<Seq<char>>,
    j: int,
    z: (Seq<char>, usize),
)
    requires
        is_suggestion_list(t, p, l, r),
        0 <= j < r.len(),
        ranks_before(entry_of(t, r.last()), z),
    ensures
        ranks_before(entry_of(t, r[j]), z),
{
    if j < r.len() - 1 {
        lemma_list_shape(t, p, l, r);
        lemma_rank_order(entry_of(t, r[j]), entry_of(t, r[r.len() - 1]), z);
    }
}

/// A path of one list that ranks before the path at the same place of the
/// other list cannot be missing from that other list.
proof fn lemma_no_overtake(
    t: Seq<(Seq<char>, usize)>,
    p: Seq<char>,
    la: nat,
    lb: nat,
    ra: Seq<Seq<char>>,
    rb: Seq<Seq<char>>,
    j: int,
)
    requires
        distinct_keys(t),
        is_suggestion_list(t, p, la, ra),
        is_suggestion_list(t, p, lb, rb),
        0 <= j < ra.len(),
        0 <= j < rb.len(),
        forall|i: int| 0 <= i < j ==> ra[i] == rb[i],
    ensures
        !ranks_before(entry_of(t, rb[j]), entry_of(t, ra[j])),
{
    if ranks_before(entry_of(t, rb[j]), entry_of(t, ra[j])) {
        lemma_list_shape(t, p, la, ra);
        lemma_list_shape(t, p, lb, rb);
        let x = ra[j];
        let y = rb[j];
        let ex = entry_of(t, x);
        let ey = entry_of(t, y);
        lemma_rank_order(ey, ex, ex);
        assert(key_pos(keys_of(t), y)->0 < t.len());
        if ra.contains(y) {
            let m = choose|m: int| 0 <= m < ra.len() && ra[m] == y;
            if m < j {
                assert(rb[m] == y);
            } else if m == j {
                lemma_rank_order(ex, ex, ex);
            } else {
                assert(ranks_before(entry_of(t, ra[j]), entry_of(t, ra[m])));
            }
        } else {
            let i = key_pos(keys_of(t), y)->0;
            assert(t[i].0 == y);
            assert(has_prefix(t[i].0, p));
            assert(ranks_before(entry_of(t, ra.last()), t[i]));
            lemma_before_last(t, p, la, ra, j, ey);
        }
    }
}

/// A shorter suggestion limit gives a prefix of the longer list: for the
/// same table and prefix, the list for `l1 <= l2` is the first
/// `min(l1, len)` paths of the list for `l2` (what
/// `App::build_suggestions` returns for the two limits).
pub proof fn law_suggestion_limits(
    t: Seq<(Seq<char>, usize)>,
    p: Seq<char>,
    l1: nat,
    l2: nat,
    r1: Seq<Seq<char>>,
    r2: Seq<Seq<char>>,
)
    requires
        distinct_keys(t),
        l1 <= l2,
        is_suggestion_list(t, p, l1, r1),
        is_suggestion_list(t, p, l2, r2),
    ensures
        r1 == r2.take(if l1 <= r2.len() {
            l1 as int
        } else {
            r2.len() as int
        }),
{
    let n = if r1.len() <= r2.len() {
        r1.len()
    } else {
        r2.len()
    };
    lemma_agree_upto(t, p, l1, l2, r1, r2, n as int);
    lemma_list_shape(t, p, l1, r1);
    lemma_list_shape(t, p, l2, r2);
    if r1.len() < r2.len() {
        let y = r2[r1.len() as int];
        let i = key_pos(keys_of(t), y)->0;
        assert(t[i].0 == y);
        if r1.contains(y) {
            let m = choose|m: int| 0 <= m < r1.len() && r1[m] == y;
            assert(r2[m] == y);
        }
        assert(!r1.contains(t[i].0));
        assert(r1.len() == l1);
    } else if r1.len() > r2.len() {
        let x = r1[r2.len() as int];
        let i = key_pos(keys_of(t), x)->0;
        assert(t[i].0 == x);
        if r2.contains(x) {
            let m = choose|m: int| 0 <= m < r2.len() && r2[m] == x;
            assert(r1[m] == x);
        }
        assert(!r2.contains(t[i].0));
        assert(r2.len() == l2);
    }
    assert(r1 =~= r2.take(if l1 <= r2.len() {
        l1 as int
    } else {
        r2.len() as int
    }));
}

proof fn lemma_agree_upto(
    t: Seq<(Seq<char>, usize)>,
    p: Seq<char>,
    l1: nat,
    l2: nat,
    r1: Seq<Seq<char>>,
    r2: Seq<Seq<char>>,
    j: int,
)
    requires
        distinct_keys(t),
        is_suggestion_list(t, p, l1, r1),
        is_suggestion_list(t, p, l2, r2),
        0 <= j <= r1.len(),
        j <= r2.len(),
    ensures
        forall|i: int| 0 <= i < j ==> r1[i] == r2[i],
    decreases j,
{
    if j > 0 {
        lemma_agree_upto(t, p, l1, l2, r1, r2, j - 1);
        let k = j - 1;
        if r1[k] != r2[k] {
            lemma_list_shape(t, p, l1, r1);
            lemma_list_shape(t, p, l2, r2);
            let ex = entry_of(t, r1[k]);
            let ey = entry_of(t, r2[k]);
            lemma_rank_order(ex, ey, ey);
            if ranks_before(ey, ex) {
                lemma_no_overtake(t, p, l1, l2, r1, r2, k);
            } else {
                lemma_no_overtake(t, p, l2, l1, r2, r1, k);
            }
        }
    }
}

/// The name of the config file does not enter the settled configuration:
/// with no file contents (the file could not be read or parsed, or none was
/// named), the result is the same whatever `config_file` says.
pub proof fn law_config_file_name_irrelevant(
    cli: CliArgs,
    other: CliArgs,
    env: EnvConfig,
)
    requires
        other.route_field == cli.route_field,
        other.latency_field == cli.latency_field,
        other.latency_scale == cli.latency_scale,
    ensures
        chosen_route(other, None, env) == chosen_route(cli, None, env),
        chosen_latency(other, None, env) == chosen_latency(cli, None, env),
        chosen_scale(other, None, env) == chosen_scale(cli, None, env),
{
}

/// A route field that holds a JSON integer is read as that integer in
/// decimal, whatever its sign, when it fits in `i64`; strings are read as
/// they are and booleans as `true` / `false`.
pub proof fn law_route_values(cfg: FieldConfig, v: JsonValue)
    ensures
        follow_keys(v, cfg.route_path.keys()) matches Some(JsonValue::Number(JsonNumber::PosInt(u)))
            ==> (u <= i64::MAX <==> cfg.spec_route(v) == Some(decimal(u as nat))) && (u
            > i64::MAX ==> cfg.spec_route(v) is None),
        follow_keys(v, cfg.route_path.keys()) matches Some(JsonValue::Number(JsonNumber::NegInt(i)))
            ==> cfg.spec_route(v) == Some(seq!['-'] + decimal((-i) as nat)) || i >= 0,
        follow_keys(v, cfg.route_path.keys()) matches Some(JsonValue::Str(t)) ==> cfg.spec_route(v)
            == Some(t@),
        follow_keys(v, cfg.route_path.keys()) matches Some(JsonValue::Bool(b)) ==> cfg.spec_route(
            v,
        ) == Some(if b {
            seq!['t', 'r', 'u', 'e']
        } else {
            seq!['f', 'a', 'l', 's', 'e']
        }),
        follow_keys(v, cfg.route_path.keys()) is None ==> cfg.spec_route(v) is None,
{
}

/// The config file's settings win over the environment and the defaults
/// whenever the command line leaves them out.
pub proof fn law_config_file_over_environment(cli: CliArgs, f: FileConfig, env: EnvConfig)
    ensures
        cli.latency_scale is None && f.latency_scale is Some ==> chosen_scale(cli, Some(f), env)
            == f.latency_scale->0,
        cli.route_field is None && f.route_field is Some ==> chosen_route(cli, Some(f), env)
            == f.route_field->0@,
        cli.latency_field is None && f.latency_field is Some ==> chosen_latency(cli, Some(f), env)
            == f.latency_field->0@,
{
}

/// Pressing Enter at the route step suggests field paths for the latency
/// answer typed so far: the new suggestions are the ranked list for that
/// answer, and two dialogs that differ only in their route answer get the
/// same suggestions.
pub proof fn law_enter_suggests_for_latency(a1: App, b1: App, a2: App, b2: App)
    requires
        distinct_keys(a1.freq_view()),
        a1.freq_view() == a2.freq_view(),
        a1.config_state matches Some(s1) && s1.step == ConfigStep::Route,
        a2.config_state matches Some(s2) && s2.step == ConfigStep::Route,
        a1.config_state->0.latency_input@ == a2.config_state->0.latency_input@,
        config_key_outcome(a1, Key::Enter, b1),
        config_key_outcome(a2, Key::Enter, b2),
    ensures
        b1.config_state matches Some(n1) && n1.step == ConfigStep::Latency && is_suggestion_list(
            a1.freq_view(),
            a1.config_state->0.latency_input@,
            MAX_SUGGESTIONS as nat,
            texts(n1.suggestions@),
        ),
        texts(b1.config_state->0.suggestions@) == texts(b2.config_state->0.suggestions@),
{
    let t = a1.freq_view();
    let p = a1.config_state->0.latency_input@;
    let r1 = texts(b1.config_state->0.suggestions@);
    let r2 = texts(b2.config_state->0.suggestions@);
    law_suggestion_limits(t, p, MAX_SUGGESTIONS as nat, MAX_SUGGESTIONS as nat, r1, r2);
    assert(r2.take(r2.len() as int) =~= r2);
}

proof fn lemma_first_match(s: Seq<char>, n: Seq<char>, from: int, a: int)
    requires
        0 <= from <= a,
        matches_at(s, n, a),
        forall|j: int| 0 <= j < a ==> !matches_at(s, n, j),
    ensures
        find_from(s, n, from) == Some(a),
    decreases a - from,
{
    if from < a {
        lemma_first_match(s, n, from + 1, a);
    }
}

proof fn lemma_first_ws_at(r: Seq<char>, e: int)
    requires
        0 <= e <= r.len(),
        forall|k: int| 0 <= k < e ==> !spec_is_whitespace(#[trigger] r[k]),
        e == r.len() || spec_is_whitespace(r[e]),
    ensures
        first_ws(r) == e,
    decreases e,
{
    if e > 0 {
        let d = r.drop_first();
        assert forall|k: int| 0 <= k < e - 1 implies !spec_is_whitespace(#[trigger] d[k]) by {
            assert(d[k] == r[k + 1]);
        }
        if e < r.len() {
            assert(d[e - 1] == r[e]);
        }
        lemma_first_ws_at(d, e - 1);
        assert(!spec_is_whitespace(r[0]));
    }
}

proof fn lemma_first_non_numeric_at(r: Seq<char>, f: int)
    requires
        0 <= f <= r.len(),
        forall|k: int| 0 <= k < f ==> char_is_numeric(#[trigger] r[k]),
        f == r.len() || !char_is_numeric(r[f]),
    ensures
        first_non_numeric(r) == f,
    decreases f,
{
    if f > 0 {
        let d = r.drop_first();
        assert forall|k: int| 0 <= k < f - 1 implies char_is_numeric(#[trigger] d[k]) by {
            assert(d[k] == r[k + 1]);
        }
        if f < r.len() {
            assert(d[f - 1] == r[f]);
        }
        lemma_first_non_numeric_at(d, f - 1);
        assert(char_is_numeric(r[0]));
    }
}

/// A text line gives the sample made of the word after the first
/// `<route field>=` and the digits after the first `<latency field>=`,
/// wherever each pair stands in the line (the latency pair may come
/// before the route pair), the latency divided by the scale.
pub proof fn law_text_line_sample(cfg: FieldConfig, s: Seq<char>, a: int, e: int, b: int, f: int)
    requires
        matches_at(s, cfg.route_field_raw@.push('='), a),
        forall|j: int| 0 <= j < a ==> !matches_at(s, cfg.route_field_raw@.push('='), j),
        a + cfg.route_field_raw@.len() + 1 <= e <= s.len(),
        forall|k: int|
            a + cfg.route_field_raw@.len() + 1 <= k < e ==> !spec_is_whitespace(#[trigger] s[k]),
        e == s.len() || spec_is_whitespace(s[e]),
        matches_at(s, cfg.latency_field_raw@.push('='), b),
        forall|j: int| 0 <= j < b ==> !matches_at(s, cfg.latency_field_raw@.push('='), j),
        b + cfg.latency_field_raw@.len() + 1 < f <= s.len(),
        forall|k: int|
            b + cfg.latency_field_raw@.len() + 1 <= k < f ==> is_digit(#[trigger] s[k])
                && char_is_numeric(s[k]),
        f == s.len() || !char_is_numeric(s[f]),
        digits_value(s.subrange(b + cfg.latency_field_raw@.len() + 1, f)) <= u64::MAX,
    ensures
        text_sample(cfg, s) == Some(
            (
                s.subrange(a + cfg.route_field_raw@.len() + 1, e),
                (digits_value(s.subrange(b + cfg.latency_field_raw@.len() + 1, f)) / divisor(
                    cfg.latency_scale,
                ) as nat) as u64,
            ),
        ),
{
    let rk = cfg.route_field_raw@.push('=');
    let lk = cfg.latency_field_raw@.push('=');
    lemma_first_match(s, rk, 0, a);
    lemma_first_match(s, lk, 0, b);
    let x = a + rk.len();
    let rest = s.skip(x);
    assert forall|k: int| 0 <= k < e - x implies !spec_is_whitespace(#[trigger] rest[k]) by {
        assert(rest[k] == s[x + k]);
    }
    if e < s.len() {
        assert(rest[e - x] == s[e]);
    }
    lemma_first_ws_at(rest, e - x);
    assert(rest.take(e - x) =~= s.subrange(x, e));
    let y = b + lk.len();
    let lat = s.skip(y);
    assert forall|k: int| 0 <= k < f - y implies char_is_numeric(#[trigger] lat[k]) by {
        assert(lat[k] == s[y + k]);
    }
    if f < s.len() {
        assert(lat[f - y] == s[f]);
    }
    lemma_first_non_numeric_at(lat, f - y);
    let ds = s.subrange(y, f);
    assert(lat.take(f - y) =~= ds);
    assert(all_digits(ds)) by {
        assert forall|i: int| 0 <= i < ds.len() implies is_digit(#[trigger] ds[i]) by {
            assert(ds[i] == s[y + i]);
        }
    }
    assert(ds[0] != '+') by {
        assert(is_digit(ds[0]));
    }
    assert(spec_parse_u64(ds) == Some(digits_value(ds) as u64));
}


/// An object with one member, whose value is neither an object nor an
/// array.
spec fn one_plain_member(v: JsonValue) -> bool {
    match v {
        JsonValue::Object(es) => es@.len() == 1 && !(es@[0].1 is Object) && !(es@[0].1 is Array),
        _ => false,
    }
}

/// The path of the member of the array element at `j` below `p`.
spec fn member_path_at(p: Seq<char>, j: int, v: JsonValue) -> Seq<char> {
    match v {
        JsonValue::Object(es) => p + seq!['['] + decimal(j as nat) + seq![']', '.'] + es@[0].0@,
        _ => p,
    }
}

proof fn lemma_bump_keeps(t: Seq<(Seq<char>, usize)>, k: Seq<char>)
    ensures
        freq_bump(t, k).len() <= t.len() + 1,
        freq_bump(t, k).len() >= t.len(),
        forall|j: int| 0 <= j < t.len() ==> freq_bump(t, k)[j].0 == t[j].0,
        keys_of(freq_bump(t, k)).contains(k),
{
    crate::app::lemma_key_pos(keys_of(t), k);
    let r = freq_bump(t, k);
    match key_pos(keys_of(t), k) {
        Some(i) => {
            assert(keys_of(r)[i] == k);
        },
        None => {
            assert(keys_of(r)[t.len() as int] == k);
        },
    }
}

proof fn lemma_one_member(t: Seq<(Seq<char>, usize)>, v: JsonValue, q: Seq<char>)
    requires
        t.len() < MAX_KEYS,
        one_plain_member(v),
        q.len() > 0,
    ensures
        v matches JsonValue::Object(es) && collect_paths(t, v, q) == freq_bump(
            t,
            q + seq!['.'] + es@[0].0@,
        ),
{
    match v {
        JsonValue::Object(es) => {
            let path = crate::app::child_path(q, es@[0].0@);
            let t1 = freq_bump(t, path);
            assert(collect_paths(t1, es@[0].1, path) == t1);
            assert(collect_members(t1, es@, q, 1) == t1);
            assert(collect_members(t, es@, q, 0) == t1);
        },
        _ => {},
    }
}

proof fn lemma_items_paths(t: Seq<(Seq<char>, usize)>, items: Seq<JsonValue>, p: Seq<char>, i: int)
    requires
        0 <= i <= items.len(),
        t.len() + items.len() - i <= MAX_KEYS,
        forall|j: int| 0 <= j < items.len() ==> one_plain_member(#[trigger] items[j]),
    ensures
        collect_items(t, items, p, i).len() <= t.len() + items.len() - i,
        collect_items(t, items, p, i).len() >= t.len(),
        forall|j: int| 0 <= j < t.len() ==> collect_items(t, items, p, i)[j].0 == t[j].0,
        forall|j: int|
            i <= j < items.len() ==> keys_of(collect_items(t, items, p, i)).contains(
                #[trigger] member_path_at(p, j, items[j]),
            ),
    decreases items.len() - i,
{
    if i < items.len() {
        let ip = crate::app::index_path(p, i as nat);
        lemma_one_member(t, items[i], ip);
        let v = items[i];
        let k = member_path_at(p, i, v);
        match v {
            JsonValue::Object(es) => {
                assert(ip + seq!['.'] + es@[0].0@ =~= k);
            },
            _ => {},
        }
        let t2 = freq_bump(t, k);
        assert(collect_paths(t, items[i], ip) == t2);
        lemma_bump_keeps(t, k);
        lemma_items_paths(t2, items, p, i + 1);
        let r = collect_items(t, items, p, i);
        assert(r == collect_items(t2, items, p, i + 1));
        let kt = keys_of(t2);
        let kr = keys_of(r);
        let n: int = choose|n: int| 0 <= n < kt.len() && kt[n] == k;
        assert(kr[n] == k);
        assert forall|j: int| i <= j < items.len() implies kr.contains(
            #[trigger] member_path_at(p, j, items[j]),
        ) by {
            if j == i {
                assert(kr[n] == member_path_at(p, j, items[j]));
            }
        }
    }
}

/// Each element of an array is walked under its own index: when the
/// elements are objects with one plain member each and the table has room
/// for them, the path `p[i].key` of the member of element `i` is in the
/// table afterwards, for every `i`.
pub proof fn law_array_element_paths(
    t: Seq<(Seq<char>, usize)>,
    items: Vec<JsonValue>,
    p: Seq<char>,
    i: int,
)
    requires
        t.len() + items@.len() <= MAX_KEYS,
        forall|j: int|
            0 <= j < items@.len() ==> (#[trigger] items@[j] matches JsonValue::Object(es) && es@.len()
                == 1 && !(es@[0].1 is Object) && !(es@[0].1 is Array)),
        0 <= i < items@.len(),
    ensures
        items@[i] matches JsonValue::Object(es) && keys_of(
            collect_paths(t, JsonValue::Array(items), p),
        ).contains(p + seq!['['] + decimal(i as nat) + seq![']', '.'] + es@[0].0@),
{
    assert forall|j: int| 0 <= j < items@.len() implies one_plain_member(#[trigger] items@[j]) by {
        assert(items@[j] matches JsonValue::Object(es) && es@.len() == 1);
    }
    if t.len() < MAX_KEYS {
        lemma_items_paths(t, items@, p, 0);
        assert(member_path_at(p, i, items@[i]) == member_path_at(p, i, items@[i]));
    }
    assert(t.len() < MAX_KEYS);
}

} // verus!
