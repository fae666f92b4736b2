//! Which JSON fields hold the route and the latency, how latencies are
//! scaled, and where those settings come from.
use vstd::prelude::*;

use crate::json::{get_key, spec_get_key, JsonNumber, JsonValue};
use crate::text::{
    bool_text, bool_to_string, chars_of, i64_to_string, parse_u64, push_char, signed_decimal,
    spec_parse_u64, string_of,
};

verus! {

// ---------------------------------------------------------------------------
// Field paths
// ---------------------------------------------------------------------------

/// One step of a field path.
#[derive(Debug)]
pub enum PathSeg {
    Key(String),
}

impl PathSeg {
    /// The key that this step looks up.
    pub open spec fn key(self) -> Seq<char> {
        match self {
            PathSeg::Key(k) => k@,
        }
    }
}

/// A dotted path into nested JSON objects, such as `http.route`.
#[derive(Debug)]
pub struct FieldPath {
    pub segments: Vec<PathSeg>,
}

/// The pieces of `s` between dots, as `str::split('.')` gives them: there is
/// always at least one, and empty pieces are kept.
pub open spec fn split_dots(s: Seq<char>) -> Seq<Seq<char>>
    decreases s.len(),
{
    if s.len() == 0 {
        seq![Seq::<char>::empty()]
    } else {
        let prev = split_dots(s.drop_last());
        if s.last() == '.' {
            prev.push(Seq::<char>::empty())
        } else {
            prev.update(prev.len() - 1, prev.last().push(s.last()))
        }
    }
}

/// The pieces joined with dots in between.
pub open spec fn join_dots(parts: Seq<Seq<char>>) -> Seq<char>
    decreases parts.len(),
{
    if parts.len() <= 1 {
        if parts.len() == 1 {
            parts[0]
        } else {
            Seq::<char>::empty()
        }
    } else {
        join_dots(parts.drop_last()) + seq!['.'] + parts.last()
    }
}

/// `split_dots` never gives an empty list and no piece holds a dot.
pub proof fn lemma_split_dots_shape(s: Seq<char>)
    ensures
        split_dots(s).len() >= 1,
        forall|i: int, j: int|
            0 <= i < split_dots(s).len() && 0 <= j < split_dots(s)[i].len() ==> split_dots(
                s,
            )[i][j] != '.',
    decreases s.len(),
{
    if s.len() > 0 {
        lemma_split_dots_shape(s.drop_last());
    }
}

/// Parsing a path and writing it back with dots gives the same text.
pub proof fn lemma_join_split(s: Seq<char>)
    ensures
        join_dots(split_dots(s)) == s,
    decreases s.len(),
{
    if s.len() > 0 {
        let t = s.drop_last();
        lemma_join_split(t);
        lemma_split_dots_shape(t);
        let prev = split_dots(t);
        if s.last() == '.' {
            let next = prev.push(Seq::<char>::empty());
            assert(next.drop_last() =~= prev);
            assert(join_dots(next) =~= t + seq!['.']);
        } else {
            let next = prev.update(prev.len() - 1, prev.last().push(s.last()));
            if prev.len() == 1 {
                assert(join_dots(next) =~= t.push(s.last()));
            } else {
                assert(next.drop_last() =~= prev.drop_last());
                assert(join_dots(next) =~= t.push(s.last()));
            }
        }
        assert(t.push(s.last()) =~= s);
    } else {
        assert(join_dots(split_dots(s)) =~= s);
    }
}

/// Splitting the text `p.q` gives the pieces of `p` followed by those of `q`.
pub proof fn lemma_split_concat(p: Seq<char>, q: Seq<char>)
    ensures
        split_dots(p + seq!['.'] + q) == split_dots(p) + split_dots(q),
    decreases q.len(),
{
    if q.len() == 0 {
        assert((p + seq!['.'] + q).drop_last() =~= p);
        assert(split_dots(p).push(Seq::<char>::empty()) =~= split_dots(p) + split_dots(q));
    } else {
        let q0 = q.drop_last();
        lemma_split_concat(p, q0);
        lemma_split_dots_shape(q0);
        lemma_split_dots_shape(p);
        assert((p + seq!['.'] + q).drop_last() =~= p + seq!['.'] + q0);
        let a = split_dots(p);
        let b = split_dots(q0);
        if q.last() == '.' {
            assert((a + b).push(Seq::<char>::empty()) =~= a + b.push(Seq::<char>::empty()));
        } else {
            let c = q.last();
            assert((a + b).update((a + b).len() - 1, (a + b).last().push(c)) =~= a + b.update(
                b.len() - 1,
                b.last().push(c),
            ));
        }
    }
}

/// Following `keys` one object member at a time from `v`.
pub open spec fn follow_keys(v: JsonValue, keys: Seq<Seq<char>>) -> Option<JsonValue>
    decreases keys.len(),
{
    if keys.len() == 0 {
        Some(v)
    } else {
        match spec_get_key(v, keys[0]) {
            Some(x) => follow_keys(x, keys.drop_first()),
            None => None,
        }
    }
}

/// Following `a + b` is following `a`, then `b` from where `a` ended.
pub proof fn lemma_follow_concat(v: JsonValue, a: Seq<Seq<char>>, b: Seq<Seq<char>>)
    ensures
        follow_keys(v, a + b) == (match follow_keys(v, a) {
            Some(x) => follow_keys(x, b),
            None => None,
        }),
    decreases a.len(),
{
    if a.len() == 0 {
        assert(a + b =~= b);
    } else {
        assert((a + b).drop_first() =~= a.drop_first() + b);
        assert((a + b)[0] == a[0]);
        match spec_get_key(v, a[0]) {
            Some(x) => lemma_follow_concat(x, a.drop_first(), b),
            None => {},
        }
    }
}

impl FieldPath {
    /// The keys of the path, in order.
    pub open spec fn keys(self) -> Seq<Seq<char>> {
        Seq::new(self.segments@.len(), |i: int| self.segments@[i].key())
    }

    /// Splits a dotted path at every `.`.
    pub fn parse(s: &str) -> (r: Self)
        ensures
            r.keys() == split_dots(s@),
    {
        let v = chars_of(s);
        let mut segments: Vec<PathSeg> = Vec::new();
        let mut cur = String::new();
        let mut i: usize = 0;
        while i < v.len()
            invariant
                i <= v.len(),
                v@ == s@,
                Seq::new(segments@.len(), |k: int| segments@[k].key()).push(cur@) == split_dots(
                    v@.take(i as int),
                ),
            decreases v.len() - i,
        {
            let ghost old_segs = segments@;
            let ghost old_cur = cur@;
            let c = v[i];
            assert(v@.take(i + 1).drop_last() =~= v@.take(i as int));
            assert(v@.take(i + 1).last() == c);
            if c == '.' {
                segments.push(PathSeg::Key(cur));
                cur = String::new();
                assert(Seq::new(segments@.len(), |k: int| segments@[k].key()).push(cur@)
                    =~= Seq::new(old_segs.len(), |k: int| old_segs[k].key()).push(
                    old_cur,
                ).push(Seq::<char>::empty()));
            } else {
                push_char(&mut cur, c);
                assert(Seq::new(segments@.len(), |k: int| segments@[k].key()).push(cur@)
                    =~= Seq::new(old_segs.len(), |k: int| old_segs[k].key()).push(
                    old_cur,
                ).update(old_segs.len() as int, old_cur.push(c)));
            }
            i = i + 1;
        }
        let ghost before = segments@;
        segments.push(PathSeg::Key(cur));
        assert(v@.take(i as int) =~= s@);
        let r = FieldPath { segments };
        assert(r.keys() =~= Seq::new(before.len(), |k: int| before[k].key()).push(cur@));
        r
    }

    /// Follows the path from `v`, one object member per key.
    pub fn get<'a>(&self, v: &'a JsonValue) -> (r: Option<&'a JsonValue>)
        ensures
            r matches Some(x) ==> follow_keys(*v, self.keys()) == Some(*x),
            r is None ==> follow_keys(*v, self.keys()) is None,
    {
        let mut cur = v;
        let mut i: usize = 0;
        assert(self.keys().skip(0) =~= self.keys());
        while i < self.segments.len()
            invariant
                i <= self.segments.len(),
                follow_keys(*v, self.keys()) == follow_keys(*cur, self.keys().skip(i as int)),
            decreases self.segments.len() - i,
        {
            assert(self.keys().skip(i as int).drop_first() =~= self.keys().skip(i + 1));
            match &self.segments[i] {
                PathSeg::Key(k) => {
                    match get_key(cur, k) {
                        Some(x) => {
                            cur = x;
                        },
                        None => {
                            return None;
                        },
                    }
                },
            }
            i = i + 1;
        }
        assert(self.keys().skip(i as int).len() == 0);
        Some(cur)
    }
}

/// Looking up `p.q` is looking up `p`, then `q` inside what was found.
pub proof fn lemma_nested_lookup(v: JsonValue, p: Seq<char>, q: Seq<char>)
    ensures
        follow_keys(v, split_dots(p + seq!['.'] + q)) == (match follow_keys(v, split_dots(p)) {
            Some(x) => follow_keys(x, split_dots(q)),
            None => None,
        }),
{
    lemma_split_concat(p, q);
    lemma_follow_concat(v, split_dots(p), split_dots(q));
}

// ---------------------------------------------------------------------------
// Field configuration
// ---------------------------------------------------------------------------

/// The text of a route value: strings as they are, integers that fit in
/// `i64` in decimal, booleans as `true` / `false`; nothing for other values.
pub open spec fn route_text(x: JsonValue) -> Option<Seq<char>> {
    match x {
        JsonValue::Str(s) => Some(s@),
        JsonValue::Number(n) => match n.spec_as_i64() {
            Some(i) => Some(signed_decimal(i as int)),
            None => None,
        },
        JsonValue::Bool(b) => Some(bool_text(b)),
        _ => None,
    }
}

/// The raw latency in a value: a non-negative integer, or a string that
/// parses as one.
pub open spec fn latency_value(x: JsonValue) -> Option<u64> {
    match x {
        JsonValue::Number(n) => n.spec_as_u64(),
        JsonValue::Str(s) => spec_parse_u64(s@),
        _ => None,
    }
}

/// The divisor that scaling uses: the scale, but at least 1.
pub open spec fn divisor(scale: u64) -> u64 {
    if scale >= 1 {
        scale
    } else {
        1
    }
}

/// The settings that say where route and latency are found.
#[derive(Debug)]
pub struct FieldConfig {
    pub route_path: FieldPath,
    pub latency_path: FieldPath,
    pub latency_scale: u64,
    pub route_field_raw: String,
    pub latency_field_raw: String,
}

impl FieldConfig {
    /// Each path is the parse of its raw text.
    pub open spec fn wf(self) -> bool {
        &&& self.route_path.keys() == split_dots(self.route_field_raw@)
        &&& self.latency_path.keys() == split_dots(self.latency_field_raw@)
    }

    /// The route text of a log record, if its route field holds one.
    pub open spec fn spec_route(self, v: JsonValue) -> Option<Seq<char>> {
        match follow_keys(v, self.route_path.keys()) {
            Some(x) => route_text(x),
            None => None,
        }
    }

    /// The scaled latency of a log record, if its latency field holds one.
    pub open spec fn spec_latency(self, v: JsonValue) -> Option<u64> {
        match follow_keys(v, self.latency_path.keys()) {
            Some(x) => match latency_value(x) {
                Some(l) => Some((l / divisor(self.latency_scale)) as u64),
                None => None,
            },
            None => None,
        }
    }

    /// A configuration for the given field paths and scale.
    pub fn from_fields(route_field: String, latency_field: String, latency_scale: u64) -> (r:
        Self)
        ensures
            r.wf(),
            r.route_field_raw@ == route_field@,
            r.latency_field_raw@ == latency_field@,
            r.latency_scale == latency_scale,
    {
        let route_path = FieldPath::parse(route_field.as_str());
        let latency_path = FieldPath::parse(latency_field.as_str());
        FieldConfig {
            route_path,
            latency_path,
            latency_scale,
            route_field_raw: route_field,
            latency_field_raw: latency_field,
        }
    }

    /// Reads the route of a JSON log record.
    pub fn extract_route(&self, v: &JsonValue) -> (r: Option<String>)
        ensures
            r.deep_view() == self.spec_route(*v),
    {
        match self.route_path.get(v) {
            Some(x) => match x {
                JsonValue::Str(s) => Some(string_of(s.as_str())),
                JsonValue::Number(n) => match n {
                    JsonNumber::PosInt(u) => {
                        if *u <= 9223372036854775807 {
                            Some(i64_to_string(*u as i64))
                        } else {
                            None
                        }
                    },
                    JsonNumber::NegInt(i) => Some(i64_to_string(*i)),
                    JsonNumber::Float => None,
                },
                JsonValue::Bool(b) => Some(bool_to_string(*b)),
                _ => None,
            },
            None => None,
        }
    }

    /// Reads the latency of a JSON log record, divided by the scale (a scale
    /// of 0 counts as 1).
    pub fn extract_latency(&self, v: &JsonValue) -> (r: Option<u64>)
        ensures
            r == self.spec_latency(*v),
    {
        let raw = match self.latency_path.get(v) {
            Some(x) => match x {
                JsonValue::Number(n) => match n {
                    JsonNumber::PosInt(u) => Some(*u),
                    _ => None,
                },
                JsonValue::Str(s) => parse_u64(s.as_str()),
                _ => None,
            },
            None => None,
        };
        let d: u64 = if self.latency_scale >= 1 {
            self.latency_scale
        } else {
            1
        };
        match raw {
            Some(l) => Some(l / d),
            None => None,
        }
    }

    /// Points the route at a new field path.
    pub fn update_route_field(&mut self, field: &str)
        ensures
            old(self).wf() ==> final(self).wf(),
            final(self).route_path.keys() == split_dots(field@),
            final(self).route_field_raw@ == field@,
            final(self).latency_field_raw == old(self).latency_field_raw,
            final(self).latency_path == old(self).latency_path,
            final(self).latency_scale == old(self).latency_scale,
    {
        self.route_path = FieldPath::parse(field);
        self.route_field_raw = string_of(field);
    }

    /// Points the latency at a new field path.
    pub fn update_latency_field(&mut self, field: &str)
        ensures
            old(self).wf() ==> final(self).wf(),
            final(self).latency_path.keys() == split_dots(field@),
            final(self).latency_field_raw@ == field@,
            final(self).route_field_raw == old(self).route_field_raw,
            final(self).route_path == old(self).route_path,
            final(self).latency_scale == old(self).latency_scale,
    {
        self.latency_path = FieldPath::parse(field);
        self.latency_field_raw = string_of(field);
    }
}

// ---------------------------------------------------------------------------
// Sources of the settings
// ---------------------------------------------------------------------------

/// The settings that a config file may hold.
#[derive(Debug)]
pub struct FileConfig {
    pub route_field: Option<String>,
    pub latency_field: Option<String>,
    pub latency_scale: Option<u64>,
}

/// The settings given on the command line.
#[derive(Debug)]
pub struct CliArgs {
    pub route_field: Option<String>,
    pub latency_field: Option<String>,
    pub latency_scale: Option<u64>,
    pub config_file: Option<String>,
}

/// The settings found in the environment (`RAT_ROUTE_FIELD`,
/// `RAT_LATENCY_FIELD`, `RAT_LATENCY_SCALE`), as raw text.
#[derive(Debug)]
pub struct EnvConfig {
    pub route_field: Option<String>,
    pub latency_field: Option<String>,
    pub latency_scale: Option<String>,
}

/// `p` is a prefix of `s`.
pub open spec fn has_prefix(s: Seq<char>, p: Seq<char>) -> bool {
    p.len() <= s.len() && s.take(p.len() as int) == p
}

/// The text after `prefix` in the last argument that starts with it.
pub open spec fn last_with_prefix(args: Seq<Seq<char>>, prefix: Seq<char>) -> Option<Seq<char>>
    decreases args.len(),
{
    if args.len() == 0 {
        None
    } else if has_prefix(args.last(), prefix) {
        Some(args.last().skip(prefix.len() as int))
    } else {
        last_with_prefix(args.drop_last(), prefix)
    }
}

/// The views of a list of strings.
pub open spec fn views(args: Seq<String>) -> Seq<Seq<char>> {
    Seq::new(args.len(), |i: int| args[i]@)
}

/// The arguments after the program name.
pub open spec fn flags(args: Seq<String>) -> Seq<Seq<char>> {
    if args.len() == 0 {
        Seq::<Seq<char>>::empty()
    } else {
        views(args).drop_first()
    }
}

/// A parsed option: `Some` of its text.
pub open spec fn parse_opt(o: Option<Seq<char>>) -> Option<u64> {
    match o {
        Some(t) => spec_parse_u64(t),
        None => None,
    }
}

/// Whether `p` is a prefix of `s`.
pub fn starts_with(s: &Vec<char>, p: &Vec<char>) -> (r: bool)
    ensures
        r == has_prefix(s@, p@),
{
    if p.len() > s.len() {
        return false;
    }
    let mut i: usize = 0;
    while i < p.len()
        invariant
            i <= p.len() <= s.len(),
            forall|j: int| 0 <= j < i ==> s@[j] == p@[j],
        decreases p.len() - i,
    {
        if s[i] != p[i] {
            assert(s@.take(p.len() as int)[i as int] != p@[i as int]);
            return false;
        }
        i = i + 1;
    }
    assert(s@.take(p.len() as int) =~= p@);
    true
}

impl CliArgs {
    /// Reads `--route-field=`, `--latency-field=`, `--latency-scale=` and
    /// `--config=` from the arguments after the program name; the last
    /// occurrence of each wins, and a scale that does not parse gives none.
    pub fn parse_args(args: &Vec<String>) -> (r: CliArgs)
        ensures
            r.route_field.deep_view() == last_with_prefix(flags(args@), "--route-field="@),
            r.latency_field.deep_view() == last_with_prefix(flags(args@), "--latency-field="@),
            r.latency_scale == parse_opt(last_with_prefix(flags(args@), "--latency-scale="@)),
            r.config_file.deep_view() == last_with_prefix(flags(args@), "--config="@),
    {
        let p_route = chars_of("--route-field=");
        let p_latency = chars_of("--latency-field=");
        let p_scale = chars_of("--latency-scale=");
        let p_config = chars_of("--config=");
        let mut route_field: Option<String> = None;
        let mut latency_field: Option<String> = None;
        let mut scale_text: Option<String> = None;
        let mut config_file: Option<String> = None;
        if args.len() == 0 {
            return CliArgs { route_field, latency_field, latency_scale: None, config_file };
        }
        let mut i: usize = 1;
        while i < args.len()
            invariant
                1 <= i <= args.len(),
                p_route@ == "--route-field="@,
                p_latency@ == "--latency-field="@,
                p_scale@ == "--latency-scale="@,
                p_config@ == "--config="@,
                route_field.deep_view() == last_with_prefix(
                    views(args@).subrange(1, i as int),
                    p_route@,
                ),
                latency_field.deep_view() == last_with_prefix(
                    views(args@).subrange(1, i as int),
                    p_latency@,
                ),
                scale_text.deep_view() == last_with_prefix(
                    views(args@).subrange(1, i as int),
                    p_scale@,
                ),
                config_file.deep_view() == last_with_prefix(
                    views(args@).subrange(1, i as int),
                    p_config@,
                ),
            decreases args.len() - i,
        {
            let a = chars_of(args[i].as_str());
            let ghost pre = views(args@).subrange(1, i as int);
            let ghost next = views(args@).subrange(1, i + 1);
            assert(next.drop_last() =~= pre);
            assert(next.last() == a@);
            if starts_with(&a, &p_route) {
                route_field = Some(crate::text::string_from_range(&a, p_route.len(), a.len()));
                assert(a@.subrange(p_route.len() as int, a.len() as int) =~= a@.skip(
                    p_route.len() as int,
                ));
            } else if starts_with(&a, &p_latency) {
                latency_field = Some(
                    crate::text::string_from_range(&a, p_latency.len(), a.len()),
                );
                assert(a@.subrange(p_latency.len() as int, a.len() as int) =~= a@.skip(
                    p_latency.len() as int,
                ));
            } else if starts_with(&a, &p_scale) {
                scale_text = Some(crate::text::string_from_range(&a, p_scale.len(), a.len()));
                assert(a@.subrange(p_scale.len() as int, a.len() as int) =~= a@.skip(
                    p_scale.len() as int,
                ));
            } else if starts_with(&a, &p_config) {
                config_file = Some(crate::text::string_from_range(&a, p_config.len(), a.len()));
                assert(a@.subrange(p_config.len() as int, a.len() as int) =~= a@.skip(
                    p_config.len() as int,
                ));
            }
            proof {
                lemma_distinct_flag(a@);
            }
            i = i + 1;
        }
        assert(views(args@).subrange(1, i as int) =~= flags(args@));
        let latency_scale = match &scale_text {
            Some(t) => parse_u64(t.as_str()),
            None => None,
        };
        CliArgs { route_field, latency_field, latency_scale, config_file }
    }
}

/// No argument starts with two of the four flags.
proof fn lemma_distinct_flag(a: Seq<char>)
    ensures
        has_prefix(a, "--route-field="@) ==> !has_prefix(a, "--latency-field="@) && !has_prefix(
            a,
            "--latency-scale="@,
        ) && !has_prefix(a, "--config="@),
        has_prefix(a, "--latency-field="@) ==> !has_prefix(a, "--latency-scale="@)
            && !has_prefix(a, "--config="@),
        has_prefix(a, "--latency-scale="@) ==> !has_prefix(a, "--config="@),
{
    reveal_strlit("--route-field=");
    reveal_strlit("--latency-field=");
    reveal_strlit("--latency-scale=");
    reveal_strlit("--config=");
    if has_prefix(a, "--route-field="@) {
        assert(a.take(14)[2] == a[2]);
        assert(a[2] == 'r');
    }
    if has_prefix(a, "--latency-field="@) {
        assert(a.take(16)[2] == a[2]);
        assert(a.take(16)[10] == a[10]);
        assert(a[2] == 'l' && a[10] == 'f');
    }
    if has_prefix(a, "--latency-scale="@) {
        assert(a.take(16)[2] == a[2]);
        assert(a.take(16)[10] == a[10]);
        assert(a[2] == 'l' && a[10] == 's');
    }
}

/// The first of three options that is present.
pub open spec fn first_of<T>(a: Option<T>, b: Option<T>, c: Option<T>) -> Option<T> {
    if a is Some {
        a
    } else if b is Some {
        b
    } else {
        c
    }
}

/// The route field path that the sources decide on.
pub open spec fn chosen_route(cli: CliArgs, file: Option<FileConfig>, env: EnvConfig) -> Seq<
    char,
> {
    let file_value = match file {
        Some(f) => f.route_field.deep_view(),
        None => None,
    };
    match first_of(cli.route_field.deep_view(), file_value, env.route_field.deep_view()) {
        Some(t) => t,
        None => "route"@,
    }
}

/// The latency field path that the sources decide on.
pub open spec fn chosen_latency(cli: CliArgs, file: Option<FileConfig>, env: EnvConfig) -> Seq<
    char,
> {
    let file_value = match file {
        Some(f) => f.latency_field.deep_view(),
        None => None,
    };
    match first_of(cli.latency_field.deep_view(), file_value, env.latency_field.deep_view()) {
        Some(t) => t,
        None => "latency"@,
    }
}

/// The latency scale that the sources decide on.
pub open spec fn chosen_scale(cli: CliArgs, file: Option<FileConfig>, env: EnvConfig) -> u64 {
    let file_value = match file {
        Some(f) => f.latency_scale,
        None => None,
    };
    match first_of(cli.latency_scale, file_value, parse_opt(env.latency_scale.deep_view())) {
        Some(s) => s,
        None => 1,
    }
}

fn pick_text(a: &Option<String>, b: Option<&String>, c: &Option<String>, default: &str) -> (r:
    String)
    ensures
        r@ == (match first_of(
            a.deep_view(),
            match b {
                Some(s) => Some(s@),
                None => None,
            },
            c.deep_view(),
        ) {
            Some(t) => t,
            None => default@,
        }),
{
    match a {
        Some(s) => string_of(s.as_str()),
        None => match b {
            Some(s) => string_of(s.as_str()),
            None => match c {
                Some(s) => string_of(s.as_str()),
                None => string_of(default),
            },
        },
    }
}

/// Settles the configuration: a command-line setting wins over the config
/// file, the config file over the environment, and the environment over
/// the defaults `route`, `latency` and a scale of 1.
pub fn load(cli: &CliArgs, file: &Option<FileConfig>, env: &EnvConfig) -> (r: FieldConfig)
    ensures
        r.wf(),
        r.route_field_raw@ == chosen_route(*cli, *file, *env),
        r.latency_field_raw@ == chosen_latency(*cli, *file, *env),
        r.latency_scale == chosen_scale(*cli, *file, *env),
{
    let file_route = match file {
        Some(f) => match &f.route_field {
            Some(s) => Some(s),
            None => None,
        },
        None => None,
    };
    let file_latency = match file {
        Some(f) => match &f.latency_field {
            Some(s) => Some(s),
            None => None,
        },
        None => None,
    };
    let route = pick_text(&cli.route_field, file_route, &env.route_field, "route");
    let latency = pick_text(&cli.latency_field, file_latency, &env.latency_field, "latency");
    let file_scale = match file {
        Some(f) => f.latency_scale,
        None => None,
    };
    let scale = match cli.latency_scale {
        Some(s) => s,
        None => match file_scale {
            Some(s) => s,
            None => match &env.latency_scale {
                Some(t) => match parse_u64(t.as_str()) {
                    Some(s) => s,
                    None => 1,
                },
                None => 1,
            },
        },
    };
    FieldConfig::from_fields(route, latency, scale)
}

} // verus!
