use ratatosk::config::{load, CliArgs, EnvConfig, FieldConfig, FieldPath, FileConfig, PathSeg};
use ratatosk::json::{parse_json, JsonNumber, JsonValue};

fn keys(p: &FieldPath) -> Vec<String> {
    p.segments
        .iter()
        .map(|s| match s {
            PathSeg::Key(k) => k.clone(),
        })
        .collect()
}

fn cfg(route: &str, latency: &str, scale: u64) -> FieldConfig {
    FieldConfig::from_fields(route.to_string(), latency.to_string(), scale)
}

fn args(v: &[&str]) -> Vec<String> {
    v.iter().map(|s| s.to_string()).collect()
}

#[test]
fn field_path_parse_splits_at_dots() {
    assert_eq!(keys(&FieldPath::parse("route")), vec!["route"]);
    assert_eq!(keys(&FieldPath::parse("http.route")), vec!["http", "route"]);
    assert_eq!(keys(&FieldPath::parse("")), vec![""]);
    assert_eq!(keys(&FieldPath::parse("a..b.")), vec!["a", "", "b", ""]);
    for s in ["a.b.c", "", ".", "x..y", "metrics.latency_us"] {
        assert_eq!(keys(&FieldPath::parse(s)).join("."), s);
    }
}

#[test]
fn parse_json_reads_values() {
    let v = parse_json("{\"a\": [1, -2, 1.5, \"x\", true, null], \"b\": {\"c\": 18446744073709551615}}")
        .expect("valid JSON");
    match v {
        JsonValue::Object(entries) => {
            assert_eq!(entries.len(), 2);
            assert_eq!(entries[0].0, "a");
            match &entries[0].1 {
                JsonValue::Array(items) => {
                    assert!(matches!(items[0], JsonValue::Number(JsonNumber::PosInt(1))));
                    assert!(matches!(items[1], JsonValue::Number(JsonNumber::NegInt(-2))));
                    assert!(matches!(items[2], JsonValue::Number(JsonNumber::Float)));
                    assert!(matches!(&items[3], JsonValue::Str(s) if s == "x"));
                    assert!(matches!(items[4], JsonValue::Bool(true)));
                    assert!(matches!(items[5], JsonValue::Null));
                }
                _ => panic!("expected an array"),
            }
            match &entries[1].1 {
                JsonValue::Object(inner) => {
                    assert_eq!(inner[0].0, "c");
                    assert!(matches!(inner[0].1, JsonValue::Number(JsonNumber::PosInt(u64::MAX))));
                }
                _ => panic!("expected an object"),
            }
        }
        _ => panic!("expected an object"),
    }
    assert!(parse_json("{not json").is_none());
    assert!(parse_json("").is_none());
}

#[test]
fn default_fields_are_extracted() {
    let c = cfg("route", "latency", 1);
    let v = parse_json("{\"route\":\"/api/users\",\"latency\":150}").unwrap();
    assert_eq!(c.extract_route(&v), Some("/api/users".to_string()));
    assert_eq!(c.extract_latency(&v), Some(150));
}

#[test]
fn nested_fields_are_extracted() {
    let c = cfg("http.route", "metrics.latency_ms", 1);
    let v = parse_json("{\"http\":{\"route\":\"/api/users\"},\"metrics\":{\"latency_ms\":150}}").unwrap();
    assert_eq!(c.extract_route(&v), Some("/api/users".to_string()));
    assert_eq!(c.extract_latency(&v), Some(150));
    let missing = parse_json("{\"http\":{\"path\":\"/x\"}}").unwrap();
    assert_eq!(c.extract_route(&missing), None);
    assert_eq!(c.extract_latency(&missing), None);
}

#[test]
fn route_values_of_other_kinds() {
    let c = cfg("r", "l", 1);
    let num = parse_json("{\"r\": -17, \"l\": \"250\"}").unwrap();
    assert_eq!(c.extract_route(&num), Some("-17".to_string()));
    assert_eq!(c.extract_latency(&num), Some(250));
    let b = parse_json("{\"r\": true, \"l\": -3}").unwrap();
    assert_eq!(c.extract_route(&b), Some("true".to_string()));
    assert_eq!(c.extract_latency(&b), None);
    let big = parse_json("{\"r\": 18446744073709551615, \"l\": 1.5}").unwrap();
    assert_eq!(c.extract_route(&big), None);
    assert_eq!(c.extract_latency(&big), None);
    let nested = parse_json("{\"r\": {\"x\": 1}, \"l\": \"12ms\"}").unwrap();
    assert_eq!(c.extract_route(&nested), None);
    assert_eq!(c.extract_latency(&nested), None);
}

#[test]
fn latency_scale_divides() {
    let v = parse_json("{\"route\":\"/a\",\"latency\":1500}").unwrap();
    assert_eq!(cfg("route", "latency", 1000).extract_latency(&v), Some(1));
    assert_eq!(cfg("route", "latency", 7).extract_latency(&v), Some(214));
    assert_eq!(cfg("route", "latency", 0).extract_latency(&v), Some(1500));
}

#[test]
fn update_fields_reparse_paths() {
    let mut c = cfg("route", "latency", 3);
    c.update_route_field("http.endpoint");
    c.update_latency_field("t.ms");
    assert_eq!(c.route_field_raw, "http.endpoint");
    assert_eq!(keys(&c.route_path), vec!["http", "endpoint"]);
    assert_eq!(c.latency_field_raw, "t.ms");
    assert_eq!(keys(&c.latency_path), vec!["t", "ms"]);
    assert_eq!(c.latency_scale, 3);
}

#[test]
fn cli_arguments_last_wins() {
    let a = CliArgs::parse_args(&args(&[
        "ratatosk",
        "--route-field=http.endpoint",
        "--latency-field=metrics.duration_ms",
        "--latency-scale=1000",
        "--config=config.json",
        "--route-field=a.b",
        "--unknown=1",
    ]));
    assert_eq!(a.route_field.as_deref(), Some("a.b"));
    assert_eq!(a.latency_field.as_deref(), Some("metrics.duration_ms"));
    assert_eq!(a.latency_scale, Some(1000));
    assert_eq!(a.config_file.as_deref(), Some("config.json"));

    let b = CliArgs::parse_args(&args(&["ratatosk", "--latency-scale=5", "--latency-scale=x"]));
    assert_eq!(b.latency_scale, None);
    let c = CliArgs::parse_args(&args(&["--route-field=skipped"]));
    assert_eq!(c.route_field, None);
    let d = CliArgs::parse_args(&args(&[]));
    assert_eq!(d.config_file, None);
}

#[test]
fn configuration_priority() {
    let cli = CliArgs {
        route_field: Some("cli.route".to_string()),
        latency_field: None,
        latency_scale: None,
        config_file: None,
    };
    let file = Some(FileConfig {
        route_field: Some("file.route".to_string()),
        latency_field: Some("file.latency".to_string()),
        latency_scale: None,
    });
    let env = EnvConfig {
        route_field: Some("env.route".to_string()),
        latency_field: Some("env.latency".to_string()),
        latency_scale: Some("1000".to_string()),
    };
    let c = load(&cli, &file, &env);
    assert_eq!(c.route_field_raw, "cli.route");
    assert_eq!(c.latency_field_raw, "file.latency");
    assert_eq!(c.latency_scale, 1000);
    assert_eq!(keys(&c.route_path), vec!["cli", "route"]);

    let none_cli = CliArgs { route_field: None, latency_field: None, latency_scale: None, config_file: None };
    let none_env = EnvConfig { route_field: None, latency_field: None, latency_scale: Some("abc".to_string()) };
    let d = load(&none_cli, &None, &none_env);
    assert_eq!(d.route_field_raw, "route");
    assert_eq!(d.latency_field_raw, "latency");
    assert_eq!(d.latency_scale, 1);

    let scaled = CliArgs { route_field: None, latency_field: None, latency_scale: Some(7), config_file: None };
    let e = load(&scaled, &Some(FileConfig { route_field: None, latency_field: None, latency_scale: Some(9) }), &env);
    assert_eq!(e.latency_scale, 7);
    assert_eq!(e.route_field_raw, "env.route");
}
