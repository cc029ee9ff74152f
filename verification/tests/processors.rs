use catapult::inputs::network::Network as NetworkInput;
use catapult::inputs::random::{typeize, GeneratedType, Kind, Random};
use catapult::inputs::stdin::Stdin;
use catapult::outputs::elasticsearch::{EsAction, Elasticsearch};
use catapult::outputs::file::{OpenMode, RotatingFile, Rotation, RotationError, TimeFields};
use catapult::outputs::network::Network as NetworkOutput;
use catapult::outputs::stdout::Stdout;
use catapult::params::Params;
use catapult::pipeline::{select_input, select_output, InputChoice, OutputChoice};
use catapult::processor::{missing_fields, ConfigError, Processor};

fn config(pairs: &[(&str, &str)]) -> Option<Params> {
    let mut p = Params::new();
    for (k, v) in pairs {
        p.insert(k.to_string(), v.to_string());
    }
    Some(p)
}

#[test]
fn params_insert_replaces() {
    let mut p = Params::new();
    p.insert("a".to_string(), "1".to_string());
    p.insert("b".to_string(), "2".to_string());
    p.insert("a".to_string(), "3".to_string());
    assert_eq!(p.get("a").map(|s| s.as_str()), Some("3"));
    assert_eq!(p.get("b").map(|s| s.as_str()), Some("2"));
    assert_eq!(p.get("c"), None);
    assert!(p.contains_key("b"));
    assert!(!p.contains_key("c"));
    assert_eq!(p.as_pairs().len(), 2);
}

#[test]
fn names_and_mandatory_fields() {
    assert_eq!(Stdin::new("stdin".to_string()).human_name(), "stdin");
    assert!(Stdin::new("stdin".to_string()).mandatory_fields().is_empty());
    assert_eq!(Random::new("random".to_string()).mandatory_fields(), vec!["fieldlist", "rate"]);
    assert_eq!(NetworkInput::new("network".to_string()).mandatory_fields(), vec!["listenPort"]);
    assert_eq!(NetworkInput::new("network".to_string()).human_name(), "network");
    assert!(Stdout::new("stdout".to_string()).mandatory_fields().is_empty());
    assert!(NetworkOutput::new("udp".to_string()).mandatory_fields().is_empty());
    assert_eq!(Elasticsearch::new("es".to_string()).mandatory_fields(), vec!["destination", "port"]);
    assert_eq!(RotatingFile::new("file".to_string()).mandatory_fields(), vec!["directory"]);
    assert_eq!(RotatingFile::new("file".to_string()).human_name(), "file");
}

#[test]
fn missing_fields_in_order() {
    let c = config(&[("rate", "10")]);
    assert_eq!(missing_fields(&c, &vec!["fieldlist", "rate", "other"]), vec!["fieldlist", "other"]);
    assert_eq!(missing_fields(&None, &vec!["a", "b"]), vec!["a", "b"]);
    assert!(missing_fields(&c, &vec!["rate"]).is_empty());
}

#[test]
fn requires_fields_fails_only_when_something_is_missing() {
    let r = Random::new("random".to_string());
    let c = config(&[("fieldlist", "a:string"), ("rate", "1")]);
    assert_eq!(r.requires_fields(&c, &r.mandatory_fields()), Ok(()));
    let partial = config(&[("rate", "1")]);
    assert_eq!(r.requires_fields(&partial, &r.mandatory_fields()), Err(vec!["fieldlist".to_string()]));
    assert_eq!(
        r.requires_fields(&None, &r.mandatory_fields()),
        Err(vec!["fieldlist".to_string(), "rate".to_string()])
    );
    let s = Stdin::new("stdin".to_string());
    assert_eq!(s.requires_fields(&None, &s.mandatory_fields()), Ok(()));
}

#[test]
fn generate_gives_foo() {
    let g = GeneratedType { name: "x".to_string(), kind: Kind::String };
    assert_eq!(g.generate(), "foo");
}

#[test]
fn typeize_takes_the_name_before_the_colon() {
    let g = typeize("message:string");
    assert_eq!(g.name, "message");
    assert_eq!(g.kind, Kind::String);
    assert_eq!(typeize(":int").name, "");
    assert_eq!(typeize("a:b:c").name, "a");
}

#[test]
fn random_fields_and_lines() {
    let c = config(&[("fieldlist", "host:string,message:string"), ("rate", "10")]);
    let fields = Random::fields(&c).unwrap();
    let names: Vec<&str> = fields.iter().map(|f| f.name.as_str()).collect();
    assert_eq!(names, vec!["host", "message"]);
    assert_eq!(Random::line(&fields), "foo\tfoo");
    assert_eq!(Random::line(&Vec::new()), "");
    let line = Random::line(&fields);
    assert_eq!(line.split('\t').count(), fields.len());
}

#[test]
fn random_field_errors() {
    assert_eq!(Random::fields(&None).err(), Some(ConfigError::MissingConfiguration));
    assert_eq!(
        Random::fields(&config(&[("rate", "1")])).err(),
        Some(ConfigError::MissingField("fieldlist".to_string()))
    );
    assert_eq!(
        Random::fields(&config(&[("fieldlist", "a:string,b,c")])).err(),
        Some(ConfigError::MalformedField("b".to_string()))
    );
    assert_eq!(
        Random::fields(&config(&[("fieldlist", "")])).err(),
        Some(ConfigError::MalformedField("".to_string()))
    );
}

#[test]
fn network_input_listen_address() {
    assert_eq!(
        NetworkInput::listen_address(&config(&[("listenPort", "6667")])).unwrap(),
        "0.0.0.0:6667"
    );
    assert_eq!(
        NetworkInput::listen_address(&config(&[("listenPort", "+0042")])).unwrap(),
        "0.0.0.0:42"
    );
    assert_eq!(NetworkInput::listen_address(&None).err(), Some(ConfigError::MissingConfiguration));
    assert_eq!(
        NetworkInput::listen_address(&config(&[])).err(),
        Some(ConfigError::MissingField("listenPort".to_string()))
    );
    assert_eq!(
        NetworkInput::listen_address(&config(&[("listenPort", "port")])).err(),
        Some(ConfigError::BadNumber("listenPort".to_string()))
    );
}

#[test]
fn network_input_decodes_datagrams() {
    assert_eq!(NetworkInput::datagram_line(b"hello", 5), "hello");
    assert_eq!(NetworkInput::datagram_line(b"a\xffb", 3), "a\u{fffd}b");
    let mut buf = [0u8; 1024];
    buf[0] = b'x';
    buf[1] = b'y';
    assert_eq!(NetworkInput::datagram_line(&buf, 2), "xy");
    assert_eq!(NetworkInput::datagram_line(&buf, 0), "");
}

#[test]
fn network_output_destination() {
    let c = config(&[("destination", "10.0.0.1"), ("port", "514")]);
    assert_eq!(NetworkOutput::destination(&c).unwrap(), "10.0.0.1:514");
    assert_eq!(
        NetworkOutput::destination(&config(&[("port", "514")])).err(),
        Some(ConfigError::MissingField("destination".to_string()))
    );
    assert_eq!(
        NetworkOutput::destination(&config(&[("destination", "h")])).err(),
        Some(ConfigError::MissingField("port".to_string()))
    );
    assert_eq!(
        NetworkOutput::destination(&config(&[("destination", "h"), ("port", "70000000000")])).err(),
        Some(ConfigError::BadNumber("port".to_string()))
    );
    assert_eq!(NetworkOutput::destination(&None).err(), Some(ConfigError::MissingConfiguration));
}

#[test]
fn elasticsearch_server_and_url() {
    let c = config(&[("destination", "es.local"), ("port", "9200")]);
    assert_eq!(Elasticsearch::server(&c).unwrap(), ("es.local".to_string(), 9200));
    assert_eq!(
        Elasticsearch::index_url("es.local", 9200, "logstash-2015.05.21"),
        "http://es.local:9200/logstash-2015.05.21/logs?op_type=create"
    );
    assert_eq!(Elasticsearch::server(&None).err(), Some(ConfigError::MissingConfiguration));
}

#[test]
fn file_pattern_appends_hourly_name() {
    let c = config(&[("directory", "./logs/")]);
    assert_eq!(RotatingFile::file_pattern(&c).unwrap(), "./logs/%Y-%m-%d-%H:00.log");
    assert_eq!(
        RotatingFile::file_pattern(&config(&[])).err(),
        Some(ConfigError::MissingField("directory".to_string()))
    );
}

#[test]
fn rotation_opens_a_file_only_when_the_hour_changes() {
    let mut r = Rotation::new();
    let s1 = r.step("logs/2024-01-01-10:00.log").unwrap();
    assert_eq!(s1.create_dir.as_deref(), Some("logs"));
    assert_eq!(s1.open_file.as_deref(), Some("logs/2024-01-01-10:00.log"));
    let s2 = r.step("logs/2024-01-01-10:00.log").unwrap();
    assert_eq!(s2.create_dir, None);
    assert_eq!(s2.open_file, None);
    let s3 = r.step("logs/2024-01-01-11:00.log").unwrap();
    assert_eq!(s3.create_dir, None);
    assert_eq!(s3.open_file.as_deref(), Some("logs/2024-01-01-11:00.log"));
    let s4 = r.step("other/2024-01-01-11:00.log").unwrap();
    assert_eq!(s4.create_dir.as_deref(), Some("other"));
}

#[test]
fn rotation_compares_paths_not_strings() {
    let mut r = Rotation::new();
    r.step("logs/a.log").unwrap();
    let s = r.step("logs//a.log").unwrap();
    assert_eq!(s.create_dir, None);
    assert_eq!(s.open_file, None);
}

#[test]
fn rotation_without_parent_directory() {
    let mut r = Rotation::new();
    assert!(r.step("").is_none());
    assert!(r.step("/").is_none());
    let s = r.step("a.log").unwrap();
    assert_eq!(s.create_dir.as_deref(), Some(""));
}

#[test]
fn open_mode_follows_what_is_there() {
    assert_eq!(RotatingFile::open_mode(None), Some(OpenMode::Create));
    assert_eq!(RotatingFile::open_mode(Some(true)), Some(OpenMode::Append));
    assert_eq!(RotatingFile::open_mode(Some(false)), None);
    assert_eq!(RotatingFile::record("line".to_string()), "line\n");
}

#[test]
fn selecting_inputs_and_outputs() {
    assert_eq!(select_input("stdin"), Some(InputChoice::Stdin));
    assert_eq!(select_input("random"), Some(InputChoice::Random));
    assert_eq!(select_input("file"), None);
    assert_eq!(select_output("stdout"), Some(OutputChoice::Stdout));
    assert_eq!(select_output("network"), None);
}

fn ten_o_clock() -> TimeFields {
    TimeFields {
        sec: 5,
        min: 30,
        hour: 10,
        mday: 1,
        mon: 0,
        year: 124,
        wday: 1,
        yday: 0,
        isdst: 0,
        utcoff: 0,
        nsec: 0,
    }
}

#[test]
fn advance_names_the_file_after_the_hour() {
    let mut r = Rotation::new();
    let (name, step) = r.advance("./logs/%Y-%m-%d-%H:00.log", &ten_o_clock()).unwrap();
    assert_eq!(name, "./logs/2024-01-01-10:00.log");
    assert_eq!(step.create_dir.as_deref(), Some("./logs"));
    assert_eq!(step.open_file.as_deref(), Some("./logs/2024-01-01-10:00.log"));
    let mut later = ten_o_clock();
    later.min = 59;
    let (name2, step2) = r.advance("./logs/%Y-%m-%d-%H:00.log", &later).unwrap();
    assert_eq!(name2, name);
    assert!(step2.create_dir.is_none() && step2.open_file.is_none());
    later.hour = 11;
    let (_, step3) = r.advance("./logs/%Y-%m-%d-%H:00.log", &later).unwrap();
    assert_eq!(step3.open_file.as_deref(), Some("./logs/2024-01-01-11:00.log"));
}

#[test]
fn advance_reports_bad_patterns() {
    let mut r = Rotation::new();
    assert_eq!(r.advance("logs/%Q.log", &ten_o_clock()).err(), Some(RotationError::BadPattern));
    assert_eq!(r.advance("logs/%", &ten_o_clock()).err(), Some(RotationError::BadPattern));
    assert_eq!(r.advance("", &ten_o_clock()).err(), Some(RotationError::NoDirectory(String::new())));
}

#[test]
fn time_fields_range_check() {
    assert!(ten_o_clock().is_in_range());
    let mut t = ten_o_clock();
    t.mon = 12;
    assert!(!t.is_in_range());
    t.mon = 11;
    t.wday = -1;
    assert!(!t.is_in_range());
}

#[test]
fn epoch_seconds_in_utc_pattern() {
    let mut r = Rotation::new();
    let (name, _) = r.advance("logs/%s.log", &ten_o_clock()).unwrap();
    assert_eq!(name, "logs/1704105005.log");
}

fn post_of(a: EsAction) -> (String, String, String) {
    match a {
        EsAction::Post { url, path, body } => (url, path, body),
        _ => panic!("no post"),
    }
}

#[test]
fn elasticsearch_posts_documents_with_timestamps() {
    let line = r#"{"@timestamp": "2015-05-21T10:00:00Z", "message": "hi", "n": 1.5}"#;
    let (url, path, body) = post_of(Elasticsearch::index_request("es", 9200, line));
    assert_eq!(url, "http://es:9200/logstash-2015.05.21/logs?op_type=create");
    assert_eq!(path, "/logstash-2015.05.21/logs?op_type=create");
    assert_eq!(body, r#"{"@timestamp":"2015-05-21T10:00:00Z","message":"hi","n":1.5}"#);
}

#[test]
fn elasticsearch_skips_other_lines() {
    assert!(matches!(Elasticsearch::index_request("es", 9200, "not json"), EsAction::NotJson));
    assert!(matches!(Elasticsearch::index_request("es", 9200, r#"{"a": 1}"#), EsAction::NoTimestamp));
    assert!(matches!(Elasticsearch::index_request("es", 9200, r#"[1, 2]"#), EsAction::NoTimestamp));
    assert!(matches!(
        Elasticsearch::index_request("es", 9200, r#"{"@timestamp": 5}"#),
        EsAction::TimestampNotText
    ));
}

#[test]
fn elasticsearch_index_names() {
    assert_eq!(Elasticsearch::index_name("2015-05-21T10:00:00Z"), "logstash-2015.05.21");
    assert_eq!(Elasticsearch::index_name("2015-05"), "logstash-2015.05");
    assert_eq!(Elasticsearch::index_name(""), "logstash-");
}
