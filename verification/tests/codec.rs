use rev_init::codec::deserialize_service_config;
use rev_init::codec::serialize_service_config;
use rev_init::config::CronStr;
use rev_init::config::DescriptorError;
use rev_init::config::EnvMap;
use rev_init::config::RestartPolicy;
use rev_init::config::ServiceConfig;

fn full_config() -> ServiceConfig {
    let mut env = EnvMap::new();
    env.push_new("PATH".to_string(), "/usr/bin".to_string());
    env.push_new("LANG".to_string(), "C".to_string());
    ServiceConfig {
        name: "indexer".to_string(),
        exec_path: "/usr/bin/indexer".to_string(),
        args: vec!["--fast".to_string(), "data".to_string()],
        env,
        working_dir: Some("/var/lib/indexer".to_string()),
        restart_policy: RestartPolicy::OnFailure,
        timeout_stop: Some(30),
        schedule: Some(CronStr::new("*/5 * * * *".to_string()).expect("valid cron")),
        force_restart_on_schedule: true,
    }
}

#[test]
fn round_trip_full_descriptor() {
    let config = full_config();
    let bytes = serialize_service_config(&config);
    let decoded = deserialize_service_config(&bytes).expect("decode of encode");
    assert_eq!(decoded, config);
}

#[test]
fn round_trip_defaulted_descriptor() {
    let config = ServiceConfig::default();
    assert!(matches!(config.restart_policy, RestartPolicy::Never));
    assert!(config.working_dir.is_none());
    assert!(config.timeout_stop.is_none());
    assert!(config.schedule.is_none());
    assert!(!config.force_restart_on_schedule);
    let bytes = serialize_service_config(&config);
    let decoded = deserialize_service_config(&bytes).expect("decode of encode");
    assert_eq!(decoded, config);
}

#[test]
fn round_trip_unicode_fields() {
    let mut config = ServiceConfig::default();
    config.name = "dienst-\u{e9}chо".to_string();
    config.exec_path = "/bin/\u{2603}".to_string();
    let bytes = serialize_service_config(&config);
    let decoded = deserialize_service_config(&bytes).expect("decode of encode");
    assert_eq!(decoded, config);
}

fn write_str(buf: &mut Vec<u8>, s: &str) {
    buf.extend_from_slice(&(s.len() as u64).to_le_bytes());
    buf.extend_from_slice(s.as_bytes());
}

#[test]
fn decode_empty_buffer_is_truncated() {
    assert_eq!(
        deserialize_service_config(&[]),
        Err(DescriptorError::Truncated)
    );
}

#[test]
fn decode_short_string_is_truncated() {
    let mut buf = Vec::new();
    buf.extend_from_slice(&(10u64).to_le_bytes());
    buf.extend_from_slice(b"abc");
    assert_eq!(
        deserialize_service_config(&buf),
        Err(DescriptorError::Truncated)
    );
}

#[test]
fn decode_invalid_utf8_is_rejected() {
    let mut buf = Vec::new();
    buf.extend_from_slice(&(1u64).to_le_bytes());
    buf.push(0xFF);
    assert_eq!(
        deserialize_service_config(&buf),
        Err(DescriptorError::BadUtf8)
    );
}

#[test]
fn decode_bad_presence_byte_is_rejected() {
    let mut buf = serialize_service_config(&ServiceConfig::default());
    // the working-directory presence byte follows four 8-byte prefixes
    buf[32] = 7;
    assert_eq!(
        deserialize_service_config(&buf),
        Err(DescriptorError::BadTag)
    );
}

#[test]
fn decode_bad_policy_byte_is_rejected() {
    let mut buf = serialize_service_config(&ServiceConfig::default());
    // the policy byte follows the working-directory presence byte
    buf[33] = 9;
    assert_eq!(
        deserialize_service_config(&buf),
        Err(DescriptorError::BadTag)
    );
}

#[test]
fn decode_duplicate_env_key_is_rejected() {
    let mut buf = Vec::new();
    write_str(&mut buf, "dup");
    write_str(&mut buf, "/bin/true");
    buf.extend_from_slice(&(0u64).to_le_bytes());
    buf.extend_from_slice(&(2u64).to_le_bytes());
    write_str(&mut buf, "KEY");
    write_str(&mut buf, "one");
    write_str(&mut buf, "KEY");
    write_str(&mut buf, "two");
    assert_eq!(
        deserialize_service_config(&buf),
        Err(DescriptorError::DuplicateEnvKey)
    );
}

#[test]
fn decode_invalid_schedule_is_rejected() {
    let mut buf = Vec::new();
    write_str(&mut buf, "sched");
    write_str(&mut buf, "/bin/true");
    buf.extend_from_slice(&(0u64).to_le_bytes());
    buf.extend_from_slice(&(0u64).to_le_bytes());
    buf.push(0); // no working directory
    buf.push(2); // policy: never
    buf.push(0); // no stop timeout
    buf.push(1); // a schedule follows
    write_str(&mut buf, "definitely not cron");
    buf.push(0); // force flag
    assert_eq!(
        deserialize_service_config(&buf),
        Err(DescriptorError::InvalidSchedule)
    );
}

#[test]
fn decode_trailing_bytes_are_rejected() {
    let mut buf = serialize_service_config(&ServiceConfig::default());
    buf.push(0);
    assert_eq!(
        deserialize_service_config(&buf),
        Err(DescriptorError::TrailingBytes)
    );
}

#[test]
fn env_map_keeps_order_and_knows_its_keys() {
    let mut env = EnvMap::new();
    assert_eq!(env.len(), 0);
    env.push_new("A".to_string(), "1".to_string());
    env.push_new("B".to_string(), "2".to_string());
    assert_eq!(env.len(), 2);
    assert_eq!(env.entry(0), &("A".to_string(), "1".to_string()));
    assert_eq!(env.entry(1), &("B".to_string(), "2".to_string()));
    assert!(env.contains_key(&"A".to_string()));
    assert!(!env.contains_key(&"C".to_string()));
}

#[test]
fn cron_expressions_are_validated() {
    assert!(CronStr::new("*/5 * * * *".to_string()).is_ok());
    assert!(CronStr::new("0 5 * * *".to_string()).is_ok());
    assert_eq!(
        CronStr::new("definitely not cron".to_string()),
        Err(DescriptorError::InvalidSchedule)
    );
}
