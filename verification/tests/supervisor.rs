use rev_init::codec::serialize_service_config;
use rev_init::config::DescriptorError;
use rev_init::config::ServiceConfig;
use rev_init::registry::ServiceRegistry;
use rev_init::supervisor::apply_reap_event;
use rev_init::supervisor::escalate_stop;
use rev_init::supervisor::reap_pending_children;
use rev_init::supervisor::record_launch;
use rev_init::supervisor::signal_stop;
use rev_init::supervisor::start_service_from_bytes;
use rev_init::supervisor::stop_target;
use rev_init::supervisor::ReapEvent;
use rev_init::supervisor::StartError;

fn echo_descriptor() -> Vec<u8> {
    let mut config = ServiceConfig::default();
    config.name = "echo".to_string();
    config.exec_path = "/bin/echo".to_string();
    config.args = vec!["hi".to_string()];
    serialize_service_config(&config)
}

#[test]
fn start_registers_the_decoded_descriptor() {
    let mut reg = ServiceRegistry::new();
    let plan = start_service_from_bytes(&mut reg, &echo_descriptor()).expect("admitted");
    assert_eq!(plan.name, "echo");
    assert_eq!(plan.exec_path, "/bin/echo");
    assert_eq!(plan.args, vec!["hi".to_string()]);
    let info = reg.get_service("echo").expect("registered");
    assert!(!info.is_running);
    assert_eq!(info.pid, None);
    assert_eq!(info.config, plan);
}

#[test]
fn start_rejects_a_malformed_descriptor() {
    let mut reg = ServiceRegistry::new();
    let r = start_service_from_bytes(&mut reg, &[1, 2, 3]);
    assert_eq!(
        r,
        Err(StartError::Descriptor(DescriptorError::Truncated))
    );
    assert_eq!(reg.list_services().len(), 0);
}

#[test]
fn two_starts_for_one_name_leave_one_entry() {
    let mut reg = ServiceRegistry::new();
    let bytes = echo_descriptor();
    assert!(start_service_from_bytes(&mut reg, &bytes).is_ok());
    assert_eq!(
        start_service_from_bytes(&mut reg, &bytes),
        Err(StartError::Duplicate)
    );
    assert_eq!(reg.list_services().len(), 1);
}

#[test]
fn stop_with_no_live_pid_signals_nothing() {
    let mut reg = ServiceRegistry::new();
    assert_eq!(stop_target(&reg, "echo"), None);
    assert_eq!(signal_stop(&reg, "echo"), None);

    start_service_from_bytes(&mut reg, &echo_descriptor()).expect("admitted");
    // registered but never launched: still nothing to signal
    assert_eq!(stop_target(&reg, "echo"), None);
    assert_eq!(signal_stop(&reg, "echo"), None);
}

#[test]
fn end_to_end_launch_and_unsolicited_reap() {
    let mut reg = ServiceRegistry::new();
    start_service_from_bytes(&mut reg, &echo_descriptor()).expect("admitted");

    // the supervisor records the forked child's pid
    record_launch(&mut reg, "echo", 54321);
    let running = reg.get_service("echo").expect("registered");
    assert!(running.is_running);
    assert_eq!(running.pid, Some(54321));
    assert!(running.up_timestamp.is_some());
    assert_eq!(stop_target(&reg, "echo"), Some((54321, None)));

    // the reaper attributes the exit by pid, with no further command
    let done = apply_reap_event(&mut reg, ReapEvent::Exited { pid: 54321, status: 0 });
    assert!(!done);
    let exited = reg.get_service("echo").expect("still registered");
    assert!(!exited.is_running);
    assert_eq!(exited.pid, None);
    assert_eq!(exited.last_exit_code, Some(0));
    assert!(!reg.pid_known(54321));
}

#[test]
fn escalation_only_fires_for_the_same_live_pid() {
    let mut reg = ServiceRegistry::new();
    assert!(!escalate_stop(&reg, "echo", 1));

    start_service_from_bytes(&mut reg, &echo_descriptor()).expect("admitted");
    // registered, not running: no pid matches, nothing is killed
    assert!(!escalate_stop(&reg, "echo", 1));

    record_launch(&mut reg, "echo", 54321);
    // a different pid than the one recorded: the stop was already overtaken
    assert!(!escalate_stop(&reg, "echo", 1));
}

#[test]
fn reap_events_that_end_a_sweep() {
    let mut reg = ServiceRegistry::new();
    assert!(!apply_reap_event(&mut reg, ReapEvent::OtherChange));
    assert!(apply_reap_event(&mut reg, ReapEvent::NoneReady));
    assert!(apply_reap_event(&mut reg, ReapEvent::NoChildren));
    assert!(apply_reap_event(&mut reg, ReapEvent::Failure));
}

#[test]
fn a_reap_sweep_without_children_changes_nothing() {
    let mut reg = ServiceRegistry::new();
    start_service_from_bytes(&mut reg, &echo_descriptor()).expect("admitted");
    let before = reg.get_service("echo");
    reap_pending_children(&mut reg);
    assert_eq!(reg.get_service("echo"), before);
}
