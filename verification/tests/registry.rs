use rev_init::config::ServiceConfig;
use rev_init::config::ServiceInfo;
use rev_init::registry::ServiceRegistry;

fn named_config(name: &str) -> ServiceConfig {
    let mut config = ServiceConfig::default();
    config.name = name.to_string();
    config.exec_path = "/bin/true".to_string();
    config
}

#[test]
fn register_then_get_returns_the_entry() {
    let mut reg = ServiceRegistry::new();
    let info = ServiceInfo::fresh(named_config("web"));
    reg.register_service("web".to_string(), info.clone());
    let got = reg.get_service("web").expect("registered entry");
    assert_eq!(got, info);
    assert!(reg.get_service("other").is_none());
}

#[test]
fn launch_then_reap_clears_the_entry_and_the_pid_index() {
    let mut reg = ServiceRegistry::new();
    reg.register_service(
        "web".to_string(),
        ServiceInfo::fresh(named_config("web")),
    );

    reg.update_service_pid(Some("web"), Some(4242), None, None, 1700000000);
    let running = reg.get_service("web").expect("registered entry");
    assert!(running.is_running);
    assert_eq!(running.pid, Some(4242));
    assert_eq!(running.up_timestamp, Some(1700000000));
    assert!(reg.pid_known(4242));

    reg.update_service_pid(None, None, Some(4242), Some(3), 0);
    let stopped = reg.get_service("web").expect("registered entry");
    assert!(!stopped.is_running);
    assert_eq!(stopped.pid, None);
    assert_eq!(stopped.up_timestamp, None);
    assert_eq!(stopped.last_exit_code, Some(3));
    assert!(!reg.pid_known(4242));
}

#[test]
fn reaping_an_unknown_pid_is_a_no_op() {
    let mut reg = ServiceRegistry::new();
    reg.register_service(
        "web".to_string(),
        ServiceInfo::fresh(named_config("web")),
    );
    reg.update_service_pid(Some("web"), Some(7), None, None, 5);
    let before = reg.get_service("web").expect("registered entry");

    reg.update_service_pid(None, None, Some(99999), Some(1), 0);
    let after = reg.get_service("web").expect("registered entry");
    assert_eq!(before, after);
    assert!(reg.pid_known(7));
    assert!(!reg.pid_known(99999));
}

#[test]
fn launching_an_unknown_name_is_a_no_op() {
    let mut reg = ServiceRegistry::new();
    reg.update_service_pid(Some("ghost"), Some(5), None, None, 1);
    assert!(reg.get_service("ghost").is_none());
    assert!(!reg.pid_known(5));
}

#[test]
fn list_services_snapshots_every_entry() {
    let mut reg = ServiceRegistry::new();
    reg.register_service("a".to_string(), ServiceInfo::fresh(named_config("a")));
    reg.register_service("b".to_string(), ServiceInfo::fresh(named_config("b")));
    let listed = reg.list_services();
    assert_eq!(listed.len(), 2);
    let mut names: Vec<String> = listed.iter().map(|(n, _)| n.clone()).collect();
    names.sort();
    assert_eq!(names, vec!["a".to_string(), "b".to_string()]);
    for (name, info) in listed {
        assert_eq!(reg.get_service(&name), Some(info));
    }
}

#[test]
fn deregister_refuses_a_running_service() {
    let mut reg = ServiceRegistry::new();
    reg.register_service(
        "web".to_string(),
        ServiceInfo::fresh(named_config("web")),
    );
    reg.update_service_pid(Some("web"), Some(11), None, None, 1);

    assert!(!reg.deregister_service("web"));
    assert!(reg.get_service("web").is_some());

    reg.update_service_pid(None, None, Some(11), Some(0), 0);
    assert!(reg.deregister_service("web"));
    assert!(reg.get_service("web").is_none());
    assert_eq!(reg.list_services().len(), 0);
}

#[test]
fn deregister_of_an_unknown_name_reports_false() {
    let mut reg = ServiceRegistry::new();
    assert!(!reg.deregister_service("nobody"));
}

#[test]
fn register_overwrites_and_exited_services_stay_registered() {
    let mut reg = ServiceRegistry::new();
    reg.register_service(
        "job".to_string(),
        ServiceInfo::fresh(named_config("job")),
    );
    reg.update_service_pid(Some("job"), Some(21), None, None, 9);
    reg.update_service_pid(None, None, Some(21), Some(0), 0);
    // the exited service is still registered, not running
    let after_exit = reg.get_service("job").expect("still registered");
    assert!(!after_exit.is_running);

    let replacement = ServiceInfo::fresh(named_config("job"));
    reg.register_service("job".to_string(), replacement.clone());
    assert_eq!(reg.get_service("job"), Some(replacement));
    assert_eq!(reg.list_services().len(), 1);
}
