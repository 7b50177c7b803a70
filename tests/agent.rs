use dashboard::agent::{
    classify, disk_info, handshake_message, is_allowed, network_report, pick_sensor, reply,
    select_disks, sum_counters, AgentTask,
};
use dashboard::proto::{
    BackendMessage, FrontendMessage, IdBackendMessage, IdFrontendMessage, NetworkResponse,
    NoIdBackendMessage, NoIdFrontendMessage, Signal, SignalAction, TempResponse, PROTOCOL_VERSION,
};

fn strings(v: &[&str]) -> Vec<String> {
    v.iter().map(|s| s.to_string()).collect()
}

#[test]
fn sensor_prefers_package_label() {
    let labels = strings(&["acpitz temp1", "nvme Composite", "coretemp Package id 0", "coretemp Core 0"]);
    assert_eq!(pick_sensor(&labels), Some(2));
    assert_eq!(pick_sensor(&strings(&["acpitz", "nvme"])), Some(0));
    assert_eq!(pick_sensor(&Vec::new()), None);
}

#[test]
fn disks_filtered_by_allow_list() {
    let mounts = strings(&["/", "/boot", "/mnt/data", "/mnt/other"]);
    let allowed = strings(&["/mnt/data/", "/"]);
    assert_eq!(select_disks(&mounts, &allowed), vec![0, 2]);
    assert!(is_allowed("/mnt/data", &allowed));
    assert!(!is_allowed("/mnt", &allowed));
    assert_eq!(select_disks(&mounts, &Vec::new()), Vec::<usize>::new());
}

#[test]
fn disk_usage_is_total_minus_available() {
    let d = disk_info("sda1".into(), "/".into(), 1000, 250);
    assert_eq!(d.usage.used, 750);
    assert_eq!(d.usage.total, 1000);
    assert_eq!(disk_info("x".into(), "/x".into(), 10, 20).usage.used, 0);
}

#[test]
fn network_counters_are_summed() {
    let r = network_report(&vec![1, 2, 3], &vec![10, 20]);
    assert_eq!(r, NetworkResponse { sent: 30, recv: 6 });
    assert_eq!(sum_counters(&vec![]), 0);
    assert_eq!(sum_counters(&vec![u64::MAX, 5]), u64::MAX);
}

#[test]
fn agent_opens_with_handshake() {
    match handshake_message("host".into()) {
        BackendMessage::NoId(NoIdBackendMessage::Handshake(h)) => {
            assert_eq!(h.nickname, "host");
            assert_eq!(h.version, PROTOCOL_VERSION);
        }
        _ => panic!("expected a handshake"),
    }
}

#[test]
fn requests_are_classified() {
    assert!(matches!(classify(FrontendMessage::Id(4, IdFrontendMessage::Disk)), AgentTask::Sample(4, IdFrontendMessage::Disk)));
    assert!(matches!(classify(FrontendMessage::NoId(NoIdFrontendMessage::Terminal(vec![1]))), AgentTask::Terminal(b) if b == vec![1]));
    let s = SignalAction { pid: 9, signal: Signal::Kill };
    assert!(matches!(classify(FrontendMessage::NoId(NoIdFrontendMessage::Signal(s))), AgentTask::Signal(a) if a == s));
}

#[test]
fn reply_keeps_id_and_checks_kind() {
    let t = IdBackendMessage::Temp(TempResponse { temp: Some(4250) });
    assert!(matches!(reply(12, IdFrontendMessage::Temp, t.clone()), Some(BackendMessage::Id(12, IdBackendMessage::Temp(_)))));
    assert!(reply(12, IdFrontendMessage::Cpu, t).is_none());
}
