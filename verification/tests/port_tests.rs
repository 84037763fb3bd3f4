use std::cell::RefCell;

use rinova_void::clash::{
    admit_start_request, check_port, find_next_free_port, force_release_port, listen_after_release,
    local_base_url_for, prepare_listen_port, reclaim_port, refresh_target, release_after_wait,
    running_status, start_service_result, stopped_status, validate_subscription_url, ListenPlan,
    ReleaseAction, PORT_SCAN_MAX,
};

type SignalLog = RefCell<Vec<(Vec<i32>, bool)>>;

/// Runs a release as the application does, recording each signal asked for and
/// answering each wait with `freed_after(wait_ms)`.
fn drive(port: u16, first: ReleaseAction, freed_after: impl Fn(u64) -> bool, log: &SignalLog) -> Result<(), String> {
    let mut action = first;
    loop {
        match action {
            ReleaseAction::Done(answer) => return answer,
            ReleaseAction::Signal { pids, force, wait_ms } => {
                log.borrow_mut().push((pids.clone(), force));
                let freed = freed_after(wait_ms);
                action = release_after_wait(port, pids, force, freed);
            }
        }
    }
}

fn plan_answer(port: u16, plan: ListenPlan, log: &SignalLog) -> Result<(u16, bool, bool), String> {
    match plan {
        ListenPlan::Ready(answer) => answer,
        ListenPlan::Reclaim(first) => listen_after_release(port, drive(port, first, |_| true, log)),
    }
}

#[test]
fn validate_messages_and_trimming() {
    assert_eq!(
        validate_subscription_url("  https://example.com/sub \n").unwrap(),
        "https://example.com/sub"
    );
    assert_eq!(
        validate_subscription_url("ftp://example.com/sub").unwrap_err(),
        "URL 必须以 http:// 或 https:// 开头"
    );
    assert_eq!(validate_subscription_url("http://a.b").unwrap_err(), "URL 格式无效");
    assert_eq!(validate_subscription_url("http:///path/x").unwrap_err(), "URL 格式无效");
    let local = "不允许使用内网或本地地址作为订阅 URL";
    assert_eq!(validate_subscription_url("http://LOCALHOST:8080/x").unwrap_err(), local);
    assert_eq!(validate_subscription_url("http://api.localhost/x").unwrap_err(), local);
    assert_eq!(validate_subscription_url("http://[::1]/sub").unwrap_err(), local);
    assert_eq!(validate_subscription_url("http://[::1]:7890/sub").unwrap_err(), local);
    assert_eq!(validate_subscription_url("https://[FE80::1]/sub").unwrap_err(), local);
    assert_eq!(validate_subscription_url("https://[fd12::3]/sub").unwrap_err(), local);
    assert!(validate_subscription_url("https://[2001:db8::1]/sub").is_ok());
    assert_eq!(validate_subscription_url("http://user@127.0.0.1/x").unwrap_err(), local);
    assert_eq!(validate_subscription_url("http://172.16.0.1/x").unwrap_err(), local);
    assert_eq!(validate_subscription_url("http://169.254.1.1/x").unwrap_err(), local);
    assert!(validate_subscription_url("http://172.32.0.1/x").is_ok());
    assert!(validate_subscription_url("http://8.8.8.8/x").is_ok());
}

#[test]
fn validate_is_stable_on_its_answer() {
    let once = validate_subscription_url("\t https://sub.example.org/a?b=c  ").unwrap();
    let twice = validate_subscription_url(&once).unwrap();
    assert_eq!(once, twice);
}

#[test]
fn find_next_free_port_scans_thirty_two_ports() {
    assert_eq!(PORT_SCAN_MAX, 32);
    assert_eq!(find_next_free_port(30000, |p| p < 30010), Some(30010));
    assert_eq!(find_next_free_port(30000, |p| p <= 30032), None);
}

#[test]
fn status_reports() {
    let stopped = stopped_status();
    assert_eq!(stopped.status, "stopped");
    assert!(stopped.port.is_none() && stopped.url.is_none() && stopped.base_url.is_none());
    let running = running_status(Some(25500), Some("https://e.com/s".to_string()));
    assert_eq!(running.status, "running");
    assert_eq!(running.base_url.as_deref(), Some("http://127.0.0.1:25500"));
    assert_eq!(running.runner_kind, "builtin");
    assert_eq!(local_base_url_for(8080), "http://127.0.0.1:8080");
    assert_eq!(refresh_target(&running), Ok(25500));
    assert_eq!(refresh_target(&stopped).unwrap_err(), "服务未运行");
    assert_eq!(refresh_target(&running_status(None, None)).unwrap_err(), "服务未运行");
}

#[test]
fn start_request_checks() {
    assert_eq!(
        admit_start_request(" https://example.com/sub ", 25500, false, None).unwrap(),
        "https://example.com/sub"
    );
    assert_eq!(
        admit_start_request("https://example.com/sub", 80, false, None).unwrap_err(),
        "端口必须在 1024-65535 之间"
    );
    assert_eq!(
        admit_start_request("https://example.com/sub", 25500, true, Some(25501)).unwrap_err(),
        "服务已在运行 (port 25501)"
    );
    assert_eq!(
        admit_start_request("https://example.com/sub", 25500, true, None).unwrap_err(),
        "服务已在运行 (port 25500)"
    );
    let r = start_service_result(25501, 25500, true, false);
    assert_eq!(r.base_url, "http://127.0.0.1:25501");
    assert_eq!((r.port, r.requested_port, r.port_changed, r.port_reclaimed), (25501, 25500, true, false));
}

#[test]
fn force_release_never_signals_self() {
    let log: SignalLog = RefCell::new(Vec::new());
    let first = force_release_port(25500, 42, |_| true, |_| Ok(vec![42, 7, 9]));
    let r = drive(25500, first, |ms| ms == 2000, &log);
    assert!(r.is_ok());
    assert_eq!(*log.borrow(), vec![(vec![7, 9], false), (vec![7, 9], true)]);
    let log: SignalLog = RefCell::new(Vec::new());
    let first = force_release_port(25500, 42, |_| true, |_| Ok(vec![7, 42]));
    assert!(drive(25500, first, |ms| ms == 3000, &log).is_ok());
    assert_eq!(*log.borrow(), vec![(vec![7], false)]);
}

#[test]
fn force_release_outcomes() {
    let log: SignalLog = RefCell::new(Vec::new());
    let first = force_release_port(25500, 1, |_| false, |_| Ok(vec![]));
    assert!(drive(25500, first, |_| true, &log).is_ok());
    let first = force_release_port(25500, 1, |_| true, |_| Ok(vec![1]));
    assert_eq!(drive(25500, first, |_| true, &log).unwrap_err(), "端口 25500 正由本应用占用，请先在应用内停止服务");
    let first = force_release_port(25500, 1, |_| true, |_| Err("lsof".to_string()));
    assert_eq!(drive(25500, first, |_| true, &log).unwrap_err(), "lsof");
    assert!(log.borrow().is_empty());
    let first = force_release_port(25500, 1, |_| true, |_| Ok(vec![5]));
    assert_eq!(drive(25500, first, |_| false, &log).unwrap_err(), "无法释放端口 25500，请手动关闭占用程序");
    assert_eq!(*log.borrow(), vec![(vec![5], false), (vec![5], true)]);
}

#[test]
fn reclaim_outcomes() {
    let log: SignalLog = RefCell::new(Vec::new());
    let first = reclaim_port(80, 1, |_| true, |_| true, |_| Ok(vec![]));
    assert_eq!(drive(80, first, |_| true, &log).unwrap_err(), "端口必须在 1024-65535 之间");
    let first = reclaim_port(25500, 1, |_| false, |_| true, |_| Ok(vec![]));
    assert!(drive(25500, first, |_| true, &log).is_ok());
    let first = reclaim_port(25500, 1, |_| true, |_| false, |_| Ok(vec![2]));
    assert_eq!(drive(25500, first, |_| true, &log).unwrap_err(), "端口 25500 被其他程序占用，无法自动释放");
    assert!(log.borrow().is_empty());
    let first = reclaim_port(25500, 1, |_| true, |_| true, |_| Ok(vec![3]));
    assert!(drive(25500, first, |_| true, &log).is_ok());
    assert_eq!(*log.borrow(), vec![(vec![3], false)]);
}

#[test]
fn check_port_reports() {
    assert_eq!(
        check_port(1000, 1, |_| false, |_| false, |_| Ok(vec![])).unwrap_err(),
        "端口必须在 1024-65535 之间"
    );
    let free = check_port(25500, 1, |_| false, |_| false, |_| Ok(vec![])).unwrap();
    assert!(free.available && !free.reclaimable && !free.foreign && free.suggested_port.is_none());
    let ours = check_port(25500, 1, |_| true, |_| true, |_| Ok(vec![1, 2])).unwrap();
    assert!(!ours.available && ours.reclaimable && !ours.foreign);
    let only_self = check_port(25500, 1, |_| true, |_| true, |_| Ok(vec![1])).unwrap();
    assert!(!only_self.reclaimable);
    let foreign = check_port(25500, 1, |p| p < 25503, |_| false, |_| Ok(vec![])).unwrap();
    assert!(foreign.foreign && !foreign.available);
    assert_eq!(foreign.suggested_port, Some(25503));
    assert_eq!(foreign.port, 25500);
}

#[test]
fn prepare_listen_port_choices() {
    let log: SignalLog = RefCell::new(Vec::new());
    assert_eq!(
        plan_answer(25500, prepare_listen_port(25500, false, 1, |_| false, |_| false, |_| Ok(vec![])), &log),
        Ok((25500, false, false))
    );
    assert_eq!(
        plan_answer(25500, prepare_listen_port(25500, false, 1, |_| true, |_| true, |_| Ok(vec![9])), &log),
        Ok((25500, false, true))
    );
    assert_eq!(
        plan_answer(25500, prepare_listen_port(25500, true, 1, |p| p == 25500, |_| false, |_| Ok(vec![])), &log),
        Ok((25501, true, false))
    );
    assert_eq!(
        plan_answer(25500, prepare_listen_port(25500, true, 1, |_| true, |_| false, |_| Ok(vec![])), &log)
            .unwrap_err(),
        "端口 25500 被其他程序占用，且 25501–25532 无可用端口"
    );
    assert_eq!(
        plan_answer(65530, prepare_listen_port(65530, true, 1, |_| true, |_| false, |_| Ok(vec![])), &log)
            .unwrap_err(),
        "端口 65530 被其他程序占用，且 65531–65535 无可用端口"
    );
    assert_eq!(
        plan_answer(65535, prepare_listen_port(65535, true, 1, |_| true, |_| false, |_| Ok(vec![])), &log)
            .unwrap_err(),
        "端口 65535 被其他程序占用，且 65536–65535 无可用端口"
    );
    assert_eq!(
        plan_answer(25500, prepare_listen_port(25500, false, 1, |_| true, |_| false, |_| Ok(vec![])), &log)
            .unwrap_err(),
        "端口 25500 已被其他程序占用。请先关闭占用程序，或勾选「占用时自动换端口」"
    );
}
