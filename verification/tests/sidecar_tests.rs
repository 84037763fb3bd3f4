use rinova_void::sidecar::{
    choose_runner, proxy_command, sidecar_filename, sidecar_filename_for, ProxyRunner,
};

#[test]
fn sidecar_filename_matches_platform() {
    let name = sidecar_filename();
    if std::path::MAIN_SEPARATOR == '\\' {
        assert!(name.ends_with(".exe"));
    } else {
        assert_eq!(name, "proxy-server");
    }
}

#[test]
fn sidecar_filename_for_each_separator() {
    assert_eq!(sidecar_filename_for('\\'), "proxy-server.exe");
    assert_eq!(sidecar_filename_for('/'), "proxy-server");
}

#[test]
fn runner_labels() {
    assert_eq!(ProxyRunner::Sidecar("/opt/void/proxy-server".to_string()).label(), "sidecar");
    let node = ProxyRunner::NodeScript { node: "node".to_string(), script: "proxy.js".to_string() };
    assert_eq!(node.label(), "node");
}

#[test]
fn choose_runner_prefers_sidecar() {
    match choose_runner(Some("/bin/proxy".to_string()), "node".to_string(), "s.js") {
        ProxyRunner::Sidecar(p) => assert_eq!(p, "/bin/proxy"),
        _ => panic!("expected the sidecar"),
    }
    match choose_runner(None, "/usr/bin/node".to_string(), "s.js") {
        ProxyRunner::NodeScript { node, script } => {
            assert_eq!(node, "/usr/bin/node");
            assert_eq!(script, "s.js");
        }
        _ => panic!("expected node"),
    }
}

#[test]
fn proxy_command_lines() {
    let side = ProxyRunner::Sidecar("/bin/proxy".to_string());
    let (prog, args) = proxy_command(&side, 25500, "https://example.com/sub");
    assert_eq!(prog, "/bin/proxy");
    assert_eq!(args, vec!["25500".to_string(), "https://example.com/sub".to_string()]);
    let node = ProxyRunner::NodeScript { node: "node".to_string(), script: "p.js".to_string() };
    let (prog, args) = proxy_command(&node, 8080, "u");
    assert_eq!(prog, "node");
    assert_eq!(args, vec!["p.js".to_string(), "8080".to_string(), "u".to_string()]);
}
