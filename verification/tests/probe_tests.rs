use rinova_void::port_owners::{parse_i32, parse_lsof_pids, parse_netstat_pids};
use rinova_void::probe::{
    body_of, health_outcome, health_request, not_listening_message, post_request,
    read_json_response,
};

#[test]
fn numbers_parse_like_from_str() {
    let p = |s: &str| parse_i32(&s.chars().collect());
    assert_eq!(p("123"), Some(123));
    assert_eq!(p("+7"), Some(7));
    assert_eq!(p("-2147483648"), Some(i32::MIN));
    assert_eq!(p("2147483647"), Some(i32::MAX));
    assert_eq!(p("2147483648"), None);
    assert_eq!(p("99999999999999999999"), None);
    assert_eq!(p(""), None);
    assert_eq!(p("-"), None);
    assert_eq!(p("1a"), None);
    assert_eq!(p(" 1"), None);
}

#[test]
fn lsof_output() {
    assert_eq!(parse_lsof_pids("123\n 456 \r\nabc\n\n789"), vec![123, 456, 789]);
    assert!(parse_lsof_pids("").is_empty());
}

#[test]
fn netstat_output() {
    let out = "  TCP    0.0.0.0:25500    0.0.0.0:0    LISTENING    4242\r\n\
               \x20 TCP    [::]:25500       [::]:0       LISTENING    4242\r\n\
               \x20 TCP    0.0.0.0:8080     0.0.0.0:0    LISTENING    17\r\n\
               \x20 TCP    127.0.0.1:25500  127.0.0.1:5  ESTABLISHED  99\r\n\
               \x20 TCP    0.0.0.0:25500    0.0.0.0:0    LISTENING    1001\r\n";
    assert_eq!(parse_netstat_pids(out, 25500), vec![1001, 4242]);
    assert_eq!(parse_netstat_pids(out, 8080), vec![17]);
    assert!(parse_netstat_pids(out, 9).is_empty());
}

#[test]
fn requests_and_answers() {
    assert_eq!(
        health_request(25500),
        "GET /health HTTP/1.1\r\nHost: 127.0.0.1:25500\r\nConnection: close\r\n\r\n"
    );
    assert_eq!(
        post_request(25500, "/refresh"),
        "POST /refresh HTTP/1.1\r\nHost: 127.0.0.1:25500\r\nContent-Length: 0\r\nConnection: close\r\n\r\n"
    );
    assert_eq!(not_listening_message(9), "端口 9 未监听到服务");
    assert!(health_outcome("HTTP/1.1 200 OK\r\n").is_ok());
    assert_eq!(health_outcome("HTTP/1.1 404 Not Found").unwrap_err(), "服务响应不符合预期");
}

#[test]
fn json_answers() {
    let ok = "HTTP/1.1 200 OK\r\nContent-Type: application/json\r\n\r\n {\"ok\":true} ";
    assert_eq!(body_of(ok), "{\"ok\":true}");
    let v = read_json_response(ok).unwrap();
    assert_eq!(v.get("ok").and_then(|x| x.as_bool()), Some(true));
    assert_eq!(body_of("HTTP/1.0 200 OK\n\n[1]\n\ntrailer"), "[1]");
    assert_eq!(body_of("no blank line"), "");
    assert_eq!(
        read_json_response("HTTP/1.1 500 Internal Server Error\r\n\r\n{}").unwrap_err(),
        "HTTP 错误: HTTP/1.1 500 Internal Server Error"
    );
    assert_eq!(read_json_response("").unwrap_err(), "HTTP 错误: unknown");
    assert!(read_json_response("HTTP/1.1 200 OK\r\n\r\nnot json")
        .unwrap_err()
        .starts_with("解析响应失败: "));
}
