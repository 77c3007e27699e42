use tg_unblock::bypass::{
    add_secondary_dns_args, blacklist_candidates, download_script, extract_script, first_present,
    goodbyedpi_args, goodbyedpi_candidates, reset_dns_args, reset_dns_outcome, set_dns_outcome,
    set_primary_dns_args, Base,
};
use tg_unblock::diagnostics::{
    adapter_from_output, benchmark_telegram, dns_from_output, extract_ping_time, ping_outcome,
};
use tg_unblock::frontend::{
    bind_address, bind_error_message, clock_text, connections_label, listen_label, log_line, log_msg,
    tg_proxy_link, tunnels_label, App, ControlStep, PROXY_PORT,
};
use tg_unblock::stats::ProxyStats;

#[test]
fn ping_time_in_english_output() {
    let out = "Pinging 149.154.167.51 with 32 bytes of data:\r\nReply from 149.154.167.51: bytes=32 time=46ms TTL=57\r\n";
    assert_eq!(extract_ping_time(out), Some(46));
    assert_eq!(extract_ping_time("Reply from 1.1.1.1: bytes=32 time<1ms TTL=58"), Some(1));
    assert_eq!(extract_ping_time("64 bytes from 1.1.1.1: icmp_seq=1 ttl=58 time=12.3 ms"), Some(12));
}

#[test]
fn ping_time_in_russian_output() {
    let out = "Ответ от 149.154.167.51: число байт=32 время=46мс TTL=57";
    assert_eq!(extract_ping_time(out), Some(46));
    assert_eq!(extract_ping_time("Ответ от 127.0.0.1: число байт=32 время<1мс TTL=128"), Some(1));
    assert_eq!(extract_ping_time("время=46мс"), Some(46));
    assert_eq!(extract_ping_time("ВРЕМЯ=20МС"), Some(20));
    assert_eq!(extract_ping_time("значение=12345мс"), None);
}

#[test]
fn ping_time_absent() {
    assert_eq!(extract_ping_time(""), None);
    assert_eq!(extract_ping_time("Request timed out.\r\n"), None);
    assert_eq!(extract_ping_time("time=ms\nx=5"), None);
    assert_eq!(extract_ping_time("time=abc\ny=7ms"), Some(7));
    assert_eq!(extract_ping_time("TIME=99999999999999999999999ms"), None);
}

#[test]
fn ping_outcome_needs_a_ttl() {
    let ok = b"Reply from 1.2.3.4: bytes=32 time=5ms TTL=57\r\n";
    assert_eq!(ping_outcome(true, ok, 99), (true, Some(5)));
    assert_eq!(ping_outcome(false, ok, 99), (false, None));
    assert_eq!(ping_outcome(true, b"Destination host unreachable.", 99), (false, None));
    assert_eq!(ping_outcome(true, b"Reply: ttl=64", 99), (true, Some(99)));
}

#[test]
fn adapter_and_dns_outputs() {
    assert_eq!(adapter_from_output(b"  Ethernet 2\r\n"), Some("Ethernet 2".to_string()));
    assert_eq!(adapter_from_output(b" \r\n "), None);
    assert_eq!(dns_from_output(b"8.8.8.8\r\n1.1.1.1\r\n"), Some("8.8.8.8, 1.1.1.1".to_string()));
    assert_eq!(dns_from_output(b"\r\n"), Some("Не определено".to_string()));
}

#[test]
fn benchmark_scores_average_of_successes() {
    let tcp = [(true, Some(100)), (false, None)];
    let https = [(true, Some(200))];
    assert_eq!(benchmark_telegram(&tcp, &https), (true, 175));
    let tcp = [(true, None)];
    assert_eq!(benchmark_telegram(&tcp, &[]), (true, 5000));
    let https = [(true, None)];
    assert_eq!(benchmark_telegram(&[], &https), (true, 10000));
    let tcp = [(true, Some(100)); 8];
    let https = [(false, None); 2];
    assert_eq!(benchmark_telegram(&tcp, &https), (true, 100));
}

#[test]
fn benchmark_without_any_success() {
    let tcp = [(false, None), (false, Some(3))];
    let https = [(false, None)];
    assert_eq!(benchmark_telegram(&tcp, &https), (false, u64::MAX));
    assert_eq!(benchmark_telegram(&[], &[]), (false, u64::MAX));
}

#[test]
fn benchmark_lower_latency_lower_score() {
    let slow = benchmark_telegram(&[(true, Some(300)), (true, Some(400))], &[(true, Some(900))]);
    let fast = benchmark_telegram(&[(true, Some(30)), (true, Some(40))], &[(true, Some(90))]);
    assert!(fast.1 <= slow.1);
}

#[test]
fn ping_lines_are_scanned_in_order() {
    assert_eq!(extract_ping_time("time=3ms\ntime=9ms"), Some(3));
    assert_eq!(extract_ping_time("Request timed out.\nReply: bytes=32 time=7ms TTL=57"), Some(7));
    assert_eq!(extract_ping_time("\ntime=5ms"), Some(5));
    assert_eq!(extract_ping_time("TIME=12MS"), Some(12));
    assert_eq!(extract_ping_time(""), None);
}

#[test]
fn connection_counters_track_connections() {
    let mut s = ProxyStats::new();
    s.connection_opened();
    s.connection_opened();
    s.connection_closed();
    assert_eq!(s.total_conn, 2);
    assert_eq!(s.active_conn, 1);
    s.connection_closed();
    assert_eq!(s.total_conn, 2);
    assert_eq!(s.active_conn, 0);
}

#[test]
fn start_switches_dns_then_starts_the_proxy() {
    let app = App::new(0);
    let steps = app.start_steps();
    assert_eq!(steps.len(), 2);
    match &steps[0] {
        ControlStep::SetDns { primary, secondary } => {
            assert_eq!(primary, "1.1.1.1");
            assert_eq!(secondary, "1.0.0.1");
        }
        _ => panic!("DNS is switched first"),
    }
    assert!(matches!(steps[1], ControlStep::StartProxy));
    let mut running = App::new(0);
    running.proxy_stats.start();
    assert!(running.start_steps().is_empty());
    let stop = running.stop_steps();
    assert!(matches!(stop[0], ControlStep::StopProxy));
    assert!(matches!(stop[1], ControlStep::ResetDns));
    assert_eq!(stop.len(), 2);
}

#[test]
fn dns_changes_are_logged() {
    let mut app = App::new(0);
    app.dns_switched(Ok(()), 5);
    assert_eq!(app.log[1].text, "DNS изменён на 1.1.1.1");
    assert!(!app.log[1].is_error);
    app.dns_switched(Err("нет прав".to_string()), 5);
    assert_eq!(app.log[2].text, "Не удалось сменить DNS: нет прав");
    assert!(app.log[2].is_error);
    app.dns_reset(Ok(()), 6);
    assert_eq!(app.log[3].text, "DNS сброшен на DHCP");
    app.dns_reset(Err("x".to_string()), 6);
    assert_eq!(app.log[4].text, "Не удалось сбросить DNS: x");
    assert!(app.log[4].is_error);
    assert_eq!(app.log.len(), 5);
}

#[test]
fn clock_is_two_digit_utc() {
    assert_eq!(clock_text(0), "00:00:00");
    assert_eq!(clock_text(3661), "01:01:01");
    assert_eq!(clock_text(86399), "23:59:59");
    assert_eq!(clock_text(86400 * 365 + 45296), "12:34:56");
}

#[test]
fn log_entries_are_stamped() {
    let mut log = Vec::new();
    log_msg(&mut log, "hello", true, 3600);
    assert_eq!(log.len(), 1);
    assert_eq!(log[0].text, "hello");
    assert!(log[0].is_error);
    assert_eq!(log[0].ts, "01:00:00");
    assert_eq!(log_line(&log[0]), "[01:00:00] hello");
}

#[test]
fn labels_and_links() {
    assert_eq!(PROXY_PORT, 1080);
    assert_eq!(connections_label(3, 1, 42), "Соединений: 3 (WS: 1) | Всего: 42");
    assert_eq!(tunnels_label(1, 3), "WebSocket-туннелей: 1 | Соединений: 3");
    assert_eq!(listen_label(1080), "SOCKS5 прокси на 127.0.0.1:1080");
    assert_eq!(bind_address(1080), "127.0.0.1:1080");
    assert_eq!(tg_proxy_link(1080), "tg://socks?server=127.0.0.1&port=1080");
    assert_eq!(bind_error_message(1080, "in use"), "Не удалось занять порт 1080: in use");
}

#[test]
fn app_start_and_stop() {
    let mut app = App::new(0);
    assert_eq!(app.log.len(), 1);
    assert_eq!(app.log[0].text, "Запущено");
    assert!(!app.proxy_running());
    assert!(app.start_proxy(1));
    assert_eq!(app.log[1].text, "Запускаю WS-прокси на 127.0.0.1:1080...");
    app.proxy_stats.start();
    assert!(!app.start_proxy(2));
    assert_eq!(app.log.len(), 2);
    app.confirm_started(3);
    assert_eq!(app.log[2].text, "Прокси запущен! Настройте Telegram.");
    let link = app.open_tg_proxy_link(4);
    assert_eq!(link, "tg://socks?server=127.0.0.1&port=1080");
    app.stop_proxy(5);
    assert!(!app.proxy_running());
    assert_eq!(app.log.last().unwrap().text, "Прокси остановлен");
    app.proxy_failed("boom", 6);
    assert!(app.log.last().unwrap().is_error);
    assert_eq!(app.log.last().unwrap().text, "Прокси остановлен: boom");
}

#[test]
fn stats_count_connections_and_tunnels() {
    let mut s = ProxyStats::new();
    assert!(!s.running && s.active_conn == 0 && s.total_conn == 0 && s.ws_active == 0);
    s.start();
    assert!(s.is_running());
    s.connection_opened();
    s.connection_opened();
    s.tunnel_opened();
    assert_eq!((s.active_conn, s.total_conn, s.ws_active), (2, 2, 1));
    s.tunnel_closed();
    s.connection_closed();
    assert_eq!((s.active_conn, s.total_conn, s.ws_active), (1, 2, 0));
    s.connection_closed();
    s.connection_closed();
    assert_eq!(s.active_conn, u32::MAX);
    s.stop();
    assert!(!s.running);
}

#[test]
fn netsh_arguments() {
    assert_eq!(
        set_primary_dns_args("Ethernet", "1.1.1.1"),
        vec!["interface", "ipv4", "set", "dnsservers", "Ethernet", "static", "1.1.1.1", "primary", "validate=no"]
    );
    assert_eq!(
        add_secondary_dns_args("Ethernet", "1.0.0.1"),
        vec!["interface", "ipv4", "add", "dnsservers", "Ethernet", "1.0.0.1", "index=2", "validate=no"]
    );
    assert_eq!(reset_dns_args("Wi-Fi"), vec!["interface", "ipv4", "set", "dnsservers", "Wi-Fi", "dhcp"]);
}

#[test]
fn netsh_outcomes() {
    assert_eq!(set_dns_outcome(true, b"ignored"), Ok(()));
    assert_eq!(set_dns_outcome(false, b"denied"), Err("Failed to set primary DNS: denied".to_string()));
    assert_eq!(reset_dns_outcome(false, b"x"), Err("Failed to reset DNS: x".to_string()));
    assert_eq!(reset_dns_outcome(true, b""), Ok(()));
}

#[test]
fn goodbyedpi_search_order() {
    let c = goodbyedpi_candidates();
    assert_eq!(c.len(), 18);
    assert_eq!(c[0].base, Base::ExeDir);
    assert_eq!(c[0].parts, vec!["tools", "x86_64", "goodbyedpi.exe"]);
    assert_eq!(c[2].parts, vec!["tools", "goodbyedpi.exe"]);
    assert_eq!(c[3].parts, vec!["tools", "goodbyedpi", "x86_64", "goodbyedpi.exe"]);
    assert_eq!(c[8].base, Base::ExeDir);
    assert_eq!(c[8].parts, vec!["goodbyedpi.exe"]);
    assert_eq!(c[9].base, Base::WorkDir);
    assert_eq!(c[17].parts, vec![".", "goodbyedpi.exe"]);
    let b = blacklist_candidates();
    assert_eq!(b.len(), 3);
    assert_eq!(b[1].parts, vec!["tools", "tg_blacklist.txt"]);
    assert_eq!(b[2].base, Base::ExeDir);
    assert_eq!(first_present(&[false, true, true]), Some(1));
    assert_eq!(first_present(&[false, false]), None);
}

#[test]
fn goodbyedpi_arguments_and_scripts() {
    assert_eq!(goodbyedpi_args(&["-5", "-e1"], Some("bl.txt")), vec!["-5", "-e1", "--blacklist", "bl.txt"]);
    assert_eq!(goodbyedpi_args(&["-9"], None), vec!["-9"]);
    assert_eq!(
        extract_script("tools\\g.zip", "tools"),
        "Expand-Archive -Path 'tools\\g.zip' -DestinationPath 'tools' -Force"
    );
    assert!(download_script("U", "Z").ends_with("Invoke-WebRequest -Uri 'U' -OutFile 'Z' -UseBasicParsing"));
}
