//! The desktop window's state and texts: its log, the proxy's counters, and
//! the lines it shows.
use vstd::prelude::*;
use crate::stats::ProxyStats;
use crate::text::{all_digits, decimal, digits_value, lemma_decimal, push_char, push_decimal};

verus! {

/// The port the local SOCKS5 proxy listens on.
pub const PROXY_PORT: u16 = 1080;

/// One line of the window's log.
pub struct LogEntry {
    pub text: String,
    pub is_error: bool,
    /// The time of day, `HH:MM:SS` (UTC).
    pub ts: String,
}

/// A number below 100 in two digits.
pub open spec fn two_digits(n: nat) -> Seq<char> {
    if n < 10 { seq!['0'] + decimal(n) } else { decimal(n) }
}

/// The UTC time of day of a Unix time, as `HH:MM:SS`.
pub open spec fn clock_of(now: u64) -> Seq<char> {
    two_digits(((now % 86400) / 3600) as nat) + seq![':'] + two_digits(((now % 3600) / 60) as nat)
        + seq![':'] + two_digits((now % 60) as nat)
}

proof fn lemma_two_digits(n: nat)
    requires
        n < 100,
    ensures
        two_digits(n).len() == 2,
        all_digits(two_digits(n)),
        digits_value(two_digits(n)) == n,
{
    lemma_decimal(n);
    if n < 10 {
        let t = two_digits(n);
        let d = decimal(n);
        assert(t.drop_last() =~= seq!['0']);
        assert(t.last() == d[0]);
        assert(seq!['0'].drop_last() =~= Seq::<char>::empty());
        assert(seq!['0'].last() == '0');
        assert(crate::text::digit_value('0') == 0);
        assert(digits_value(Seq::<char>::empty()) == 0);
        assert(digits_value(seq!['0']) == 0);
        assert(d.drop_last() =~= Seq::<char>::empty());
        assert(digits_value(d) == digits_value(d.drop_last()) * 10 + crate::text::digit_value(d.last()));
        assert(d.last() == d[0]);
    }
}

/// The clock shows hours, minutes and seconds of the day in UTC, each in
/// two digits, separated by colons.
pub proof fn law_clock_reads_back(now: u64)
    ensures
        clock_of(now).len() == 8,
        clock_of(now)[2] == ':',
        clock_of(now)[5] == ':',
        digits_value(clock_of(now).subrange(0, 2)) == (now % 86400) / 3600,
        digits_value(clock_of(now).subrange(3, 5)) == (now % 3600) / 60,
        digits_value(clock_of(now).subrange(6, 8)) == now % 60,
        all_digits(clock_of(now).subrange(0, 2)) && all_digits(clock_of(now).subrange(3, 5))
            && all_digits(clock_of(now).subrange(6, 8)),
{
    let h = ((now % 86400) / 3600) as nat;
    let m = ((now % 3600) / 60) as nat;
    let x = (now % 60) as nat;
    lemma_two_digits(h);
    lemma_two_digits(m);
    lemma_two_digits(x);
    let c = clock_of(now);
    assert(c.subrange(0, 2) =~= two_digits(h));
    assert(c.subrange(3, 5) =~= two_digits(m));
    assert(c.subrange(6, 8) =~= two_digits(x));
}

fn push_two_digits(s: &mut String, n: u64)
    requires
        n < 100,
    ensures
        final(s)@ == old(s)@ + two_digits(n as nat),
{
    if n < 10 {
        push_char(s, '0');
    }
    push_decimal(s, n);
}

/// The UTC time of day of a Unix time, as `HH:MM:SS`.
pub fn clock_text(now: u64) -> (t: String)
    ensures
        t@ == clock_of(now),
{
    let mut t = String::new();
    push_two_digits(&mut t, (now % 86400) / 3600);
    push_char(&mut t, ':');
    push_two_digits(&mut t, (now % 3600) / 60);
    push_char(&mut t, ':');
    push_two_digits(&mut t, now % 60);
    t
}

/// Adds a line to the log, stamped with the time of day of `now` (Unix seconds).
pub fn log_msg(log: &mut Vec<LogEntry>, text: &str, err: bool, now: u64)
    ensures
        final(log)@.len() == old(log)@.len() + 1,
        forall|i: int| 0 <= i < old(log)@.len() ==> final(log)@[i] == old(log)@[i],
        final(log)@.last().text@ == text@,
        final(log)@.last().is_error == err,
        final(log)@.last().ts@ == clock_of(now),
{
    let entry = LogEntry { text: String::from_str(text), is_error: err, ts: clock_text(now) };
    log.push(entry);
}

/// A line of the log as the window shows it: `[time] text`.
pub open spec fn log_line_text(e: LogEntry) -> Seq<char> {
    seq!['['] + e.ts@ + seq![']', ' '] + e.text@
}

/// A line of the log as the window shows it.
pub fn log_line(e: &LogEntry) -> (t: String)
    ensures
        t@ == log_line_text(*e),
{
    let mut t = String::new();
    push_char(&mut t, '[');
    t.append(e.ts.as_str());
    push_char(&mut t, ']');
    push_char(&mut t, ' ');
    t.append(e.text.as_str());
    t
}

/// The header's summary: "Соединений: A (WS: W) | Всего: T".
pub open spec fn connections_label_text(active: u32, ws: u32, total: u32) -> Seq<char> {
    "Соединений: "@ + decimal(active as nat) + " (WS: "@ + decimal(ws as nat) + ") | Всего: "@
        + decimal(total as nat)
}

/// The header's summary of connections and tunnels.
pub fn connections_label(active: u32, ws: u32, total: u32) -> (t: String)
    ensures
        t@ == connections_label_text(active, ws, total),
{
    let mut t = String::from_str("Соединений: ");
    push_decimal(&mut t, active as u64);
    t.append(" (WS: ");
    push_decimal(&mut t, ws as u64);
    t.append(") | Всего: ");
    push_decimal(&mut t, total as u64);
    t
}

/// The running panel's summary: "WebSocket-туннелей: W | Соединений: A".
pub open spec fn tunnels_label_text(ws: u32, active: u32) -> Seq<char> {
    "WebSocket-туннелей: "@ + decimal(ws as nat) + " | Соединений: "@ + decimal(active as nat)
}

/// The running panel's summary of tunnels and connections.
pub fn tunnels_label(ws: u32, active: u32) -> (t: String)
    ensures
        t@ == tunnels_label_text(ws, active),
{
    let mut t = String::from_str("WebSocket-туннелей: ");
    push_decimal(&mut t, ws as u64);
    t.append(" | Соединений: ");
    push_decimal(&mut t, active as u64);
    t
}

/// Where the proxy listens, as shown: "SOCKS5 прокси на 127.0.0.1:PORT".
pub open spec fn listen_label_text(port: u16) -> Seq<char> {
    "SOCKS5 прокси на 127.0.0.1:"@ + decimal(port as nat)
}

/// Where the proxy listens, as shown.
pub fn listen_label(port: u16) -> (t: String)
    ensures
        t@ == listen_label_text(port),
{
    let mut t = String::from_str("SOCKS5 прокси на 127.0.0.1:");
    push_decimal(&mut t, port as u64);
    t
}

/// The address the proxy binds: "127.0.0.1:PORT".
pub open spec fn bind_address_text(port: u16) -> Seq<char> {
    "127.0.0.1:"@ + decimal(port as nat)
}

/// The address the proxy binds.
pub fn bind_address(port: u16) -> (t: String)
    ensures
        t@ == bind_address_text(port),
{
    let mut t = String::from_str("127.0.0.1:");
    push_decimal(&mut t, port as u64);
    t
}

/// The Telegram link that sets the proxy up in the client.
pub open spec fn tg_proxy_link_text(port: u16) -> Seq<char> {
    "tg://socks?server=127.0.0.1&port="@ + decimal(port as nat)
}

/// The Telegram link that sets the proxy up in the client.
pub fn tg_proxy_link(port: u16) -> (t: String)
    ensures
        t@ == tg_proxy_link_text(port),
{
    let mut t = String::from_str("tg://socks?server=127.0.0.1&port=");
    push_decimal(&mut t, port as u64);
    t
}

/// The proxy listens on 127.0.0.1:1080, and the link that sets Telegram up
/// names that server and port.
pub proof fn law_proxy_addresses()
    ensures
        bind_address_text(PROXY_PORT) == "127.0.0.1:1080"@,
        tg_proxy_link_text(PROXY_PORT) == "tg://socks?server=127.0.0.1&port=1080"@,
        listen_label_text(PROXY_PORT) == "SOCKS5 прокси на 127.0.0.1:1080"@,
{
    reveal_strlit("127.0.0.1:");
    reveal_strlit("127.0.0.1:1080");
    reveal_strlit("tg://socks?server=127.0.0.1&port=");
    reveal_strlit("tg://socks?server=127.0.0.1&port=1080");
    reveal_strlit("SOCKS5 прокси на 127.0.0.1:");
    reveal_strlit("SOCKS5 прокси на 127.0.0.1:1080");
    reveal_with_fuel(decimal, 5);
    assert(decimal(1080) =~= seq!['1', '0', '8', '0']);
    assert(bind_address_text(PROXY_PORT) =~= "127.0.0.1:1080"@);
    assert(tg_proxy_link_text(PROXY_PORT) =~= "tg://socks?server=127.0.0.1&port=1080"@);
    assert(listen_label_text(PROXY_PORT) =~= "SOCKS5 прокси на 127.0.0.1:1080"@);
}

/// The log line when the proxy is being started.
pub open spec fn starting_message_text(port: u16) -> Seq<char> {
    "Запускаю WS-прокси на 127.0.0.1:"@ + decimal(port as nat) + "..."@
}

/// The log line when the proxy is being started.
pub fn starting_message(port: u16) -> (t: String)
    ensures
        t@ == starting_message_text(port),
{
    let mut t = String::from_str("Запускаю WS-прокси на 127.0.0.1:");
    push_decimal(&mut t, port as u64);
    t.append("...");
    t
}

/// The error of a proxy that could not bind its port: "Не удалось занять
/// порт PORT: ERROR".
pub open spec fn bind_error_text(port: u16, err: Seq<char>) -> Seq<char> {
    "Не удалось занять порт "@ + decimal(port as nat) + ": "@ + err
}

/// The error of a proxy that could not bind its port.
pub fn bind_error_message(port: u16, err: &str) -> (t: String)
    ensures
        t@ == bind_error_text(port, err@),
{
    let mut t = String::from_str("Не удалось занять порт ");
    push_decimal(&mut t, port as u64);
    t.append(": ");
    t.append(err);
    t
}

/// One thing that pressing the start or the stop button does.
pub enum ControlStep {
    /// Point the network adapter's DNS at these two servers.
    SetDns { primary: String, secondary: String },
    /// Start the SOCKS5 proxy on `PROXY_PORT`.
    StartProxy,
    /// Stop the proxy.
    StopProxy,
    /// Give the adapter's DNS back to DHCP.
    ResetDns,
}

/// Cloudflare's resolvers, which the bypass switches DNS to: 1.1.1.1 and
/// 1.0.0.1.
pub open spec fn cloudflare_dns() -> (Seq<char>, Seq<char>) {
    ("1.1.1.1"@, "1.0.0.1"@)
}

/// The window's state: its log and the proxy's counters.
pub struct App {
    pub log: Vec<LogEntry>,
    pub proxy_stats: ProxyStats,
}

impl App {
    /// A window with a stopped proxy and one log line, "Запущено" (started).
    pub fn new(now: u64) -> (app: Self)
        ensures
            app.log@.len() == 1,
            app.log@[0].text@ == "Запущено"@,
            !app.log@[0].is_error,
            app.log@[0].ts@ == clock_of(now),
            !app.proxy_stats.running,
            app.proxy_stats.active_conn == 0,
            app.proxy_stats.total_conn == 0,
            app.proxy_stats.ws_active == 0,
    {
        let mut app = App { log: Vec::new(), proxy_stats: ProxyStats::new() };
        log_msg(&mut app.log, "Запущено", false, now);
        app
    }

    /// Whether the proxy runs.
    pub fn proxy_running(&self) -> (b: bool)
        ensures
            b == self.proxy_stats.running,
    {
        self.proxy_stats.running
    }

    /// Stops the proxy and logs "Прокси остановлен" (proxy stopped).
    pub fn stop_proxy(&mut self, now: u64)
        ensures
            !final(self).proxy_stats.running,
            final(self).proxy_stats.active_conn == old(self).proxy_stats.active_conn,
            final(self).proxy_stats.total_conn == old(self).proxy_stats.total_conn,
            final(self).proxy_stats.ws_active == old(self).proxy_stats.ws_active,
            final(self).log@.len() == old(self).log@.len() + 1,
            forall|i: int| 0 <= i < old(self).log@.len() ==> final(self).log@[i] == old(self).log@[i],
            final(self).log@.last().text@ == "Прокси остановлен"@,
            !final(self).log@.last().is_error,
            final(self).log@.last().ts@ == clock_of(now),
    {
        self.proxy_stats.stop();
        log_msg(&mut self.log, "Прокси остановлен", false, now);
    }

    /// Asks to start the proxy: does nothing and answers `false` when it
    /// already runs; else logs that it is starting on `PROXY_PORT` and
    /// answers `true`, for the caller to start it.
    pub fn start_proxy(&mut self, now: u64) -> (go: bool)
        ensures
            go == !old(self).proxy_stats.running,
            final(self).proxy_stats == old(self).proxy_stats,
            !go ==> final(self).log@ == old(self).log@,
            go ==> final(self).log@.len() == old(self).log@.len() + 1,
            go ==> forall|i: int| 0 <= i < old(self).log@.len() ==> final(self).log@[i] == old(self).log@[i],
            go ==> final(self).log@.last().text@ == starting_message_text(PROXY_PORT),
            go ==> !final(self).log@.last().is_error,
            go ==> final(self).log@.last().ts@ == clock_of(now),
    {
        if self.proxy_running() {
            return false;
        }
        let msg = starting_message(PROXY_PORT);
        log_msg(&mut self.log, msg.as_str(), false, now);
        true
    }

    /// Once the proxy had time to start: logs "Прокси запущен! Настройте
    /// Telegram." (started, set Telegram up) if it runs.
    pub fn confirm_started(&mut self, now: u64)
        ensures
            final(self).proxy_stats == old(self).proxy_stats,
            !old(self).proxy_stats.running ==> final(self).log@ == old(self).log@,
            old(self).proxy_stats.running ==> final(self).log@.len() == old(self).log@.len() + 1,
            old(self).proxy_stats.running ==> forall|i: int|
                0 <= i < old(self).log@.len() ==> final(self).log@[i] == old(self).log@[i],
            old(self).proxy_stats.running ==> final(self).log@.last().text@
                == "Прокси запущен! Настройте Telegram."@,
            old(self).proxy_stats.running ==> !final(self).log@.last().is_error,
            old(self).proxy_stats.running ==> final(self).log@.last().ts@ == clock_of(now),
    {
        if self.proxy_running() {
            log_msg(&mut self.log, "Прокси запущен! Настройте Telegram.", false, now);
        }
    }

    /// The proxy stopped with an error: logs "Прокси остановлен: ERROR" as an error.
    pub fn proxy_failed(&mut self, err: &str, now: u64)
        ensures
            final(self).proxy_stats == old(self).proxy_stats,
            final(self).log@.len() == old(self).log@.len() + 1,
            forall|i: int| 0 <= i < old(self).log@.len() ==> final(self).log@[i] == old(self).log@[i],
            final(self).log@.last().text@ == "Прокси остановлен: "@ + err@,
            final(self).log@.last().is_error,
            final(self).log@.last().ts@ == clock_of(now),
    {
        let mut msg = String::from_str("Прокси остановлен: ");
        msg.append(err);
        log_msg(&mut self.log, msg.as_str(), true, now);
    }

    /// What the start button does, in order: switch DNS to Cloudflare, then
    /// start the proxy; nothing when the proxy already runs.
    pub fn start_steps(&self) -> (v: Vec<ControlStep>)
        ensures
            self.proxy_stats.running ==> v@.len() == 0,
            !self.proxy_stats.running ==> {
                &&& v@.len() == 2
                &&& v@[0] matches ControlStep::SetDns { primary, secondary } && primary@
                    == cloudflare_dns().0 && secondary@ == cloudflare_dns().1
                &&& v@[1] is StartProxy
            },
    {
        let mut v: Vec<ControlStep> = Vec::new();
        if !self.proxy_running() {
            let primary = String::from_str("1.1.1.1");
            let secondary = String::from_str("1.0.0.1");
            proof {
                reveal_strlit("1.1.1.1");
                reveal_strlit("1.0.0.1");
            }
            v.push(ControlStep::SetDns { primary, secondary });
            v.push(ControlStep::StartProxy);
        }
        v
    }

    /// What the stop button does, in order: stop the proxy, then give DNS
    /// back to DHCP.
    pub fn stop_steps(&self) -> (v: Vec<ControlStep>)
        ensures
            v@.len() == 2,
            v@[0] is StopProxy,
            v@[1] is ResetDns,
    {
        let mut v: Vec<ControlStep> = Vec::new();
        v.push(ControlStep::StopProxy);
        v.push(ControlStep::ResetDns);
        v
    }

    /// Logs how switching DNS to Cloudflare went: "DNS изменён на 1.1.1.1"
    /// (DNS switched), or "Не удалось сменить DNS: ERROR" as an error.
    pub fn dns_switched(&mut self, result: Result<(), String>, now: u64)
        ensures
            final(self).proxy_stats == old(self).proxy_stats,
            final(self).log@.len() == old(self).log@.len() + 1,
            forall|i: int| 0 <= i < old(self).log@.len() ==> final(self).log@[i] == old(self).log@[i],
            final(self).log@.last().text@ == match result {
                Ok(()) => "DNS изменён на 1.1.1.1"@,
                Err(e) => "Не удалось сменить DNS: "@ + e@,
            },
            final(self).log@.last().is_error == result is Err,
            final(self).log@.last().ts@ == clock_of(now),
    {
        match result {
            Ok(()) => log_msg(&mut self.log, "DNS изменён на 1.1.1.1", false, now),
            Err(e) => {
                let mut msg = String::from_str("Не удалось сменить DNS: ");
                msg.append(e.as_str());
                log_msg(&mut self.log, msg.as_str(), true, now);
            },
        }
    }

    /// Logs how giving DNS back to DHCP went: "DNS сброшен на DHCP" (DNS
    /// reset), or "Не удалось сбросить DNS: ERROR" as an error.
    pub fn dns_reset(&mut self, result: Result<(), String>, now: u64)
        ensures
            final(self).proxy_stats == old(self).proxy_stats,
            final(self).log@.len() == old(self).log@.len() + 1,
            forall|i: int| 0 <= i < old(self).log@.len() ==> final(self).log@[i] == old(self).log@[i],
            final(self).log@.last().text@ == match result {
                Ok(()) => "DNS сброшен на DHCP"@,
                Err(e) => "Не удалось сбросить DNS: "@ + e@,
            },
            final(self).log@.last().is_error == result is Err,
            final(self).log@.last().ts@ == clock_of(now),
    {
        match result {
            Ok(()) => log_msg(&mut self.log, "DNS сброшен на DHCP", false, now),
            Err(e) => {
                let mut msg = String::from_str("Не удалось сбросить DNS: ");
                msg.append(e.as_str());
                log_msg(&mut self.log, msg.as_str(), true, now);
            },
        }
    }

    /// Logs "Открываю настройку прокси в Telegram..." (opening the proxy
    /// setup in Telegram) and gives the link to open.
    pub fn open_tg_proxy_link(&mut self, now: u64) -> (link: String)
        ensures
            link@ == tg_proxy_link_text(PROXY_PORT),
            final(self).proxy_stats == old(self).proxy_stats,
            final(self).log@.len() == old(self).log@.len() + 1,
            forall|i: int| 0 <= i < old(self).log@.len() ==> final(self).log@[i] == old(self).log@[i],
            final(self).log@.last().text@ == "Открываю настройку прокси в Telegram..."@,
            !final(self).log@.last().is_error,
            final(self).log@.last().ts@ == clock_of(now),
    {
        let link = tg_proxy_link(PROXY_PORT);
        log_msg(&mut self.log, "Открываю настройку прокси в Telegram...", false, now);
        link
    }
}

} // verus!
