//! The configuration a node hands to its Tor process, and how it reads
//! Tor's progress and hidden-service address.
use vstd::prelude::*;
use crate::models::concat;
use crate::search::{occurs_in, text_contains};
use crate::text::{chars_of, is_space, is_space_char, string_from_range, trim};

verus! {

/// Port of Tor's SOCKS proxy.
pub const SOCKS_PORT: u16 = 19050;

/// Decimal digits of `n`, without leading zeros.
pub open spec fn decimal(n: nat) -> Seq<char>
    decreases n,
{
    let d = seq!['0', '1', '2', '3', '4', '5', '6', '7', '8', '9'][(n % 10) as int];
    if n < 10 {
        seq![d]
    } else {
        decimal(n / 10).push(d)
    }
}

/// Formats `n` in decimal.
pub fn u16_to_decimal(n: u16) -> (s: String)
    ensures
        s@ == decimal(n as nat),
    decreases n,
{
    let digits = ['0', '1', '2', '3', '4', '5', '6', '7', '8', '9'];
    proof {
        assert(digits@ =~= seq!['0', '1', '2', '3', '4', '5', '6', '7', '8', '9']);
    }
    let d = digits[(n % 10) as usize];
    let mut s = if n < 10 {
        String::new()
    } else {
        u16_to_decimal(n / 10)
    };
    crate::text::string_push(&mut s, d);
    s
}

/// The torrc a node writes: the SOCKS port, Tor's data directory, the
/// hidden-service directory, port 80 forwarded to the local HTTP port, the
/// fixed logging and circuit settings, then any extra lines.
pub open spec fn torrc_text(
    socks_port: u16,
    tor_data_dir: Seq<char>,
    hs_dir: Seq<char>,
    http_port: u16,
    extra: Option<Seq<char>>,
) -> Seq<char> {
    let base = "SOCKSPort "@ + decimal(socks_port as nat) + "\nDataDirectory "@ + tor_data_dir
        + "\nHiddenServiceDir "@ + hs_dir + "\nHiddenServicePort 80 127.0.0.1:"@ + decimal(
        http_port as nat,
    ) + "\nLog notice stdout\nCircuitBuildTimeout 30\nLearnCircuitBuildTimeout 0\nSafeLogging 0\n"@;
    match extra {
        Some(e) => base + e + "\n"@,
        None => base,
    }
}

/// Builds the torrc text.
pub fn torrc_content(
    socks_port: u16,
    tor_data_dir: &str,
    hs_dir: &str,
    http_port: u16,
    extra: Option<&str>,
) -> (text: String)
    ensures
        text@ == torrc_text(
            socks_port,
            tor_data_dir@,
            hs_dir@,
            http_port,
            match extra {
                Some(e) => Some(e@),
                None => None,
            },
        ),
{
    let s1 = concat("SOCKSPort ", u16_to_decimal(socks_port).as_str());
    let s2 = concat(s1.as_str(), "\nDataDirectory ");
    let s3 = concat(s2.as_str(), tor_data_dir);
    let s4 = concat(s3.as_str(), "\nHiddenServiceDir ");
    let s5 = concat(s4.as_str(), hs_dir);
    let s6 = concat(s5.as_str(), "\nHiddenServicePort 80 127.0.0.1:");
    let s7 = concat(s6.as_str(), u16_to_decimal(http_port).as_str());
    let base = concat(
        s7.as_str(),
        "\nLog notice stdout\nCircuitBuildTimeout 30\nLearnCircuitBuildTimeout 0\nSafeLogging 0\n",
    );
    match extra {
        Some(e) => {
            let with_extra = concat(base.as_str(), e);
            concat(with_extra.as_str(), "\n")
        },
        None => base,
    }
}

/// `needle` occurs in any text that has it between two other texts.
proof fn lemma_occurs_between(before: Seq<char>, needle: Seq<char>, after: Seq<char>)
    ensures
        occurs_in(before + needle + after, needle),
{
    let t = before + needle + after;
    assert(t.subrange(before.len() as int, (before.len() + needle.len()) as int) =~= needle);
}

/// Extra configuration only appends: the torrc with extra lines `e` is the
/// torrc without them, then `e` and a line break.
pub proof fn lemma_torrc_extra_only_appends(
    socks_port: u16,
    tor_data_dir: Seq<char>,
    hs_dir: Seq<char>,
    http_port: u16,
    e: Seq<char>,
)
    ensures
        torrc_text(socks_port, tor_data_dir, hs_dir, http_port, Some(e)) == torrc_text(
            socks_port,
            tor_data_dir,
            hs_dir,
            http_port,
            None,
        ) + e + "\n"@,
{
}

/// Whatever extra lines are given, the torrc starts with the SOCKS port
/// line, holds the line `Log notice stdout` (so Tor's progress reaches the
/// bootstrap watcher), forwards port 80 to the local HTTP port, and ends
/// with a line break.
pub proof fn lemma_torrc_lines(
    socks_port: u16,
    tor_data_dir: Seq<char>,
    hs_dir: Seq<char>,
    http_port: u16,
    extra: Option<Seq<char>>,
)
    ensures
        ({
            let t = torrc_text(socks_port, tor_data_dir, hs_dir, http_port, extra);
            let first = "SOCKSPort "@ + decimal(socks_port as nat) + "\n"@;
            &&& t.len() >= first.len()
            &&& t.subrange(0, first.len() as int) == first
            &&& occurs_in(t, "\nLog notice stdout\n"@)
            &&& occurs_in(t, "\nHiddenServicePort 80 127.0.0.1:"@ + decimal(http_port as nat) + "\n"@)
            &&& t.last() == '\n'
        }),
{
    reveal_strlit("SOCKSPort ");
    reveal_strlit("\n");
    reveal_strlit("\nDataDirectory ");
    reveal_strlit("\nLog notice stdout\n");
    reveal_strlit("CircuitBuildTimeout 30\nLearnCircuitBuildTimeout 0\nSafeLogging 0\n");
    reveal_strlit("\nLog notice stdout\nCircuitBuildTimeout 30\nLearnCircuitBuildTimeout 0\nSafeLogging 0\n");
    let t = torrc_text(socks_port, tor_data_dir, hs_dir, http_port, extra);
    let p = decimal(socks_port as nat);
    let q = decimal(http_port as nat);
    let log = "\nLog notice stdout\n"@;
    let settings = "CircuitBuildTimeout 30\nLearnCircuitBuildTimeout 0\nSafeLogging 0\n"@;
    let tail = "\nLog notice stdout\nCircuitBuildTimeout 30\nLearnCircuitBuildTimeout 0\nSafeLogging 0\n"@;
    assert(tail =~= log + settings);
    let head = "SOCKSPort "@ + p + "\nDataDirectory "@ + tor_data_dir + "\nHiddenServiceDir "@ + hs_dir
        + "\nHiddenServicePort 80 127.0.0.1:"@;
    let base = head + q + tail;
    let rest = match extra {
        Some(e) => settings + e + "\n"@,
        None => settings,
    };
    assert(t =~= head + q + log + rest);
    // The SOCKS line.
    let first = "SOCKSPort "@ + p + "\n"@;
    let after_first = ("DataDirectory "@ + tor_data_dir + "\nHiddenServiceDir "@ + hs_dir
        + "\nHiddenServicePort 80 127.0.0.1:"@ + q + log + rest);
    reveal_strlit("DataDirectory ");
    assert("\nDataDirectory "@ =~= "\n"@ + "DataDirectory "@);
    assert(t =~= first + after_first);
    assert(t.subrange(0, first.len() as int) =~= first);
    // The log line.
    lemma_occurs_between(head + q, log, rest);
    assert(t =~= (head + q) + log + rest);
    // The port line.
    let port_line = "\nHiddenServicePort 80 127.0.0.1:"@ + q + "\n"@;
    let head0 = "SOCKSPort "@ + p + "\nDataDirectory "@ + tor_data_dir + "\nHiddenServiceDir "@ + hs_dir;
    reveal_strlit("Log notice stdout\n");
    assert(log =~= "\n"@ + "Log notice stdout\n"@);
    lemma_occurs_between(head0, port_line, "Log notice stdout\n"@ + rest);
    assert(t =~= head0 + port_line + ("Log notice stdout\n"@ + rest));
    // The last character.
    match extra {
        Some(e) => {
            assert(t =~= (head + q + log + settings + e) + "\n"@);
        },
        None => {
            reveal_strlit("SafeLogging 0\n");
            reveal_strlit("CircuitBuildTimeout 30\nLearnCircuitBuildTimeout 0\n");
            assert(settings =~= "CircuitBuildTimeout 30\nLearnCircuitBuildTimeout 0\n"@ + "SafeLogging 0\n"@);
        },
    }
}

/// Whatever extra lines are given, the torrc names Tor's data directory and
/// the hidden-service directory on lines of their own, and sets the circuit
/// build timeout, turns off learning it, and turns off safe logging.
pub proof fn lemma_torrc_setting_lines(
    socks_port: u16,
    tor_data_dir: Seq<char>,
    hs_dir: Seq<char>,
    http_port: u16,
    extra: Option<Seq<char>>,
)
    ensures
        ({
            let t = torrc_text(socks_port, tor_data_dir, hs_dir, http_port, extra);
            &&& occurs_in(t, "\nDataDirectory "@ + tor_data_dir + "\n"@)
            &&& occurs_in(t, "\nHiddenServiceDir "@ + hs_dir + "\n"@)
            &&& occurs_in(t, "\nCircuitBuildTimeout 30\nLearnCircuitBuildTimeout 0\nSafeLogging 0\n"@)
        }),
{
    reveal_strlit("\n");
    reveal_strlit("\nDataDirectory ");
    reveal_strlit("DataDirectory ");
    reveal_strlit("\nLog notice stdout\n");
    reveal_strlit("CircuitBuildTimeout 30\nLearnCircuitBuildTimeout 0\nSafeLogging 0\n");
    reveal_strlit("\nLog notice stdout\nCircuitBuildTimeout 30\nLearnCircuitBuildTimeout 0\nSafeLogging 0\n");
    let t = torrc_text(socks_port, tor_data_dir, hs_dir, http_port, extra);
    let p = decimal(socks_port as nat);
    let q = decimal(http_port as nat);
    let log = "\nLog notice stdout\n"@;
    let settings = "CircuitBuildTimeout 30\nLearnCircuitBuildTimeout 0\nSafeLogging 0\n"@;
    let tail = "\nLog notice stdout\nCircuitBuildTimeout 30\nLearnCircuitBuildTimeout 0\nSafeLogging 0\n"@;
    assert(tail =~= log + settings);
    let head = "SOCKSPort "@ + p + "\nDataDirectory "@ + tor_data_dir + "\nHiddenServiceDir "@ + hs_dir
        + "\nHiddenServicePort 80 127.0.0.1:"@;
    let rest = match extra {
        Some(e) => settings + e + "\n"@,
        None => settings,
    };
    assert(t =~= head + q + log + rest);
    // The directory lines.
    reveal_strlit("HiddenServiceDir ");
    reveal_strlit("\nHiddenServiceDir ");
    reveal_strlit("HiddenServicePort 80 127.0.0.1:");
    reveal_strlit("\nHiddenServicePort 80 127.0.0.1:");
    assert("\nHiddenServiceDir "@ =~= "\n"@ + "HiddenServiceDir "@);
    assert("\nHiddenServicePort 80 127.0.0.1:"@ =~= "\n"@ + "HiddenServicePort 80 127.0.0.1:"@);
    let data_line = "\nDataDirectory "@ + tor_data_dir + "\n"@;
    let after_data = "HiddenServiceDir "@ + hs_dir + "\nHiddenServicePort 80 127.0.0.1:"@ + q + log + rest;
    lemma_occurs_between("SOCKSPort "@ + p, data_line, after_data);
    assert(t =~= ("SOCKSPort "@ + p) + data_line + after_data);
    let hs_line = "\nHiddenServiceDir "@ + hs_dir + "\n"@;
    let before_hs = "SOCKSPort "@ + p + "\nDataDirectory "@ + tor_data_dir;
    let after_hs = "HiddenServicePort 80 127.0.0.1:"@ + q + log + rest;
    lemma_occurs_between(before_hs, hs_line, after_hs);
    assert(t =~= before_hs + hs_line + after_hs);
    // The circuit settings.
    let circuit = "\nCircuitBuildTimeout 30\nLearnCircuitBuildTimeout 0\nSafeLogging 0\n"@;
    reveal_strlit("\nCircuitBuildTimeout 30\nLearnCircuitBuildTimeout 0\nSafeLogging 0\n");
    reveal_strlit("\nLog notice stdout");
    assert(log =~= "\nLog notice stdout"@ + "\n"@);
    assert(circuit =~= "\n"@ + settings);
    let extra_tail = match extra {
        Some(e) => e + "\n"@,
        None => Seq::<char>::empty(),
    };
    assert(rest =~= settings + extra_tail);
    lemma_occurs_between(head + q + "\nLog notice stdout"@, circuit, extra_tail);
    assert(t =~= (head + q + "\nLog notice stdout"@) + circuit + extra_tail);
}

/// Each character of a decimal numeral is a digit.
pub open spec fn digit_value(c: char) -> int {
    c as int - '0' as int
}

/// The number a numeral denotes.
pub open spec fn numeral_value(s: Seq<char>) -> int
    decreases s.len(),
{
    if s.len() == 0 {
        0
    } else {
        numeral_value(s.drop_last()) * 10 + digit_value(s.last())
    }
}

/// The decimal numeral of `n` denotes `n`, is made of digits, and has no
/// leading zero.
pub proof fn lemma_decimal_denotes(n: nat)
    ensures
        numeral_value(decimal(n)) == n,
        decimal(n).len() >= 1,
        decimal(n).len() == 1 <==> n < 10,
        forall|i: int| 0 <= i < decimal(n).len() ==> '0' <= #[trigger] decimal(n)[i] <= '9',
        decimal(n).len() > 1 ==> decimal(n)[0] != '0',
    decreases n,
{
    lemma_digit(n % 10);
    let dig = seq!['0', '1', '2', '3', '4', '5', '6', '7', '8', '9'][(n % 10) as int];
    let x = decimal(n);
    if n >= 10 {
        lemma_decimal_denotes(n / 10);
        let d = decimal(n / 10);
        assert(x == d.push(dig));
        assert(x.drop_last() =~= d);
        assert(x.last() == dig);
        assert(numeral_value(x) == numeral_value(d) * 10 + digit_value(dig));
        assert((n / 10) * 10 + n % 10 == n);
        assert(x[0] == d[0]);
        if d.len() == 1 {
            lemma_digit(n / 10 % 10);
            assert(n / 10 < 10);
            assert(n / 10 % 10 == n / 10);
        }
    } else {
        assert(x == seq![dig]);
        assert(x.drop_last() =~= Seq::<char>::empty());
        assert(numeral_value(x.drop_last()) == 0);
        assert(n % 10 == n);
    }
}

/// The digit for `k` denotes `k`.
proof fn lemma_digit(k: nat)
    requires
        k < 10,
    ensures
        ({
            let c = seq!['0', '1', '2', '3', '4', '5', '6', '7', '8', '9'][k as int];
            &&& digit_value(c) == k
            &&& '0' <= c <= '9'
        }),
{
    let s = seq!['0', '1', '2', '3', '4', '5', '6', '7', '8', '9'];
    if k == 0 { assert(s[0] == '0'); } else if k == 1 { assert(s[1] == '1'); } else if k == 2 {
        assert(s[2] == '2');
    } else if k == 3 { assert(s[3] == '3'); } else if k == 4 { assert(s[4] == '4'); } else if k == 5 {
        assert(s[5] == '5');
    } else if k == 6 { assert(s[6] == '6'); } else if k == 7 { assert(s[7] == '7'); } else if k == 8 {
        assert(s[8] == '8');
    } else { assert(s[9] == '9'); }
}

/// A log line that shows Tor is ready: it opened the hidden service or a
/// circuit.
pub open spec fn is_ready_line(line: Seq<char>) -> bool {
    occurs_in(line, "Opened HiddenService"@) || occurs_in(line, "Tor has successfully opened a circuit"@)
}

/// Whether a Tor log line shows that Tor is ready.
pub fn tor_ready_line(line: &str) -> (ready: bool)
    ensures
        ready == is_ready_line(line@),
{
    text_contains(line, "Opened HiddenService") || text_contains(line, "Tor has successfully opened a circuit")
}

/// A log line about the hidden-service directory's hostname file.
pub open spec fn is_hostname_line(line: Seq<char>) -> bool {
    occurs_in(line, "HiddenServiceDir"@) && occurs_in(line, "hostname"@)
}

/// Whether a Tor log line mentions the hidden service's hostname file.
pub fn tor_hostname_line(line: &str) -> (mentions: bool)
    ensures
        mentions == is_hostname_line(line@),
{
    text_contains(line, "HiddenServiceDir") && text_contains(line, "hostname")
}

/// The onion address in the text of the hostname file: the text trimmed;
/// none when that is empty.
pub fn onion_address_from(file_text: &str) -> (addr: Option<String>)
    ensures
        trim(file_text@).len() == 0 ==> addr is None,
        trim(file_text@).len() > 0 ==> (addr matches Some(a) && a@ == trim(file_text@)),
{
    let v = chars_of(file_text);
    let mut a: usize = 0;
    while a < v.len() && is_space(v[a])
        invariant
            a <= v.len(),
            v@ == file_text@,
            forall|j: int| 0 <= j < a ==> is_space_char(#[trigger] v@[j]),
        decreases v.len() - a,
    {
        a = a + 1;
    }
    let mut b: usize = v.len();
    while b > a && is_space(v[b - 1])
        invariant
            a <= b <= v.len(),
            v@ == file_text@,
            forall|j: int| b <= j < v.len() ==> is_space_char(#[trigger] v@[j]),
        decreases b,
    {
        b = b - 1;
    }
    proof {
        crate::text::lemma_trim_bounds(v@, a as int, b as int);
    }
    if a == b {
        None
    } else {
        Some(string_from_range(&v, a, b))
    }
}

/// What a node does next while it waits for Tor to come up.
#[derive(Clone, Copy, Debug, PartialEq, Eq, Structural)]
pub enum TorStep {
    /// Read Tor's next log line.
    NextLine,
    /// Read the hidden service's hostname file (again, after a pause, when
    /// the last read gave no address).
    ReadHostname,
    /// Tor is ready and the onion address is known.
    Finished,
}

/// How far Tor has come: whether a log line showed it ready, and the onion
/// address once the hostname file gave one.
#[derive(Clone, Debug)]
pub struct TorBootstrap {
    pub bootstrapped: bool,
    pub onion_address: Option<String>,
}

/// The step after a line or a read: finished once Tor is ready and the
/// address is known, else the next line.
pub open spec fn step_when(bootstrapped: bool, has_address: bool) -> TorStep {
    if bootstrapped && has_address {
        TorStep::Finished
    } else {
        TorStep::NextLine
    }
}

impl TorBootstrap {
    /// Nothing seen yet.
    pub fn new() -> (b: TorBootstrap)
        ensures
            !b.bootstrapped,
            b.onion_address is None,
    {
        TorBootstrap { bootstrapped: false, onion_address: None }
    }

    /// Takes one log line; `hostname_exists` tells whether the hostname file
    /// is on disk.  A line about the hostname file, while the file exists,
    /// asks for the file to be read; otherwise Tor is finished when it is
    /// ready and the address is known.
    pub fn on_line(&mut self, line: &str, hostname_exists: bool) -> (step: TorStep)
        ensures
            final(self).bootstrapped == (old(self).bootstrapped || is_ready_line(line@)),
            final(self).onion_address == old(self).onion_address,
            is_hostname_line(line@) && hostname_exists ==> step == TorStep::ReadHostname,
            !(is_hostname_line(line@) && hostname_exists) ==> step == step_when(
                final(self).bootstrapped,
                final(self).onion_address is Some,
            ),
    {
        if tor_ready_line(line) {
            self.bootstrapped = true;
        }
        if tor_hostname_line(line) && hostname_exists {
            return TorStep::ReadHostname;
        }
        if self.bootstrapped && self.onion_address.is_some() {
            TorStep::Finished
        } else {
            TorStep::NextLine
        }
    }

    /// Takes the text read from the hostname file (`None` when the read
    /// failed).  A non-blank text gives the address; otherwise the file is
    /// read again.
    pub fn on_hostname_text(&mut self, text: Option<&str>) -> (step: TorStep)
        ensures
            final(self).bootstrapped == old(self).bootstrapped,
            match text {
                Some(t) if trim(t@).len() > 0 => {
                    &&& final(self).onion_address matches Some(a) && a@ == trim(t@)
                    &&& step == step_when(final(self).bootstrapped, true)
                },
                _ => final(self).onion_address == old(self).onion_address && step
                    == TorStep::ReadHostname,
            },
    {
        let addr = match text {
            Some(t) => onion_address_from(t),
            None => None,
        };
        match addr {
            Some(a) => {
                self.onion_address = Some(a);
                if self.bootstrapped {
                    TorStep::Finished
                } else {
                    TorStep::NextLine
                }
            },
            None => TorStep::ReadHostname,
        }
    }
}

/// Name of the Tor executable on this platform.
pub fn tor_binary_name(on_windows: bool) -> (name: &'static str)
    ensures
        on_windows ==> name@ == "tor.exe"@,
        !on_windows ==> name@ == "tor"@,
{
    if on_windows {
        "tor.exe"
    } else {
        "tor"
    }
}

} // verus!
