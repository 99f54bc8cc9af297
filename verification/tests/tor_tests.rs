use moot::tor::{
    TorBootstrap, TorStep, onion_address_from, tor_binary_name, tor_hostname_line, tor_ready_line, torrc_content,
    u16_to_decimal, SOCKS_PORT,
};

#[test]
fn decimal_formatting() {
    assert_eq!(u16_to_decimal(0), "0");
    assert_eq!(u16_to_decimal(7), "7");
    assert_eq!(u16_to_decimal(19050), "19050");
    assert_eq!(u16_to_decimal(u16::MAX), "65535");
}

#[test]
fn torrc_without_extra() {
    let text = torrc_content(SOCKS_PORT, "/d/tor", "/d/hs", 8080, None);
    assert_eq!(
        text,
        "SOCKSPort 19050\nDataDirectory /d/tor\nHiddenServiceDir /d/hs\nHiddenServicePort 80 127.0.0.1:8080\nLog notice stdout\nCircuitBuildTimeout 30\nLearnCircuitBuildTimeout 0\nSafeLogging 0\n"
    );
}

#[test]
fn torrc_with_extra() {
    let text = torrc_content(9050, "t", "h", 80, Some("UseBridges 1"));
    assert!(text.starts_with("SOCKSPort 9050\n"));
    assert!(text.ends_with("SafeLogging 0\nUseBridges 1\n"));
}

#[test]
fn ready_lines() {
    assert!(tor_ready_line("Nov 1 [notice] Opened HiddenService listener"));
    assert!(tor_ready_line("[notice] Tor has successfully opened a circuit. Looks like client functionality is working."));
    assert!(!tor_ready_line("[notice] Bootstrapped 50%"));
}

#[test]
fn hostname_lines() {
    assert!(tor_hostname_line("HiddenServiceDir /x: wrote hostname"));
    assert!(!tor_hostname_line("HiddenServiceDir /x"));
    assert!(!tor_hostname_line("hostname only"));
}

#[test]
fn onion_address_trimmed() {
    assert_eq!(onion_address_from("  abcdef.onion\n"), Some("abcdef.onion".to_string()));
    assert_eq!(onion_address_from(" \n\t"), None);
    assert_eq!(onion_address_from(""), None);
}

#[test]
fn binary_names() {
    assert_eq!(tor_binary_name(true), "tor.exe");
    assert_eq!(tor_binary_name(false), "tor");
}

#[test]
fn bootstrap_address_then_ready() {
    let mut b = TorBootstrap::new();
    assert_eq!(b.on_line("[notice] Bootstrapped 10%", false), TorStep::NextLine);
    assert_eq!(b.on_line("HiddenServiceDir /hs: hostname written", true), TorStep::ReadHostname);
    assert_eq!(b.on_hostname_text(Some("  \n")), TorStep::ReadHostname);
    assert_eq!(b.on_hostname_text(None), TorStep::ReadHostname);
    assert_eq!(b.on_hostname_text(Some("abc.onion\n")), TorStep::NextLine);
    assert_eq!(b.onion_address, Some("abc.onion".to_string()));
    assert_eq!(b.on_line("Tor has successfully opened a circuit.", false), TorStep::Finished);
    assert!(b.bootstrapped);
}

#[test]
fn bootstrap_ready_then_address() {
    let mut b = TorBootstrap::new();
    assert_eq!(b.on_line("Opened HiddenService listener", false), TorStep::NextLine);
    assert!(b.bootstrapped);
    assert_eq!(b.on_line("HiddenServiceDir x hostname", false), TorStep::NextLine);
    assert_eq!(b.on_line("HiddenServiceDir x hostname", true), TorStep::ReadHostname);
    assert_eq!(b.on_hostname_text(Some("xyz.onion")), TorStep::Finished);
}
