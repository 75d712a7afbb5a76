use rwinscp::backend::ssh_sftp_scp::{
    base64_no_pad, describe_key_type, fingerprint_text, format_unix_time, host_key_step,
    known_host_entry, HostKeyKind, HostKeyStep, KnownHostCheck,
};
use rwinscp::connection::{ConnectionProfile, Protocol};

#[test]
fn base64_matches_reference_vectors() {
    assert_eq!(base64_no_pad(b""), "");
    assert_eq!(base64_no_pad(b"f"), "Zg");
    assert_eq!(base64_no_pad(b"fo"), "Zm8");
    assert_eq!(base64_no_pad(b"foo"), "Zm9v");
    assert_eq!(base64_no_pad(b"foob"), "Zm9vYg");
    assert_eq!(base64_no_pad(b"fooba"), "Zm9vYmE");
    assert_eq!(base64_no_pad(b"foobar"), "Zm9vYmFy");
}

#[test]
fn base64_covers_the_whole_alphabet() {
    let bytes: Vec<u8> = (0u8..=255).collect();
    let encoded = base64_no_pad(&bytes);
    assert!(encoded.contains('+') && encoded.contains('/'));
    assert_eq!(encoded.len(), 342);
}

fn profile(host: &str) -> ConnectionProfile {
    let mut p = ConnectionProfile::new(Protocol::Sftp);
    p.host = host.to_owned();
    p
}

#[test]
fn bare_host_takes_the_protocol_default_port() {
    let mut p = profile("example.com");
    p.normalize_endpoint();
    assert_eq!(p.host, "example.com");
    assert_eq!(p.port, 22);
}

#[test]
fn inline_port_is_split_off() {
    let mut p = profile("example.com:2222");
    p.normalize_endpoint();
    assert_eq!(p.host, "example.com");
    assert_eq!(p.port, 2222);
}

#[test]
fn bracketed_ipv6_keeps_its_colons() {
    let mut p = profile("[::1]:2222");
    p.normalize_endpoint();
    assert_eq!(p.host, "[::1]");
    assert_eq!(p.port, 2222);
}

#[test]
fn bare_ipv6_is_left_alone() {
    let mut p = profile("fe80::1");
    p.normalize_endpoint();
    assert_eq!(p.host, "fe80::1");
    assert_eq!(p.port, 22);
}

#[test]
fn a_nonsense_port_falls_back_to_the_default() {
    let mut p = profile("example.com:notaport");
    p.normalize_endpoint();
    assert_eq!(p.port, 22);
}

#[test]
fn switching_protocol_moves_the_default_port() {
    let mut p = profile("example.com");
    p.set_protocol(Protocol::Ftp);
    assert_eq!(p.port, 21);
}

#[test]
fn port_zero_and_out_of_range_ports_fall_back() {
    let mut p = profile("  host:0 ");
    p.port = 9;
    p.normalize_endpoint();
    assert_eq!(p.host, "host:0");
    assert_eq!(p.port, 22);
    let mut p = profile("host:65536");
    p.normalize_endpoint();
    assert_eq!(p.host, "host:65536");
    assert_eq!(p.port, 22);
    let mut p = profile("host:+65535");
    p.normalize_endpoint();
    assert_eq!(p.host, "host");
    assert_eq!(p.port, 65535);
}

#[test]
fn bracketed_host_without_port_is_trimmed_only() {
    let mut p = profile(" [::1] ");
    p.normalize_endpoint();
    assert_eq!(p.host, "[::1]");
    assert_eq!(p.port, 22);
}

#[test]
fn fingerprints_and_key_names() {
    assert_eq!(fingerprint_text(Some(b"foo".as_slice())), "SHA256:Zm9v");
    assert_eq!(fingerprint_text(None), "unavailable");
    assert_eq!(describe_key_type(HostKeyKind::Ed25519), "ssh-ed25519");
    assert_eq!(describe_key_type(HostKeyKind::Ecdsa384), "ecdsa-sha2-nistp384");
    assert_eq!(describe_key_type(HostKeyKind::Unknown), "unknown");
}

#[test]
fn known_hosts_names_non_default_ports_in_brackets() {
    assert_eq!(known_host_entry("example.com", 22), "example.com");
    assert_eq!(known_host_entry("example.com", 2222), "[example.com]:2222");
}

#[test]
fn a_changed_host_key_is_refused() {
    assert!(matches!(host_key_step(KnownHostCheck::Match, "h", 22), HostKeyStep::Accept));
    assert!(matches!(host_key_step(KnownHostCheck::NotFound, "h", 22), HostKeyStep::Ask));
    match host_key_step(KnownHostCheck::Mismatch, "h", 2222) {
        HostKeyStep::Refuse(m) => assert!(m.starts_with("HOST KEY CHANGED FOR h:2222.")),
        _ => panic!("a changed key must be refused"),
    }
    match host_key_step(KnownHostCheck::Failure, "h", 22) {
        HostKeyStep::Refuse(m) => assert_eq!(m, "could not check the host key"),
        _ => panic!("a failed check must be refused"),
    }
}

#[test]
fn unix_times_format_as_utc_minutes() {
    assert_eq!(format_unix_time(0), "1970-01-01 00:00");
    assert_eq!(format_unix_time(1_700_000_000), "2023-11-14 22:13");
    assert_eq!(format_unix_time(u64::MAX), "1969-12-31 23:59");
}
