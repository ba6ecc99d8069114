use tftpd::config::{privilege_plan, Config};
use tftpd::dispatch::{
    classify, path_refused_reply, read_open_reply, write_open_reply, AccessPolicy, Disposition,
    ReadOpenError, WriteOpenError,
};
use tftpd::options::{format_decimal, negotiate, parse_decimal};
use tftpd::paths::{confine, split_request_path};

fn pairs(ps: &[(&[u8], &[u8])]) -> Vec<(Vec<u8>, Vec<u8>)> {
    ps.iter().map(|(n, v)| (n.to_vec(), v.to_vec())).collect()
}

#[test]
fn classify_read_request() {
    let r = classify(b"\x00\x01hello.txt\x00octet\x00", AccessPolicy::ReadWrite);
    assert_eq!(
        r,
        Disposition::Read { filename: b"hello.txt".to_vec(), options: Vec::new() }
    );
}

#[test]
fn classify_accepts_mode_case_insensitively() {
    let r = classify(b"\x00\x01f\x00OcTeT\x00", AccessPolicy::ReadWrite);
    assert_eq!(r, Disposition::Read { filename: b"f".to_vec(), options: Vec::new() });
}

#[test]
fn classify_rejects_filename_that_is_not_utf8() {
    let r = classify(b"\x00\x01\xff\xfe\x00octet\x00", AccessPolicy::ReadWrite);
    assert_eq!(
        r,
        Disposition::Reply { code: 4, message: b"Malformed packet".to_vec() }
    );
}

#[test]
fn classify_rejects_unsupported_mode() {
    let r = classify(b"\x00\x01f\x00netascii\x00", AccessPolicy::ReadWrite);
    assert_eq!(
        r,
        Disposition::Reply { code: 0, message: b"Unsupported mode".to_vec() }
    );
}

#[test]
fn read_only_server_rejects_write_request() {
    let r = classify(b"\x00\x02f\x00octet\x00", AccessPolicy::ReadOnly);
    assert_eq!(
        r,
        Disposition::Reply { code: 4, message: b"writing not allowed".to_vec() }
    );
}

#[test]
fn write_only_server_rejects_read_request() {
    let r = classify(b"\x00\x01f\x00octet\x00", AccessPolicy::WriteOnly);
    assert_eq!(
        r,
        Disposition::Reply { code: 4, message: b"reading not allowed".to_vec() }
    );
}

#[test]
fn classify_drops_peer_error_silently() {
    let r = classify(b"\x00\x05\x00\x00gone\x00", AccessPolicy::ReadWrite);
    assert_eq!(r, Disposition::CloseSilent);
}

#[test]
fn classify_rejects_unexpected_opcodes() {
    let r = classify(b"\x00\x04\x00\x01", AccessPolicy::ReadWrite);
    assert_eq!(
        r,
        Disposition::Reply { code: 4, message: b"Unexpected opcode".to_vec() }
    );
    let r = classify(b"\x00\x09junk", AccessPolicy::ReadWrite);
    assert_eq!(
        r,
        Disposition::Reply { code: 4, message: b"Unexpected opcode".to_vec() }
    );
}

#[test]
fn classify_rejects_malformed_datagram() {
    let r = classify(b"\x00\x01broken", AccessPolicy::ReadWrite);
    assert_eq!(
        r,
        Disposition::Reply { code: 4, message: b"Malformed packet".to_vec() }
    );
}

#[test]
fn escape_path_is_refused_with_permission_denied() {
    // `../etc/passwd` splits into a directory to canonicalize and a
    // basename; the canonical directory lies outside the root, so the
    // guard refuses it and the peer sees ERROR(2, "Permission denied").
    let (dir, base) = split_request_path(b"../etc/passwd").expect("splittable");
    assert_eq!(dir, b"../etc");
    assert_eq!(base, b"passwd");
    assert_eq!(confine(b"/etc", &base, b"/srv/tftp"), None);
    let (code, message) = path_refused_reply();
    assert_eq!(code, 2);
    assert_eq!(message, b"Permission denied");
}

#[test]
fn confined_path_begins_with_the_root() {
    let p = confine(b"/srv/tftp/sub", b"f.bin", b"/srv/tftp").expect("inside the root");
    assert_eq!(p, b"/srv/tftp/sub/f.bin");
    assert!(p.starts_with(b"/srv/tftp"));
    let q = confine(b"/srv/tftp", b"hello.txt", b"/srv/tftp").expect("directly below the root");
    assert_eq!(q, b"/srv/tftp/hello.txt");
}

#[test]
fn sibling_prefix_directory_is_refused() {
    // `/srv/tftpd` begins with the bytes of `/srv/tftp` but is not below it.
    assert_eq!(confine(b"/srv/tftpd", b"f", b"/srv/tftp"), None);
}

#[test]
fn split_rejects_unusable_basenames() {
    assert_eq!(split_request_path(b""), None);
    assert_eq!(split_request_path(b"dir/"), None);
    assert_eq!(split_request_path(b"."), None);
    assert_eq!(split_request_path(b".."), None);
    assert_eq!(split_request_path(b"a/.."), None);
    let (dir, base) = split_request_path(b"plain").expect("bare name");
    assert_eq!(dir, b".");
    assert_eq!(base, b"plain");
    let (dir, base) = split_request_path(b"/abs").expect("absolute name");
    assert_eq!(dir, b"/");
    assert_eq!(base, b"abs");
}

#[test]
fn open_failures_map_to_protocol_errors() {
    assert_eq!(
        read_open_reply(&ReadOpenError::NotFound),
        (1, b"File not found".to_vec())
    );
    assert_eq!(
        read_open_reply(&ReadOpenError::NotRegular),
        (1, b"File not found".to_vec())
    );
    assert_eq!(
        read_open_reply(&ReadOpenError::Denied),
        (2, b"Permission denied".to_vec())
    );
    assert_eq!(
        write_open_reply(&WriteOpenError::AlreadyExists),
        (6, b"File already exists".to_vec())
    );
    assert_eq!(
        write_open_reply(&WriteOpenError::Denied),
        (2, b"Permission denied".to_vec())
    );
}

#[test]
fn negotiate_clamps_values_into_range() {
    let opts = pairs(&[(b"blksize", b"1"), (b"timeout", b"0")]);
    let n = negotiate(&opts, None);
    assert_eq!(n.blksize, 8);
    assert_eq!(n.timeout_secs, 1);
    assert_eq!(n.reply, pairs(&[(b"blksize", b"8"), (b"timeout", b"1")]));

    let opts = pairs(&[(b"blksize", b"999999"), (b"timeout", b"300")]);
    let n = negotiate(&opts, None);
    assert_eq!(n.blksize, 65464);
    assert_eq!(n.timeout_secs, 255);
    assert_eq!(n.reply, pairs(&[(b"blksize", b"65464"), (b"timeout", b"255")]));
}

#[test]
fn negotiate_defaults_without_options() {
    let n = negotiate(&Vec::new(), None);
    assert_eq!(n.blksize, 512);
    assert_eq!(n.timeout_secs, 5);
    assert!(n.reply.is_empty());
}

#[test]
fn negotiate_lowercases_names_and_keeps_request_order() {
    let opts = pairs(&[(b"TSIZE", b"0"), (b"BlkSize", b"1024")]);
    let n = negotiate(&opts, Some(777));
    assert_eq!(n.reply, pairs(&[(b"tsize", b"777"), (b"blksize", b"1024")]));
}

#[test]
fn negotiate_echoes_announced_tsize_on_write() {
    let opts = pairs(&[(b"tsize", b"600")]);
    let n = negotiate(&opts, None);
    assert_eq!(n.reply, pairs(&[(b"tsize", b"600")]));
}

#[test]
fn negotiate_drops_unknown_and_unreadable_options() {
    let opts = pairs(&[
        (b"windowsize", b"4"),
        (b"madeup", b"1"),
        (b"blksize", b"12x"),
        (b"timeout", b""),
    ]);
    let n = negotiate(&opts, None);
    assert!(n.reply.is_empty());
    assert_eq!(n.blksize, 512);
    assert_eq!(n.timeout_secs, 5);
}

#[test]
fn decimal_parse_and_format() {
    assert_eq!(parse_decimal(b"0"), Some(0));
    assert_eq!(parse_decimal(b"65464"), Some(65464));
    assert_eq!(parse_decimal(b"18446744073709551615"), Some(u64::MAX));
    assert_eq!(parse_decimal(b"18446744073709551616"), None);
    assert_eq!(parse_decimal(b""), None);
    assert_eq!(parse_decimal(b"12a"), None);
    assert_eq!(parse_decimal(b"-1"), None);
    assert_eq!(format_decimal(0), b"0");
    assert_eq!(format_decimal(10000), b"10000");
    assert_eq!(format_decimal(u64::MAX), b"18446744073709551615");
}

#[test]
fn stock_configuration_and_policy() {
    let c = Config::default();
    assert_eq!(c.port, 69);
    assert_eq!(c.uid, 65534);
    assert_eq!(c.gid, 65534);
    assert_eq!(c.threads, 2);
    assert!(!c.read_only && !c.write_only);
    assert!(c.validate());
    assert!(matches!(c.policy(), AccessPolicy::ReadWrite));

    let ro = Config { read_only: true, ..Config::default() };
    assert!(matches!(ro.policy(), AccessPolicy::ReadOnly));
    let wo = Config { write_only: true, ..Config::default() };
    assert!(matches!(wo.policy(), AccessPolicy::WriteOnly));
    let both = Config { read_only: true, write_only: true, ..Config::default() };
    assert!(!both.validate());
}

#[test]
fn privilege_plan_drops_only_privileged_axes() {
    let p = privilege_plan(0, 0, 0, 0);
    assert!(p.set_gid && p.set_uid);
    let p = privilege_plan(1000, 1000, 1000, 1000);
    assert!(!p.set_gid && !p.set_uid);
    let p = privilege_plan(1000, 0, 1000, 1000);
    assert!(!p.set_gid && p.set_uid);
    let p = privilege_plan(1000, 1000, 0, 1000);
    assert!(p.set_gid && !p.set_uid);
}
