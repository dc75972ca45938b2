//! LD_PRELOAD injection into emulator arguments and the forwarded guest
//! environment, plus the hex formatting used by the report sink.

use gasan::preload::{inject_preload, rewrite_entry, rewrite_env_value};
use gasan::report::hex_digits;

fn b(s: &str) -> Vec<u8> {
    s.as_bytes().to_vec()
}

#[test]
fn entry_rewrite_prepends_library() {
    let lib = b("/opt/libqasan.so");
    let out = rewrite_entry(&b("LD_PRELOAD=/lib/a.so"), &lib);
    assert_eq!(out, b("LD_PRELOAD=/opt/libqasan.so /lib/a.so"));
    let out = rewrite_entry(&b("PATH=/bin"), &lib);
    assert_eq!(out, b("PATH=/bin"));
    let out = rewrite_entry(&b("LD_PRELOAD="), &lib);
    assert_eq!(out, b("LD_PRELOAD=/opt/libqasan.so "));
}

#[test]
fn env_value_rewrite_handles_lists() {
    let lib = b("/l.so");
    let (out, found) = rewrite_env_value(&b("LD_PRELOAD=/x,FOO=1"), &lib);
    assert!(found);
    assert_eq!(out, b("LD_PRELOAD=/l.so /x,FOO=1"));
    let (out, found) = rewrite_env_value(&b("FOO=1,LD_PRELOAD=/x"), &lib);
    assert!(found);
    assert_eq!(out, b("FOO=1,LD_PRELOAD=/l.so /x"));
    let (out, found) = rewrite_env_value(&b("FOO=1,BAR=2"), &lib);
    assert!(!found);
    assert_eq!(out, b("FOO=1,BAR=2"));
}

#[test]
fn inject_inserts_pair_when_none_present() {
    let args = vec![b("qemu"), b("target")];
    let env = vec![(b("HOME"), b("/root"))];
    let (new_args, new_env) = inject_preload(&args, &env, &b("/l.so"));
    assert_eq!(new_args.len(), 4);
    assert_eq!(new_args[0], b("qemu"));
    assert_eq!(new_args[1], b("-E"));
    assert_eq!(new_args[2], b("LD_PRELOAD=/l.so"));
    assert_eq!(new_args[3], b("target"));
    assert_eq!(new_env.len(), 1);
    assert_eq!(new_env[0].0, b("HOME"));
    assert_eq!(new_env[0].1, b("/root"));
}

#[test]
fn inject_rewrites_e_flag_pair() {
    let args = vec![b("qemu"), b("-E"), b("LD_PRELOAD=/x"), b("target")];
    let env = vec![];
    let (new_args, _) = inject_preload(&args, &env, &b("/l.so"));
    assert_eq!(new_args.len(), 4);
    assert_eq!(new_args[2], b("LD_PRELOAD=/l.so /x"));
    assert_eq!(new_args[3], b("target"));
}

#[test]
fn inject_rewrites_forwarded_environment() {
    let args = vec![b("qemu"), b("target")];
    let env = vec![
        (b("QEMU_SET_ENV"), b("FOO=1,LD_PRELOAD=/x")),
        (b("OTHER"), b("LD_PRELOAD=/y")),
    ];
    let (new_args, new_env) = inject_preload(&args, &env, &b("/l.so"));
    // found in the environment: no pair inserted
    assert_eq!(new_args.len(), 2);
    assert_eq!(new_env[0].1, b("FOO=1,LD_PRELOAD=/l.so /x"));
    // only QEMU_SET_ENV values are rewritten
    assert_eq!(new_env[1].1, b("LD_PRELOAD=/y"));
}

#[test]
fn hex_digits_format_addresses() {
    assert_eq!(hex_digits(0xdeadbeef), b("00000000deadbeef"));
    assert_eq!(hex_digits(0), b("0000000000000000"));
    assert_eq!(hex_digits(u64::MAX), b("ffffffffffffffff"));
    assert_eq!(hex_digits(0x0123456789abcdef), b("0123456789abcdef"));
}
