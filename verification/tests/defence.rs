use hello_old::crypto::sha3_256;
use hello_old::guarded::guarded_layout;
use hello_old::harden::{
    anti_debug_checks, check_injection, find_case_insensitive, firmware_virtual, image_text_hash,
    mitigation_policies, text_range, vm_detected,
};
use hello_old::pass::{piped_password, read_password, Echo, PassBuf, MAX_PASS_LEN};
use hello_old::rolling::{arm, arm_with, disarm, mask_from, rotate, rotate_with, Rolling};
use hello_old::seccomp::{build_filter, rule_count, Filter, BLACKLIST};
use hello_old::selfsig::{
    decode_hex32, expand_secret, hex, hex_error_text, hex_nibble, self_sign_secret, sign_program,
    verify_self_signature, HexError, BLOCK_LEN,
};
use hello_old::signal::{ignore, Signal};
use hello_old::watchdog::{
    beat_main, destruct_line, harden_exe, reason_name, set_open_ts, start, stop, tick, tracer_pid,
    unlock_exe, Dog, ExeLock, Observation, Reason,
};

#[test]
fn preloaded_libraries_are_noticed() {
    assert!(check_injection(None, None, None));
    assert!(!check_injection(Some("/tmp/x.so"), None, None));
    assert!(check_injection(Some("  "), None, Some("")));
}

#[test]
fn a_library_path_needs_a_loader() {
    let plain = "00400000-00401000 r-xp 00000000 08:01 1 /bin/x\n";
    let loader = "7f00-7f01 r-xp 00000000 08:01 1 /lib/ld-musl-x86_64.so.1\n";
    assert!(!check_injection(None, Some("/tmp"), Some(plain)));
    assert!(check_injection(None, Some("/tmp"), Some(loader)));
    assert!(check_injection(None, Some(""), Some(plain)));
}

#[test]
fn writable_code_is_noticed() {
    assert!(!check_injection(None, None, Some("1-2 rw-p 0\n3-4 rwxp 0 0\n")));
    assert!(check_injection(None, None, Some("1-2 rw-p 0\n3-4 r-xp 0 0\n")));
}

#[test]
fn the_code_region_of_a_map() {
    let maps = "00400000-00401000 r--p 0 x\n00401000-00452000 r-xp 1000 x\n7f-80 r-xp 0 y\n";
    assert_eq!(text_range(maps), Some((0x401000, 0x452000)));
    assert_eq!(text_range("nothing here"), None);
    assert_eq!(text_range(""), None);
}

#[test]
fn the_code_of_a_loaded_image() {
    let mut image = vec![0u8; 0x400];
    image[0x3c..0x40].copy_from_slice(&0x80u32.to_le_bytes());
    image[0x86..0x88].copy_from_slice(&2u16.to_le_bytes());
    image[0x94..0x96].copy_from_slice(&0xf0u16.to_le_bytes());
    let table = 0x80 + 24 + 0xf0;
    image[table..table + 6].copy_from_slice(b".data\0");
    let at = table + 40;
    image[at..at + 6].copy_from_slice(b".text\0");
    image[at + 8..at + 12].copy_from_slice(&16u32.to_le_bytes());
    image[at + 12..at + 16].copy_from_slice(&0x300u32.to_le_bytes());
    for i in 0..16 {
        image[0x300 + i] = i as u8;
    }
    assert_eq!(image_text_hash(&image), Some(sha3_256(&image[0x300..0x310])));
    image[at + 12..at + 16].copy_from_slice(&0x3f8u32.to_le_bytes());
    assert_eq!(image_text_hash(&image), None);
    image[at] = b'x';
    assert_eq!(image_text_hash(&image), None);
    assert_eq!(image_text_hash(&image[..0x3f]), None);
}

#[test]
fn virtual_machines_are_noticed() {
    assert!(vm_detected(Some("flags : fpu HYPERVISOR sse"), &vec![]));
    assert!(!vm_detected(Some("flags : fpu sse"), &vec!["LENOVO".to_string()]));
    assert!(vm_detected(None, &vec!["LENOVO".to_string(), "QEMU Standard PC".to_string()]));
    assert!(vm_detected(None, &vec!["innotek GmbH".to_string()]));
    assert!(!vm_detected(None, &vec![]));
}

#[test]
fn firmware_tables_are_searched() {
    assert!(find_case_insensitive(b"xxVmWaReyy", b"vmware"));
    assert!(!find_case_insensitive(b"vmwar", b"vmware"));
    assert!(firmware_virtual(b"...VirtualBox..."));
    assert!(!firmware_virtual(b"American Megatrends"));
}

#[test]
fn nobody_watches() {
    assert!(anti_debug_checks(0, false, 5_000_000));
    assert!(!anti_debug_checks(0, false, 5_000_001));
    assert!(!anti_debug_checks(7, false, 0));
    assert!(!anti_debug_checks(0, true, 0));
}

#[test]
fn policies_to_raise() {
    assert_eq!(mitigation_policies()[0], (1, 7));
    assert_eq!(mitigation_policies()[4], (10, 7));
}

#[test]
fn typing_a_passphrase() {
    assert_eq!(read_password(b"abc\nxyz"), b"abc");
    assert_eq!(read_password(b"ab\x7fc\r"), b"ac");
    assert_eq!(read_password(b"\x7f\x08a"), b"a");
    assert_eq!(read_password(b"a\x1b\tb\xc3\xa9"), b"ab");
    assert_eq!(read_password(b""), b"");
    assert_eq!(read_password(&[b'x'; 300]).len(), MAX_PASS_LEN);
    assert_eq!(MAX_PASS_LEN, 127);
}

#[test]
fn what_the_prompt_shows() {
    let mut p = PassBuf::new();
    assert_eq!(p.key(0x7f), Echo::Nothing);
    assert_eq!(p.key(b'a'), Echo::Star);
    assert_eq!(p.key(0x01), Echo::Nothing);
    assert_eq!(p.key(0x08), Echo::Erase);
    assert_eq!(p.key(b'z'), Echo::Star);
    assert_eq!(p.key(b'\n'), Echo::Done);
    assert_eq!(p.take(), b"z");
    assert_eq!(p.take(), b"");
}

#[test]
fn a_piped_passphrase_loses_its_line_end() {
    assert_eq!(piped_password("114514\r\n"), b"114514");
    assert_eq!(piped_password(" a b "), b" a b ");
    assert_eq!(piped_password("é\n"), "é".as_bytes());
}

#[test]
fn masked_text_is_never_plain() {
    let plain: Vec<u8> = (0..600).map(|i| i as u8).collect();
    let mut buf = plain.clone();
    let mut r = Rolling::new();
    arm_with(&mut r, &mut buf, &[0x55; 256]);
    assert_eq!(buf[3], 3 ^ 0x55);
    rotate_with(&mut r, &mut buf, &[0x0f; 256]);
    assert_eq!(buf[3], 3 ^ 0x0f);
    assert!(buf.iter().zip(&plain).all(|(a, b)| a != b));
    disarm(&mut r, &mut buf);
    assert_eq!(buf, plain);
    assert_eq!(r.mask, [0; 256]);
    assert!(!r.armed);
}

#[test]
fn random_masks_come_off_again() {
    let plain: Vec<u8> = vec![9; 300];
    let mut buf = plain.clone();
    let mut r = Rolling::new();
    arm(&mut r, &mut buf);
    let first = buf.clone();
    assert_ne!(first, plain);
    rotate(&mut r, &mut buf);
    assert_ne!(buf, first);
    disarm(&mut r, &mut buf);
    assert_eq!(buf, plain);
    let mut none: Vec<u8> = vec![];
    arm(&mut r, &mut none);
    assert!(!r.armed);
    let mut open = [1u8, 2, 3];
    let mask = r.mask;
    rotate(&mut r, &mut open);
    assert_eq!(open, [1, 2, 3]);
    assert_eq!(r.mask, mask);
}

#[test]
fn a_mask_without_chance() {
    let m = mask_from(None);
    let mut x = 0x9e3779b97f4a7c15u64;
    for b in m {
        x ^= x << 13;
        x ^= x >> 7;
        x ^= x << 17;
        assert_eq!(b, x as u8);
    }
    assert_eq!(mask_from(Some([3; 256])), [3; 256]);
}

/// What a filter says of a call.
fn verdict(prog: &[Filter], arch: u32, nr: u32) -> u32 {
    let mut pc = 0;
    let mut acc = 0;
    loop {
        let f = prog[pc];
        pc += 1;
        match f.code {
            0x20 => acc = if f.k == 4 { arch } else { nr },
            0x15 => pc += if acc == f.k { f.jt as usize } else { f.jf as usize },
            _ => return f.k,
        }
    }
}

#[test]
fn the_filter_kills_what_is_forbidden() {
    let prog = build_filter();
    assert_eq!(prog.len(), 4 + 2 * 22 + 1);
    for nr in 0..500 {
        let want = if BLACKLIST.contains(&nr) { 0x8000_0000 } else { 0x7fff_0000 };
        assert_eq!(verdict(&prog, 0xC000_003E, nr), want);
        assert_eq!(verdict(&prog, 0x4000_0003, nr), 0x8000_0000);
    }
    assert_eq!(rule_count(), 22);
}

#[test]
fn hexadecimal_digits() {
    assert_eq!(hex_nibble(b'0'), Ok(0));
    assert_eq!(hex_nibble(b'f'), Ok(15));
    assert_eq!(hex_nibble(b'A'), Ok(10));
    assert_eq!(hex_nibble(b'g'), Err(HexError::Digit { byte: b'g' }));
    let s = "00ff".repeat(16);
    let b = decode_hex32(&s).unwrap();
    assert_eq!(&b[..4], &[0, 255, 0, 255]);
    assert_eq!(hex(&b), s);
}

#[test]
fn refused_secrets_say_why() {
    assert_eq!(decode_hex32("ab"), Err(HexError::Length { got: 2 }));
    let bad = format!("{}zz", "a".repeat(62));
    assert_eq!(decode_hex32(&bad), Err(HexError::Digit { byte: b'z' }));
    assert_eq!(
        hex_error_text(HexError::Length { got: 2 }),
        "expected 64 hex chars, got 2"
    );
    assert_eq!(hex_error_text(HexError::Digit { byte: b'z' }), "non-hex byte 'z'");
    assert_eq!(hex_error_text(HexError::Digit { byte: b'\n' }), "non-hex byte '\\n'");
}

#[test]
fn a_secret_grows_from_its_seed() {
    let seed = [1u8; 32];
    let s = expand_secret(&seed);
    let first = blake3::hash(&[&seed[..], &0u64.to_le_bytes()].concat());
    let second = blake3::hash(&[&seed[..], &1u64.to_le_bytes()].concat());
    assert_eq!(&s[..32], first.as_bytes());
    assert_eq!(&s[32..], &second.as_bytes()[..25]);
    let written = format!("  {}\n", "01".repeat(32));
    assert_eq!(self_sign_secret(&written), Ok(s));
    assert!(self_sign_secret("").is_err());
}

fn public_of(secret: &[u8; 57]) -> [u8; 57] {
    ed448_goldilocks::SigningKey::try_from(secret.as_slice())
        .unwrap()
        .verifying_key()
        .to_bytes()
}

#[test]
fn a_signed_program_is_accepted() {
    let secret = expand_secret(&[2; 32]);
    let public = public_of(&secret);
    let file = sign_program(b"program", &secret);
    assert_eq!(file.len(), 7 + BLOCK_LEN);
    assert_eq!(&file[..15], b"programHLDLSIG1");
    assert_eq!(&file[15..23], &7u64.to_le_bytes());
    assert_eq!(&file[23..80], &public);
    assert!(verify_self_signature(&file, &public));
}

#[test]
fn a_changed_program_is_refused() {
    let secret = expand_secret(&[2; 32]);
    let public = public_of(&secret);
    let file = sign_program(b"program", &secret);
    for i in 0..file.len() {
        let mut bad = file.clone();
        bad[i] ^= 1;
        assert!(!verify_self_signature(&bad, &public));
    }
    assert!(!verify_self_signature(b"program", &public));
    assert!(!verify_self_signature(&file[1..], &public));
}

#[test]
fn only_the_built_in_key_is_trusted() {
    let public = public_of(&expand_secret(&[2; 32]));
    let forged = sign_program(b"program", &expand_secret(&[3; 32]));
    assert!(!verify_self_signature(&forged, &public));
}

#[test]
fn all_signals_are_ignored() {
    assert_eq!(
        ignore(),
        vec![
            Signal::Interrupt,
            Signal::Terminate,
            Signal::HangUp,
            Signal::Quit,
            Signal::TerminalStop,
            Signal::BrokenPipe,
        ]
    );
}

fn calm(now: u64) -> Observation {
    Observation {
        now,
        idle_secs: 0,
        tracer: 0,
        debugger: false,
        text: Some([1; 32]),
        exe: Some(([2; 32], [2; 32])),
        key: vec![5; 64],
    }
}

#[test]
fn a_calm_tick_passes() {
    let mut w = start(100, sha3_256(&[5; 64]));
    assert_eq!(tick(&mut w, Dog::First, &calm(101)), None);
    assert_eq!(w.first_beat, 101);
    assert_eq!(w.text_base, Some([1; 32]));
    assert_eq!(tick(&mut w, Dog::Second, &calm(102)), None);
    assert_eq!(w.second_beat, 102);
    stop(&mut w);
    assert!(!w.running);
}

#[test]
fn each_alarm_has_its_reason() {
    let sha = sha3_256(&[5; 64]);
    let mut w = start(100, sha);
    assert_eq!(tick(&mut w, Dog::First, &calm(103)), Some(Reason::MainDead));
    beat_main(&mut w, 103);
    assert_eq!(tick(&mut w, Dog::First, &calm(103)), Some(Reason::SiblingDead));
    let mut w = start(100, sha);
    let seen = |f: &dyn Fn(&mut Observation)| {
        let mut o = calm(100);
        f(&mut o);
        o
    };
    let stale = seen(&|o| o.idle_secs = 301);
    assert_eq!(tick(&mut w, Dog::First, &stale), Some(Reason::Stale));
    let traced = seen(&|o| o.tracer = 1);
    assert_eq!(tick(&mut w, Dog::First, &traced), Some(Reason::Traced));
    let debugged = seen(&|o| o.debugger = true);
    assert_eq!(tick(&mut w, Dog::First, &debugged), Some(Reason::Debugger));
    let patched = seen(&|o| o.text = Some([9; 32]));
    assert_eq!(tick(&mut w, Dog::First, &calm(100)), None);
    assert_eq!(tick(&mut w, Dog::Second, &patched), Some(Reason::TextPatched));
    let changed = seen(&|o| o.exe = Some(([2; 32], [3; 32])));
    assert_eq!(tick(&mut w, Dog::First, &changed), Some(Reason::ExeChanged));
    let long = seen(&|o| o.key = vec![5; 65]);
    assert_eq!(tick(&mut w, Dog::First, &long), Some(Reason::KeyTooLong));
    let other = seen(&|o| o.key = vec![6; 64]);
    assert_eq!(tick(&mut w, Dog::First, &other), Some(Reason::KeyChanged));
}

#[test]
fn a_changed_program_file_is_caught_at_the_next_tick() {
    let mut w = start(100, sha3_256(&[5; 64]));
    let mut unread = calm(100);
    unread.exe = None;
    assert_eq!(tick(&mut w, Dog::First, &unread), None);
    assert_eq!(w.exe_base, None);
    assert_eq!(tick(&mut w, Dog::First, &calm(100)), None);
    assert_eq!(w.exe_base, Some([2; 32]));
    let mut other = calm(100);
    other.exe = Some(([3; 32], [3; 32]));
    assert_eq!(tick(&mut w, Dog::Second, &other), Some(Reason::ExeChanged));
    assert_eq!(tick(&mut w, Dog::First, &other), Some(Reason::ExeChanged));
    assert_eq!(w.exe_base, Some([2; 32]));
    assert_eq!(tick(&mut w, Dog::First, &calm(100)), None);
}

#[test]
fn a_clock_turned_back_is_caught() {
    let mut w = start(100, sha3_256(&[5; 64]));
    assert_eq!(tick(&mut w, Dog::First, &calm(100)), None);
    set_open_ts(&mut w, 101);
    assert_eq!(tick(&mut w, Dog::First, &calm(100)), Some(Reason::TimeGateEarly));
    assert_eq!(tick(&mut w, Dog::First, &calm(101)), None);
}

#[test]
fn what_is_logged() {
    assert_eq!(reason_name(Reason::SiblingDead, Dog::First), "W2_DEAD");
    assert_eq!(reason_name(Reason::SiblingDead, Dog::Second), "W1_DEAD");
    assert_eq!(reason_name(Reason::Stale, Dog::First), "STALE >300s");
    assert_eq!(
        destruct_line(7, reason_name(Reason::MainDead, Dog::First)),
        "[unix 7] MAIN_DEAD"
    );
}

#[test]
fn the_tracer_of_a_process() {
    assert_eq!(tracer_pid("Name:\tx\nTracerPid:\t42\nUid: 0\n"), 42);
    assert_eq!(tracer_pid("Name:\tx\nTracerPid:\t0\n"), 0);
    assert_eq!(tracer_pid("nothing"), 0);
}

#[test]
fn the_program_file_is_locked_once() {
    let mut lock = ExeLock { handle: None };
    assert_eq!(unlock_exe(&mut lock), None);
    harden_exe(&mut lock, 9);
    assert_eq!(unlock_exe(&mut lock), Some(9));
    assert_eq!(unlock_exe(&mut lock), None);
}

#[test]
fn guarded_buffers_have_whole_pages() {
    assert_eq!(guarded_layout(0).usable, 4096);
    assert_eq!(guarded_layout(4096).usable, 4096);
    assert_eq!(guarded_layout(4097).usable, 8192);
    assert_eq!(guarded_layout(4097).total, 16384);
}
