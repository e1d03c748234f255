use monitor_blank::lockfile::{pid_record, read_pid, startup_decision, Liveness, Startup};

#[test]
fn pid_round_trip() {
    for pid in [1u32, 9, 10, 4242, 65536, 0x7fff_ffff] {
        assert_eq!(read_pid(&pid_record(pid)), Some(pid));
    }
    assert_eq!(pid_record(4242), b"4242".to_vec());
}

#[test]
fn read_pid_trims_whitespace() {
    assert_eq!(read_pid(b"  1234\n"), Some(1234));
    assert_eq!(read_pid(b"\t77\r\n"), Some(77));
}

#[test]
fn read_pid_refuses_garbage() {
    assert_eq!(read_pid(b""), None);
    assert_eq!(read_pid(b" \n"), None);
    assert_eq!(read_pid(b"12a"), None);
    assert_eq!(read_pid(b"1 2"), None);
    assert_eq!(read_pid(b"-5"), None);
    assert_eq!(read_pid(b"0"), None);
    assert_eq!(read_pid(b"2147483648"), None);
    assert_eq!(read_pid(b"99999999999999999999"), None);
}

#[test]
fn live_holder_is_toggled_off() {
    assert_eq!(startup_decision(Some(4242), Liveness::Alive), Startup::Yield { pid: 4242 });
    assert_eq!(startup_decision(Some(4242), Liveness::NotPermitted), Startup::Yield { pid: 4242 });
}

#[test]
fn stale_or_missing_lock_is_claimed() {
    assert_eq!(startup_decision(Some(4242), Liveness::Gone), Startup::Claim);
    assert_eq!(startup_decision(None, Liveness::Alive), Startup::Claim);
    assert_eq!(startup_decision(read_pid(b"junk"), Liveness::Gone), Startup::Claim);
}

#[test]
fn second_instance_yields_without_overlays() {
    let a_pid = 4242u32;
    let record = pid_record(a_pid);
    let b = startup_decision(read_pid(&record), Liveness::Alive);
    assert_eq!(b, Startup::Yield { pid: a_pid });
}
