use snapfaas::vmm::{decimal_string, parse_id, vmm_args, FunctionConfig, OdirectOption};

fn config() -> FunctionConfig {
    FunctionConfig {
        name: "hello".to_string(),
        memory: 128,
        vcpus: 1,
        kernel: "vmlinux".to_string(),
        runtimefs: "python3.ext4".to_string(),
        appfs: String::new(),
        load_dir: None,
        dump_dir: None,
        cmdline: None,
        dump_ws: false,
        load_ws: false,
        copy_base: false,
        copy_diff: false,
    }
}

#[test]
fn minimal_command_line() {
    let args = vmm_args("7", &config(), 100, None, None);
    let expect = vec![
        "--id", "7", "--kernel", "vmlinux", "--mem_size", "128", "--vcpu_count", "1",
        "--rootfs", "python3.ext4", "--cid", "100",
    ];
    assert_eq!(args, expect);
}

#[test]
fn full_command_line() {
    let mut c = config();
    c.appfs = "app.ext2".to_string();
    c.load_dir = Some("snap/in".to_string());
    c.dump_dir = Some("snap/out".to_string());
    c.cmdline = Some("quiet".to_string());
    c.dump_ws = true;
    c.load_ws = true;
    c.copy_base = true;
    c.copy_diff = true;
    let od = OdirectOption { base: true, diff: false, rootfs: false, appfs: false };
    let args = vmm_args("3", &c, 4096, Some("tap0/AA:FC:00:00:00:01"), Some(od));
    let expect = vec![
        "--id", "3", "--kernel", "vmlinux", "--mem_size", "128", "--vcpu_count", "1",
        "--rootfs", "python3.ext4", "--cid", "4096", "--appfs", "app.ext2", "--load_from",
        "snap/in", "--dump_to", "snap/out", "--kernel_args", "quiet", "--dump_ws", "--load_ws",
        "--copy_base", "--copy_diff", "--tap_name", "tap0", "--mac", "AA:FC:00:00:00:01",
        "--odirect_base", "--no_odirect_diff", "--no_odirect_root", "--no_odirect_app",
    ];
    assert_eq!(args, expect);
}

#[test]
fn odirect_all_on_adds_only_base() {
    let od = OdirectOption { base: true, diff: true, rootfs: true, appfs: true };
    let args = vmm_args("1", &config(), 3, None, Some(od));
    assert_eq!(args.last().unwrap(), "--odirect_base");
    assert_eq!(args.len(), 13);
    let off = OdirectOption { base: false, diff: true, rootfs: true, appfs: true };
    assert_eq!(vmm_args("1", &config(), 3, None, Some(off)).len(), 12);
}

#[test]
fn network_takes_first_two_fields() {
    let args = vmm_args("1", &config(), 3, Some("tap1/mac1/extra"), None);
    assert_eq!(&args[12..], &["--tap_name", "tap1", "--mac", "mac1"]);
    let args = vmm_args("1", &config(), 3, Some("/m"), None);
    assert_eq!(&args[12..], &["--tap_name", "", "--mac", "m"]);
}

#[test]
fn decimal_numerals() {
    assert_eq!(decimal_string(0), "0");
    assert_eq!(decimal_string(9), "9");
    assert_eq!(decimal_string(10), "10");
    assert_eq!(decimal_string(1234567890), "1234567890");
    assert_eq!(decimal_string(usize::MAX), usize::MAX.to_string());
}

#[test]
fn vm_ids_parse_as_decimal() {
    assert_eq!(parse_id("0"), Some(0));
    assert_eq!(parse_id("42"), Some(42));
    assert_eq!(parse_id("007"), Some(7));
    assert_eq!(parse_id("+1"), Some(1));
    assert_eq!(parse_id("+42"), Some(42));
    assert_eq!(parse_id(&usize::MAX.to_string()), Some(usize::MAX));
}

#[test]
fn vm_ids_rejected() {
    assert_eq!(parse_id(""), None);
    assert_eq!(parse_id("4a"), None);
    assert_eq!(parse_id("+"), None);
    assert_eq!(parse_id("++1"), None);
    assert_eq!(parse_id("1+"), None);
    assert_eq!(parse_id("-1"), None);
    assert_eq!(parse_id(&format!("{}0", usize::MAX)), None);
    assert_eq!(parse_id("99999999999999999999999"), None);
}
