use hi::sys::{
    cpu_info, cpuinfo_data, cpuinfo_data_sysctl, ip_info, kernel_info, mem_fields, mem_info,
    mem_total_mib, mem_usage_sysctl, mem_usage_text, mem_used_mib, names_processor,
    parse_uptime, uptime_info, vm_stat_pages, HostOs,
};

const GREY: &str = "\x1b[90m";
const RESET: &str = "\x1b[0m";

#[test]
fn kernel_info_cheap_mode() {
    let line = kernel_info(true, HostOs::Linux, Some("5.15.0-91-generic\n".to_string()), &vec![90], 16);
    assert_eq!(line.unwrap(), format!("{GREY}kernel  {RESET}5.15.0-91-generic"));
}

#[test]
fn kernel_info_with_icon() {
    let line = kernel_info(false, HostOs::Linux, Some("6.1.0".to_string()), &vec![90], 16);
    assert_eq!(line.unwrap(), format!("{GREY}🐧 kernel  {RESET}6.1.0"));
    let mac = kernel_info(false, HostOs::MacOs, None, &vec![90], 16);
    assert_eq!(mac.unwrap(), format!("{GREY}🍎 kernel  {RESET}?"));
}

#[test]
fn kernel_info_in_256_mode() {
    let line = kernel_info(true, HostOs::Linux, Some("x".to_string()), &vec![0x82, 0x82, 0x82], 256);
    assert_eq!(line.unwrap(), format!("\x1b[38;5;145mkernel  {RESET}x"));
}

#[test]
fn parse_uptime_standard_output() {
    let r = parse_uptime(" 10:15:02 up 12 min,  1 user,  load average: 0.08, 0.03, 0.01\n");
    assert_eq!(r.up, "12 min");
    assert_eq!(r.load, "0.08, 0.03, 0.01");
    assert_eq!(r.first_load, "0.08");
}

#[test]
fn parse_uptime_with_comma_decimals() {
    let r = parse_uptime(" 10:15:02 up 3 days,  4:05,  2 users,  load average: 0,52, 0,58, 0,59");
    assert_eq!(r.up, "3 days");
    assert_eq!(r.load, "0,52, 0,58, 0,59");
    assert_eq!(r.first_load, "0");
}

#[test]
fn parse_uptime_unknown_output() {
    let r = parse_uptime("garbage");
    assert_eq!(r.up, "?");
    assert_eq!(r.load, "?");
    assert_eq!(r.first_load, "?");
}

#[test]
fn uptime_info_line() {
    let r = parse_uptime(" 10:15:02 up 12 min,  1 user,  load average: 0.08, 0.03, 0.01\n");
    let line = uptime_info(true, &r, "BAR", &vec![90], 16).unwrap();
    assert_eq!(line, format!("{GREY}load/up {RESET}BAR 0.08, 0.03, 0.01 (12 min)"));
}

#[test]
fn ip_info_private_only() {
    let out = "1: lo: <LOOPBACK,UP,LOWER_UP> mtu 65536\n    inet 127.0.0.1/8 scope host lo\n2: eth0: <BROADCAST,UP> mtu 1500\n    inet 192.168.1.20/24 brd 192.168.1.255 scope global eth0\n";
    let line = ip_info(true, out, &vec![90], 16).unwrap();
    assert_eq!(line, format!("{GREY}ip      {RESET}192.168.1.20"));
}

#[test]
fn ip_info_prefers_public_addresses() {
    let out = "inet 192.168.1.20/24 brd 192.168.1.255\ninet 203.0.113.5/24 brd 203.0.113.255\ninet 10.0.0.2/8\ninet 8.8.8.8/32\n";
    let line = ip_info(true, out, &vec![90], 16).unwrap();
    assert_eq!(line, format!("{GREY}ip      {RESET}203.0.113.5 / 8.8.8.8"));
}

#[test]
fn ip_info_private_ranges() {
    let out = "172.16.0.1 172.31.255.1 172.32.0.1 1.2.3 1.2.3.4.5 999.1.1.1";
    let line = ip_info(true, out, &vec![90], 16).unwrap();
    assert_eq!(line, format!("{GREY}ip      {RESET}172.32.0.1 / 999.1.1.1"));
}

#[test]
fn ip_info_nothing_found() {
    let line = ip_info(true, "", &vec![90], 16).unwrap();
    assert_eq!(line, format!("{GREY}ip      {RESET}"));
}

#[test]
fn cpu_info_lines() {
    let line = cpu_info(true, &Some("Intel(R) Core".to_string()), 4, &vec![90], 16).unwrap();
    assert_eq!(line, format!("{GREY}cpu     {RESET}4 x Intel(R) Core"));
    let none = cpu_info(false, &None, 4, &vec![90], 16).unwrap();
    assert_eq!(none, format!("{GREY}💻 cpu     {RESET}not found"));
}

#[test]
fn cpuinfo_data_counts_processors() {
    let info = "processor\t: 0\nmodel name\t: Intel(R) Xeon(R) CPU @ 2.20GHz\nprocessor\t: 1\nmodel name\t: Intel(R) Xeon(R) CPU @ 2.20GHz\n";
    let (brand, cores) = cpuinfo_data(info);
    assert_eq!(brand, Some("Intel(R) Xeon(R) CPU @ 2.20GHz".to_string()));
    assert_eq!(cores, 2);
}

#[test]
fn cpuinfo_data_without_models() {
    assert_eq!(cpuinfo_data(""), (None, 1));
}

#[test]
fn cpuinfo_data_model_name_any_case_and_colons() {
    let (brand, cores) = cpuinfo_data("Model Name : AMD: X\nmodel name\n");
    assert_eq!(brand, Some("AMD".to_string()));
    assert_eq!(cores, 2);
}

#[test]
fn mem_fields_of_free_output() {
    let out = "              total        used        free      shared  buff/cache   available\nMem:           7951        2345        1234         123        4372        5321\nSwap:          2047           0        2047\n";
    assert_eq!(mem_fields(out), Some(("7951".to_string(), "2345".to_string())));
    assert_eq!(mem_fields("Mem: 100"), None);
    assert_eq!(mem_fields(""), None);
}

#[test]
fn mem_info_line() {
    let line = mem_info(false, "x", &vec![90], 16).unwrap();
    assert_eq!(line, format!("{GREY}🧠 mem     {RESET}x"));
}

#[test]
fn cpuinfo_data_sysctl_values() {
    assert_eq!(
        cpuinfo_data_sysctl(&Some(" 8\n".to_string()), &Some("Apple M1\n".to_string())),
        (Some("Apple M1".to_string()), 8)
    );
    assert_eq!(cpuinfo_data_sysctl(&Some("x".to_string()), &None), (None, 1));
    assert_eq!(cpuinfo_data_sysctl(&None, &None), (None, 1));
}

#[test]
fn mem_total_mib_values() {
    assert_eq!(mem_total_mib(&Some("17179869184\n".to_string())), 16384);
    assert_eq!(mem_total_mib(&Some("abc".to_string())), 0);
    assert_eq!(mem_total_mib(&None), 0);
}

#[test]
fn vm_stat_pages_values() {
    let out = "Mach Virtual Memory Statistics: (page size of 4096 bytes)\nPages free:                               12345.\nPages active:                            200000.\nPages wired down:                         100000.\n";
    assert_eq!(vm_stat_pages(out, "Pages wired"), 100000);
    assert_eq!(vm_stat_pages(out, "Pages active"), 200000);
    assert_eq!(vm_stat_pages(out, "Pages purgeable"), 0);
}

#[test]
fn mem_used_mib_value() {
    assert_eq!(mem_used_mib(100000, 200000), 1171);
}

#[test]
fn names_processor_lines() {
    assert!(names_processor("model name\t: x"));
    assert!(!names_processor("Model name\t: x"));
    assert!(!names_processor("model"));
}

#[test]
fn mem_usage_texts() {
    assert_eq!(mem_usage_text("B", 2345, 7951), "B 2345mo used / 7951mo");
    assert_eq!(mem_usage_sysctl(16384, 1171, "B"), "B 1171mo used / 16384mo");
    assert_eq!(mem_usage_sysctl(0, 5, "B"), "?");
}
