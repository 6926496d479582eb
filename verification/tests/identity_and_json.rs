use hostmetrics::cpu_identity::CpuIdentity;
use hostmetrics::json::{cpu_info_json, escape_json, metrics_json};

const CPUINFO: &[u8] = b"processor\t: 0\nvendor_id\t: GenuineIntel\nmodel name\t: Example CPU @ 2.40GHz\ncpu MHz\t\t: 2400.000\nbogomips\t: 4800.00\n\nprocessor\t: 1\nmodel name\t: Example CPU @ 2.40GHz\ncpu MHz\t\t: 2400.000\nbogomips\t: 4800.00\n";

const LSCPU: &[u8] = b"Architecture:        x86_64\nCPU op-mode(s):      32-bit, 64-bit\nByte Order:          Little Endian\nCPU(s):              2\nVendor ID:           GenuineIntel\nL1d cache:           32K\nL1i cache:           32K\nL2 cache:            256K\n";

#[test]
fn identity_fields_are_extracted() {
    let ci = CpuIdentity::parse(CPUINFO, LSCPU).unwrap();
    assert_eq!(ci.cpu_count, 2);
    assert_eq!(ci.cpu_mhz, b"2400.000".to_vec());
    assert_eq!(ci.model_name, b"Example CPU @ 2.40GHz".to_vec());
    assert_eq!(ci.bogomips, b"4800.00".to_vec());
    assert_eq!(
        ci.architecture,
        b"Architecture:        x86_64\nCPU op-mode(s):      32-bit, 64-bit\nByte Order:          Little Endian\nCPU(s):              2".to_vec()
    );
    assert_eq!(
        ci.cache_info,
        b"L1d cache:           32K\nL1i cache:           32K\nL2 cache:            256K".to_vec()
    );
}

#[test]
fn field_value_stops_at_a_second_colon() {
    let cpuinfo = b"processor : 0\nmodel name : Foo: Bar\ncpu MHz : 1.0\nbogomips : 2.0\n";
    let ci = CpuIdentity::parse(cpuinfo, b"x\n").unwrap();
    assert_eq!(ci.model_name, b"Foo".to_vec());
}

#[test]
fn identity_fails_without_model_name() {
    let cpuinfo = b"processor : 0\ncpu MHz : 2400.000\nbogomips : 4800.00\n";
    assert!(CpuIdentity::parse(cpuinfo, LSCPU).is_none());
}

#[test]
fn identity_fails_on_malformed_clock_speed() {
    let cpuinfo = b"processor : 0\nmodel name : X\ncpu MHz : fast\nbogomips : 4800.00\n";
    assert!(CpuIdentity::parse(cpuinfo, LSCPU).is_none());
    let trailing_dot = b"processor : 0\nmodel name : X\ncpu MHz : 2400.\nbogomips : 4800.00\n";
    assert!(CpuIdentity::parse(trailing_dot, LSCPU).is_none());
}

#[test]
fn identity_accepts_whole_number_figures() {
    let cpuinfo = b"processor : 0\nmodel name : X\ncpu MHz : 2400\nbogomips : 4800\n";
    let ci = CpuIdentity::parse(cpuinfo, LSCPU).unwrap();
    assert_eq!(ci.cpu_mhz, b"2400".to_vec());
    assert_eq!(ci.bogomips, b"4800".to_vec());
}

#[test]
fn identity_payload_is_exact() {
    let cpuinfo = b"processor : 0\nmodel name : X\ncpu MHz : 2400.000\nbogomips : 4800.00\n";
    let lscpu = b"Architecture: x86_64\nL1 cache: 32K\n";
    let ci = CpuIdentity::parse(cpuinfo, lscpu).unwrap();
    let json = String::from_utf8(cpu_info_json(&ci)).unwrap();
    assert_eq!(
        json,
        "{\"cpu_count\":1,\"cpu_mhz\":2400.000,\"model_name\":\"X\",\"bogomips\":4800.00,\"architecture\":\"Architecture: x86_64\\nL1 cache: 32K\",\"cache_info\":\"L1 cache: 32K\"}"
    );
}

#[test]
fn identity_payload_parses_as_json() {
    let ci = CpuIdentity::parse(CPUINFO, LSCPU).unwrap();
    let json = cpu_info_json(&ci);
    let value: serde_json::Value = serde_json::from_slice(&json).unwrap();
    assert_eq!(value["cpu_count"], 2);
    assert_eq!(value["cpu_mhz"], 2400.0);
    assert_eq!(value["model_name"], "Example CPU @ 2.40GHz");
}

#[test]
fn escaping_covers_quotes_and_controls() {
    assert_eq!(escape_json(b"plain"), b"plain".to_vec());
    assert_eq!(escape_json(b"a\"b"), b"a\\\"b".to_vec());
    assert_eq!(escape_json(b"a\\b"), b"a\\\\b".to_vec());
    assert_eq!(escape_json(b"a\nb\tc"), b"a\\nb\\tc".to_vec());
    assert_eq!(escape_json(&[0x1f]), b"\\u001f".to_vec());
    assert_eq!(escape_json(&[0x01]), b"\\u0001".to_vec());
}

#[test]
fn metrics_payload_with_all_fields() {
    let json = metrics_json(
        b"40.0",
        &Some(b"{\"total\":1}".to_vec()),
        &Some(b"1 days, 1 hours, 1 minutes, 1 seconds".to_vec()),
        &Some(b"{\"used\":2}".to_vec()),
    );
    assert_eq!(
        String::from_utf8(json).unwrap(),
        "{\"cpu_load\":40.0,\"disk_metrics\":{\"used\":2},\"memory\":{\"total\":1},\"uptime\":\"1 days, 1 hours, 1 minutes, 1 seconds\"}"
    );
}

#[test]
fn failed_memory_reader_leaves_other_fields_present() {
    let json = metrics_json(b"40.0", &None, &Some(b"up".to_vec()), &Some(b"{}".to_vec()));
    let text = String::from_utf8(json).unwrap();
    assert!(text.contains("{\"error\":\"Failed to collect memory metrics\"}"));
    assert!(text.contains("\"cpu_load\":40.0"));
    assert!(text.contains("\"uptime\":\"up\""));
    assert!(text.contains("\"disk_metrics\":{}"));
}

#[test]
fn failed_disk_reader_is_independent_of_memory() {
    let json = metrics_json(b"0.0", &Some(b"{}".to_vec()), &Some(b"up".to_vec()), &None);
    let text = String::from_utf8(json).unwrap();
    assert!(text.contains("{\"error\":\"Failed to collect disk metrics\"}"));
    assert!(text.contains("\"memory\":{}"));
    assert!(!text.contains("Failed to collect memory metrics"));
}

#[test]
fn metrics_payload_parses_as_json() {
    let json = metrics_json(b"12.5", &None, &Some(b"up".to_vec()), &None);
    let value: serde_json::Value = serde_json::from_slice(&json).unwrap();
    assert_eq!(value["cpu_load"], 12.5);
    assert_eq!(value["memory"]["error"], "Failed to collect memory metrics");
    assert_eq!(value["disk_metrics"]["error"], "Failed to collect disk metrics");
    assert_eq!(value["uptime"], "up");
}
