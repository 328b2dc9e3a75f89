use rackviz::models::normalize_device_type;

#[test]
fn test_normalize_device_type_chinese() {
    assert_eq!(normalize_device_type("交换机"), "switch");
    assert_eq!(normalize_device_type("服务器"), "server");
    assert_eq!(normalize_device_type("路由器"), "router");
    assert_eq!(normalize_device_type("存储阵列"), "storage");
    assert_eq!(normalize_device_type("存储"), "storage");
    assert_eq!(normalize_device_type("nas存储"), "nas");
    assert_eq!(normalize_device_type("网安设备"), "security");
    assert_eq!(normalize_device_type("安全设备"), "security");
    assert_eq!(normalize_device_type("负载均衡"), "loadbalancer");
    assert_eq!(normalize_device_type("其他"), "other");
}

#[test]
fn test_normalize_device_type_english() {
    assert_eq!(normalize_device_type("router"), "router");
    assert_eq!(normalize_device_type("server"), "server");
    assert_eq!(normalize_device_type("switch"), "switch");
    assert_eq!(normalize_device_type("storage"), "storage");
    assert_eq!(normalize_device_type("nas"), "nas");
    assert_eq!(normalize_device_type("security"), "security");
    assert_eq!(normalize_device_type("other"), "other");
}

#[test]
fn test_normalize_device_type_case_whitespace_separators() {
    assert_eq!(normalize_device_type(" Router "), "router");
    assert_eq!(normalize_device_type("LOADBALANCER"), "loadbalancer");
    assert_eq!(normalize_device_type("load_balancer"), "loadbalancer");
    assert_eq!(normalize_device_type("Load-Balancer"), "loadbalancer");
    assert_eq!(normalize_device_type("  SWITCH  "), "switch");
    assert_eq!(normalize_device_type("lb"), "loadbalancer");
    assert_eq!(normalize_device_type("NAS"), "nas");
}

#[test]
fn test_normalize_device_type_unknown_falls_back_to_other() {
    assert_eq!(normalize_device_type("防火墙"), "other");
    assert_eq!(normalize_device_type("工业网关"), "other");
    assert_eq!(normalize_device_type(""), "other");
    assert_eq!(normalize_device_type("   "), "other");
    assert_eq!(normalize_device_type("whatever"), "other");
}

/// 点 6：8 个英文枚举逐一自映射（补齐现有用例未显式覆盖的 loadbalancer）。
#[test]
fn test_normalize_device_type_all_eight_enums_self_map() {
    for t in [
        "server", "switch", "router", "storage", "nas", "security", "loadbalancer", "other",
    ] {
        assert_eq!(normalize_device_type(t), t, "英文枚举 {} 应自映射", t);
    }
}

/// 点 6：制表符/换行/混合分隔符（空白 + `_` + `-`）一律忽略后再匹配。
#[test]
fn test_normalize_device_type_tabs_and_mixed_separators() {
    assert_eq!(normalize_device_type("\tSwitch\n"), "switch");
    assert_eq!(normalize_device_type("load - balancer"), "loadbalancer");
    assert_eq!(normalize_device_type("NAS_存储"), "nas");
    // 纯空白/换行亦落到 other（设计如此）
    assert_eq!(normalize_device_type("\t\n "), "other");
}

