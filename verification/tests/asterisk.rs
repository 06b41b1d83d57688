use tetra_asterisk::asterisk::{
    asterisk_section, mask_secret,
    sip_client_marker_path, sip_client_should_build, toml_escape, toml_string_list,
    SIP_CLIENT_MARKER,
};
use tetra_asterisk::config_text::rewrite_asterisk_section;
use tetra_asterisk::sec_asterisk::{apply_asterisk_patch, CfgAsterisk, CfgAsteriskDto};

fn sample_cfg() -> CfgAsterisk {
    apply_asterisk_patch(CfgAsteriskDto {
        enabled: true,
        outbound_prefix: "91".into(),
        remote_host: "pbx.example.com".into(),
        outbound_proxy_host: "proxy.example.com".into(),
        outbound_proxy_port: 5060,
        local_user: "1001".into(),
        auth_user: "1001".into(),
        password: "s3cret".into(),
        from_domain: "pbx.example.com".into(),
        service_numbers: vec!["600".into(), "601".into()],
        extra: Default::default(),
        ..CfgAsteriskDto::default()
    })
    .unwrap()
}

fn rewrite(original: &str, cfg: &CfgAsterisk) -> String {
    rewrite_asterisk_section(original, &asterisk_section(cfg))
}

#[test]
fn write_inserts_asterisk_section_and_round_trips() {
    let text = rewrite("config_version = \"0.6\"\nstack_mode = \"Bs\"\n", &sample_cfg());
    assert!(text.contains("[asterisk]"));
    assert!(text.contains("remote_host = \"pbx.example.com\""));
    assert!(text.contains("outbound_proxy_host = \"proxy.example.com\""));
    assert!(text.contains("local_user = \"1001\""));
    assert!(text.contains("password = \"s3cret\""));
    assert!(text.contains("\"600\""));
}

#[test]
fn write_replaces_existing_asterisk_section_only() {
    let text = rewrite(
        "config_version = \"0.6\"\n\n[net_info]\nmcc = 204\nmnc = 1\n\n[asterisk]\nenabled = false\n\n[dapnet]\nenabled = false\n",
        &sample_cfg(),
    );
    assert!(text.contains("mcc = 204"));
    assert!(text.contains("[dapnet]"));
    assert_eq!(text.matches("[asterisk]").count(), 1);
    assert!(text.contains("enabled = true"));
}

#[test]
fn section_text_exact() {
    let expected = "[asterisk]\n\
        enabled = true\n\
        outbound_prefix = \"91\"\n\
        strip_outbound_prefix = true\n\
        inbound_prefix = \"T\"\n\
        register = true\n\
        codec = \"PCMU\"\n\
        service_numbers = [\"600\", \"601\"]\n\
        rtp_port_min = 30000\n\
        rtp_port_max = 30100\n\
        bind_addr = \"127.0.0.1\"\n\
        bind_port = 5062\n\
        remote_host = \"pbx.example.com\"\n\
        remote_port = 5060\n\
        outbound_proxy_host = \"proxy.example.com\"\n\
        outbound_proxy_port = 5060\n\
        contact_host = \"127.0.0.1\"\n\
        from_domain = \"pbx.example.com\"\n\
        local_user = \"1001\"\n\
        auth_user = \"1001\"\n\
        password = \"s3cret\"\n\
        realm = \"asterisk\"\n\
        options_interval_secs = 30\n\
        ptime_ms = 20\n\
        dl_jitter_ms = 120\n\
        allow_from = []\n\
        max_pending_dialogs = 8\n\
        max_invites_per_minute = 30";
    assert_eq!(asterisk_section(&sample_cfg()), expected);
}

#[test]
fn replaced_section_exact() {
    let original = "a = 1\r\n[asterisk]\nenabled = false\nx = 2\n  [dapnet] # c\nb = 3";
    assert_eq!(
        rewrite_asterisk_section(original, "[asterisk]\nk = 1"),
        "a = 1\n[asterisk]\nk = 1\n  [dapnet] # c\nb = 3"
    );
}

#[test]
fn every_asterisk_section_replaced() {
    let original = "[asterisk]\nx = 1\n[asterisk]\ny = 2\n";
    assert_eq!(rewrite_asterisk_section(original, "[asterisk]\nk = 1"), "[asterisk]\nk = 1\n[asterisk]\nk = 1\n");
}

#[test]
fn section_appended_after_blank_line() {
    assert_eq!(rewrite_asterisk_section("a = 1", "[asterisk]"), "a = 1\n\n[asterisk]");
    assert_eq!(rewrite_asterisk_section("a = 1\n", "[asterisk]"), "a = 1\n\n[asterisk]\n");
    assert_eq!(rewrite_asterisk_section("a = 1\n\n", "[asterisk]"), "a = 1\n\n[asterisk]\n");
    assert_eq!(rewrite_asterisk_section("", "[asterisk]"), "[asterisk]");
}

#[test]
fn indented_header_found() {
    assert_eq!(rewrite_asterisk_section(" \t[asterisk]\nold\n", "[asterisk]\nnew"), "[asterisk]\nnew\n");
}

#[test]
fn rewriting_twice_changes_nothing() {
    let cfg = sample_cfg();
    for original in ["", "a = 1", "a = 1\n\n[asterisk]\nx = 1\n[b]\nc = 2\n", "[asterisk]\n[asterisk]\n"] {
        let once = rewrite(original, &cfg);
        assert_eq!(rewrite(&once, &cfg), once);
    }
}

#[test]
fn rewriting_twice_with_carriage_return_in_value() {
    let mut cfg = sample_cfg();
    cfg.realm = "pw\r".into();
    cfg.service_numbers = vec!["6\r00".into()];
    for original in ["", "a = 1\n", "[asterisk]\nx = 1\n[b]\nc = 2"] {
        let once = rewrite(original, &cfg);
        assert!(once.contains("realm = \"pw\r\""));
        assert_eq!(rewrite(&once, &cfg), once);
    }
}

#[test]
fn escape_values() {
    assert_eq!(toml_escape(r#"a\b"c"#), r#"a\\b\"c"#);
    assert_eq!(toml_escape(""), "");
    assert_eq!(toml_escape("plain"), "plain");
}

#[test]
fn string_list_values() {
    assert_eq!(toml_string_list(&[]), "");
    assert_eq!(toml_string_list(&["600".to_string()]), "\"600\"");
    assert_eq!(
        toml_string_list(&["a\"b".to_string(), "c".to_string()]),
        "\"a\\\"b\", \"c\""
    );
}

#[test]
fn mask_secret_values() {
    assert_eq!(mask_secret(""), "");
    assert_eq!(mask_secret("s3cret"), "********");
    assert_eq!(mask_secret("x"), "********");
}

#[test]
fn marker_path_and_build_decision() {
    assert_eq!(SIP_CLIENT_MARKER, ".flowstation-sip-client");
    assert_eq!(sip_client_marker_path("/opt/src"), "/opt/src/.flowstation-sip-client");
    assert_eq!(sip_client_marker_path("/opt/src/"), "/opt/src/.flowstation-sip-client");
    assert_eq!(sip_client_marker_path(""), ".flowstation-sip-client");
    assert!(sip_client_should_build(false, true));
    assert!(sip_client_should_build(true, false));
    assert!(sip_client_should_build(true, true));
    assert!(!sip_client_should_build(false, false));
}

#[test]
fn section_count_after_rewrite() {
    let cfg = sample_cfg();
    let none = rewrite("a = 1\n[b]\nc = 2\n", &cfg);
    assert_eq!(none.lines().filter(|l| l.trim_start().starts_with("[asterisk]")).count(), 1);
    let one = rewrite("[asterisk]\nenabled = false\n[b]\n", &cfg);
    assert_eq!(one.lines().filter(|l| l.trim_start().starts_with("[asterisk]")).count(), 1);
    let two = rewrite("[asterisk]\nx = 1\n [asterisk]\ny = 2\n", &cfg);
    assert_eq!(two.lines().filter(|l| l.trim_start().starts_with("[asterisk]")).count(), 2);
}

#[test]
fn other_lines_kept_in_order() {
    let original = "# head\r\nx = 1\n\n[asterisk]\nold = true\n[net_info]\nmcc = 204";
    assert_eq!(
        rewrite_asterisk_section(original, "[asterisk]\nnew = 1"),
        "# head\nx = 1\n\n[asterisk]\nnew = 1\n[net_info]\nmcc = 204"
    );
}

#[test]
fn unterminated_carriage_return_kept() {
    assert_eq!(rewrite_asterisk_section("a\r", "[asterisk]"), "a\r\n\n[asterisk]");
}

#[test]
fn written_section_parses_back() {
    let mut dto = CfgAsteriskDto::default();
    dto.enabled = true;
    dto.remote_host = "pbx.example.com".into();
    dto.contact_host = "203.0.113.7".into();
    dto.password = "p\"a\\ss".into();
    dto.service_numbers = vec!["600".into(), "6\"01".into()];
    dto.allow_from = vec!["10.0.0.2".into()];
    dto.max_pending_dialogs = 3;
    let cfg = apply_asterisk_patch(dto).unwrap();
    let text = rewrite("config_version = \"0.6\"\n[dapnet]\nenabled = false\n", &cfg);
    let table: toml::Table = text.parse().unwrap();
    let a = table["asterisk"].as_table().unwrap();
    assert_eq!(a["enabled"].as_bool(), Some(true));
    assert_eq!(a["remote_host"].as_str(), Some("pbx.example.com"));
    assert_eq!(a["contact_host"].as_str(), Some("203.0.113.7"));
    assert_eq!(a["password"].as_str(), Some("p\"a\\ss"));
    assert_eq!(a["codec"].as_str(), Some("PCMU"));
    assert_eq!(a["bind_port"].as_integer(), Some(5062));
    assert_eq!(a["max_pending_dialogs"].as_integer(), Some(3));
    let numbers: Vec<&str> = a["service_numbers"].as_array().unwrap().iter().map(|v| v.as_str().unwrap()).collect();
    assert_eq!(numbers, vec!["600", "6\"01"]);
    assert_eq!(a["allow_from"].as_array().unwrap().len(), 1);
    assert_eq!(table["dapnet"]["enabled"].as_bool(), Some(false));
    assert_eq!(table["config_version"].as_str(), Some("0.6"));
}

#[test]
fn escaped_text_parses_back() {
    for s in ["", "plain", "a\"b", "back\\slash", "\\\"", "tab\there"] {
        let doc = format!("k = \"{}\"", toml_escape(s));
        let table: toml::Table = doc.parse().unwrap();
        assert_eq!(table["k"].as_str(), Some(s));
    }
    assert_eq!(toml_escape("plain text"), "plain text");
}
