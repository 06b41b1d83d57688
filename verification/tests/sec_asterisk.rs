use tetra_asterisk::sec_asterisk::{apply_asterisk_patch, CfgAsterisk, CfgAsteriskDto};

#[test]
fn proxy_empty_is_direct() {
    let cfg = apply_asterisk_patch(CfgAsteriskDto::default()).unwrap();
    assert!(cfg.outbound_proxy_host.is_empty());
    assert_eq!(cfg.outbound_proxy_port, 5060);
}

#[test]
fn proxy_port_zero_rejected_when_host_set() {
    let mut dto = CfgAsteriskDto::default();
    dto.enabled = true;
    dto.outbound_proxy_host = "proxy.example.com".into();
    dto.outbound_proxy_port = 0;
    let err = apply_asterisk_patch(dto).unwrap_err();
    assert!(err.contains("outbound_proxy_port"));
}

#[test]
fn proxy_host_trimmed() {
    let mut dto = CfgAsteriskDto::default();
    dto.outbound_proxy_host = "  10.0.0.1  ".into();
    dto.outbound_proxy_port = 5080;
    let cfg = apply_asterisk_patch(dto).unwrap();
    assert_eq!(cfg.outbound_proxy_host, "10.0.0.1");
    assert_eq!(cfg.outbound_proxy_port, 5080);
}

/// An enabled section that passes every check.
fn enabled_dto() -> CfgAsteriskDto {
    let mut dto = CfgAsteriskDto::default();
    dto.enabled = true;
    dto.remote_host = "pbx.example.com".into();
    dto.from_domain = "pbx.example.com".into();
    dto.contact_host = "203.0.113.7".into();
    dto
}

fn err_of(dto: CfgAsteriskDto) -> String {
    apply_asterisk_patch(dto).unwrap_err()
}

#[test]
fn default_config_matches_defaults() {
    let cfg = CfgAsterisk::default();
    assert!(!cfg.enabled);
    assert_eq!(cfg.outbound_prefix, "91");
    assert!(cfg.strip_outbound_prefix);
    assert_eq!(cfg.inbound_prefix, "T");
    assert!(cfg.register);
    assert_eq!(cfg.codec, "PCMU");
    assert!(cfg.service_numbers.is_empty());
    assert_eq!(cfg.rtp_port_min, 30000);
    assert_eq!(cfg.rtp_port_max, 30100);
    assert_eq!(cfg.bind_addr, "127.0.0.1");
    assert_eq!(cfg.bind_port, 5062);
    assert_eq!(cfg.remote_host, "127.0.0.1");
    assert_eq!(cfg.remote_port, 5060);
    assert_eq!(cfg.outbound_proxy_host, "");
    assert_eq!(cfg.outbound_proxy_port, 5060);
    assert_eq!(cfg.contact_host, "127.0.0.1");
    assert_eq!(cfg.from_domain, "127.0.0.1");
    assert_eq!(cfg.local_user, "flowstation");
    assert_eq!(cfg.auth_user, "flowstation");
    assert!(cfg.password.is_empty());
    assert_eq!(cfg.realm, "asterisk");
    assert_eq!(cfg.options_interval_secs, 30);
    assert_eq!(cfg.ptime_ms, 20);
    assert_eq!(cfg.dl_jitter_ms, 120);
    assert!(cfg.allow_from.is_empty());
    assert_eq!(cfg.max_pending_dialogs, 8);
    assert_eq!(cfg.max_invites_per_minute, 30);
}

#[test]
fn default_dto_has_no_extra_keys() {
    let dto = CfgAsteriskDto::default();
    assert!(dto.extra.is_empty());
    assert_eq!(dto.codec, "PCMU");
}

#[test]
fn enabled_section_is_accepted() {
    let cfg = apply_asterisk_patch(enabled_dto()).unwrap();
    assert!(cfg.enabled);
    assert_eq!(cfg.remote_host, "pbx.example.com");
    assert_eq!(cfg.contact_host, "203.0.113.7");
}

#[test]
fn bind_port_zero_rejected() {
    let mut dto = enabled_dto();
    dto.bind_port = 0;
    assert_eq!(err_of(dto), "asterisk: bind_port cannot be 0");
}

#[test]
fn remote_port_zero_rejected() {
    let mut dto = enabled_dto();
    dto.remote_port = 0;
    assert_eq!(err_of(dto), "asterisk: remote_port cannot be 0");
}

#[test]
fn proxy_port_zero_accepted_without_proxy_host() {
    let mut dto = enabled_dto();
    dto.outbound_proxy_host = " \t ".into();
    dto.outbound_proxy_port = 0;
    let cfg = apply_asterisk_patch(dto).unwrap();
    assert_eq!(cfg.outbound_proxy_host, "");
    assert_eq!(cfg.outbound_proxy_port, 0);
}

#[test]
fn proxy_port_zero_message() {
    let mut dto = enabled_dto();
    dto.outbound_proxy_host = "proxy.example.com".into();
    dto.outbound_proxy_port = 0;
    assert_eq!(
        err_of(dto),
        "asterisk: outbound_proxy_port cannot be 0 when outbound_proxy_host is set"
    );
}

#[test]
fn rtp_range_rejected() {
    let msg = "asterisk: rtp_port_min/rtp_port_max must define a valid non-zero range";
    let mut dto = enabled_dto();
    dto.rtp_port_min = 0;
    assert_eq!(err_of(dto), msg);
    let mut dto = enabled_dto();
    dto.rtp_port_max = 0;
    assert_eq!(err_of(dto), msg);
    let mut dto = enabled_dto();
    dto.rtp_port_min = 30101;
    assert_eq!(err_of(dto), msg);
    let mut dto = enabled_dto();
    dto.rtp_port_min = 30100;
    assert!(apply_asterisk_patch(dto).is_ok());
}

#[test]
fn empty_remote_host_rejected() {
    let mut dto = enabled_dto();
    dto.remote_host = "   ".into();
    assert_eq!(err_of(dto), "asterisk: remote_host cannot be empty when enabled");
}

#[test]
fn empty_contact_host_rejected() {
    let mut dto = enabled_dto();
    dto.contact_host = "\u{3000}".into();
    assert_eq!(err_of(dto), "asterisk: contact_host cannot be empty when enabled");
}

#[test]
fn contact_equal_to_pbx_rejected() {
    let msg = "asterisk: contact_host must be the public IP/hostname of THIS Pi, not the PBX (remote_host/from_domain)";
    let mut dto = enabled_dto();
    dto.contact_host = " PBX.Example.COM ".into();
    assert_eq!(err_of(dto), msg);
    let mut dto = enabled_dto();
    dto.from_domain = "sip.example.org".into();
    dto.contact_host = "SIP.example.org".into();
    assert_eq!(err_of(dto), msg);
}

#[test]
fn contact_compared_with_empty_domain_accepted() {
    let mut dto = enabled_dto();
    dto.from_domain = "  ".into();
    assert!(apply_asterisk_patch(dto).is_ok());
}

#[test]
fn empty_users_rejected() {
    let mut dto = enabled_dto();
    dto.local_user = "".into();
    assert_eq!(err_of(dto), "asterisk: local_user cannot be empty when enabled");
    let mut dto = enabled_dto();
    dto.auth_user = "\n".into();
    assert_eq!(err_of(dto), "asterisk: auth_user cannot be empty when enabled");
}

#[test]
fn first_failing_check_names_the_error() {
    let mut dto = enabled_dto();
    dto.bind_port = 0;
    dto.remote_port = 0;
    dto.codec = "opus".into();
    assert_eq!(err_of(dto), "asterisk: bind_port cannot be 0");
}

#[test]
fn codec_trimmed_and_uppercased() {
    let mut dto = CfgAsteriskDto::default();
    dto.codec = "  pcmu\t".into();
    let cfg = apply_asterisk_patch(dto).unwrap();
    assert_eq!(cfg.codec, "PCMU");
}

#[test]
fn other_codec_rejected() {
    let mut dto = CfgAsteriskDto::default();
    dto.codec = "PCMA".into();
    assert_eq!(err_of(dto), "asterisk: only codec = \"PCMU\" is currently supported");
}

#[test]
fn ptime_values() {
    for ok in [20u16, 40, 60] {
        let mut dto = CfgAsteriskDto::default();
        dto.ptime_ms = ok;
        assert_eq!(apply_asterisk_patch(dto).unwrap().ptime_ms, ok);
    }
    let mut dto = CfgAsteriskDto::default();
    dto.ptime_ms = 30;
    assert_eq!(err_of(dto), "asterisk: ptime_ms must be 20, 40 or 60");
}

#[test]
fn jitter_limit() {
    let mut dto = CfgAsteriskDto::default();
    dto.dl_jitter_ms = 500;
    assert!(apply_asterisk_patch(dto).is_ok());
    let mut dto = CfgAsteriskDto::default();
    dto.dl_jitter_ms = 501;
    assert_eq!(err_of(dto), "asterisk: dl_jitter_ms must be 500 or less");
}

#[test]
fn disabled_skips_connection_checks() {
    let mut dto = CfgAsteriskDto::default();
    dto.bind_port = 0;
    dto.remote_port = 0;
    dto.rtp_port_min = 0;
    dto.remote_host = "".into();
    dto.contact_host = "127.0.0.1".into();
    dto.local_user = "".into();
    let cfg = apply_asterisk_patch(dto).unwrap();
    assert_eq!(cfg.bind_port, 0);
    assert_eq!(cfg.remote_host, "");
}

#[test]
fn lists_trimmed_and_emptied_entries_dropped() {
    let mut dto = CfgAsteriskDto::default();
    dto.service_numbers = vec![" 600 ".into(), "".into(), "  ".into(), "601".into()];
    dto.allow_from = vec!["\t10.0.0.2".into(), " ".into()];
    let cfg = apply_asterisk_patch(dto).unwrap();
    assert_eq!(cfg.service_numbers, vec!["600".to_string(), "601".to_string()]);
    assert_eq!(cfg.allow_from, vec!["10.0.0.2".to_string()]);
}

#[test]
fn other_fields_carried_over() {
    let mut dto = enabled_dto();
    dto.outbound_prefix = " 0 ".into();
    dto.password = " s3cret ".into();
    dto.realm = "Realm".into();
    dto.max_pending_dialogs = 3;
    dto.options_interval_secs = 0;
    let cfg = apply_asterisk_patch(dto).unwrap();
    assert_eq!(cfg.outbound_prefix, " 0 ");
    assert_eq!(cfg.password.as_str(), " s3cret ");
    assert_eq!(cfg.realm, "Realm");
    assert_eq!(cfg.max_pending_dialogs, 3);
    assert_eq!(cfg.options_interval_secs, 0);
}

/// A section that carries every value of `cfg` as it is.
fn section_of(cfg: &CfgAsterisk) -> CfgAsteriskDto {
    CfgAsteriskDto {
        enabled: cfg.enabled,
        outbound_prefix: cfg.outbound_prefix.clone(),
        strip_outbound_prefix: cfg.strip_outbound_prefix,
        inbound_prefix: cfg.inbound_prefix.clone(),
        register: cfg.register,
        codec: cfg.codec.clone(),
        service_numbers: cfg.service_numbers.clone(),
        rtp_port_min: cfg.rtp_port_min,
        rtp_port_max: cfg.rtp_port_max,
        bind_addr: cfg.bind_addr.clone(),
        bind_port: cfg.bind_port,
        remote_host: cfg.remote_host.clone(),
        remote_port: cfg.remote_port,
        outbound_proxy_host: cfg.outbound_proxy_host.clone(),
        outbound_proxy_port: cfg.outbound_proxy_port,
        contact_host: cfg.contact_host.clone(),
        from_domain: cfg.from_domain.clone(),
        local_user: cfg.local_user.clone(),
        auth_user: cfg.auth_user.clone(),
        password: cfg.password.as_str().to_string(),
        realm: cfg.realm.clone(),
        options_interval_secs: cfg.options_interval_secs,
        ptime_ms: cfg.ptime_ms,
        dl_jitter_ms: cfg.dl_jitter_ms,
        allow_from: cfg.allow_from.clone(),
        max_pending_dialogs: cfg.max_pending_dialogs,
        max_invites_per_minute: cfg.max_invites_per_minute,
        extra: Default::default(),
    }
}

#[test]
fn accepted_config_is_accepted_again_unchanged() {
    let mut dto = enabled_dto();
    dto.codec = " pcmu ".into();
    dto.outbound_proxy_host = "  proxy.example.com ".into();
    dto.service_numbers = vec![" 600".into(), "  ".into(), "601 ".into()];
    dto.allow_from = vec!["".into(), " 10.0.0.2 ".into()];
    dto.password = "s3cret".into();
    let cfg = apply_asterisk_patch(dto).unwrap();
    assert_eq!(cfg.codec, "PCMU");
    assert_eq!(cfg.service_numbers, vec!["600".to_string(), "601".to_string()]);
    let again = apply_asterisk_patch(section_of(&cfg)).unwrap();
    assert_eq!(again.codec, cfg.codec);
    assert_eq!(again.outbound_proxy_host, "proxy.example.com");
    assert_eq!(again.service_numbers, cfg.service_numbers);
    assert_eq!(again.allow_from, vec!["10.0.0.2".to_string()]);
    assert_eq!(again.password.as_str(), "s3cret");
    assert_eq!(again.remote_host, cfg.remote_host);
    assert_eq!(again.contact_host, cfg.contact_host);
    assert_eq!(again.enabled, cfg.enabled);
}
