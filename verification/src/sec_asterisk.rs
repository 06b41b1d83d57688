//! The `[asterisk]` configuration section: the SIP client / PBX bridge
//! settings (Asterisk, FreeSWITCH, or any SIP registrar), their defaults, and
//! the rules that a section must meet before the bridge uses it.

use std::collections::HashMap;

use vstd::prelude::*;

use crate::secret::SecretField;
use crate::text::{trim, trim_start, trim_end, lemma_trim_idempotent, lemma_trim_empty, to_ascii_lower, to_ascii_upper, trim_str, ascii_lowercase, ascii_uppercase};

verus! {

/// Declares the outside type `toml::Value` (a TOML value of any kind) so that
/// it may stand in a field. Nothing is claimed of it and nothing reads it:
/// the keys of the section that no field names are only carried along.
#[verifier::external_type_specification]
#[verifier::external_body]
pub struct ExTomlValue(toml::Value);

/// SIP client / PBX bridge configuration (Asterisk, FreeSWITCH, or any SIP registrar).
#[derive(Debug, Clone)]
pub struct CfgAsterisk {
    pub enabled: bool,
    pub outbound_prefix: String,
    pub strip_outbound_prefix: bool,
    pub inbound_prefix: String,
    pub register: bool,
    pub codec: String,
    pub service_numbers: Vec<String>,
    pub rtp_port_min: u16,
    pub rtp_port_max: u16,
    pub bind_addr: String,
    pub bind_port: u16,
    pub remote_host: String,
    pub remote_port: u16,
    /// Optional outbound SIP proxy (Zoiper-style). When set, all outbound SIP is sent here
    /// instead of directly to `remote_host`. Leave empty to connect straight to the PBX.
    pub outbound_proxy_host: String,
    pub outbound_proxy_port: u16,
    pub contact_host: String,
    pub from_domain: String,
    pub local_user: String,
    pub auth_user: String,
    pub password: SecretField,
    pub realm: String,
    pub options_interval_secs: u64,
    /// RTP packet duration in ms. Real trunks expect 20 ms / 160 byte G.711 packets.
    pub ptime_ms: u16,
    /// How much SIP -> TETRA audio may wait for its downlink slot before the oldest is
    /// dropped. Rounded down to whole 60 ms blocks; anything queued past this is delay the
    /// call never gets back.
    pub dl_jitter_ms: u16,
    /// Extra source hosts allowed to talk SIP to us besides the resolved Asterisk peer.
    pub allow_from: Vec<String>,
    /// Cap on dialogs that have not been answered yet, per bridge.
    pub max_pending_dialogs: usize,
    /// Inbound INVITEs accepted per source address per minute (0 disables the limit).
    pub max_invites_per_minute: u32,
}

/// The `[asterisk]` section as written in the configuration file, before
/// it is checked. `extra` holds the keys that no field names.
pub struct CfgAsteriskDto {
    pub enabled: bool,
    pub outbound_prefix: String,
    pub strip_outbound_prefix: bool,
    pub inbound_prefix: String,
    pub register: bool,
    pub codec: String,
    pub service_numbers: Vec<String>,
    pub rtp_port_min: u16,
    pub rtp_port_max: u16,
    pub bind_addr: String,
    pub bind_port: u16,
    pub remote_host: String,
    pub remote_port: u16,
    pub outbound_proxy_host: String,
    pub outbound_proxy_port: u16,
    pub contact_host: String,
    pub from_domain: String,
    pub local_user: String,
    pub auth_user: String,
    pub password: String,
    pub realm: String,
    pub options_interval_secs: u64,
    pub ptime_ms: u16,
    pub dl_jitter_ms: u16,
    pub allow_from: Vec<String>,
    pub max_pending_dialogs: usize,
    pub max_invites_per_minute: u32,
    pub extra: HashMap<String, toml::Value>,
}

/// The value of every field of the section that the file leaves out.
pub open spec fn is_default_dto(d: CfgAsteriskDto) -> bool {
    &&& !d.enabled
    &&& d.outbound_prefix@ == "91"@
    &&& d.strip_outbound_prefix
    &&& d.inbound_prefix@ == "T"@
    &&& d.register
    &&& d.codec@ == "PCMU"@
    &&& d.service_numbers@.len() == 0
    &&& d.rtp_port_min == 30000
    &&& d.rtp_port_max == 30100
    &&& d.bind_addr@ == "127.0.0.1"@
    &&& d.bind_port == 5062
    &&& d.remote_host@ == "127.0.0.1"@
    &&& d.remote_port == 5060
    &&& d.outbound_proxy_host@.len() == 0
    &&& d.outbound_proxy_port == 5060
    &&& d.contact_host@ == "127.0.0.1"@
    &&& d.from_domain@ == "127.0.0.1"@
    &&& d.local_user@ == "flowstation"@
    &&& d.auth_user@ == "flowstation"@
    &&& d.password@.len() == 0
    &&& d.realm@ == "asterisk"@
    &&& d.options_interval_secs == 30
    &&& d.ptime_ms == 20
    &&& d.dl_jitter_ms == 120
    &&& d.allow_from@.len() == 0
    &&& d.max_pending_dialogs == 8
    &&& d.max_invites_per_minute == 30
    &&& d.extra@ == Map::<String, toml::Value>::empty()
}

fn default_outbound_prefix() -> (s: String)
    ensures
        s@ == "91"@,
{
    "91".to_string()
}

fn default_strip_outbound_prefix() -> (b: bool)
    ensures
        b,
{
    true
}

fn default_inbound_prefix() -> (s: String)
    ensures
        s@ == "T"@,
{
    "T".to_string()
}

fn default_register() -> (b: bool)
    ensures
        b,
{
    true
}

fn default_codec() -> (s: String)
    ensures
        s@ == "PCMU"@,
{
    "PCMU".to_string()
}

fn default_rtp_port_min() -> (p: u16)
    ensures
        p == 30000,
{
    30000
}

fn default_rtp_port_max() -> (p: u16)
    ensures
        p == 30100,
{
    30100
}

// Loopback by default: anything reachable on this port can place calls into the TETRA cell.
fn default_bind_addr() -> (s: String)
    ensures
        s@ == "127.0.0.1"@,
{
    "127.0.0.1".to_string()
}

fn default_bind_port() -> (p: u16)
    ensures
        p == 5062,
{
    5062
}

fn default_remote_host() -> (s: String)
    ensures
        s@ == "127.0.0.1"@,
{
    "127.0.0.1".to_string()
}

fn default_remote_port() -> (p: u16)
    ensures
        p == 5060,
{
    5060
}

fn default_outbound_proxy_port() -> (p: u16)
    ensures
        p == 5060,
{
    5060
}

fn default_contact_host() -> (s: String)
    ensures
        s@ == "127.0.0.1"@,
{
    "127.0.0.1".to_string()
}

fn default_from_domain() -> (s: String)
    ensures
        s@ == "127.0.0.1"@,
{
    "127.0.0.1".to_string()
}

fn default_local_user() -> (s: String)
    ensures
        s@ == "flowstation"@,
{
    "flowstation".to_string()
}

fn default_auth_user() -> (s: String)
    ensures
        s@ == "flowstation"@,
{
    "flowstation".to_string()
}

fn default_realm() -> (s: String)
    ensures
        s@ == "asterisk"@,
{
    "asterisk".to_string()
}

fn default_options_interval_secs() -> (n: u64)
    ensures
        n == 30,
{
    30
}

fn default_ptime_ms() -> (n: u16)
    ensures
        n == 20,
{
    20
}

// Two 60 ms blocks: enough to ride out a trunk burst, short enough that nobody hears it.
fn default_dl_jitter_ms() -> (n: u16)
    ensures
        n == 120,
{
    120
}

fn default_max_pending_dialogs() -> (n: usize)
    ensures
        n == 8,
{
    8
}

fn default_max_invites_per_minute() -> (n: u32)
    ensures
        n == 30,
{
    30
}

impl Default for CfgAsteriskDto {
    fn default() -> (d: CfgAsteriskDto)
        ensures
            is_default_dto(d),
    {
        CfgAsteriskDto {
            enabled: false,
            outbound_prefix: default_outbound_prefix(),
            strip_outbound_prefix: default_strip_outbound_prefix(),
            inbound_prefix: default_inbound_prefix(),
            register: default_register(),
            codec: default_codec(),
            service_numbers: Vec::new(),
            rtp_port_min: default_rtp_port_min(),
            rtp_port_max: default_rtp_port_max(),
            bind_addr: default_bind_addr(),
            bind_port: default_bind_port(),
            remote_host: default_remote_host(),
            remote_port: default_remote_port(),
            outbound_proxy_host: String::new(),
            outbound_proxy_port: default_outbound_proxy_port(),
            contact_host: default_contact_host(),
            from_domain: default_from_domain(),
            local_user: default_local_user(),
            auth_user: default_auth_user(),
            password: String::new(),
            realm: default_realm(),
            options_interval_secs: default_options_interval_secs(),
            ptime_ms: default_ptime_ms(),
            dl_jitter_ms: default_dl_jitter_ms(),
            allow_from: Vec::new(),
            max_pending_dialogs: default_max_pending_dialogs(),
            max_invites_per_minute: default_max_invites_per_minute(),
            extra: HashMap::new(),
        }
    }
}


/// `s` holds something besides whitespace.
pub open spec fn has_text(s: Seq<char>) -> bool {
    trim(s).len() > 0
}

/// The contact host names this station by the PBX's own name: after trimming
/// and ASCII lower-casing, it equals `remote_host`, or the non-empty
/// `from_domain`.
pub open spec fn contact_names_pbx(contact_host: Seq<char>, remote_host: Seq<char>, from_domain: Seq<char>) -> bool {
    let contact = to_ascii_lower(trim(contact_host));
    let remote = to_ascii_lower(trim(remote_host));
    let domain = to_ascii_lower(trim(from_domain));
    contact.len() > 0 && (contact == remote || (domain.len() > 0 && contact == domain))
}

/// The port range `rtp_port_min..=rtp_port_max` is empty or holds port 0.
pub open spec fn bad_rtp_range(min: u16, max: u16) -> bool {
    min == 0 || max == 0 || min > max
}

/// The error that `apply_asterisk_patch` gives for `src`, or `None` when it
/// accepts it. The checks go in this order, and the first that fails names
/// the error; those on the connection hold only for an enabled bridge.
pub open spec fn patch_error(src: CfgAsteriskDto) -> Option<Seq<char>> {
    if src.enabled && src.bind_port == 0 {
        Some("asterisk: bind_port cannot be 0"@)
    } else if src.enabled && src.remote_port == 0 {
        Some("asterisk: remote_port cannot be 0"@)
    } else if src.enabled && has_text(src.outbound_proxy_host@) && src.outbound_proxy_port == 0 {
        Some("asterisk: outbound_proxy_port cannot be 0 when outbound_proxy_host is set"@)
    } else if src.enabled && bad_rtp_range(src.rtp_port_min, src.rtp_port_max) {
        Some("asterisk: rtp_port_min/rtp_port_max must define a valid non-zero range"@)
    } else if src.enabled && !has_text(src.remote_host@) {
        Some("asterisk: remote_host cannot be empty when enabled"@)
    } else if src.enabled && !has_text(src.contact_host@) {
        Some("asterisk: contact_host cannot be empty when enabled"@)
    } else if src.enabled && contact_names_pbx(src.contact_host@, src.remote_host@, src.from_domain@) {
        Some("asterisk: contact_host must be the public IP/hostname of THIS Pi, not the PBX (remote_host/from_domain)"@)
    } else if src.enabled && !has_text(src.local_user@) {
        Some("asterisk: local_user cannot be empty when enabled"@)
    } else if src.enabled && !has_text(src.auth_user@) {
        Some("asterisk: auth_user cannot be empty when enabled"@)
    } else if to_ascii_upper(trim(src.codec@)) != "PCMU"@ {
        Some("asterisk: only codec = \"PCMU\" is currently supported"@)
    } else if !(src.ptime_ms == 20 || src.ptime_ms == 40 || src.ptime_ms == 60) {
        Some("asterisk: ptime_ms must be 20, 40 or 60"@)
    } else if src.dl_jitter_ms > 500 {
        Some("asterisk: dl_jitter_ms must be 500 or less"@)
    } else {
        None
    }
}

/// The entries of `v`, trimmed, with those left empty dropped.
pub open spec fn clean_list(v: Seq<Seq<char>>) -> Seq<Seq<char>>
    decreases v.len(),
{
    if v.len() == 0 {
        Seq::empty()
    } else {
        let rest = clean_list(v.drop_last());
        let t = trim(v.last());
        if t.len() > 0 {
            rest.push(t)
        } else {
            rest
        }
    }
}

/// `cfg` is the configuration that an accepted `src` gives: every field
/// carried over, except that the codec is trimmed and upper-cased, the
/// proxy host trimmed, and the two host lists cleaned.
pub open spec fn patched(cfg: CfgAsterisk, src: CfgAsteriskDto) -> bool {
    &&& cfg.enabled == src.enabled
    &&& cfg.outbound_prefix@ == src.outbound_prefix@
    &&& cfg.strip_outbound_prefix == src.strip_outbound_prefix
    &&& cfg.inbound_prefix@ == src.inbound_prefix@
    &&& cfg.register == src.register
    &&& cfg.codec@ == to_ascii_upper(trim(src.codec@))
    &&& cfg.service_numbers.deep_view() == clean_list(src.service_numbers.deep_view())
    &&& cfg.rtp_port_min == src.rtp_port_min
    &&& cfg.rtp_port_max == src.rtp_port_max
    &&& cfg.bind_addr@ == src.bind_addr@
    &&& cfg.bind_port == src.bind_port
    &&& cfg.remote_host@ == src.remote_host@
    &&& cfg.remote_port == src.remote_port
    &&& cfg.outbound_proxy_host@ == trim(src.outbound_proxy_host@)
    &&& cfg.outbound_proxy_port == src.outbound_proxy_port
    &&& cfg.contact_host@ == src.contact_host@
    &&& cfg.from_domain@ == src.from_domain@
    &&& cfg.local_user@ == src.local_user@
    &&& cfg.auth_user@ == src.auth_user@
    &&& cfg.password@ == src.password@
    &&& cfg.realm@ == src.realm@
    &&& cfg.options_interval_secs == src.options_interval_secs
    &&& cfg.ptime_ms == src.ptime_ms
    &&& cfg.dl_jitter_ms == src.dl_jitter_ms
    &&& cfg.allow_from.deep_view() == clean_list(src.allow_from.deep_view())
    &&& cfg.max_pending_dialogs == src.max_pending_dialogs
    &&& cfg.max_invites_per_minute == src.max_invites_per_minute
}

/// `v` holds only trimmed, non-empty entries.
pub open spec fn is_clean_list(v: Seq<Seq<char>>) -> bool {
    forall|i: int| 0 <= i < v.len() ==> #[trigger] v[i].len() > 0 && trim(v[i]) == v[i]
}

impl CfgAsterisk {
    /// What the bridge may rely on in a configuration that passed the checks.
    pub open spec fn is_valid(&self) -> bool {
        &&& self.codec@ == "PCMU"@
        &&& (self.ptime_ms == 20 || self.ptime_ms == 40 || self.ptime_ms == 60)
        &&& self.dl_jitter_ms <= 500
        &&& trim(self.outbound_proxy_host@) == self.outbound_proxy_host@
        &&& is_clean_list(self.service_numbers.deep_view())
        &&& is_clean_list(self.allow_from.deep_view())
        &&& self.enabled ==> {
            &&& self.bind_port != 0
            &&& self.remote_port != 0
            &&& (self.outbound_proxy_host@.len() > 0 ==> self.outbound_proxy_port != 0)
            &&& !bad_rtp_range(self.rtp_port_min, self.rtp_port_max)
            &&& has_text(self.remote_host@)
            &&& has_text(self.contact_host@)
            &&& !contact_names_pbx(self.contact_host@, self.remote_host@, self.from_domain@)
            &&& has_text(self.local_user@)
            &&& has_text(self.auth_user@)
        }
    }
}

/// Every entry that `clean_list` keeps is trimmed and non-empty.
pub proof fn lemma_clean_list_is_clean(v: Seq<Seq<char>>)
    ensures
        is_clean_list(clean_list(v)),
    decreases v.len(),
{
    if v.len() > 0 {
        lemma_clean_list_is_clean(v.drop_last());
        lemma_trim_idempotent(v.last());
    }
}

/// Law: a configuration that `apply_asterisk_patch` accepts meets every rule
/// that the bridge relies on (`CfgAsterisk::is_valid`).
pub proof fn lemma_accepted_config_is_valid(src: CfgAsteriskDto, cfg: CfgAsterisk)
    requires
        patch_error(src) is None,
        patched(cfg, src),
    ensures
        cfg.is_valid(),
{
    lemma_clean_list_is_clean(src.service_numbers.deep_view());
    lemma_clean_list_is_clean(src.allow_from.deep_view());
    lemma_trim_idempotent(src.outbound_proxy_host@);
}

/// Law: the section that the file gives when it leaves every field out is
/// accepted.
pub proof fn lemma_default_section_is_accepted(d: CfgAsteriskDto)
    requires
        is_default_dto(d),
    ensures
        patch_error(d) is None,
{
    reveal_strlit("PCMU");
    let s = "PCMU"@;
    assert(trim_start(s) == s);
    assert(trim_end(s) == s);
    assert(to_ascii_upper(trim(s)) =~= s);
}

/// Law: while the bridge is disabled its connection settings are not
/// checked; whether a section is accepted, and with which error it is
/// refused, depends on its codec, packet time and jitter buffer alone.
pub proof fn lemma_disabled_checks_media_only(a: CfgAsteriskDto, b: CfgAsteriskDto)
    requires
        !a.enabled,
        !b.enabled,
        a.codec@ == b.codec@,
        a.ptime_ms == b.ptime_ms,
        a.dl_jitter_ms == b.dl_jitter_ms,
    ensures
        patch_error(a) == patch_error(b),
{
}

/// `src` carries every field of `cfg` as it is, as a section that holds
/// exactly the values of `cfg` does.
pub open spec fn carries(src: CfgAsteriskDto, cfg: CfgAsterisk) -> bool {
    &&& src.enabled == cfg.enabled
    &&& src.outbound_prefix@ == cfg.outbound_prefix@
    &&& src.strip_outbound_prefix == cfg.strip_outbound_prefix
    &&& src.inbound_prefix@ == cfg.inbound_prefix@
    &&& src.register == cfg.register
    &&& src.codec@ == cfg.codec@
    &&& src.service_numbers.deep_view() == cfg.service_numbers.deep_view()
    &&& src.rtp_port_min == cfg.rtp_port_min
    &&& src.rtp_port_max == cfg.rtp_port_max
    &&& src.bind_addr@ == cfg.bind_addr@
    &&& src.bind_port == cfg.bind_port
    &&& src.remote_host@ == cfg.remote_host@
    &&& src.remote_port == cfg.remote_port
    &&& src.outbound_proxy_host@ == cfg.outbound_proxy_host@
    &&& src.outbound_proxy_port == cfg.outbound_proxy_port
    &&& src.contact_host@ == cfg.contact_host@
    &&& src.from_domain@ == cfg.from_domain@
    &&& src.local_user@ == cfg.local_user@
    &&& src.auth_user@ == cfg.auth_user@
    &&& src.password@ == cfg.password@
    &&& src.realm@ == cfg.realm@
    &&& src.options_interval_secs == cfg.options_interval_secs
    &&& src.ptime_ms == cfg.ptime_ms
    &&& src.dl_jitter_ms == cfg.dl_jitter_ms
    &&& src.allow_from.deep_view() == cfg.allow_from.deep_view()
    &&& src.max_pending_dialogs == cfg.max_pending_dialogs
    &&& src.max_invites_per_minute == cfg.max_invites_per_minute
}

/// Cleaning a list that is already clean changes nothing.
pub proof fn lemma_clean_list_of_clean(v: Seq<Seq<char>>)
    requires
        is_clean_list(v),
    ensures
        clean_list(v) == v,
    decreases v.len(),
{
    if v.len() > 0 {
        let d = v.drop_last();
        assert(is_clean_list(d)) by {
            assert forall|i: int| 0 <= i < d.len() implies #[trigger] d[i].len() > 0 && trim(d[i])
                == d[i] by {
                assert(d[i] == v[i]);
            }
        }
        lemma_clean_list_of_clean(d);
        assert(v.last() == v[v.len() - 1]);
        assert(d.push(v.last()) =~= v);
    }
}

/// Law: a configuration that meets every rule of the bridge, written back as
/// a section that carries its values, is accepted and gives that same
/// configuration again.
pub proof fn lemma_valid_config_is_reaccepted(cfg: CfgAsterisk, src: CfgAsteriskDto)
    requires
        cfg.is_valid(),
        carries(src, cfg),
    ensures
        patch_error(src) is None,
        patched(cfg, src),
{
    reveal_strlit("PCMU");
    let pcmu = "PCMU"@;
    assert(trim_start(pcmu) == pcmu);
    assert(trim_end(pcmu) == pcmu);
    assert(to_ascii_upper(trim(pcmu)) =~= pcmu);
    lemma_clean_list_of_clean(cfg.service_numbers.deep_view());
    lemma_clean_list_of_clean(cfg.allow_from.deep_view());
    lemma_trim_empty();
}

/// Law: a configuration that `apply_asterisk_patch` accepts, written back as
/// a section that carries its values, is accepted again and gives the same
/// configuration: checking a saved configuration changes nothing.
pub proof fn lemma_accepted_config_is_reaccepted(
    src: CfgAsteriskDto,
    cfg: CfgAsterisk,
    again: CfgAsteriskDto,
)
    requires
        patch_error(src) is None,
        patched(cfg, src),
        carries(again, cfg),
    ensures
        patch_error(again) is None,
        patched(cfg, again),
{
    lemma_accepted_config_is_valid(src, cfg);
    lemma_valid_config_is_reaccepted(cfg, again);
}

/// Law: once the checks before it pass, an enabled section is refused for
/// its RTP port range exactly when `rtp_port_min` is 0, `rtp_port_max` is 0
/// or `rtp_port_min` is above `rtp_port_max`; any range with
/// `1 <= rtp_port_min <= rtp_port_max` gets past that check.
pub proof fn lemma_rtp_range_rule(src: CfgAsteriskDto)
    requires
        src.enabled,
        src.bind_port != 0,
        src.remote_port != 0,
        !(has_text(src.outbound_proxy_host@) && src.outbound_proxy_port == 0),
    ensures
        patch_error(src) == Some(
            "asterisk: rtp_port_min/rtp_port_max must define a valid non-zero range"@,
        ) <==> (src.rtp_port_min == 0 || src.rtp_port_max == 0 || src.rtp_port_min
            > src.rtp_port_max),
{
    reveal_strlit("asterisk: rtp_port_min/rtp_port_max must define a valid non-zero range");
    reveal_strlit("asterisk: remote_host cannot be empty when enabled");
    reveal_strlit("asterisk: contact_host cannot be empty when enabled");
    reveal_strlit("asterisk: contact_host must be the public IP/hostname of THIS Pi, not the PBX (remote_host/from_domain)");
    reveal_strlit("asterisk: local_user cannot be empty when enabled");
    reveal_strlit("asterisk: auth_user cannot be empty when enabled");
    reveal_strlit("asterisk: only codec = \"PCMU\" is currently supported");
    reveal_strlit("asterisk: ptime_ms must be 20, 40 or 60");
    reveal_strlit("asterisk: dl_jitter_ms must be 500 or less");
    let rtp = "asterisk: rtp_port_min/rtp_port_max must define a valid non-zero range"@;
    assert(rtp.len() == 70);
    if !(src.rtp_port_min == 0 || src.rtp_port_max == 0 || src.rtp_port_min > src.rtp_port_max) {
        assert(patch_error(src) != Some(rtp)) by {
            if patch_error(src) is Some {
                assert(patch_error(src).unwrap().len() != 70);
            }
        }
    }
}

/// Law: the RTP range of an accepted section may be set to any range with
/// `1 <= lo <= hi`, however wide, and the section is still accepted.
pub proof fn lemma_any_rtp_range_accepted(src: CfgAsteriskDto, lo: u16, hi: u16)
    requires
        patch_error(src) is None,
        1 <= lo <= hi,
    ensures
        patch_error((CfgAsteriskDto { rtp_port_min: lo, rtp_port_max: hi, ..src })) is None,
{
}

/// Law: a disabled section is accepted exactly when its codec, trimmed and
/// upper-cased, is `PCMU`, its packet time is 20, 40 or 60 ms and its jitter
/// buffer is at most 500 ms; nothing else of it is checked.
pub proof fn lemma_disabled_section_rule(src: CfgAsteriskDto)
    requires
        !src.enabled,
    ensures
        patch_error(src) is None <==> (to_ascii_upper(trim(src.codec@)) == "PCMU"@ && (src.ptime_ms
            == 20 || src.ptime_ms == 40 || src.ptime_ms == 60) && src.dl_jitter_ms <= 500),
{
}

/// Law: an enabled section with port 0 to bind or to reach the PBX is
/// refused, with the bind port checked first.
pub proof fn lemma_enabled_zero_ports_refused(src: CfgAsteriskDto)
    requires
        src.enabled,
    ensures
        src.bind_port == 0 ==> patch_error(src) == Some("asterisk: bind_port cannot be 0"@),
        src.bind_port != 0 && src.remote_port == 0 ==> patch_error(src) == Some(
            "asterisk: remote_port cannot be 0"@,
        ),
{
}

/// Law: an enabled section whose contact host names the PBX itself (the
/// same text as `remote_host`, or as a non-empty `from_domain`) is never
/// accepted.
pub proof fn lemma_contact_naming_pbx_refused(src: CfgAsteriskDto)
    requires
        src.enabled,
        has_text(src.contact_host@),
        src.contact_host@ == src.remote_host@ || (src.contact_host@ == src.from_domain@),
    ensures
        patch_error(src) is Some,
{
}

/// Law: cleaning a list keeps every entry that holds more than whitespace,
/// trimmed, and gives nothing that is not such an entry.
pub proof fn lemma_clean_list_keeps(v: Seq<Seq<char>>)
    ensures
        forall|i: int| 0 <= i < v.len() && has_text(#[trigger] v[i]) ==> clean_list(v).contains(
            trim(v[i]),
        ),
        forall|k: int|
            #![trigger clean_list(v)[k]]
            0 <= k < clean_list(v).len() ==> exists|i: int|
                0 <= i < v.len() && has_text(#[trigger] v[i]) && trim(v[i]) == clean_list(v)[k],
        clean_list(v).len() <= v.len(),
    decreases v.len(),
{
    if v.len() > 0 {
        let d = v.drop_last();
        lemma_clean_list_keeps(d);
        let c = clean_list(v);
        let cd = clean_list(d);
        assert forall|i: int| 0 <= i < v.len() && has_text(#[trigger] v[i]) implies c.contains(
            trim(v[i]),
        ) by {
            if i < v.len() - 1 {
                assert(d[i] == v[i]);
                let k = choose|k: int| 0 <= k < cd.len() && cd[k] == trim(d[i]);
                assert(c[k] == cd[k]);
            } else {
                assert(c[c.len() - 1] == trim(v[i]));
            }
        }
        assert forall|k: int| #![trigger c[k]] 0 <= k < c.len() implies exists|i: int|
            0 <= i < v.len() && has_text(#[trigger] v[i]) && trim(v[i]) == c[k] by {
            if k < cd.len() {
                assert(c[k] == cd[k]);
                let i = choose|i: int| 0 <= i < d.len() && has_text(#[trigger] d[i]) && trim(d[i]) == cd[k];
                assert(v[i] == d[i]);
            } else {
                assert(has_text(v[v.len() - 1]));
            }
        }
    }
}

/// The configuration that a section with every field left out gives.
pub open spec fn is_default_config(c: CfgAsterisk) -> bool {
    &&& !c.enabled
    &&& c.outbound_prefix@ == "91"@
    &&& c.strip_outbound_prefix
    &&& c.inbound_prefix@ == "T"@
    &&& c.register
    &&& c.codec@ == "PCMU"@
    &&& c.service_numbers@.len() == 0
    &&& c.rtp_port_min == 30000
    &&& c.rtp_port_max == 30100
    &&& c.bind_addr@ == "127.0.0.1"@
    &&& c.bind_port == 5062
    &&& c.remote_host@ == "127.0.0.1"@
    &&& c.remote_port == 5060
    &&& c.outbound_proxy_host@.len() == 0
    &&& c.outbound_proxy_port == 5060
    &&& c.contact_host@ == "127.0.0.1"@
    &&& c.from_domain@ == "127.0.0.1"@
    &&& c.local_user@ == "flowstation"@
    &&& c.auth_user@ == "flowstation"@
    &&& c.password@.len() == 0
    &&& c.realm@ == "asterisk"@
    &&& c.options_interval_secs == 30
    &&& c.ptime_ms == 20
    &&& c.dl_jitter_ms == 120
    &&& c.allow_from@.len() == 0
    &&& c.max_pending_dialogs == 8
    &&& c.max_invites_per_minute == 30
}

/// The entries of `v`, trimmed, with those left empty dropped.
fn clean_entries(v: Vec<String>) -> (r: Vec<String>)
    ensures
        r.deep_view() == clean_list(v.deep_view()),
{
    let mut r: Vec<String> = Vec::new();
    let mut i: usize = 0;
    while i < v.len()
        invariant
            i <= v@.len(),
            r.deep_view() == clean_list(v.deep_view().take(i as int)),
        decreases v@.len() - i,
    {
        let t = trim_str(v[i].as_str());
        assert(v.deep_view().take(i + 1).drop_last() =~= v.deep_view().take(i as int));
        if !t.as_str().is_empty() {
            r.push(t);
        }
        i = i + 1;
        assert(r.deep_view() =~= clean_list(v.deep_view().take(i as int)));
    }
    assert(v.deep_view().take(i as int) =~= v.deep_view());
    r
}

/// Checks the `[asterisk]` section and builds the configuration the bridge
/// runs with. The section is refused with the message of the first check it
/// fails (`patch_error`); an accepted one gives the configuration described
/// by `patched`, which meets `CfgAsterisk::is_valid`.
pub fn apply_asterisk_patch(src: CfgAsteriskDto) -> (r: Result<CfgAsterisk, String>)
    ensures
        match r {
            Ok(cfg) => patch_error(src) is None && patched(cfg, src) && cfg.is_valid(),
            Err(e) => patch_error(src) == Some(e@),
        },
{
    if src.enabled {
        if src.bind_port == 0 {
            return Err("asterisk: bind_port cannot be 0".to_string());
        }
        if src.remote_port == 0 {
            return Err("asterisk: remote_port cannot be 0".to_string());
        }
        let proxy = trim_str(src.outbound_proxy_host.as_str());
        if !proxy.as_str().is_empty() && src.outbound_proxy_port == 0 {
            return Err(
                "asterisk: outbound_proxy_port cannot be 0 when outbound_proxy_host is set".to_string(),
            );
        }
        if src.rtp_port_min == 0 || src.rtp_port_max == 0 || src.rtp_port_min > src.rtp_port_max {
            return Err(
                "asterisk: rtp_port_min/rtp_port_max must define a valid non-zero range".to_string(),
            );
        }
        let remote_trimmed = trim_str(src.remote_host.as_str());
        if remote_trimmed.as_str().is_empty() {
            return Err("asterisk: remote_host cannot be empty when enabled".to_string());
        }
        let contact_trimmed = trim_str(src.contact_host.as_str());
        if contact_trimmed.as_str().is_empty() {
            return Err("asterisk: contact_host cannot be empty when enabled".to_string());
        }
        // Via/Contact/SDP must advertise THIS station, not the PBX. Using the PBX hostname
        // here makes FreeSWITCH drop outbound INVITEs (CANCEL then returns 481).
        let contact = ascii_lowercase(contact_trimmed.as_str());
        let remote = ascii_lowercase(remote_trimmed.as_str());
        let domain_trimmed = trim_str(src.from_domain.as_str());
        let domain = ascii_lowercase(domain_trimmed.as_str());
        if !contact.as_str().is_empty() && (contact == remote || (!domain.as_str().is_empty()
            && contact == domain)) {
            return Err(
                "asterisk: contact_host must be the public IP/hostname of THIS Pi, not the PBX (remote_host/from_domain)".to_string(),
            );
        }
        let local_trimmed = trim_str(src.local_user.as_str());
        if local_trimmed.as_str().is_empty() {
            return Err("asterisk: local_user cannot be empty when enabled".to_string());
        }
        let auth_trimmed = trim_str(src.auth_user.as_str());
        if auth_trimmed.as_str().is_empty() {
            return Err("asterisk: auth_user cannot be empty when enabled".to_string());
        }
    }
    let codec_trimmed = trim_str(src.codec.as_str());
    let codec = ascii_uppercase(codec_trimmed.as_str());
    let pcmu = "PCMU".to_string();
    if codec != pcmu {
        return Err("asterisk: only codec = \"PCMU\" is currently supported".to_string());
    }
    if !(src.ptime_ms == 20 || src.ptime_ms == 40 || src.ptime_ms == 60) {
        return Err("asterisk: ptime_ms must be 20, 40 or 60".to_string());
    }
    // Anything queued here is delay the call carries for good, so refuse to buffer a call late.
    if src.dl_jitter_ms > 500 {
        return Err("asterisk: dl_jitter_ms must be 500 or less".to_string());
    }
    let allow_from = clean_entries(src.allow_from);
    let service_numbers = clean_entries(src.service_numbers);
    let outbound_proxy_host = trim_str(src.outbound_proxy_host.as_str());
    let cfg = CfgAsterisk {
            enabled: src.enabled,
            outbound_prefix: src.outbound_prefix,
            strip_outbound_prefix: src.strip_outbound_prefix,
            inbound_prefix: src.inbound_prefix,
            register: src.register,
            codec,
            service_numbers,
            rtp_port_min: src.rtp_port_min,
            rtp_port_max: src.rtp_port_max,
            bind_addr: src.bind_addr,
            bind_port: src.bind_port,
            remote_host: src.remote_host,
            remote_port: src.remote_port,
            outbound_proxy_host,
            outbound_proxy_port: src.outbound_proxy_port,
            contact_host: src.contact_host,
            from_domain: src.from_domain,
            local_user: src.local_user,
            auth_user: src.auth_user,
            password: SecretField::new(src.password),
            realm: src.realm,
            options_interval_secs: src.options_interval_secs,
            ptime_ms: src.ptime_ms,
            dl_jitter_ms: src.dl_jitter_ms,
            allow_from,
            max_pending_dialogs: src.max_pending_dialogs,
            max_invites_per_minute: src.max_invites_per_minute,
        };
    proof {
        lemma_accepted_config_is_valid(src, cfg);
    }
    Ok(cfg)
}


impl Default for CfgAsterisk {
    fn default() -> (c: CfgAsterisk)
        ensures
            is_default_config(c),
            c.is_valid(),
    {
        let d = CfgAsteriskDto::default();
        proof {
            lemma_default_section_is_accepted(d);
            lemma_trim_empty();
            assert(d.service_numbers.deep_view() =~= Seq::<Seq<char>>::empty());
            assert(d.allow_from.deep_view() =~= Seq::<Seq<char>>::empty());
        }
        apply_asterisk_patch(d).expect("default asterisk config must be valid")
    }
}

} // verus!
