//! Dashboard persistence and install helpers for the SIP / PBX client.
//!
//! Renders the `[asterisk]` section that the dashboard saves (the rewrite of
//! the live file is in `config_text`), masks secrets for display, and holds
//! the decisions behind the Install button (compiled-in `--features asterisk`
//! marker).

use vstd::prelude::*;

use crate::config_text::{
    is_section_block, is_section_header, kept_lines_end_clean, lemma_rewrite_idempotent, rewritten,
};
use crate::lines::{
    ends_with_cr, lemma_split_nl_cat, lemma_split_nl_nonempty, lemma_split_nl_single, no_char,
    split_nl,
};
use crate::sec_asterisk::CfgAsterisk;
use crate::text::{
    bool_text, chars_of, decimal, digit_char, is_white_space, push_bool, push_char, push_decimal,
    trim_start,
};

verus! {

/// Filename written next to the source tree after a successful SIP install so
/// later OTA rebuilds keep `--features asterisk` instead of dropping the bridge.
pub const SIP_CLIENT_MARKER: &'static str = ".flowstation-sip-client";

/// What `mask_secret` shows for `secret`: nothing for an empty secret, a fixed
/// row of eight `*` otherwise, whatever its length.
pub open spec fn masked(secret: Seq<char>) -> Seq<char> {
    if secret.len() == 0 {
        Seq::empty()
    } else {
        "********"@
    }
}

/// Law: the mask is empty exactly for an empty secret; every other secret,
/// whatever its length, shows the same row of eight `*`.
pub proof fn lemma_mask_shape(a: Seq<char>, b: Seq<char>)
    ensures
        masked(a).len() == 0 <==> a.len() == 0,
        a.len() > 0 ==> masked(a).len() == 8 && forall|i: int| 0 <= i < 8 ==> #[trigger] masked(a)[i]
            == '*',
        a.len() > 0 && b.len() > 0 ==> masked(a) == masked(b),
{
    reveal_strlit("********");
}

/// Mask a secret for display. Returns an empty string for an empty value.
pub fn mask_secret(secret: &str) -> (r: String)
    ensures
        r@ == masked(secret@),
{
    if secret.is_empty() {
        String::new()
    } else {
        "********".to_string()
    }
}

/// `s` as the inside of a TOML basic string: each `\` becomes `\\` and
/// each `"` becomes `\"`; every other character stays.
pub open spec fn toml_escaped(s: Seq<char>) -> Seq<char>
    decreases s.len(),
{
    if s.len() == 0 {
        Seq::empty()
    } else {
        let front = toml_escaped(s.drop_last());
        let c = s.last();
        if c == '\\' {
            front + seq!['\\', '\\']
        } else if c == '"' {
            front + seq!['\\', '"']
        } else {
            front.push(c)
        }
    }
}

/// `s` as a quoted TOML basic string.
pub open spec fn quoted(s: Seq<char>) -> Seq<char> {
    seq!['"'] + toml_escaped(s) + seq!['"']
}

/// The quoted `items`, separated by `", "`.
pub open spec fn string_list(items: Seq<Seq<char>>) -> Seq<char>
    decreases items.len(),
{
    if items.len() == 0 {
        Seq::empty()
    } else if items.len() == 1 {
        quoted(items[0])
    } else {
        string_list(items.drop_last()) + ", "@ + quoted(items.last())
    }
}

/// A TOML array of the quoted `items`.
pub open spec fn string_array(items: Seq<Seq<char>>) -> Seq<char> {
    seq!['['] + string_list(items) + seq![']']
}

/// One `key = value` line of the section, with the newline before it.
pub open spec fn entry(key: Seq<char>, value: Seq<char>) -> Seq<char> {
    seq!['\n'] + key + " = "@ + value
}

/// The `[asterisk]` section that the dashboard writes for `cfg`: the header
/// and one line per field, in this order, strings quoted and escaped.
pub open spec fn section_text(cfg: CfgAsterisk) -> Seq<char> {
    "[asterisk]"@
        + entry("enabled"@, bool_text(cfg.enabled))
        + entry("outbound_prefix"@, quoted(cfg.outbound_prefix@))
        + entry("strip_outbound_prefix"@, bool_text(cfg.strip_outbound_prefix))
        + entry("inbound_prefix"@, quoted(cfg.inbound_prefix@))
        + entry("register"@, bool_text(cfg.register))
        + entry("codec"@, quoted(cfg.codec@))
        + entry("service_numbers"@, string_array(cfg.service_numbers.deep_view()))
        + entry("rtp_port_min"@, decimal(cfg.rtp_port_min as nat))
        + entry("rtp_port_max"@, decimal(cfg.rtp_port_max as nat))
        + entry("bind_addr"@, quoted(cfg.bind_addr@))
        + entry("bind_port"@, decimal(cfg.bind_port as nat))
        + entry("remote_host"@, quoted(cfg.remote_host@))
        + entry("remote_port"@, decimal(cfg.remote_port as nat))
        + entry("outbound_proxy_host"@, quoted(cfg.outbound_proxy_host@))
        + entry("outbound_proxy_port"@, decimal(cfg.outbound_proxy_port as nat))
        + entry("contact_host"@, quoted(cfg.contact_host@))
        + entry("from_domain"@, quoted(cfg.from_domain@))
        + entry("local_user"@, quoted(cfg.local_user@))
        + entry("auth_user"@, quoted(cfg.auth_user@))
        + entry("password"@, quoted(cfg.password@))
        + entry("realm"@, quoted(cfg.realm@))
        + entry("options_interval_secs"@, decimal(cfg.options_interval_secs as nat))
        + entry("ptime_ms"@, decimal(cfg.ptime_ms as nat))
        + entry("dl_jitter_ms"@, decimal(cfg.dl_jitter_ms as nat))
        + entry("allow_from"@, string_array(cfg.allow_from.deep_view()))
        + entry("max_pending_dialogs"@, decimal(cfg.max_pending_dialogs as nat))
        + entry("max_invites_per_minute"@, decimal(cfg.max_invites_per_minute as nat))
}

/// How `toml_escaped` writes the one character `c`.
pub open spec fn escaped_char(c: char) -> Seq<char> {
    if c == '\\' || c == '"' {
        seq!['\\', c]
    } else {
        seq![c]
    }
}

/// What the inside `e` of a TOML basic string stands for when its only
/// escapes are `\\` and `\"`: a backslash stands for the character after it,
/// every other character for itself.
pub open spec fn toml_unescaped(e: Seq<char>) -> Seq<char>
    decreases e.len(),
{
    if e.len() == 0 {
        Seq::empty()
    } else if e[0] == '\\' && e.len() >= 2 {
        seq![e[1]] + toml_unescaped(e.subrange(2, e.len() as int))
    } else {
        seq![e[0]] + toml_unescaped(e.subrange(1, e.len() as int))
    }
}

/// Escaping a text escapes its first character, then the rest.
pub proof fn lemma_escaped_front(c: char, t: Seq<char>)
    ensures
        toml_escaped(seq![c] + t) == escaped_char(c) + toml_escaped(t),
    decreases t.len(),
{
    let s = seq![c] + t;
    if t.len() == 0 {
        assert(s.drop_last() =~= Seq::<char>::empty());
        assert(toml_escaped(Seq::<char>::empty()) =~= Seq::<char>::empty());
        assert(s.last() == c);
        assert(toml_escaped(s) =~= escaped_char(c));
        assert(escaped_char(c) + toml_escaped(t) =~= escaped_char(c));
    } else {
        lemma_escaped_front(c, t.drop_last());
        assert(s.drop_last() =~= seq![c] + t.drop_last());
        assert(s.last() == t.last());
        assert(toml_escaped(s) =~= escaped_char(c) + toml_escaped(t));
    }
}

/// Law: reading an escaped text back as the inside of a TOML basic string
/// gives the text again.
pub proof fn lemma_escape_reads_back(s: Seq<char>)
    ensures
        toml_unescaped(toml_escaped(s)) == s,
    decreases s.len(),
{
    if s.len() > 0 {
        let c = s[0];
        let t = s.subrange(1, s.len() as int);
        assert(s =~= seq![c] + t);
        lemma_escaped_front(c, t);
        lemma_escape_reads_back(t);
        let e = toml_escaped(s);
        let k = escaped_char(c).len() as int;
        assert(e == escaped_char(c) + toml_escaped(t));
        assert(e.subrange(k, e.len() as int) =~= toml_escaped(t));
        assert(e[0] == escaped_char(c)[0]);
        if k == 2 {
            assert(e[1] == c);
        }
        assert(toml_unescaped(e) =~= seq![c] + t);
    }
}

/// Law: a text without a backslash or a quote is escaped as itself.
pub proof fn lemma_escape_plain(s: Seq<char>)
    requires
        no_char(s, '\\'),
        no_char(s, '"'),
    ensures
        toml_escaped(s) == s,
    decreases s.len(),
{
    if s.len() > 0 {
        let d = s.drop_last();
        assert(no_char(d, '\\') && no_char(d, '"')) by {
            assert forall|j: int| 0 <= j < d.len() implies #[trigger] d[j] != '\\' && d[j] != '"' by {
                assert(d[j] == s[j]);
            }
        }
        lemma_escape_plain(d);
        assert(s.last() == s[s.len() - 1]);
        assert(d.push(s.last()) =~= s);
    }
}

/// Escapes `s` for a TOML basic string.
pub fn toml_escape(s: &str) -> (r: String)
    ensures
        r@ == toml_escaped(s@),
{
    let v = chars_of(s);
    let mut r = String::new();
    let mut i: usize = 0;
    while i < v.len()
        invariant
            v@ == s@,
            i <= v@.len(),
            r@ == toml_escaped(s@.take(i as int)),
        decreases v@.len() - i,
    {
        let c = v[i];
        if c == '\\' {
            push_char(&mut r, '\\');
            push_char(&mut r, '\\');
        } else if c == '"' {
            push_char(&mut r, '\\');
            push_char(&mut r, '"');
        } else {
            push_char(&mut r, c);
        }
        assert(s@.take(i + 1).drop_last() =~= s@.take(i as int));
        i = i + 1;
        assert(r@ =~= toml_escaped(s@.take(i as int)));
    }
    assert(s@.take(i as int) =~= s@);
    r
}

/// Appends `s` quoted and escaped.
fn push_quoted(out: &mut String, s: &str)
    ensures
        final(out)@ == old(out)@ + quoted(s@),
{
    push_char(out, '"');
    let e = toml_escape(s);
    out.append(e.as_str());
    push_char(out, '"');
    assert(final(out)@ =~= old(out)@ + quoted(s@));
}

/// The quoted, escaped `items`, separated by `", "`.
pub fn toml_string_list(items: &[String]) -> (r: String)
    ensures
        r@ == string_list(items.deep_view()),
{
    let ghost dv = items.deep_view();
    let mut r = String::new();
    let mut j: usize = 0;
    while j < items.len()
        invariant
            dv == items.deep_view(),
            j <= dv.len(),
            r@ == string_list(dv.take(j as int)),
        decreases dv.len() - j,
    {
        if j > 0 {
            r.append(", ");
        }
        push_quoted(&mut r, items[j].as_str());
        assert(dv.take(j + 1).drop_last() =~= dv.take(j as int));
        j = j + 1;
        assert(r@ =~= string_list(dv.take(j as int)));
    }
    assert(dv.take(j as int) =~= dv);
    r
}

/// Appends one `key = value` line, with the newline before it.
fn push_entry(out: &mut String, key: &str, value: &str)
    ensures
        final(out)@ == old(out)@ + entry(key@, value@),
{
    push_char(out, '\n');
    out.append(key);
    out.append(" = ");
    out.append(value);
    assert(final(out)@ =~= old(out)@ + entry(key@, value@));
}

fn bool_value(b: bool) -> (r: String)
    ensures
        r@ == bool_text(b),
{
    let mut r = String::new();
    push_bool(&mut r, b);
    assert(r@ =~= bool_text(b));
    r
}

fn decimal_value(n: u64) -> (r: String)
    ensures
        r@ == decimal(n as nat),
{
    let mut r = String::new();
    push_decimal(&mut r, n);
    assert(r@ =~= decimal(n as nat));
    r
}

fn quoted_value(s: &str) -> (r: String)
    ensures
        r@ == quoted(s@),
{
    let mut r = String::new();
    push_quoted(&mut r, s);
    assert(r@ =~= quoted(s@));
    r
}

fn array_value(items: &[String]) -> (r: String)
    ensures
        r@ == string_array(items.deep_view()),
{
    let mut r = String::new();
    push_char(&mut r, '[');
    let list = toml_string_list(items);
    r.append(list.as_str());
    push_char(&mut r, ']');
    assert(r@ =~= string_array(items.deep_view()));
    r
}

/// The `[asterisk]` section text for `cfg`, as the dashboard saves it.
pub fn asterisk_section(cfg: &CfgAsterisk) -> (r: String)
    ensures
        r@ == section_text(*cfg),
{
    let mut out = "[asterisk]".to_string();
    push_entry(&mut out, "enabled", bool_value(cfg.enabled).as_str());
    push_entry(&mut out, "outbound_prefix", quoted_value(cfg.outbound_prefix.as_str()).as_str());
    push_entry(&mut out, "strip_outbound_prefix", bool_value(cfg.strip_outbound_prefix).as_str());
    push_entry(&mut out, "inbound_prefix", quoted_value(cfg.inbound_prefix.as_str()).as_str());
    push_entry(&mut out, "register", bool_value(cfg.register).as_str());
    push_entry(&mut out, "codec", quoted_value(cfg.codec.as_str()).as_str());
    push_entry(&mut out, "service_numbers", array_value(cfg.service_numbers.as_slice()).as_str());
    push_entry(&mut out, "rtp_port_min", decimal_value(cfg.rtp_port_min as u64).as_str());
    push_entry(&mut out, "rtp_port_max", decimal_value(cfg.rtp_port_max as u64).as_str());
    push_entry(&mut out, "bind_addr", quoted_value(cfg.bind_addr.as_str()).as_str());
    push_entry(&mut out, "bind_port", decimal_value(cfg.bind_port as u64).as_str());
    push_entry(&mut out, "remote_host", quoted_value(cfg.remote_host.as_str()).as_str());
    push_entry(&mut out, "remote_port", decimal_value(cfg.remote_port as u64).as_str());
    push_entry(&mut out, "outbound_proxy_host", quoted_value(cfg.outbound_proxy_host.as_str()).as_str());
    push_entry(&mut out, "outbound_proxy_port", decimal_value(cfg.outbound_proxy_port as u64).as_str());
    push_entry(&mut out, "contact_host", quoted_value(cfg.contact_host.as_str()).as_str());
    push_entry(&mut out, "from_domain", quoted_value(cfg.from_domain.as_str()).as_str());
    push_entry(&mut out, "local_user", quoted_value(cfg.local_user.as_str()).as_str());
    push_entry(&mut out, "auth_user", quoted_value(cfg.auth_user.as_str()).as_str());
    push_entry(&mut out, "password", quoted_value(cfg.password.as_str()).as_str());
    push_entry(&mut out, "realm", quoted_value(cfg.realm.as_str()).as_str());
    push_entry(&mut out, "options_interval_secs", decimal_value(cfg.options_interval_secs).as_str());
    push_entry(&mut out, "ptime_ms", decimal_value(cfg.ptime_ms as u64).as_str());
    push_entry(&mut out, "dl_jitter_ms", decimal_value(cfg.dl_jitter_ms as u64).as_str());
    push_entry(&mut out, "allow_from", array_value(cfg.allow_from.as_slice()).as_str());
    push_entry(&mut out, "max_pending_dialogs", decimal_value(cfg.max_pending_dialogs as u64).as_str());
    push_entry(&mut out, "max_invites_per_minute", decimal_value(cfg.max_invites_per_minute as u64).as_str());
    out
}

/// The text holds no newline.
pub open spec fn is_single_line(s: Seq<char>) -> bool {
    no_char(s, '\n')
}

/// Every entry of `items` is a single line.
pub open spec fn all_single_line(items: Seq<Seq<char>>) -> bool {
    forall|i: int| 0 <= i < items.len() ==> is_single_line(#[trigger] items[i])
}

/// No string of `cfg` spans lines.
pub open spec fn has_single_line_strings(cfg: CfgAsterisk) -> bool {
        &&& is_single_line(cfg.outbound_prefix@)
        &&& is_single_line(cfg.inbound_prefix@)
        &&& is_single_line(cfg.codec@)
        &&& is_single_line(cfg.bind_addr@)
        &&& is_single_line(cfg.remote_host@)
        &&& is_single_line(cfg.outbound_proxy_host@)
        &&& is_single_line(cfg.contact_host@)
        &&& is_single_line(cfg.from_domain@)
        &&& is_single_line(cfg.local_user@)
        &&& is_single_line(cfg.auth_user@)
        &&& is_single_line(cfg.password@)
        &&& is_single_line(cfg.realm@)
        &&& all_single_line(cfg.service_numbers.deep_view())
        &&& all_single_line(cfg.allow_from.deep_view())
}

/// Escaping adds only backslashes and quotes.
pub proof fn lemma_escaped_chars(s: Seq<char>, x: char)
    requires
        no_char(s, x),
        x != '\\',
        x != '"',
    ensures
        no_char(toml_escaped(s), x),
    decreases s.len(),
{
    if s.len() > 0 {
        let d = s.drop_last();
        assert(no_char(d, x)) by {
            assert forall|j: int| 0 <= j < d.len() implies #[trigger] d[j] != x by {
                assert(d[j] == s[j]);
            }
        }
        lemma_escaped_chars(d, x);
        assert(s[s.len() - 1] != x);
        let e = toml_escaped(s);
        let ed = toml_escaped(d);
        assert forall|j: int| 0 <= j < e.len() implies #[trigger] e[j] != x by {
            if j < ed.len() {
                assert(e[j] == ed[j]);
            }
        }
    }
}

pub proof fn lemma_quoted_single_line(s: Seq<char>)
    requires
        is_single_line(s),
    ensures
        is_single_line(quoted(s)),
        !ends_with_cr(quoted(s)),
{
    lemma_escaped_chars(s, '\n');
    let q = quoted(s);
    let e = toml_escaped(s);
    assert forall|j: int| 0 <= j < q.len() implies #[trigger] q[j] != '\n' by {
        if 0 < j < q.len() - 1 {
            assert(q[j] == e[j - 1]);
        }
    }
}

/// Every character of a decimal number is a digit.
pub proof fn lemma_decimal_digits(n: nat)
    ensures
        forall|j: int| 0 <= j < decimal(n).len() ==> 48 <= #[trigger] decimal(n)[j] as u32 <= 57,
    decreases n,
{
    let d = decimal(n);
    let last = (n % 10) as int;
    assert(digit_char(last) as u32 == 48 + last);
    if n >= 10 {
        lemma_decimal_digits(n / 10);
        let f = decimal(n / 10);
        assert forall|j: int| 0 <= j < d.len() implies 48 <= #[trigger] d[j] as u32 <= 57 by {
            if j < f.len() {
                assert(d[j] == f[j]);
            } else {
                assert(d[j] == digit_char(last));
            }
        }
    } else {
        assert(d[0] == digit_char(n as int));
    }
}

pub proof fn lemma_decimal_single_line(n: nat)
    ensures
        is_single_line(decimal(n)),
        !ends_with_cr(decimal(n)),
{
    lemma_decimal_digits(n);
    let d = decimal(n);
    assert forall|j: int| 0 <= j < d.len() implies #[trigger] d[j] != '\n' by {
        assert(48 <= d[j] as u32 <= 57);
    }
    if d.len() > 0 {
        assert(48 <= d[d.len() - 1] as u32 <= 57);
    }
}

pub proof fn lemma_list_single_line(items: Seq<Seq<char>>)
    requires
        all_single_line(items),
    ensures
        is_single_line(string_list(items)),
    decreases items.len(),
{
    reveal_strlit(", ");
    if items.len() == 1 {
        lemma_quoted_single_line(items[0]);
    } else if items.len() > 1 {
        let d = items.drop_last();
        assert(all_single_line(d)) by {
            assert forall|i: int| 0 <= i < d.len() implies is_single_line(#[trigger] d[i]) by {
                assert(d[i] == items[i]);
            }
        }
        lemma_list_single_line(d);
        assert(items.last() == items[items.len() - 1]);
        lemma_quoted_single_line(items.last());
        let a = string_list(d);
        let q = quoted(items.last());
        let l = string_list(items);
        assert(l == a + ", "@ + q);
        assert forall|j: int| 0 <= j < l.len() implies #[trigger] l[j] != '\n' by {
            if j < a.len() {
                assert(l[j] == a[j]);
            } else if j >= a.len() + 2 {
                assert(l[j] == q[j - a.len() - 2]);
            }
        }
    }
}

pub proof fn lemma_array_single_line(items: Seq<Seq<char>>)
    requires
        all_single_line(items),
    ensures
        is_single_line(string_array(items)),
        !ends_with_cr(string_array(items)),
{
    lemma_list_single_line(items);
    let l = string_list(items);
    let r = string_array(items);
    assert forall|j: int| 0 <= j < r.len() implies #[trigger] r[j] != '\n' by {
        if 0 < j < r.len() - 1 {
            assert(r[j] == l[j - 1]);
        }
    }
}

/// The bare `[asterisk]` header is a section block.
pub proof fn lemma_header_is_block()
    ensures
        is_section_block("[asterisk]"@),
{
    reveal_strlit("[asterisk]");
    let h = "[asterisk]"@;
    assert(no_char(h, '\n'));
    assert(!ends_with_cr(h));
    lemma_split_nl_single(h);
    assert(trim_start(h) == h);
    assert(h.take(10) =~= h);
}

/// A block followed by a `key = value` line whose key starts with a
/// character that is neither whitespace nor `[`, and whose value is a single
/// line that does not end with a carriage return, is a block.
pub proof fn lemma_block_entry(a: Seq<char>, key: Seq<char>, value: Seq<char>)
    requires
        is_section_block(a),
        is_entry_key(key),
        is_single_line(value),
        !ends_with_cr(value),
    ensures
        is_section_block(a + entry(key, value)),
{
    reveal_strlit(" = ");
    let l = key + " = "@ + value;
    let s = a + entry(key, value);
    assert(s =~= a + seq!['\n'] + l);
    lemma_split_nl_cat(a, l);
    assert(is_single_line(l)) by {
        assert forall|j: int| 0 <= j < l.len() implies #[trigger] l[j] != '\n' by {
            if j < key.len() {
                assert(l[j] == key[j]);
            } else if j >= key.len() + 3 {
                assert(l[j] == value[j - key.len() - 3]);
            }
        }
    }
    lemma_split_nl_single(l);
    lemma_split_nl_nonempty(a);
    let pa = split_nl(a);
    let ps = split_nl(s);
    assert(ps == pa + seq![l]);
    assert(l[0] == key[0]);
    assert(trim_start(l) == l);
    assert(!is_section_header(l));
    assert forall|i: int| 1 <= i < ps.len() implies !#[trigger] is_section_header(ps[i]) by {
        if i < pa.len() {
            assert(ps[i] == pa[i]);
        } else {
            assert(ps[i] == l);
        }
    }
    assert(ps[0] == pa[0]);
    assert(!ends_with_cr(l)) by {
        if value.len() > 0 {
            assert(l.last() == value.last());
        } else {
            assert(l.last() == ' ');
        }
    }
    assert forall|i: int| 0 <= i < ps.len() implies !#[trigger] ends_with_cr(ps[i]) by {
        if i < pa.len() {
            assert(ps[i] == pa[i]);
        }
    }
    assert(s.last() == l.last());
}

/// A key of the section: a single line without spaces that starts with a
/// character that is neither whitespace nor `[`.
pub open spec fn is_entry_key(k: Seq<char>) -> bool {
    k.len() > 0 && !is_white_space(k[0]) && k[0] != '[' && is_single_line(k) && no_char(k, ' ')
}

pub proof fn lemma_bool_single_line(b: bool)
    ensures
        is_single_line(bool_text(b)),
        !ends_with_cr(bool_text(b)),
{
    reveal_strlit("true");
    reveal_strlit("false");
    let t = bool_text(b);
    assert forall|j: int| 0 <= j < t.len() implies #[trigger] t[j] != '\n' by {}
}

pub proof fn lemma_keys_first()
    ensures
        is_entry_key("enabled"@),
        is_entry_key("outbound_prefix"@),
        is_entry_key("strip_outbound_prefix"@),
        is_entry_key("inbound_prefix"@),
        is_entry_key("register"@),
        is_entry_key("codec"@),
        is_entry_key("service_numbers"@),
        is_entry_key("rtp_port_min"@),
        is_entry_key("rtp_port_max"@),
{
    reveal_strlit("enabled");
    reveal_strlit("outbound_prefix");
    reveal_strlit("strip_outbound_prefix");
    reveal_strlit("inbound_prefix");
    reveal_strlit("register");
    reveal_strlit("codec");
    reveal_strlit("service_numbers");
    reveal_strlit("rtp_port_min");
    reveal_strlit("rtp_port_max");
    assert(is_entry_key("enabled"@)) by {
        let k = "enabled"@;
        assert forall|j: int| 0 <= j < k.len() implies #[trigger] k[j] != '\n' && k[j] != ' ' by {}
    }
    assert(is_entry_key("outbound_prefix"@)) by {
        let k = "outbound_prefix"@;
        assert forall|j: int| 0 <= j < k.len() implies #[trigger] k[j] != '\n' && k[j] != ' ' by {}
    }
    assert(is_entry_key("strip_outbound_prefix"@)) by {
        let k = "strip_outbound_prefix"@;
        assert forall|j: int| 0 <= j < k.len() implies #[trigger] k[j] != '\n' && k[j] != ' ' by {}
    }
    assert(is_entry_key("inbound_prefix"@)) by {
        let k = "inbound_prefix"@;
        assert forall|j: int| 0 <= j < k.len() implies #[trigger] k[j] != '\n' && k[j] != ' ' by {}
    }
    assert(is_entry_key("register"@)) by {
        let k = "register"@;
        assert forall|j: int| 0 <= j < k.len() implies #[trigger] k[j] != '\n' && k[j] != ' ' by {}
    }
    assert(is_entry_key("codec"@)) by {
        let k = "codec"@;
        assert forall|j: int| 0 <= j < k.len() implies #[trigger] k[j] != '\n' && k[j] != ' ' by {}
    }
    assert(is_entry_key("service_numbers"@)) by {
        let k = "service_numbers"@;
        assert forall|j: int| 0 <= j < k.len() implies #[trigger] k[j] != '\n' && k[j] != ' ' by {}
    }
    assert(is_entry_key("rtp_port_min"@)) by {
        let k = "rtp_port_min"@;
        assert forall|j: int| 0 <= j < k.len() implies #[trigger] k[j] != '\n' && k[j] != ' ' by {}
    }
    assert(is_entry_key("rtp_port_max"@)) by {
        let k = "rtp_port_max"@;
        assert forall|j: int| 0 <= j < k.len() implies #[trigger] k[j] != '\n' && k[j] != ' ' by {}
    }
}

pub proof fn lemma_keys_middle()
    ensures
        is_entry_key("bind_addr"@),
        is_entry_key("bind_port"@),
        is_entry_key("remote_host"@),
        is_entry_key("remote_port"@),
        is_entry_key("outbound_proxy_host"@),
        is_entry_key("outbound_proxy_port"@),
        is_entry_key("contact_host"@),
        is_entry_key("from_domain"@),
        is_entry_key("local_user"@),
{
    reveal_strlit("bind_addr");
    reveal_strlit("bind_port");
    reveal_strlit("remote_host");
    reveal_strlit("remote_port");
    reveal_strlit("outbound_proxy_host");
    reveal_strlit("outbound_proxy_port");
    reveal_strlit("contact_host");
    reveal_strlit("from_domain");
    reveal_strlit("local_user");
    assert(is_entry_key("bind_addr"@)) by {
        let k = "bind_addr"@;
        assert forall|j: int| 0 <= j < k.len() implies #[trigger] k[j] != '\n' && k[j] != ' ' by {}
    }
    assert(is_entry_key("bind_port"@)) by {
        let k = "bind_port"@;
        assert forall|j: int| 0 <= j < k.len() implies #[trigger] k[j] != '\n' && k[j] != ' ' by {}
    }
    assert(is_entry_key("remote_host"@)) by {
        let k = "remote_host"@;
        assert forall|j: int| 0 <= j < k.len() implies #[trigger] k[j] != '\n' && k[j] != ' ' by {}
    }
    assert(is_entry_key("remote_port"@)) by {
        let k = "remote_port"@;
        assert forall|j: int| 0 <= j < k.len() implies #[trigger] k[j] != '\n' && k[j] != ' ' by {}
    }
    assert(is_entry_key("outbound_proxy_host"@)) by {
        let k = "outbound_proxy_host"@;
        assert forall|j: int| 0 <= j < k.len() implies #[trigger] k[j] != '\n' && k[j] != ' ' by {}
    }
    assert(is_entry_key("outbound_proxy_port"@)) by {
        let k = "outbound_proxy_port"@;
        assert forall|j: int| 0 <= j < k.len() implies #[trigger] k[j] != '\n' && k[j] != ' ' by {}
    }
    assert(is_entry_key("contact_host"@)) by {
        let k = "contact_host"@;
        assert forall|j: int| 0 <= j < k.len() implies #[trigger] k[j] != '\n' && k[j] != ' ' by {}
    }
    assert(is_entry_key("from_domain"@)) by {
        let k = "from_domain"@;
        assert forall|j: int| 0 <= j < k.len() implies #[trigger] k[j] != '\n' && k[j] != ' ' by {}
    }
    assert(is_entry_key("local_user"@)) by {
        let k = "local_user"@;
        assert forall|j: int| 0 <= j < k.len() implies #[trigger] k[j] != '\n' && k[j] != ' ' by {}
    }
}

pub proof fn lemma_keys_last()
    ensures
        is_entry_key("auth_user"@),
        is_entry_key("password"@),
        is_entry_key("realm"@),
        is_entry_key("options_interval_secs"@),
        is_entry_key("ptime_ms"@),
        is_entry_key("dl_jitter_ms"@),
        is_entry_key("allow_from"@),
        is_entry_key("max_pending_dialogs"@),
        is_entry_key("max_invites_per_minute"@),
{
    reveal_strlit("auth_user");
    reveal_strlit("password");
    reveal_strlit("realm");
    reveal_strlit("options_interval_secs");
    reveal_strlit("ptime_ms");
    reveal_strlit("dl_jitter_ms");
    reveal_strlit("allow_from");
    reveal_strlit("max_pending_dialogs");
    reveal_strlit("max_invites_per_minute");
    assert(is_entry_key("auth_user"@)) by {
        let k = "auth_user"@;
        assert forall|j: int| 0 <= j < k.len() implies #[trigger] k[j] != '\n' && k[j] != ' ' by {}
    }
    assert(is_entry_key("password"@)) by {
        let k = "password"@;
        assert forall|j: int| 0 <= j < k.len() implies #[trigger] k[j] != '\n' && k[j] != ' ' by {}
    }
    assert(is_entry_key("realm"@)) by {
        let k = "realm"@;
        assert forall|j: int| 0 <= j < k.len() implies #[trigger] k[j] != '\n' && k[j] != ' ' by {}
    }
    assert(is_entry_key("options_interval_secs"@)) by {
        let k = "options_interval_secs"@;
        assert forall|j: int| 0 <= j < k.len() implies #[trigger] k[j] != '\n' && k[j] != ' ' by {}
    }
    assert(is_entry_key("ptime_ms"@)) by {
        let k = "ptime_ms"@;
        assert forall|j: int| 0 <= j < k.len() implies #[trigger] k[j] != '\n' && k[j] != ' ' by {}
    }
    assert(is_entry_key("dl_jitter_ms"@)) by {
        let k = "dl_jitter_ms"@;
        assert forall|j: int| 0 <= j < k.len() implies #[trigger] k[j] != '\n' && k[j] != ' ' by {}
    }
    assert(is_entry_key("allow_from"@)) by {
        let k = "allow_from"@;
        assert forall|j: int| 0 <= j < k.len() implies #[trigger] k[j] != '\n' && k[j] != ' ' by {}
    }
    assert(is_entry_key("max_pending_dialogs"@)) by {
        let k = "max_pending_dialogs"@;
        assert forall|j: int| 0 <= j < k.len() implies #[trigger] k[j] != '\n' && k[j] != ' ' by {}
    }
    assert(is_entry_key("max_invites_per_minute"@)) by {
        let k = "max_invites_per_minute"@;
        assert forall|j: int| 0 <= j < k.len() implies #[trigger] k[j] != '\n' && k[j] != ' ' by {}
    }
}

/// The section that `asterisk_section` renders is a section block when no
/// string of the configuration spans lines.
#[verifier::rlimit(100)]
pub proof fn lemma_section_text_is_block(cfg: CfgAsterisk)
    requires
        has_single_line_strings(cfg),
    ensures
        is_section_block(section_text(cfg)),
{
    lemma_bool_single_line(true);
    lemma_bool_single_line(false);
    lemma_keys_first();
    lemma_keys_middle();
    lemma_keys_last();
    lemma_header_is_block();
    let before_enabled = "[asterisk]"@;
    lemma_block_entry(before_enabled, "enabled"@, bool_text(cfg.enabled));
    let before_outbound_prefix = before_enabled + entry("enabled"@, bool_text(cfg.enabled));
    lemma_quoted_single_line(cfg.outbound_prefix@);
    lemma_block_entry(before_outbound_prefix, "outbound_prefix"@, quoted(cfg.outbound_prefix@));
    let before_strip_outbound_prefix = before_outbound_prefix + entry("outbound_prefix"@, quoted(cfg.outbound_prefix@));
    lemma_block_entry(before_strip_outbound_prefix, "strip_outbound_prefix"@, bool_text(cfg.strip_outbound_prefix));
    let before_inbound_prefix = before_strip_outbound_prefix + entry("strip_outbound_prefix"@, bool_text(cfg.strip_outbound_prefix));
    lemma_quoted_single_line(cfg.inbound_prefix@);
    lemma_block_entry(before_inbound_prefix, "inbound_prefix"@, quoted(cfg.inbound_prefix@));
    let before_register = before_inbound_prefix + entry("inbound_prefix"@, quoted(cfg.inbound_prefix@));
    lemma_block_entry(before_register, "register"@, bool_text(cfg.register));
    let before_codec = before_register + entry("register"@, bool_text(cfg.register));
    lemma_quoted_single_line(cfg.codec@);
    lemma_block_entry(before_codec, "codec"@, quoted(cfg.codec@));
    let before_service_numbers = before_codec + entry("codec"@, quoted(cfg.codec@));
    lemma_array_single_line(cfg.service_numbers.deep_view());
    lemma_block_entry(before_service_numbers, "service_numbers"@, string_array(cfg.service_numbers.deep_view()));
    let before_rtp_port_min = before_service_numbers + entry("service_numbers"@, string_array(cfg.service_numbers.deep_view()));
    lemma_decimal_single_line(cfg.rtp_port_min as nat);
    lemma_block_entry(before_rtp_port_min, "rtp_port_min"@, decimal(cfg.rtp_port_min as nat));
    let before_rtp_port_max = before_rtp_port_min + entry("rtp_port_min"@, decimal(cfg.rtp_port_min as nat));
    lemma_decimal_single_line(cfg.rtp_port_max as nat);
    lemma_block_entry(before_rtp_port_max, "rtp_port_max"@, decimal(cfg.rtp_port_max as nat));
    let before_bind_addr = before_rtp_port_max + entry("rtp_port_max"@, decimal(cfg.rtp_port_max as nat));
    lemma_quoted_single_line(cfg.bind_addr@);
    lemma_block_entry(before_bind_addr, "bind_addr"@, quoted(cfg.bind_addr@));
    let before_bind_port = before_bind_addr + entry("bind_addr"@, quoted(cfg.bind_addr@));
    lemma_decimal_single_line(cfg.bind_port as nat);
    lemma_block_entry(before_bind_port, "bind_port"@, decimal(cfg.bind_port as nat));
    let before_remote_host = before_bind_port + entry("bind_port"@, decimal(cfg.bind_port as nat));
    lemma_quoted_single_line(cfg.remote_host@);
    lemma_block_entry(before_remote_host, "remote_host"@, quoted(cfg.remote_host@));
    let before_remote_port = before_remote_host + entry("remote_host"@, quoted(cfg.remote_host@));
    lemma_decimal_single_line(cfg.remote_port as nat);
    lemma_block_entry(before_remote_port, "remote_port"@, decimal(cfg.remote_port as nat));
    let before_outbound_proxy_host = before_remote_port + entry("remote_port"@, decimal(cfg.remote_port as nat));
    lemma_quoted_single_line(cfg.outbound_proxy_host@);
    lemma_block_entry(before_outbound_proxy_host, "outbound_proxy_host"@, quoted(cfg.outbound_proxy_host@));
    let before_outbound_proxy_port = before_outbound_proxy_host + entry("outbound_proxy_host"@, quoted(cfg.outbound_proxy_host@));
    lemma_decimal_single_line(cfg.outbound_proxy_port as nat);
    lemma_block_entry(before_outbound_proxy_port, "outbound_proxy_port"@, decimal(cfg.outbound_proxy_port as nat));
    let before_contact_host = before_outbound_proxy_port + entry("outbound_proxy_port"@, decimal(cfg.outbound_proxy_port as nat));
    lemma_quoted_single_line(cfg.contact_host@);
    lemma_block_entry(before_contact_host, "contact_host"@, quoted(cfg.contact_host@));
    let before_from_domain = before_contact_host + entry("contact_host"@, quoted(cfg.contact_host@));
    lemma_quoted_single_line(cfg.from_domain@);
    lemma_block_entry(before_from_domain, "from_domain"@, quoted(cfg.from_domain@));
    let before_local_user = before_from_domain + entry("from_domain"@, quoted(cfg.from_domain@));
    lemma_quoted_single_line(cfg.local_user@);
    lemma_block_entry(before_local_user, "local_user"@, quoted(cfg.local_user@));
    let before_auth_user = before_local_user + entry("local_user"@, quoted(cfg.local_user@));
    lemma_quoted_single_line(cfg.auth_user@);
    lemma_block_entry(before_auth_user, "auth_user"@, quoted(cfg.auth_user@));
    let before_password = before_auth_user + entry("auth_user"@, quoted(cfg.auth_user@));
    lemma_quoted_single_line(cfg.password@);
    lemma_block_entry(before_password, "password"@, quoted(cfg.password@));
    let before_realm = before_password + entry("password"@, quoted(cfg.password@));
    lemma_quoted_single_line(cfg.realm@);
    lemma_block_entry(before_realm, "realm"@, quoted(cfg.realm@));
    let before_options_interval_secs = before_realm + entry("realm"@, quoted(cfg.realm@));
    lemma_decimal_single_line(cfg.options_interval_secs as nat);
    lemma_block_entry(before_options_interval_secs, "options_interval_secs"@, decimal(cfg.options_interval_secs as nat));
    let before_ptime_ms = before_options_interval_secs + entry("options_interval_secs"@, decimal(cfg.options_interval_secs as nat));
    lemma_decimal_single_line(cfg.ptime_ms as nat);
    lemma_block_entry(before_ptime_ms, "ptime_ms"@, decimal(cfg.ptime_ms as nat));
    let before_dl_jitter_ms = before_ptime_ms + entry("ptime_ms"@, decimal(cfg.ptime_ms as nat));
    lemma_decimal_single_line(cfg.dl_jitter_ms as nat);
    lemma_block_entry(before_dl_jitter_ms, "dl_jitter_ms"@, decimal(cfg.dl_jitter_ms as nat));
    let before_allow_from = before_dl_jitter_ms + entry("dl_jitter_ms"@, decimal(cfg.dl_jitter_ms as nat));
    lemma_array_single_line(cfg.allow_from.deep_view());
    lemma_block_entry(before_allow_from, "allow_from"@, string_array(cfg.allow_from.deep_view()));
    let before_max_pending_dialogs = before_allow_from + entry("allow_from"@, string_array(cfg.allow_from.deep_view()));
    lemma_decimal_single_line(cfg.max_pending_dialogs as nat);
    lemma_block_entry(before_max_pending_dialogs, "max_pending_dialogs"@, decimal(cfg.max_pending_dialogs as nat));
    let before_max_invites_per_minute = before_max_pending_dialogs + entry("max_pending_dialogs"@, decimal(cfg.max_pending_dialogs as nat));
    lemma_decimal_single_line(cfg.max_invites_per_minute as nat);
    lemma_block_entry(before_max_invites_per_minute, "max_invites_per_minute"@, decimal(cfg.max_invites_per_minute as nat));
    assert(section_text(cfg) == before_max_invites_per_minute + entry("max_invites_per_minute"@, decimal(cfg.max_invites_per_minute as nat)));
}

/// Law: saving the same configuration twice gives the same text as saving
/// it once, for every configuration none of whose strings spans lines and
/// every configuration text whose kept lines keep no final carriage return
/// that reading the text back would drop.
pub proof fn lemma_saving_twice_is_saving_once(original: Seq<char>, cfg: CfgAsterisk)
    requires
        has_single_line_strings(cfg),
        kept_lines_end_clean(original, section_text(cfg)),
    ensures
        rewritten(rewritten(original, section_text(cfg)), section_text(cfg)) == rewritten(
            original,
            section_text(cfg),
        ),
{
    lemma_section_text_is_block(cfg);
    lemma_rewrite_idempotent(original, section_text(cfg));
}

/// `dir` joined with the relative name `name`, as `Path::join` does on Unix:
/// a `/` goes between them unless `dir` is empty or already ends with one.
pub open spec fn path_join(dir: Seq<char>, name: Seq<char>) -> Seq<char> {
    if dir.len() == 0 || dir.last() == '/' {
        dir + name
    } else {
        dir + seq!['/'] + name
    }
}

/// Law: joining puts `name` inside `dir`. The path starts with `dir` and
/// ends with `name`; when `dir` is not empty a `/` stands right before
/// `name`, and it is added exactly when `dir` does not already end with one,
/// whether `dir` is absolute or relative.
pub proof fn lemma_join_inside(dir: Seq<char>, name: Seq<char>)
    ensures
        path_join(dir, name).subrange(0, dir.len() as int) == dir,
        path_join(dir, name).subrange(
            path_join(dir, name).len() - name.len(),
            path_join(dir, name).len() as int,
        ) == name,
        dir.len() > 0 ==> path_join(dir, name)[path_join(dir, name).len() - name.len() - 1] == '/',
        dir.len() > 0 && dir[dir.len() - 1] != '/' ==> path_join(dir, name) == dir + "/"@ + name,
        path_join(dir, name).len() == dir.len() + name.len() + if dir.len() > 0 && dir[dir.len()
            - 1] != '/' {
            1int
        } else {
            0int
        },
{
    reveal_strlit("/");
    let p = path_join(dir, name);
    assert(p.subrange(0, dir.len() as int) =~= dir);
    assert(p.subrange(p.len() - name.len(), p.len() as int) =~= name);
    if dir.len() > 0 && dir[dir.len() - 1] != '/' {
        assert("/"@ =~= seq!['/']);
    }
}

/// Where the SIP install marker lives in the source tree `src_dir`.
pub fn sip_client_marker_path(src_dir: &str) -> (r: String)
    ensures
        r@ == path_join(src_dir@, SIP_CLIENT_MARKER@),
{
    let dir = chars_of(src_dir);
    let mut r = String::new();
    r.append(src_dir);
    if dir.len() > 0 && dir[dir.len() - 1] != '/' {
        push_char(&mut r, '/');
    }
    r.append(SIP_CLIENT_MARKER);
    r
}

/// Whether a later `cargo build --release` must keep `--features asterisk`,
/// given whether this running binary was built with that feature
/// (`compiled_in`) and whether the install marker is a file in the source
/// tree (`marker_is_file`).
///
/// Uses the marker written by a successful Install, or the fact that *this*
/// running binary already has the feature. Config `enabled = true` alone is
/// not enough — that would make a later OTA fail on a machine without tetra-codec.
pub fn sip_client_should_build(compiled_in: bool, marker_is_file: bool) -> (r: bool)
    ensures
        r == (compiled_in || marker_is_file),
{
    compiled_in || marker_is_file
}

} // verus!
