//! Reading a saved `[asterisk]` section back: the value on the line of each
//! key, and what a TOML reader makes of it as a boolean, a number, a basic
//! string or an array of basic strings.

use vstd::prelude::*;

use crate::asterisk::{
    entry, escaped_char, has_single_line_strings, is_entry_key, is_single_line,
    lemma_array_single_line, lemma_bool_single_line, lemma_decimal_digits,
    lemma_decimal_single_line, lemma_escaped_front, lemma_keys_first, lemma_keys_last,
    lemma_keys_middle, lemma_quoted_single_line, quoted, section_text, string_array, string_list,
    toml_escaped,
};
use crate::lines::{lemma_split_nl_cat, lemma_split_nl_single, no_char, split_nl};
use crate::sec_asterisk::CfgAsterisk;
use crate::text::{bool_text, decimal, digit_char, starts_with};

verus! {

/// `v` as a TOML boolean.
pub open spec fn read_bool(v: Seq<char>) -> Option<bool> {
    if v == "true"@ {
        Some(true)
    } else if v == "false"@ {
        Some(false)
    } else {
        None
    }
}

/// `c` is one of the digits `0` to `9`.
pub open spec fn is_digit(c: char) -> bool {
    48 <= c as u32 <= 57
}

/// The number that the digits `v` write in base ten.
pub open spec fn digits_value(v: Seq<char>) -> nat
    decreases v.len(),
{
    if v.len() == 0 {
        0
    } else {
        digits_value(v.drop_last()) * 10 + (v.last() as u32 - 48) as nat
    }
}

/// `v` as a TOML integer that is not negative: one digit or more.
pub open spec fn read_number(v: Seq<char>) -> Option<nat> {
    if v.len() > 0 && forall|j: int| 0 <= j < v.len() ==> is_digit(#[trigger] v[j]) {
        Some(digits_value(v))
    } else {
        None
    }
}

/// Reads the inside of a TOML basic string from its start up to the quote
/// that closes it, where a backslash stands for the character after it:
/// the characters read and what follows the closing quote, or `None` when
/// no quote closes it.
pub open spec fn read_quoted(e: Seq<char>) -> Option<(Seq<char>, Seq<char>)>
    decreases e.len(),
{
    if e.len() == 0 {
        None
    } else if e[0] == '"' {
        Some((Seq::empty(), e.subrange(1, e.len() as int)))
    } else if e[0] == '\\' && e.len() >= 2 {
        match read_quoted(e.subrange(2, e.len() as int)) {
            Some((s, r)) => Some((seq![e[1]] + s, r)),
            None => None,
        }
    } else {
        match read_quoted(e.subrange(1, e.len() as int)) {
            Some((s, r)) => Some((seq![e[0]] + s, r)),
            None => None,
        }
    }
}

/// What follows a closing quote is shorter than the text read.
pub proof fn lemma_read_quoted_shorter(e: Seq<char>)
    ensures
        read_quoted(e) matches Some((s, r)) ==> r.len() < e.len(),
    decreases e.len(),
{
    if e.len() > 0 && e[0] != '"' {
        if e[0] == '\\' && e.len() >= 2 {
            lemma_read_quoted_shorter(e.subrange(2, e.len() as int));
        } else {
            lemma_read_quoted_shorter(e.subrange(1, e.len() as int));
        }
    }
}

/// `v` as a TOML basic string: a quote, the inside, the closing quote, and
/// nothing after it.
pub open spec fn read_string(v: Seq<char>) -> Option<Seq<char>> {
    if v.len() > 0 && v[0] == '"' {
        match read_quoted(v.subrange(1, v.len() as int)) {
            Some((s, r)) => if r.len() == 0 {
                Some(s)
            } else {
                None
            },
            None => None,
        }
    } else {
        None
    }
}

/// The inside `e` of a TOML array of basic strings separated by `", "`.
pub open spec fn read_items(e: Seq<char>) -> Option<Seq<Seq<char>>>
    decreases e.len(),
{
    if e.len() == 0 {
        Some(Seq::empty())
    } else if e[0] == '"' {
        match read_quoted(e.subrange(1, e.len() as int)) {
            Some((s, r)) => if r.len() == 0 {
                Some(seq![s])
            } else if r.len() >= 2 && r[0] == ',' && r[1] == ' ' {
                proof {
                    lemma_read_quoted_shorter(e.subrange(1, e.len() as int));
                }
                match read_items(r.subrange(2, r.len() as int)) {
                    Some(rest) => if rest.len() > 0 {
                        Some(seq![s] + rest)
                    } else {
                        None
                    },
                    None => None,
                }
            } else {
                None
            },
            None => None,
        }
    } else {
        None
    }
}

/// `v` as a TOML array of basic strings: `[`, the items, `]`.
pub open spec fn read_list(v: Seq<char>) -> Option<Seq<Seq<char>>> {
    if v.len() >= 2 && v[0] == '[' && v.last() == ']' {
        read_items(v.subrange(1, v.len() - 1))
    } else {
        None
    }
}

/// The digits of a decimal number read back as the number.
pub proof fn lemma_read_decimal(n: nat)
    ensures
        read_number(decimal(n)) == Some(n),
    decreases n,
{
    lemma_decimal_digits(n);
    let d = decimal(n);
    assert forall|j: int| 0 <= j < d.len() implies is_digit(#[trigger] d[j]) by {
        assert(48 <= d[j] as u32 <= 57);
    }
    let last = (n % 10) as int;
    assert(digit_char(last) as u32 == 48 + last);
    assert(d.last() == digit_char(last));
    if n >= 10 {
        lemma_read_decimal(n / 10);
        assert(d.drop_last() =~= decimal(n / 10));
        assert(digits_value(d) == digits_value(decimal(n / 10)) * 10 + last);
        assert((n / 10) * 10 + n % 10 == n);
    } else {
        assert(d.drop_last() =~= Seq::<char>::empty());
        assert(digits_value(d) == digits_value(Seq::<char>::empty()) * 10 + last);
    }
}

/// Escaped text followed by a closing quote is read back as the text, with
/// what follows the quote left over.
pub proof fn lemma_read_escaped(x: Seq<char>, t: Seq<char>)
    ensures
        read_quoted(toml_escaped(x) + seq!['"'] + t) == Some((x, t)),
    decreases x.len(),
{
    if x.len() == 0 {
        let e = toml_escaped(x) + seq!['"'] + t;
        assert(toml_escaped(x) =~= Seq::<char>::empty());
        assert(e.subrange(1, e.len() as int) =~= t);
    } else {
        let c = x[0];
        let y = x.subrange(1, x.len() as int);
        assert(x =~= seq![c] + y);
        lemma_escaped_front(c, y);
        lemma_read_escaped(y, t);
        let e = toml_escaped(x) + seq!['"'] + t;
        let k = escaped_char(c).len() as int;
        assert(e =~= escaped_char(c) + (toml_escaped(y) + seq!['"'] + t));
        assert(e.subrange(k, e.len() as int) =~= toml_escaped(y) + seq!['"'] + t);
        assert(e[0] == escaped_char(c)[0]);
        if k == 2 {
            assert(e[1] == c);
        }
        assert(seq![c] + y =~= x);
    }
}

/// A quoted text is read back as the text.
pub proof fn lemma_read_quoted_text(s: Seq<char>)
    ensures
        read_string(quoted(s)) == Some(s),
{
    let q = quoted(s);
    lemma_read_escaped(s, Seq::empty());
    assert(q.subrange(1, q.len() as int) =~= toml_escaped(s) + seq!['"'] + Seq::<char>::empty());
}

/// The quoted list of two items or more starts with its first item.
pub proof fn lemma_string_list_front(items: Seq<Seq<char>>)
    requires
        items.len() >= 2,
    ensures
        string_list(items) == quoted(items[0]) + ", "@ + string_list(
            items.subrange(1, items.len() as int),
        ),
    decreases items.len(),
{
    let rest = items.subrange(1, items.len() as int);
    if items.len() == 2 {
        assert(items.drop_last() =~= seq![items[0]]);
        assert(rest =~= seq![items[1]]);
        assert(string_list(seq![items[0]]) == quoted(items[0]));
        assert(string_list(seq![items[1]]) == quoted(items[1]));
        assert(items.last() == items[1]);
    } else {
        let d = items.drop_last();
        lemma_string_list_front(d);
        assert(d.subrange(1, d.len() as int) =~= rest.drop_last());
        assert(rest.last() == items.last());
        assert(d[0] == items[0]);
        assert(string_list(rest) == string_list(rest.drop_last()) + ", "@ + quoted(rest.last()));
        assert(string_list(items) =~= quoted(items[0]) + ", "@ + string_list(rest));
    }
}

/// The items of a quoted list are read back as they were.
pub proof fn lemma_read_items_list(items: Seq<Seq<char>>)
    ensures
        read_items(string_list(items)) == Some(items),
    decreases items.len(),
{
    reveal_strlit(", ");
    if items.len() == 1 {
        let e = string_list(items);
        lemma_read_escaped(items[0], Seq::empty());
        assert(e.subrange(1, e.len() as int) =~= toml_escaped(items[0]) + seq!['"']
            + Seq::<char>::empty());
        assert(seq![items[0]] =~= items);
    } else if items.len() >= 2 {
        let rest = items.subrange(1, items.len() as int);
        lemma_string_list_front(items);
        lemma_read_items_list(rest);
        let tail = ", "@ + string_list(rest);
        let e = string_list(items);
        lemma_read_escaped(items[0], tail);
        assert(e.subrange(1, e.len() as int) =~= toml_escaped(items[0]) + seq!['"'] + tail);
        assert(tail.subrange(2, tail.len() as int) =~= string_list(rest));
        assert(seq![items[0]] + rest =~= items);
    } else {
        assert(string_list(items) =~= Seq::<char>::empty());
    }
}

/// A TOML array of quoted items is read back as the items.
pub proof fn lemma_read_array(items: Seq<Seq<char>>)
    ensures
        read_list(string_array(items)) == Some(items),
{
    let a = string_array(items);
    lemma_read_items_list(items);
    assert(a.subrange(1, a.len() - 1) =~= string_list(items));
}

/// The characters of the line `l` before its first space, or all of `l`
/// when it holds none.
pub open spec fn key_of(l: Seq<char>) -> Seq<char>
    decreases l.len(),
{
    if l.len() == 0 || l[0] == ' ' {
        Seq::empty()
    } else {
        seq![l[0]] + key_of(l.subrange(1, l.len() as int))
    }
}

/// The value on the line `l` when it reads `key = value`.
pub open spec fn line_value(l: Seq<char>, key: Seq<char>) -> Option<Seq<char>> {
    if key_of(l) == key && starts_with(l.subrange(key.len() as int, l.len() as int), " = "@) {
        Some(l.subrange(key.len() as int + 3, l.len() as int))
    } else {
        None
    }
}

/// The value on the first of the lines `ls` that reads `key = value`.
pub open spec fn value_of(ls: Seq<Seq<char>>, key: Seq<char>) -> Option<Seq<char>>
    decreases ls.len(),
{
    if ls.len() == 0 {
        None
    } else {
        match line_value(ls[0], key) {
            Some(v) => Some(v),
            None => value_of(ls.drop_first(), key),
        }
    }
}

/// The value that a reader of the section `text` finds for `key`.
pub open spec fn section_value(text: Seq<char>, key: Seq<char>) -> Option<Seq<char>> {
    value_of(split_nl(text), key)
}

/// The boolean that a reader of the section `text` finds for `key`.
pub open spec fn bool_field(text: Seq<char>, key: Seq<char>) -> Option<bool> {
    match section_value(text, key) {
        Some(v) => read_bool(v),
        None => None,
    }
}

/// The number that a reader of the section `text` finds for `key`.
pub open spec fn number_field(text: Seq<char>, key: Seq<char>) -> Option<nat> {
    match section_value(text, key) {
        Some(v) => read_number(v),
        None => None,
    }
}

/// The string that a reader of the section `text` finds for `key`.
pub open spec fn string_field(text: Seq<char>, key: Seq<char>) -> Option<Seq<char>> {
    match section_value(text, key) {
        Some(v) => read_string(v),
        None => None,
    }
}

/// The list of strings that a reader of the section `text` finds for `key`.
pub open spec fn list_field(text: Seq<char>, key: Seq<char>) -> Option<Seq<Seq<char>>> {
    match section_value(text, key) {
        Some(v) => read_list(v),
        None => None,
    }
}

/// A key without spaces, followed by a space or nothing, is the key of the
/// line.
pub proof fn lemma_key_of_prefix(k: Seq<char>, rest: Seq<char>)
    requires
        no_char(k, ' '),
        rest.len() == 0 || rest[0] == ' ',
    ensures
        key_of(k + rest) == k,
    decreases k.len(),
{
    let l = k + rest;
    if k.len() == 0 {
        assert(l =~= rest);
    } else {
        let k1 = k.subrange(1, k.len() as int);
        assert(no_char(k1, ' ')) by {
            assert forall|j: int| 0 <= j < k1.len() implies #[trigger] k1[j] != ' ' by {
                assert(k1[j] == k[j + 1]);
            }
        }
        lemma_key_of_prefix(k1, rest);
        assert(l.subrange(1, l.len() as int) =~= k1 + rest);
        assert(l[0] == k[0]);
        assert(seq![k[0]] + k1 =~= k);
    }
}

/// The line `k = v` gives `v` for the key `k` and nothing for any other.
pub proof fn lemma_line_value_entry(k: Seq<char>, v: Seq<char>)
    requires
        no_char(k, ' '),
    ensures
        forall|key: Seq<char>|
            #[trigger] line_value(k + " = "@ + v, key) == if key == k {
                Some(v)
            } else {
                None
            },
{
    reveal_strlit(" = ");
    let l = k + " = "@ + v;
    let rest = " = "@ + v;
    assert(l =~= k + rest);
    lemma_key_of_prefix(k, rest);
    assert(l.subrange(k.len() as int, l.len() as int) =~= rest);
    assert(rest.take(3) =~= " = "@);
    assert(l.subrange(k.len() as int + 3, l.len() as int) =~= v);
}

/// Adding a line at the end leaves the value found for a key that an
/// earlier line gives.
pub proof fn lemma_value_of_push(ls: Seq<Seq<char>>, l: Seq<char>)
    ensures
        forall|key: Seq<char>|
            #[trigger] value_of(ls.push(l), key) == match value_of(ls, key) {
                Some(v) => Some(v),
                None => line_value(l, key),
            },
    decreases ls.len(),
{
    let p = ls.push(l);
    if ls.len() == 0 {
        assert(p.drop_first() =~= Seq::<Seq<char>>::empty());
        assert(p[0] == l);
        assert forall|key: Seq<char>|
            #[trigger] value_of(p, key) == match value_of(ls, key) {
                Some(v) => Some(v),
                None => line_value(l, key),
            } by {
            assert(value_of(ls, key) is None);
            assert(value_of(p.drop_first(), key) is None);
        }
    } else {
        lemma_value_of_push(ls.drop_first(), l);
        assert(p.drop_first() =~= ls.drop_first().push(l));
        assert(p[0] == ls[0]);
        assert forall|key: Seq<char>|
            #[trigger] value_of(p, key) == match value_of(ls, key) {
                Some(v) => Some(v),
                None => line_value(l, key),
            } by {
            assert(value_of(p.drop_first(), key) == value_of(ls.drop_first().push(l), key));
        }
    }
}

/// A section followed by the line `k = v`: the keys it gave keep their
/// values, and `k`, when it gave none, now gives `v`.
pub proof fn lemma_section_value_entry(t: Seq<char>, k: Seq<char>, v: Seq<char>)
    requires
        is_entry_key(k),
        is_single_line(v),
    ensures
        forall|key: Seq<char>|
            #[trigger] section_value(t + entry(k, v), key) == match section_value(t, key) {
                Some(w) => Some(w),
                None => if key == k {
                    Some(v)
                } else {
                    None
                },
            },
{
    reveal_strlit(" = ");
    let l = k + " = "@ + v;
    assert(t + entry(k, v) =~= t + seq!['\n'] + l);
    assert(no_char(l, '\n')) by {
        assert forall|j: int| 0 <= j < l.len() implies #[trigger] l[j] != '\n' by {
            if j < k.len() {
                assert(l[j] == k[j]);
            } else if j >= k.len() + 3 {
                assert(l[j] == v[j - k.len() - 3]);
            }
        }
    }
    lemma_split_nl_cat(t, l);
    lemma_split_nl_single(l);
    assert(split_nl(t + entry(k, v)) =~= split_nl(t).push(l));
    lemma_value_of_push(split_nl(t), l);
    lemma_line_value_entry(k, v);
}

/// The bare `[asterisk]` header gives no value for any key but itself.
pub proof fn lemma_header_values()
    ensures
        forall|key: Seq<char>|
            key != "[asterisk]"@ ==> #[trigger] section_value("[asterisk]"@, key) is None,
{
    reveal_strlit("[asterisk]");
    let h = "[asterisk]"@;
    assert(no_char(h, '\n'));
    assert(no_char(h, ' '));
    lemma_split_nl_single(h);
    lemma_key_of_prefix(h, Seq::empty());
    assert(h + Seq::<char>::empty() =~= h);
    let ls = seq![h];
    assert(ls.drop_first() =~= Seq::<Seq<char>>::empty());
    assert forall|key: Seq<char>|
        key != "[asterisk]"@ implies #[trigger] section_value("[asterisk]"@, key) is None by {
        assert(line_value(ls[0], key) is None);
        assert(value_of(ls.drop_first(), key) is None);
    }
}

/// The keys of the section that have the same length differ, each pair at
/// the place named.
pub proof fn lemma_keys_differ()
    ensures
        "outbound_prefix"@ != "service_numbers"@,
        "strip_outbound_prefix"@ != "options_interval_secs"@,
        "register"@ != "password"@,
        "register"@ != "ptime_ms"@,
        "codec"@ != "realm"@,
        "rtp_port_min"@ != "rtp_port_max"@,
        "rtp_port_min"@ != "contact_host"@,
        "rtp_port_min"@ != "dl_jitter_ms"@,
        "rtp_port_max"@ != "contact_host"@,
        "rtp_port_max"@ != "dl_jitter_ms"@,
        "bind_addr"@ != "bind_port"@,
        "bind_addr"@ != "auth_user"@,
        "bind_port"@ != "auth_user"@,
        "remote_host"@ != "remote_port"@,
        "remote_host"@ != "from_domain"@,
        "remote_port"@ != "from_domain"@,
        "outbound_proxy_host"@ != "outbound_proxy_port"@,
        "outbound_proxy_host"@ != "max_pending_dialogs"@,
        "outbound_proxy_port"@ != "max_pending_dialogs"@,
        "contact_host"@ != "dl_jitter_ms"@,
        "local_user"@ != "allow_from"@,
        "password"@ != "ptime_ms"@,
{
    reveal_strlit("allow_from");
    reveal_strlit("auth_user");
    reveal_strlit("bind_addr");
    reveal_strlit("bind_port");
    reveal_strlit("codec");
    reveal_strlit("contact_host");
    reveal_strlit("dl_jitter_ms");
    reveal_strlit("from_domain");
    reveal_strlit("local_user");
    reveal_strlit("max_pending_dialogs");
    reveal_strlit("options_interval_secs");
    reveal_strlit("outbound_prefix");
    reveal_strlit("outbound_proxy_host");
    reveal_strlit("outbound_proxy_port");
    reveal_strlit("password");
    reveal_strlit("ptime_ms");
    reveal_strlit("realm");
    reveal_strlit("register");
    reveal_strlit("remote_host");
    reveal_strlit("remote_port");
    reveal_strlit("rtp_port_max");
    reveal_strlit("rtp_port_min");
    reveal_strlit("service_numbers");
    reveal_strlit("strip_outbound_prefix");
    assert("outbound_prefix"@[0] != "service_numbers"@[0]);
    assert("strip_outbound_prefix"@[0] != "options_interval_secs"@[0]);
    assert("register"@[0] != "password"@[0]);
    assert("register"@[0] != "ptime_ms"@[0]);
    assert("codec"@[0] != "realm"@[0]);
    assert("rtp_port_min"@[10] != "rtp_port_max"@[10]);
    assert("rtp_port_min"@[0] != "contact_host"@[0]);
    assert("rtp_port_min"@[0] != "dl_jitter_ms"@[0]);
    assert("rtp_port_max"@[0] != "contact_host"@[0]);
    assert("rtp_port_max"@[0] != "dl_jitter_ms"@[0]);
    assert("bind_addr"@[5] != "bind_port"@[5]);
    assert("bind_addr"@[0] != "auth_user"@[0]);
    assert("bind_port"@[0] != "auth_user"@[0]);
    assert("remote_host"@[7] != "remote_port"@[7]);
    assert("remote_host"@[0] != "from_domain"@[0]);
    assert("remote_port"@[0] != "from_domain"@[0]);
    assert("outbound_proxy_host"@[15] != "outbound_proxy_port"@[15]);
    assert("outbound_proxy_host"@[0] != "max_pending_dialogs"@[0]);
    assert("outbound_proxy_port"@[0] != "max_pending_dialogs"@[0]);
    assert("contact_host"@[0] != "dl_jitter_ms"@[0]);
    assert("local_user"@[0] != "allow_from"@[0]);
    assert("password"@[1] != "ptime_ms"@[1]);
}

/// Law: reading the saved section back gives every field of the
/// configuration: the line of each key holds the value of that same field,
/// as a boolean, a number, a string or a list of strings, for every
/// configuration none of whose strings spans lines.
#[verifier::rlimit(100)]
pub proof fn lemma_section_reads_back(cfg: CfgAsterisk)
    requires
        has_single_line_strings(cfg),
    ensures
        bool_field(section_text(cfg), "enabled"@) == Some(cfg.enabled),
        string_field(section_text(cfg), "outbound_prefix"@) == Some(cfg.outbound_prefix@),
        bool_field(section_text(cfg), "strip_outbound_prefix"@) == Some(cfg.strip_outbound_prefix),
        string_field(section_text(cfg), "inbound_prefix"@) == Some(cfg.inbound_prefix@),
        bool_field(section_text(cfg), "register"@) == Some(cfg.register),
        string_field(section_text(cfg), "codec"@) == Some(cfg.codec@),
        list_field(section_text(cfg), "service_numbers"@) == Some(cfg.service_numbers.deep_view()),
        number_field(section_text(cfg), "rtp_port_min"@) == Some(cfg.rtp_port_min as nat),
        number_field(section_text(cfg), "rtp_port_max"@) == Some(cfg.rtp_port_max as nat),
        string_field(section_text(cfg), "bind_addr"@) == Some(cfg.bind_addr@),
        number_field(section_text(cfg), "bind_port"@) == Some(cfg.bind_port as nat),
        string_field(section_text(cfg), "remote_host"@) == Some(cfg.remote_host@),
        number_field(section_text(cfg), "remote_port"@) == Some(cfg.remote_port as nat),
        string_field(section_text(cfg), "outbound_proxy_host"@) == Some(cfg.outbound_proxy_host@),
        number_field(section_text(cfg), "outbound_proxy_port"@) == Some(cfg.outbound_proxy_port as nat),
        string_field(section_text(cfg), "contact_host"@) == Some(cfg.contact_host@),
        string_field(section_text(cfg), "from_domain"@) == Some(cfg.from_domain@),
        string_field(section_text(cfg), "local_user"@) == Some(cfg.local_user@),
        string_field(section_text(cfg), "auth_user"@) == Some(cfg.auth_user@),
        string_field(section_text(cfg), "password"@) == Some(cfg.password@),
        string_field(section_text(cfg), "realm"@) == Some(cfg.realm@),
        number_field(section_text(cfg), "options_interval_secs"@) == Some(cfg.options_interval_secs as nat),
        number_field(section_text(cfg), "ptime_ms"@) == Some(cfg.ptime_ms as nat),
        number_field(section_text(cfg), "dl_jitter_ms"@) == Some(cfg.dl_jitter_ms as nat),
        list_field(section_text(cfg), "allow_from"@) == Some(cfg.allow_from.deep_view()),
        number_field(section_text(cfg), "max_pending_dialogs"@) == Some(cfg.max_pending_dialogs as nat),
        number_field(section_text(cfg), "max_invites_per_minute"@) == Some(cfg.max_invites_per_minute as nat),
{
    reveal_strlit("[asterisk]");
    reveal_strlit("enabled");
    reveal_strlit("outbound_prefix");
    reveal_strlit("strip_outbound_prefix");
    reveal_strlit("inbound_prefix");
    reveal_strlit("register");
    reveal_strlit("codec");
    reveal_strlit("service_numbers");
    reveal_strlit("rtp_port_min");
    reveal_strlit("rtp_port_max");
    reveal_strlit("bind_addr");
    reveal_strlit("bind_port");
    reveal_strlit("remote_host");
    reveal_strlit("remote_port");
    reveal_strlit("outbound_proxy_host");
    reveal_strlit("outbound_proxy_port");
    reveal_strlit("contact_host");
    reveal_strlit("from_domain");
    reveal_strlit("local_user");
    reveal_strlit("auth_user");
    reveal_strlit("password");
    reveal_strlit("realm");
    reveal_strlit("options_interval_secs");
    reveal_strlit("ptime_ms");
    reveal_strlit("dl_jitter_ms");
    reveal_strlit("allow_from");
    reveal_strlit("max_pending_dialogs");
    reveal_strlit("max_invites_per_minute");
    reveal_strlit("true");
    reveal_strlit("false");
    lemma_keys_first();
    lemma_keys_middle();
    lemma_keys_last();
    lemma_header_values();
    lemma_keys_differ();
    let t0 = "[asterisk]"@;
    lemma_bool_single_line(cfg.enabled);
    lemma_section_value_entry(t0, "enabled"@, bool_text(cfg.enabled));
    let t1 = t0 + entry("enabled"@, bool_text(cfg.enabled));
    lemma_quoted_single_line(cfg.outbound_prefix@);
    lemma_read_quoted_text(cfg.outbound_prefix@);
    lemma_section_value_entry(t1, "outbound_prefix"@, quoted(cfg.outbound_prefix@));
    let t2 = t1 + entry("outbound_prefix"@, quoted(cfg.outbound_prefix@));
    lemma_bool_single_line(cfg.strip_outbound_prefix);
    lemma_section_value_entry(t2, "strip_outbound_prefix"@, bool_text(cfg.strip_outbound_prefix));
    let t3 = t2 + entry("strip_outbound_prefix"@, bool_text(cfg.strip_outbound_prefix));
    lemma_quoted_single_line(cfg.inbound_prefix@);
    lemma_read_quoted_text(cfg.inbound_prefix@);
    lemma_section_value_entry(t3, "inbound_prefix"@, quoted(cfg.inbound_prefix@));
    let t4 = t3 + entry("inbound_prefix"@, quoted(cfg.inbound_prefix@));
    lemma_bool_single_line(cfg.register);
    lemma_section_value_entry(t4, "register"@, bool_text(cfg.register));
    let t5 = t4 + entry("register"@, bool_text(cfg.register));
    lemma_quoted_single_line(cfg.codec@);
    lemma_read_quoted_text(cfg.codec@);
    lemma_section_value_entry(t5, "codec"@, quoted(cfg.codec@));
    let t6 = t5 + entry("codec"@, quoted(cfg.codec@));
    lemma_array_single_line(cfg.service_numbers.deep_view());
    lemma_read_array(cfg.service_numbers.deep_view());
    lemma_section_value_entry(t6, "service_numbers"@, string_array(cfg.service_numbers.deep_view()));
    let t7 = t6 + entry("service_numbers"@, string_array(cfg.service_numbers.deep_view()));
    lemma_decimal_single_line(cfg.rtp_port_min as nat);
    lemma_read_decimal(cfg.rtp_port_min as nat);
    lemma_section_value_entry(t7, "rtp_port_min"@, decimal(cfg.rtp_port_min as nat));
    let t8 = t7 + entry("rtp_port_min"@, decimal(cfg.rtp_port_min as nat));
    lemma_decimal_single_line(cfg.rtp_port_max as nat);
    lemma_read_decimal(cfg.rtp_port_max as nat);
    lemma_section_value_entry(t8, "rtp_port_max"@, decimal(cfg.rtp_port_max as nat));
    let t9 = t8 + entry("rtp_port_max"@, decimal(cfg.rtp_port_max as nat));
    lemma_quoted_single_line(cfg.bind_addr@);
    lemma_read_quoted_text(cfg.bind_addr@);
    lemma_section_value_entry(t9, "bind_addr"@, quoted(cfg.bind_addr@));
    let t10 = t9 + entry("bind_addr"@, quoted(cfg.bind_addr@));
    lemma_decimal_single_line(cfg.bind_port as nat);
    lemma_read_decimal(cfg.bind_port as nat);
    lemma_section_value_entry(t10, "bind_port"@, decimal(cfg.bind_port as nat));
    let t11 = t10 + entry("bind_port"@, decimal(cfg.bind_port as nat));
    lemma_quoted_single_line(cfg.remote_host@);
    lemma_read_quoted_text(cfg.remote_host@);
    lemma_section_value_entry(t11, "remote_host"@, quoted(cfg.remote_host@));
    let t12 = t11 + entry("remote_host"@, quoted(cfg.remote_host@));
    lemma_decimal_single_line(cfg.remote_port as nat);
    lemma_read_decimal(cfg.remote_port as nat);
    lemma_section_value_entry(t12, "remote_port"@, decimal(cfg.remote_port as nat));
    let t13 = t12 + entry("remote_port"@, decimal(cfg.remote_port as nat));
    lemma_quoted_single_line(cfg.outbound_proxy_host@);
    lemma_read_quoted_text(cfg.outbound_proxy_host@);
    lemma_section_value_entry(t13, "outbound_proxy_host"@, quoted(cfg.outbound_proxy_host@));
    let t14 = t13 + entry("outbound_proxy_host"@, quoted(cfg.outbound_proxy_host@));
    lemma_decimal_single_line(cfg.outbound_proxy_port as nat);
    lemma_read_decimal(cfg.outbound_proxy_port as nat);
    lemma_section_value_entry(t14, "outbound_proxy_port"@, decimal(cfg.outbound_proxy_port as nat));
    let t15 = t14 + entry("outbound_proxy_port"@, decimal(cfg.outbound_proxy_port as nat));
    lemma_quoted_single_line(cfg.contact_host@);
    lemma_read_quoted_text(cfg.contact_host@);
    lemma_section_value_entry(t15, "contact_host"@, quoted(cfg.contact_host@));
    let t16 = t15 + entry("contact_host"@, quoted(cfg.contact_host@));
    lemma_quoted_single_line(cfg.from_domain@);
    lemma_read_quoted_text(cfg.from_domain@);
    lemma_section_value_entry(t16, "from_domain"@, quoted(cfg.from_domain@));
    let t17 = t16 + entry("from_domain"@, quoted(cfg.from_domain@));
    lemma_quoted_single_line(cfg.local_user@);
    lemma_read_quoted_text(cfg.local_user@);
    lemma_section_value_entry(t17, "local_user"@, quoted(cfg.local_user@));
    let t18 = t17 + entry("local_user"@, quoted(cfg.local_user@));
    lemma_quoted_single_line(cfg.auth_user@);
    lemma_read_quoted_text(cfg.auth_user@);
    lemma_section_value_entry(t18, "auth_user"@, quoted(cfg.auth_user@));
    let t19 = t18 + entry("auth_user"@, quoted(cfg.auth_user@));
    lemma_quoted_single_line(cfg.password@);
    lemma_read_quoted_text(cfg.password@);
    lemma_section_value_entry(t19, "password"@, quoted(cfg.password@));
    let t20 = t19 + entry("password"@, quoted(cfg.password@));
    lemma_quoted_single_line(cfg.realm@);
    lemma_read_quoted_text(cfg.realm@);
    lemma_section_value_entry(t20, "realm"@, quoted(cfg.realm@));
    let t21 = t20 + entry("realm"@, quoted(cfg.realm@));
    lemma_decimal_single_line(cfg.options_interval_secs as nat);
    lemma_read_decimal(cfg.options_interval_secs as nat);
    lemma_section_value_entry(t21, "options_interval_secs"@, decimal(cfg.options_interval_secs as nat));
    let t22 = t21 + entry("options_interval_secs"@, decimal(cfg.options_interval_secs as nat));
    lemma_decimal_single_line(cfg.ptime_ms as nat);
    lemma_read_decimal(cfg.ptime_ms as nat);
    lemma_section_value_entry(t22, "ptime_ms"@, decimal(cfg.ptime_ms as nat));
    let t23 = t22 + entry("ptime_ms"@, decimal(cfg.ptime_ms as nat));
    lemma_decimal_single_line(cfg.dl_jitter_ms as nat);
    lemma_read_decimal(cfg.dl_jitter_ms as nat);
    lemma_section_value_entry(t23, "dl_jitter_ms"@, decimal(cfg.dl_jitter_ms as nat));
    let t24 = t23 + entry("dl_jitter_ms"@, decimal(cfg.dl_jitter_ms as nat));
    lemma_array_single_line(cfg.allow_from.deep_view());
    lemma_read_array(cfg.allow_from.deep_view());
    lemma_section_value_entry(t24, "allow_from"@, string_array(cfg.allow_from.deep_view()));
    let t25 = t24 + entry("allow_from"@, string_array(cfg.allow_from.deep_view()));
    lemma_decimal_single_line(cfg.max_pending_dialogs as nat);
    lemma_read_decimal(cfg.max_pending_dialogs as nat);
    lemma_section_value_entry(t25, "max_pending_dialogs"@, decimal(cfg.max_pending_dialogs as nat));
    let t26 = t25 + entry("max_pending_dialogs"@, decimal(cfg.max_pending_dialogs as nat));
    lemma_decimal_single_line(cfg.max_invites_per_minute as nat);
    lemma_read_decimal(cfg.max_invites_per_minute as nat);
    lemma_section_value_entry(t26, "max_invites_per_minute"@, decimal(cfg.max_invites_per_minute as nat));
    let t27 = t26 + entry("max_invites_per_minute"@, decimal(cfg.max_invites_per_minute as nat));
    assert(section_text(cfg) == t27);
}

} // verus!
