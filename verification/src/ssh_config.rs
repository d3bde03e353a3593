//! A parser for `~/.ssh/config`: a line-oriented state machine that keeps
//! the directives this library cares about.
//!
//! Wildcard `Host` blocks (`Host *`, `Host web-?`) are skipped, because they
//! cannot be mapped onto a single server.

use vstd::prelude::*;

use crate::text::{
    chars_eq_str, chars_to_string, contains_char, copy_range, find_char, find_whitespace, index_of_char,
    index_of_ws, is_ws, law_trim_idempotent, lead_count, lemma_lead_count_bound, lemma_trim_fixed,
    lemma_trim_shape, non_ws_pred, not_char_pred, parse_bounded, parse_decimal_bounded,
    str_to_chars, trim, trim_chars, ws_pred, decimal, law_decimal_roundtrip,
};

verus! {

/// One `Host` block read from `~/.ssh/config`.
#[derive(Clone, Debug)]
pub struct SshConfigHost {
    pub alias: String,
    pub host_name: Option<String>,
    pub port: Option<u16>,
    pub user: Option<String>,
    pub identity_file: Option<String>,
    pub proxy_jump: Option<String>,
    pub connect_timeout_secs: Option<u32>,
    pub server_alive_interval_secs: Option<u32>,
    pub server_alive_count_max: Option<u32>,
    pub host_key_algorithms: Option<String>,
    pub pubkey_accepted_key_types: Option<String>,
}

/// The contents of a `SshConfigHost`, with each string taken as its characters.
pub struct SshConfigHostView {
    pub alias: Seq<char>,
    pub host_name: Option<Seq<char>>,
    pub port: Option<u16>,
    pub user: Option<Seq<char>>,
    pub identity_file: Option<Seq<char>>,
    pub proxy_jump: Option<Seq<char>>,
    pub connect_timeout_secs: Option<u32>,
    pub server_alive_interval_secs: Option<u32>,
    pub server_alive_count_max: Option<u32>,
    pub host_key_algorithms: Option<Seq<char>>,
    pub pubkey_accepted_key_types: Option<Seq<char>>,
}

/// An optional string taken as its characters.
pub open spec fn opt_str_view(o: Option<String>) -> Option<Seq<char>> {
    match o {
        Some(s) => Some(s@),
        None => None,
    }
}

impl View for SshConfigHost {
    type V = SshConfigHostView;

    open spec fn view(&self) -> SshConfigHostView {
        SshConfigHostView {
            alias: self.alias@,
            host_name: opt_str_view(self.host_name),
            port: self.port,
            user: opt_str_view(self.user),
            identity_file: opt_str_view(self.identity_file),
            proxy_jump: opt_str_view(self.proxy_jump),
            connect_timeout_secs: self.connect_timeout_secs,
            server_alive_interval_secs: self.server_alive_interval_secs,
            server_alive_count_max: self.server_alive_count_max,
            host_key_algorithms: opt_str_view(self.host_key_algorithms),
            pubkey_accepted_key_types: opt_str_view(self.pubkey_accepted_key_types),
        }
    }
}

/// An optional host taken by its view.
pub open spec fn opt_host_view(o: Option<SshConfigHost>) -> Option<SshConfigHostView> {
    match o {
        Some(h) => Some(h@),
        None => None,
    }
}

/// A sequence of hosts taken by their views.
pub open spec fn hosts_view(s: Seq<SshConfigHost>) -> Seq<SshConfigHostView> {
    s.map_values(|h: SshConfigHost| h@)
}

/// A block that has only its alias: every directive unset.
pub open spec fn empty_host(alias: Seq<char>) -> SshConfigHostView {
    SshConfigHostView {
        alias: alias,
        host_name: None,
        port: None,
        user: None,
        identity_file: None,
        proxy_jump: None,
        connect_timeout_secs: None,
        server_alive_interval_secs: None,
        server_alive_count_max: None,
        host_key_algorithms: None,
        pubkey_accepted_key_types: None,
    }
}

impl Default for SshConfigHost {
    fn default() -> (res: Self)
        ensures
            res@ == empty_host(Seq::<char>::empty()),
    {
        SshConfigHost {
            alias: String::new(),
            host_name: None,
            port: None,
            user: None,
            identity_file: None,
            proxy_jump: None,
            connect_timeout_secs: None,
            server_alive_interval_secs: None,
            server_alive_count_max: None,
            host_key_algorithms: None,
            pubkey_accepted_key_types: None,
        }
    }
}

/// A finished block: where it has no `HostName`, its alias stands for it.
pub open spec fn finalize_spec(h: SshConfigHostView) -> SshConfigHostView {
    if h.host_name is None {
        SshConfigHostView { host_name: Some(h.alias), ..h }
    } else {
        h
    }
}

/// A `u16` directive value, as `str::parse` reads it.
pub open spec fn parse_u16(v: Seq<char>) -> Option<u16> {
    match parse_bounded(v, 65535) {
        Some(n) => Some(n as u16),
        None => None,
    }
}

/// A `u32` directive value, as `str::parse` reads it.
pub open spec fn parse_u32(v: Seq<char>) -> Option<u32> {
    match parse_bounded(v, 4294967295) {
        Some(n) => Some(n as u32),
        None => None,
    }
}

/// The block `h` after the directive `keyword value`. A later directive of a
/// kind overrides an earlier one; a numeric value that does not parse clears
/// the setting; a keyword this library does not know leaves `h` as it is.
pub open spec fn apply_directive_spec(
    h: SshConfigHostView,
    keyword: Seq<char>,
    value: Seq<char>,
) -> SshConfigHostView {
    if keyword == "HostName"@ {
        SshConfigHostView { host_name: Some(value), ..h }
    } else if keyword == "Port"@ {
        SshConfigHostView { port: parse_u16(value), ..h }
    } else if keyword == "User"@ {
        SshConfigHostView { user: Some(value), ..h }
    } else if keyword == "IdentityFile"@ {
        SshConfigHostView { identity_file: Some(value), ..h }
    } else if keyword == "ProxyJump"@ {
        SshConfigHostView { proxy_jump: Some(value), ..h }
    } else if keyword == "ConnectTimeout"@ {
        SshConfigHostView { connect_timeout_secs: parse_u32(value), ..h }
    } else if keyword == "ServerAliveInterval"@ {
        SshConfigHostView { server_alive_interval_secs: parse_u32(value), ..h }
    } else if keyword == "ServerAliveCountMax"@ {
        SshConfigHostView { server_alive_count_max: parse_u32(value), ..h }
    } else if keyword == "HostKeyAlgorithms"@ {
        SshConfigHostView { host_key_algorithms: Some(value), ..h }
    } else if keyword == "PubkeyAcceptedKeyTypes"@ {
        SshConfigHostView { pubkey_accepted_key_types: Some(value), ..h }
    } else {
        h
    }
}

/// A directive line split into keyword and value. Where the line holds `=`,
/// the first `=` separates them; otherwise the first whitespace character
/// does. Both parts are trimmed, and neither may be empty.
pub open spec fn split_directive_spec(line: Seq<char>) -> Option<(Seq<char>, Seq<char>)> {
    let eq = index_of_char(line, '=');
    let ws = index_of_ws(line);
    let at = if eq < line.len() { eq } else { ws };
    if at < line.len() {
        let kw = trim(line.take(at as int));
        let val = trim(line.skip(at + 1int));
        if kw.len() == 0 || val.len() == 0 {
            None
        } else {
            Some((kw, val))
        }
    } else {
        None
    }
}

/// Whether a `Host` value is a pattern (it holds `*` or `?`).
pub open spec fn is_wildcard(v: Seq<char>) -> bool {
    v.contains('*') || v.contains('?')
}

/// The parser's state: the finished blocks, and the block being read.
pub type ParseState = (Seq<SshConfigHostView>, Option<SshConfigHostView>);

/// The finished blocks, with the block being read finished after them.
pub open spec fn close_state(st: ParseState) -> Seq<SshConfigHostView> {
    match st.1 {
        Some(h) => st.0.push(finalize_spec(h)),
        None => st.0,
    }
}

/// The parser's state after one line. Blank lines and `#` comments change
/// nothing; a `Host` line finishes the block being read and opens a new one,
/// unless its value is a pattern; any other directive goes to the block being
/// read, and is dropped where there is none.
pub open spec fn step(st: ParseState, raw: Seq<char>) -> ParseState {
    let line = trim(raw);
    if line.len() == 0 || line[0] == '#' {
        st
    } else {
        match split_directive_spec(line) {
            None => st,
            Some((kw, val)) => if kw == "Host"@ {
                if is_wildcard(val) {
                    (close_state(st), None)
                } else {
                    (close_state(st), Some(empty_host(val)))
                }
            } else {
                match st.1 {
                    Some(h) => (st.0, Some(apply_directive_spec(h, kw, val))),
                    None => st,
                }
            },
        }
    }
}

/// The parser's state after the lines `lines`, from the start.
pub open spec fn parse_lines(lines: Seq<Seq<char>>) -> ParseState
    decreases lines.len(),
{
    if lines.len() == 0 {
        (Seq::empty(), None)
    } else {
        step(parse_lines(lines.drop_last()), lines.last())
    }
}

/// `s` cut at each `\n` (each piece without it). A trailing `\r` and a final
/// empty piece, which `str::lines` drops, are kept here: both are whitespace
/// that the parser skips.
pub open spec fn split_lines(s: Seq<char>) -> Seq<Seq<char>>
    decreases s.len(),
{
    if s.len() == 0 {
        seq![Seq::empty()]
    } else {
        let rest = split_lines(s.drop_last());
        if s.last() == '\n' {
            rest.push(Seq::empty())
        } else {
            rest.update(rest.len() - 1, rest.last().push(s.last()))
        }
    }
}

/// The hosts that `parse_ssh_config` reads from `text`.
pub open spec fn parse_ssh_config_spec(text: Seq<char>) -> Seq<SshConfigHostView> {
    close_state(parse_lines(split_lines(text)))
}


/// Finishes a block: where it has no `HostName`, its alias stands for it.
pub fn finalize_host(host: SshConfigHost) -> (res: SshConfigHost)
    ensures
        res@ == finalize_spec(host@),
{
    let mut host = host;
    if host.host_name.is_none() {
        host.host_name = Some(host.alias.clone());
    }
    host
}

/// Splits `Keyword Value` or `Keyword=Value` into its two trimmed parts.
pub fn split_directive(line: &Vec<char>) -> (res: Option<(Vec<char>, Vec<char>)>)
    ensures
        match split_directive_spec(line@) {
            Some((kw, val)) => res matches Some((k, v)) && k@ == kw && v@ == val,
            None => res is None,
        },
{
    let eq = find_char(line, '=');
    let at = if eq < line.len() {
        eq
    } else {
        find_whitespace(line)
    };
    if at >= line.len() {
        return None;
    }
    let kw = trim_chars(&copy_range(line, 0, at));
    let val = trim_chars(&copy_range(line, at + 1, line.len()));
    assert(line@.subrange(0, at as int) == line@.take(at as int));
    assert(line@.subrange(at + 1, line@.len() as int) == line@.skip(at + 1));
    if kw.len() == 0 || val.len() == 0 {
        return None;
    }
    Some((kw, val))
}

/// Parses a `u16` value as `str::parse` does.
fn parse_u16_value(value: &Vec<char>) -> (res: Option<u16>)
    ensures
        res == parse_u16(value@),
{
    match parse_decimal_bounded(value, 65535) {
        Some(n) => Some(n as u16),
        None => None,
    }
}

/// Parses a `u32` value as `str::parse` does.
fn parse_u32_value(value: &Vec<char>) -> (res: Option<u32>)
    ensures
        res == parse_u32(value@),
{
    parse_decimal_bounded(value, 4294967295)
}

/// Writes the value of one directive into the block.
fn apply_directive(host: &mut SshConfigHost, keyword: &Vec<char>, value: &Vec<char>)
    ensures
        final(host)@ == apply_directive_spec(old(host)@, keyword@, value@),
{
    if chars_eq_str(keyword, "HostName") {
        host.host_name = Some(chars_to_string(value));
    } else if chars_eq_str(keyword, "Port") {
        host.port = parse_u16_value(value);
    } else if chars_eq_str(keyword, "User") {
        host.user = Some(chars_to_string(value));
    } else if chars_eq_str(keyword, "IdentityFile") {
        host.identity_file = Some(chars_to_string(value));
    } else if chars_eq_str(keyword, "ProxyJump") {
        host.proxy_jump = Some(chars_to_string(value));
    } else if chars_eq_str(keyword, "ConnectTimeout") {
        host.connect_timeout_secs = parse_u32_value(value);
    } else if chars_eq_str(keyword, "ServerAliveInterval") {
        host.server_alive_interval_secs = parse_u32_value(value);
    } else if chars_eq_str(keyword, "ServerAliveCountMax") {
        host.server_alive_count_max = parse_u32_value(value);
    } else if chars_eq_str(keyword, "HostKeyAlgorithms") {
        host.host_key_algorithms = Some(chars_to_string(value));
    } else if chars_eq_str(keyword, "PubkeyAcceptedKeyTypes") {
        host.pubkey_accepted_key_types = Some(chars_to_string(value));
    }
}

/// Moves the block being read, finished, to the end of `hosts`.
fn close_current(hosts: &mut Vec<SshConfigHost>, current: &mut Option<SshConfigHost>)
    ensures
        hosts_view(final(hosts)@) == close_state((hosts_view(old(hosts)@), opt_host_view(*old(current)))),
        *final(current) is None,
{
    if let Some(host) = current.take() {
        hosts.push(finalize_host(host));
        assert(hosts_view(hosts@) == hosts_view(old(hosts)@).push(finalize_spec(host@)));
    }
}

/// Feeds one raw line to the parser.
fn process_line(hosts: &mut Vec<SshConfigHost>, current: &mut Option<SshConfigHost>, raw: &Vec<char>)
    ensures
        (hosts_view(final(hosts)@), opt_host_view(*final(current))) == step(
            (hosts_view(old(hosts)@), opt_host_view(*old(current))),
            raw@,
        ),
{
    let line = trim_chars(raw);
    if line.len() == 0 || line[0] == '#' {
        return ;
    }
    let (keyword, value) = match split_directive(&line) {
        Some(pair) => pair,
        None => {
            return ;
        },
    };
    if chars_eq_str(&keyword, "Host") {
        close_current(hosts, current);
        if contains_char(&value, '*') || contains_char(&value, '?') {
            *current = None;
        } else {
            let mut host = SshConfigHost::default();
            host.alias = chars_to_string(&value);
            *current = Some(host);
        }
    } else {
        match current {
            Some(host) => {
                apply_directive(host, &keyword, &value);
            },
            None => {},
        }
    }
}

/// Parses the text of an ssh config file and returns every block that is not
/// a wildcard block, in the order of the file.
///
/// - blank lines and `#` comments are ignored;
/// - `Host` blocks whose value holds `*` or `?` are skipped;
/// - a block without `HostName` takes its alias as host name;
/// - of two directives of one kind in a block, the later wins.
pub fn parse_ssh_config(config_text: &str) -> (hosts: Vec<SshConfigHost>)
    ensures
        hosts_view(hosts@) == parse_ssh_config_spec(config_text@),
{
    let cs = str_to_chars(config_text);
    let mut hosts: Vec<SshConfigHost> = Vec::new();
    let mut current: Option<SshConfigHost> = None;
    let mut line_start: usize = 0;
    let mut i: usize = 0;
    assert(cs@.take(0) == Seq::<char>::empty());
    assert(hosts_view(hosts@) == Seq::<SshConfigHostView>::empty());
    while i < cs.len()
        invariant
            line_start <= i <= cs.len(),
            split_lines(cs@.take(i as int)).len() >= 1,
            split_lines(cs@.take(i as int)).last() == cs@.subrange(line_start as int, i as int),
            (hosts_view(hosts@), opt_host_view(current)) == parse_lines(
                split_lines(cs@.take(i as int)).drop_last(),
            ),
        decreases cs.len() - i,
    {
        let ghost before = split_lines(cs@.take(i as int));
        assert(cs@.take(i + 1).drop_last() == cs@.take(i as int));
        assert(cs@.take(i + 1).last() == cs@[i as int]);
        if cs[i] == '\n' {
            let line = copy_range(&cs, line_start, i);
            process_line(&mut hosts, &mut current, &line);
            line_start = i + 1;
            assert(split_lines(cs@.take(i + 1)) == before.push(Seq::empty()));
            assert(before.push(Seq::<char>::empty()).drop_last() == before);
        } else {
            assert(split_lines(cs@.take(i + 1)) == before.update(
                before.len() - 1,
                before.last().push(cs@[i as int]),
            ));
            assert(before.update(before.len() - 1, before.last().push(cs@[i as int])).drop_last()
                == before.drop_last());
            assert(cs@.subrange(line_start as int, i + 1) == cs@.subrange(
                line_start as int,
                i as int,
            ).push(cs@[i as int]));
        }
        i = i + 1;
    }
    assert(cs@.take(cs.len() as int) == cs@);
    let line = copy_range(&cs, line_start, cs.len());
    process_line(&mut hosts, &mut current, &line);
    close_current(&mut hosts, &mut current);
    hosts
}


/// Whether `raw` is a line that the parser skips: blank, or a `#` comment.
pub open spec fn is_skipped_line(raw: Seq<char>) -> bool {
    trim(raw).len() == 0 || trim(raw)[0] == '#'
}

/// The value of `raw` where it is a `Host` line whose value holds neither
/// `*` nor `?`.
pub open spec fn host_line_alias(raw: Seq<char>) -> Option<Seq<char>> {
    if is_skipped_line(raw) {
        None
    } else {
        match split_directive_spec(trim(raw)) {
            Some((kw, val)) => if kw == "Host"@ && !val.contains('*') && !val.contains('?') {
                Some(val)
            } else {
                None
            },
            None => None,
        }
    }
}

/// The values of the `Host` lines among `lines` that hold neither `*` nor
/// `?`, in order.
pub open spec fn host_aliases(lines: Seq<Seq<char>>) -> Seq<Seq<char>>
    decreases lines.len(),
{
    if lines.len() == 0 {
        Seq::empty()
    } else {
        match host_line_alias(lines.last()) {
            Some(a) => host_aliases(lines.drop_last()).push(a),
            None => host_aliases(lines.drop_last()),
        }
    }
}

/// The aliases of a sequence of hosts.
pub open spec fn aliases(hosts: Seq<SshConfigHostView>) -> Seq<Seq<char>> {
    hosts.map_values(|h: SshConfigHostView| h.alias)
}

/// A later directive of a kind replaces an earlier one of the same kind, and
/// no directive changes the alias of its block.
pub proof fn law_later_directive_wins(
    h: SshConfigHostView,
    keyword: Seq<char>,
    first: Seq<char>,
    second: Seq<char>,
)
    ensures
        apply_directive_spec(apply_directive_spec(h, keyword, first), keyword, second)
            == apply_directive_spec(h, keyword, second),
        apply_directive_spec(h, keyword, first).alias == h.alias,
{
}

/// The parser reads one host per `Host` line whose value is not a pattern,
/// in the order of the lines, with that value as its alias.
pub proof fn law_one_host_per_host_line(lines: Seq<Seq<char>>)
    ensures
        aliases(close_state(parse_lines(lines))) == host_aliases(lines),
    decreases lines.len(),
{
    if lines.len() > 0 {
        law_one_host_per_host_line(lines.drop_last());
        let st = parse_lines(lines.drop_last());
        let l = lines.last();
        assert(aliases(close_state(st)) == host_aliases(lines.drop_last()));
        let line = trim(l);
        if !(line.len() == 0 || line[0] == '#') {
            match split_directive_spec(line) {
                Some((kw, val)) => {
                    if kw == "Host"@ {
                        let c = close_state(st);
                        if !is_wildcard(val) {
                            assert(aliases(c.push(finalize_spec(empty_host(val)))) == aliases(c).push(
                                val,
                            ));
                        } else {
                            assert(close_state((c, None)) == c);
                        }
                    } else {
                        match st.1 {
                            Some(h) => {
                                assert(aliases(st.0.push(finalize_spec(apply_directive_spec(h, kw, val))))
                                    == aliases(st.0.push(finalize_spec(h))));
                            },
                            None => {},
                        }
                    }
                },
                None => {},
            }
        }
    }
}

/// Every host that the parser gives has a host name, and none is a pattern:
/// its alias is not empty and holds neither `*` nor `?`.
pub proof fn law_hosts_are_concrete(text: Seq<char>)
    ensures
        forall|i: int|
            0 <= i < parse_ssh_config_spec(text).len() ==> {
                let h = #[trigger] parse_ssh_config_spec(text)[i];
                &&& h.host_name is Some
                &&& h.alias.len() > 0
                &&& !h.alias.contains('*')
                &&& !h.alias.contains('?')
            },
{
    lemma_state_concrete(split_lines(text));
}

/// A host that is finished or being read has a non-empty alias that is not a
/// pattern; a finished one has a host name.
pub open spec fn state_concrete(st: ParseState) -> bool {
    &&& forall|i: int|
        0 <= i < st.0.len() ==> {
            let h = #[trigger] st.0[i];
            &&& h.host_name is Some
            &&& h.alias.len() > 0
            &&& !h.alias.contains('*')
            &&& !h.alias.contains('?')
        }
    &&& st.1 matches Some(h) ==> h.alias.len() > 0 && !h.alias.contains('*') && !h.alias.contains('?')
}

proof fn lemma_state_concrete(lines: Seq<Seq<char>>)
    ensures
        state_concrete(parse_lines(lines)),
        state_concrete((close_state(parse_lines(lines)), None)),
    decreases lines.len(),
{
    if lines.len() > 0 {
        lemma_state_concrete(lines.drop_last());
    }
}

/// Blank lines and `#` comments, wherever they stand, change nothing.
pub proof fn law_skipped_lines_ignored(lines: Seq<Seq<char>>, i: int, raw: Seq<char>)
    requires
        0 <= i <= lines.len(),
        is_skipped_line(raw),
    ensures
        parse_lines(lines.insert(i, raw)) == parse_lines(lines),
    decreases lines.len(),
{
    if i == lines.len() {
        assert(lines.insert(i, raw).drop_last() == lines);
    } else {
        assert(lines.insert(i, raw).drop_last() == lines.drop_last().insert(i, raw));
        assert(lines.insert(i, raw).last() == lines.last());
        law_skipped_lines_ignored(lines.drop_last(), i, raw);
    }
}


/// Each known directive sets its own setting and leaves the alias alone: a
/// string directive to its value, a numeric one to the number its decimal
/// numeral gives (where the number fits the setting).
pub proof fn law_directive_sets_its_field(h: SshConfigHostView, v: Seq<char>, n: u32)
    ensures
        apply_directive_spec(h, "HostName"@, v).host_name == Some(v),
        apply_directive_spec(h, "User"@, v).user == Some(v),
        apply_directive_spec(h, "IdentityFile"@, v).identity_file == Some(v),
        apply_directive_spec(h, "ProxyJump"@, v).proxy_jump == Some(v),
        apply_directive_spec(h, "HostKeyAlgorithms"@, v).host_key_algorithms == Some(v),
        apply_directive_spec(h, "PubkeyAcceptedKeyTypes"@, v).pubkey_accepted_key_types == Some(v),
        n <= 65535 ==> apply_directive_spec(h, "Port"@, decimal(n as nat)).port == Some(n as u16),
        apply_directive_spec(h, "ConnectTimeout"@, decimal(n as nat)).connect_timeout_secs == Some(n),
        apply_directive_spec(h, "ServerAliveInterval"@, decimal(n as nat)).server_alive_interval_secs
            == Some(n),
        apply_directive_spec(h, "ServerAliveCountMax"@, decimal(n as nat)).server_alive_count_max
            == Some(n),
        apply_directive_spec(h, "Port"@, v).alias == h.alias,
{
    law_decimal_roundtrip(n as nat);
    reveal_strlit("HostName");
    reveal_strlit("User");
    reveal_strlit("IdentityFile");
    reveal_strlit("ProxyJump");
    reveal_strlit("HostKeyAlgorithms");
    reveal_strlit("PubkeyAcceptedKeyTypes");
    reveal_strlit("Port");
    reveal_strlit("ConnectTimeout");
    reveal_strlit("ServerAliveInterval");
    reveal_strlit("ServerAliveCountMax");
    assert("Port"@.len() != "HostName"@.len());
    assert("User"@.len() != "HostName"@.len());
    assert("User"@[0] != "Port"@[0]);
    assert("IdentityFile"@.len() != "HostName"@.len());
    assert("IdentityFile"@.len() != "Port"@.len());
    assert("IdentityFile"@.len() != "User"@.len());
    assert("ProxyJump"@.len() != "HostName"@.len());
    assert("ProxyJump"@.len() != "Port"@.len());
    assert("ProxyJump"@.len() != "User"@.len());
    assert("ProxyJump"@.len() != "IdentityFile"@.len());
    assert("ConnectTimeout"@.len() != "HostName"@.len());
    assert("ConnectTimeout"@.len() != "Port"@.len());
    assert("ConnectTimeout"@.len() != "User"@.len());
    assert("ConnectTimeout"@.len() != "IdentityFile"@.len());
    assert("ConnectTimeout"@.len() != "ProxyJump"@.len());
    assert("ServerAliveInterval"@.len() != "HostName"@.len());
    assert("ServerAliveInterval"@.len() != "Port"@.len());
    assert("ServerAliveInterval"@.len() != "User"@.len());
    assert("ServerAliveInterval"@.len() != "IdentityFile"@.len());
    assert("ServerAliveInterval"@.len() != "ProxyJump"@.len());
    assert("ServerAliveInterval"@.len() != "ConnectTimeout"@.len());
    assert("ServerAliveCountMax"@.len() != "HostName"@.len());
    assert("ServerAliveCountMax"@.len() != "Port"@.len());
    assert("ServerAliveCountMax"@.len() != "User"@.len());
    assert("ServerAliveCountMax"@.len() != "IdentityFile"@.len());
    assert("ServerAliveCountMax"@.len() != "ProxyJump"@.len());
    assert("ServerAliveCountMax"@.len() != "ConnectTimeout"@.len());
    assert("ServerAliveCountMax"@[11] != "ServerAliveInterval"@[11]);
    assert("HostKeyAlgorithms"@.len() != "HostName"@.len());
    assert("HostKeyAlgorithms"@.len() != "Port"@.len());
    assert("HostKeyAlgorithms"@.len() != "User"@.len());
    assert("HostKeyAlgorithms"@.len() != "IdentityFile"@.len());
    assert("HostKeyAlgorithms"@.len() != "ProxyJump"@.len());
    assert("HostKeyAlgorithms"@.len() != "ConnectTimeout"@.len());
    assert("HostKeyAlgorithms"@.len() != "ServerAliveInterval"@.len());
    assert("HostKeyAlgorithms"@.len() != "ServerAliveCountMax"@.len());
    assert("PubkeyAcceptedKeyTypes"@.len() != "HostName"@.len());
    assert("PubkeyAcceptedKeyTypes"@.len() != "Port"@.len());
    assert("PubkeyAcceptedKeyTypes"@.len() != "User"@.len());
    assert("PubkeyAcceptedKeyTypes"@.len() != "IdentityFile"@.len());
    assert("PubkeyAcceptedKeyTypes"@.len() != "ProxyJump"@.len());
    assert("PubkeyAcceptedKeyTypes"@.len() != "ConnectTimeout"@.len());
    assert("PubkeyAcceptedKeyTypes"@.len() != "ServerAliveInterval"@.len());
    assert("PubkeyAcceptedKeyTypes"@.len() != "ServerAliveCountMax"@.len());
    assert("PubkeyAcceptedKeyTypes"@.len() != "HostKeyAlgorithms"@.len());
}

/// Finishing a block twice is finishing it once.
pub proof fn law_finalize_idempotent(h: SshConfigHostView)
    ensures
        finalize_spec(finalize_spec(h)) == finalize_spec(h),
{
}

/// A directive splits into a keyword and a value that are both non-empty and
/// trimmed, that are pieces of the line with the keyword before the value,
/// and whose keyword holds no `=`.
pub proof fn law_split_directive_parts(line: Seq<char>)
    ensures
        split_directive_spec(line) matches Some((kw, val)) ==> {
            &&& kw.len() > 0
            &&& val.len() > 0
            &&& trim(kw) == kw
            &&& trim(val) == val
            &&& !kw.contains('=')
            &&& exists|a: int, b: int, c: int, d: int|
                0 <= a <= b < c <= d <= line.len() && kw == line.subrange(a, b) && val
                    == line.subrange(c, d)
        },
{
    let eq = index_of_char(line, '=');
    let ws = index_of_ws(line);
    let at = if eq < line.len() {
        eq
    } else {
        ws
    };
    lemma_lead_count_bound(line, not_char_pred('='));
    lemma_lead_count_bound(line, non_ws_pred());
    if at < line.len() {
        let left = line.take(at as int);
        let right = line.skip(at + 1int);
        let kw = trim(left);
        let val = trim(right);
        if kw.len() > 0 && val.len() > 0 {
            law_trim_idempotent(left);
            law_trim_idempotent(right);
            lemma_trim_shape(left);
            lemma_trim_shape(right);
            let a = lead_count(left, ws_pred()) as int;
            let b = a + kw.len();
            let c = (at + 1 + lead_count(right, ws_pred())) as int;
            let d = (c + val.len()) as int;
            assert(kw == left.subrange(a, b));
            assert(b <= left.len());
            assert(left.subrange(a, b) =~= line.subrange(a, b));
            let a2 = lead_count(right, ws_pred()) as int;
            assert(val == right.subrange(a2, a2 + val.len()));
            assert(a2 + val.len() <= right.len());
            assert(right.subrange(a2, a2 + val.len()) =~= line.subrange(c, d));
            assert forall|i: int| 0 <= i < kw.len() implies kw[i] != '=' by {
                assert(kw[i] == line[a + i]);
                if eq < line.len() {
                    assert(not_char_pred('=')(line[a + i]));
                } else {
                    assert(not_char_pred('=')(line[a + i]));
                }
            }
        }
    }
}

/// On a trimmed, non-empty line without `=`, the split succeeds exactly where
/// the line holds whitespace; the keyword is then everything before the first
/// whitespace character, and the value the trimmed rest after it.
pub proof fn law_split_directive_on_whitespace(line: Seq<char>)
    requires
        line.len() > 0,
        trim(line) == line,
        !line.contains('='),
    ensures
        (split_directive_spec(line) is Some) == (exists|i: int|
            0 <= i < line.len() && is_ws(#[trigger] line[i])),
        split_directive_spec(line) is Some ==> split_directive_spec(line) == Some(
            (line.take(index_of_ws(line) as int), trim(line.skip(index_of_ws(line) + 1int))),
        ),
{
    lemma_lead_count_bound(line, not_char_pred('='));
    lemma_lead_count_bound(line, non_ws_pred());
    lemma_trim_shape(line);
    let eq = index_of_char(line, '=');
    let w = index_of_ws(line);
    assert(eq == line.len()) by {
        if eq < line.len() {
            assert(line.contains('='));
        }
    }
    if w < line.len() {
        assert(is_ws(line[w as int]));
        assert(w > 0);
        assert(w < line.len() - 1);
        let left = line.take(w as int);
        let right = line.skip(w + 1int);
        assert forall|k: int| 0 <= k < left.len() implies !is_ws(#[trigger] left[k]) by {
            assert(non_ws_pred()(line[k]));
        }
        lemma_trim_fixed(left);
        assert(right.last() == line.last());
        lemma_trim_shape(right);
        assert(!is_ws(right[right.len() - 1]));
    } else {
        assert forall|i: int| 0 <= i < line.len() implies !is_ws(#[trigger] line[i]) by {
            assert(non_ws_pred()(line[i]));
        }
    }
}


/// The parser's state after the lines `lines`, starting from `st`.
pub open spec fn parse_from(st: ParseState, lines: Seq<Seq<char>>) -> ParseState
    decreases lines.len(),
{
    if lines.len() == 0 {
        st
    } else {
        step(parse_from(st, lines.drop_last()), lines.last())
    }
}

/// Whether `raw` is a `Host` line (pattern or not).
pub open spec fn is_host_directive(raw: Seq<char>) -> bool {
    &&& !is_skipped_line(raw)
    &&& split_directive_spec(trim(raw)) matches Some((kw, val)) && kw == "Host"@
}

proof fn lemma_parse_lines_from(lines: Seq<Seq<char>>)
    ensures
        parse_lines(lines) == parse_from((Seq::empty(), None), lines),
    decreases lines.len(),
{
    if lines.len() > 0 {
        lemma_parse_lines_from(lines.drop_last());
    }
}

proof fn lemma_parse_from_concat(st: ParseState, a: Seq<Seq<char>>, b: Seq<Seq<char>>)
    ensures
        parse_from(st, a + b) == parse_from(parse_from(st, a), b),
    decreases b.len(),
{
    if b.len() == 0 {
        assert(a + b == a);
    } else {
        assert((a + b).drop_last() == a + b.drop_last());
        assert((a + b).last() == b.last());
        lemma_parse_from_concat(st, a, b.drop_last());
    }
}

proof fn lemma_no_host_lines(lines: Seq<Seq<char>>)
    requires
        forall|i: int| 0 <= i < lines.len() ==> !is_host_directive(#[trigger] lines[i]),
    ensures
        parse_lines(lines) == (Seq::<SshConfigHostView>::empty(), None::<SshConfigHostView>),
    decreases lines.len(),
{
    if lines.len() > 0 {
        assert(!is_host_directive(lines[lines.len() - 1]));
        lemma_no_host_lines(lines.drop_last());
    }
}

/// Directives that come before the first `Host` line belong to no block and
/// are ignored.
pub proof fn law_global_directives_ignored(prefix: Seq<Seq<char>>, rest: Seq<Seq<char>>)
    requires
        forall|i: int| 0 <= i < prefix.len() ==> !is_host_directive(#[trigger] prefix[i]),
    ensures
        parse_lines(prefix + rest) == parse_lines(rest),
{
    lemma_no_host_lines(prefix);
    lemma_parse_lines_from(prefix + rest);
    lemma_parse_lines_from(prefix);
    lemma_parse_lines_from(rest);
    lemma_parse_from_concat((Seq::empty(), None), prefix, rest);
}

proof fn lemma_step_prefix(w: Seq<SshConfigHostView>, st: ParseState, raw: Seq<char>)
    ensures
        step((w + st.0, st.1), raw) == (w + step(st, raw).0, step(st, raw).1),
{
    assert(close_state((w + st.0, st.1)) == w + close_state(st)) by {
        match st.1 {
            Some(h) => {
                assert((w + st.0).push(finalize_spec(h)) == w + st.0.push(finalize_spec(h)));
            },
            None => {},
        }
    }
}

proof fn lemma_parse_from_prefix(w: Seq<SshConfigHostView>, st: ParseState, lines: Seq<Seq<char>>)
    ensures
        parse_from((w + st.0, st.1), lines) == (w + parse_from(st, lines).0, parse_from(
            st,
            lines,
        ).1),
    decreases lines.len(),
{
    if lines.len() > 0 {
        lemma_parse_from_prefix(w, st, lines.drop_last());
        lemma_step_prefix(w, parse_from(st, lines.drop_last()), lines.last());
    }
}

/// A config cut right before a `Host` line parses as the hosts of its first
/// part followed by the hosts of its second part.
pub proof fn law_split_at_host_line(a: Seq<Seq<char>>, b: Seq<Seq<char>>)
    requires
        b.len() > 0,
        is_host_directive(b[0]),
    ensures
        close_state(parse_lines(a + b)) == close_state(parse_lines(a)) + close_state(
            parse_lines(b),
        ),
{
    let init: ParseState = (Seq::empty(), None);
    let first = seq![b[0]];
    let tail = b.drop_first();
    assert(b == first + tail);
    assert(a + b == (a + first) + tail);
    lemma_parse_lines_from(a + b);
    lemma_parse_lines_from(a);
    lemma_parse_lines_from(b);
    lemma_parse_from_concat(init, a + first, tail);
    lemma_parse_from_concat(init, a, first);
    lemma_parse_from_concat(init, first, tail);
    assert(first.drop_last() == Seq::<Seq<char>>::empty());
    let sa = parse_lines(a);
    let w = close_state(sa);
    assert(first.last() == b[0]);
    assert(parse_from(sa, first.drop_last()) == sa);
    assert(parse_from(init, first.drop_last()) == init);
    assert(parse_from(sa, first) == step(sa, b[0]));
    assert(parse_from(init, first) == step(init, b[0]));
    let x = step(init, b[0]).1;
    assert(step(sa, b[0]) == (w, x));
    assert(step(init, b[0]) == (Seq::<SshConfigHostView>::empty(), x));
    let st0: ParseState = (Seq::empty(), x);
    assert(w + st0.0 == w);
    lemma_parse_from_prefix(w, st0, tail);
    let r = parse_from(st0, tail);
    assert(close_state((w + r.0, r.1)) == w + close_state(r)) by {
        match r.1 {
            Some(h) => {
                assert((w + r.0).push(finalize_spec(h)) == w + r.0.push(finalize_spec(h)));
            },
            None => {},
        }
    }
}

} // verus!
