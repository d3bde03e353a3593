//! Turns a `SshServerInfo` into the arguments of an `ssh` command.
//!
//! `build_ssh_command_line` quotes every argument for a POSIX shell, so that
//! spaces or quotes in a user name, host or key path cannot break the line
//! written to the terminal.

use std::borrow::Cow;

use vstd::prelude::*;

use crate::text::{decimal, push_decimal};
use crate::types::{AuthType, SshServerInfo};

verus! {

/// An optional string, kept only where it is not empty.
pub open spec fn non_empty(o: Option<String>) -> Option<Seq<char>> {
    match o {
        Some(s) => if s@.len() > 0 {
            Some(s@)
        } else {
            None
        },
        None => None,
    }
}

/// An optional number, as its decimal numeral.
pub open spec fn numeral(o: Option<u32>) -> Option<Seq<char>> {
    match o {
        Some(n) => Some(decimal(n as nat)),
        None => None,
    }
}

/// The pair `-o NAME=VALUE` where there is a value; nothing otherwise.
/// `prefix` is `NAME=`.
pub open spec fn option_args(prefix: Seq<char>, value: Option<Seq<char>>) -> Seq<Seq<char>> {
    match value {
        Some(v) => seq!["-o"@, prefix + v],
        None => Seq::empty(),
    }
}

/// `user@host`, or the host alone where there is no user name.
pub open spec fn ssh_target(server: SshServerInfo) -> Seq<char> {
    if server.username@.len() == 0 {
        server.host@
    } else {
        server.username@ + "@"@ + server.host@
    }
}

/// `-p PORT` unless the port is 22.
pub open spec fn port_args(server: SshServerInfo) -> Seq<Seq<char>> {
    if server.port != 22 {
        seq!["-p"@, decimal(server.port as nat)]
    } else {
        Seq::empty()
    }
}

/// `-i PATH` for key authentication with a key path that is not empty.
pub open spec fn identity_args(server: SshServerInfo) -> Seq<Seq<char>> {
    if server.auth_type == AuthType::Key {
        match non_empty(server.key_path) {
            Some(p) => seq!["-i"@, p],
            None => Seq::empty(),
        }
    } else {
        Seq::empty()
    }
}

/// The arguments of the `ssh` command for `server`, in order: `ssh`, the
/// port, the key, the `-o` options, and last the target.
pub open spec fn ssh_args_spec(server: SshServerInfo) -> Seq<Seq<char>> {
    seq!["ssh"@] + port_args(server) + identity_args(server) + option_args(
        "ProxyJump="@,
        non_empty(server.proxy_jump),
    ) + option_args("ConnectTimeout="@, numeral(server.connect_timeout_secs)) + option_args(
        "ServerAliveInterval="@,
        numeral(server.keepalive_interval_secs),
    ) + option_args("ServerAliveCountMax="@, numeral(server.keepalive_count_max)) + option_args(
        "HostKeyAlgorithms="@,
        non_empty(server.host_key_algorithms),
    ) + option_args("PubkeyAcceptedKeyTypes="@, non_empty(server.pubkey_accepted_key_types))
        + seq![ssh_target(server)]
}

/// A sequence of strings taken as their characters.
pub open spec fn strings_view(v: Seq<String>) -> Seq<Seq<char>> {
    v.map_values(|s: String| s@)
}

/// `a` followed by `b`.
fn concat(a: &str, b: &str) -> (res: String)
    ensures
        res@ == a@ + b@,
{
    let mut res = a.to_owned();
    res.append(b);
    res
}

/// Appends `-o PREFIXVALUE` where there is a value that is not empty.
fn push_str_option(args: &mut Vec<String>, prefix: &str, value: &Option<String>)
    ensures
        strings_view(final(args)@) == strings_view(old(args)@) + option_args(
            prefix@,
            non_empty(*value),
        ),
{
    if let Some(v) = value {
        if !v.as_str().is_empty() {
            args.push("-o".to_owned());
            args.push(concat(prefix, v.as_str()));
            assert(strings_view(args@) == strings_view(old(args)@) + option_args(
                prefix@,
                non_empty(*value),
            ));
            return ;
        }
    }
    assert(strings_view(args@) == strings_view(old(args)@) + option_args(
        prefix@,
        non_empty(*value),
    ));
}


/// Appends `-o PREFIXN` where there is a number `N`.
fn push_num_option(args: &mut Vec<String>, prefix: &str, value: Option<u32>)
    ensures
        strings_view(final(args)@) == strings_view(old(args)@) + option_args(
            prefix@,
            numeral(value),
        ),
{
    if let Some(n) = value {
        args.push("-o".to_owned());
        let mut opt = prefix.to_owned();
        push_decimal(&mut opt, n as u64);
        args.push(opt);
    }
    assert(strings_view(args@) == strings_view(old(args)@) + option_args(prefix@, numeral(value)));
}

/// The arguments of the `ssh` command that connects to `server`: the program
/// name, `-p` for a port other than 22, `-i` for key authentication with a
/// key path, one `-o NAME=VALUE` per advanced option that is set (and, for a
/// string, not empty), and last `user@host` (the host alone where the user
/// name is empty).
pub fn build_ssh_args(server: &SshServerInfo) -> (args: Vec<String>)
    ensures
        strings_view(args@) == ssh_args_spec(*server),
{
    let mut args: Vec<String> = Vec::new();
    args.push("ssh".to_owned());
    if server.port != 22 {
        args.push("-p".to_owned());
        let mut p = String::new();
        push_decimal(&mut p, server.port as u64);
        args.push(p);
    }
    assert(strings_view(args@) == seq!["ssh"@] + port_args(*server));
    let ghost after_port = strings_view(args@);
    if server.auth_type == AuthType::Key {
        if let Some(path) = &server.key_path {
            if !path.as_str().is_empty() {
                args.push("-i".to_owned());
                args.push(path.clone());
            }
        }
    }
    assert(strings_view(args@) == after_port + identity_args(*server));
    push_str_option(&mut args, "ProxyJump=", &server.proxy_jump);
    push_num_option(&mut args, "ConnectTimeout=", server.connect_timeout_secs);
    push_num_option(&mut args, "ServerAliveInterval=", server.keepalive_interval_secs);
    push_num_option(&mut args, "ServerAliveCountMax=", server.keepalive_count_max);
    push_str_option(&mut args, "HostKeyAlgorithms=", &server.host_key_algorithms);
    push_str_option(&mut args, "PubkeyAcceptedKeyTypes=", &server.pubkey_accepted_key_types);
    let ghost before_target = strings_view(args@);
    let target = if server.username.as_str().is_empty() {
        server.host.clone()
    } else {
        let mut t = server.username.clone();
        t.append("@");
        t.append(server.host.as_str());
        t
    };
    args.push(target);
    assert(strings_view(args@) == before_target.push(ssh_target(*server)));
    args
}

/// Whether `c` may stand unquoted in a POSIX shell word: ASCII letters and
/// digits and `- _ = / , . +`.
pub open spec fn shell_safe(c: char) -> bool {
    ||| 'a' <= c <= 'z'
    ||| 'A' <= c <= 'Z'
    ||| '0' <= c <= '9'
    ||| c == '-'
    ||| c == '_'
    ||| c == '='
    ||| c == '/'
    ||| c == ','
    ||| c == '.'
    ||| c == '+'
}

/// One character inside single quotes: `'` and `!` close the quotes, are
/// written escaped with a backslash, and the quotes open again.
pub open spec fn quote_char(c: char) -> Seq<char> {
    if c == '\'' || c == '!' {
        seq!['\'', '\\', c, '\'']
    } else {
        seq![c]
    }
}

/// The characters of `s`, each as `quote_char` writes it.
pub open spec fn quote_body(s: Seq<char>) -> Seq<char>
    decreases s.len(),
{
    if s.len() == 0 {
        Seq::empty()
    } else {
        quote_body(s.drop_last()) + quote_char(s.last())
    }
}

/// `s` as a POSIX shell word: unchanged where it is not empty and every
/// character is `shell_safe`; otherwise in single quotes.
pub open spec fn shell_escape_spec(s: Seq<char>) -> Seq<char> {
    if s.len() > 0 && (forall|i: int| 0 <= i < s.len() ==> shell_safe(#[trigger] s[i])) {
        s
    } else {
        seq!['\''] + quote_body(s) + seq!['\'']
    }
}

/// Quotes `arg` for a POSIX shell with `shell_escape::unix::escape`.
/// Trusted: the crate's source returns the argument unchanged where it is not
/// empty and holds only ASCII letters, digits and `- _ = / , . +`; otherwise
/// it writes `'`, then each character, with `'` and `!` written as `'\''` and
/// `'\!'`, then `'`. `shell_escape_spec` states exactly that.
#[verifier::external_body]
fn shell_escape_unix(arg: &str) -> (res: String)
    ensures
        res@ == shell_escape_spec(arg@),
{
    shell_escape::unix::escape(Cow::Borrowed(arg)).into_owned()
}

/// The pieces of `parts` with `sep` between each two.
pub open spec fn join(parts: Seq<Seq<char>>, sep: Seq<char>) -> Seq<char>
    decreases parts.len(),
{
    if parts.len() == 0 {
        Seq::empty()
    } else if parts.len() == 1 {
        parts[0]
    } else {
        join(parts.drop_last(), sep) + sep + parts.last()
    }
}

/// `[String]::join`.
fn join_strings(parts: &Vec<String>, sep: &str) -> (res: String)
    ensures
        res@ == join(strings_view(parts@), sep@),
{
    let mut res = String::new();
    let mut i: usize = 0;
    while i < parts.len()
        invariant
            i <= parts.len(),
            res@ == join(strings_view(parts@).take(i as int), sep@),
        decreases parts.len() - i,
    {
        let ghost prev = strings_view(parts@).take(i as int);
        assert(strings_view(parts@).take(i + 1).drop_last() == prev);
        if i > 0 {
            res.append(sep);
        }
        res.append(parts[i].as_str());
        i = i + 1;
    }
    assert(strings_view(parts@).take(parts.len() as int) == strings_view(parts@));
    res
}

/// The arguments of `ssh_args_spec`, each quoted for the shell.
pub open spec fn escaped_args_spec(server: SshServerInfo) -> Seq<Seq<char>> {
    ssh_args_spec(server).map_values(|a: Seq<char>| shell_escape_spec(a))
}

/// The command line for `server`: the arguments of `build_ssh_args`, each
/// quoted for a POSIX shell, joined by single spaces.
pub fn build_ssh_command_line(server: &SshServerInfo) -> (line: String)
    ensures
        line@ == join(escaped_args_spec(*server), " "@),
{
    let args = build_ssh_args(server);
    let mut escaped: Vec<String> = Vec::new();
    let mut i: usize = 0;
    while i < args.len()
        invariant
            i <= args.len(),
            strings_view(args@) == ssh_args_spec(*server),
            strings_view(escaped@) == escaped_args_spec(*server).take(i as int),
        decreases args.len() - i,
    {
        assert(strings_view(args@)[i as int] == args@[i as int]@);
        let e = shell_escape_unix(args[i].as_str());
        let ghost old_escaped = escaped@;
        escaped.push(e);
        assert(escaped_args_spec(*server)[i as int] == shell_escape_spec(
            ssh_args_spec(*server)[i as int],
        ));
        assert(strings_view(escaped@) == strings_view(old_escaped).push(e@));
        assert(strings_view(escaped@) =~= escaped_args_spec(*server).take(i + 1));
        i = i + 1;
    }
    assert(escaped_args_spec(*server).take(args.len() as int) == escaped_args_spec(*server));
    join_strings(&escaped, " ")
}


/// Where a POSIX shell stands while it reads a command line: outside quotes,
/// inside single quotes, or right after a backslash outside quotes.
pub enum QuoteMode {
    Plain,
    Quoted,
    Escaped,
}

/// What a shell has read so far: the finished words, where it stands, and
/// the word being read (after quote removal).
pub struct ShellScan {
    pub words: Seq<Seq<char>>,
    pub mode: QuoteMode,
    pub current: Seq<char>,
}

/// The shell's reading after one more character: outside quotes a space ends
/// the word, `'` opens quotes and `\` takes the next character as it is;
/// inside quotes every character but `'` stands for itself.
pub open spec fn scan_char(st: ShellScan, c: char) -> ShellScan {
    match st.mode {
        QuoteMode::Plain => if c == ' ' {
            ShellScan { words: st.words.push(st.current), mode: QuoteMode::Plain, current: Seq::empty() }
        } else if c == '\'' {
            ShellScan { mode: QuoteMode::Quoted, ..st }
        } else if c == '\\' {
            ShellScan { mode: QuoteMode::Escaped, ..st }
        } else {
            ShellScan { current: st.current.push(c), ..st }
        },
        QuoteMode::Quoted => if c == '\'' {
            ShellScan { mode: QuoteMode::Plain, ..st }
        } else {
            ShellScan { current: st.current.push(c), ..st }
        },
        QuoteMode::Escaped => ShellScan { mode: QuoteMode::Plain, current: st.current.push(c), ..st },
    }
}

/// The shell's reading after the characters `s`, from `st`.
pub open spec fn scan_from(st: ShellScan, s: Seq<char>) -> ShellScan
    decreases s.len(),
{
    if s.len() == 0 {
        st
    } else {
        scan_char(scan_from(st, s.drop_last()), s.last())
    }
}

/// The reading outside quotes, with finished words `w` and current word `cur`.
pub open spec fn plain_scan(w: Seq<Seq<char>>, cur: Seq<char>) -> ShellScan {
    ShellScan { words: w, mode: QuoteMode::Plain, current: cur }
}

/// The reading inside quotes, with finished words `w` and current word `cur`.
pub open spec fn quoted_scan(w: Seq<Seq<char>>, cur: Seq<char>) -> ShellScan {
    ShellScan { words: w, mode: QuoteMode::Quoted, current: cur }
}

/// The words, after quote removal, that a POSIX shell reads from the command
/// line `s` (split at each space outside quotes).
pub open spec fn shell_words(s: Seq<char>) -> Seq<Seq<char>> {
    let st = scan_from(plain_scan(Seq::empty(), Seq::empty()), s);
    st.words.push(st.current)
}

proof fn lemma_scan_concat(st: ShellScan, s: Seq<char>, t: Seq<char>)
    ensures
        scan_from(st, s + t) == scan_from(scan_from(st, s), t),
    decreases t.len(),
{
    if t.len() == 0 {
        assert(s + t == s);
    } else {
        assert((s + t).drop_last() == s + t.drop_last());
        assert((s + t).last() == t.last());
        lemma_scan_concat(st, s, t.drop_last());
    }
}

proof fn lemma_scan_one(st: ShellScan, s: Seq<char>)
    requires
        s.len() == 1,
    ensures
        scan_from(st, s) == scan_char(st, s[0]),
{
    assert(s.drop_last() == Seq::<char>::empty());
    assert(scan_from(st, s.drop_last()) == st);
}

proof fn lemma_scan_safe(w: Seq<Seq<char>>, cur: Seq<char>, s: Seq<char>)
    requires
        forall|i: int| 0 <= i < s.len() ==> shell_safe(#[trigger] s[i]),
    ensures
        scan_from(plain_scan(w, cur), s) == plain_scan(w, cur + s),
    decreases s.len(),
{
    if s.len() == 0 {
        assert(cur + s == cur);
    } else {
        lemma_scan_safe(w, cur, s.drop_last());
        assert(shell_safe(s.last()));
        assert((cur + s.drop_last()).push(s.last()) == cur + s);
    }
}

proof fn lemma_scan_quoted(w: Seq<Seq<char>>, cur: Seq<char>, s: Seq<char>)
    ensures
        scan_from(quoted_scan(w, cur), quote_body(s)) == quoted_scan(w, cur + s),
    decreases s.len(),
{
    let st0 = ShellScan { words: w, mode: QuoteMode::Quoted, current: cur };
    if s.len() == 0 {
        assert(quote_body(s) == Seq::<char>::empty());
        assert(cur + s == cur);
    } else {
        let c = s.last();
        let s1 = s.drop_last();
        lemma_scan_quoted(w, cur, s1);
        assert(quote_body(s) == quote_body(s1) + quote_char(c));
        lemma_scan_concat(st0, quote_body(s1), quote_char(c));
        let mid = ShellScan { words: w, mode: QuoteMode::Quoted, current: cur + s1 };
        let q = quote_char(c);
        if c == '\'' || c == '!' {
            assert(q.drop_last().drop_last().drop_last().drop_last() == Seq::<char>::empty());
            assert(q.drop_last().drop_last().drop_last() == seq!['\'']);
            assert(q.drop_last().drop_last() == seq!['\'', '\\']);
            assert(q.drop_last() == seq!['\'', '\\', c]);
            let a1 = scan_from(mid, q.drop_last().drop_last().drop_last());
            lemma_scan_one(mid, q.drop_last().drop_last().drop_last());
            let a2 = scan_from(mid, q.drop_last().drop_last());
            assert(a2 == scan_char(a1, '\\'));
            let a3 = scan_from(mid, q.drop_last());
            assert(a3 == scan_char(a2, c));
            assert(scan_from(mid, q) == scan_char(a3, '\''));
        } else {
            assert(q.drop_last() == Seq::<char>::empty());
            assert(scan_from(mid, q) == scan_char(mid, c));
        }
        assert((cur + s1).push(c) == cur + s);
    }
}

/// Reading an escaped word appends exactly the unescaped characters to the
/// word being read, and leaves the shell outside quotes.
proof fn lemma_scan_escaped(w: Seq<Seq<char>>, cur: Seq<char>, s: Seq<char>)
    ensures
        scan_from(plain_scan(w, cur), shell_escape_spec(s)) == plain_scan(w, cur + s),
{
    let st0 = ShellScan { words: w, mode: QuoteMode::Plain, current: cur };
    if s.len() > 0 && (forall|i: int| 0 <= i < s.len() ==> shell_safe(#[trigger] s[i])) {
        lemma_scan_safe(w, cur, s);
    } else {
        let open = seq!['\''];
        lemma_scan_concat(st0, open + quote_body(s), seq!['\'']);
        lemma_scan_concat(st0, open, quote_body(s));
        lemma_scan_one(st0, open);
        lemma_scan_quoted(w, cur, s);
        let q = ShellScan { words: w, mode: QuoteMode::Quoted, current: cur + s };
        lemma_scan_one(q, seq!['\'']);
    }
}

/// What `shell_escape_unix` writes, a POSIX shell reads back as one word
/// equal to its argument, whatever characters that holds.
pub proof fn law_shell_escape_roundtrip(s: Seq<char>)
    ensures
        shell_words(shell_escape_spec(s)) == seq![s],
{
    lemma_scan_escaped(Seq::empty(), Seq::empty(), s);
    assert(Seq::<char>::empty() + s == s);
}

proof fn lemma_scan_joined(parts: Seq<Seq<char>>)
    requires
        parts.len() > 0,
    ensures
        scan_from(
            plain_scan(Seq::empty(), Seq::empty()),
            join(parts.map_values(|a: Seq<char>| shell_escape_spec(a)), " "@),
        ) == plain_scan(parts.drop_last(), parts.last()),
    decreases parts.len(),
{
    let init = ShellScan { words: Seq::empty(), mode: QuoteMode::Plain, current: Seq::empty() };
    let es = parts.map_values(|a: Seq<char>| shell_escape_spec(a));
    if parts.len() == 1 {
        assert(join(es, " "@) == es[0]);
        lemma_scan_escaped(Seq::empty(), Seq::empty(), parts[0]);
        assert(Seq::<char>::empty() + parts[0] == parts[0]);
        assert(parts.drop_last() == Seq::<Seq<char>>::empty());
    } else {
        let p1 = parts.drop_last();
        lemma_scan_joined(p1);
        assert(es.drop_last() == p1.map_values(|a: Seq<char>| shell_escape_spec(a)));
        let j1 = join(es.drop_last(), " "@);
        assert(join(es, " "@) == j1 + " "@ + es.last());
        lemma_scan_concat(init, j1 + " "@, es.last());
        lemma_scan_concat(init, j1, " "@);
        let mid = ShellScan { words: p1.drop_last(), mode: QuoteMode::Plain, current: p1.last() };
        reveal_strlit(" ");
        lemma_scan_one(mid, " "@);
        assert(p1.drop_last().push(p1.last()) == p1);
        lemma_scan_escaped(p1, Seq::empty(), parts.last());
        assert(Seq::<char>::empty() + parts.last() == parts.last());
    }
}

/// A POSIX shell splits the command line of `build_ssh_command_line` back
/// into exactly the arguments of `build_ssh_args`.
pub proof fn law_command_line_words(server: SshServerInfo)
    ensures
        shell_words(join(escaped_args_spec(server), " "@)) == ssh_args_spec(server),
{
    lemma_scan_joined(ssh_args_spec(server));
    assert(ssh_args_spec(server).drop_last().push(ssh_args_spec(server).last()) == ssh_args_spec(
        server,
    ));
}

/// The command starts with `ssh` and ends with the target; a port other than
/// 22 comes right after `ssh` as `-p PORT`.
pub proof fn law_ssh_args_shape(server: SshServerInfo)
    ensures
        ssh_args_spec(server).len() >= 2,
        ssh_args_spec(server)[0] == "ssh"@,
        ssh_args_spec(server).last() == ssh_target(server),
        server.username@.len() == 0 ==> ssh_args_spec(server).last() == server.host@,
        server.username@.len() > 0 ==> ssh_args_spec(server).last() == server.username@ + "@"@
            + server.host@,
        server.port != 22 ==> ssh_args_spec(server)[1] == "-p"@ && ssh_args_spec(server)[2]
            == decimal(server.port as nat),
{
}


/// Whether `flag` is immediately followed by `value` somewhere in `args`.
pub open spec fn has_pair(args: Seq<Seq<char>>, flag: Seq<char>, value: Seq<char>) -> bool {
    exists|k: int| 0 <= k && k + 1 < args.len() && #[trigger] args[k] == flag && args[k + 1] == value
}

proof fn lemma_pair_end(pre: Seq<Seq<char>>, mid: Seq<Seq<char>>)
    requires
        mid.len() == 2,
    ensures
        has_pair(pre + mid, mid[0], mid[1]),
{
    let all = pre + mid;
    let k = pre.len() as int;
    assert(all[k] == mid[0]);
    assert(all[k + 1] == mid[1]);
}

proof fn lemma_pair_extend(args: Seq<Seq<char>>, extra: Seq<Seq<char>>, flag: Seq<char>, value: Seq<char>)
    requires
        has_pair(args, flag, value),
    ensures
        has_pair(args + extra, flag, value),
{
    let k = choose|k: int| 0 <= k && k + 1 < args.len() && #[trigger] args[k] == flag && args[k + 1] == value;
    assert((args + extra)[k] == args[k]);
    assert((args + extra)[k + 1] == args[k + 1]);
}

/// Each option reaches the arguments through its own field alone, whatever
/// the other fields hold: `-i PATH` under key authentication with a key path
/// that is not empty, and `-o NAME=VALUE` for every number that is set and
/// every string option that is set and not empty.
pub proof fn law_each_option_present(s: SshServerInfo)
    ensures
        s.auth_type == AuthType::Key ==> (s.key_path matches Some(p) ==> (p@.len() > 0 ==> has_pair(
            ssh_args_spec(s),
            "-i"@,
            p@,
        ))),
        s.proxy_jump matches Some(v) ==> (v@.len() > 0 ==> has_pair(
            ssh_args_spec(s),
            "-o"@,
            "ProxyJump="@ + v@,
        )),
        s.connect_timeout_secs matches Some(n) ==> has_pair(
            ssh_args_spec(s),
            "-o"@,
            "ConnectTimeout="@ + decimal(n as nat),
        ),
        s.keepalive_interval_secs matches Some(n) ==> has_pair(
            ssh_args_spec(s),
            "-o"@,
            "ServerAliveInterval="@ + decimal(n as nat),
        ),
        s.keepalive_count_max matches Some(n) ==> has_pair(
            ssh_args_spec(s),
            "-o"@,
            "ServerAliveCountMax="@ + decimal(n as nat),
        ),
        s.host_key_algorithms matches Some(v) ==> (v@.len() > 0 ==> has_pair(
            ssh_args_spec(s),
            "-o"@,
            "HostKeyAlgorithms="@ + v@,
        )),
        s.pubkey_accepted_key_types matches Some(v) ==> (v@.len() > 0 ==> has_pair(
            ssh_args_spec(s),
            "-o"@,
            "PubkeyAcceptedKeyTypes="@ + v@,
        )),
{
    let x0 = seq!["ssh"@] + port_args(s);
    let i = identity_args(s);
    let o1 = option_args("ProxyJump="@, non_empty(s.proxy_jump));
    let o2 = option_args("ConnectTimeout="@, numeral(s.connect_timeout_secs));
    let o3 = option_args("ServerAliveInterval="@, numeral(s.keepalive_interval_secs));
    let o4 = option_args("ServerAliveCountMax="@, numeral(s.keepalive_count_max));
    let o5 = option_args("HostKeyAlgorithms="@, non_empty(s.host_key_algorithms));
    let o6 = option_args("PubkeyAcceptedKeyTypes="@, non_empty(s.pubkey_accepted_key_types));
    let t = seq![ssh_target(s)];
    let p1 = x0 + i;
    let p2 = p1 + o1;
    let p3 = p2 + o2;
    let p4 = p3 + o3;
    let p5 = p4 + o4;
    let p6 = p5 + o5;
    let p7 = p6 + o6;
    assert(ssh_args_spec(s) == p7 + t);
    assert(i.len() == 2 ==> has_pair(ssh_args_spec(s), i[0], i[1])) by {
        if i.len() == 2 {
            lemma_pair_end(x0, i);
            lemma_pair_extend(p1, o1, i[0], i[1]);
            lemma_pair_extend(p2, o2, i[0], i[1]);
            lemma_pair_extend(p3, o3, i[0], i[1]);
            lemma_pair_extend(p4, o4, i[0], i[1]);
            lemma_pair_extend(p5, o5, i[0], i[1]);
            lemma_pair_extend(p6, o6, i[0], i[1]);
            lemma_pair_extend(p7, t, i[0], i[1]);
        }
    }
    assert(o1.len() == 2 ==> has_pair(ssh_args_spec(s), o1[0], o1[1])) by {
        if o1.len() == 2 {
            lemma_pair_end(p1, o1);
            lemma_pair_extend(p2, o2, o1[0], o1[1]);
            lemma_pair_extend(p3, o3, o1[0], o1[1]);
            lemma_pair_extend(p4, o4, o1[0], o1[1]);
            lemma_pair_extend(p5, o5, o1[0], o1[1]);
            lemma_pair_extend(p6, o6, o1[0], o1[1]);
            lemma_pair_extend(p7, t, o1[0], o1[1]);
        }
    }
    assert(o2.len() == 2 ==> has_pair(ssh_args_spec(s), o2[0], o2[1])) by {
        if o2.len() == 2 {
            lemma_pair_end(p2, o2);
            lemma_pair_extend(p3, o3, o2[0], o2[1]);
            lemma_pair_extend(p4, o4, o2[0], o2[1]);
            lemma_pair_extend(p5, o5, o2[0], o2[1]);
            lemma_pair_extend(p6, o6, o2[0], o2[1]);
            lemma_pair_extend(p7, t, o2[0], o2[1]);
        }
    }
    assert(o3.len() == 2 ==> has_pair(ssh_args_spec(s), o3[0], o3[1])) by {
        if o3.len() == 2 {
            lemma_pair_end(p3, o3);
            lemma_pair_extend(p4, o4, o3[0], o3[1]);
            lemma_pair_extend(p5, o5, o3[0], o3[1]);
            lemma_pair_extend(p6, o6, o3[0], o3[1]);
            lemma_pair_extend(p7, t, o3[0], o3[1]);
        }
    }
    assert(o4.len() == 2 ==> has_pair(ssh_args_spec(s), o4[0], o4[1])) by {
        if o4.len() == 2 {
            lemma_pair_end(p4, o4);
            lemma_pair_extend(p5, o5, o4[0], o4[1]);
            lemma_pair_extend(p6, o6, o4[0], o4[1]);
            lemma_pair_extend(p7, t, o4[0], o4[1]);
        }
    }
    assert(o5.len() == 2 ==> has_pair(ssh_args_spec(s), o5[0], o5[1])) by {
        if o5.len() == 2 {
            lemma_pair_end(p5, o5);
            lemma_pair_extend(p6, o6, o5[0], o5[1]);
            lemma_pair_extend(p7, t, o5[0], o5[1]);
        }
    }
    assert(o6.len() == 2 ==> has_pair(ssh_args_spec(s), o6[0], o6[1])) by {
        if o6.len() == 2 {
            lemma_pair_end(p6, o6);
            lemma_pair_extend(p7, t, o6[0], o6[1]);
        }
    }
}

} // verus!
