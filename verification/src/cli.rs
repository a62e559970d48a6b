//! The command line of the wiki server.

use vstd::prelude::*;
use crate::text::{append_str, chars_of, has_suffix, push_char, replace, replace_all, str_eq};

verus! {

// ---------------------------------------------------------------------
// Numbers
// ---------------------------------------------------------------------

/// Is `c` a decimal digit?
pub open spec fn is_digit(c: char) -> bool {
    '0' <= c && c <= '9'
}

/// The value of a decimal digit.
pub open spec fn digit_value(c: char) -> int {
    (c as int) - ('0' as int)
}

/// The value of a string of decimal digits.
pub open spec fn digits_value(s: Seq<char>) -> int
    decreases s.len(),
{
    if s.len() == 0 {
        0
    } else {
        digits_value(s.drop_last()) * 10 + digit_value(s.last())
    }
}

/// Is `s` a non-empty string of decimal digits?
pub open spec fn all_digits(s: Seq<char>) -> bool {
    s.len() > 0 && forall|i: int| 0 <= i < s.len() ==> is_digit(#[trigger] s[i])
}

/// The `i32` a text stands for, as `str::parse::<i32>` reads it: an
/// optional sign, then one or more decimal digits, within range.
pub open spec fn parsed_i32(s: Seq<char>) -> Option<i32> {
    let negative = s.len() > 0 && s[0] == '-';
    let signed = s.len() > 0 && (s[0] == '-' || s[0] == '+');
    let digits = if signed {
        s.skip(1)
    } else {
        s
    };
    let value = if negative {
        -digits_value(digits)
    } else {
        digits_value(digits)
    };
    if all_digits(digits) && i32::MIN <= value <= i32::MAX {
        Some(value as i32)
    } else {
        None
    }
}

/// The value of digits is never negative, and grows as digits are added.
proof fn lemma_digits_value_prefix(s: Seq<char>, k: int)
    requires
        0 <= k <= s.len(),
        forall|i: int| 0 <= i < s.len() ==> is_digit(#[trigger] s[i]),
    ensures
        0 <= digits_value(s.take(k)) <= digits_value(s),
    decreases s.len(),
{
    if s.len() > 0 {
        let t = s.drop_last();
        if k == s.len() {
            assert(s.take(k) =~= s);
            lemma_digits_value_prefix(t, t.len() as int);
            assert(t.take(t.len() as int) =~= t);
        } else {
            lemma_digits_value_prefix(t, k);
            assert(t.take(k) =~= s.take(k));
            lemma_digits_value_prefix(t, t.len() as int);
            assert(t.take(t.len() as int) =~= t);
            assert(is_digit(s[s.len() - 1]));
        }
    } else {
        assert(s.take(k) =~= s);
    }
}

/// Reads a text as an `i32` (`str::parse::<i32>`).
pub fn parse_i32(s: &str) -> (n: Option<i32>)
    ensures
        n == parsed_i32(s@),
{
    let v = chars_of(s);
    let negative = v.len() > 0 && v[0] == '-';
    let signed = v.len() > 0 && (v[0] == '-' || v[0] == '+');
    let start: usize = if signed {
        1
    } else {
        0
    };
    let ghost digits = v@.skip(start as int);
    assert(signed ==> digits == s@.skip(1));
    assert(!signed ==> digits =~= s@);
    if start == v.len() {
        assert(!all_digits(digits));
        return None;
    }
    let mut acc: i64 = 0;
    let mut i = start;
    while i < v.len()
        invariant
            start <= i <= v.len(),
            start < v.len(),
            v@ == s@,
            signed == (s@.len() > 0 && (s@[0] == '-' || s@[0] == '+')),
            negative == (s@.len() > 0 && s@[0] == '-'),
            start == (if signed {
                1usize
            } else {
                0usize
            }),
            digits == v@.skip(start as int),
            digits == (if signed {
                s@.skip(1)
            } else {
                s@
            }),
            forall|k: int| start <= k < i ==> is_digit(#[trigger] v@[k]),
            acc == digits_value(digits.take(i - start)),
            0 <= acc <= 2147483648,
        decreases v.len() - i,
    {
        let c = v[i];
        if !('0' <= c && c <= '9') {
            assert(!is_digit(digits[i - start]));
            assert(!all_digits(digits));
            return None;
        }
        let d: i64 = (c as u32 - '0' as u32) as i64;
        let next = acc * 10 + d;
        let ghost pre = digits.take(i - start);
        i += 1;
        assert(digits.take(i - start).drop_last() =~= pre);
        assert(digits.take(i - start).last() == c);
        assert(next == digits_value(digits.take(i - start)));
        if next > 2147483648 {
            proof {
                if all_digits(digits) {
                    lemma_digits_value_prefix(digits, i - start);
                }
            }
            return None;
        }
        acc = next;
    }
    assert(digits.take(digits.len() as int) =~= digits);
    assert(all_digits(digits)) by {
        assert forall|k: int| 0 <= k < digits.len() implies is_digit(#[trigger] digits[k]) by {
            assert(digits[k] == v@[start + k]);
        }
    }
    if negative {
        Some((0 - acc) as i32)
    } else if acc > 2147483647 {
        None
    } else {
        Some(acc as i32)
    }
}

/// A single decimal digit `0` to `9` reads as its own value.
pub proof fn lemma_one_digit_reads_as_itself(c: char)
    requires
        '0' <= c <= '9',
    ensures
        parsed_i32(seq![c]) == Some((c as int - '0' as int) as i32),
{
    let s = seq![c];
    assert(s.drop_last() =~= Seq::<char>::empty());
    assert(digits_value(Seq::<char>::empty()) == 0);
    assert(s.last() == c);
    assert(digits_value(s) == c as int - '0' as int);
}

/// Appending a decimal digit to a number made of decimal digits multiplies
/// it by ten and adds the digit, as long as the result stays within `i32`;
/// past `i32::MAX` it reads as no number, and so does anything after it.
pub proof fn lemma_appended_digit_shifts_the_number(s: Seq<char>, c: char)
    requires
        s.len() > 0,
        forall|k: int| 0 <= k < s.len() ==> '0' <= #[trigger] s[k] <= '9',
        '0' <= c <= '9',
    ensures
        match parsed_i32(s) {
            Some(n) => 0 <= n && parsed_i32(s.push(c)) == if n * 10 + (c as int - '0' as int)
                <= i32::MAX {
                Some((n * 10 + (c as int - '0' as int)) as i32)
            } else {
                None
            },
            None => parsed_i32(s.push(c)) is None,
        },
{
    let t = s.push(c);
    assert(t.drop_last() =~= s);
    assert(t[0] == s[0]);
    assert(all_digits(s));
    assert(all_digits(t)) by {
        assert forall|k: int| 0 <= k < t.len() implies is_digit(#[trigger] t[k]) by {
            if k < s.len() {
                assert(t[k] == s[k]);
            }
        }
    }
    lemma_digits_value_prefix(s, s.len() as int);
    assert(s.take(s.len() as int) =~= s);
    assert(digits_value(t) == digits_value(s) * 10 + (c as int - '0' as int));
}

// ---------------------------------------------------------------------
// Arguments
// ---------------------------------------------------------------------

/// How the server is started.
pub struct Options {
    /// The wiki's directory (empty where none was given).
    pub path: String,
    pub host: String,
    pub port: i32,
    /// Keep the wiki synced with its git repository.
    pub sync: bool,
}

/// What the command line asks for.
pub enum Command {
    /// Print the version.
    Version,
    /// Print the usage.
    Help,
    /// Print this error.
    Fail(String),
    /// A port that is no `i32`: reading it fails.
    BadPort(String),
    /// Start the server.
    Run(Options),
}

/// What the command line asks for, as values.
pub enum CommandSpec {
    Version,
    Help,
    Fail(Seq<char>),
    BadPort(Seq<char>),
    Run { path: Seq<char>, host: Seq<char>, port: i32, sync: bool },
}

pub open spec fn is_version_flag(a: Seq<char>) -> bool {
    a == "-v"@ || a == "-version"@ || a == "--version"@
}

pub open spec fn is_help_flag(a: Seq<char>) -> bool {
    a == "-h"@ || a == "-help"@ || a == "--help"@
}

pub open spec fn is_sync_flag(a: Seq<char>) -> bool {
    a == "-s"@ || a == "-sync"@ || a == "--sync"@
}

pub open spec fn is_host_flag(a: Seq<char>) -> bool {
    a == "-H"@ || a == "-host"@ || a == "--host"@
}

pub open spec fn is_port_flag(a: Seq<char>) -> bool {
    a == "-p"@ || a == "-port"@ || a == "--port"@
}

/// Reads the arguments from position `i` on, with the settings read so far.
pub open spec fn read_args(
    args: Seq<Seq<char>>,
    i: int,
    path: Seq<char>,
    host: Seq<char>,
    port: i32,
    sync: bool,
) -> CommandSpec
    decreases args.len() - i,
{
    if i < 0 || i >= args.len() {
        CommandSpec::Run { path, host, port, sync }
    } else {
        let a = args[i];
        if is_version_flag(a) {
            CommandSpec::Version
        } else if is_help_flag(a) {
            CommandSpec::Help
        } else if is_sync_flag(a) {
            read_args(args, i + 1, path, host, port, true)
        } else if is_host_flag(a) {
            if i + 1 < args.len() {
                read_args(args, i + 2, path, args[i + 1], port, sync)
            } else {
                CommandSpec::Fail("--host needs a value"@)
            }
        } else if is_port_flag(a) {
            if i + 1 < args.len() {
                match parsed_i32(args[i + 1]) {
                    Some(p) => read_args(args, i + 2, path, host, p, sync),
                    None => CommandSpec::BadPort(args[i + 1]),
                }
            } else {
                CommandSpec::Fail("--port needs a value"@)
            }
        } else if a.len() > 0 && a[0] == '-' {
            CommandSpec::Fail("unknown option: "@ + a)
        } else {
            read_args(args, i + 1, a, host, port, sync)
        }
    }
}

/// What a command line asks for: no path, host `0.0.0.0`, port 8000 and no
/// syncing unless it says otherwise.
pub open spec fn command_of(args: Seq<Seq<char>>) -> CommandSpec {
    read_args(args, 0, Seq::<char>::empty(), "0.0.0.0"@, 8000, false)
}

impl Command {
    /// The command as values.
    pub open spec fn spec(&self) -> CommandSpec {
        match *self {
            Command::Version => CommandSpec::Version,
            Command::Help => CommandSpec::Help,
            Command::Fail(m) => CommandSpec::Fail(m@),
            Command::BadPort(p) => CommandSpec::BadPort(p@),
            Command::Run(o) => CommandSpec::Run {
                path: o.path@,
                host: o.host@,
                port: o.port,
                sync: o.sync,
            },
        }
    }
}

/// Is `a` one of the three spellings of a flag?
fn is_flag(a: &str, short: &str, long: &str, longer: &str) -> (b: bool)
    ensures
        b == (a@ == short@ || a@ == long@ || a@ == longer@),
{
    str_eq(a, short) || str_eq(a, long) || str_eq(a, longer)
}

/// A copy of `s`.
fn copy_of(s: &str) -> (r: String)
    ensures
        r@ == s@,
{
    let mut r = String::new();
    append_str(&mut r, s);
    r
}

/// Reads the command line (the arguments after the program's name).
pub fn parse_args(args: &Vec<String>) -> (cmd: Command)
    ensures
        cmd.spec() == command_of(views_of(args@)),
{
    let ghost all = views_of(args@);
    let mut path = String::new();
    let mut host = copy_of("0.0.0.0");
    let mut port: i32 = 8000;
    let mut sync = false;
    let mut i: usize = 0;
    while i < args.len()
        invariant
            i <= args.len(),
            all == views_of(args@),
            read_args(all, i as int, path@, host@, port, sync) == command_of(all),
        decreases args.len() - i,
    {
        let a = args[i].as_str();
        assert(all[i as int] == a@);
        if is_flag(a, "-v", "-version", "--version") {
            return Command::Version;
        } else if is_flag(a, "-h", "-help", "--help") {
            return Command::Help;
        } else if is_flag(a, "-s", "-sync", "--sync") {
            sync = true;
            i += 1;
        } else if is_flag(a, "-H", "-host", "--host") {
            if i + 1 < args.len() {
                assert(all[i + 1] == args@[i + 1]@);
                host = copy_of(args[i + 1].as_str());
                i += 2;
            } else {
                return Command::Fail(copy_of("--host needs a value"));
            }
        } else if is_flag(a, "-p", "-port", "--port") {
            if i + 1 < args.len() {
                assert(all[i + 1] == args@[i + 1]@);
                match parse_i32(args[i + 1].as_str()) {
                    Some(p) => {
                        port = p;
                        i += 2;
                    },
                    None => {
                        return Command::BadPort(copy_of(args[i + 1].as_str()));
                    },
                }
            } else {
                return Command::Fail(copy_of("--port needs a value"));
            }
        } else {
            let v = chars_of(a);
            if v.len() > 0 && v[0] == '-' {
                let mut msg = copy_of("unknown option: ");
                append_str(&mut msg, a);
                return Command::Fail(msg);
            }
            path = copy_of(a);
            i += 1;
        }
    }
    Command::Run(Options { path, host, port, sync })
}

/// Reading on from position `i` keeps the host where no later argument
/// names one, and the port where no later argument names one.
proof fn lemma_settings_kept(
    args: Seq<Seq<char>>,
    i: int,
    path: Seq<char>,
    host: Seq<char>,
    port: i32,
    sync: bool,
)
    requires
        0 <= i,
    ensures
        (forall|k: int| i <= k < args.len() ==> !is_host_flag(#[trigger] args[k])) ==> (read_args(
            args,
            i,
            path,
            host,
            port,
            sync,
        ) matches CommandSpec::Run { host: h, .. } ==> h == host),
        (forall|k: int| i <= k < args.len() ==> !is_port_flag(#[trigger] args[k])) ==> (read_args(
            args,
            i,
            path,
            host,
            port,
            sync,
        ) matches CommandSpec::Run { port: p, .. } ==> p == port),
    decreases args.len() - i,
{
    if i < args.len() {
        let a = args[i];
        lemma_settings_kept(args, i + 1, path, host, port, true);
        lemma_settings_kept(args, i + 1, a, host, port, sync);
        if i + 1 < args.len() {
            lemma_settings_kept(args, i + 2, path, args[i + 1], port, sync);
            if let Some(p) = parsed_i32(args[i + 1]) {
                lemma_settings_kept(args, i + 2, path, host, p, sync);
            }
        }
    }
}

/// The server binds to host `0.0.0.0` unless the command line names a host,
/// and to port 8000 unless it names a port.
pub proof fn lemma_default_host_and_port(args: Seq<Seq<char>>)
    ensures
        (forall|k: int| 0 <= k < args.len() ==> !is_host_flag(#[trigger] args[k])) ==> (command_of(
            args,
        ) matches CommandSpec::Run { host, .. } ==> host == "0.0.0.0"@),
        (forall|k: int| 0 <= k < args.len() ==> !is_port_flag(#[trigger] args[k])) ==> (command_of(
            args,
        ) matches CommandSpec::Run { port, .. } ==> port == 8000),
{
    lemma_settings_kept(args, 0, Seq::<char>::empty(), "0.0.0.0"@, 8000, false);
}

/// An argument that names no flag: empty, or not starting with `-`.
pub open spec fn is_plain_arg(a: Seq<char>) -> bool {
    !(a.len() > 0 && a[0] == '-')
}

/// Every spelling of every flag starts with `-`, and the spellings of one
/// flag are none of another's.
proof fn lemma_flag_spellings()
    ensures
        forall|a: Seq<char>|
            #![trigger is_plain_arg(a)]
            is_plain_arg(a) ==> !is_version_flag(a) && !is_help_flag(a) && !is_sync_flag(a)
                && !is_host_flag(a) && !is_port_flag(a),
        !is_version_flag("-h"@) && !is_version_flag("-help"@) && !is_version_flag("--help"@),
        !is_version_flag("-s"@) && !is_version_flag("-sync"@) && !is_version_flag("--sync"@),
        !is_help_flag("-s"@) && !is_help_flag("-sync"@) && !is_help_flag("--sync"@),
        !is_version_flag("-H"@) && !is_version_flag("-host"@) && !is_version_flag("--host"@),
        !is_help_flag("-H"@) && !is_help_flag("-host"@) && !is_help_flag("--host"@),
        !is_sync_flag("-H"@) && !is_sync_flag("-host"@) && !is_sync_flag("--host"@),
        !is_version_flag("-p"@) && !is_version_flag("-port"@) && !is_version_flag("--port"@),
        !is_help_flag("-p"@) && !is_help_flag("-port"@) && !is_help_flag("--port"@),
        !is_sync_flag("-p"@) && !is_sync_flag("-port"@) && !is_sync_flag("--port"@),
        !is_host_flag("-p"@) && !is_host_flag("-port"@) && !is_host_flag("--port"@),
{
    reveal_strlit("-v");
    reveal_strlit("-version");
    reveal_strlit("--version");
    reveal_strlit("-h");
    reveal_strlit("-help");
    reveal_strlit("--help");
    reveal_strlit("-s");
    reveal_strlit("-sync");
    reveal_strlit("--sync");
    reveal_strlit("-H");
    reveal_strlit("-host");
    reveal_strlit("--host");
    reveal_strlit("-p");
    reveal_strlit("-port");
    reveal_strlit("--port");
    assert("-v"@.len() == 2 && "-h"@.len() == 2 && "-s"@.len() == 2 && "-H"@.len() == 2
        && "-p"@.len() == 2);
    assert("-help"@.len() == 5 && "-sync"@.len() == 5 && "-host"@.len() == 5 && "-port"@.len()
        == 5);
    assert("--help"@.len() == 6 && "--sync"@.len() == 6 && "--host"@.len() == 6
        && "--port"@.len() == 6);
    assert("-version"@.len() == 8 && "--version"@.len() == 9);
    assert("-h"@[1] != "-v"@[1] && "-s"@[1] != "-v"@[1] && "-s"@[1] != "-h"@[1]);
    assert("-H"@[1] != "-v"@[1] && "-H"@[1] != "-h"@[1] && "-H"@[1] != "-s"@[1]);
    assert("-p"@[1] != "-v"@[1] && "-p"@[1] != "-h"@[1] && "-p"@[1] != "-s"@[1] && "-p"@[1]
        != "-H"@[1]);
    assert("-sync"@[1] != "-help"@[1] && "-host"@[2] != "-help"@[2] && "-host"@[1]
        != "-sync"@[1]);
    assert("-port"@[1] != "-help"@[1] && "-port"@[1] != "-sync"@[1] && "-port"@[1]
        != "-host"@[1]);
    assert("--sync"@[2] != "--help"@[2] && "--host"@[3] != "--help"@[3] && "--host"@[2]
        != "--sync"@[2]);
    assert("--port"@[2] != "--help"@[2] && "--port"@[2] != "--sync"@[2] && "--port"@[2]
        != "--host"@[2]);
}

/// Plain arguments from position `i` on only name the wiki's directory:
/// the last of them is the path, and the other settings stay as they are.
proof fn lemma_plain_args_name_the_path(
    args: Seq<Seq<char>>,
    i: int,
    path: Seq<char>,
    host: Seq<char>,
    port: i32,
    sync: bool,
)
    requires
        0 <= i <= args.len(),
        forall|k: int| i <= k < args.len() ==> is_plain_arg(#[trigger] args[k]),
    ensures
        read_args(args, i, path, host, port, sync) == (CommandSpec::Run {
            path: if i < args.len() {
                args.last()
            } else {
                path
            },
            host,
            port,
            sync,
        }),
    decreases args.len() - i,
{
    if i < args.len() {
        lemma_flag_spellings();
        assert(is_plain_arg(args[i]));
        lemma_plain_args_name_the_path(args, i + 1, args[i], host, port, sync);
    }
}

/// `-v`, `-version` or `--version` as the first argument asks for the
/// version, whatever follows.
pub proof fn lemma_version_flag_asks_for_version(args: Seq<Seq<char>>)
    requires
        args.len() > 0,
        args[0] == "-v"@ || args[0] == "-version"@ || args[0] == "--version"@,
    ensures
        command_of(args) == CommandSpec::Version,
{
}

/// `-h`, `-help` or `--help` as the first argument asks for the usage,
/// whatever follows.
pub proof fn lemma_help_flag_asks_for_help(args: Seq<Seq<char>>)
    requires
        args.len() > 0,
        args[0] == "-h"@ || args[0] == "-help"@ || args[0] == "--help"@,
    ensures
        command_of(args) == CommandSpec::Help,
{
    lemma_flag_spellings();
}

/// `-s`, `-sync` or `--sync` followed by plain arguments starts the server
/// with syncing on, the last plain argument as its directory.
pub proof fn lemma_sync_flag_turns_on_sync(flag: Seq<char>, rest: Seq<Seq<char>>)
    requires
        flag == "-s"@ || flag == "-sync"@ || flag == "--sync"@,
        forall|k: int| 0 <= k < rest.len() ==> is_plain_arg(#[trigger] rest[k]),
    ensures
        command_of(seq![flag] + rest) == (CommandSpec::Run {
            path: if rest.len() > 0 {
                rest.last()
            } else {
                Seq::<char>::empty()
            },
            host: "0.0.0.0"@,
            port: 8000,
            sync: true,
        }),
{
    let args = seq![flag] + rest;
    lemma_flag_spellings();
    assert forall|k: int| 1 <= k < args.len() implies is_plain_arg(#[trigger] args[k]) by {
        assert(args[k] == rest[k - 1]);
    }
    lemma_plain_args_name_the_path(args, 1, Seq::<char>::empty(), "0.0.0.0"@, 8000, true);
    if rest.len() > 0 {
        assert(args.last() == rest.last());
    }
}

/// `-H`, `-host` or `--host` followed by a value `h` and plain arguments
/// starts the server on host `h`, the last plain argument as its directory.
pub proof fn lemma_host_flag_names_host(flag: Seq<char>, h: Seq<char>, rest: Seq<Seq<char>>)
    requires
        flag == "-H"@ || flag == "-host"@ || flag == "--host"@,
        forall|k: int| 0 <= k < rest.len() ==> is_plain_arg(#[trigger] rest[k]),
    ensures
        command_of(seq![flag, h] + rest) == (CommandSpec::Run {
            path: if rest.len() > 0 {
                rest.last()
            } else {
                Seq::<char>::empty()
            },
            host: h,
            port: 8000,
            sync: false,
        }),
{
    let args = seq![flag, h] + rest;
    lemma_flag_spellings();
    assert(args[0] == flag && args[1] == h);
    assert forall|k: int| 2 <= k < args.len() implies is_plain_arg(#[trigger] args[k]) by {
        assert(args[k] == rest[k - 2]);
    }
    lemma_plain_args_name_the_path(args, 2, Seq::<char>::empty(), h, 8000, false);
    if rest.len() > 0 {
        assert(args.last() == rest.last());
    }
}

/// `-p`, `-port` or `--port` followed by a number `n` and plain arguments
/// starts the server on port `n`, the last plain argument as its
/// directory; followed by a text that is no `i32`, the port is refused.
pub proof fn lemma_port_flag_names_port(flag: Seq<char>, p: Seq<char>, rest: Seq<Seq<char>>)
    requires
        flag == "-p"@ || flag == "-port"@ || flag == "--port"@,
        forall|k: int| 0 <= k < rest.len() ==> is_plain_arg(#[trigger] rest[k]),
    ensures
        command_of(seq![flag, p] + rest) == match parsed_i32(p) {
            Some(n) => CommandSpec::Run {
                path: if rest.len() > 0 {
                    rest.last()
                } else {
                    Seq::<char>::empty()
                },
                host: "0.0.0.0"@,
                port: n,
                sync: false,
            },
            None => CommandSpec::BadPort(p),
        },
{
    let args = seq![flag, p] + rest;
    lemma_flag_spellings();
    assert(args[0] == flag && args[1] == p);
    assert forall|k: int| 2 <= k < args.len() implies is_plain_arg(#[trigger] args[k]) by {
        assert(args[k] == rest[k - 2]);
    }
    if let Some(n) = parsed_i32(p) {
        lemma_plain_args_name_the_path(args, 2, Seq::<char>::empty(), "0.0.0.0"@, n, false);
    }
    if rest.len() > 0 {
        assert(args.last() == rest.last());
    }
}

/// The views of the arguments.
pub open spec fn views_of(args: Seq<String>) -> Seq<Seq<char>> {
    args.map_values(|a: String| a@)
}

// ---------------------------------------------------------------------
// The wiki's directory
// ---------------------------------------------------------------------

/// The wiki's directory as the server uses it: `~` stands for the home
/// directory, and the path ends with `/`.
pub open spec fn wiki_dir(path: Seq<char>, home: Seq<char>) -> Seq<char> {
    let expanded = if path.contains('~') {
        replace_all(path, seq!['~'], home)
    } else {
        path
    };
    if has_suffix(expanded, seq!['/']) {
        expanded
    } else {
        expanded.push('/')
    }
}

/// The wiki's directory from the command line's path (`home` is the home
/// directory; it is only read where the path holds a `~`).
pub fn wiki_root(path: &str, home: &str) -> (dir: String)
    ensures
        dir@ == wiki_dir(path@, home@),
{
    let v = chars_of(path);
    let expanded = if crate::text::contains_char(&v, '~') {
        proof {
            reveal_strlit("~");
        }
        assert("~"@ =~= seq!['~']);
        replace(path, "~", home)
    } else {
        copy_of(path)
    };
    let mut dir = expanded;
    proof {
        reveal_strlit("/");
    }
    assert("/"@ =~= seq!['/']);
    if !crate::text::ends_with(dir.as_str(), "/") {
        push_char(&mut dir, '/');
    }
    dir
}

} // verus!
