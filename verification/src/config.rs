//! Start-up configuration: database location, listening port, build label,
//! command-line dispatch, the CLI state directory and the `/data` mount check.
use vstd::prelude::*;
use crate::text::{decimal, digit_char, chars_of, push_all, same_chars, seqs_of, split_char, split_on, split_words, string_of, words};

verus! {

/// The database URL used when `DATABASE_URL` is not set: the durable `/data`
/// share, with SQLite's dot-file lock protocol.
pub fn default_database_url() -> (r: String)
    ensures
        r@ == "sqlite:/data/changelog-watch.db?mode=rwc&vfs=unix-dotfile"@,
{
    String::from_str("sqlite:/data/changelog-watch.db?mode=rwc&vfs=unix-dotfile")
}

/// Value of the ASCII digit `c`.
pub open spec fn digit_value(c: char) -> nat {
    (c as u32 - '0' as u32) as nat
}

pub open spec fn is_ascii_digit(c: char) -> bool {
    '0' <= c <= '9'
}

/// The number that the digit string `d` denotes.
pub open spec fn digits_value(d: Seq<char>) -> nat
    decreases d.len(),
{
    if d.len() == 0 {
        0
    } else {
        digits_value(d.drop_last()) * 10 + digit_value(d.last())
    }
}

/// `s` without one leading `+`.
pub open spec fn unsigned_digits(s: Seq<char>) -> Seq<char> {
    if s.len() > 0 && s[0] == '+' {
        s.drop_first()
    } else {
        s
    }
}

pub open spec fn all_digits(d: Seq<char>) -> bool {
    forall|i: int| 0 <= i < d.len() ==> is_ascii_digit(#[trigger] d[i])
}

/// `str::parse::<u16>`: an optional `+`, then at least one ASCII digit, with
/// a value that fits in 16 bits.
pub open spec fn parse_u16_spec(s: Seq<char>) -> Option<u16> {
    let d = unsigned_digits(s);
    if d.len() == 0 || !all_digits(d) {
        None
    } else if digits_value(d) > 65535 {
        None
    } else {
        Some(digits_value(d) as u16)
    }
}

/// Parses a decimal port number the way `str::parse::<u16>` does.
pub fn parse_u16(s: &str) -> (r: Option<u16>)
    ensures
        r == parse_u16_spec(s@),
{
    let v = chars_of(s);
    let n = v.len();
    let mut start: usize = 0;
    if n > 0 && v[0] == '+' {
        start = 1;
    }
    let ghost d = unsigned_digits(s@);
    assert(d =~= v@.skip(start as int));
    if start == n {
        return None;
    }
    let mut acc: u32 = 0;
    let mut i = start;
    while i < n
        invariant
            n == v.len(),
            d == v@.skip(start as int),
            d == unsigned_digits(s@),
            start <= i <= n,
            acc <= 65536,
            forall|j: int| start <= j < i ==> is_ascii_digit(#[trigger] v@[j]),
            acc == if digits_value(d.take(i - start)) > 65536 {
                65536
            } else {
                digits_value(d.take(i - start))
            },
        decreases n - i,
    {
        let c = v[i];
        assert(d[i - start] == v@[i as int]);
        if !('0' <= c && c <= '9') {
            assert(!is_ascii_digit(d[i - start]));
            return None;
        }
        let dv = (c as u32) - ('0' as u32);
        let ghost pre = d.take(i - start);
        let ghost post = d.take(i - start + 1);
        assert(post.drop_last() =~= pre);
        assert(post.last() == c);
        let next = acc * 10 + dv;
        acc = if next > 65536 {
            65536
        } else {
            next
        };
        i += 1;
    }
    assert(d.take(n - start) =~= d);
    assert forall|j: int| 0 <= j < d.len() implies is_ascii_digit(#[trigger] d[j]) by {
        assert(d[j] == v@[j + start]);
    }
    if acc > 65535 {
        None
    } else {
        Some(acc as u16)
    }
}

/// The listening port: `PORT` when it parses as a port number, else 8080.
pub fn server_port(value: Option<String>) -> (r: u16)
    ensures
        r == match value {
            Some(v) => match parse_u16_spec(v@) {
                Some(p) => p,
                None => 8080u16,
            },
            None => 8080u16,
        },
{
    match value {
        Some(v) => match parse_u16(v.as_str()) {
            Some(p) => p,
            None => 8080,
        },
        None => 8080,
    }
}

/// `Some(value)` unless `value` is empty.
pub fn nonempty(value: String) -> (r: Option<String>)
    ensures
        r == if value@.len() == 0 {
            None
        } else {
            Some(value)
        },
{
    if value.as_str().is_empty() {
        None
    } else {
        Some(value)
    }
}

/// `Path::join` on Unix paths: an absolute `part` replaces `base`; otherwise
/// `part` follows `base` with a `/` between them unless `base` is empty or
/// already ends in one.
pub open spec fn path_join(base: Seq<char>, part: Seq<char>) -> Seq<char> {
    if part.len() > 0 && part[0] == '/' {
        part
    } else if base.len() == 0 || base.last() == '/' {
        base + part
    } else {
        base + seq!['/'] + part
    }
}

pub fn join_path(base: &str, part: &str) -> (r: String)
    ensures
        r@ == path_join(base@, part@),
{
    let b = chars_of(base);
    let p = chars_of(part);
    if p.len() > 0 && p[0] == '/' {
        return string_of(&p);
    }
    let mut out = b;
    if out.len() > 0 && out[out.len() - 1] != '/' {
        out.push('/');
    }
    push_all(&mut out, &p);
    string_of(&out)
}

/// Where the CLI keeps its state: the configured directory, relative to the
/// watch file's directory, or `.integration-changelog-watch` beside it.
pub fn cli_state_dir(config_dir: &str, configured: Option<&str>) -> (r: String)
    ensures
        r@ == match configured {
            Some(c) => path_join(config_dir@, c@),
            None => path_join(config_dir@, ".integration-changelog-watch"@),
        },
{
    match configured {
        Some(c) => join_path(config_dir, c),
        None => join_path(config_dir, ".integration-changelog-watch"),
    }
}

/// The fifth whitespace-separated field of a mountinfo line is the mount
/// point.
pub open spec fn line_mounts_data(line: Seq<char>) -> bool {
    words(line).len() > 4 && words(line)[4] == "/data"@
}

/// Some line of `/proc/self/mountinfo` mounts `/data`. Lines are the pieces
/// between newlines; a carriage return before a newline is whitespace, so it
/// never changes a line's fields, and a final empty piece has none.
pub open spec fn mountinfo_mounts_data(mounts: Seq<char>) -> bool {
    exists|k: int|
        0 <= k < split_on(mounts, '\n').len() && #[trigger] line_mounts_data(
            split_on(mounts, '\n')[k],
        )
}

pub fn mountinfo_has_data_mount(mounts: &str) -> (r: bool)
    ensures
        r == mountinfo_mounts_data(mounts@),
{
    let text = chars_of(mounts);
    let lines = split_char(&text, '\n');
    let data = chars_of("/data");
    let n = lines.len();
    let mut k: usize = 0;
    while k < n
        invariant
            n == lines.len(),
            seqs_of(lines@) == split_on(mounts@, '\n'),
            data@ == "/data"@,
            k <= n,
            forall|j: int| 0 <= j < k ==> !line_mounts_data(#[trigger] split_on(mounts@, '\n')[j]),
        decreases n - k,
    {
        let fields = split_words(&lines[k]);
        assert(seqs_of(lines@)[k as int] == lines@[k as int]@);
        if fields.len() > 4 {
            assert(seqs_of(fields@)[4] == fields@[4]@);
            if same_chars(&fields[4], &data) {
                assert(line_mounts_data(split_on(mounts@, '\n')[k as int]));
                return true;
            }
        }
        k += 1;
    }
    false
}

/// The views of a list of strings.
pub open spec fn strings_view(v: Seq<String>) -> Seq<Seq<char>> {
    Seq::new(v.len(), |i: int| v[i]@)
}

/// What the command line asks for.
#[derive(Debug)]
pub enum Command {
    /// Print the usage text.
    Help,
    /// Print the bundled Markdown sample.
    Demo,
    /// Scan a repository watch file (`--config`).
    Scan { config: Option<String> },
    /// Acknowledge one action card (`--config`, `--id`).
    Ack { config: Option<String>, id: Option<String> },
    /// Start the dashboard server.
    Serve,
}

/// The argument after the first `flag` that has one (`windows(2)` then
/// `find`).
pub open spec fn flag_value(args: Seq<Seq<char>>, flag: Seq<char>) -> Option<Seq<char>>
    decreases args.len(),
{
    if args.len() < 2 {
        None
    } else if args[0] == flag {
        Some(args[1])
    } else {
        flag_value(args.drop_first(), flag)
    }
}

pub open spec fn opt_view(o: Option<String>) -> Option<Seq<char>> {
    match o {
        Some(s) => Some(s@),
        None => None,
    }
}

/// Command selection: help wins anywhere, then the first argument picks
/// `demo`, `scan`, `ack` or the server.
pub open spec fn command_matches(args: Seq<Seq<char>>, c: Command) -> bool {
    if exists|k: int| 0 <= k < args.len() && (#[trigger] args[k] == "--help"@ || args[k] == "-h"@) {
        c is Help
    } else if args.len() > 0 && (args[0] == "demo"@ || args[0] == "--demo"@) {
        c is Demo
    } else if args.len() > 0 && args[0] == "scan"@ {
        c matches Command::Scan { config } && opt_view(config) == flag_value(args, "--config"@)
    } else if args.len() > 0 && args[0] == "ack"@ {
        c matches Command::Ack { config, id } && opt_view(config) == flag_value(args, "--config"@)
            && opt_view(id) == flag_value(args, "--id"@)
    } else {
        c is Serve
    }
}

/// The value of a flag is the argument right after its first occurrence
/// that has one (`windows(2)` then `find`); there is none when no
/// occurrence is followed by another argument.
pub proof fn law_flag_value(args: Seq<Seq<char>>, flag: Seq<char>)
    ensures
        match flag_value(args, flag) {
            Some(v) => exists|i: int|
                0 <= i && i + 1 < args.len() && #[trigger] args[i] == flag && args[i + 1] == v && forall|j: int|
                    0 <= j < i ==> args[j] != flag,
            None => forall|i: int| 0 <= i && i + 1 < args.len() ==> #[trigger] args[i] != flag,
        },
    decreases args.len(),
{
    if args.len() >= 2 && args[0] != flag {
        let rest = args.drop_first();
        law_flag_value(rest, flag);
        match flag_value(rest, flag) {
            Some(v) => {
                let i = choose|i: int|
                    0 <= i && i + 1 < rest.len() && #[trigger] rest[i] == flag && rest[i + 1] == v && forall|j: int|
                        0 <= j < i ==> rest[j] != flag;
                assert(args[i + 1] == flag && args[i + 2] == v);
                assert forall|j: int| 0 <= j < i + 1 implies args[j] != flag by {
                    if j > 0 {
                        assert(args[j] == rest[j - 1]);
                    }
                }
            },
            None => {
                assert forall|i: int| 0 <= i && i + 1 < args.len() implies #[trigger] args[i] != flag by {
                    if i > 0 {
                        assert(args[i] == rest[i - 1]);
                    }
                }
            },
        }
    }
}

/// No argument asks for help.
pub open spec fn no_help(args: Seq<Seq<char>>) -> bool {
    forall|k: int| 0 <= k < args.len() ==> #[trigger] args[k] != "--help"@ && args[k] != "-h"@
}

/// Command-line dispatch: `--help` or `-h` anywhere asks for help.
/// Otherwise the first argument decides: `demo` or `--demo` prints the
/// demo, `scan` scans with the `--config` value, `ack` acknowledges with the
/// `--config` and `--id` values, and anything else, or no argument, starts
/// the server.
pub proof fn law_command(args: Seq<Seq<char>>, c: Command)
    requires
        command_matches(args, c),
    ensures
        (exists|k: int| 0 <= k < args.len() && (#[trigger] args[k] == "--help"@ || args[k] == "-h"@)) ==> c is Help,
        no_help(args) && args.len() > 0 && args[0] == "demo"@ ==> c is Demo,
        no_help(args) && args.len() > 0 && args[0] == "--demo"@ ==> c is Demo,
        no_help(args) && args.len() > 0 && args[0] == "scan"@ ==> (c matches Command::Scan { config } && opt_view(
            config,
        ) == flag_value(args, "--config"@)),
        no_help(args) && args.len() > 0 && args[0] == "ack"@ ==> (c matches Command::Ack { config, id } && opt_view(
            config,
        ) == flag_value(args, "--config"@) && opt_view(id) == flag_value(args, "--id"@)),
        no_help(args) && (args.len() == 0 || (args[0] != "demo"@ && args[0] != "--demo"@ && args[0] != "scan"@
            && args[0] != "ack"@)) ==> c is Serve,
{
    reveal_strlit("demo");
    reveal_strlit("--demo");
    reveal_strlit("--help");
    reveal_strlit("-h");
    reveal_strlit("scan");
    reveal_strlit("ack");
    if no_help(args) && args.len() > 0 {
        assert(!(exists|k: int| 0 <= k < args.len() && (#[trigger] args[k] == "--help"@ || args[k] == "-h"@)));
        if args[0] == "scan"@ {
            assert("scan"@[0] != "demo"@[0]);
            assert(args[0] != "demo"@ && args[0] != "--demo"@);
            assert(c matches Command::Scan { config } && opt_view(config) == flag_value(args, "--config"@));
        }
        if args[0] == "ack"@ {
            assert("ack"@.len() != "demo"@.len() && "ack"@.len() != "scan"@.len());
            assert(args[0] != "demo"@ && args[0] != "--demo"@ && args[0] != "scan"@);
        }
    }
}

fn is_arg(a: &String, lit: &str) -> (r: bool)
    ensures
        r == (a@ == lit@),
{
    let x = chars_of(a.as_str());
    let y = chars_of(lit);
    same_chars(&x, &y)
}

fn find_flag(args: &Vec<String>, flag: &str) -> (r: Option<String>)
    ensures
        opt_view(r) == flag_value(strings_view(args@), flag@),
{
    let n = args.len();
    let mut k: usize = 0;
    assert(strings_view(args@).skip(0) =~= strings_view(args@));
    while n > 0 && k < n - 1
        invariant
            n == args.len(),
            k <= n,
            flag_value(strings_view(args@), flag@) == flag_value(
                strings_view(args@).skip(k as int),
                flag@,
            ),
        decreases n - k,
    {
        let ghost rest = strings_view(args@).skip(k as int);
        assert(rest[0] == args@[k as int]@);
        assert(rest[1] == args@[k + 1]@);
        assert(rest.drop_first() =~= strings_view(args@).skip(k + 1));
        if is_arg(&args[k], flag) {
            return Some(args[k + 1].clone());
        }
        k += 1;
    }
    assert(strings_view(args@).skip(k as int).len() < 2);
    None
}

/// Reads the command line (without the program name).
pub fn parse_command(args: &Vec<String>) -> (c: Command)
    ensures
        command_matches(strings_view(args@), c),
{
    let ghost a = strings_view(args@);
    let n = args.len();
    let mut k: usize = 0;
    while k < n
        invariant
            n == args.len(),
            a == strings_view(args@),
            k <= n,
            forall|j: int| 0 <= j < k ==> !(#[trigger] a[j] == "--help"@ || a[j] == "-h"@),
        decreases n - k,
    {
        assert(a[k as int] == args@[k as int]@);
        if is_arg(&args[k], "--help") || is_arg(&args[k], "-h") {
            return Command::Help;
        }
        k += 1;
    }
    if n == 0 {
        return Command::Serve;
    }
    assert(a[0] == args@[0]@);
    if is_arg(&args[0], "demo") || is_arg(&args[0], "--demo") {
        Command::Demo
    } else if is_arg(&args[0], "scan") {
        Command::Scan { config: find_flag(args, "--config") }
    } else if is_arg(&args[0], "ack") {
        Command::Ack { config: find_flag(args, "--config"), id: find_flag(args, "--id") }
    } else {
        Command::Serve
    }
}


proof fn lemma_decimal_digits(n: nat)
    ensures
        decimal(n).len() > 0,
        all_digits(decimal(n)),
        digits_value(decimal(n)) == n,
    decreases n,
{
    let d = decimal(n);
    if n >= 10 {
        lemma_decimal_digits(n / 10);
        assert(d.drop_last() =~= decimal(n / 10));
        assert forall|i: int| 0 <= i < d.len() implies is_ascii_digit(#[trigger] d[i]) by {
            if i < d.len() - 1 {
                assert(d[i] == decimal(n / 10)[i]);
            }
        }
    }
    let k = n % 10;
    assert(digit_value(digit_char(k)) == k && is_ascii_digit(digit_char(k))) by {
        if k == 0 {} else if k == 1 {} else if k == 2 {} else if k == 3 {} else if k == 4 {}
        else if k == 5 {} else if k == 6 {} else if k == 7 {} else if k == 8 {} else {}
    }
    assert(d.last() == digit_char(k));
    if n < 10 {
        assert(d.drop_last() =~= Seq::<char>::empty());
    }
    assert((n / 10) * 10 + n % 10 == n) by (nonlinear_arith);
    if n >= 10 {
        assert(digits_value(d) == digits_value(decimal(n / 10)) * 10 + digit_value(digit_char(k)));
    } else {
        assert(n / 10 == 0 && n % 10 == n);
        assert(digits_value(d) == digits_value(d.drop_last()) * 10 + digit_value(d.last()));
        assert(digits_value(d.drop_last()) == 0);
    }
}

/// The decimal numeral of a number is a non-empty string of ASCII digits,
/// without a leading zero unless the number is zero, that denotes it.
pub proof fn law_decimal(n: nat)
    ensures
        decimal(n).len() > 0,
        all_digits(decimal(n)),
        digits_value(decimal(n)) == n,
        n > 0 ==> decimal(n)[0] != '0',
    decreases n,
{
    lemma_decimal_digits(n);
    if n >= 10 {
        law_decimal(n / 10);
        assert(decimal(n)[0] == decimal(n / 10)[0]);
    } else if n > 0 {
        assert(decimal(n)[0] == digit_char(n));
    }
}

/// A mountinfo line mounts `/data` when its fifth whitespace-separated
/// field is exactly `/data`; the mounts hold the share when some line
/// does.
pub proof fn law_mountinfo(mounts: Seq<char>, line: Seq<char>)
    ensures
        line_mounts_data(line) <==> (words(line).len() > 4 && words(line)[4] == "/data"@),
        mountinfo_mounts_data(mounts) <==> exists|k: int|
            0 <= k < split_on(mounts, '\n').len() && {
                let l = #[trigger] split_on(mounts, '\n')[k];
                words(l).len() > 4 && words(l)[4] == "/data"@
            },
{
    let ls = split_on(mounts, '\n');
    if mountinfo_mounts_data(mounts) {
        let k = choose|k: int| 0 <= k < ls.len() && #[trigger] line_mounts_data(ls[k]);
        assert(words(ls[k]).len() > 4 && words(ls[k])[4] == "/data"@);
    }
    if exists|k: int| 0 <= k < ls.len() && {
        let l = #[trigger] ls[k];
        words(l).len() > 4 && words(l)[4] == "/data"@
    } {
        let k = choose|k: int| 0 <= k < ls.len() && {
            let l = #[trigger] ls[k];
            words(l).len() > 4 && words(l)[4] == "/data"@
        };
        assert(line_mounts_data(ls[k]));
    }
}

/// A port number reads back as itself, written plainly or after a `+`;
/// a larger number does not parse.
pub proof fn law_parse_port(n: nat)
    ensures
        n <= 65535 ==> parse_u16_spec(decimal(n)) == Some(n as u16),
        n <= 65535 ==> parse_u16_spec(seq!['+'] + decimal(n)) == Some(n as u16),
        n > 65535 ==> parse_u16_spec(decimal(n)) is None,
{
    lemma_decimal_digits(n);
    assert(is_ascii_digit(decimal(n)[0]));
    assert(unsigned_digits(decimal(n)) == decimal(n));
    assert((seq!['+'] + decimal(n)).drop_first() =~= decimal(n));
}

/// Text with a character that is not an ASCII digit, other than one
/// leading `+`, or with no digit at all, is not a port number.
pub proof fn law_parse_port_rejects(s: Seq<char>)
    ensures
        (unsigned_digits(s).len() == 0 || exists|i: int|
            0 <= i < unsigned_digits(s).len() && !is_ascii_digit(#[trigger] unsigned_digits(s)[i]))
            ==> parse_u16_spec(s) is None,
{
}

} // verus!
