use vstd::prelude::*;
use vstd::string::*;

use crate::backend::{default_checkpoint_path, default_checkpoint_path_for_pid};
use crate::constants::{CKPT_MSG, INIT_MSG, RESTORE_MSG};
use crate::text::{decimal, digit_char, digits, signed_decimal};
use crate::Error;

verus! {

/// Why a process id could not be read, as the standard library's integer parser
/// reports it.
#[derive(Clone, Copy, Debug, PartialEq, Eq, Structural)]
pub enum PidError {
    Empty,
    InvalidDigit,
    PosOverflow,
    NegOverflow,
}

/// Whether `c` is a decimal digit.
pub open spec fn is_digit(c: char) -> bool {
    '0' <= c <= '9'
}

/// The value of the decimal digit `c`.
pub open spec fn digit_value(c: char) -> int {
    c as int - '0' as int
}

/// Reads the digits `d` onto the running value `acc`, one at a time, adding each
/// digit (or subtracting it, for a negative number); the first character that is
/// not a digit, or the first digit that carries the value out of `i32`, stops it.
pub open spec fn accumulate_digits(acc: int, d: Seq<char>, negative: bool) -> Result<i32, PidError>
    decreases d.len(),
{
    if d.len() == 0 {
        Ok(acc as i32)
    } else if !is_digit(d[0]) {
        Err(PidError::InvalidDigit)
    } else {
        let next = if negative {
            acc * 10 - digit_value(d[0])
        } else {
            acc * 10 + digit_value(d[0])
        };
        if next > i32::MAX {
            Err(PidError::PosOverflow)
        } else if next < i32::MIN {
            Err(PidError::NegOverflow)
        } else {
            accumulate_digits(next, d.drop_first(), negative)
        }
    }
}

/// What `str::parse::<i32>` makes of `s`: an optional `+` or `-` sign, then
/// decimal digits.
pub open spec fn parse_pid_spec(s: Seq<char>) -> Result<i32, PidError> {
    if s.len() == 0 {
        Err(PidError::Empty)
    } else if s.len() == 1 && (s[0] == '+' || s[0] == '-') {
        Err(PidError::InvalidDigit)
    } else if s[0] == '+' {
        accumulate_digits(0, s.drop_first(), false)
    } else if s[0] == '-' {
        accumulate_digits(0, s.drop_first(), true)
    } else {
        accumulate_digits(0, s, false)
    }
}

proof fn lemma_decimal_digit(d: int)
    requires
        0 <= d < 10,
    ensures
        is_digit(digit_char(d)),
        digit_value(digit_char(d)) == d,
        digit_char(d) != '+',
        digit_char(d) != '-',
{
    let b = (d + 48) as u8;
    assert(b as int == d + 48);
    assert((b as char) as int == b as int);
}

proof fn lemma_digits_are_digits(n: nat)
    ensures
        forall|i: int| 0 <= i < digits(n, 10).len() ==> #[trigger] is_digit(digits(n, 10)[i]) && digits(n, 10)[i] != '+' && digits(n, 10)[i] != '-',
        n > 0 ==> digits(n, 10).len() > 0,
    decreases n,
{
    if n > 0 {
        lemma_digits_are_digits(n / 10);
        lemma_decimal_digit((n % 10) as int);
        let head = digits(n / 10, 10);
        let c = digit_char((n % 10) as int);
        assert(digits(n, 10) == head.push(c));
        assert forall|i: int| 0 <= i < digits(n, 10).len() implies #[trigger] is_digit(
            digits(n, 10)[i],
        ) && digits(n, 10)[i] != '+' && digits(n, 10)[i] != '-' by {
            if i < head.len() {
                assert(digits(n, 10)[i] == head[i]);
            } else {
                assert(digits(n, 10)[i] == c);
            }
        }
    }
}

proof fn lemma_accumulate_push(acc: int, s: Seq<char>, c: char, negative: bool, v: int)
    requires
        i32::MIN <= acc <= i32::MAX,
        accumulate_digits(acc, s, negative) == Ok::<i32, PidError>(v as i32),
        i32::MIN <= v <= i32::MAX,
        forall|i: int| 0 <= i < s.len() ==> #[trigger] is_digit(s[i]),
        s.len() == 0 ==> v == acc,
    ensures
        accumulate_digits(acc, s.push(c), negative) == accumulate_digits(v, seq![c], negative),
    decreases s.len(),
{
    if s.len() > 0 {
        let t = s.push(c);
        assert(t[0] == s[0]);
        assert(t.drop_first() =~= s.drop_first().push(c));
        let next = if negative {
            acc * 10 - digit_value(s[0])
        } else {
            acc * 10 + digit_value(s[0])
        };
        assert(is_digit(s[0]));
        assert(i32::MIN <= next <= i32::MAX);
        assert(accumulate_digits(acc, s, negative) == accumulate_digits(
            next,
            s.drop_first(),
            negative,
        ));
        assert(accumulate_digits(acc, t, negative) == accumulate_digits(
            next,
            t.drop_first(),
            negative,
        ));
        if s.len() == 1 {
            assert(s.drop_first() =~= Seq::<char>::empty());
            assert(next as i32 == v as i32);
        }
        assert forall|i: int| 0 <= i < s.drop_first().len() implies #[trigger] is_digit(
            s.drop_first()[i],
        ) by {
            assert(s.drop_first()[i] == s[i + 1]);
        }
        lemma_accumulate_push(next, s.drop_first(), c, negative, v);
    } else {
        assert(s.push(c) =~= seq![c]);
    }
}

proof fn lemma_digits_read_back(n: nat, negative: bool)
    requires
        0 < n,
        negative ==> n <= 0x8000_0000,
        !negative ==> n <= 0x7fff_ffff,
    ensures
        accumulate_digits(0, digits(n, 10), negative) == Ok::<i32, PidError>(
            (if negative {
                -n
            } else {
                n as int
            }) as i32,
        ),
    decreases n,
{
    let d = (n % 10) as int;
    let c = digit_char(d);
    lemma_decimal_digit(d);
    let head = digits(n / 10, 10);
    assert(digits(n, 10) == head.push(c));
    lemma_digits_are_digits(n / 10);
    let v: int = if n / 10 == 0 {
        0
    } else if negative {
        -((n / 10) as int)
    } else {
        (n / 10) as int
    };
    if n / 10 > 0 {
        lemma_digits_read_back(n / 10, negative);
    } else {
        assert(head =~= Seq::<char>::empty());
    }
    lemma_accumulate_push(0, head, c, negative, v);
    assert(seq![c].drop_first() =~= Seq::<char>::empty());
    let target: int = if negative {
        -n
    } else {
        n as int
    };
    assert(n == (n / 10) * 10 + d);
    let next = if negative {
        v * 10 - digit_value(c)
    } else {
        v * 10 + digit_value(c)
    };
    assert(next == target);
    assert(seq![c][0] == c);
    assert(accumulate_digits(v, seq![c], negative) == accumulate_digits(
        next,
        seq![c].drop_first(),
        negative,
    ));
}

/// Every process id reads back from its decimal text: `parse_pid` of what
/// `format!("{}", p)` writes gives `p`, for every `i32`.
pub proof fn lemma_pid_text_reads_back(p: i32)
    ensures
        parse_pid_spec(signed_decimal(p as int)) == Ok::<i32, PidError>(p),
{
    let s = signed_decimal(p as int);
    if p == 0 {
        lemma_decimal_digit(0);
        assert(s == seq![digit_char(0)]);
        assert(s.len() == 1);
        assert(seq![digit_char(0)].drop_first() =~= Seq::<char>::empty());
    } else if p > 0 {
        lemma_digits_read_back(p as nat, false);
        lemma_digits_are_digits(p as nat);
    } else {
        let m = (-(p as int)) as nat;
        lemma_digits_read_back(m, true);
        lemma_digits_are_digits(m);
        assert(s.drop_first() =~= digits(m, 10));
    }
}

/// How a `PidError` reads.
pub open spec fn pid_error_text(e: PidError) -> Seq<char> {
    match e {
        PidError::Empty => "cannot parse integer from empty string"@,
        PidError::InvalidDigit => "invalid digit found in string"@,
        PidError::PosOverflow => "number too large to fit in target type"@,
        PidError::NegOverflow => "number too small to fit in target type"@,
    }
}

impl PidError {
    /// The text of the error, as the standard library's `ParseIntError` shows it.
    pub fn message(&self) -> (r: &'static str)
        ensures
            r@ == pid_error_text(*self),
    {
        match self {
            PidError::Empty => "cannot parse integer from empty string",
            PidError::InvalidDigit => "invalid digit found in string",
            PidError::PosOverflow => "number too large to fit in target type",
            PidError::NegOverflow => "number too small to fit in target type",
        }
    }
}

/// Reads a process id from `s` as `str::parse::<i32>` does.
pub fn parse_pid(s: &str) -> (r: Result<i32, PidError>)
    ensures
        r == parse_pid_spec(s@),
{
    let n = s.unicode_len();
    if n == 0 {
        return Err(PidError::Empty);
    }
    let first = s.get_char(0);
    if n == 1 && (first == '+' || first == '-') {
        return Err(PidError::InvalidDigit);
    }
    let negative = first == '-';
    let start: usize = if first == '+' || first == '-' {
        1
    } else {
        0
    };
    let ghost digits = s@.skip(start as int);
    assert(parse_pid_spec(s@) == accumulate_digits(0, digits, negative)) by {
        if start == 0 {
            assert(digits =~= s@);
        } else {
            assert(digits =~= s@.drop_first());
        }
    }
    let mut acc: i64 = 0;
    let mut i: usize = start;
    while i < n
        invariant
            n == s@.len(),
            start <= i <= n,
            digits == s@.skip(start as int),
            parse_pid_spec(s@) == accumulate_digits(0, digits, negative),
            i32::MIN <= acc <= i32::MAX,
            accumulate_digits(0, digits, negative) == accumulate_digits(
                acc as int,
                s@.skip(i as int),
                negative,
            ),
        decreases n - i,
    {
        let c = s.get_char(i);
        assert(s@.skip(i as int)[0] == c);
        assert(s@.skip(i as int).drop_first() =~= s@.skip(i + 1));
        if !('0' <= c && c <= '9') {
            return Err(PidError::InvalidDigit);
        }
        let d = (c as u32 - '0' as u32) as i64;
        assert(d == digit_value(c));
        let next = if negative {
            acc * 10 - d
        } else {
            acc * 10 + d
        };
        if next > i32::MAX as i64 {
            return Err(PidError::PosOverflow);
        }
        if next < i32::MIN as i64 {
            return Err(PidError::NegOverflow);
        }
        acc = next;
        i = i + 1;
    }
    assert(s@.skip(i as int) =~= Seq::<char>::empty());
    Ok(acc as i32)
}

/// What the client was asked to do.
#[derive(Debug)]
pub enum Command {
    Init { pid: i32, path: String },
    Checkpoint { pid: i32, path: String, buffer_only: bool, init_first: bool },
    Restore { pid: i32, buffer_only: bool },
}

/// A `Command` with its path as plain characters.
pub enum CommandView {
    Init { pid: i32, path: Seq<char> },
    Checkpoint { pid: i32, path: Seq<char>, buffer_only: bool, init_first: bool },
    Restore { pid: i32, buffer_only: bool },
}

impl View for Command {
    type V = CommandView;

    open spec fn view(&self) -> CommandView {
        match self {
            Command::Init { pid, path } => CommandView::Init { pid: *pid, path: path@ },
            Command::Checkpoint { pid, path, buffer_only, init_first } => CommandView::Checkpoint {
                pid: *pid,
                path: path@,
                buffer_only: *buffer_only,
                init_first: *init_first,
            },
            Command::Restore { pid, buffer_only } => CommandView::Restore {
                pid: *pid,
                buffer_only: *buffer_only,
            },
        }
    }
}

/// The arguments as plain character sequences.
pub open spec fn arg_views(args: Seq<String>) -> Seq<Seq<char>> {
    args.map_values(|a: String| a@)
}

/// The message that tells how the client is used, naming the program `binary`.
pub open spec fn usage_text(binary: Seq<char>) -> Seq<char> {
    "usage: "@ + binary + " <init|checkpoint|restore> <pid> [checkpoint_path] or "@ + binary
        + " [-i|-c|-r] -p <pid> [-b]"@
}

/// The message for a process id argument `arg` that could not be read.
pub open spec fn invalid_pid_text(arg: Seq<char>, e: PidError) -> Seq<char> {
    "invalid pid '"@ + arg + "': "@ + pid_error_text(e)
}

/// Always refuses, with the usage message for the program `binary`.
pub fn usage_error(binary: &str) -> (r: Result<Command, Error>)
    ensures
        r matches Err(e) && e is Protocol && e->Protocol_0@ == usage_text(binary@),
{
    let mut m = String::from_str("usage: ");
    m.append(binary);
    m.append(" <init|checkpoint|restore> <pid> [checkpoint_path] or ");
    m.append(binary);
    m.append(" [-i|-c|-r] -p <pid> [-b]");
    Err(Error::Protocol(m))
}

fn invalid_pid(arg: &str, e: PidError) -> (r: Error)
    ensures
        r is Protocol,
        r->Protocol_0@ == invalid_pid_text(arg@, e),
{
    let mut m = String::from_str("invalid pid '");
    m.append(arg);
    m.append("': ");
    m.append(e.message());
    Error::Protocol(m)
}

fn protocol(text: &str) -> (r: Error)
    ensures
        r is Protocol,
        r->Protocol_0@ == text@,
{
    Error::Protocol(String::from_str(text))
}

fn is(a: &String, lit: &str) -> (r: bool)
    ensures
        r == (a@ == lit@),
{
    *a == String::from_str(lit)
}

/// The flags gathered from the option form of the arguments so far.
pub struct LegacyFlags {
    pub init: bool,
    pub checkpoint: bool,
    pub restore: bool,
    pub buffer_only: bool,
    pub pid: Option<i32>,
    pub path: Option<Seq<char>>,
}

/// No flag seen yet.
pub open spec fn no_flags() -> LegacyFlags {
    LegacyFlags {
        init: false,
        checkpoint: false,
        restore: false,
        buffer_only: false,
        pid: None,
        path: None,
    }
}

/// Reads the option form of the arguments from position `idx` on, onto the flags
/// `f`: `-i`, `-c`, `-r` and `-b` set flags, `-p` takes a process id, `-m` takes a
/// value that is ignored, `--path` and `-o` take a path; anything else is refused.
pub open spec fn legacy_scan(args: Seq<Seq<char>>, idx: int, f: LegacyFlags) -> Result<
    LegacyFlags,
    Seq<char>,
>
    decreases args.len() - idx,
{
    if idx < 0 || idx >= args.len() {
        Ok(f)
    } else {
        let a = args[idx];
        if a == "-i"@ {
            legacy_scan(args, idx + 1, LegacyFlags { init: true, ..f })
        } else if a == "-c"@ {
            legacy_scan(args, idx + 1, LegacyFlags { checkpoint: true, ..f })
        } else if a == "-r"@ {
            legacy_scan(args, idx + 1, LegacyFlags { restore: true, ..f })
        } else if a == "-b"@ {
            legacy_scan(args, idx + 1, LegacyFlags { buffer_only: true, ..f })
        } else if a == "-p"@ {
            if idx + 1 >= args.len() {
                Err("missing pid after -p"@)
            } else {
                match parse_pid_spec(args[idx + 1]) {
                    Ok(pid) => legacy_scan(args, idx + 2, LegacyFlags { pid: Some(pid), ..f }),
                    Err(e) => Err(invalid_pid_text(args[idx + 1], e)),
                }
            }
        } else if a == "-m"@ {
            if idx + 1 >= args.len() {
                Err("missing pid after -m"@)
            } else {
                legacy_scan(args, idx + 2, f)
            }
        } else if a == "--path"@ || a == "-o"@ {
            if idx + 1 >= args.len() {
                Err("missing path"@)
            } else {
                legacy_scan(args, idx + 2, LegacyFlags { path: Some(args[idx + 1]), ..f })
            }
        } else {
            Err("unknown argument '"@ + a + "'"@)
        }
    }
}

/// What the option form of the arguments asks for: exactly one of `-i`, `-c` and
/// `-r`, and a process id; the checkpoint path defaults to that of the process.
pub open spec fn parse_legacy_spec(args: Seq<Seq<char>>) -> Result<CommandView, Seq<char>> {
    match legacy_scan(args, 1, no_flags()) {
        Err(m) => Err(m),
        Ok(f) => {
            let modes = (if f.init { 1int } else { 0 }) + (if f.checkpoint { 1int } else { 0 }) + (
            if f.restore {
                1int
            } else {
                0
            });
            if modes != 1 {
                Err(usage_text(args[0]))
            } else {
                match f.pid {
                    None => Err("missing required -p pid"@),
                    Some(pid) => {
                        let path = match f.path {
                            Some(p) => p,
                            None => default_checkpoint_path(pid as int),
                        };
                        if f.init {
                            Ok(CommandView::Init { pid, path })
                        } else if f.checkpoint {
                            Ok(
                                CommandView::Checkpoint {
                                    pid,
                                    path,
                                    buffer_only: f.buffer_only,
                                    init_first: false,
                                },
                            )
                        } else {
                            Ok(CommandView::Restore { pid, buffer_only: f.buffer_only })
                        }
                    },
                }
            }
        },
    }
}

/// Whether an option of the option form takes the argument after it as its value.
pub open spec fn takes_value(a: Seq<char>) -> bool {
    a == "-p"@ || a == "-m"@ || a == "--path"@ || a == "-o"@
}

/// Whether `option` stands, as an option and not as the value of the option before
/// it, among the arguments from position `k` on.
pub open spec fn option_given(args: Seq<Seq<char>>, k: int, option: Seq<char>) -> bool
    decreases args.len() + 1 - k,
{
    if k < 0 || k >= args.len() {
        false
    } else {
        args[k] == option || option_given(
            args,
            if takes_value(args[k]) {
                k + 2
            } else {
                k + 1
            },
            option,
        )
    }
}

proof fn lemma_option_literals()
    ensures
        "-i"@ != "-b"@,
        "-c"@ != "-b"@,
        "-r"@ != "-b"@,
        !takes_value("-i"@),
        !takes_value("-c"@),
        !takes_value("-r"@),
        !takes_value("-b"@),
        takes_value("-p"@) && "-p"@ != "-b"@,
        takes_value("-m"@) && "-m"@ != "-b"@,
        takes_value("--path"@) && "--path"@ != "-b"@,
        takes_value("-o"@) && "-o"@ != "-b"@,
{
    reveal_strlit("-i");
    reveal_strlit("-c");
    reveal_strlit("-r");
    reveal_strlit("-b");
    reveal_strlit("-p");
    reveal_strlit("-m");
    reveal_strlit("--path");
    reveal_strlit("-o");
    assert("-i"@[1] != "-b"@[1] && "-i"@[1] != "-p"@[1] && "-i"@[1] != "-m"@[1] && "-i"@[1]
        != "-o"@[1]);
    assert("-c"@[1] != "-b"@[1] && "-c"@[1] != "-p"@[1] && "-c"@[1] != "-m"@[1] && "-c"@[1]
        != "-o"@[1]);
    assert("-r"@[1] != "-b"@[1] && "-r"@[1] != "-p"@[1] && "-r"@[1] != "-m"@[1] && "-r"@[1]
        != "-o"@[1]);
    assert("-b"@[1] != "-p"@[1] && "-b"@[1] != "-m"@[1] && "-b"@[1] != "-o"@[1]);
    assert("--path"@.len() != "-b"@.len());
    assert("--path"@.len() != "-i"@.len());
}

proof fn lemma_scan_buffer_only(args: Seq<Seq<char>>, idx: int, f: LegacyFlags)
    requires
        idx >= 0,
    ensures
        legacy_scan(args, idx, f) matches Ok(g) ==> g.buffer_only == (f.buffer_only
            || option_given(args, idx, "-b"@)),
    decreases args.len() - idx,
{
    lemma_option_literals();
    if idx < args.len() {
        let a = args[idx];
        if a == "-i"@ {
            lemma_scan_buffer_only(args, idx + 1, LegacyFlags { init: true, ..f });
        } else if a == "-c"@ {
            lemma_scan_buffer_only(args, idx + 1, LegacyFlags { checkpoint: true, ..f });
        } else if a == "-r"@ {
            lemma_scan_buffer_only(args, idx + 1, LegacyFlags { restore: true, ..f });
        } else if a == "-b"@ {
            lemma_scan_buffer_only(args, idx + 1, LegacyFlags { buffer_only: true, ..f });
        } else if a == "-p"@ {
            if idx + 1 < args.len() {
                if let Ok(pid) = parse_pid_spec(args[idx + 1]) {
                    lemma_scan_buffer_only(args, idx + 2, LegacyFlags { pid: Some(pid), ..f });
                }
            }
        } else if a == "-m"@ {
            if idx + 1 < args.len() {
                lemma_scan_buffer_only(args, idx + 2, f);
            }
        } else if a == "--path"@ || a == "-o"@ {
            if idx + 1 < args.len() {
                lemma_scan_buffer_only(
                    args,
                    idx + 2,
                    LegacyFlags { path: Some(args[idx + 1]), ..f },
                );
            }
        }
    }
}

/// In the option form, a checkpoint or a restore wants only the buffers exactly
/// when `-b` stands among the options (not as the value of `-p`, `-m`, `-o` or
/// `--path`), and a checkpoint in that form never initialises first.
pub proof fn lemma_legacy_buffer_only(args: Seq<Seq<char>>)
    requires
        args.len() >= 1,
    ensures
        parse_legacy_spec(args) matches Ok(CommandView::Checkpoint { buffer_only, init_first, .. })
            ==> buffer_only == option_given(args, 1, "-b"@) && !init_first,
        parse_legacy_spec(args) matches Ok(CommandView::Restore { buffer_only, .. })
            ==> buffer_only == option_given(args, 1, "-b"@),
{
    lemma_scan_buffer_only(args, 1, no_flags());
}

/// Whether the outcome `r` of parsing is the one that `spec` describes: the same
/// command, or a protocol error with the same message.
pub open spec fn parsed_as(r: Result<Command, Error>, spec: Result<CommandView, Seq<char>>) -> bool {
    match r {
        Ok(c) => spec == Ok::<CommandView, Seq<char>>(c@),
        Err(e) => e is Protocol && spec == Err::<CommandView, Seq<char>>(e->Protocol_0@),
    }
}

/// Reads the option form of the client's arguments (`-i`, `-c` or `-r` with
/// `-p <pid>`, and `-b`, `-m <pid>`, `--path <path>`).
pub fn parse_legacy_args(args: &[String]) -> (r: Result<Command, Error>)
    requires
        args@.len() >= 1,
    ensures
        parsed_as(r, parse_legacy_spec(arg_views(args@))),
{
    let ghost views = arg_views(args@);
    let mut init = false;
    let mut checkpoint = false;
    let mut restore = false;
    let mut buffer_only = false;
    let mut pid: Option<i32> = None;
    let mut path: Option<String> = None;
    let mut idx: usize = 1;
    while idx < args.len()
        invariant
            views == arg_views(args@),
            1 <= idx <= args@.len() + 1,
            legacy_scan(views, 1, no_flags()) == legacy_scan(
                views,
                idx as int,
                LegacyFlags {
                    init,
                    checkpoint,
                    restore,
                    buffer_only,
                    pid,
                    path: match path {
                        Some(p) => Some(p@),
                        None => None,
                    },
                },
            ),
        decreases args@.len() + 1 - idx,
    {
        let a = &args[idx];
        assert(views[idx as int] == a@);
        if is(a, "-i") {
            init = true;
        } else if is(a, "-c") {
            checkpoint = true;
        } else if is(a, "-r") {
            restore = true;
        } else if is(a, "-b") {
            buffer_only = true;
        } else if is(a, "-p") {
            idx = idx + 1;
            if idx >= args.len() {
                return Err(protocol("missing pid after -p"));
            }
            let value = &args[idx];
            assert(views[idx as int] == value@);
            match parse_pid(value.as_str()) {
                Ok(p) => {
                    pid = Some(p);
                },
                Err(e) => {
                    return Err(invalid_pid(value.as_str(), e));
                },
            }
        } else if is(a, "-m") {
            idx = idx + 1;
            if idx >= args.len() {
                return Err(protocol("missing pid after -m"));
            }
        } else if is(a, "--path") || is(a, "-o") {
            idx = idx + 1;
            if idx >= args.len() {
                return Err(protocol("missing path"));
            }
            assert(views[idx as int] == args@[idx as int]@);
            path = Some(args[idx].clone());
        } else {
            let mut m = String::from_str("unknown argument '");
            m.append(a.as_str());
            m.append("'");
            return Err(Error::Protocol(m));
        }
        idx = idx + 1;
    }
    let modes = (if init { 1u8 } else { 0 }) + (if checkpoint { 1u8 } else { 0 }) + (if restore {
        1u8
    } else {
        0
    });
    assert(views[0] == args@[0]@);
    if modes != 1 {
        return usage_error(args[0].as_str());
    }
    let pid = match pid {
        Some(p) => p,
        None => {
            return Err(protocol("missing required -p pid"));
        },
    };
    let path = match path {
        Some(p) => p,
        None => default_checkpoint_path_for_pid(pid),
    };
    if init {
        Ok(Command::Init { pid, path })
    } else if checkpoint {
        Ok(Command::Checkpoint { pid, path, buffer_only, init_first: false })
    } else {
        Ok(Command::Restore { pid, buffer_only })
    }
}

/// What the client's arguments ask for: `<init|checkpoint|ckpt|restore> <pid>
/// [checkpoint_path]`, or the option form when the first argument starts with `-`.
pub open spec fn parse_args_spec(args: Seq<Seq<char>>) -> Result<CommandView, Seq<char>> {
    if args.len() < 3 {
        Err(usage_text(args[0]))
    } else if args[1].len() > 0 && args[1][0] == '-' {
        parse_legacy_spec(args)
    } else {
        match parse_pid_spec(args[2]) {
            Err(e) => Err(invalid_pid_text(args[2], e)),
            Ok(pid) => {
                let path = if args.len() > 3 {
                    args[3]
                } else {
                    default_checkpoint_path(pid as int)
                };
                if args[1] == "init"@ {
                    Ok(CommandView::Init { pid, path })
                } else if args[1] == "checkpoint"@ || args[1] == "ckpt"@ {
                    Ok(CommandView::Checkpoint { pid, path, buffer_only: false, init_first: true })
                } else if args[1] == "restore"@ {
                    Ok(CommandView::Restore { pid, buffer_only: false })
                } else {
                    Err(usage_text(args[0]))
                }
            },
        }
    }
}

/// In the positional form the process id comes third and the checkpoint path, when
/// given, fourth: `init` initialises with that path, `checkpoint` and `ckpt`
/// initialise first and then checkpoint with it, keeping the CUDA state switch, and
/// `restore` restores; without a fourth argument the path is the process's
/// default checkpoint file.
pub proof fn lemma_positional_command(args: Seq<Seq<char>>, pid: i32)
    requires
        args.len() >= 3,
        parse_pid_spec(args[2]) == Ok::<i32, PidError>(pid),
    ensures
        args.len() > 3 && args[1] == "init"@ ==> parse_args_spec(args) == Ok::<
            CommandView,
            Seq<char>,
        >(CommandView::Init { pid, path: args[3] }),
        args.len() == 3 && args[1] == "init"@ ==> parse_args_spec(args) == Ok::<
            CommandView,
            Seq<char>,
        >(CommandView::Init { pid, path: default_checkpoint_path(pid as int) }),
        args.len() > 3 && (args[1] == "checkpoint"@ || args[1] == "ckpt"@) ==> parse_args_spec(
            args,
        ) == Ok::<CommandView, Seq<char>>(
            CommandView::Checkpoint { pid, path: args[3], buffer_only: false, init_first: true },
        ),
        args.len() == 3 && (args[1] == "checkpoint"@ || args[1] == "ckpt"@) ==> parse_args_spec(
            args,
        ) == Ok::<CommandView, Seq<char>>(
            CommandView::Checkpoint {
                pid,
                path: default_checkpoint_path(pid as int),
                buffer_only: false,
                init_first: true,
            },
        ),
        args[1] == "restore"@ ==> parse_args_spec(args) == Ok::<CommandView, Seq<char>>(
            CommandView::Restore { pid, buffer_only: false },
        ),
{
    reveal_strlit("init");
    reveal_strlit("checkpoint");
    reveal_strlit("ckpt");
    reveal_strlit("restore");
    assert("init"@ != "checkpoint"@ && "init"@ != "restore"@ && "ckpt"@ != "restore"@
        && "checkpoint"@ != "restore"@) by {
        assert("init"@.len() != "checkpoint"@.len());
        assert("init"@.len() != "restore"@.len());
        assert("ckpt"@.len() != "restore"@.len());
        assert("checkpoint"@.len() != "restore"@.len());
    }
    assert("init"@ != "ckpt"@) by {
        assert("init"@[0] != "ckpt"@[0]);
    }
}

/// Reads the client's arguments, the program name first.
pub fn parse_args(args: &[String]) -> (r: Result<Command, Error>)
    requires
        args@.len() >= 1,
    ensures
        parsed_as(r, parse_args_spec(arg_views(args@))),
{
    let ghost views = arg_views(args@);
    assert(views[0] == args@[0]@);
    if args.len() < 3 {
        return usage_error(args[0].as_str());
    }
    assert(views[1] == args@[1]@);
    assert(views[2] == args@[2]@);
    let first = &args[1];
    if first.as_str().unicode_len() > 0 && first.as_str().get_char(0) == '-' {
        return parse_legacy_args(args);
    }
    let pid = match parse_pid(args[2].as_str()) {
        Ok(p) => p,
        Err(e) => {
            return Err(invalid_pid(args[2].as_str(), e));
        },
    };
    if is(first, "init") || is(first, "checkpoint") || is(first, "ckpt") {
        let path = if args.len() > 3 {
            assert(views[3] == args@[3]@);
            args[3].clone()
        } else {
            default_checkpoint_path_for_pid(pid)
        };
        if is(first, "init") {
            Ok(Command::Init { pid, path })
        } else {
            Ok(Command::Checkpoint { pid, path, buffer_only: false, init_first: true })
        }
    } else if is(first, "restore") {
        Ok(Command::Restore { pid, buffer_only: false })
    } else {
        usage_error(args[0].as_str())
    }
}

/// The control signals that the client sends to the checkpointed process.
#[derive(Clone, Copy, Debug, PartialEq, Eq, Structural)]
pub enum ControlSignal {
    Init,
    Checkpoint,
    Restore,
}

/// One thing the client does to carry out a command.
#[derive(Debug)]
pub enum ClientStep {
    /// Map the control block of the process.
    OpenControl,
    /// Write `path` as the checkpoint path into the control block.
    SetCheckpointPath { path: String },
    /// Write `msg` into the message slot of the control block.
    SendMessage { msg: i32 },
    /// Send `signal` to the process.
    Signal { signal: ControlSignal },
    /// Wait until the process answers with the finish message.
    WaitForFinish,
    /// Run `cuda-checkpoint --toggle` on the process.
    ToggleCudaCheckpoint,
}

/// A `ClientStep` with its path as plain characters.
pub enum ClientStepView {
    OpenControl,
    SetCheckpointPath { path: Seq<char> },
    SendMessage { msg: i32 },
    Signal { signal: ControlSignal },
    WaitForFinish,
    ToggleCudaCheckpoint,
}

impl View for ClientStep {
    type V = ClientStepView;

    open spec fn view(&self) -> ClientStepView {
        match self {
            ClientStep::OpenControl => ClientStepView::OpenControl,
            ClientStep::SetCheckpointPath { path } => ClientStepView::SetCheckpointPath {
                path: path@,
            },
            ClientStep::SendMessage { msg } => ClientStepView::SendMessage { msg: *msg },
            ClientStep::Signal { signal } => ClientStepView::Signal { signal: *signal },
            ClientStep::WaitForFinish => ClientStepView::WaitForFinish,
            ClientStep::ToggleCudaCheckpoint => ClientStepView::ToggleCudaCheckpoint,
        }
    }
}

/// Initialisation: hand the checkpoint path over, then ask the process to set up
/// its checkpoint storage and wait for it.
pub open spec fn init_plan(path: Seq<char>) -> Seq<ClientStepView> {
    seq![
        ClientStepView::OpenControl,
        ClientStepView::SetCheckpointPath { path },
        ClientStepView::SendMessage { msg: INIT_MSG },
        ClientStepView::Signal { signal: ControlSignal::Init },
        ClientStepView::WaitForFinish,
    ]
}

/// The steps of each command. A checkpoint may first initialise; it saves the GPU
/// buffers and only then, unless only the buffers are wanted, suspends the CUDA
/// state. A restore first resumes the CUDA state, unless only the buffers are
/// wanted, and then brings the buffers back.
pub open spec fn command_plan(cmd: CommandView) -> Seq<ClientStepView> {
    match cmd {
        CommandView::Init { path, .. } => init_plan(path),
        CommandView::Checkpoint { path, buffer_only, init_first, .. } => (if init_first {
            init_plan(path)
        } else {
            Seq::empty()
        }) + seq![
            ClientStepView::OpenControl,
            ClientStepView::SendMessage { msg: CKPT_MSG },
            ClientStepView::Signal { signal: ControlSignal::Checkpoint },
            ClientStepView::WaitForFinish,
        ] + if buffer_only {
            Seq::empty()
        } else {
            seq![ClientStepView::ToggleCudaCheckpoint]
        },
        CommandView::Restore { buffer_only, .. } => seq![ClientStepView::OpenControl] + (
        if buffer_only {
            Seq::empty()
        } else {
            seq![ClientStepView::ToggleCudaCheckpoint]
        }) + seq![
            ClientStepView::SendMessage { msg: RESTORE_MSG },
            ClientStepView::Signal { signal: ControlSignal::Restore },
            ClientStepView::WaitForFinish,
        ],
    }
}

/// A checkpoint suspends the CUDA state (`cuda-checkpoint --toggle`) exactly when
/// not only the buffers are wanted, whether or not it initialises first, and only
/// as its last step, after the process has answered the checkpoint request. A
/// restore resumes the CUDA state exactly when not only the buffers are wanted,
/// and does so before it sends the restore request.
pub proof fn lemma_plans_toggle_cuda_state(
    pid: i32,
    path: Seq<char>,
    buffer_only: bool,
    init_first: bool,
)
    ensures
        ({
            let plan = command_plan(
                CommandView::Checkpoint { pid, path, buffer_only, init_first },
            );
            &&& plan.contains(ClientStepView::ToggleCudaCheckpoint) == !buffer_only
            &&& !buffer_only ==> plan.last() == ClientStepView::ToggleCudaCheckpoint
                && plan[plan.len() - 2] == ClientStepView::WaitForFinish
                && plan[plan.len() - 4] == ClientStepView::SendMessage { msg: CKPT_MSG }
            &&& buffer_only ==> plan.last() == ClientStepView::WaitForFinish
        }),
        ({
            let plan = command_plan(CommandView::Restore { pid, buffer_only });
            &&& plan.contains(ClientStepView::ToggleCudaCheckpoint) == !buffer_only
            &&& !buffer_only ==> plan[1] == ClientStepView::ToggleCudaCheckpoint
                && plan[2] == ClientStepView::SendMessage { msg: RESTORE_MSG }
            &&& buffer_only ==> plan[1] == ClientStepView::SendMessage { msg: RESTORE_MSG }
        }),
{
    let head: Seq<ClientStepView> = if init_first {
        init_plan(path)
    } else {
        Seq::empty()
    };
    let body = seq![
        ClientStepView::OpenControl,
        ClientStepView::SendMessage { msg: CKPT_MSG },
        ClientStepView::Signal { signal: ControlSignal::Checkpoint },
        ClientStepView::WaitForFinish,
    ];
    let plan = command_plan(CommandView::Checkpoint { pid, path, buffer_only, init_first });
    if buffer_only {
        assert(plan =~= head + body);
        assert forall|i: int| 0 <= i < plan.len() implies plan[i]
            != ClientStepView::ToggleCudaCheckpoint by {
            if i < head.len() {
                assert(plan[i] == head[i]);
            } else {
                assert(plan[i] == body[i - head.len()]);
            }
        }
    } else {
        assert(plan =~= head + body + seq![ClientStepView::ToggleCudaCheckpoint]);
        assert(plan[plan.len() - 1] == ClientStepView::ToggleCudaCheckpoint);
    }
    let rplan = command_plan(CommandView::Restore { pid, buffer_only });
    if buffer_only {
        assert forall|i: int| 0 <= i < rplan.len() implies rplan[i]
            != ClientStepView::ToggleCudaCheckpoint by {}
    } else {
        assert(rplan[1] == ClientStepView::ToggleCudaCheckpoint);
    }
}

fn push_init_steps(steps: &mut Vec<ClientStep>, path: &String)
    ensures
        final(steps)@.map_values(|s: ClientStep| s@) == old(steps)@.map_values(
            |s: ClientStep| s@,
        ) + init_plan(path@),
{
    let ghost before = old(steps)@.map_values(|s: ClientStep| s@);
    steps.push(ClientStep::OpenControl);
    steps.push(ClientStep::SetCheckpointPath { path: path.clone() });
    steps.push(ClientStep::SendMessage { msg: INIT_MSG });
    steps.push(ClientStep::Signal { signal: ControlSignal::Init });
    steps.push(ClientStep::WaitForFinish);
    assert(steps@.map_values(|s: ClientStep| s@) =~= before + init_plan(path@));
}

/// The steps that carry out `cmd`, in order.
pub fn plan_command(cmd: &Command) -> (r: Vec<ClientStep>)
    ensures
        r@.map_values(|s: ClientStep| s@) == command_plan(cmd@),
{
    let mut steps: Vec<ClientStep> = Vec::new();
    assert(steps@.map_values(|s: ClientStep| s@) =~= Seq::<ClientStepView>::empty());
    match cmd {
        Command::Init { path, .. } => {
            push_init_steps(&mut steps, path);
            assert(steps@.map_values(|s: ClientStep| s@) =~= command_plan(cmd@));
        },
        Command::Checkpoint { path, buffer_only, init_first, .. } => {
            if *init_first {
                push_init_steps(&mut steps, path);
            }
            let ghost before = steps@.map_values(|s: ClientStep| s@);
            steps.push(ClientStep::OpenControl);
            steps.push(ClientStep::SendMessage { msg: CKPT_MSG });
            steps.push(ClientStep::Signal { signal: ControlSignal::Checkpoint });
            steps.push(ClientStep::WaitForFinish);
            if !*buffer_only {
                steps.push(ClientStep::ToggleCudaCheckpoint);
            }
            assert(steps@.map_values(|s: ClientStep| s@) =~= command_plan(cmd@));
        },
        Command::Restore { buffer_only, .. } => {
            steps.push(ClientStep::OpenControl);
            if !*buffer_only {
                steps.push(ClientStep::ToggleCudaCheckpoint);
            }
            steps.push(ClientStep::SendMessage { msg: RESTORE_MSG });
            steps.push(ClientStep::Signal { signal: ControlSignal::Restore });
            steps.push(ClientStep::WaitForFinish);
            assert(steps@.map_values(|s: ClientStep| s@) =~= command_plan(cmd@));
        },
    }
    steps
}

} // verus!
