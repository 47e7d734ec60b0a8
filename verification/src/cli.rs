//! The command line of `zist`: its options, the defaults that the program's own
//! name selects, what a run does, and what is done with each file.
//!
//! Arguments come as text (`None` for an argument that is not valid UTF-8);
//! the files of a parse are the positions of the arguments that name them.

use vstd::prelude::*;
use crate::format::{chars_eq, format_named, name_of, Format};
use crate::io::{ascii_bytes, message_bytes, push_bytes, push_name, Error, Options};
use vstd::utf8::encode_utf8;
use crate::session::{
    is_compress, is_in_place, job_fmt, job_max, job_src, law_streaming_only_reads, next, wf, Action, Event, Job, Outcome, Session,
};

verus! {

/// Compress or decompress.
#[derive(Debug, Clone, Copy, PartialEq, Eq, Structural)]
pub enum Mode {
    Compress,
    Decompress,
}

/// An option that takes no value.
#[derive(Debug, Clone, Copy, PartialEq, Eq, Structural)]
pub enum Flag {
    Help,
    Version,
    Keep,
    Stdout,
    Force,
    Quiet,
    Verbose,
    Test,
    Recursive,
    Decompress,
    Compress,
}

/// A parsed command line.
#[derive(Debug)]
pub struct Cli {
    pub mode: Option<Mode>,
    pub format: Option<Format>,
    pub level: Option<i32>,
    pub keep: bool,
    pub force: bool,
    pub stdout: bool,
    pub quiet: bool,
    pub verbose: bool,
    pub test: bool,
    pub recursive: bool,
    pub help: bool,
    pub version: bool,
    /// The positions of the arguments that name files, in order.
    pub files: Vec<usize>,
}

/// The value of a parsed command line.
#[verifier::ext_equal]
pub struct CliView {
    pub mode: Option<Mode>,
    pub format: Option<Format>,
    pub level: Option<i32>,
    pub keep: bool,
    pub force: bool,
    pub stdout: bool,
    pub quiet: bool,
    pub verbose: bool,
    pub test: bool,
    pub recursive: bool,
    pub help: bool,
    pub version: bool,
    pub files: Seq<usize>,
}

impl View for Cli {
    type V = CliView;

    open spec fn view(&self) -> CliView {
        CliView {
            mode: self.mode,
            format: self.format,
            level: self.level,
            keep: self.keep,
            force: self.force,
            stdout: self.stdout,
            quiet: self.quiet,
            verbose: self.verbose,
            test: self.test,
            recursive: self.recursive,
            help: self.help,
            version: self.version,
            files: self.files@,
        }
    }
}

/// What is wrong with a command line.
#[derive(Debug)]
pub enum UsageError {
    /// `--<name>` is no option; the name is given.
    UnknownLong(Vec<char>),
    /// `-<c>` is no option.
    UnknownShort(char),
    /// `--<name>` needs a value and none follows.
    MissingValue(Vec<char>),
    /// The value that follows is not valid UTF-8.
    ValueNotUtf8,
    /// `--format` names no format.
    UnknownFormat,
    /// `--level` is not an integer.
    LevelNotInteger,
}

/// The value of a `UsageError`.
pub enum UsageSpec {
    UnknownLong(Seq<char>),
    UnknownShort(char),
    MissingValue(Seq<char>),
    ValueNotUtf8,
    UnknownFormat,
    LevelNotInteger,
}

impl View for UsageError {
    type V = UsageSpec;

    open spec fn view(&self) -> UsageSpec {
        match self {
            UsageError::UnknownLong(n) => UsageSpec::UnknownLong(n@),
            UsageError::UnknownShort(c) => UsageSpec::UnknownShort(*c),
            UsageError::MissingValue(n) => UsageSpec::MissingValue(n@),
            UsageError::ValueNotUtf8 => UsageSpec::ValueNotUtf8,
            UsageError::UnknownFormat => UsageSpec::UnknownFormat,
            UsageError::LevelNotInteger => UsageSpec::LevelNotInteger,
        }
    }
}

/// The message shown for what is wrong with a command line.
pub open spec fn usage_text(e: UsageSpec) -> Seq<char> {
    match e {
        UsageSpec::UnknownLong(n) => "unknown option: --"@ + n,
        UsageSpec::UnknownShort(c) => "unknown option: -"@.push(c),
        UsageSpec::MissingValue(n) => "--"@ + n + " requires a value"@,
        UsageSpec::ValueNotUtf8 => "value must be UTF-8"@,
        UsageSpec::UnknownFormat => "unknown format (zstd|gz|xz|bz2)"@,
        UsageSpec::LevelNotInteger => "--level must be an integer"@,
    }
}

/// Appends the characters of `s` to `out`.
fn push_text(out: &mut Vec<char>, s: &str)
    ensures
        final(out)@ == old(out)@ + s@,
{
    let n = s.unicode_len();
    let mut i: usize = 0;
    while i < n
        invariant
            n == s@.len(),
            i <= n,
            out@ == old(out)@ + s@.take(i as int),
        decreases n - i,
    {
        out.push(s.get_char(i));
        i = i + 1;
        assert(out@ =~= old(out)@ + s@.take(i as int));
    }
    assert(s@.take(n as int) =~= s@);
}

/// Appends `t` to `out`.
fn push_chars(out: &mut Vec<char>, t: &[char])
    ensures
        final(out)@ == old(out)@ + t@,
{
    let mut tail = vstd::slice::slice_to_vec(t);
    out.append(&mut tail);
}

impl UsageError {
    /// The message shown for this error.
    pub fn message(&self) -> (m: Vec<char>)
        ensures
            m@ == usage_text(self@),
    {
        let mut m: Vec<char> = Vec::new();
        match self {
            UsageError::UnknownLong(n) => {
                push_text(&mut m, "unknown option: --");
                push_chars(&mut m, n.as_slice());
            },
            UsageError::UnknownShort(c) => {
                push_text(&mut m, "unknown option: -");
                m.push(*c);
            },
            UsageError::MissingValue(n) => {
                push_text(&mut m, "--");
                push_chars(&mut m, n.as_slice());
                push_text(&mut m, " requires a value");
            },
            UsageError::ValueNotUtf8 => push_text(&mut m, "value must be UTF-8"),
            UsageError::UnknownFormat => push_text(&mut m, "unknown format (zstd|gz|xz|bz2)"),
            UsageError::LevelNotInteger => push_text(&mut m, "--level must be an integer"),
        }
        assert(m@ =~= usage_text(self@));
        m
    }
}

/// The command line before any argument: nothing set, no files.
pub open spec fn empty_cli() -> CliView {
    CliView {
        mode: None,
        format: None,
        level: None,
        keep: false,
        force: false,
        stdout: false,
        quiet: false,
        verbose: false,
        test: false,
        recursive: false,
        help: false,
        version: false,
        files: Seq::empty(),
    }
}

/// The command line `c` with flag `f` set.
pub open spec fn with_flag(c: CliView, f: Flag) -> CliView {
    match f {
        Flag::Help => CliView { help: true, ..c },
        Flag::Version => CliView { version: true, ..c },
        Flag::Keep => CliView { keep: true, ..c },
        Flag::Stdout => CliView { stdout: true, ..c },
        Flag::Force => CliView { force: true, ..c },
        Flag::Quiet => CliView { quiet: true, ..c },
        Flag::Verbose => CliView { verbose: true, ..c },
        Flag::Test => CliView { test: true, ..c },
        Flag::Recursive => CliView { recursive: true, ..c },
        Flag::Decompress => CliView { mode: Some(Mode::Decompress), ..c },
        Flag::Compress => CliView { mode: Some(Mode::Compress), ..c },
    }
}

/// The flag that a short option letter names: `h V k c f q v t r d z`.
pub open spec fn short_flag(ch: char) -> Option<Flag> {
    if ch == 'h' {
        Some(Flag::Help)
    } else if ch == 'V' {
        Some(Flag::Version)
    } else if ch == 'k' {
        Some(Flag::Keep)
    } else if ch == 'c' {
        Some(Flag::Stdout)
    } else if ch == 'f' {
        Some(Flag::Force)
    } else if ch == 'q' {
        Some(Flag::Quiet)
    } else if ch == 'v' {
        Some(Flag::Verbose)
    } else if ch == 't' {
        Some(Flag::Test)
    } else if ch == 'r' {
        Some(Flag::Recursive)
    } else if ch == 'd' {
        Some(Flag::Decompress)
    } else if ch == 'z' {
        Some(Flag::Compress)
    } else {
        None
    }
}

/// The flag that a long option names; `decompress` and `uncompress` are the same.
pub open spec fn long_flag(name: Seq<char>) -> Option<Flag> {
    if name == seq!['h', 'e', 'l', 'p'] {
        Some(Flag::Help)
    } else if name == seq!['v', 'e', 'r', 's', 'i', 'o', 'n'] {
        Some(Flag::Version)
    } else if name == seq!['k', 'e', 'e', 'p'] {
        Some(Flag::Keep)
    } else if name == seq!['s', 't', 'd', 'o', 'u', 't'] {
        Some(Flag::Stdout)
    } else if name == seq!['f', 'o', 'r', 'c', 'e'] {
        Some(Flag::Force)
    } else if name == seq!['q', 'u', 'i', 'e', 't'] {
        Some(Flag::Quiet)
    } else if name == seq!['v', 'e', 'r', 'b', 'o', 's', 'e'] {
        Some(Flag::Verbose)
    } else if name == seq!['t', 'e', 's', 't'] {
        Some(Flag::Test)
    } else if name == seq!['r', 'e', 'c', 'u', 'r', 's', 'i', 'v', 'e'] {
        Some(Flag::Recursive)
    } else if name == seq!['d', 'e', 'c', 'o', 'm', 'p', 'r', 'e', 's', 's'] || name == seq![
        'u',
        'n',
        'c',
        'o',
        'm',
        'p',
        'r',
        'e',
        's',
        's',
    ] {
        Some(Flag::Decompress)
    } else if name == seq!['c', 'o', 'm', 'p', 'r', 'e', 's', 's'] {
        Some(Flag::Compress)
    } else {
        None
    }
}

/// The long option that takes a format.
pub open spec fn format_word() -> Seq<char> {
    seq!['f', 'o', 'r', 'm', 'a', 't']
}

/// The long option that takes a level.
pub open spec fn level_word() -> Seq<char> {
    seq!['l', 'e', 'v', 'e', 'l']
}

/// `ch` is an ASCII decimal digit.
pub open spec fn is_digit(ch: char) -> bool {
    '0' <= ch <= '9'
}

/// The value of a decimal digit.
pub open spec fn digit_value(ch: char) -> int {
    ch as int - '0' as int
}

/// The value of a string of decimal digits.
pub open spec fn decimal(s: Seq<char>) -> int
    decreases s.len(),
{
    if s.len() == 0 {
        0
    } else {
        decimal(s.drop_last()) * 10 + digit_value(s.last())
    }
}

/// Every character of `s` is a decimal digit.
pub open spec fn all_digits(s: Seq<char>) -> bool {
    forall|i: int| 0 <= i < s.len() ==> is_digit(#[trigger] s[i])
}

/// The length of the sign that opens `s`: 1 for `+` or `-`, else 0.
pub open spec fn sign_len(s: Seq<char>) -> int {
    if s.len() > 0 && (s[0] == '-' || s[0] == '+') {
        1
    } else {
        0
    }
}

/// `s` opens with `-`.
pub open spec fn is_negative(s: Seq<char>) -> bool {
    s.len() > 0 && s[0] == '-'
}

/// The integer that `s` writes: an optional `+` or `-`, then one or more
/// decimal digits and nothing else.
pub open spec fn integer_text(s: Seq<char>) -> Option<int> {
    let body = s.skip(sign_len(s));
    if body.len() > 0 && all_digits(body) {
        Some(
            if is_negative(s) {
                -decimal(body)
            } else {
                decimal(body)
            },
        )
    } else {
        None
    }
}

/// What `i32::from_str` accepts: the integer that `s` writes, when it fits.
pub open spec fn i32_text(s: Seq<char>) -> Option<i32> {
    match integer_text(s) {
        Some(v) => if i32::MIN <= v <= i32::MAX {
            Some(v as i32)
        } else {
            None
        },
        None => None,
    }
}

/// The command line `c` after the short option `ch`: a letter sets its flag, a
/// digit `1`..`9` sets the level.
pub open spec fn short_step(c: CliView, ch: char) -> Result<CliView, UsageSpec> {
    if '1' <= ch <= '9' {
        Ok(CliView { level: Some(digit_value(ch) as i32), ..c })
    } else {
        match short_flag(ch) {
            Some(f) => Ok(with_flag(c, f)),
            None => Err(UsageSpec::UnknownShort(ch)),
        }
    }
}

/// The command line `c` after the short options `s`, one character each,
/// left to right.
pub open spec fn after_shorts(c: CliView, s: Seq<char>) -> Result<CliView, UsageSpec>
    decreases s.len(),
{
    if s.len() == 0 {
        Ok(c)
    } else {
        match short_step(c, s[0]) {
            Ok(c2) => after_shorts(c2, s.drop_first()),
            Err(e) => Err(e),
        }
    }
}

/// The command line as the short options `s` leave it, applied to `c` left to
/// right: all of them, or those before the first one that is refused.
pub open spec fn shorts_applied(c: CliView, s: Seq<char>) -> CliView
    decreases s.len(),
{
    if s.len() == 0 {
        c
    } else {
        match short_step(c, s[0]) {
            Ok(c2) => shorts_applied(c2, s.drop_first()),
            Err(_) => c,
        }
    }
}

/// `s[i]` is the first `=` of `s`.
pub open spec fn is_first_eq(s: Seq<char>, i: int) -> bool {
    0 <= i < s.len() && s[i] == '=' && forall|j: int| 0 <= j < i ==> s[j] != '='
}

/// The name of a long option `s` (what follows `--`): up to its first `=`.
pub open spec fn long_name(s: Seq<char>) -> Seq<char> {
    if exists|i: int| is_first_eq(s, i) {
        s.take(choose|i: int| is_first_eq(s, i))
    } else {
        s
    }
}

/// The value attached to a long option `s` after its first `=`, if any.
pub open spec fn long_attached(s: Seq<char>) -> Option<Seq<char>> {
    if exists|i: int| is_first_eq(s, i) {
        Some(s.skip((choose|i: int| is_first_eq(s, i)) + 1))
    } else {
        None
    }
}

/// The value of option `name`: the attached one, else the next argument, which
/// it then uses up. `next` is the next argument, `None` if there is none.
pub open spec fn value_of(
    name: Seq<char>,
    attached: Option<Seq<char>>,
    next: Option<Option<Seq<char>>>,
) -> (Result<Seq<char>, UsageSpec>, bool) {
    match attached {
        Some(v) => (Ok(v), false),
        None => match next {
            Some(Some(v)) => (Ok(v), true),
            Some(None) => (Err(UsageSpec::ValueNotUtf8), true),
            None => (Err(UsageSpec::MissingValue(name)), false),
        },
    }
}

/// The command line `c` after the long option `s` (what follows `--`), and
/// whether it used up the next argument as its value.
pub open spec fn after_long(c: CliView, s: Seq<char>, next: Option<Option<Seq<char>>>) -> (
    Result<CliView, UsageSpec>,
    bool,
) {
    let name = long_name(s);
    match long_flag(name) {
        Some(f) => (Ok(with_flag(c, f)), false),
        None => if name == format_word() {
            let (v, used) = value_of(name, long_attached(s), next);
            match v {
                Ok(v) => match format_named(v) {
                    Some(f) => (Ok(CliView { format: Some(f), ..c }), used),
                    None => (Err(UsageSpec::UnknownFormat), used),
                },
                Err(e) => (Err(e), used),
            }
        } else if name == level_word() {
            let (v, used) = value_of(name, long_attached(s), next);
            match v {
                Ok(v) => match i32_text(v) {
                    Some(n) => (Ok(CliView { level: Some(n), ..c }), used),
                    None => (Err(UsageSpec::LevelNotInteger), used),
                },
                Err(e) => (Err(e), used),
            }
        } else {
            (Err(UsageSpec::UnknownLong(name)), false)
        },
    }
}

/// The text of the arguments.
pub open spec fn texts(args: Seq<Option<Vec<char>>>) -> Seq<Option<Seq<char>>> {
    args.map_values(
        |a: Option<Vec<char>>|
            match a {
                Some(v) => Some(v@),
                None => None,
            },
    )
}

/// The argument after position `i`, if any.
pub open spec fn next_arg(args: Seq<Option<Seq<char>>>, i: int) -> Option<Option<Seq<char>>> {
    if i + 1 < args.len() {
        Some(args[i + 1])
    } else {
        None
    }
}

/// The positions `from`, `from + 1`, ... up to `to`, excluded.
pub open spec fn positions(from: int, to: int) -> Seq<usize> {
    Seq::new((to - from) as nat, |k: int| (from + k) as usize)
}

/// The command line `c` after the arguments from position `i` on: `--` makes
/// all that follows files; `--name[=value]` is a long option; `-` alone is a
/// file; `-xyz` are short options; anything else, and any argument that is not
/// text, is a file.
pub open spec fn parse_from(args: Seq<Option<Seq<char>>>, i: int, c: CliView) -> Result<CliView, UsageSpec>
    decreases args.len() - i,
{
    if i < 0 || i >= args.len() {
        Ok(c)
    } else {
        match args[i] {
            None => parse_from(args, i + 1, CliView { files: c.files.push(i as usize), ..c }),
            Some(s) => if s == seq!['-', '-'] {
                Ok(CliView { files: c.files + positions(i + 1, args.len() as int), ..c })
            } else if s.len() >= 2 && s[0] == '-' && s[1] == '-' {
                let (r, used) = after_long(c, s.skip(2), next_arg(args, i));
                match r {
                    Ok(c2) => parse_from(
                        args,
                        if used {
                            i + 2
                        } else {
                            i + 1
                        },
                        c2,
                    ),
                    Err(e) => Err(e),
                }
            } else if s.len() >= 2 && s[0] == '-' {
                match after_shorts(c, s.skip(1)) {
                    Ok(c2) => parse_from(args, i + 1, c2),
                    Err(e) => Err(e),
                }
            } else {
                parse_from(args, i + 1, CliView { files: c.files.push(i as usize), ..c })
            },
        }
    }
}

/// The command line that `args` parse to.
pub open spec fn parsed(args: Seq<Option<Seq<char>>>) -> Result<CliView, UsageSpec> {
    parse_from(args, 0, empty_cli())
}

/// Law: short options bundle. `-ab...` does what `-a` then `-b...` does.
pub proof fn law_short_options_bundle(c: CliView, s1: Seq<char>, s2: Seq<char>)
    ensures
        after_shorts(c, s1 + s2) == match after_shorts(c, s1) {
            Ok(c1) => after_shorts(c1, s2),
            Err(e) => Err(e),
        },
    decreases s1.len(),
{
    if s1.len() > 0 {
        assert((s1 + s2).drop_first() =~= s1.drop_first() + s2);
        assert((s1 + s2)[0] == s1[0]);
        if let Ok(c2) = short_step(c, s1[0]) {
            law_short_options_bundle(c2, s1.drop_first(), s2);
        }
    } else {
        assert(s1 + s2 =~= s2);
    }
}

/// Law: on the command line, `-<s1><s2>` parses as `-<s1> -<s2>`, where
/// neither part starts with `-` (which would make a long option of it).
pub proof fn law_bundled_argument(s1: Seq<char>, s2: Seq<char>)
    requires
        s1.len() > 0,
        s2.len() > 0,
        s1[0] != '-',
        s2[0] != '-',
    ensures
        parsed(seq![Some(seq!['-'] + s1 + s2)]) == parsed(seq![Some(seq!['-'] + s1), Some(seq!['-'] + s2)]),
{
    let one: Seq<Option<Seq<char>>> = seq![Some(seq!['-'] + s1 + s2)];
    let two: Seq<Option<Seq<char>>> = seq![Some(seq!['-'] + s1), Some(seq!['-'] + s2)];
    let a = seq!['-'] + s1 + s2;
    let b = seq!['-'] + s1;
    let d = seq!['-'] + s2;
    assert(a.skip(1) =~= s1 + s2);
    assert(b.skip(1) =~= s1);
    assert(d.skip(1) =~= s2);
    assert(a[0] == '-' && b[0] == '-' && d[0] == '-');
    assert(a[1] == s1[0]);
    assert(b[1] == s1[0]);
    assert(d[1] == s2[0]);
    law_short_options_bundle(empty_cli(), s1, s2);
    assert(one[0] == Some(a));
    assert(two[0] == Some(b));
    assert(two[1] == Some(d));
    assert(a != seq!['-', '-']) by {
        assert(seq!['-', '-'][1] == '-');
    }
    assert(b != seq!['-', '-']) by {
        assert(seq!['-', '-'][1] == '-');
    }
    assert(d != seq!['-', '-']) by {
        assert(seq!['-', '-'][1] == '-');
    }
    assert(parse_from(one, 0, empty_cli()) == match after_shorts(empty_cli(), s1 + s2) {
        Ok(c2) => parse_from(one, 1, c2),
        Err(e) => Err(e),
    });
    assert(parse_from(two, 0, empty_cli()) == match after_shorts(empty_cli(), s1) {
        Ok(c1) => parse_from(two, 1, c1),
        Err(e) => Err(e),
    });
    match after_shorts(empty_cli(), s1) {
        Ok(c1) => {
            assert(parse_from(two, 1, c1) == match after_shorts(c1, s2) {
                Ok(c2) => parse_from(two, 2, c2),
                Err(e) => Err(e),
            });
            match after_shorts(c1, s2) {
                Ok(c2) => {
                    assert(parse_from(two, 2, c2) == Ok::<CliView, UsageSpec>(c2));
                    assert(parse_from(one, 1, c2) == Ok::<CliView, UsageSpec>(c2));
                },
                Err(_) => {},
            }
        },
        Err(_) => {},
    }
}

/// A prefix of a string of digits is a string of digits.
proof fn lemma_digits_prefix(s: Seq<char>, k: int)
    requires
        0 <= k <= s.len(),
        all_digits(s),
    ensures
        all_digits(s.take(k)),
{
    assert forall|i: int| 0 <= i < s.take(k).len() implies is_digit(#[trigger] s.take(k)[i]) by {
        assert(s.take(k)[i] == s[i]);
    }
}

/// `decimal` does not shrink as digits are appended.
proof fn lemma_decimal_grows(s: Seq<char>, k: int)
    requires
        0 <= k <= s.len(),
        all_digits(s),
    ensures
        decimal(s.take(k)) <= decimal(s),
    decreases s.len() - k,
{
    if k < s.len() {
        lemma_decimal_grows(s, k + 1);
        assert(s.take(k + 1).drop_last() =~= s.take(k));
        assert(s.take(k + 1).last() == s[k]);
        assert(is_digit(s[k]));
        lemma_digits_prefix(s, k);
        lemma_decimal_nonneg(s.take(k));
    } else {
        assert(s.take(k) =~= s);
    }
}

/// `decimal` is never negative.
proof fn lemma_decimal_nonneg(s: Seq<char>)
    requires
        all_digits(s),
    ensures
        decimal(s) >= 0,
    decreases s.len(),
{
    if s.len() > 0 {
        assert(all_digits(s.drop_last())) by {
            assert forall|i: int| 0 <= i < s.drop_last().len() implies is_digit(
                #[trigger] s.drop_last()[i],
            ) by {
                assert(s.drop_last()[i] == s[i]);
            }
        }
        lemma_decimal_nonneg(s.drop_last());
        assert(is_digit(s[s.len() - 1]));
    }
}

/// Parses `s` as `i32::from_str` does: an optional sign, then decimal digits,
/// the value within the range of `i32`.
pub fn parse_i32(s: &[char]) -> (r: Option<i32>)
    ensures
        r == i32_text(s@),
{
    let n = s.len();
    let mut start: usize = 0;
    let mut negative = false;
    if n > 0 && s[0] == '-' {
        negative = true;
        start = 1;
    } else if n > 0 && s[0] == '+' {
        start = 1;
    }
    let ghost body = s@.skip(start as int);
    assert(start == sign_len(s@) && negative == is_negative(s@));
    if start == n {
        return None;
    }
    let mut acc: i64 = 0;
    let mut i: usize = start;
    while i < n
        invariant
            start <= i <= n == s@.len(),
            start < n,
            start == sign_len(s@),
            negative == is_negative(s@),
            body == s@.skip(start as int),
            all_digits(body.take(i - start)),
            acc == decimal(body.take(i - start)),
            0 <= acc <= 2147483648,
        decreases n - i,
    {
        let ch = s[i];
        if !('0' <= ch && ch <= '9') {
            proof {
                assert(body[i - start] == ch);
                assert(!is_digit(body[i - start]));
            }
            return None;
        }
        let d = (ch as u32 - '0' as u32) as i64;
        proof {
            assert(body.take(i - start + 1).drop_last() =~= body.take(i - start));
            assert(body.take(i - start + 1).last() == ch);
            assert(all_digits(body.take(i - start + 1))) by {
                assert forall|j: int| 0 <= j < body.take(i - start + 1).len() implies is_digit(
                    #[trigger] body.take(i - start + 1)[j],
                ) by {
                    if j < i - start {
                        assert(body.take(i - start + 1)[j] == body.take(i - start)[j]);
                    }
                }
            }
        }
        acc = acc * 10 + d;
        i = i + 1;
        if acc > 2147483648 {
            proof {
                if all_digits(body) {
                    lemma_decimal_grows(body, i - start);
                }
            }
            return None;
        }
    }
    proof {
        assert(body.take(i - start) =~= body);
        assert(body.len() > 0);
    }
    if negative {
        Some((0 - acc) as i32)
    } else if acc <= 2147483647 {
        Some(acc as i32)
    } else {
        None
    }
}

/// The flag that a short option letter names.
fn short_flag_of(ch: char) -> (r: Option<Flag>)
    ensures
        r == short_flag(ch),
{
    if ch == 'h' {
        Some(Flag::Help)
    } else if ch == 'V' {
        Some(Flag::Version)
    } else if ch == 'k' {
        Some(Flag::Keep)
    } else if ch == 'c' {
        Some(Flag::Stdout)
    } else if ch == 'f' {
        Some(Flag::Force)
    } else if ch == 'q' {
        Some(Flag::Quiet)
    } else if ch == 'v' {
        Some(Flag::Verbose)
    } else if ch == 't' {
        Some(Flag::Test)
    } else if ch == 'r' {
        Some(Flag::Recursive)
    } else if ch == 'd' {
        Some(Flag::Decompress)
    } else if ch == 'z' {
        Some(Flag::Compress)
    } else {
        None
    }
}

/// `s` is the word `w`.
fn is_word(s: &[char], w: Vec<char>, ghost_w: Ghost<Seq<char>>) -> (r: bool)
    requires
        w@ == ghost_w@,
    ensures
        r == (s@ == ghost_w@),
{
    chars_eq(s, w.as_slice())
}

/// The flag that a long option names.
fn long_flag_of(name: &[char]) -> (r: Option<Flag>)
    ensures
        r == long_flag(name@),
{
    let help = vec!['h', 'e', 'l', 'p'];
    let version = vec!['v', 'e', 'r', 's', 'i', 'o', 'n'];
    let keep = vec!['k', 'e', 'e', 'p'];
    let stdout = vec!['s', 't', 'd', 'o', 'u', 't'];
    let force = vec!['f', 'o', 'r', 'c', 'e'];
    let quiet = vec!['q', 'u', 'i', 'e', 't'];
    let verbose = vec!['v', 'e', 'r', 'b', 'o', 's', 'e'];
    let test = vec!['t', 'e', 's', 't'];
    let recursive = vec!['r', 'e', 'c', 'u', 'r', 's', 'i', 'v', 'e'];
    let decompress = vec!['d', 'e', 'c', 'o', 'm', 'p', 'r', 'e', 's', 's'];
    let uncompress = vec!['u', 'n', 'c', 'o', 'm', 'p', 'r', 'e', 's', 's'];
    let compress = vec!['c', 'o', 'm', 'p', 'r', 'e', 's', 's'];
    proof {
        assert(help@ =~= seq!['h', 'e', 'l', 'p']);
        assert(version@ =~= seq!['v', 'e', 'r', 's', 'i', 'o', 'n']);
        assert(keep@ =~= seq!['k', 'e', 'e', 'p']);
        assert(stdout@ =~= seq!['s', 't', 'd', 'o', 'u', 't']);
        assert(force@ =~= seq!['f', 'o', 'r', 'c', 'e']);
        assert(quiet@ =~= seq!['q', 'u', 'i', 'e', 't']);
        assert(verbose@ =~= seq!['v', 'e', 'r', 'b', 'o', 's', 'e']);
        assert(test@ =~= seq!['t', 'e', 's', 't']);
        assert(recursive@ =~= seq!['r', 'e', 'c', 'u', 'r', 's', 'i', 'v', 'e']);
        assert(decompress@ =~= seq!['d', 'e', 'c', 'o', 'm', 'p', 'r', 'e', 's', 's']);
        assert(uncompress@ =~= seq!['u', 'n', 'c', 'o', 'm', 'p', 'r', 'e', 's', 's']);
        assert(compress@ =~= seq!['c', 'o', 'm', 'p', 'r', 'e', 's', 's']);
    }
    if chars_eq(name, help.as_slice()) {
        Some(Flag::Help)
    } else if chars_eq(name, version.as_slice()) {
        Some(Flag::Version)
    } else if chars_eq(name, keep.as_slice()) {
        Some(Flag::Keep)
    } else if chars_eq(name, stdout.as_slice()) {
        Some(Flag::Stdout)
    } else if chars_eq(name, force.as_slice()) {
        Some(Flag::Force)
    } else if chars_eq(name, quiet.as_slice()) {
        Some(Flag::Quiet)
    } else if chars_eq(name, verbose.as_slice()) {
        Some(Flag::Verbose)
    } else if chars_eq(name, test.as_slice()) {
        Some(Flag::Test)
    } else if chars_eq(name, recursive.as_slice()) {
        Some(Flag::Recursive)
    } else if chars_eq(name, decompress.as_slice()) || chars_eq(name, uncompress.as_slice()) {
        Some(Flag::Decompress)
    } else if chars_eq(name, compress.as_slice()) {
        Some(Flag::Compress)
    } else {
        None
    }
}

impl Cli {
    /// The command line before any argument.
    pub fn new() -> (c: Cli)
        ensures
            c@ == empty_cli(),
    {
        let c = Cli {
            mode: None,
            format: None,
            level: None,
            keep: false,
            force: false,
            stdout: false,
            quiet: false,
            verbose: false,
            test: false,
            recursive: false,
            help: false,
            version: false,
            files: Vec::new(),
        };
        assert(c@ =~= empty_cli());
        c
    }

    /// Sets flag `f`.
    pub fn set(&mut self, f: Flag)
        ensures
            final(self)@ == with_flag(old(self)@, f),
    {
        match f {
            Flag::Help => self.help = true,
            Flag::Version => self.version = true,
            Flag::Keep => self.keep = true,
            Flag::Stdout => self.stdout = true,
            Flag::Force => self.force = true,
            Flag::Quiet => self.quiet = true,
            Flag::Verbose => self.verbose = true,
            Flag::Test => self.test = true,
            Flag::Recursive => self.recursive = true,
            Flag::Decompress => self.mode = Some(Mode::Decompress),
            Flag::Compress => self.mode = Some(Mode::Compress),
        }
        assert(self@ =~= with_flag(old(self)@, f));
    }
}

/// Applies the short options `short` (what follows `-`), left to right; `-9kv`
/// sets level 9, keep and verbose.
pub fn parse_short(short: &[char], cli: &mut Cli) -> (r: Result<(), UsageError>)
    ensures
        match after_shorts(old(cli)@, short@) {
            Ok(c) => r is Ok && final(cli)@ == c,
            Err(e) => r matches Err(x) && x@ == e,
        },
        final(cli)@ == shorts_applied(old(cli)@, short@),
{
    let mut i: usize = 0;
    assert(short@.skip(0) =~= short@);
    while i < short.len()
        invariant
            i <= short@.len(),
            after_shorts(old(cli)@, short@) == after_shorts(cli@, short@.skip(i as int)),
            shorts_applied(old(cli)@, short@) == shorts_applied(cli@, short@.skip(i as int)),
        decreases short@.len() - i,
    {
        let ch = short[i];
        proof {
            assert(short@.skip(i as int)[0] == ch);
            assert(short@.skip(i as int).drop_first() =~= short@.skip(i + 1));
        }
        let ghost before = cli@;
        if '1' <= ch && ch <= '9' {
            let d = (ch as u32 - '0' as u32) as i32;
            cli.level = Some(d);
            assert(cli@ =~= CliView { level: Some(digit_value(ch) as i32), ..before });
        } else {
            match short_flag_of(ch) {
                Some(f) => cli.set(f),
                None => return Err(UsageError::UnknownShort(ch)),
            }
        }
        i = i + 1;
    }
    proof {
        assert(short@.skip(i as int) =~= Seq::<char>::empty());
    }
    Ok(())
}

/// The text of an optional value.
pub open spec fn opt_text(v: Option<Vec<char>>) -> Option<Seq<char>> {
    match v {
        Some(t) => Some(t@),
        None => None,
    }
}

/// A copy of a text.
fn copy_chars(s: &[char]) -> (t: Vec<char>)
    ensures
        t@ == s@,
{
    vstd::slice::slice_to_vec(s)
}

/// The position of the first `=` of `s`, if any.
fn first_eq(s: &[char]) -> (r: Option<usize>)
    ensures
        match r {
            Some(i) => is_first_eq(s@, i as int),
            None => forall|i: int| !is_first_eq(s@, i),
        },
{
    let mut i: usize = 0;
    while i < s.len()
        invariant
            i <= s@.len(),
            forall|j: int| 0 <= j < i ==> s@[j] != '=',
        decreases s@.len() - i,
    {
        if s[i] == '=' {
            return Some(i);
        }
        i = i + 1;
    }
    None
}

/// The value of option `name`: the attached one, else the argument after
/// position `at`; answers whether that argument was used up.
pub fn take_value(name: &[char], attached: Option<Vec<char>>, args: &[Option<Vec<char>>], at: usize) -> (r: (
    Result<Vec<char>, UsageError>,
    bool,
))
    requires
        at < args@.len(),
    ensures
        r.1 == value_of(name@, opt_text(attached), next_arg(texts(args@), at as int)).1,
        match value_of(name@, opt_text(attached), next_arg(texts(args@), at as int)).0 {
            Ok(v) => r.0 matches Ok(x) && x@ == v,
            Err(e) => r.0 matches Err(x) && x@ == e,
        },
{
    match attached {
        Some(v) => (Ok(v), false),
        None => {
            if at < args.len() - 1 {
                proof {
                    assert(texts(args@)[at + 1] == opt_text(args@[at + 1]));
                }
                match &args[at + 1] {
                    Some(v) => (Ok(copy_chars(v.as_slice())), true),
                    None => (Err(UsageError::ValueNotUtf8), true),
                }
            } else {
                (Err(UsageError::MissingValue(copy_chars(name))), false)
            }
        },
    }
}

/// Splits a long option at its first `=`: its name, and the value attached.
fn split_long(long: &[char]) -> (r: (&[char], Option<Vec<char>>))
    ensures
        r.0@ == long_name(long@),
        opt_text(r.1) == long_attached(long@),
{
    let n = long.len();
    match first_eq(long) {
        Some(i) => {
            assert(i < n);
            let name = vstd::slice::slice_subrange(long, 0, i);
            let rest = vstd::slice::slice_subrange(long, i + 1, n);
            proof {
                let j = choose|j: int| is_first_eq(long@, j);
                assert(j == i as int) by {
                    if j < i {
                        assert(long@[j] != '=');
                    } else if j > i {
                        assert(long@[i as int] != '=');
                    }
                }
                assert(name@ =~= long_name(long@));
                assert(rest@ =~= long_attached(long@)->Some_0);
            }
            (name, Some(copy_chars(rest)))
        },
        None => (long, None),
    }
}

/// Applies `--format` with its value.
fn parse_format_option(
    name: &[char],
    attached: Option<Vec<char>>,
    cli: &mut Cli,
    args: &[Option<Vec<char>>],
    at: usize,
) -> (r: Result<bool, UsageError>)
    requires
        at < args@.len(),
        name@ == format_word(),
    ensures
        ({
            let (v, used) = value_of(name@, opt_text(attached), next_arg(texts(args@), at as int));
            match v {
                Ok(v) => match format_named(v) {
                    Some(f) => r == Ok::<bool, UsageError>(used) && final(cli)@ == (CliView {
                        format: Some(f),
                        ..old(cli)@
                    }),
                    None => r matches Err(x) && x@ == UsageSpec::UnknownFormat && final(cli)@
                        == old(cli)@,
                },
                Err(e) => r matches Err(x) && x@ == e && final(cli)@ == old(cli)@,
            }
        }),
{
    let (v, used) = take_value(name, attached, args, at);
    match v {
        Ok(v) => match Format::from_name(v.as_slice()) {
            Some(f) => {
                let ghost before = cli@;
                cli.format = Some(f);
                assert(cli@ =~= CliView { format: Some(f), ..before });
                Ok(used)
            },
            None => Err(UsageError::UnknownFormat),
        },
        Err(e) => Err(e),
    }
}

/// Applies `--level` with its value.
fn parse_level_option(
    name: &[char],
    attached: Option<Vec<char>>,
    cli: &mut Cli,
    args: &[Option<Vec<char>>],
    at: usize,
) -> (r: Result<bool, UsageError>)
    requires
        at < args@.len(),
        name@ == level_word(),
    ensures
        ({
            let (v, used) = value_of(name@, opt_text(attached), next_arg(texts(args@), at as int));
            match v {
                Ok(v) => match i32_text(v) {
                    Some(n) => r == Ok::<bool, UsageError>(used) && final(cli)@ == (CliView {
                        level: Some(n),
                        ..old(cli)@
                    }),
                    None => r matches Err(x) && x@ == UsageSpec::LevelNotInteger && final(cli)@
                        == old(cli)@,
                },
                Err(e) => r matches Err(x) && x@ == e && final(cli)@ == old(cli)@,
            }
        }),
{
    let (v, used) = take_value(name, attached, args, at);
    match v {
        Ok(v) => match parse_i32(v.as_slice()) {
            Some(n) => {
                let ghost before = cli@;
                cli.level = Some(n);
                assert(cli@ =~= CliView { level: Some(n), ..before });
                Ok(used)
            },
            None => Err(UsageError::LevelNotInteger),
        },
        Err(e) => Err(e),
    }
}

/// Applies the long option `long` (what follows `--`); the argument after
/// position `at` may be its value. Answers whether that argument was used up.
pub fn parse_long(long: &[char], cli: &mut Cli, args: &[Option<Vec<char>>], at: usize) -> (r: Result<
    bool,
    UsageError,
>)
    requires
        at < args@.len(),
    ensures
        match after_long(old(cli)@, long@, next_arg(texts(args@), at as int)) {
            (Ok(c), used) => r == Ok::<bool, UsageError>(used) && final(cli)@ == c,
            (Err(e), _) => r matches Err(x) && x@ == e && final(cli)@ == old(cli)@,
        },
{
    let (name, attached) = split_long(long);
    match long_flag_of(name) {
        Some(f) => {
            cli.set(f);
            Ok(false)
        },
        None => {
            let format = vec!['f', 'o', 'r', 'm', 'a', 't'];
            let level = vec!['l', 'e', 'v', 'e', 'l'];
            proof {
                assert(format@ =~= format_word());
                assert(level@ =~= level_word());
            }
            if chars_eq(name, format.as_slice()) {
                parse_format_option(name, attached, cli, args, at)
            } else if chars_eq(name, level.as_slice()) {
                parse_level_option(name, attached, cli, args, at)
            } else {
                Err(UsageError::UnknownLong(copy_chars(name)))
            }
        },
    }
}

/// What parsing from position `i` comes to after one argument: go on from a
/// position, stop with a command line, or fail.
pub enum ArgStep {
    Continue(usize),
    Stop,
}

/// Marks the arguments after position `i` as files: everything after `--`.
fn rest_are_files(args: &[Option<Vec<char>>], i: usize, cli: &mut Cli)
    requires
        i < args@.len(),
    ensures
        final(cli)@ == (CliView {
            files: old(cli)@.files + positions(i + 1, args@.len() as int),
            ..old(cli)@
        }),
{
    let ghost before = cli@;
    let n = args.len();
    let mut j: usize = i + 1;
    assert(before.files + positions(i + 1, j as int) =~= before.files);
    assert(cli@ =~= CliView { files: before.files + positions(i + 1, j as int), ..before });
    while j < args.len()
        invariant
            i < j <= args@.len(),
            cli@ == (CliView { files: before.files + positions(i + 1, j as int), ..before }),
        decreases args@.len() - j,
    {
        cli.files.push(j);
        proof {
            assert(before.files + positions(i + 1, j + 1) =~= (before.files + positions(
                i + 1,
                j as int,
            )).push(j));
        }
        assert(cli@ =~= CliView { files: before.files + positions(i + 1, j + 1), ..before });
        j = j + 1;
    }
}

/// Adds position `i` to the files.
fn push_file(i: usize, cli: &mut Cli)
    ensures
        final(cli)@ == (CliView { files: old(cli)@.files.push(i), ..old(cli)@ }),
{
    let ghost before = cli@;
    cli.files.push(i);
    assert(cli@ =~= CliView { files: before.files.push(i), ..before });
}

/// Parses the argument at position `i`.
fn parse_arg(args: &[Option<Vec<char>>], i: usize, cli: &mut Cli) -> (r: Result<ArgStep, UsageError>)
    requires
        i < args@.len(),
    ensures
        match r {
            Ok(ArgStep::Continue(j)) => i < j <= args@.len() && parse_from(texts(args@), i as int, old(cli)@)
                == parse_from(texts(args@), j as int, final(cli)@),
            Ok(ArgStep::Stop) => parse_from(texts(args@), i as int, old(cli)@) == Ok::<
                CliView,
                UsageSpec,
            >(final(cli)@),
            Err(e) => parse_from(texts(args@), i as int, old(cli)@) == Err::<CliView, UsageSpec>(e@),
        },
{
    let ghost t = texts(args@);
    proof {
        assert(t[i as int] == opt_text(args@[i as int]));
    }
    match &args[i] {
        None => {
            push_file(i, cli);
            Ok(ArgStep::Continue(i + 1))
        },
        Some(arg) => {
            let s = arg.as_slice();
            if s.len() == 2 && s[0] == '-' && s[1] == '-' {
                proof {
                    assert(s@ =~= seq!['-', '-']);
                }
                rest_are_files(args, i, cli);
                return Ok(ArgStep::Stop);
            }
            proof {
                if s@ == seq!['-', '-'] {
                    assert(s@.len() == 2 && s@[0] == '-' && s@[1] == '-');
                }
            }
            if s.len() >= 2 && s[0] == '-' && s[1] == '-' {
                let long = vstd::slice::slice_subrange(s, 2, s.len());
                proof {
                    assert(long@ =~= s@.skip(2));
                }
                match parse_long(long, cli, args, i) {
                    Ok(used) => {
                        if used {
                            Ok(ArgStep::Continue(i + 2))
                        } else {
                            Ok(ArgStep::Continue(i + 1))
                        }
                    },
                    Err(e) => Err(e),
                }
            } else if s.len() >= 2 && s[0] == '-' {
                let short = vstd::slice::slice_subrange(s, 1, s.len());
                proof {
                    assert(short@ =~= s@.skip(1));
                }
                match parse_short(short, cli) {
                    Ok(()) => Ok(ArgStep::Continue(i + 1)),
                    Err(e) => Err(e),
                }
            } else {
                push_file(i, cli);
                Ok(ArgStep::Continue(i + 1))
            }
        },
    }
}

/// Parses the command line: options set the fields of a `Cli`, the other
/// arguments are files, kept by their positions. See `parse_from`.
pub fn parse_args(args: &[Option<Vec<char>>]) -> (r: Result<Cli, UsageError>)
    ensures
        match parsed(texts(args@)) {
            Ok(c) => r matches Ok(x) && x@ == c,
            Err(e) => r matches Err(x) && x@ == e,
        },
{
    let mut cli = Cli::new();
    let mut i: usize = 0;
    while i < args.len()
        invariant
            i <= args@.len(),
            parsed(texts(args@)) == parse_from(texts(args@), i as int, cli@),
        decreases args@.len() - i,
    {
        match parse_arg(args, i, &mut cli) {
            Ok(ArgStep::Continue(j)) => {
                i = j;
            },
            Ok(ArgStep::Stop) => {
                return Ok(cli);
            },
            Err(e) => {
                return Err(e);
            },
        }
    }
    Ok(cli)
}

/// `s` is the lowercase ASCII word `w`, ignoring ASCII case.
pub open spec fn names_word(s: Seq<char>, w: Seq<char>) -> bool {
    s.len() == w.len() && forall|i: int|
        0 <= i < s.len() ==> (s[i] == w[i] || (s[i] as u32) as int + 32 == (w[i] as u32) as int)
}

/// The program's name when its own file name has no usable stem.
pub open spec fn default_name() -> Seq<char> {
    seq!['z', 'i', 's', 't']
}

/// The stem of the program's file name, or `zist`.
pub open spec fn stem_or_default(stem: Option<Seq<char>>) -> Seq<char> {
    match stem {
        Some(s) => s,
        None => default_name(),
    }
}

/// The mode and format that the program's name selects: `unzist` decompresses;
/// `gzist`, `xzist`, `bzist` compress as gzip, xz, bzip2; any other name
/// compresses in the default format. Case does not matter.
pub open spec fn name_defaults(stem: Option<Seq<char>>) -> (Mode, Option<Format>) {
    let n = stem_or_default(stem);
    if names_word(n, seq!['u', 'n', 'z', 'i', 's', 't']) {
        (Mode::Decompress, None)
    } else if names_word(n, seq!['g', 'z', 'i', 's', 't']) {
        (Mode::Compress, Some(Format::Gzip))
    } else if names_word(n, seq!['x', 'z', 'i', 's', 't']) {
        (Mode::Compress, Some(Format::Xz))
    } else if names_word(n, seq!['b', 'z', 'i', 's', 't']) {
        (Mode::Compress, Some(Format::Bzip2))
    } else {
        (Mode::Compress, None)
    }
}

/// Whether `s` is the lowercase ASCII word `w`, ignoring ASCII case.
fn is_word_ignoring_case(s: &[char], w: &[char]) -> (r: bool)
    requires
        forall|i: int| 0 <= i < w@.len() ==> 'a' <= #[trigger] w@[i] <= 'z',
    ensures
        r == names_word(s@, w@),
{
    if s.len() != w.len() {
        return false;
    }
    let mut i: usize = 0;
    while i < s.len()
        invariant
            i <= s@.len() == w@.len(),
            forall|j: int| 0 <= j < w@.len() ==> 'a' <= #[trigger] w@[j] <= 'z',
            forall|j: int|
                0 <= j < i ==> (s@[j] == w@[j] || (s@[j] as u32) as int + 32 == (w@[j] as u32) as int),
        decreases s@.len() - i,
    {
        let c = s[i];
        let l = w[i];
        if !(c == l || (c as u32 as u64) + 32 == l as u32 as u64) {
            return false;
        }
        i = i + 1;
    }
    true
}

/// The mode and default format that the program's own name selects, from the
/// stem of its file name (`None` where it has none, or it is not UTF-8).
pub fn defaults_from_argv0(stem: Option<&[char]>) -> (r: (Mode, Option<Format>))
    ensures
        r == name_defaults(match stem {
            Some(s) => Some(s@),
            None => None,
        }),
{
    let fallback = vec!['z', 'i', 's', 't'];
    proof {
        assert(fallback@ =~= default_name());
    }
    let name = match stem {
        Some(s) => s,
        None => fallback.as_slice(),
    };
    let unzist = vec!['u', 'n', 'z', 'i', 's', 't'];
    let gzist = vec!['g', 'z', 'i', 's', 't'];
    let xzist = vec!['x', 'z', 'i', 's', 't'];
    let bzist = vec!['b', 'z', 'i', 's', 't'];
    proof {
        assert(unzist@ =~= seq!['u', 'n', 'z', 'i', 's', 't']);
        assert(gzist@ =~= seq!['g', 'z', 'i', 's', 't']);
        assert(xzist@ =~= seq!['x', 'z', 'i', 's', 't']);
        assert(bzist@ =~= seq!['b', 'z', 'i', 's', 't']);
    }
    if is_word_ignoring_case(name, unzist.as_slice()) {
        (Mode::Decompress, None)
    } else if is_word_ignoring_case(name, gzist.as_slice()) {
        (Mode::Compress, Some(Format::Gzip))
    } else if is_word_ignoring_case(name, xzist.as_slice()) {
        (Mode::Compress, Some(Format::Xz))
    } else if is_word_ignoring_case(name, bzist.as_slice()) {
        (Mode::Compress, Some(Format::Bzip2))
    } else {
        (Mode::Compress, None)
    }
}

/// The program's name for messages: the stem of its file name, or `zist`.
pub fn program_name(stem: Option<&[char]>) -> (r: Vec<char>)
    ensures
        r@ == stem_or_default(match stem {
            Some(s) => Some(s@),
            None => None,
        }),
{
    match stem {
        Some(s) => copy_chars(s),
        None => {
            let v = vec!['z', 'i', 's', 't'];
            assert(v@ =~= default_name());
            v
        },
    }
}

/// `c` is a glob metacharacter: `*`, `?` or `[`.
pub open spec fn is_glob_meta(c: char) -> bool {
    c == '*' || c == '?' || c == '['
}

/// A path's text (`None` where it is not UTF-8) holds a glob metacharacter.
pub open spec fn holds_glob_meta(p: Option<Seq<char>>) -> bool {
    match p {
        Some(s) => text_has_glob_meta(s),
        None => false,
    }
}

/// A text holds a glob metacharacter.
pub open spec fn text_has_glob_meta(s: Seq<char>) -> bool {
    exists|i: int| 0 <= i < s.len() && is_glob_meta(#[trigger] s[i])
}

/// Whether a path (its text; `None` where it is not UTF-8) holds a glob
/// metacharacter.
pub fn has_glob_meta(p: Option<&[char]>) -> (r: bool)
    ensures
        r == holds_glob_meta(match p {
            Some(s) => Some(s@),
            None => None,
        }),
{
    match p {
        None => false,
        Some(s) => {
            let mut i: usize = 0;
            while i < s.len()
                invariant
                    p == Some(s),
                    i <= s@.len(),
                    forall|j: int| 0 <= j < i ==> !is_glob_meta(#[trigger] s@[j]),
                decreases s@.len() - i,
            {
                let c = s[i];
                if c == '*' || c == '?' || c == '[' {
                    assert(0 <= i < s@.len() && is_glob_meta(s@[i as int]));
                    assert(text_has_glob_meta(s@));
                    return true;
                }
                i = i + 1;
            }
            false
        },
    }
}

/// Why a run does nothing but report a usage error.
#[derive(Debug, Clone, Copy, PartialEq, Eq, Structural)]
pub enum RunRefusal {
    NoInputFiles,
    QuietAndVerbose,
    StdoutAndTest,
}

/// The message shown for a refused run.
pub open spec fn refusal_text(r: RunRefusal) -> Seq<char> {
    match r {
        RunRefusal::NoInputFiles => "no input files"@,
        RunRefusal::QuietAndVerbose => "--quiet and --verbose are mutually exclusive"@,
        RunRefusal::StdoutAndTest => "--stdout and --test are mutually exclusive"@,
    }
}

impl RunRefusal {
    /// The message shown for this refusal.
    pub fn message(&self) -> (m: Vec<char>)
        ensures
            m@ == refusal_text(*self),
    {
        let mut m: Vec<char> = Vec::new();
        match self {
            RunRefusal::NoInputFiles => push_text(&mut m, "no input files"),
            RunRefusal::QuietAndVerbose => push_text(
                &mut m,
                "--quiet and --verbose are mutually exclusive",
            ),
            RunRefusal::StdoutAndTest => push_text(&mut m, "--stdout and --test are mutually exclusive"),
        }
        assert(m@ =~= refusal_text(*self));
        m
    }
}

/// What a run does.
#[derive(Debug, Clone, Copy, PartialEq, Eq, Structural)]
pub enum RunPlan {
    /// Print the help of `mode`, naming `default_format` as the default format.
    Help { mode: Mode, default_format: Format },
    /// Print the program's name and version.
    Version,
    /// Report a usage error.
    Refuse(RunRefusal),
    /// Process every file in `mode`; `format` is the format asked for, if any.
    Process { mode: Mode, format: Option<Format> },
}

/// What a run does, given its command line and the defaults of the program's
/// name: `--format` wins over the name's format; help, then version, come
/// before anything else; then there must be files, and neither `--quiet` with
/// `--verbose` nor `--stdout` with `--test`.
pub open spec fn run_plan(c: CliView, default_mode: Mode, default_format: Option<Format>) -> RunPlan {
    let format = if c.format is Some {
        c.format
    } else {
        default_format
    };
    let mode = match c.mode {
        Some(m) => m,
        None => default_mode,
    };
    if c.help {
        RunPlan::Help {
            mode,
            default_format: match format {
                Some(f) => f,
                None => Format::Zstd,
            },
        }
    } else if c.version {
        RunPlan::Version
    } else if c.files.len() == 0 {
        RunPlan::Refuse(RunRefusal::NoInputFiles)
    } else if c.quiet && c.verbose {
        RunPlan::Refuse(RunRefusal::QuietAndVerbose)
    } else if c.stdout && c.test {
        RunPlan::Refuse(RunRefusal::StdoutAndTest)
    } else {
        RunPlan::Process { mode, format }
    }
}

/// Decides what a run does.
pub fn plan_run(cli: &Cli, default_mode: Mode, default_format: Option<Format>) -> (r: RunPlan)
    ensures
        r == run_plan(cli@, default_mode, default_format),
{
    let format = if cli.format.is_some() {
        cli.format
    } else {
        default_format
    };
    let mode = match cli.mode {
        Some(m) => m,
        None => default_mode,
    };
    if cli.help {
        RunPlan::Help {
            mode,
            default_format: match format {
                Some(f) => f,
                None => Format::Zstd,
            },
        }
    } else if cli.version {
        RunPlan::Version
    } else if cli.files.len() == 0 {
        RunPlan::Refuse(RunRefusal::NoInputFiles)
    } else if cli.quiet && cli.verbose {
        RunPlan::Refuse(RunRefusal::QuietAndVerbose)
    } else if cli.stdout && cli.test {
        RunPlan::Refuse(RunRefusal::StdoutAndTest)
    } else {
        RunPlan::Process { mode, format }
    }
}

/// The exit status of a command line or a run that is refused.
pub const USAGE_STATUS: u8 = 2;

/// The exit status of a run over files, given whether each file succeeded:
/// 0 when all did, 1 when any failed.
pub fn batch_status(ok: &[bool]) -> (code: u8)
    ensures
        code == batch_code(ok@),
{
    let mut i: usize = 0;
    while i < ok.len()
        invariant
            i <= ok@.len(),
            forall|j: int| 0 <= j < i ==> ok@[j],
        decreases ok@.len() - i,
    {
        if !ok[i] {
            return 1;
        }
        i = i + 1;
    }
    0
}

/// Where the output of a file goes.
#[derive(Debug, Clone, Copy, PartialEq, Eq, Structural)]
pub enum Target {
    /// Next to the source.
    InPlace,
    /// To standard output.
    Stdout,
    /// Nowhere: the archive is only tested.
    Discard,
}

/// Why a file is not processed.
#[derive(Debug, Clone, Copy, PartialEq, Eq, Structural)]
pub enum FileRefusal {
    /// `--test` was given in compress mode.
    TestNeedsDecompress,
}

impl FileRefusal {
    /// The message shown for this refusal.
    pub fn message(&self) -> (m: Vec<char>)
        ensures
            m@ == "--test only applies in decompress mode"@,
    {
        let mut m: Vec<char> = Vec::new();
        push_text(&mut m, "--test only applies in decompress mode");
        assert(m@ =~= "--test only applies in decompress mode"@);
        m
    }
}

/// What is done with the file at path `src`: `-c` implies `-k`; compressing
/// uses the format asked for, else zstd, and refuses `--test`; decompressing
/// tests (into nothing), streams to standard output, or works in place.
pub open spec fn file_plan(mode: Mode, c: CliView, format: Option<Format>, src: Seq<u8>, r: Result<(Job, Target), FileRefusal>) -> bool {
    let opts = Options { keep: c.keep || c.stdout, force: c.force, max_decompressed: None };
    let fmt = match format {
        Some(f) => f,
        None => Format::Zstd,
    };
    match mode {
        Mode::Compress => if c.test {
            r == Err::<(Job, Target), FileRefusal>(FileRefusal::TestNeedsDecompress)
        } else if c.stdout {
            r matches Ok((Job::CompressToWriter { src: p, fmt: f, level: l }, t)) && p@ == src && f
                == fmt && l == c.level && t == Target::Stdout
        } else {
            r matches Ok((Job::CompressInPlace { src: p, fmt: f, level: l, opts: o }, t)) && p@ == src
                && f == fmt && l == c.level && o == opts && t == Target::InPlace
        },
        Mode::Decompress => if c.test {
            r matches Ok((Job::DecompressToWriter { src: p, max_decompressed: m }, t)) && p@ == src
                && m is None && t == Target::Discard
        } else if c.stdout {
            r matches Ok((Job::DecompressToWriter { src: p, max_decompressed: m }, t)) && p@ == src
                && m is None && t == Target::Stdout
        } else {
            r matches Ok((Job::DecompressInPlace { src: p, opts: o }, t)) && p@ == src && o == opts
                && t == Target::InPlace
        },
    }
}

/// Decides what is done with the file at path `src`.
pub fn plan_file(mode: Mode, cli: &Cli, format: Option<Format>, src: Vec<u8>) -> (r: Result<(Job, Target), FileRefusal>)
    ensures
        file_plan(mode, cli@, format, src@, r),
{
    let opts = Options { keep: cli.keep || cli.stdout, force: cli.force, max_decompressed: None };
    match mode {
        Mode::Compress => {
            let fmt = match format {
                Some(f) => f,
                None => Format::Zstd,
            };
            if cli.test {
                Err(FileRefusal::TestNeedsDecompress)
            } else if cli.stdout {
                Ok((Job::CompressToWriter { src, fmt, level: cli.level }, Target::Stdout))
            } else {
                Ok((Job::CompressInPlace { src, fmt, level: cli.level, opts }, Target::InPlace))
            }
        },
        Mode::Decompress => {
            if cli.test {
                Ok((Job::DecompressToWriter { src, max_decompressed: None }, Target::Discard))
            } else if cli.stdout {
                Ok((Job::DecompressToWriter { src, max_decompressed: None }, Target::Stdout))
            } else {
                Ok((Job::DecompressInPlace { src, opts }, Target::InPlace))
            }
        },
    }
}

/// Where a per-file summary goes.
#[derive(Debug, Clone, Copy, PartialEq, Eq, Structural)]
pub enum Channel {
    Silent,
    Stdout,
    Stderr,
}

/// Where the summary of a processed file goes: streaming to standard output
/// notes on standard error under `--verbose` only; otherwise `--quiet` silences
/// it, `--verbose` sends it to standard error, and it goes to standard output
/// by default.
pub open spec fn summary_channel(c: CliView, target: Target) -> Channel {
    if target == Target::Stdout {
        if c.verbose {
            Channel::Stderr
        } else {
            Channel::Silent
        }
    } else if c.quiet {
        Channel::Silent
    } else if c.verbose {
        Channel::Stderr
    } else {
        Channel::Stdout
    }
}

/// Decides where the summary of a processed file goes.
pub fn report_channel(cli: &Cli, target: Target) -> (r: Channel)
    ensures
        r == summary_channel(cli@, target),
{
    if target == Target::Stdout {
        if cli.verbose {
            Channel::Stderr
        } else {
            Channel::Silent
        }
    } else if cli.quiet {
        Channel::Silent
    } else if cli.verbose {
        Channel::Stderr
    } else {
        Channel::Stdout
    }
}

/// The line that reports a processed file: `src -> out` when compressed in
/// place, `src [fmt] -> out` when decompressed in place, `src -> <stdout> [fmt]`
/// and `src [fmt] -> <stdout>` when streamed, `src: fmt OK` when tested.
pub open spec fn summary_text(job: Job, target: Target, o: Outcome) -> Seq<u8> {
    let src = job_src(job);
    match o {
        Outcome::Compressed(p) => src + encode_utf8(" -> "@) + p@,
        Outcome::Decompressed(p, f) => src + encode_utf8(" ["@) + ascii_bytes(name_of(f)) + encode_utf8(
            "] -> "@,
        ) + p@,
        Outcome::Streamed => src + encode_utf8(" -> <stdout> ["@) + ascii_bytes(name_of(job_fmt(job)))
            + encode_utf8("]"@),
        Outcome::StreamedFrom(f) => if target == Target::Discard {
            src + encode_utf8(": "@) + ascii_bytes(name_of(f)) + encode_utf8(" OK"@)
        } else {
            src + encode_utf8(" ["@) + ascii_bytes(name_of(f)) + encode_utf8("] -> <stdout>"@)
        },
    }
}

/// The line that reports a processed file; see `summary_text`.
pub fn summary_line(job: &Job, target: Target, outcome: &Outcome) -> (m: Vec<u8>)
    ensures
        m@ == summary_text(*job, target, *outcome),
{
    let mut m: Vec<u8> = Vec::new();
    push_bytes(&mut m, job.src().as_slice());
    match outcome {
        Outcome::Compressed(p) => {
            push_bytes(&mut m, " -> ".as_bytes());
            push_bytes(&mut m, p.as_slice());
        },
        Outcome::Decompressed(p, f) => {
            push_bytes(&mut m, " [".as_bytes());
            push_name(&mut m, *f);
            push_bytes(&mut m, "] -> ".as_bytes());
            push_bytes(&mut m, p.as_slice());
        },
        Outcome::Streamed => {
            push_bytes(&mut m, " -> <stdout> [".as_bytes());
            let f = match job {
                Job::CompressInPlace { fmt, .. } | Job::CompressToWriter { fmt, .. } => *fmt,
                _ => Format::Zstd,
            };
            push_name(&mut m, f);
            push_bytes(&mut m, "]".as_bytes());
        },
        Outcome::StreamedFrom(f) => if target == Target::Discard {
            push_bytes(&mut m, ": ".as_bytes());
            push_name(&mut m, *f);
            push_bytes(&mut m, " OK".as_bytes());
        } else {
            push_bytes(&mut m, " [".as_bytes());
            push_name(&mut m, *f);
            push_bytes(&mut m, "] -> <stdout>".as_bytes());
        },
    }
    assert(m@ =~= summary_text(*job, target, *outcome));
    m
}

/// The line that reports a file that failed: `path: message`.
pub fn failure_line(path: &[u8], e: &Error) -> (m: Vec<u8>)
    ensures
        m@ == path@ + encode_utf8(": "@) + message_bytes(*e),
{
    let mut m: Vec<u8> = Vec::new();
    push_bytes(&mut m, path);
    push_bytes(&mut m, ": ".as_bytes());
    let text = e.message();
    push_bytes(&mut m, text.as_slice());
    m
}

/// A run over files, one after the other: which file comes next, and what
/// came of those done so far.
pub struct Batch {
    total: usize,
    results: Vec<bool>,
}

/// The file that comes next in a run over `total` files, given what came of
/// those done so far: the one after them, whatever came of them, until all were
/// done.
pub open spec fn next_in_batch(total: nat, done: Seq<bool>) -> Option<usize> {
    if done.len() < total {
        Some(done.len() as usize)
    } else {
        None
    }
}

/// The exit status of a run whose files went as `done` says.
pub open spec fn batch_code(done: Seq<bool>) -> u8 {
    if forall|i: int| 0 <= i < done.len() ==> done[i] {
        0u8
    } else {
        1u8
    }
}

impl Batch {
    /// How many files the run is over.
    pub closed spec fn size(&self) -> nat {
        self.total as nat
    }

    /// What came of each file done so far, in order.
    pub closed spec fn done(&self) -> Seq<bool> {
        self.results@
    }

    /// No more files were done than there are.
    pub closed spec fn wf(&self) -> bool {
        self.results@.len() <= self.total
    }

    /// A run over `total` files, none done.
    pub fn new(total: usize) -> (b: Batch)
        ensures
            b.wf(),
            b.size() == total,
            b.done() == Seq::<bool>::empty(),
    {
        Batch { total, results: Vec::new() }
    }

    /// The position of the file to do next, if any.
    pub fn next_file(&self) -> (r: Option<usize>)
        requires
            self.wf(),
        ensures
            r == next_in_batch(self.size(), self.done()),
    {
        if self.results.len() < self.total {
            Some(self.results.len())
        } else {
            None
        }
    }

    /// Records what came of the file done last.
    pub fn record(&mut self, ok: bool)
        requires
            old(self).wf(),
            old(self).done().len() < old(self).size(),
        ensures
            final(self).wf(),
            final(self).size() == old(self).size(),
            final(self).done() == old(self).done().push(ok),
    {
        self.results.push(ok);
    }

    /// The exit status of the run so far.
    pub fn status(&self) -> (code: u8)
        ensures
            code == batch_code(self.done()),
    {
        batch_status(self.results.as_slice())
    }
}

/// Law: a run attempts every file, in order, whatever came of the earlier
/// ones: after any `k` files, whatever came of them, the next is file `k`,
/// until all were done; and its exit status is 0 exactly when every file
/// succeeded.
pub proof fn law_batch_continues(total: nat, done: Seq<bool>, other: Seq<bool>)
    requires
        done.len() == other.len(),
    ensures
        next_in_batch(total, done) == next_in_batch(total, other),
        done.len() < total ==> next_in_batch(total, done) == Some(done.len() as usize),
        next_in_batch(total, done) is None <==> done.len() >= total,
        batch_code(done) == 0 <==> forall|i: int| 0 <= i < done.len() ==> done[i],
{
}

/// Law: options win over the program's name: `-d`/`-z` choose the mode and
/// `--format` the format, whatever the name selects.
pub proof fn law_options_override_name(c: CliView, stem: Option<Seq<char>>)
    requires
        !c.help && !c.version && c.files.len() > 0 && !(c.quiet && c.verbose) && !(c.stdout && c.test),
    ensures
        ({
            let (mode, format) = name_defaults(stem);
            &&& run_plan(c, mode, format) is Process
            &&& c.mode matches Some(m) ==> run_plan(c, mode, format)->Process_mode == m
            &&& c.format is Some ==> run_plan(c, mode, format)->Process_format == c.format
        }),
{
}

/// Law: what the command line leaves open, the program's name decides: a run
/// that processes files works in the mode that `default_mode` gives unless
/// `-d`/`-z` chose one, and in the format that `default_format` gives unless
/// `--format` chose one.
pub proof fn law_defaults_fill_what_options_leave(c: CliView, default_mode: Mode, default_format: Option<Format>)
    requires
        run_plan(c, default_mode, default_format) is Process,
    ensures
        run_plan(c, default_mode, default_format)->Process_mode == match c.mode {
            Some(m) => m,
            None => default_mode,
        },
        c.mode is None ==> run_plan(c, default_mode, default_format)->Process_mode == default_mode,
        c.format is None ==> run_plan(c, default_mode, default_format)->Process_format == default_format,
        c.format is Some ==> run_plan(c, default_mode, default_format)->Process_format == c.format,
{
}

/// Law: a file's job carries the command line's choices. A job in place keeps
/// its source exactly under `-k` or `-c` and overwrites exactly under `-f`, and
/// has no cap; compressing uses the format that planning was given (from
/// `--format` or from the program's name), zstd when none, at the level asked
/// for; without `--test` and `-c` the work is done in place; decompressing
/// never compresses, and compressing never decompresses.
pub proof fn law_plan_carries_choices(
    mode: Mode,
    c: CliView,
    format: Option<Format>,
    src: Seq<u8>,
    r: Result<(Job, Target), FileRefusal>,
)
    requires
        file_plan(mode, c, format, src, r),
    ensures
        r matches Ok((j, _)) ==> job_src(j) == src,
        r matches Ok((Job::CompressInPlace { opts, .. }, _)) ==> opts.keep == (c.keep || c.stdout)
            && opts.force == c.force && opts.max_decompressed is None,
        r matches Ok((Job::DecompressInPlace { opts, .. }, _)) ==> opts.keep == (c.keep || c.stdout)
            && opts.force == c.force && opts.max_decompressed is None,
        r matches Ok((Job::CompressInPlace { fmt, level, .. }, _)) ==> level == c.level && fmt == match format {
            Some(g) => g,
            None => Format::Zstd,
        },
        r matches Ok((Job::CompressToWriter { fmt, level, .. }, _)) ==> level == c.level && fmt == match format {
            Some(g) => g,
            None => Format::Zstd,
        },
        mode == Mode::Compress && !c.test && !c.stdout ==> (r matches Ok((Job::CompressInPlace { fmt, .. }, t))
            && t == Target::InPlace && (format matches Some(g) ==> fmt == g)),
        mode == Mode::Decompress && !c.test && !c.stdout ==> (r matches Ok((Job::DecompressInPlace { .. }, t))
            && t == Target::InPlace),
        mode == Mode::Compress && !c.test ==> (r matches Ok((j, _)) && is_compress(j)),
        mode == Mode::Decompress ==> (r matches Ok((j, _)) && !is_compress(j)),
        mode == Mode::Compress && c.test ==> r == Err::<(Job, Target), FileRefusal>(
            FileRefusal::TestNeedsDecompress,
        ),
        r is Err ==> mode == Mode::Compress && c.test,
        r matches Ok((Job::DecompressToWriter { max_decompressed, .. }, _)) ==> max_decompressed is None,
        r matches Ok((j, t)) ==> (is_in_place(j) <==> t == Target::InPlace),
        r matches Ok((_, t)) ==> (t == Target::Discard <==> c.test),
        r matches Ok((_, t)) ==> (t == Target::Stdout <==> (c.stdout && !c.test)),
{
}

/// Law: what a run does. `--help` wins over everything, then `--version`;
/// otherwise a run without files, or with `-q` and `-v`, or with `-c` and `-t`,
/// is refused, and any other run processes its files.
pub proof fn law_run_plan_decides(c: CliView, default_mode: Mode, default_format: Option<Format>)
    ensures
        c.help ==> run_plan(c, default_mode, default_format) is Help,
        !c.help && c.version ==> run_plan(c, default_mode, default_format) is Version,
        run_plan(c, default_mode, default_format) is Process <==> (!c.help && !c.version && c.files.len()
            > 0 && !(c.quiet && c.verbose) && !(c.stdout && c.test)),
        !c.help && !c.version && c.files.len() == 0 ==> run_plan(c, default_mode, default_format)
            == RunPlan::Refuse(RunRefusal::NoInputFiles),
        run_plan(c, default_mode, default_format) matches RunPlan::Refuse(RunRefusal::QuietAndVerbose)
            ==> c.quiet && c.verbose,
        run_plan(c, default_mode, default_format) matches RunPlan::Refuse(RunRefusal::StdoutAndTest)
            ==> c.stdout && c.test,
        run_plan(c, default_mode, default_format) matches RunPlan::Help { mode, .. } ==> mode == match c.mode {
            Some(m) => m,
            None => default_mode,
        },
{
}

/// Law: where a file's summary goes. Streamed output is never mixed with a
/// summary on standard output; `-q` silences the summary of work done in place
/// or of a test; `-v` sends every summary to standard error; otherwise work in
/// place and tests report on standard output and streams say nothing.
pub proof fn law_summary_channel(c: CliView, target: Target)
    ensures
        target == Target::Stdout ==> summary_channel(c, target) != Channel::Stdout,
        c.verbose && !(c.quiet && target != Target::Stdout) ==> summary_channel(c, target) == Channel::Stderr,
        c.quiet && target != Target::Stdout ==> summary_channel(c, target) == Channel::Silent,
        !c.quiet && !c.verbose ==> summary_channel(c, target) == if target == Target::Stdout {
            Channel::Silent
        } else {
            Channel::Stdout
        },
{
}

/// Law: the program's name reaches each file's job. Where the command line
/// chose no mode and no format, a file is compressed in place in the format
/// that the name selects (zstd when it selects none), or decompressed in place
/// where the name selects decompression, keeping the source exactly under
/// `-k`.
pub proof fn law_program_name_reaches_the_job(
    c: CliView,
    stem: Option<Seq<char>>,
    src: Seq<u8>,
    r: Result<(Job, Target), FileRefusal>,
)
    requires
        c.mode is None,
        c.format is None,
        !c.test,
        !c.stdout,
        run_plan(c, name_defaults(stem).0, name_defaults(stem).1) is Process,
        file_plan(
            run_plan(c, name_defaults(stem).0, name_defaults(stem).1)->Process_mode,
            c,
            run_plan(c, name_defaults(stem).0, name_defaults(stem).1)->Process_format,
            src,
            r,
        ),
    ensures
        name_defaults(stem).0 == Mode::Compress ==> (r matches Ok((Job::CompressInPlace { fmt, opts, .. }, _))
            && fmt == match name_defaults(stem).1 {
            Some(g) => g,
            None => Format::Zstd,
        } && opts.keep == c.keep),
        name_defaults(stem).0 == Mode::Decompress ==> (r matches Ok((Job::DecompressInPlace { opts, .. }, _))
            && opts.keep == c.keep),
{
    law_defaults_fill_what_options_leave(c, name_defaults(stem).0, name_defaults(stem).1);
    law_plan_carries_choices(
        run_plan(c, name_defaults(stem).0, name_defaults(stem).1)->Process_mode,
        c,
        run_plan(c, name_defaults(stem).0, name_defaults(stem).1)->Process_format,
        src,
        r,
    );
}

/// Law: the program's names select their defaults: `unzist` decompresses,
/// `gzist`, `xzist` and `bzist` compress to gzip, xz and bzip2, and any other
/// name compresses with no format chosen; a name never selects a format for
/// decompression.
pub proof fn law_names_select_defaults(stem: Option<Seq<char>>)
    ensures
        names_word(stem_or_default(stem), seq!['u', 'n', 'z', 'i', 's', 't']) ==> name_defaults(stem) == (
        Mode::Decompress, None::<Format>),
        names_word(stem_or_default(stem), seq!['g', 'z', 'i', 's', 't']) ==> name_defaults(stem) == (
        Mode::Compress, Some(Format::Gzip)),
        names_word(stem_or_default(stem), seq!['x', 'z', 'i', 's', 't']) ==> name_defaults(stem) == (
        Mode::Compress, Some(Format::Xz)),
        names_word(stem_or_default(stem), seq!['b', 'z', 'i', 's', 't']) ==> name_defaults(stem) == (
        Mode::Compress, Some(Format::Bzip2)),
        name_defaults(stem).0 == Mode::Decompress ==> name_defaults(stem).1 is None,
{
    let n = stem_or_default(stem);
    let words = seq![
        seq!['u', 'n', 'z', 'i', 's', 't'],
        seq!['g', 'z', 'i', 's', 't'],
        seq!['x', 'z', 'i', 's', 't'],
        seq!['b', 'z', 'i', 's', 't'],
    ];
    assert(words[0] == seq!['u', 'n', 'z', 'i', 's', 't']);
    if names_word(n, seq!['g', 'z', 'i', 's', 't']) {
        assert(!names_word(n, seq!['u', 'n', 'z', 'i', 's', 't']));
    }
    if names_word(n, seq!['x', 'z', 'i', 's', 't']) {
        assert(!names_word(n, seq!['u', 'n', 'z', 'i', 's', 't']));
        assert(n[0] == 'x' || n[0] as u32 + 32 == 'x' as u32);
        assert(!names_word(n, seq!['g', 'z', 'i', 's', 't']));
    }
    if names_word(n, seq!['b', 'z', 'i', 's', 't']) {
        assert(!names_word(n, seq!['u', 'n', 'z', 'i', 's', 't']));
        assert(n[0] == 'b' || n[0] as u32 + 32 == 'b' as u32);
        assert(!names_word(n, seq!['g', 'z', 'i', 's', 't']));
        assert(!names_word(n, seq!['x', 'z', 'i', 's', 't']));
    }
}

/// Law: each of the program's names, in any case, selects its defaults, and so
/// does the name it is given when it has none (`zist`): the word itself names
/// itself, and a name that differs from it only in the case of its letters
/// names it too.
pub proof fn law_each_name_names_itself(w: Seq<char>, s: Seq<char>)
    requires
        s.len() == w.len(),
        forall|i: int| 0 <= i < s.len() ==> (#[trigger] s[i] == w[i] || (s[i] as u32) as int + 32 == (w[i] as u32) as int),
    ensures
        names_word(w, w),
        names_word(s, w),
        name_defaults(Some(seq!['u', 'n', 'z', 'i', 's', 't'])) == (Mode::Decompress, None::<Format>),
        name_defaults(Some(seq!['g', 'z', 'i', 's', 't'])) == (Mode::Compress, Some(Format::Gzip)),
        name_defaults(Some(seq!['x', 'z', 'i', 's', 't'])) == (Mode::Compress, Some(Format::Xz)),
        name_defaults(Some(seq!['b', 'z', 'i', 's', 't'])) == (Mode::Compress, Some(Format::Bzip2)),
        name_defaults(None) == (Mode::Compress, None::<Format>),
{
    let u = seq!['u', 'n', 'z', 'i', 's', 't'];
    let g = seq!['g', 'z', 'i', 's', 't'];
    let x = seq!['x', 'z', 'i', 's', 't'];
    let b = seq!['b', 'z', 'i', 's', 't'];
    assert(names_word(u, u));
    assert(names_word(g, g));
    assert(!names_word(g, u));
    assert(names_word(x, x));
    assert(!names_word(x, u));
    assert(!names_word(x, g)) by {
        assert(x[0] != g[0] && (x[0] as u32) as int + 32 != (g[0] as u32) as int);
    }
    assert(names_word(b, b));
    assert(!names_word(b, u));
    assert(!names_word(b, g)) by {
        assert(b[0] != g[0] && (b[0] as u32) as int + 32 != (g[0] as u32) as int);
    }
    assert(!names_word(b, x)) by {
        assert(b[0] != x[0] && (b[0] as u32) as int + 32 != (x[0] as u32) as int);
    }
    let z = default_name();
    assert(!names_word(z, u));
    assert(!names_word(z, g)) by {
        assert(z[0] != g[0] && (z[0] as u32) as int + 32 != (g[0] as u32) as int);
    }
    assert(!names_word(z, x)) by {
        assert(z[0] != x[0] && (z[0] as u32) as int + 32 != (x[0] as u32) as int);
    }
    assert(!names_word(z, b)) by {
        assert(z[0] != b[0] && (z[0] as u32) as int + 32 != (b[0] as u32) as int);
    }
}

/// A file argument is taken as it is, not as a glob pattern: when it names
/// something on disk (a literal match wins), or when it holds no glob
/// metacharacter (or is not text).
pub fn takes_literally(exists_on_disk: bool, text: Option<&[char]>) -> (r: bool)
    ensures
        r == (exists_on_disk || !holds_glob_meta(match text {
            Some(s) => Some(s@),
            None => None,
        })),
{
    exists_on_disk || !has_glob_meta(text)
}

/// The paths that a glob pattern `p` stands for, given what matching it found
/// (`None` when the pattern is invalid): the matches, or the pattern itself
/// when there are none, so that it fails later as a missing file.
pub fn pattern_paths(p: Vec<u8>, matched: Option<Vec<Vec<u8>>>) -> (r: Vec<Vec<u8>>)
    ensures
        match matched {
            Some(m) => if m@.len() > 0 {
                r@ == m@
            } else {
                r@.len() == 1 && r@[0]@ == p@
            },
            None => r@.len() == 1 && r@[0]@ == p@,
        },
{
    match matched {
        Some(m) => if m.len() > 0 {
            m
        } else {
            vec![p]
        },
        None => vec![p],
    }
}

/// Law: `--test` in decompress mode streams the decompressed file, uncapped,
/// into nothing: a session of that job reads the source and writes to the
/// discarding writer, and does nothing else to the file system.
pub proof fn law_test_only_reads(c: CliView, format: Option<Format>, src: Seq<u8>, r: Result<(Job, Target), FileRefusal>)
    requires
        file_plan(Mode::Decompress, c, format, src, r),
        c.test,
    ensures
        r matches Ok((j, t)) && t == Target::Discard && j is DecompressToWriter && job_src(j) == src
            && job_max(j) is None,
        r matches Ok((j, _)) ==> forall|s: Session, e: Event, s2: Session, a: Action|
            s.job == j && wf(s) && #[trigger] next(s, e, s2, a) ==> (a is ReadHead || a is ReadSource
                || a is WriteOutput || a is Finish),
{
    if let Ok((j, _)) = r {
        assert forall|s: Session, e: Event, s2: Session, a: Action|
            s.job == j && wf(s) && #[trigger] next(s, e, s2, a) implies (a is ReadHead || a is ReadSource
                || a is WriteOutput || a is Finish) by {
            law_streaming_only_reads(s, e, s2, a);
        }
    }
}

/// A file argument as the glob expansion sees it: its path, whether something
/// exists there, its text (`None` where it is not text), and what matching it
/// as a pattern found, where that was asked (`None` for an invalid pattern).
pub struct GlobInput {
    pub path: Vec<u8>,
    pub exists: bool,
    pub text: Option<Vec<char>>,
    pub matched: Option<Vec<Vec<u8>>>,
}

/// The paths, as bytes.
pub open spec fn path_views(v: Seq<Vec<u8>>) -> Seq<Seq<u8>> {
    v.map_values(|p: Vec<u8>| p@)
}

/// The argument is taken as it is.
pub open spec fn literal_input(g: GlobInput) -> bool {
    g.exists || !holds_glob_meta(opt_text(g.text))
}

/// The paths that an argument at path `p` stands for, given whether something
/// exists there, its text, and what matching it as a pattern found: itself when
/// taken literally, else the matches, or itself when there are none.
pub open spec fn arg_expansion(
    p: Seq<u8>,
    present: bool,
    text: Option<Seq<char>>,
    matched: Option<Seq<Seq<u8>>>,
) -> Seq<Seq<u8>> {
    if present || !holds_glob_meta(text) {
        seq![p]
    } else {
        match matched {
            Some(m) => if m.len() > 0 {
                m
            } else {
                seq![p]
            },
            None => seq![p],
        }
    }
}

/// The paths that matching found, as bytes.
pub open spec fn opt_paths(m: Option<Vec<Vec<u8>>>) -> Option<Seq<Seq<u8>>> {
    match m {
        Some(v) => Some(path_views(v@)),
        None => None,
    }
}

/// The paths that one argument stands for.
pub open spec fn expansion_of(g: GlobInput) -> Seq<Seq<u8>> {
    arg_expansion(g.path@, g.exists, opt_text(g.text), opt_paths(g.matched))
}

/// The paths that the arguments stand for, in order.
pub open spec fn expanded(gs: Seq<GlobInput>) -> Seq<Seq<u8>>
    decreases gs.len(),
{
    if gs.len() == 0 {
        seq![]
    } else {
        expanded(gs.drop_last()) + expansion_of(gs.last())
    }
}

/// A copy of the paths `m`.
fn copy_paths(m: &Vec<Vec<u8>>) -> (c: Vec<Vec<u8>>)
    ensures
        path_views(c@) == path_views(m@),
{
    let mut c: Vec<Vec<u8>> = Vec::new();
    let mut i: usize = 0;
    while i < m.len()
        invariant
            i <= m@.len(),
            path_views(c@) == path_views(m@).take(i as int),
        decreases m@.len() - i,
    {
        let p = vstd::slice::slice_to_vec(m[i].as_slice());
        assert(p@ == m@[i as int]@);
        let ghost before = c@;
        c.push(p);
        assert(path_views(c@) =~= path_views(before).push(m@[i as int]@));
        i = i + 1;
        assert(path_views(c@) =~= path_views(m@).take(i as int));
    }
    assert(path_views(m@).take(i as int) =~= path_views(m@));
    c
}

/// Expands the file arguments: each is taken as it is (see `takes_literally`)
/// or stands for what its pattern matched (see `pattern_paths`).
pub fn expand_globs(inputs: &[GlobInput]) -> (r: Vec<Vec<u8>>)
    ensures
        path_views(r@) == expanded(inputs@),
{
    let mut out: Vec<Vec<u8>> = Vec::new();
    let mut i: usize = 0;
    while i < inputs.len()
        invariant
            i <= inputs@.len(),
            path_views(out@) == expanded(inputs@.take(i as int)),
        decreases inputs@.len() - i,
    {
        let g = &inputs[i];
        let text: Option<&[char]> = match &g.text {
            Some(t) => Some(t.as_slice()),
            None => None,
        };
        let ghost before = out@;
        let path = vstd::slice::slice_to_vec(g.path.as_slice());
        if takes_literally(g.exists, text) {
            out.push(path);
            assert(path_views(out@) =~= path_views(before) + seq![g.path@]);
        } else {
            let matched = match &g.matched {
                Some(m) => Some(copy_paths(m)),
                None => None,
            };
            let mut paths = pattern_paths(path, matched);
            assert(path_views(paths@) == expansion_of(*g)) by {
                if let Some(m) = g.matched {
                    assert(path_views(m@).len() == m@.len());
                    if m@.len() == 0 {
                        assert(path_views(paths@) =~= seq![g.path@]);
                    }
                } else {
                    assert(path_views(paths@) =~= seq![g.path@]);
                }
            }
            out.append(&mut paths);
            assert(path_views(out@) =~= path_views(before) + expansion_of(*g));
        }
        assert(inputs@.take(i + 1).drop_last() =~= inputs@.take(i as int));
        i = i + 1;
    }
    assert(inputs@.take(i as int) =~= inputs@);
    out
}

/// Law: arguments that all name something on disk are taken as they are, so
/// expanding what an expansion gave back (its matches exist) changes nothing.
pub proof fn law_existing_paths_kept(gs: Seq<GlobInput>)
    requires
        forall|i: int| 0 <= i < gs.len() ==> #[trigger] gs[i].exists,
    ensures
        expanded(gs) == gs.map_values(|g: GlobInput| g.path@),
    decreases gs.len(),
{
    if gs.len() > 0 {
        let rest = gs.drop_last();
        assert forall|i: int| 0 <= i < rest.len() implies #[trigger] rest[i].exists by {
            assert(rest[i] == gs[i]);
        }
        law_existing_paths_kept(rest);
        assert(gs.last().exists);
        assert(expansion_of(gs.last()) == seq![gs.last().path@]);
        assert(gs.map_values(|g: GlobInput| g.path@).drop_last() =~= rest.map_values(
            |g: GlobInput| g.path@,
        ));
        assert(expanded(gs) =~= gs.map_values(|g: GlobInput| g.path@));
    }
}

/// The paths that the paths `ps` stand for on a file system where `present`
/// says what is there, `text` gives a path's text and `glob` what matching it
/// as a pattern finds.
pub open spec fn expand_on(
    ps: Seq<Seq<u8>>,
    present: spec_fn(Seq<u8>) -> bool,
    text: spec_fn(Seq<u8>) -> Option<Seq<char>>,
    glob: spec_fn(Seq<u8>) -> Option<Seq<Seq<u8>>>,
) -> Seq<Seq<u8>>
    decreases ps.len(),
{
    if ps.len() == 0 {
        seq![]
    } else {
        expand_on(ps.drop_last(), present, text, glob) + arg_expansion(
            ps.last(),
            present(ps.last()),
            text(ps.last()),
            glob(ps.last()),
        )
    }
}

/// The arguments `gs` are what the file system gives for their paths.
pub open spec fn read_from(
    gs: Seq<GlobInput>,
    present: spec_fn(Seq<u8>) -> bool,
    text: spec_fn(Seq<u8>) -> Option<Seq<char>>,
    glob: spec_fn(Seq<u8>) -> Option<Seq<Seq<u8>>>,
) -> bool {
    forall|i: int|
        0 <= i < gs.len() ==> {
            &&& #[trigger] gs[i].exists == present(gs[i].path@)
            &&& opt_text(gs[i].text) == text(gs[i].path@)
            &&& !literal_input(gs[i]) ==> opt_paths(gs[i].matched) == glob(gs[i].path@)
        }
}

/// Law: arguments read from a file system expand as their paths do on it.
pub proof fn law_expansion_on_disk(
    gs: Seq<GlobInput>,
    present: spec_fn(Seq<u8>) -> bool,
    text: spec_fn(Seq<u8>) -> Option<Seq<char>>,
    glob: spec_fn(Seq<u8>) -> Option<Seq<Seq<u8>>>,
)
    requires
        read_from(gs, present, text, glob),
    ensures
        expanded(gs) == expand_on(gs.map_values(|g: GlobInput| g.path@), present, text, glob),
    decreases gs.len(),
{
    if gs.len() > 0 {
        let rest = gs.drop_last();
        assert forall|i: int| 0 <= i < rest.len() implies #[trigger] rest[i] == gs[i] by {}
        law_expansion_on_disk(rest, present, text, glob);
        assert(gs.map_values(|g: GlobInput| g.path@).drop_last() =~= rest.map_values(
            |g: GlobInput| g.path@,
        ));
        let g = gs.last();
        let ps = gs.map_values(|g: GlobInput| g.path@);
        assert(gs[gs.len() - 1] == g);
        assert(g.exists == present(g.path@));
        assert(opt_text(g.text) == text(g.path@));
        assert(ps.last() == g.path@);
        assert(ps.drop_last() == rest.map_values(|g: GlobInput| g.path@));
        if !literal_input(g) {
            assert(opt_paths(g.matched) == glob(g.path@));
        }
        assert(expansion_of(g) == arg_expansion(ps.last(), present(ps.last()), text(ps.last()), glob(ps.last())));
    }
}

/// A path that stands for itself alone.
pub open spec fn stands_for_itself(
    q: Seq<u8>,
    present: spec_fn(Seq<u8>) -> bool,
    text: spec_fn(Seq<u8>) -> Option<Seq<char>>,
    glob: spec_fn(Seq<u8>) -> Option<Seq<Seq<u8>>>,
) -> bool {
    arg_expansion(q, present(q), text(q), glob(q)) == seq![q]
}

/// Paths that each stand for themselves expand to themselves.
proof fn lemma_fixed_paths_expand_to_themselves(
    qs: Seq<Seq<u8>>,
    present: spec_fn(Seq<u8>) -> bool,
    text: spec_fn(Seq<u8>) -> Option<Seq<char>>,
    glob: spec_fn(Seq<u8>) -> Option<Seq<Seq<u8>>>,
)
    requires
        forall|i: int| 0 <= i < qs.len() ==> stands_for_itself(#[trigger] qs[i], present, text, glob),
    ensures
        expand_on(qs, present, text, glob) == qs,
    decreases qs.len(),
{
    if qs.len() > 0 {
        let rest = qs.drop_last();
        assert forall|i: int| 0 <= i < rest.len() implies stands_for_itself(#[trigger] rest[i], present, text, glob) by {
            assert(rest[i] == qs[i]);
        }
        lemma_fixed_paths_expand_to_themselves(rest, present, text, glob);
        assert(stands_for_itself(qs[qs.len() - 1], present, text, glob));
        assert(rest + seq![qs.last()] =~= qs);
    }
}

/// Every path that an expansion gives stands for itself, where what patterns
/// match exists.
proof fn lemma_expansion_is_fixed(
    ps: Seq<Seq<u8>>,
    present: spec_fn(Seq<u8>) -> bool,
    text: spec_fn(Seq<u8>) -> Option<Seq<char>>,
    glob: spec_fn(Seq<u8>) -> Option<Seq<Seq<u8>>>,
)
    requires
        forall|p: Seq<u8>, k: int|
            #![trigger glob(p), present(glob(p)->0[k])]
            glob(p) is Some && 0 <= k < glob(p)->0.len() ==> present(glob(p)->0[k]),
    ensures
        forall|i: int|
            0 <= i < expand_on(ps, present, text, glob).len() ==> stands_for_itself(
                #[trigger] expand_on(ps, present, text, glob)[i],
                present,
                text,
                glob,
            ),
    decreases ps.len(),
{
    if ps.len() > 0 {
        let rest = ps.drop_last();
        lemma_expansion_is_fixed(rest, present, text, glob);
        let p = ps.last();
        let head = expand_on(rest, present, text, glob);
        let tail = arg_expansion(p, present(p), text(p), glob(p));
        assert forall|k: int| 0 <= k < tail.len() implies stands_for_itself(#[trigger] tail[k], present, text, glob) by {
            if present(p) || !holds_glob_meta(text(p)) {
                assert(tail[k] == p);
            } else {
                match glob(p) {
                    Some(m) => if m.len() > 0 {
                        assert(tail[k] == glob(p)->0[k]);
                        assert(present(glob(p)->0[k]));
                    } else {
                        assert(tail[k] == p);
                    },
                    None => {
                        assert(tail[k] == p);
                    },
                }
            }
        }
        assert forall|i: int|
            0 <= i < expand_on(ps, present, text, glob).len() implies stands_for_itself(
            #[trigger] expand_on(ps, present, text, glob)[i],
            present,
            text,
            glob,
        ) by {
            if i < head.len() {
                assert(expand_on(ps, present, text, glob)[i] == head[i]);
            } else {
                assert(expand_on(ps, present, text, glob)[i] == tail[i - head.len()]);
            }
        }
    }
}

/// Law: on a file system that does not change, where what a pattern matches
/// exists, expanding what an expansion gave changes nothing.
pub proof fn law_expanding_twice(
    ps: Seq<Seq<u8>>,
    present: spec_fn(Seq<u8>) -> bool,
    text: spec_fn(Seq<u8>) -> Option<Seq<char>>,
    glob: spec_fn(Seq<u8>) -> Option<Seq<Seq<u8>>>,
)
    requires
        forall|p: Seq<u8>, k: int|
            #![trigger glob(p), present(glob(p)->0[k])]
            glob(p) is Some && 0 <= k < glob(p)->0.len() ==> present(glob(p)->0[k]),
    ensures
        expand_on(expand_on(ps, present, text, glob), present, text, glob) == expand_on(
            ps,
            present,
            text,
            glob,
        ),
{
    lemma_expansion_is_fixed(ps, present, text, glob);
    lemma_fixed_paths_expand_to_themselves(expand_on(ps, present, text, glob), present, text, glob);
}

} // verus!
