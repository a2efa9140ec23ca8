//! The command-line surface: flag parsing into a `Cli` value, plus the two
//! helpers behind the tool self-check — reading a tool's version out of its
//! output and comparing dotted version strings.

use vstd::prelude::*;

use crate::text::{is_space, lemma_line_end_bounds, line_end, str_eq};
use crate::version::{all_digits, dec_val, digit_val, is_digit};

verus! {

/// The parsed command line.
#[derive(Debug, Clone)]
pub struct Cli {
    /// Bump the major version (`X.0.0`).
    pub major: bool,
    /// Bump the minor version (`x.Y.0`).
    pub minor: bool,
    /// Preview changes without applying them.
    pub dry_run: bool,
    /// Commit message to use.
    pub message: Option<String>,
    /// Generate an automatic commit message.
    pub automatic: bool,
    /// Paths to repository roots.
    pub directories: Vec<String>,
}

/// The mathematical shape of a parsed command line.
pub struct CliModel {
    pub major: bool,
    pub minor: bool,
    pub dry_run: bool,
    pub message: Option<Seq<char>>,
    pub automatic: bool,
    pub directories: Seq<Seq<char>>,
}

impl View for Cli {
    type V = CliModel;

    open spec fn view(&self) -> CliModel {
        CliModel {
            major: self.major,
            minor: self.minor,
            dry_run: self.dry_run,
            message: self.message.deep_view(),
            automatic: self.automatic,
            directories: self.directories.deep_view(),
        }
    }
}

/// A command line the parser refuses.
#[derive(Debug, Clone)]
pub enum CliError {
    /// A token that looks like a flag but is not one of the known flags.
    UnknownFlag(String),
    /// `--message` came last, with no value after it.
    MissingMessageValue,
    /// `--major` and `--minor` are mutually exclusive.
    ConflictingBumpFlags,
    /// `--message` and `--automatic` are mutually exclusive.
    ConflictingMessageFlags,
}

/// The mathematical shape of a refused command line.
pub enum CliErrorModel {
    UnknownFlag(Seq<char>),
    MissingMessageValue,
    ConflictingBumpFlags,
    ConflictingMessageFlags,
}

impl View for CliError {
    type V = CliErrorModel;

    open spec fn view(&self) -> CliErrorModel {
        match self {
            CliError::UnknownFlag(t) => CliErrorModel::UnknownFlag(t@),
            CliError::MissingMessageValue => CliErrorModel::MissingMessageValue,
            CliError::ConflictingBumpFlags => CliErrorModel::ConflictingBumpFlags,
            CliError::ConflictingMessageFlags => CliErrorModel::ConflictingMessageFlags,
        }
    }
}

pub open spec fn spec_cli_init() -> CliModel {
    CliModel {
        major: false,
        minor: false,
        dry_run: false,
        message: None,
        automatic: false,
        directories: Seq::<Seq<char>>::empty(),
    }
}

/// The mutual-exclusion checks applied once every token is consumed.
pub open spec fn spec_cli_finish(acc: CliModel) -> Result<CliModel, CliErrorModel> {
    if acc.major && acc.minor {
        Err(CliErrorModel::ConflictingBumpFlags)
    } else if acc.automatic && acc.message is Some {
        Err(CliErrorModel::ConflictingMessageFlags)
    } else {
        Ok(acc)
    }
}

/// Whether a token is read as a flag: it starts with `-` and is more than
/// the single dash.
pub open spec fn spec_is_flag_token(t: Seq<char>) -> bool {
    t.len() > 1 && t[0] == '-'
}

/// One step of parsing: how the token at `i` extends the accumulated value.
pub open spec fn spec_parse_tokens(toks: Seq<Seq<char>>, i: int, acc: CliModel) -> Result<
    CliModel,
    CliErrorModel,
>
    decreases toks.len() - i,
    when 0 <= i
{
    if i >= toks.len() {
        spec_cli_finish(acc)
    } else {
        let t = toks[i];
        if t == "--major"@ || t == "-M"@ {
            spec_parse_tokens(toks, i + 1, CliModel { major: true, ..acc })
        } else if t == "--minor"@ || t == "-m"@ {
            spec_parse_tokens(toks, i + 1, CliModel { minor: true, ..acc })
        } else if t == "--dry-run"@ || t == "-n"@ {
            spec_parse_tokens(toks, i + 1, CliModel { dry_run: true, ..acc })
        } else if t == "--automatic"@ || t == "-a"@ {
            spec_parse_tokens(toks, i + 1, CliModel { automatic: true, ..acc })
        } else if t == "--message"@ {
            if i + 1 < toks.len() {
                spec_parse_tokens(toks, i + 2, CliModel { message: Some(toks[i + 1]), ..acc })
            } else {
                Err(CliErrorModel::MissingMessageValue)
            }
        } else if spec_is_flag_token(t) {
            Err(CliErrorModel::UnknownFlag(t))
        } else {
            spec_parse_tokens(toks, i + 1, CliModel { directories: acc.directories.push(t), ..acc })
        }
    }
}

/// The parse of a full argument list: the leading program name is skipped.
pub open spec fn spec_parse_args(args: Seq<Seq<char>>) -> Result<CliModel, CliErrorModel> {
    spec_parse_tokens(args, 1, spec_cli_init())
}

pub open spec fn spec_cli_error_eq(a: CliErrorModel, b: CliErrorModel) -> bool {
    match (a, b) {
        (CliErrorModel::UnknownFlag(x), CliErrorModel::UnknownFlag(y)) => x == y,
        (CliErrorModel::MissingMessageValue, CliErrorModel::MissingMessageValue) => true,
        (CliErrorModel::ConflictingBumpFlags, CliErrorModel::ConflictingBumpFlags) => true,
        (CliErrorModel::ConflictingMessageFlags, CliErrorModel::ConflictingMessageFlags) => true,
        _ => false,
    }
}

pub open spec fn spec_cli_model_eq(a: CliModel, b: CliModel) -> bool {
    &&& a.major == b.major
    &&& a.minor == b.minor
    &&& a.dry_run == b.dry_run
    &&& a.message == b.message
    &&& a.automatic == b.automatic
    &&& a.directories == b.directories
}

impl Cli {
    /// Parses an argument list (the first entry being the program name):
    /// `--major`/`-M`, `--minor`/`-m` (mutually exclusive), `--dry-run`/`-n`,
    /// `--message <text>` and `--automatic`/`-a` (mutually exclusive), and
    /// positional directory paths. An unknown flag-shaped token is refused.
    pub fn try_parse_from(args: Vec<String>) -> (r: Result<Cli, CliError>)
        ensures
            match spec_parse_args(args.deep_view()) {
                Ok(m) => r matches Ok(c) && spec_cli_model_eq(c@, m),
                Err(e) => r matches Err(er) && spec_cli_error_eq(er@, e),
            },
    {
        let ghost toks = args.deep_view();
        let mut major = false;
        let mut minor = false;
        let mut dry_run = false;
        let mut message: Option<String> = None;
        let mut automatic = false;
        let mut directories: Vec<String> = Vec::new();
        let mut i: usize = 1;
        proof {
            assert(toks.len() == args@.len());
            assert(directories.deep_view() =~= Seq::<Seq<char>>::empty());
            assert(spec_cli_model_eq(
                spec_cli_init(),
                CliModel {
                    major,
                    minor,
                    dry_run,
                    message: message.deep_view(),
                    automatic,
                    directories: directories.deep_view(),
                },
            ));
        }
        while i < args.len()
            invariant
                1 <= i,
                i as int <= toks.len() || i == 1,
                toks == args.deep_view(),
                toks.len() == args@.len(),
                forall|k: int| 0 <= k < toks.len() ==> #[trigger] toks[k] == args@[k]@,
                spec_parse_args(toks) == spec_parse_tokens(
                    toks,
                    i as int,
                    CliModel {
                        major,
                        minor,
                        dry_run,
                        message: message.deep_view(),
                        automatic,
                        directories: directories.deep_view(),
                    },
                ),
            decreases toks.len() - i as int,
        {
            let arg = &args[i];
            proof {
                assert(toks[i as int] == arg@);
            }
            if str_eq(arg.as_str(), "--major") || str_eq(arg.as_str(), "-M") {
                major = true;
                i = i + 1;
            } else if str_eq(arg.as_str(), "--minor") || str_eq(arg.as_str(), "-m") {
                minor = true;
                i = i + 1;
            } else if str_eq(arg.as_str(), "--dry-run") || str_eq(arg.as_str(), "-n") {
                dry_run = true;
                i = i + 1;
            } else if str_eq(arg.as_str(), "--automatic") || str_eq(arg.as_str(), "-a") {
                automatic = true;
                i = i + 1;
            } else if str_eq(arg.as_str(), "--message") {
                if i + 1 < args.len() {
                    message = Some(args[i + 1].clone());
                    proof {
                        assert(toks[i as int + 1] == args@[i as int + 1]@);
                        assert(message.deep_view() == Some(toks[i as int + 1]));
                    }
                    i = i + 2;
                } else {
                    return Err(CliError::MissingMessageValue);
                }
            } else {
                let n = arg.as_str().unicode_len();
                if n > 1 && arg.as_str().get_char(0) == '-' {
                    proof {
                        assert(spec_is_flag_token(arg@));
                    }
                    return Err(CliError::UnknownFlag(arg.clone()));
                }
                proof {
                    assert(!spec_is_flag_token(arg@));
                }
                let ghost old_dirs = directories.deep_view();
                directories.push(arg.clone());
                proof {
                    assert(directories.deep_view() =~= old_dirs.push(arg@));
                }
                i = i + 1;
            }
        }
        if major && minor {
            return Err(CliError::ConflictingBumpFlags);
        }
        if automatic && message.is_some() {
            return Err(CliError::ConflictingMessageFlags);
        }
        Ok(Cli { major, minor, dry_run, message, automatic, directories })
    }
}

/// The first position at or after `i` that holds a non-space, or the end.
pub open spec fn space_run_end(s: Seq<char>, i: int) -> int
    decreases s.len() - i,
    when 0 <= i <= s.len()
{
    if i < s.len() && is_space(s[i]) {
        space_run_end(s, i + 1)
    } else {
        i
    }
}

/// The first position at or after `i` that holds a space, or the end.
pub open spec fn word_run_end(s: Seq<char>, i: int) -> int
    decreases s.len() - i,
    when 0 <= i <= s.len()
{
    if i < s.len() && !is_space(s[i]) {
        word_run_end(s, i + 1)
    } else {
        i
    }
}

proof fn lemma_space_run_end_bounds(s: Seq<char>, i: int)
    requires
        0 <= i <= s.len(),
    ensures
        i <= space_run_end(s, i) <= s.len(),
    decreases s.len() - i,
{
    if i < s.len() && is_space(s[i]) {
        lemma_space_run_end_bounds(s, i + 1);
    }
}

proof fn lemma_word_run_end_bounds(s: Seq<char>, i: int)
    requires
        0 <= i <= s.len(),
    ensures
        i <= word_run_end(s, i) <= s.len(),
    decreases s.len() - i,
{
    if i < s.len() && !is_space(s[i]) {
        lemma_word_run_end_bounds(s, i + 1);
    }
}

fn space_at(s: &str, j: usize) -> (r: bool)
    requires
        (j as int) < s@.len(),
    ensures
        r == is_space(s@[j as int]),
{
    let c = s.get_char(j);
    c == ' ' || c == '\t' || c == '\r' || c == '\n'
}

fn scan_spaces(s: &str, i: usize) -> (r: usize)
    requires
        i as int <= s@.len(),
    ensures
        r as int == space_run_end(s@, i as int),
{
    let n = s.unicode_len();
    let mut j = i;
    while j < n && space_at(s, j)
        invariant
            i <= j,
            j as int <= s@.len(),
            n as nat == s@.len(),
            space_run_end(s@, j as int) == space_run_end(s@, i as int),
        decreases n - j,
    {
        j = j + 1;
    }
    j
}

fn scan_word(s: &str, i: usize) -> (r: usize)
    requires
        i as int <= s@.len(),
    ensures
        r as int == word_run_end(s@, i as int),
{
    let n = s.unicode_len();
    let mut j = i;
    while j < n && !space_at(s, j)
        invariant
            i <= j,
            j as int <= s@.len(),
            n as nat == s@.len(),
            word_run_end(s@, j as int) == word_run_end(s@, i as int),
        decreases n - j,
    {
        j = j + 1;
    }
    j
}

/// The third whitespace-separated token of a string, if there is one.
pub open spec fn spec_third_token(s: Seq<char>) -> Option<Seq<char>> {
    let a0 = space_run_end(s, 0);
    let e0 = word_run_end(s, a0);
    let a1 = space_run_end(s, e0);
    let e1 = word_run_end(s, a1);
    let a2 = space_run_end(s, e1);
    let e2 = word_run_end(s, a2);
    if a2 < s.len() {
        Some(s.subrange(a2, e2))
    } else {
        None
    }
}

/// What the tool self-check reads out of a tool's version output: for the
/// tool named `git`, the third whitespace-separated token of the first line
/// (as in `git version 2.43.0`); anything else reads as unknown.
pub open spec fn spec_extract_version(tool: Seq<char>, output: Seq<char>) -> Seq<char> {
    if tool == "git"@ {
        let line = output.subrange(0, line_end(output, 0));
        match spec_third_token(line) {
            Some(t) => t,
            None => "unknown"@,
        }
    } else {
        "unknown"@
    }
}

/// Extracts the version number a tool's output reports.
pub fn extract_version_from_output(tool: &str, output: &str) -> (r: String)
    ensures
        r@ == spec_extract_version(tool@, output@),
{
    if !str_eq(tool, "git") {
        return "unknown".to_owned();
    }
    let n = output.unicode_len();
    proof {
        lemma_line_end_bounds(output@, 0);
    }
    let ghost le_spec = line_end(output@, 0);
    let mut le: usize = 0;
    while le < n && output.get_char(le) != '\n'
        invariant
            le as int <= le_spec <= n as int,
            n as nat == output@.len(),
            line_end(output@, le as int) == le_spec,
        decreases n - le,
    {
        le = le + 1;
        proof {
            lemma_line_end_bounds(output@, le as int);
        }
    }
    let line = output.substring_char(0, le);
    let m = le;
    proof {
        assert(line@ == output@.subrange(0, line_end(output@, 0)));
    }
    let a0 = scan_spaces(line, 0);
    proof {
        lemma_space_run_end_bounds(line@, 0);
    }
    let e0 = scan_word(line, a0);
    proof {
        lemma_word_run_end_bounds(line@, a0 as int);
    }
    let a1 = scan_spaces(line, e0);
    proof {
        lemma_space_run_end_bounds(line@, e0 as int);
    }
    let e1 = scan_word(line, a1);
    proof {
        lemma_word_run_end_bounds(line@, a1 as int);
    }
    let a2 = scan_spaces(line, e1);
    proof {
        lemma_space_run_end_bounds(line@, e1 as int);
    }
    let e2 = scan_word(line, a2);
    proof {
        lemma_word_run_end_bounds(line@, a2 as int);
    }
    if a2 >= m {
        return "unknown".to_owned();
    }
    let t = line.substring_char(a2, e2);
    t.to_owned()
}

/// The value of one dotted segment: its decimal value when it is all digits
/// and fits, and zero otherwise.
pub open spec fn seg_val(seg: Seq<char>) -> nat {
    if seg.len() > 0 && all_digits(seg) && dec_val(seg) <= u32::MAX as nat {
        dec_val(seg)
    } else {
        0
    }
}

/// The first position at or after `i` that holds a dot, or the end.
pub open spec fn seg_end(s: Seq<char>, i: int) -> int
    decreases s.len() - i,
    when 0 <= i <= s.len()
{
    if i < s.len() && s[i] != '.' {
        seg_end(s, i + 1)
    } else {
        i
    }
}

proof fn lemma_seg_end_bounds(s: Seq<char>, i: int)
    requires
        0 <= i <= s.len(),
    ensures
        i <= seg_end(s, i) <= s.len(),
    decreases s.len() - i,
{
    if i < s.len() && s[i] != '.' {
        lemma_seg_end_bounds(s, i + 1);
    }
}

/// The values of a string's dot-separated segments, in order. Every string
/// has at least one (possibly empty) segment.
pub open spec fn spec_split_vals(s: Seq<char>, i: int) -> Seq<nat>
    decreases s.len() - i,
    when 0 <= i <= s.len()
    via spec_split_vals_decreases
{
    let e = seg_end(s, i);
    let v = seg_val(s.subrange(i, e));
    if e < s.len() {
        seq![v] + spec_split_vals(s, e + 1)
    } else {
        seq![v]
    }
}

#[via_fn]
proof fn spec_split_vals_decreases(s: Seq<char>, i: int) {
    lemma_seg_end_bounds(s, i);
}

fn split_version_values(s: &str) -> (r: Vec<u32>)
    ensures
        r@.len() == spec_split_vals(s@, 0).len(),
        forall|k: int| 0 <= k < r@.len() ==> #[trigger] r@[k] as nat == spec_split_vals(s@, 0)[k],
{
    let n = s.unicode_len();
    let mut out: Vec<u32> = Vec::new();
    let mut i: usize = 0;
    loop
        invariant
            i as int <= n as int,
            n as nat == s@.len(),
            ({
                let full = spec_split_vals(s@, 0);
                let rest = spec_split_vals(s@, i as int);
                &&& full.len() == out@.len() + rest.len()
                &&& (forall|k: int|
                    0 <= k < out@.len() ==> #[trigger] out@[k] as nat == full[k])
                &&& (forall|k: int|
                    0 <= k < rest.len() ==> #[trigger] rest[k] == full[k + out@.len()])
            }),
        decreases n - i,
    {
        proof {
            lemma_seg_end_bounds(s@, i as int);
        }
        let ghost e_spec = seg_end(s@, i as int);
        let mut e: usize = i;
        while e < n && s.get_char(e) != '.'
            invariant
                i <= e,
                e as int <= n as int,
                n as nat == s@.len(),
                seg_end(s@, e as int) == e_spec,
            decreases n - e,
        {
            e = e + 1;
        }
        proof {
            assert(e as int == e_spec);
        }
        let ghost seg = s@.subrange(i as int, e as int);
        let mut val: u32 = 0;
        let mut ok = true;
        let mut k: usize = i;
        proof {
            assert(s@.subrange(i as int, i as int) =~= Seq::<char>::empty());
        }
        while k < e
            invariant
                i <= k <= e,
                e as int <= n as int,
                n as nat == s@.len(),
                seg == s@.subrange(i as int, e as int),
                ok ==> all_digits(s@.subrange(i as int, k as int)) && val as nat == dec_val(
                    s@.subrange(i as int, k as int),
                ),
                !ok ==> seg_val(seg) == 0,
            decreases e - k,
        {
            let c = s.get_char(k);
            let u = c as u32;
            let ghost pre = s@.subrange(i as int, k as int);
            let ghost ext = s@.subrange(i as int, k as int + 1);
            proof {
                assert(ext.drop_last() =~= pre);
                assert(ext.last() == s@[k as int]);
            }
            if !(48 <= u && u <= 57) {
                proof {
                    if ok {
                        assert(seg[k - i as int] == s@[k as int]);
                        assert(!all_digits(seg));
                    }
                }
                ok = false;
            } else if ok {
                let d = u - 48;
                if val > 429496729 || (val == 429496729 && d > 5) {
                    proof {
                        assert(dec_val(ext) > u32::MAX as nat);
                        assert(seg_val(seg) == 0) by {
                            if all_digits(seg) {
                                assert(ext =~= seg.take(k as int + 1 - i as int));
                                assert(dec_val(seg.take(k as int + 1 - i as int)) >= 1);
                                crate::version::lemma_dec_val_take_le(
                                    seg,
                                    k as int + 1 - i as int,
                                );
                            }
                        }
                    }
                    ok = false;
                } else {
                    val = val * 10 + d;
                    proof {
                        assert(digit_val(s@[k as int]) == d as nat);
                        assert(all_digits(ext));
                    }
                }
            }
            k = k + 1;
        }
        let v: u32 = if ok {
            proof {
                assert(seg =~= s@.subrange(i as int, e as int));
                if seg.len() > 0 {
                    assert(seg_val(seg) == val as nat);
                } else {
                    assert(seg_val(seg) == 0);
                    assert(dec_val(seg) == 0);
                }
            }
            val
        } else {
            0
        };
        proof {
            assert(seg_val(seg) == v as nat);
        }
        let ghost full = spec_split_vals(s@, 0);
        let ghost rest = spec_split_vals(s@, i as int);
        let ghost old_len = out@.len();
        out.push(v);
        if e < n {
            proof {
                assert(rest == seq![seg_val(seg)] + spec_split_vals(s@, e as int + 1));
                assert(rest[0] == seg_val(seg));
                assert(forall|k: int|
                    0 <= k < spec_split_vals(s@, e as int + 1).len()
                        ==> #[trigger] spec_split_vals(s@, e as int + 1)[k] == rest[k + 1]);
            }
            i = e + 1;
        } else {
            proof {
                assert(rest =~= seq![seg_val(seg)]);
                assert(rest[0] == seg_val(seg));
                assert(full.len() == out@.len());
                assert(full[old_len as int] == rest[0]);
                assert forall|k: int| 0 <= k < out@.len() implies #[trigger] out@[k] as nat
                    == full[k] by {
                    if k < old_len {
                        assert(out@[k] == out@.subrange(0, old_len as int)[k]);
                    } else {
                        assert(out@[k] == v);
                    }
                }
            }
            return out;
        }
    }
}

/// Ordered comparison of two sequences of segment values: the first point of
/// difference decides; a common prefix defers to the lengths.
pub open spec fn spec_vals_ge(a: Seq<nat>, b: Seq<nat>) -> bool
    decreases a.len(),
{
    if a.len() == 0 || b.len() == 0 {
        a.len() >= b.len()
    } else if a.first() > b.first() {
        true
    } else if a.first() < b.first() {
        false
    } else {
        spec_vals_ge(a.drop_first(), b.drop_first())
    }
}

/// Whether `version` meets `min_version`, comparing dot-separated numeric
/// segments in order (a segment that is not a plain number counts as zero).
pub open spec fn spec_version_compare(version: Seq<char>, min_version: Seq<char>) -> bool {
    spec_vals_ge(spec_split_vals(version, 0), spec_split_vals(min_version, 0))
}

/// Compares two dotted version strings: true when `version` is at least
/// `min_version`.
pub fn version_compare(version: &str, min_version: &str) -> (r: bool)
    ensures
        r == spec_version_compare(version@, min_version@),
{
    let va = split_version_values(version);
    let vb = split_version_values(min_version);
    let ghost a = spec_split_vals(version@, 0);
    let ghost b = spec_split_vals(min_version@, 0);
    let mut k: usize = 0;
    proof {
        assert(a.skip(0) =~= a);
        assert(b.skip(0) =~= b);
    }
    while k < va.len() && k < vb.len()
        invariant
            a == spec_split_vals(version@, 0),
            b == spec_split_vals(min_version@, 0),
            k <= va@.len(),
            k <= vb@.len(),
            va@.len() == a.len(),
            vb@.len() == b.len(),
            forall|j: int| 0 <= j < a.len() ==> #[trigger] va@[j] as nat == a[j],
            forall|j: int| 0 <= j < b.len() ==> #[trigger] vb@[j] as nat == b[j],
            spec_vals_ge(a, b) == spec_vals_ge(a.skip(k as int), b.skip(k as int)),
        decreases va@.len() - k,
    {
        proof {
            assert(a.skip(k as int).first() == a[k as int]);
            assert(b.skip(k as int).first() == b[k as int]);
            assert(a.skip(k as int).drop_first() =~= a.skip(k as int + 1));
            assert(b.skip(k as int).drop_first() =~= b.skip(k as int + 1));
        }
        if va[k] > vb[k] {
            return true;
        }
        if va[k] < vb[k] {
            return false;
        }
        k = k + 1;
    }
    proof {
        assert(a.skip(k as int).len() == a.len() - k);
        assert(b.skip(k as int).len() == b.len() - k);
        assert(spec_vals_ge(a.skip(k as int), b.skip(k as int)) == (a.len() >= b.len()));
    }
    va.len() >= vb.len()
}

} // verus!
