//! Release versions: a validated (major, minor, patch) triple with strict
//! parsing rules, bump arithmetic, and the two textual forms (manifest form
//! `major.minor.patch` and tag form `vmajor.minor.patch`).

use vstd::prelude::*;

verus! {

/// A release version. Only plain triples are representable: pre-release and
/// build-metadata components are rejected at parse time.
#[derive(Clone, Copy, Debug, PartialEq, Eq, Structural)]
pub struct SemanticVersion {
    pub major: u32,
    pub minor: u32,
    pub patch: u32,
}

/// Which component of a version a bump raises.
#[derive(Clone, Copy, Debug, PartialEq, Eq, Structural)]
pub enum BumpType {
    Major,
    Minor,
    Patch,
}

impl Default for BumpType {
    /// When neither a major nor a minor bump is requested, a patch bump applies.
    fn default() -> (r: Self)
        ensures
            r == BumpType::Patch,
    {
        BumpType::Patch
    }
}

impl BumpType {
    /// Selects the granularity from the two mutually exclusive command-line
    /// flags; a major request takes precedence, and neither means patch.
    pub fn from_cli(major: bool, minor: bool) -> (r: Self)
        ensures
            r == spec_bump_from_flags(major, minor),
    {
        match (major, minor) {
            (true, _) => BumpType::Major,
            (_, true) => BumpType::Minor,
            _ => BumpType::Patch,
        }
    }
}

pub open spec fn spec_bump_from_flags(major: bool, minor: bool) -> BumpType {
    if major {
        BumpType::Major
    } else if minor {
        BumpType::Minor
    } else {
        BumpType::Patch
    }
}

/// Strict ordering of versions: lexicographic on (major, minor, patch).
pub open spec fn spec_version_lt(a: SemanticVersion, b: SemanticVersion) -> bool {
    ||| a.major < b.major
    ||| (a.major == b.major && a.minor < b.minor)
    ||| (a.major == b.major && a.minor == b.minor && a.patch < b.patch)
}

pub open spec fn is_digit(c: char) -> bool {
    48 <= c as u32 && c as u32 <= 57
}

pub open spec fn digit_val(c: char) -> nat {
    (c as u32 - 48) as nat
}

pub open spec fn digit_char(d: nat) -> char {
    if d == 0 {
        '0'
    } else if d == 1 {
        '1'
    } else if d == 2 {
        '2'
    } else if d == 3 {
        '3'
    } else if d == 4 {
        '4'
    } else if d == 5 {
        '5'
    } else if d == 6 {
        '6'
    } else if d == 7 {
        '7'
    } else if d == 8 {
        '8'
    } else {
        '9'
    }
}

/// The canonical decimal digits of `n`, most significant first.
pub open spec fn dec_digits(n: nat) -> Seq<char>
    decreases n,
{
    if n < 10 {
        seq![digit_char(n)]
    } else {
        dec_digits(n / 10).push(digit_char(n % 10))
    }
}

/// The numeric value of a sequence of decimal digit characters.
pub open spec fn dec_val(s: Seq<char>) -> nat
    decreases s.len(),
{
    if s.len() == 0 {
        0
    } else {
        dec_val(s.drop_last()) * 10 + digit_val(s.last())
    }
}

pub open spec fn all_digits(s: Seq<char>) -> bool {
    forall|i: int| 0 <= i < s.len() ==> is_digit(#[trigger] s[i])
}

/// A canonical decimal numeral: nonempty, digits only, no leading zero.
pub open spec fn is_canonical_dec(s: Seq<char>) -> bool {
    &&& s.len() > 0
    &&& all_digits(s)
    &&& (s.len() > 1 ==> s[0] != '0')
}

proof fn lemma_digit_char_val(d: nat)
    requires
        d < 10,
    ensures
        is_digit(digit_char(d)),
        digit_val(digit_char(d)) == d,
{
}

proof fn lemma_digit_roundtrip(c: char)
    requires
        is_digit(c),
    ensures
        digit_char(digit_val(c)) == c,
{
    assert(c as u32 >= 48 && c as u32 <= 57);
    let d = digit_val(c);
    assert(digit_char(d) as u32 == c as u32);
    assert(digit_char(d) == c);
}

/// The canonical digits of any number form a canonical numeral whose value
/// is the number itself.
pub proof fn lemma_dec_digits_form(n: nat)
    ensures
        is_canonical_dec(dec_digits(n)),
        dec_val(dec_digits(n)) == n,
        n < 10 ==> dec_digits(n).len() == 1,
        n >= 10 ==> dec_digits(n).len() >= 2,
        dec_digits(n)[0] == '0' ==> n == 0,
    decreases n,
{
    if n < 10 {
        lemma_digit_char_val(n);
        let s = dec_digits(n);
        assert(s =~= seq![digit_char(n)]);
        assert(s.drop_last() =~= Seq::<char>::empty());
        assert(dec_val(Seq::<char>::empty()) == 0);
        assert(s.last() == digit_char(n));
        assert(dec_val(s) == dec_val(s.drop_last()) * 10 + digit_val(s.last()));
    } else {
        lemma_dec_digits_form(n / 10);
        lemma_digit_char_val(n % 10);
        let p = dec_digits(n / 10);
        let s = dec_digits(n);
        assert(s == p.push(digit_char(n % 10)));
        assert(s.drop_last() =~= p);
        assert(s.last() == digit_char(n % 10));
        assert(dec_val(s) == dec_val(p) * 10 + (n % 10));
        assert(n / 10 * 10 + n % 10 == n) by {
            vstd::arithmetic::div_mod::lemma_fundamental_div_mod(n as int, 10);
        }
        assert(s[0] == p[0]);
        assert(forall|i: int| 0 <= i < s.len() ==> is_digit(#[trigger] s[i])) by {
            assert(forall|i: int| 0 <= i < p.len() ==> is_digit(#[trigger] p[i]));
        }
    }
}

/// A canonical numeral with a nonzero leading digit denotes a positive number.
proof fn lemma_dec_val_positive(s: Seq<char>)
    requires
        s.len() > 0,
        all_digits(s),
        s[0] != '0',
    ensures
        dec_val(s) >= 1,
    decreases s.len(),
{
    if s.len() == 1 {
        assert(s.drop_last() =~= Seq::<char>::empty());
        assert(dec_val(Seq::<char>::empty()) == 0);
        assert(dec_val(s) == dec_val(s.drop_last()) * 10 + digit_val(s.last()));
        assert(dec_val(s) == digit_val(s[0]));
        assert(s[0] as u32 != 48) by {
            lemma_digit_roundtrip(s[0]);
        }
    } else {
        let p = s.drop_last();
        assert(p[0] == s[0]);
        assert(forall|i: int| 0 <= i < p.len() ==> is_digit(#[trigger] p[i]));
        lemma_dec_val_positive(p);
    }
}

/// Canonical numerals are unique: re-rendering the value of a canonical
/// numeral gives back the same digits.
pub proof fn lemma_canonical_dec_unique(s: Seq<char>)
    requires
        is_canonical_dec(s),
    ensures
        dec_digits(dec_val(s)) == s,
    decreases s.len(),
{
    if s.len() == 1 {
        assert(s.drop_last() =~= Seq::<char>::empty());
        assert(dec_val(Seq::<char>::empty()) == 0);
        assert(dec_val(s) == dec_val(s.drop_last()) * 10 + digit_val(s.last()));
        assert(dec_val(s) == digit_val(s.last()));
        lemma_digit_roundtrip(s[0]);
        assert(dec_digits(dec_val(s)) =~= seq![digit_char(digit_val(s[0]))]);
        assert(dec_digits(dec_val(s)) =~= s);
    } else {
        let p = s.drop_last();
        assert(p[0] == s[0]);
        assert(forall|i: int| 0 <= i < p.len() ==> is_digit(#[trigger] p[i]));
        lemma_canonical_dec_unique(p);
        lemma_dec_val_positive(p);
        let q = dec_val(p);
        let d = digit_val(s.last());
        let n = dec_val(s);
        assert(n == q * 10 + d);
        assert(d < 10) by {
            assert(is_digit(s.last()));
        }
        assert(n / 10 == q && n % 10 == d) by {
            vstd::arithmetic::div_mod::lemma_fundamental_div_mod_converse(
                n as int,
                10,
                q as int,
                d as int,
            );
        }
        assert(n >= 10);
        assert(dec_digits(n) == dec_digits(q).push(digit_char(d)));
        lemma_digit_roundtrip(s.last());
        assert(dec_digits(n) =~= p.push(s.last()));
        assert(p.push(s.last()) =~= s);
    }
}

/// The manifest form of a version: `major.minor.patch`, no prefix.
pub open spec fn spec_version_str(v: SemanticVersion) -> Seq<char> {
    dec_digits(v.major as nat) + seq!['.'] + dec_digits(v.minor as nat) + seq!['.'] + dec_digits(
        v.patch as nat,
    )
}

/// The tag form of a version: the manifest form with a leading `v`.
pub open spec fn spec_tag_str(v: SemanticVersion) -> Seq<char> {
    seq!['v'] + spec_version_str(v)
}

/// A leading `v`, if any, removed.
pub open spec fn spec_strip_v(s: Seq<char>) -> Seq<char> {
    if s.len() > 0 && s[0] == 'v' {
        s.subrange(1, s.len() as int)
    } else {
        s
    }
}

/// The version denoted by a string in manifest form, if it is one. Versions
/// have exactly one manifest form each, so the denotation is single-valued.
pub open spec fn spec_parse_version(s: Seq<char>) -> Option<SemanticVersion> {
    if exists|v: SemanticVersion| s == spec_version_str(v) {
        Some(choose|v: SemanticVersion| s == spec_version_str(v))
    } else {
        None
    }
}

/// Splits an equation between two `numeral + '.' + rest` strings into an
/// equation between the numerals' values and one between the rests.
proof fn lemma_dec_dot_split(x: nat, y: nat, s1: Seq<char>, s2: Seq<char>)
    requires
        dec_digits(x) + seq!['.'] + s1 == dec_digits(y) + seq!['.'] + s2,
    ensures
        x == y,
        s1 == s2,
{
    let dx = dec_digits(x);
    let dy = dec_digits(y);
    let l = dx + seq!['.'] + s1;
    let r = dy + seq!['.'] + s2;
    lemma_dec_digits_form(x);
    lemma_dec_digits_form(y);
    assert(!is_digit('.'));
    if dx.len() < dy.len() {
        assert(l[dx.len() as int] == '.');
        assert(r[dx.len() as int] == dy[dx.len() as int]);
        assert(is_digit(dy[dx.len() as int]));
        assert(false);
    } else if dy.len() < dx.len() {
        assert(r[dy.len() as int] == '.');
        assert(l[dy.len() as int] == dx[dy.len() as int]);
        assert(is_digit(dx[dy.len() as int]));
        assert(false);
    } else {
        assert(dx =~= dy) by {
            assert(forall|i: int| 0 <= i < dx.len() ==> #[trigger] dx[i] == l[i] && dy[i] == r[i]);
        }
        assert(x == y) by {
            assert(dec_val(dx) == dec_val(dy));
        }
        assert(s1.len() == s2.len()) by {
            assert(l.len() == r.len());
        }
        assert forall|i: int| 0 <= i < s1.len() implies #[trigger] s1[i] == s2[i] by {
            assert(l[i + dx.len() + 1] == s1[i]);
            assert(r[i + dy.len() + 1] == s2[i]);
        }
        assert(s1 =~= s2);
    }
}

/// Distinct versions have distinct manifest forms.
pub proof fn lemma_version_str_injective(a: SemanticVersion, b: SemanticVersion)
    requires
        spec_version_str(a) == spec_version_str(b),
    ensures
        a == b,
{
    let ta = dec_digits(a.minor as nat) + seq!['.'] + dec_digits(a.patch as nat);
    let tb = dec_digits(b.minor as nat) + seq!['.'] + dec_digits(b.patch as nat);
    assert(dec_digits(a.major as nat) + seq!['.'] + ta =~= spec_version_str(a));
    assert(dec_digits(b.major as nat) + seq!['.'] + tb =~= spec_version_str(b));
    lemma_dec_dot_split(a.major as nat, b.major as nat, ta, tb);
    lemma_dec_dot_split(
        a.minor as nat,
        b.minor as nat,
        dec_digits(a.patch as nat),
        dec_digits(b.patch as nat),
    );
    assert(dec_val(dec_digits(a.patch as nat)) == dec_val(dec_digits(b.patch as nat)));
    lemma_dec_digits_form(a.patch as nat);
    lemma_dec_digits_form(b.patch as nat);
}

/// The first position at or after `i` that does not hold a digit.
pub open spec fn digit_run_end(s: Seq<char>, i: int) -> int
    decreases s.len() - i,
    when 0 <= i <= s.len()
{
    if i < s.len() && is_digit(s[i]) {
        digit_run_end(s, i + 1)
    } else {
        i
    }
}

proof fn lemma_digit_run_end_bounds(s: Seq<char>, i: int)
    requires
        0 <= i <= s.len(),
    ensures
        i <= digit_run_end(s, i) <= s.len(),
        all_digits(s.subrange(i, digit_run_end(s, i))),
        digit_run_end(s, i) == s.len() || !is_digit(s[digit_run_end(s, i)]),
    decreases s.len() - i,
{
    let e = digit_run_end(s, i);
    if i < s.len() && is_digit(s[i]) {
        lemma_digit_run_end_bounds(s, i + 1);
        let inner = s.subrange(i + 1, e);
        assert forall|k: int| 0 <= k < e - i implies is_digit(#[trigger] s.subrange(i, e)[k]) by {
            if k == 0 {
                assert(s.subrange(i, e)[0] == s[i]);
            } else {
                assert(s.subrange(i, e)[k] == inner[k - 1]);
            }
        }
    } else {
        assert(s.subrange(i, e) =~= Seq::<char>::empty());
    }
}

/// A digit run ends exactly where the digits stop.
proof fn lemma_digit_run_end_exact(s: Seq<char>, i: int, j: int)
    requires
        0 <= i <= j <= s.len(),
        all_digits(s.subrange(i, j)),
        j == s.len() || !is_digit(s[j]),
    ensures
        digit_run_end(s, i) == j,
    decreases j - i,
{
    if i < j {
        assert(is_digit(s[i])) by {
            assert(s.subrange(i, j)[0] == s[i]);
        }
        assert(s.subrange(i + 1, j) =~= s.subrange(i, j).subrange(1, j - i));
        assert(all_digits(s.subrange(i + 1, j))) by {
            assert(forall|k: int|
                0 <= k < j - i - 1 ==> #[trigger] s.subrange(i + 1, j)[k] == s.subrange(i, j)[k
                    + 1]);
        }
        lemma_digit_run_end_exact(s, i + 1, j);
    } else {
        assert(j == s.len() || !is_digit(s[j]));
    }
}

/// Extending a digit string to the right cannot shrink its value, once the
/// value is positive.
pub proof fn lemma_dec_val_take_le(t: Seq<char>, k: int)
    requires
        all_digits(t),
        0 <= k <= t.len(),
        dec_val(t.take(k)) >= 1,
    ensures
        dec_val(t.take(k)) <= dec_val(t),
    decreases t.len() - k,
{
    if k == t.len() {
        assert(t.take(k) =~= t);
    } else {
        let a = t.take(k);
        let b = t.take(k + 1);
        assert(b.drop_last() =~= a);
        assert(b.last() == t[k]);
        assert(dec_val(b) == dec_val(a) * 10 + digit_val(t[k]));
        lemma_dec_val_take_le(t, k + 1);
    }
}

/// How a version string in manifest form decomposes into its three numerals
/// and the two separating dots.
proof fn lemma_version_str_parts(v: SemanticVersion, t: Seq<char>)
    requires
        t == spec_version_str(v),
    ensures
        ({
            let a = dec_digits(v.major as nat);
            let b = dec_digits(v.minor as nat);
            let c = dec_digits(v.patch as nat);
            let la = a.len() as int;
            let lb = b.len() as int;
            let lc = c.len() as int;
            &&& t.len() == la + lb + lc + 2
            &&& t.subrange(0, la) == a
            &&& t[la] == '.'
            &&& t.subrange(la + 1, la + 1 + lb) == b
            &&& t[la + 1 + lb] == '.'
            &&& t.subrange(la + lb + 2, t.len() as int) == c
        }),
{
    let a = dec_digits(v.major as nat);
    let b = dec_digits(v.minor as nat);
    let c = dec_digits(v.patch as nat);
    let la = a.len() as int;
    let lb = b.len() as int;
    assert(t.subrange(0, la) =~= a);
    assert(t.subrange(la + 1, la + 1 + lb) =~= b);
    assert(t.subrange(la + lb + 2, t.len() as int) =~= c);
}

/// Every character of a version string in manifest form is a digit or a dot.
proof fn lemma_version_str_chars(v: SemanticVersion)
    ensures
        forall|k: int|
            0 <= k < spec_version_str(v).len() ==> is_digit(#[trigger] spec_version_str(v)[k])
                || spec_version_str(v)[k] == '.',
{
    let t = spec_version_str(v);
    let a = dec_digits(v.major as nat);
    let b = dec_digits(v.minor as nat);
    let c = dec_digits(v.patch as nat);
    lemma_version_str_parts(v, t);
    lemma_dec_digits_form(v.major as nat);
    lemma_dec_digits_form(v.minor as nat);
    lemma_dec_digits_form(v.patch as nat);
    let la = a.len() as int;
    let lb = b.len() as int;
    assert forall|k: int| 0 <= k < t.len() implies is_digit(#[trigger] t[k]) || t[k] == '.' by {
        if k < la {
            assert(t[k] == t.subrange(0, la)[k]);
        } else if k == la {
        } else if k < la + 1 + lb {
            assert(t[k] == t.subrange(la + 1, la + 1 + lb)[k - la - 1]);
        } else if k == la + 1 + lb {
        } else {
            assert(t[k] == t.subrange(la + lb + 2, t.len() as int)[k - la - lb - 2]);
        }
    }
}

fn exec_is_digit(c: char) -> (r: bool)
    ensures
        r == is_digit(c),
{
    let u = c as u32;
    48 <= u && u <= 57
}

/// Scans the canonical decimal numeral starting at `start`, if there is one
/// whose value fits in `u32`. On success, the returned position is the end of
/// the digit run, and the returned value is the numeral's value.
fn scan_number(s: &str, start: usize) -> (r: Option<(u32, usize)>)
    requires
        start as int <= s@.len(),
    ensures
        r is Some <==> {
            let e = digit_run_end(s@, start as int);
            &&& e > start as int
            &&& is_canonical_dec(s@.subrange(start as int, e))
            &&& dec_val(s@.subrange(start as int, e)) <= u32::MAX as nat
        },
        r matches Some((val, end)) ==> {
            let e = digit_run_end(s@, start as int);
            &&& end as int == e
            &&& val as nat == dec_val(s@.subrange(start as int, e))
        },
{
    let n = s.unicode_len();
    proof {
        lemma_digit_run_end_bounds(s@, start as int);
    }
    let ghost e = digit_run_end(s@, start as int);
    if start == n {
        return None;
    }
    let c0 = s.get_char(start);
    if !exec_is_digit(c0) {
        assert(e == start as int);
        return None;
    }
    if c0 == '0' {
        if start + 1 < n && exec_is_digit(s.get_char(start as usize + 1)) {
            // a longer run with a leading zero is not canonical
            proof {
                assert(digit_run_end(s@, start as int) == digit_run_end(s@, start as int + 2 - 1));
                assert(e >= start + 2) by {
                    assert(digit_run_end(s@, start as int + 1) == digit_run_end(
                        s@,
                        start as int + 2,
                    ));
                    lemma_digit_run_end_bounds(s@, start as int + 2);
                }
                assert(s@.subrange(start as int, e)[0] == '0');
                assert(!is_canonical_dec(s@.subrange(start as int, e)));
            }
            return None;
        }
        proof {
            assert(digit_run_end(s@, start as int + 1) == start as int + 1);
            assert(e == start + 1);
            let run = s@.subrange(start as int, e);
            assert(run =~= seq!['0']);
            assert(run.drop_last() =~= Seq::<char>::empty());
            assert(dec_val(run) == dec_val(run.drop_last()) * 10 + digit_val(run.last()));
            assert(is_canonical_dec(run));
        }
        return Some((0, start + 1));
    }
    let mut i = start;
    let mut val: u32 = 0;
    proof {
        assert(s@.subrange(start as int, start as int) =~= Seq::<char>::empty());
    }
    loop
        invariant
            start as int <= i as int <= e <= s@.len(),
            n as nat == s@.len(),
            digit_run_end(s@, start as int) == e,
            digit_run_end(s@, i as int) == e,
            all_digits(s@.subrange(start as int, i as int)),
            val as nat == dec_val(s@.subrange(start as int, i as int)),
            i > start ==> val >= 1,
            s@[start as int] == c0,
            is_digit(c0) && c0 != '0',
            e > start as int,
            is_canonical_dec(s@.subrange(start as int, e)),
        decreases s@.len() - i as int,
    {
        if i == n {
            assert(i as int == e);
            return Some((val, i));
        }
        let c = s.get_char(i);
        if !exec_is_digit(c) {
            assert(i as int == e);
            return Some((val, i));
        }
        let d = c as u32 - 48;
        let ghost pre = s@.subrange(start as int, i as int);
        let ghost ext = s@.subrange(start as int, i as int + 1);
        proof {
            assert(ext.drop_last() =~= pre);
            assert(ext.last() == s@[i as int]);
            assert(dec_val(ext) == dec_val(pre) * 10 + digit_val(s@[i as int]));
            assert(forall|k: int| 0 <= k < ext.len() ==> is_digit(#[trigger] ext[k]));
        }
        if val > 429496729 || (val == 429496729 && d > 5) {
            // the run's value exceeds u32; the full run is at least as large
            proof {
                let run = s@.subrange(start as int, e);
                assert(dec_val(ext) > u32::MAX as nat);
                lemma_digit_run_end_bounds(s@, i as int + 1);
                assert(ext =~= run.take(i + 1 - start as int)) by {
                    assert(forall|k: int|
                        0 <= k < i + 1 - start as int ==> #[trigger] run.take(
                            i + 1 - start as int,
                        )[k] == s@[start as int + k]);
                }
                assert(all_digits(run)) by {
                    lemma_digit_run_end_bounds(s@, start as int);
                }
                lemma_dec_val_take_le(run, i + 1 - start as int);
                assert(dec_val(run) > u32::MAX as nat);
            }
            return None;
        }
        val = val * 10 + d;
        i = i + 1;
        proof {
            assert(digit_val(s@[i as int - 1]) == d as nat);
            lemma_digit_run_end_bounds(s@, i as int);
        }
    }
}

/// Where the scanner stops and what it finds, on a string that is a version
/// in manifest form.
proof fn lemma_scan_facts(v: SemanticVersion, t: Seq<char>)
    requires
        t == spec_version_str(v),
    ensures
        ({
            let a = dec_digits(v.major as nat);
            let b = dec_digits(v.minor as nat);
            let c = dec_digits(v.patch as nat);
            let la = a.len() as int;
            let lb = b.len() as int;
            let lc = c.len() as int;
            &&& t.len() == la + lb + lc + 2
            &&& digit_run_end(t, 0) == la
            &&& is_canonical_dec(t.subrange(0, la))
            &&& dec_val(t.subrange(0, la)) == v.major as nat
            &&& t[la] == '.'
            &&& digit_run_end(t, la + 1) == la + 1 + lb
            &&& is_canonical_dec(t.subrange(la + 1, la + 1 + lb))
            &&& dec_val(t.subrange(la + 1, la + 1 + lb)) == v.minor as nat
            &&& t[la + 1 + lb] == '.'
            &&& digit_run_end(t, la + lb + 2) == t.len()
            &&& is_canonical_dec(t.subrange(la + lb + 2, t.len() as int))
            &&& dec_val(t.subrange(la + lb + 2, t.len() as int)) == v.patch as nat
        }),
{
    let a = dec_digits(v.major as nat);
    let b = dec_digits(v.minor as nat);
    let c = dec_digits(v.patch as nat);
    lemma_version_str_parts(v, t);
    lemma_dec_digits_form(v.major as nat);
    lemma_dec_digits_form(v.minor as nat);
    lemma_dec_digits_form(v.patch as nat);
    assert(!is_digit('.'));
    let la = a.len() as int;
    let lb = b.len() as int;
    lemma_digit_run_end_exact(t, 0, la);
    lemma_digit_run_end_exact(t, la + 1, la + 1 + lb);
    lemma_digit_run_end_exact(t, la + lb + 2, t.len() as int);
}

/// Parses a string that must be exactly `major.minor.patch`.
fn parse_triple(t: &str) -> (r: Option<SemanticVersion>)
    ensures
        r matches Some(v) ==> t@ == spec_version_str(v),
        r is None ==> forall|v: SemanticVersion| t@ != spec_version_str(v),
{
    let n = t.unicode_len();
    let r1 = scan_number(t, 0);
    proof {
        lemma_digit_run_end_bounds(t@, 0);
    }
    let (ma, e1) = match r1 {
        Some(p) => p,
        None => {
            proof {
                assert forall|v: SemanticVersion| t@ != spec_version_str(v) by {
                    if t@ == spec_version_str(v) {
                        lemma_scan_facts(v, t@);
                        lemma_dec_digits_form(v.major as nat);
                        assert(false);
                    }
                }
            }
            return None;
        },
    };
    if e1 == n || t.get_char(e1) != '.' {
        proof {
            assert forall|v: SemanticVersion| t@ != spec_version_str(v) by {
                if t@ == spec_version_str(v) {
                    lemma_scan_facts(v, t@);
                    assert(false);
                }
            }
        }
        return None;
    }
    let r2 = scan_number(t, e1 + 1);
    proof {
        lemma_digit_run_end_bounds(t@, e1 as int + 1);
    }
    let (mi, e2) = match r2 {
        Some(p) => p,
        None => {
            proof {
                assert forall|v: SemanticVersion| t@ != spec_version_str(v) by {
                    if t@ == spec_version_str(v) {
                        lemma_scan_facts(v, t@);
                        assert(false);
                    }
                }
            }
            return None;
        },
    };
    if e2 == n || t.get_char(e2) != '.' {
        proof {
            assert forall|v: SemanticVersion| t@ != spec_version_str(v) by {
                if t@ == spec_version_str(v) {
                    lemma_scan_facts(v, t@);
                    assert(false);
                }
            }
        }
        return None;
    }
    let r3 = scan_number(t, e2 + 1);
    proof {
        lemma_digit_run_end_bounds(t@, e2 as int + 1);
    }
    let (pa, e3) = match r3 {
        Some(p) => p,
        None => {
            proof {
                assert forall|v: SemanticVersion| t@ != spec_version_str(v) by {
                    if t@ == spec_version_str(v) {
                        lemma_scan_facts(v, t@);
                        assert(false);
                    }
                }
            }
            return None;
        },
    };
    if e3 != n {
        proof {
            assert forall|v: SemanticVersion| t@ != spec_version_str(v) by {
                if t@ == spec_version_str(v) {
                    lemma_scan_facts(v, t@);
                    assert(false);
                }
            }
        }
        return None;
    }
    let found = SemanticVersion { major: ma, minor: mi, patch: pa };
    proof {
        let run1 = t@.subrange(0, e1 as int);
        let run2 = t@.subrange(e1 as int + 1, e2 as int);
        let run3 = t@.subrange(e2 as int + 1, n as int);
        lemma_canonical_dec_unique(run1);
        lemma_canonical_dec_unique(run2);
        lemma_canonical_dec_unique(run3);
        assert(dec_digits(ma as nat) == run1);
        assert(dec_digits(mi as nat) == run2);
        assert(dec_digits(pa as nat) == run3);
        assert(t@ =~= run1 + seq!['.'] + run2 + seq!['.'] + run3);
    }
    Some(found)
}

/// An input that is not a plain `major.minor.patch` version (an optional
/// leading `v` aside): malformed text, an out-of-range component, or a
/// pre-release or build-metadata suffix.
#[derive(Clone, Copy, Debug, PartialEq, Eq, Structural)]
pub enum VersionError {
    Invalid,
}

/// Parses a version string. An optional leading `v` is stripped; the rest
/// must be exactly `major.minor.patch` with each component a canonical
/// decimal that fits in `u32`. Anything else — including any pre-release or
/// build-metadata suffix — is rejected.
pub fn parse_version(version_str: &str) -> (r: Result<SemanticVersion, VersionError>)
    ensures
        r matches Ok(v) ==> spec_strip_v(version_str@) == spec_version_str(v),
        r matches Ok(v) ==> spec_parse_version(spec_strip_v(version_str@)) == Some(v),
        r is Err <==> spec_parse_version(spec_strip_v(version_str@)) is None,
{
    let n = version_str.unicode_len();
    let off: usize = if n > 0 && version_str.get_char(0) == 'v' {
        1
    } else {
        0
    };
    let t = version_str.substring_char(off, n);
    proof {
        assert(t@ == spec_strip_v(version_str@)) by {
            if n > 0 && version_str@[0] == 'v' {
                assert(t@ =~= spec_strip_v(version_str@));
            } else {
                assert(version_str@.subrange(0, n as int) =~= version_str@);
            }
        }
    }
    match parse_triple(t) {
        Some(v) => {
            proof {
                assert(spec_parse_version(t@) == Some(v)) by {
                    assert(t@ == spec_version_str(v));
                    let w = choose|w: SemanticVersion| t@ == spec_version_str(w);
                    lemma_version_str_injective(w, v);
                }
            }
            Ok(v)
        },
        None => {
            proof {
                assert(spec_parse_version(t@) is None);
            }
            Err(VersionError::Invalid)
        },
    }
}

/// Whether a bump of the given granularity stays within the integer domain.
pub open spec fn spec_can_bump(v: SemanticVersion, b: BumpType) -> bool {
    match b {
        BumpType::Major => v.major < u32::MAX,
        BumpType::Minor => v.minor < u32::MAX,
        BumpType::Patch => v.patch < u32::MAX,
    }
}

/// The bumped version: major raises major and zeroes the rest, minor raises
/// minor and zeroes patch, patch raises patch alone.
pub open spec fn spec_bump(v: SemanticVersion, b: BumpType) -> SemanticVersion {
    match b {
        BumpType::Major => SemanticVersion { major: (v.major + 1) as u32, minor: 0, patch: 0 },
        BumpType::Minor => SemanticVersion {
            major: v.major,
            minor: (v.minor + 1) as u32,
            patch: 0,
        },
        BumpType::Patch => SemanticVersion {
            major: v.major,
            minor: v.minor,
            patch: (v.patch + 1) as u32,
        },
    }
}

/// Whether a bump of the given granularity stays within the integer domain.
pub fn can_bump(version: &SemanticVersion, bump_type: BumpType) -> (r: bool)
    ensures
        r == spec_can_bump(*version, bump_type),
{
    match bump_type {
        BumpType::Major => version.major < u32::MAX,
        BumpType::Minor => version.minor < u32::MAX,
        BumpType::Patch => version.patch < u32::MAX,
    }
}

/// Bumps a version according to the granularity.
pub fn bump_version(version: &SemanticVersion, bump_type: BumpType) -> (r: SemanticVersion)
    requires
        spec_can_bump(*version, bump_type),
    ensures
        r == spec_bump(*version, bump_type),
        spec_version_lt(*version, r),
{
    match bump_type {
        BumpType::Major => SemanticVersion { major: version.major + 1, minor: 0, patch: 0 },
        BumpType::Minor => SemanticVersion {
            major: version.major,
            minor: version.minor + 1,
            patch: 0,
        },
        BumpType::Patch => SemanticVersion {
            major: version.major,
            minor: version.minor,
            patch: version.patch + 1,
        },
    }
}

/// Law: a bump yields a strictly greater version under the triple ordering,
/// and changes exactly the components its granularity owns.
pub proof fn lemma_bump_strictly_increases(v: SemanticVersion, b: BumpType)
    requires
        spec_can_bump(v, b),
    ensures
        spec_version_lt(v, spec_bump(v, b)),
        b is Major ==> spec_bump(v, b) == (SemanticVersion {
            major: (v.major + 1) as u32,
            minor: 0,
            patch: 0,
        }),
        b is Minor ==> spec_bump(v, b) == (SemanticVersion {
            major: v.major,
            minor: (v.minor + 1) as u32,
            patch: 0,
        }),
        b is Patch ==> spec_bump(v, b) == (SemanticVersion {
            major: v.major,
            minor: v.minor,
            patch: (v.patch + 1) as u32,
        }),
{
}

fn digit_str(d: u32) -> (r: &'static str)
    requires
        d < 10,
    ensures
        r@ == seq![digit_char(d as nat)],
{
    proof {
        reveal_strlit("0");
        reveal_strlit("1");
        reveal_strlit("2");
        reveal_strlit("3");
        reveal_strlit("4");
        reveal_strlit("5");
        reveal_strlit("6");
        reveal_strlit("7");
        reveal_strlit("8");
        reveal_strlit("9");
    }
    let r = if d == 0 {
        "0"
    } else if d == 1 {
        "1"
    } else if d == 2 {
        "2"
    } else if d == 3 {
        "3"
    } else if d == 4 {
        "4"
    } else if d == 5 {
        "5"
    } else if d == 6 {
        "6"
    } else if d == 7 {
        "7"
    } else if d == 8 {
        "8"
    } else {
        "9"
    };
    proof {
        assert(r@ =~= seq![digit_char(d as nat)]);
    }
    r
}

/// The digits still to be appended, for a stack of digits collected least
/// significant first: the most recently collected digit comes first.
spec fn pending_chars(ds: Seq<u32>) -> Seq<char>
    decreases ds.len(),
{
    if ds.len() == 0 {
        Seq::<char>::empty()
    } else {
        pending_chars(ds.drop_first()) + seq![digit_char(ds.first() as nat)]
    }
}

proof fn lemma_pending_chars_push(ds: Seq<u32>, d: u32)
    ensures
        pending_chars(ds.push(d)) == seq![digit_char(d as nat)] + pending_chars(ds),
    decreases ds.len(),
{
    if ds.len() == 0 {
        assert(ds.push(d).drop_first() =~= Seq::<u32>::empty());
        assert(ds.push(d).first() == d);
        assert(pending_chars(Seq::<u32>::empty()) =~= Seq::<char>::empty());
        assert(ds =~= Seq::<u32>::empty());
        assert(pending_chars(ds.push(d)) =~= seq![digit_char(d as nat)] + pending_chars(ds));
    } else {
        assert(ds.push(d).drop_first() =~= ds.drop_first().push(d));
        lemma_pending_chars_push(ds.drop_first(), d);
        assert(pending_chars(ds.push(d)) == pending_chars(ds.drop_first().push(d)) + seq![
            digit_char(ds.first() as nat),
        ]);
        assert((seq![digit_char(d as nat)] + pending_chars(ds.drop_first())) + seq![
            digit_char(ds.first() as nat),
        ] =~= seq![digit_char(d as nat)] + pending_chars(ds));
    }
}

/// Renders a number as its canonical decimal numeral.
pub fn format_u32(n: u32) -> (s: String)
    ensures
        s@ == dec_digits(n as nat),
{
    let mut digits: Vec<u32> = Vec::new();
    let mut cur = n;
    while cur >= 10
        invariant
            dec_digits(n as nat) =~= dec_digits(cur as nat) + pending_chars(digits@),
            forall|k: int| 0 <= k < digits@.len() ==> #[trigger] digits@[k] < 10,
        decreases cur,
    {
        let d = cur % 10;
        proof {
            lemma_pending_chars_push(digits@, d);
            assert(dec_digits(cur as nat) == dec_digits(cur as nat / 10).push(
                digit_char(cur as nat % 10),
            ));
            assert(dec_digits(cur as nat / 10).push(digit_char(cur as nat % 10)) =~= dec_digits(
                cur as nat / 10,
            ) + seq![digit_char(cur as nat % 10)]);
            assert((dec_digits(cur as nat / 10) + seq![digit_char(cur as nat % 10)])
                + pending_chars(digits@) =~= dec_digits(cur as nat / 10) + (seq![
                digit_char(cur as nat % 10),
            ] + pending_chars(digits@)));
        }
        digits.push(d);
        cur = cur / 10;
    }
    let mut s = String::new();
    s.append(digit_str(cur));
    proof {
        assert(s@ =~= dec_digits(cur as nat));
    }
    loop
        invariant
            dec_digits(n as nat) =~= s@ + pending_chars(digits@),
            forall|k: int| 0 <= k < digits@.len() ==> #[trigger] digits@[k] < 10,
        decreases digits@.len(),
    {
        let ghost old_ds = digits@;
        match digits.pop() {
            Some(d) => {
                proof {
                    assert(old_ds =~= digits@.push(d));
                    lemma_pending_chars_push(digits@, d);
                    assert(pending_chars(old_ds) == seq![digit_char(d as nat)] + pending_chars(
                        digits@,
                    ));
                }
                s.append(digit_str(d));
                proof {
                    assert(dec_digits(n as nat) =~= s@ + pending_chars(digits@));
                }
            },
            None => {
                proof {
                    assert(pending_chars(digits@) =~= Seq::<char>::empty());
                    assert(dec_digits(n as nat) =~= s@);
                }
                return s;
            },
        }
    }
}

/// Renders a version in manifest form: `major.minor.patch`, no prefix.
pub fn format_cargo_version(version: &SemanticVersion) -> (s: String)
    ensures
        s@ == spec_version_str(*version),
{
    proof {
        reveal_strlit(".");
    }
    let mut s = format_u32(version.major);
    s.append(".");
    let minor = format_u32(version.minor);
    s.append(minor.as_str());
    s.append(".");
    let patch = format_u32(version.patch);
    s.append(patch.as_str());
    proof {
        assert("."@ =~= seq!['.']);
        assert(s@ =~= spec_version_str(*version));
    }
    s
}

/// Renders a version in tag form: the manifest form with a leading `v`.
pub fn format_tag(version: &SemanticVersion) -> (s: String)
    ensures
        s@ == spec_tag_str(*version),
{
    proof {
        reveal_strlit("v");
    }
    let mut s = String::new();
    s.append("v");
    let body = format_cargo_version(version);
    s.append(body.as_str());
    proof {
        assert(s@ =~= spec_tag_str(*version));
    }
    s
}

/// Law: a version's tag form, stripped of its leading marker and parsed
/// back, denotes the same version, so formatting the parse result as a tag
/// reproduces the original tag text.
pub proof fn lemma_tag_round_trip(v: SemanticVersion)
    ensures
        spec_strip_v(spec_tag_str(v)) == spec_version_str(v),
        spec_parse_version(spec_strip_v(spec_tag_str(v))) == Some(v),
{
    let t = spec_tag_str(v);
    assert(t[0] == 'v');
    assert(t.len() > 0);
    assert(spec_strip_v(t) =~= spec_version_str(v));
    assert(spec_parse_version(spec_version_str(v)) == Some(v)) by {
        assert(spec_version_str(v) == spec_version_str(v));
        let w = choose|w: SemanticVersion| spec_version_str(v) == spec_version_str(w);
        lemma_version_str_injective(w, v);
    }
}

/// Law: parsing rejects any string that contains a pre-release or
/// build-metadata marker (`-` or `+`), wherever it occurs.
pub proof fn lemma_parse_rejects_suffixes(s: Seq<char>)
    requires
        exists|i: int| 0 <= i < s.len() && (s[i] == '-' || s[i] == '+'),
    ensures
        spec_parse_version(spec_strip_v(s)) is None,
{
    let i = choose|i: int| 0 <= i < s.len() && (s[i] == '-' || s[i] == '+');
    let t = spec_strip_v(s);
    let j: int = if s.len() > 0 && s[0] == 'v' {
        i - 1
    } else {
        i
    };
    assert(0 <= j < t.len() && (t[j] == '-' || t[j] == '+'));
    if spec_parse_version(t) is Some {
        let v = choose|v: SemanticVersion| t == spec_version_str(v);
        lemma_version_str_chars(v);
        assert(is_digit(t[j]) || t[j] == '.');
        assert(false);
    }
}

} // verus!
