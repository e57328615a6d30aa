//! Kernel version values: parsing a kernel package name into an ordered
//! version, rendering it back, and the total order used to sort kernels.
//!
//! The accepted grammar, applied from the start of the name:
//! `major` (digits) `.` `minor` (digits), then optionally `.` `patch`
//! (digits), then optionally `-rcN`, then optionally `-N` where the digits
//! run up to the next `-`; everything left over (including its leading
//! separator) is kept verbatim as the local version suffix. A numeric token
//! is the maximal run of ASCII digits at its position and only counts if its
//! value fits in a `u64`.

use vstd::prelude::*;
use vstd::string::*;

verus! {

/// ASCII decimal digit.
pub open spec fn is_digit(c: char) -> bool {
    48 <= (c as u32) && (c as u32) <= 57
}

/// Numeric value of an ASCII digit.
pub open spec fn digit_val(c: char) -> nat {
    ((c as u32) - 48) as nat
}

/// The ASCII digit with value `d` (for `d < 10`).
pub open spec fn digit_char(d: nat) -> char {
    if d == 0 {
        '0'
    } else if d == 1 {
        '1'
    } else if d == 2 {
        '2'
    } else if d == 3 {
        '3'
    } else if d == 4 {
        '4'
    } else if d == 5 {
        '5'
    } else if d == 6 {
        '6'
    } else if d == 7 {
        '7'
    } else if d == 8 {
        '8'
    } else {
        '9'
    }
}

/// First index at or after `from` holding a non-digit (or the length):
/// the end of the maximal digit run starting at `from`.
pub open spec fn digit_run_end(s: Seq<char>, from: int) -> int
    decreases s.len() - from,
{
    if from < 0 || from >= s.len() {
        s.len() as int
    } else if !is_digit(s[from]) {
        from
    } else {
        digit_run_end(s, from + 1)
    }
}

/// Value of the decimal digits `s[from..to]`.
pub open spec fn digits_val(s: Seq<char>, from: int, to: int) -> nat
    decreases to - from,
{
    if to <= from {
        0
    } else {
        digits_val(s, from, to - 1) * 10 + digit_val(s[to - 1])
    }
}

/// First index at or after `from` holding `'-'` (or the length).
pub open spec fn find_dash(s: Seq<char>, from: int) -> int
    decreases s.len() - from,
{
    if from < 0 || from >= s.len() {
        s.len() as int
    } else if s[from] == '-' {
        from
    } else {
        find_dash(s, from + 1)
    }
}

pub proof fn lemma_run_end_bounds(s: Seq<char>, from: int)
    requires
        0 <= from <= s.len(),
    ensures
        from <= digit_run_end(s, from) <= s.len(),
        forall|k: int| from <= k < digit_run_end(s, from) ==> is_digit(s[k]),
        digit_run_end(s, from) < s.len() ==> !is_digit(s[digit_run_end(s, from)]),
    decreases s.len() - from,
{
    if from < s.len() && is_digit(s[from]) {
        lemma_run_end_bounds(s, from + 1);
    }
}

/// A window of digits bounded by a non-digit (or the end) is exactly the
/// maximal digit run.
pub proof fn lemma_run_end_window(s: Seq<char>, from: int, j: int)
    requires
        0 <= from <= j <= s.len(),
        forall|k: int| from <= k < j ==> is_digit(s[k]),
        j == s.len() || !is_digit(s[j]),
    ensures
        digit_run_end(s, from) == j,
    decreases j - from,
{
    if from < j {
        lemma_run_end_window(s, from + 1, j);
    }
}

pub proof fn lemma_find_dash_bounds(s: Seq<char>, from: int)
    requires
        0 <= from <= s.len(),
    ensures
        from <= find_dash(s, from) <= s.len(),
        forall|k: int| from <= k < find_dash(s, from) ==> s[k] != '-',
        find_dash(s, from) < s.len() ==> s[find_dash(s, from)] == '-',
    decreases s.len() - from,
{
    if from < s.len() && s[from] != '-' {
        lemma_find_dash_bounds(s, from + 1);
    }
}

/// A window free of dashes bounded by a dash (or the end) locates the first
/// dash exactly.
pub proof fn lemma_find_dash_window(s: Seq<char>, from: int, j: int)
    requires
        0 <= from <= j <= s.len(),
        forall|k: int| from <= k < j ==> s[k] != '-',
        j == s.len() || s[j] == '-',
    ensures
        find_dash(s, from) == j,
    decreases j - from,
{
    if from < j {
        lemma_find_dash_window(s, from + 1, j);
    }
}

/// Appending digits never decreases the value of the run.
pub proof fn lemma_digits_val_mono(s: Seq<char>, from: int, t1: int, t2: int)
    requires
        from <= t1 <= t2,
    ensures
        digits_val(s, from, t1) <= digits_val(s, from, t2),
    decreases t2 - t1,
{
    if t1 < t2 {
        lemma_digits_val_mono(s, from, t1, t2 - 1);
        assert(digits_val(s, from, t2 - 1) * 10 >= digits_val(s, from, t2 - 1)) by (nonlinear_arith);
    }
}

pub proof fn lemma_run_end_shift(s: Seq<char>, i: int, from: int)
    requires
        0 <= i <= from <= s.len(),
    ensures
        digit_run_end(s.skip(i), from - i) == digit_run_end(s, from) - i,
    decreases s.len() - from,
{
    if from < s.len() && is_digit(s[from]) {
        lemma_run_end_shift(s, i, from + 1);
    }
}

pub proof fn lemma_find_dash_shift(s: Seq<char>, i: int, from: int)
    requires
        0 <= i <= from <= s.len(),
    ensures
        find_dash(s.skip(i), from - i) == find_dash(s, from) - i,
    decreases s.len() - from,
{
    if from < s.len() && s[from] != '-' {
        lemma_find_dash_shift(s, i, from + 1);
    }
}

pub proof fn lemma_digits_val_shift(s: Seq<char>, i: int, from: int, to: int)
    requires
        0 <= i <= from,
        i <= to <= s.len(),
    ensures
        digits_val(s.skip(i), from - i, to - i) == digits_val(s, from, to),
    decreases to - from,
{
    if from < to {
        lemma_digits_val_shift(s, i, from, to - 1);
    }
}

/// The maximal digit run at the head of `s`, as a numeric token: its value
/// and the rest of the input. `None` if the run is empty or the value does
/// not fit in a `u64`.
pub open spec fn take_num(s: Seq<char>) -> Option<(u64, Seq<char>)> {
    let end = digit_run_end(s, 0);
    if end == 0 {
        None
    } else if digits_val(s, 0, end) > u64::MAX as nat {
        None
    } else {
        Some(((digits_val(s, 0, end) as u64), s.skip(end)))
    }
}

/// A `.`-prefixed numeric token.
pub open spec fn take_dot_num(s: Seq<char>) -> Option<(u64, Seq<char>)> {
    if s.len() > 0 && s[0] == '.' {
        take_num(s.skip(1))
    } else {
        None
    }
}

/// A `-rc`-prefixed numeric token.
pub open spec fn take_rc(s: Seq<char>) -> Option<(u64, Seq<char>)> {
    if s.len() >= 3 && s[0] == '-' && s[1] == 'r' && s[2] == 'c' {
        take_num(s.skip(3))
    } else {
        None
    }
}

/// A release counter: `-` followed by the characters up to the next `-`,
/// which must be a non-empty all-digit run whose value fits in a `u64`.
/// The trailing `-` is not consumed.
pub open spec fn take_rel(s: Seq<char>) -> Option<(u64, Seq<char>)> {
    if s.len() > 0 && s[0] == '-' {
        let q = find_dash(s, 1);
        if 1 < q < s.len() && digit_run_end(s, 1) == q && digits_val(s, 1, q) <= u64::MAX as nat {
            Some(((digits_val(s, 1, q) as u64), s.skip(q)))
        } else {
            None
        }
    } else {
        None
    }
}

/// Mathematical image of a parsed version.
pub struct VersionView {
    pub major: u64,
    pub minor: u64,
    pub patch: u64,
    pub rc: Option<u64>,
    pub rel: Option<u64>,
    pub localversion: Seq<char>,
}

/// The whole grammar: `major` `.` `minor`, optional `.` `patch` (default 0),
/// optional `-rcN`, optional `-N-`-style release counter, and the verbatim
/// remainder as the local version suffix.
pub open spec fn spec_parse(s: Seq<char>) -> Option<VersionView> {
    match take_num(s) {
        None => None,
        Some((major, r1)) => {
            if r1.len() > 0 && r1[0] == '.' {
                match take_num(r1.skip(1)) {
                    None => None,
                    Some((minor, r2)) => {
                        let (patch, r3) = match take_dot_num(r2) {
                            Some((p, r)) => (p, r),
                            None => (0u64, r2),
                        };
                        let (rc, r4) = match take_rc(r3) {
                            Some((n, r)) => (Some(n), r),
                            None => (None::<u64>, r3),
                        };
                        let (rel, r5) = match take_rel(r4) {
                            Some((n, r)) => (Some(n), r),
                            None => (None::<u64>, r4),
                        };
                        Some(VersionView { major, minor, patch, rc, rel, localversion: r5 })
                    },
                }
            } else {
                None
            }
        },
    }
}

/// A kernel version parsed from a package or directory name.
///
/// Ordering is lexicographic over `(major, minor, patch, rc, rel)`, where a
/// version without a release-candidate tag ranks above one with a tag (a
/// final release is newer than its candidates) and a missing release
/// counter ranks below a present one. The local version suffix takes no
/// part in the order but does in equality: two builds may share the same
/// numeric version yet differ by distribution tag.
#[derive(Debug, Clone)]
pub struct Version {
    pub major: u64,
    pub minor: u64,
    pub patch: u64,
    pub rc: Option<u64>,
    pub rel: Option<u64>,
    pub localversion: String,
}

impl View for Version {
    type V = VersionView;

    open spec fn view(&self) -> VersionView {
        VersionView {
            major: self.major,
            minor: self.minor,
            patch: self.patch,
            rc: self.rc,
            rel: self.rel,
            localversion: self.localversion@,
        }
    }
}

impl PartialEq for Version {
    /// Equality over every field, the local version suffix included.
    fn eq(&self, other: &Self) -> (r: bool) {
        self.major == other.major && self.minor == other.minor && self.patch == other.patch
            && opt_u64_eq(&self.rc, &other.rc) && opt_u64_eq(&self.rel, &other.rel)
            && self.localversion == other.localversion
    }
}

impl Eq for Version {

}

impl vstd::std_specs::cmp::PartialEqSpecImpl for Version {
    open spec fn obeys_eq_spec() -> bool {
        true
    }

    open spec fn eq_spec(&self, other: &Self) -> bool {
        self@ == other@
    }
}

/// Equality of two optional numbers.
pub fn opt_u64_eq(a: &Option<u64>, b: &Option<u64>) -> (r: bool)
    ensures
        r == (a == b),
{
    match (a, b) {
        (Some(x), Some(y)) => x == y,
        (None, None) => true,
        _ => false,
    }
}

/// Executable test for an ASCII decimal digit.
pub fn is_digit_x(c: char) -> (r: bool)
    ensures
        r == is_digit(c),
{
    let u = c as u32;
    48 <= u && u <= 57
}

/// Scans the maximal digit run of `s` starting at `from` and returns its
/// value with the index one past the run; `None` on an empty run or on a
/// value that does not fit in a `u64`.
fn parse_num(s: &str, from: usize) -> (r: Option<(u64, usize)>)
    requires
        from <= s@.len(),
    ensures
        match r {
            Some((v, end)) => {
                &&& from < end <= s@.len()
                &&& take_num(s@.skip(from as int)) == Some((v, s@.skip(end as int)))
                &&& digit_run_end(s@, from as int) == end
                &&& digits_val(s@, from as int, end as int) == v
            },
            None => {
                &&& take_num(s@.skip(from as int)) is None
                &&& (digit_run_end(s@, from as int) == from || digits_val(
                    s@,
                    from as int,
                    digit_run_end(s@, from as int),
                ) > u64::MAX as nat)
            },
        },
{
    proof {
        lemma_run_end_bounds(s@, from as int);
        lemma_run_end_shift(s@, from as int, from as int);
    }
    let ghost end = digit_run_end(s@, from as int);
    let len = s.unicode_len();
    let mut i = from;
    let mut acc: u64 = 0;
    let mut overflow = false;
    loop
        invariant_except_break
            !overflow,
            acc == digits_val(s@, from as int, i as int),
        invariant
            from <= i <= end <= s@.len(),
            len == s@.len(),
            end == digit_run_end(s@, from as int),
            forall|k: int| from <= k < end ==> is_digit(s@[k]),
            end < s@.len() ==> !is_digit(s@[end as int]),
        ensures
            from <= i <= end <= s@.len(),
            overflow || i == end,
            !overflow ==> acc == digits_val(s@, from as int, i as int),
            overflow ==> digits_val(s@, from as int, end) > u64::MAX as nat,
        decreases s@.len() - i,
    {
        if i == len || !is_digit_x(s.get_char(i)) {
            proof {
                lemma_run_end_window(s@, from as int, i as int);
            }
            break ;
        }
        let d = (s.get_char(i) as u32 - 48) as u64;
        proof {
            assert(digits_val(s@, from as int, i + 1) == acc * 10 + digit_val(s@[i as int]));
            assert(digit_val(s@[i as int]) == d);
        }
        // The full run's value can only exceed what already overflowed
        // here, so on overflow the token is refused.
        match acc.checked_mul(10) {
            Some(m) => match m.checked_add(d) {
                Some(v) => {
                    acc = v;
                    i = i + 1;
                },
                None => {
                    proof {
                        assert(digits_val(s@, from as int, i + 1) > u64::MAX as nat);
                        lemma_digits_val_mono(s@, from as int, i + 1, end);
                    }
                    overflow = true;
                    break ;
                },
            },
            None => {
                proof {
                    assert(digits_val(s@, from as int, i + 1) > u64::MAX as nat);
                    lemma_digits_val_mono(s@, from as int, i + 1, end);
                }
                overflow = true;
                break ;
            },
        }
    }
    proof {
        lemma_digits_val_shift(s@, from as int, from as int, end);
    }
    if overflow || i == from {
        return None;
    }
    proof {
        assert(s@.skip(from as int).skip(i - from) =~= s@.skip(i as int));
    }
    Some((acc, i))
}

/// Scans for the first `'-'` at or after `from`.
fn scan_dash(s: &str, from: usize) -> (q: usize)
    requires
        from <= s@.len(),
    ensures
        q == find_dash(s@, from as int),
        from <= q <= s@.len(),
{
    let len = s.unicode_len();
    let mut q = from;
    loop
        invariant
            from <= q <= s@.len(),
            len == s@.len(),
            forall|k: int| from <= k < q ==> s@[k] != '-',
        ensures
            from <= q <= s@.len(),
            forall|k: int| from <= k < q ==> s@[k] != '-',
            q == s@.len() || s@[q as int] == '-',
        decreases s@.len() - q,
    {
        if q == len || s.get_char(q) == '-' {
            break ;
        }
        q = q + 1;
    }
    proof {
        lemma_find_dash_window(s@, from as int, q as int);
    }
    q
}

impl Version {
    /// Parses a kernel package or directory name.
    ///
    /// Returns `Ok` exactly on the names the grammar accepts (see the
    /// module documentation); every other name is an invalid version.
    #[verifier::rlimit(100)]
    pub fn parse(input: &str) -> (r: Result<Version, crate::error::Error>)
        ensures
            r is Ok <==> spec_parse(input@) is Some,
            r matches Ok(v) ==> spec_parse(input@) == Some(v@),
            r matches Err(e) ==> e is InvalidVersion,
    {
        let len = input.unicode_len();
        proof {
            assert(input@.skip(0) =~= input@);
        }
        // major
        let (major, p1) = match parse_num(input, 0) {
            Some(t) => t,
            None => {
                return Err(crate::error::Error::InvalidVersion);
            },
        };
        let ghost r1 = input@.skip(p1 as int);
        // mandatory "." minor
        if p1 == len || input.get_char(p1) != '.' {
            return Err(crate::error::Error::InvalidVersion);
        }
        proof {
            assert(r1.len() > 0 && r1[0] == '.');
            assert(input@.skip(p1 as int).skip(1) =~= input@.skip(p1 + 1));
        }
        let (minor, p2) = match parse_num(input, p1 + 1) {
            Some(t) => t,
            None => {
                return Err(crate::error::Error::InvalidVersion);
            },
        };
        let ghost r2 = input@.skip(p2 as int);
        // optional "." patch
        let (patch, p3): (u64, usize) = if p2 < len && input.get_char(p2) == '.' {
            proof {
                assert(input@.skip(p2 as int).skip(1) =~= input@.skip(p2 + 1));
            }
            match parse_num(input, p2 + 1) {
                Some((v, e)) => (v, e),
                None => (0, p2),
            }
        } else {
            (0, p2)
        };
        let ghost r3 = input@.skip(p3 as int);
        proof {
            assert(match take_dot_num(r2) {
                Some((p, r)) => p == patch && r == r3,
                None => patch == 0 && r3 == r2,
            });
        }
        // optional "-rc" candidate tag
        let has_rc_tag = len - p3 >= 3 && input.get_char(p3) == '-' && input.get_char(p3 + 1)
            == 'r' && input.get_char(p3 + 2) == 'c';
        let (rc, p4): (Option<u64>, usize) = if has_rc_tag {
            proof {
                assert(input@.skip(p3 as int).skip(3) =~= input@.skip(p3 + 3));
            }
            match parse_num(input, p3 + 3) {
                Some((v, e)) => (Some(v), e),
                None => (None, p3),
            }
        } else {
            (None, p3)
        };
        let ghost r4 = input@.skip(p4 as int);
        proof {
            assert(match take_rc(r3) {
                Some((n, r)) => rc == Some(n) && r == r4,
                None => rc is None && r4 == r3,
            });
        }
        // optional "-N" release counter, delimited by the next "-"
        let (rel, p5): (Option<u64>, usize) = if p4 < len && input.get_char(p4) == '-' {
            let q = scan_dash(input, p4 + 1);
            proof {
                lemma_find_dash_shift(input@, p4 as int, p4 + 1);
                lemma_run_end_shift(input@, p4 as int, p4 + 1);
                lemma_digits_val_shift(input@, p4 as int, p4 + 1, q as int);
            }
            if q < len {
                match parse_num(input, p4 + 1) {
                    Some((v, e)) => {
                        if e == q {
                            proof {
                                assert(input@.skip(p4 as int).skip(q - p4) =~= input@.skip(
                                    q as int,
                                ));
                            }
                            (Some(v), q)
                        } else {
                            (None, p4)
                        }
                    },
                    None => (None, p4),
                }
            } else {
                (None, p4)
            }
        } else {
            (None, p4)
        };
        let ghost r5 = input@.skip(p5 as int);
        proof {
            assert(match take_rel(r4) {
                Some((n, r)) => rel == Some(n) && r == r5,
                None => rel is None && r5 == r4,
            });
        }
        let localversion = String::from_str(input.substring_char(p5, len));
        proof {
            assert(localversion@ =~= r5);
        }
        let v = Version { major, minor, patch, rc, rel, localversion };
        proof {
            assert(spec_parse(input@) == Some(v@));
        }
        Ok(v)
    }
}

/// Decimal rendering of a number, most significant digit first.
pub open spec fn dec_str(n: nat) -> Seq<char>
    decreases n,
{
    if n < 10 {
        seq![digit_char(n)]
    } else {
        dec_str(n / 10).push(digit_char(n % 10))
    }
}

pub proof fn lemma_digit_char_val(d: nat)
    requires
        d < 10,
    ensures
        is_digit(digit_char(d)),
        digit_val(digit_char(d)) == d,
{
}

/// Appending a character does not change the value of a window that stops
/// short of it.
pub proof fn lemma_digits_val_push(d: Seq<char>, c: char, to: int)
    requires
        0 <= to <= d.len(),
    ensures
        digits_val(d.push(c), 0, to) == digits_val(d, 0, to),
    decreases to,
{
    if to > 0 {
        assert(d.push(c)[to - 1] == d[to - 1]);
        lemma_digits_val_push(d, c, to - 1);
    }
}

/// What follows a window does not change its value.
pub proof fn lemma_digits_val_prefix(d: Seq<char>, rest: Seq<char>, to: int)
    requires
        0 <= to <= d.len(),
    ensures
        digits_val(d + rest, 0, to) == digits_val(d, 0, to),
    decreases to,
{
    if to > 0 {
        assert((d + rest)[to - 1] == d[to - 1]);
        lemma_digits_val_prefix(d, rest, to - 1);
    }
}

/// A decimal rendering is a non-empty digit run that evaluates back to the
/// number it renders.
pub proof fn lemma_dec_str_digits(n: nat)
    ensures
        dec_str(n).len() >= 1,
        forall|k: int| 0 <= k < dec_str(n).len() ==> is_digit(#[trigger] dec_str(n)[k]),
        digits_val(dec_str(n), 0, dec_str(n).len() as int) == n,
    decreases n,
{
    if n < 10 {
        lemma_digit_char_val(n);
        assert(digits_val(seq![digit_char(n)], 0, 0) == 0);
        assert(digits_val(seq![digit_char(n)], 0, 1) == digit_val(digit_char(n)));
    } else {
        lemma_dec_str_digits(n / 10);
        lemma_digit_char_val(n % 10);
        let d = dec_str(n / 10);
        let l = d.len() as int;
        assert forall|k: int| 0 <= k < dec_str(n).len() implies is_digit(#[trigger] dec_str(n)[k]) by {
            if k < l {
                assert(dec_str(n)[k] == d[k]);
            }
        }
        lemma_digits_val_push(d, digit_char(n % 10), l);
        assert(digits_val(dec_str(n), 0, l + 1) == digits_val(dec_str(n), 0, l) * 10 + digit_val(
            dec_str(n)[l],
        ));
        vstd::arithmetic::div_mod::lemma_fundamental_div_mod(n as int, 10);
    }
}

/// Appends one decimal digit.
fn push_digit(s: &mut String, d: u64)
    requires
        d < 10,
    ensures
        final(s)@ == old(s)@.push(digit_char(d as nat)),
{
    match d {
        0 => {
            proof {
                reveal_strlit("0");
            }
            s.append("0");
        },
        1 => {
            proof {
                reveal_strlit("1");
            }
            s.append("1");
        },
        2 => {
            proof {
                reveal_strlit("2");
            }
            s.append("2");
        },
        3 => {
            proof {
                reveal_strlit("3");
            }
            s.append("3");
        },
        4 => {
            proof {
                reveal_strlit("4");
            }
            s.append("4");
        },
        5 => {
            proof {
                reveal_strlit("5");
            }
            s.append("5");
        },
        6 => {
            proof {
                reveal_strlit("6");
            }
            s.append("6");
        },
        7 => {
            proof {
                reveal_strlit("7");
            }
            s.append("7");
        },
        8 => {
            proof {
                reveal_strlit("8");
            }
            s.append("8");
        },
        _ => {
            proof {
                reveal_strlit("9");
            }
            s.append("9");
        },
    }
    proof {
        assert(s@ =~= old(s)@.push(digit_char(d as nat)));
    }
}

/// Appends the decimal rendering of `n`.
fn push_dec(s: &mut String, n: u64)
    ensures
        final(s)@ == old(s)@ + dec_str(n as nat),
    decreases n,
{
    if n < 10 {
        push_digit(s, n);
        proof {
            assert(s@ =~= old(s)@ + dec_str(n as nat));
        }
    } else {
        push_dec(s, n / 10);
        push_digit(s, n % 10);
        proof {
            assert(s@ =~= old(s)@ + dec_str(n as nat));
        }
    }
}

/// Rendering of the candidate tag.
pub open spec fn rc_part(rc: Option<u64>) -> Seq<char> {
    match rc {
        None => Seq::<char>::empty(),
        Some(n) => seq!['-', 'r', 'c'] + dec_str(n as nat),
    }
}

/// Rendering of the release counter.
pub open spec fn rel_part(rel: Option<u64>) -> Seq<char> {
    match rel {
        None => Seq::<char>::empty(),
        Some(n) => seq!['-'] + dec_str(n as nat),
    }
}

/// The canonical rendering: `major.minor.patch`, `-rcN` when a candidate
/// tag is present, `-N` when a release counter is, then the local version
/// suffix verbatim.
pub open spec fn spec_render(v: VersionView) -> Seq<char> {
    dec_str(v.major as nat) + seq!['.'] + dec_str(v.minor as nat) + seq!['.'] + dec_str(
        v.patch as nat,
    ) + rc_part(v.rc) + rel_part(v.rel) + v.localversion
}

impl Version {
    /// Renders the version canonically (a name with no explicit patch
    /// number renders with patch `0`).
    pub fn render(&self) -> (r: String)
        ensures
            r@ == spec_render(self@),
    {
        let mut s = String::new();
        push_dec(&mut s, self.major);
        proof {
            reveal_strlit(".");
        }
        s.append(".");
        push_dec(&mut s, self.minor);
        s.append(".");
        push_dec(&mut s, self.patch);
        match self.rc {
            Some(n) => {
                proof {
                    reveal_strlit("-rc");
                }
                s.append("-rc");
                push_dec(&mut s, n);
            },
            None => {},
        }
        match self.rel {
            Some(n) => {
                proof {
                    reveal_strlit("-");
                }
                s.append("-");
                push_dec(&mut s, n);
            },
            None => {},
        }
        s.append(self.localversion.as_str());
        proof {
            assert(s@ =~= spec_render(self@));
        }
        s
    }
}

/// Order rank of the candidate tag: an untagged (final) version ranks above
/// any tagged candidate of the same numeric version.
pub open spec fn rc_key(rc: Option<u64>) -> (int, int) {
    match rc {
        Some(n) => (0, n as int),
        None => (1, 0),
    }
}

/// Order rank of the release counter: a missing counter ranks below any
/// present one.
pub open spec fn rel_key(rel: Option<u64>) -> (int, int) {
    match rel {
        None => (0, 0),
        Some(n) => (1, n as int),
    }
}

/// Strict order: lexicographic over `(major, minor, patch, rc, rel)` with
/// the ranks above. The local version suffix takes no part.
pub open spec fn spec_lt(a: VersionView, b: VersionView) -> bool {
    if a.major != b.major {
        a.major < b.major
    } else if a.minor != b.minor {
        a.minor < b.minor
    } else if a.patch != b.patch {
        a.patch < b.patch
    } else if rc_key(a.rc).0 != rc_key(b.rc).0 {
        rc_key(a.rc).0 < rc_key(b.rc).0
    } else if rc_key(a.rc).1 != rc_key(b.rc).1 {
        rc_key(a.rc).1 < rc_key(b.rc).1
    } else if rel_key(a.rel).0 != rel_key(b.rel).0 {
        rel_key(a.rel).0 < rel_key(b.rel).0
    } else {
        rel_key(a.rel).1 < rel_key(b.rel).1
    }
}

/// The two versions hold the same place in the order (their numeric parts
/// agree; the local version suffixes may differ).
pub open spec fn order_eq(a: VersionView, b: VersionView) -> bool {
    a.major == b.major && a.minor == b.minor && a.patch == b.patch && rc_key(a.rc) == rc_key(b.rc)
        && rel_key(a.rel) == rel_key(b.rel)
}

/// Non-strict order.
pub open spec fn spec_le(a: VersionView, b: VersionView) -> bool {
    spec_lt(a, b) || order_eq(a, b)
}

/// The order is total: irreflexive, transitive, and any two versions are
/// comparable.
pub proof fn lemma_order_total(a: VersionView, b: VersionView, c: VersionView)
    ensures
        !spec_lt(a, a),
        spec_lt(a, b) && spec_lt(b, c) ==> spec_lt(a, c),
        spec_le(a, b) && spec_le(b, c) ==> spec_le(a, c),
        spec_lt(a, b) || spec_lt(b, a) || order_eq(a, b),
        spec_lt(a, b) ==> !spec_le(b, a),
        spec_le(a, b) && spec_le(b, a) ==> order_eq(a, b),
{
}

impl Version {
    /// Strict comparison under the version order.
    pub fn lt(&self, other: &Version) -> (r: bool)
        ensures
            r == spec_lt(self@, other@),
    {
        if self.major != other.major {
            return self.major < other.major;
        }
        if self.minor != other.minor {
            return self.minor < other.minor;
        }
        if self.patch != other.patch {
            return self.patch < other.patch;
        }
        let (a0, a1) = match self.rc {
            Some(n) => (0u64, n),
            None => (1u64, 0u64),
        };
        let (b0, b1) = match other.rc {
            Some(n) => (0u64, n),
            None => (1u64, 0u64),
        };
        if a0 != b0 {
            return a0 < b0;
        }
        if a1 != b1 {
            return a1 < b1;
        }
        let (c0, c1) = match self.rel {
            None => (0u64, 0u64),
            Some(n) => (1u64, n),
        };
        let (d0, d1) = match other.rel {
            None => (0u64, 0u64),
            Some(n) => (1u64, n),
        };
        if c0 != d0 {
            return c0 < d0;
        }
        c1 < d1
    }
}

/// Any two parsed names with one numerically larger `(major, minor, patch)`
/// triple order strictly by that triple, whatever their tags and suffixes.
pub proof fn lemma_parse_orders_numeric(a: Seq<char>, b: Seq<char>)
    requires
        spec_parse(a) is Some,
        spec_parse(b) is Some,
        ({
            let va = spec_parse(a)->Some_0;
            let vb = spec_parse(b)->Some_0;
            vb.major < va.major || (vb.major == va.major && (vb.minor < va.minor || (vb.minor
                == va.minor && vb.patch < va.patch)))
        }),
    ensures
        spec_lt(spec_parse(b)->Some_0, spec_parse(a)->Some_0),
{
}

/// After a numeric token the input never goes on with a digit: the token
/// takes the maximal run.
pub proof fn lemma_take_num_rest(s: Seq<char>)
    requires
        take_num(s) is Some,
    ensures
        ({
            let r = take_num(s)->Some_0.1;
            r.len() > 0 ==> !is_digit(r[0])
        }),
{
    lemma_run_end_bounds(s, 0);
}

/// The shape that every successfully parsed version has: the local version
/// suffix can neither extend the numeric run before it nor hold a token
/// that parsing would have consumed.
pub open spec fn wf_parsed(v: VersionView) -> bool {
    &&& v.localversion.len() > 0 ==> !is_digit(v.localversion[0])
    &&& (v.rc is None && v.rel is None ==> take_rc(v.localversion) is None)
    &&& (v.rel is None ==> take_rel(v.localversion) is None)
    &&& (v.rel is Some ==> v.localversion.len() > 0 && v.localversion[0] == '-')
}

/// Every parse result is well-formed in the sense of [`wf_parsed`].
pub proof fn lemma_parse_wf(s: Seq<char>)
    requires
        spec_parse(s) is Some,
    ensures
        wf_parsed(spec_parse(s)->Some_0),
{
    let v = spec_parse(s)->Some_0;
    let m1 = take_num(s)->Some_0;
    let r1 = m1.1;
    lemma_take_num_rest(s);
    let m2 = take_num(r1.skip(1))->Some_0;
    let r2 = m2.1;
    lemma_take_num_rest(r1.skip(1));
    let r3 = match take_dot_num(r2) {
        Some((p, r)) => r,
        None => r2,
    };
    if take_dot_num(r2) is Some {
        lemma_take_num_rest(r2.skip(1));
    }
    let r4 = match take_rc(r3) {
        Some((n, r)) => r,
        None => r3,
    };
    if take_rc(r3) is Some {
        lemma_take_num_rest(r3.skip(3));
    }
    match take_rel(r4) {
        Some((n, r)) => {
            let q = find_dash(r4, 1);
            lemma_find_dash_bounds(r4, 1);
            assert(v.localversion[0] == r4[q]);
        },
        None => {
            assert(v.localversion == r4);
        },
    }
}

/// Peeling a rendered number off the head of a concatenation.
pub proof fn lemma_take_num_concat(d: Seq<char>, rest: Seq<char>, n: u64)
    requires
        d == dec_str(n as nat),
        rest.len() == 0 || !is_digit(rest[0]),
    ensures
        take_num(d + rest) == Some((n, rest)),
{
    let t = d + rest;
    lemma_dec_str_digits(n as nat);
    assert forall|k: int| 0 <= k < d.len() implies is_digit(t[k]) by {
        assert(t[k] == d[k]);
    }
    lemma_run_end_window(t, 0, d.len() as int);
    lemma_digits_val_prefix(d, rest, d.len() as int);
    assert(t.skip(d.len() as int) =~= rest);
}

/// Re-parsing a canonical rendering of any well-formed version gives that
/// version back, numeric fields and local suffix alike.
#[verifier::rlimit(100)]
pub proof fn lemma_render_parse(v: VersionView)
    requires
        wf_parsed(v),
    ensures
        spec_parse(spec_render(v)) == Some(v),
{
    let dot = seq!['.'];
    let d_major = dec_str(v.major as nat);
    let d_minor = dec_str(v.minor as nat);
    let d_patch = dec_str(v.patch as nat);
    let rcs = rc_part(v.rc);
    let rls = rel_part(v.rel);
    let l = v.localversion;
    let t = spec_render(v);
    let tail = rcs + rls + l;
    let s1 = dot + d_minor + dot + d_patch + tail;
    let s2 = dot + d_patch + tail;
    lemma_dec_str_digits(v.major as nat);
    lemma_dec_str_digits(v.minor as nat);
    lemma_dec_str_digits(v.patch as nat);
    // the head of what follows the patch digits is never a digit
    let after = rls + l;
    assert(tail.len() > 0 ==> !is_digit(tail[0])) by {
        if v.rc is Some {
            assert(tail[0] == '-');
        } else {
            assert(tail =~= after);
            if v.rel is Some {
                assert(after[0] == '-');
            } else {
                assert(after =~= l);
            }
        }
    }
    // major
    assert(t =~= d_major + s1);
    lemma_take_num_concat(d_major, s1, v.major);
    assert(take_num(t) == Some((v.major, s1)));
    // minor
    assert(s1.skip(1) =~= d_minor + s2);
    lemma_take_num_concat(d_minor, s2, v.minor);
    assert(s1[0] == '.');
    // patch
    assert(s2.skip(1) =~= d_patch + tail);
    lemma_take_num_concat(d_patch, tail, v.patch);
    assert(s2[0] == '.');
    assert(take_dot_num(s2) == Some((v.patch, tail)));
    // candidate tag
    match v.rc {
        Some(n) => {
            lemma_dec_str_digits(n as nat);
            let after_rc = dec_str(n as nat) + after;
            assert(tail.skip(3) =~= after_rc);
            assert(after.len() > 0 ==> !is_digit(after[0])) by {
                if v.rel is Some {
                    assert(after[0] == '-');
                } else {
                    assert(after =~= l);
                }
            }
            lemma_take_num_concat(dec_str(n as nat), after, n);
            assert(tail[0] == '-' && tail[1] == 'r' && tail[2] == 'c');
            assert(take_rc(tail) == Some((n, after)));
        },
        None => {
            assert(tail =~= after);
            if v.rel is Some {
                // a digit follows the dash, never an `r`
                assert(after[1] == dec_str(v.rel->Some_0 as nat)[0]) by {
                    lemma_dec_str_digits(v.rel->Some_0 as nat);
                }
                lemma_dec_str_digits(v.rel->Some_0 as nat);
                assert(!is_digit('r'));
                assert(take_rc(after) is None);
            } else {
                assert(after =~= l);
                assert(take_rc(after) is None);
            }
        },
    }
    // release counter
    match v.rel {
        Some(m) => {
            lemma_dec_str_digits(m as nat);
            let dm = dec_str(m as nat);
            let q = 1 + dm.len() as int;
            assert(after =~= seq!['-'] + dm + l);
            assert(after[0] == '-');
            assert forall|k: int| 1 <= k < q implies after[k] != '-' by {
                assert(after[k] == dm[k - 1]);
                assert(is_digit(dm[k - 1]));
            }
            assert(l.len() > 0 && l[0] == '-');
            assert(after[q] == l[0]);
            lemma_find_dash_window(after, 1, q);
            assert forall|k: int| 1 <= k < q implies is_digit(after[k]) by {
                assert(after[k] == dm[k - 1]);
            }
            lemma_run_end_window(after, 1, q);
            lemma_digits_val_shift(after, 1, 1, q);
            assert(after.skip(1) =~= dm + l);
            lemma_digits_val_prefix(dm, l, dm.len() as int);
            assert(digits_val(after, 1, q) == m);
            assert(after.skip(q) =~= l);
            assert(take_rel(after) == Some((m, l)));
        },
        None => {
            assert(after =~= l);
            assert(take_rel(after) is None);
        },
    }
    assert(spec_parse(t) == Some(v));
}

/// Parsing, rendering, and parsing again settles on a fixed point after
/// the first parse: the numeric fields and the local version suffix of a
/// parsed name survive a render/parse round trip unchanged.
pub proof fn lemma_parse_render_roundtrip(s: Seq<char>)
    requires
        spec_parse(s) is Some,
    ensures
        spec_parse(spec_render(spec_parse(s)->Some_0)) == spec_parse(s),
{
    lemma_parse_wf(s);
    lemma_render_parse(spec_parse(s)->Some_0);
}

} // verus!

