//! Kernel command lines: making sure the `root=` and `rw`/`ro` parameters
//! are present, and recovering the root partition from mount-table text.
//!
//! A parameter is a maximal run of non-blank characters; blanks are the
//! ASCII space, tab, newline and carriage return.

use vstd::prelude::*;
use vstd::string::*;

verus! {

/// Blank characters separating command-line parameters and mount fields.
pub open spec fn is_space(c: char) -> bool {
    c == ' ' || c == '\t' || c == '\n' || c == '\r'
}

/// A parameter begins at `i`: a non-blank preceded by a blank or the start.
pub open spec fn token_start(s: Seq<char>, i: int) -> bool {
    0 <= i < s.len() && !is_space(s[i]) && (i == 0 || is_space(s[i - 1]))
}

/// A `root=` parameter begins at `i`.
pub open spec fn root_param_at(s: Seq<char>, i: int) -> bool {
    token_start(s, i) && i + 5 <= s.len() && s.subrange(i, i + 5) == "root="@
}

/// The parameter at `i` is exactly `rw` or `ro`.
pub open spec fn rw_param_at(s: Seq<char>, i: int) -> bool {
    token_start(s, i) && i + 2 <= s.len() && (s.subrange(i, i + 2) == "rw"@ || s.subrange(i, i + 2)
        == "ro"@) && (i + 2 == s.len() || is_space(s[i + 2]))
}

/// Some parameter sets the root partition.
pub open spec fn has_root(s: Seq<char>) -> bool {
    exists|i: int| root_param_at(s, i)
}

/// Some parameter sets the mount mode.
pub open spec fn has_rw(s: Seq<char>) -> bool {
    exists|i: int| rw_param_at(s, i)
}

/// One trailing newline removed, as configuration text often carries one.
pub open spec fn strip_nl(s: Seq<char>) -> Seq<char> {
    if s.len() > 0 && s[s.len() - 1] == '\n' {
        s.subrange(0, s.len() - 1)
    } else {
        s
    }
}

/// The filled command line: the original (one trailing newline removed),
/// with ` root=<root>` appended when no `root=` parameter is present and
/// ` rw` appended when neither `rw` nor `ro` is.
pub open spec fn spec_fill(bootarg: Seq<char>, root: Seq<char>) -> Seq<char> {
    let base = strip_nl(bootarg);
    let with_root = if has_root(bootarg) {
        base
    } else {
        base + " root="@ + root
    };
    if has_rw(bootarg) {
        with_root
    } else {
        with_root + " rw"@
    }
}

/// Executable blank test.
pub fn is_space_x(c: char) -> (r: bool)
    ensures
        r == is_space(c),
{
    c == ' ' || c == '\t' || c == '\n' || c == '\r'
}

/// Fills the root and mount-mode parameters of a kernel command line if
/// they are missing (the root partition is supplied by the caller, who
/// knows the mount table).
pub fn fill_necessary_bootarg(bootarg: &str, root_partition: &str) -> (r: String)
    ensures
        r@ == spec_fill(bootarg@, root_partition@),
{
    proof {
        reveal_strlit("root=");
        reveal_strlit("rw");
        reveal_strlit("ro");
    }
    let len = bootarg.unicode_len();
    let mut i: usize = 0;
    let mut prev_space = true;
    let mut found_root = false;
    let mut found_rw = false;
    loop
        invariant
            0 <= i <= len,
            len == bootarg@.len(),
            prev_space == (i == 0 || is_space(bootarg@[i - 1])),
            found_root <==> exists|t: int| t < i && root_param_at(bootarg@, t),
            found_rw <==> exists|t: int| t < i && rw_param_at(bootarg@, t),
        ensures
            found_root == has_root(bootarg@),
            found_rw == has_rw(bootarg@),
        decreases len - i,
    {
        if i == len {
            proof {
                assert forall|t: int| root_param_at(bootarg@, t) implies t < i by {}
                assert forall|t: int| rw_param_at(bootarg@, t) implies t < i by {}
            }
            break ;
        }
        let c = bootarg.get_char(i);
        if prev_space && !is_space_x(c) {
            if crate::template::matches_at(bootarg, i, "root=") {
                found_root = true;
                proof {
                    reveal_strlit("root=");
                    assert(root_param_at(bootarg@, i as int));
                }
            }
            if crate::template::matches_at(bootarg, i, "rw") || crate::template::matches_at(
                bootarg,
                i,
                "ro",
            ) {
                proof {
                    reveal_strlit("rw");
                    reveal_strlit("ro");
                }
                if len - i == 2 || is_space_x(bootarg.get_char(i + 2)) {
                    found_rw = true;
                    proof {
                        reveal_strlit("rw");
                        reveal_strlit("ro");
                        assert(rw_param_at(bootarg@, i as int));
                    }
                }
            }
        }
        proof {
            assert forall|t: int| t < i + 1 && root_param_at(bootarg@, t) implies t < i
                || root_param_at(bootarg@, i as int) by {}
            assert forall|t: int| t < i + 1 && rw_param_at(bootarg@, t) implies t < i
                || rw_param_at(bootarg@, i as int) by {}
        }
        prev_space = is_space_x(c);
        i = i + 1;
    }
    let mut out = String::new();
    if len > 0 && bootarg.get_char(len - 1) == '\n' {
        out.append(bootarg.substring_char(0, len - 1));
    } else {
        out.append(bootarg);
    }
    proof {
        assert(out@ =~= strip_nl(bootarg@));
    }
    if !found_root {
        proof {
            reveal_strlit(" root=");
        }
        out.append(" root=");
        out.append(root_partition);
    }
    if !found_rw {
        proof {
            reveal_strlit(" rw");
        }
        out.append(" rw");
    }
    proof {
        assert(out@ =~= spec_fill(bootarg@, root_partition@));
    }
    out
}

/// First index at or after `from` holding `'\n'` (or the length).
pub open spec fn find_nl(s: Seq<char>, from: int) -> int
    decreases s.len() - from,
{
    if from < 0 || from >= s.len() {
        s.len() as int
    } else if s[from] == '\n' {
        from
    } else {
        find_nl(s, from + 1)
    }
}

/// First index at or after `from` holding a non-blank (or the length).
pub open spec fn skip_spaces(s: Seq<char>, from: int) -> int
    decreases s.len() - from,
{
    if from < 0 || from >= s.len() {
        s.len() as int
    } else if !is_space(s[from]) {
        from
    } else {
        skip_spaces(s, from + 1)
    }
}

/// First index at or after `from` holding a blank (or the length).
pub open spec fn scan_token(s: Seq<char>, from: int) -> int
    decreases s.len() - from,
{
    if from < 0 || from >= s.len() {
        s.len() as int
    } else if is_space(s[from]) {
        from
    } else {
        scan_token(s, from + 1)
    }
}

/// The first blank-separated field of a line (empty if the line is blank).
pub open spec fn spec_field1(line: Seq<char>) -> Seq<char> {
    let a = skip_spaces(line, 0);
    line.subrange(a, scan_token(line, a))
}

/// The second blank-separated field of a line (empty if there is none).
pub open spec fn spec_field2(line: Seq<char>) -> Seq<char> {
    let a = skip_spaces(line, 0);
    let b = scan_token(line, a);
    let c = skip_spaces(line, b);
    line.subrange(c, scan_token(line, c))
}

/// The lines of `s`, split at every `'\n'` (a trailing newline yields a
/// final empty line, which holds no fields and is harmless).
pub open spec fn spec_lines(s: Seq<char>) -> Seq<Seq<char>>
    decreases s.len(),
{
    let j = find_nl(s, 0);
    if j < 0 || j >= s.len() {
        seq![s]
    } else {
        seq![s.subrange(0, j)] + spec_lines(s.skip(j + 1))
    }
}

/// Folds over lines, left to right: each line whose second field is `/`
/// replaces the device found so far by its first field, so the last such
/// line wins.
pub open spec fn root_fold(ls: Seq<Seq<char>>, acc: Seq<char>) -> Seq<char>
    decreases ls.len(),
{
    if ls.len() == 0 {
        acc
    } else {
        root_fold(
            ls.drop_first(),
            if spec_field2(ls[0]) == "/"@ {
                spec_field1(ls[0])
            } else {
                acc
            },
        )
    }
}

/// The device mounted at `/` according to mount-table text (its lines hold
/// the device first and the mount point second); empty if no line mounts
/// `/`, and the last such line wins.
pub open spec fn spec_root_of(mounts: Seq<char>) -> Seq<char> {
    root_fold(spec_lines(mounts), Seq::<char>::empty())
}

fn find_nl_x(s: &str, from: usize) -> (q: usize)
    requires
        from <= s@.len(),
    ensures
        q == find_nl(s@, from as int),
        from <= q <= s@.len(),
{
    proof {
        lemma_scan_bounds(s@, from as int);
    }
    let len = s.unicode_len();
    let mut q = from;
    loop
        invariant
            from <= q <= s@.len(),
            len == s@.len(),
            q <= find_nl(s@, from as int),
            forall|k: int| from <= k < q ==> s@[k] != '\n',
        ensures
            q == find_nl(s@, from as int),
        decreases s@.len() - q,
    {
        proof {
            lemma_scan_bounds(s@, from as int);
        }
        if q == len {
            break ;
        }
        if s.get_char(q) == '\n' {
            proof {
                lemma_scan_window(s@, from as int, q as int);
            }
            break ;
        }
        proof {
            lemma_scan_window_step(s@, from as int, q as int);
        }
        q = q + 1;
    }
    q
}

proof fn lemma_scan_bounds(s: Seq<char>, from: int)
    requires
        0 <= from <= s.len(),
    ensures
        from <= find_nl(s, from) <= s.len(),
        from <= skip_spaces(s, from) <= s.len(),
        from <= scan_token(s, from) <= s.len(),
    decreases s.len() - from,
{
    if from < s.len() {
        lemma_scan_bounds(s, from + 1);
    }
}

proof fn lemma_scan_window(s: Seq<char>, from: int, j: int)
    requires
        0 <= from <= j <= s.len(),
        forall|k: int| from <= k < j ==> s[k] != '\n',
        j == s.len() || s[j] == '\n',
    ensures
        find_nl(s, from) == j,
    decreases j - from,
{
    if from < j {
        lemma_scan_window(s, from + 1, j);
    }
}

proof fn lemma_scan_window_step(s: Seq<char>, from: int, q: int)
    requires
        0 <= from <= q < s.len(),
        forall|k: int| from <= k < q ==> s[k] != '\n',
        s[q] != '\n',
    ensures
        q + 1 <= find_nl(s, from),
    decreases q - from,
{
    lemma_scan_bounds(s, q + 1);
    if from < q {
        lemma_scan_window_step(s, from + 1, q);
    }
}

fn skip_spaces_x(s: &str, from: usize) -> (q: usize)
    requires
        from <= s@.len(),
    ensures
        q == skip_spaces(s@, from as int),
        from <= q <= s@.len(),
{
    let len = s.unicode_len();
    let mut q = from;
    loop
        invariant
            from <= q <= s@.len(),
            len == s@.len(),
            skip_spaces(s@, from as int) == skip_spaces(s@, q as int),
        ensures
            q == skip_spaces(s@, from as int),
        decreases s@.len() - q,
    {
        if q == len {
            break ;
        }
        if !is_space_x(s.get_char(q)) {
            break ;
        }
        q = q + 1;
    }
    q
}

fn scan_token_x(s: &str, from: usize) -> (q: usize)
    requires
        from <= s@.len(),
    ensures
        q == scan_token(s@, from as int),
        from <= q <= s@.len(),
{
    let len = s.unicode_len();
    let mut q = from;
    loop
        invariant
            from <= q <= s@.len(),
            len == s@.len(),
            scan_token(s@, from as int) == scan_token(s@, q as int),
        ensures
            q == scan_token(s@, from as int),
        decreases s@.len() - q,
    {
        if q == len {
            break ;
        }
        if is_space_x(s.get_char(q)) {
            break ;
        }
        q = q + 1;
    }
    q
}

/// Whether the line's second field is exactly `/`.
fn mounts_root(line: &str) -> (r: bool)
    ensures
        r == (spec_field2(line@) == "/"@),
{
    proof {
        reveal_strlit("/");
    }
    let a = skip_spaces_x(line, 0);
    let b = scan_token_x(line, a);
    let c = skip_spaces_x(line, b);
    let d = scan_token_x(line, c);
    if d - c == 1 && line.get_char(c) == '/' {
        proof {
            assert(line@.subrange(c as int, d as int) =~= "/"@);
        }
        true
    } else {
        proof {
            if spec_field2(line@) == "/"@ {
                assert(line@.subrange(c as int, d as int).len() == 1);
                assert(line@.subrange(c as int, d as int)[0] == line@[c as int]);
            }
        }
        false
    }
}

/// The first field of a line.
fn first_field(line: &str) -> (r: String)
    ensures
        r@ == spec_field1(line@),
{
    let a = skip_spaces_x(line, 0);
    let b = scan_token_x(line, a);
    String::from_str(line.substring_char(a, b))
}

/// Recovers the device mounted at `/` from mount-table text: each line
/// holds the device first and the mount point second; the last line
/// mounting `/` wins, and the result is empty when none does.
pub fn detect_root_partition(mounts: &str) -> (r: String)
    ensures
        r@ == spec_root_of(mounts@),
{
    let len = mounts.unicode_len();
    let mut pos: usize = 0;
    let mut out = String::new();
    proof {
        assert(mounts@.skip(0) =~= mounts@);
    }
    loop
        invariant
            0 <= pos <= len,
            len == mounts@.len(),
            spec_root_of(mounts@) == root_fold(spec_lines(mounts@.skip(pos as int)), out@),
        ensures
            spec_root_of(mounts@) == out@,
        decreases len - pos,
    {
        let ghost out0 = out@;
        let le = find_nl_x(mounts, pos);
        proof {
            lemma_find_nl_shift(mounts@, pos as int, pos as int);
        }
        let line = mounts.substring_char(pos, le);
        let ghost u = mounts@.skip(pos as int);
        let ghost j = find_nl(u, 0);
        proof {
            assert(j == le - pos);
            assert(u.subrange(0, j) =~= mounts@.subrange(pos as int, le as int));
        }
        let is_root_line = mounts_root(line);
        if is_root_line {
            out = first_field(line);
        }
        proof {
            assert(out@ == (if spec_field2(line@) == "/"@ {
                spec_field1(line@)
            } else {
                out0
            }));
        }
        if le == len {
            proof {
                assert(j == u.len());
                assert(u.subrange(0, j) =~= u);
                assert(spec_lines(u) =~= seq![u]);
                let step = if spec_field2(u) == "/"@ {
                    spec_field1(u)
                } else {
                    out0
                };
                assert(seq![u].drop_first() =~= Seq::<Seq<char>>::empty());
                assert(seq![u][0] == u);
                assert(root_fold(seq![u], out0) == root_fold(seq![u].drop_first(), step));
                assert(root_fold(Seq::<Seq<char>>::empty(), step) == step);
            }
            break ;
        }
        proof {
            let rest = spec_lines(u.skip(j + 1));
            assert(u.skip(j + 1) =~= mounts@.skip(le + 1));
            assert(spec_lines(u) == seq![u.subrange(0, j)] + rest);
            assert((seq![u.subrange(0, j)] + rest).drop_first() =~= rest);
            assert((seq![u.subrange(0, j)] + rest)[0] == u.subrange(0, j));
            assert(root_fold(spec_lines(u), out0) == root_fold(
                rest,
                if spec_field2(u.subrange(0, j)) == "/"@ {
                    spec_field1(u.subrange(0, j))
                } else {
                    out0
                },
            ));
        }
        pos = le + 1;
    }
    out
}

proof fn lemma_find_nl_shift(s: Seq<char>, i: int, from: int)
    requires
        0 <= i <= from <= s.len(),
    ensures
        find_nl(s.skip(i), from - i) == find_nl(s, from) - i,
    decreases s.len() - from,
{
    if from < s.len() && s[from] != '\n' {
        lemma_find_nl_shift(s, i, from + 1);
    }
}

} // verus!
