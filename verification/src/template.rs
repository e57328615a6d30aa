//! Filename templates: a template holds the literal token `{VERSION}`;
//! expanding substitutes the raw version name for every occurrence, and
//! matching recovers the version name from a filename by the shape
//! `prefix ++ version ++ suffix` around the first occurrence of the token.

use vstd::prelude::*;
use vstd::string::*;

verus! {

/// The placeholder token substituted by the raw kernel name.
pub open spec fn spec_version_token() -> Seq<char> {
    "{VERSION}"@
}

/// Executable counterpart of [`spec_version_token`].
pub fn version_token() -> (r: &'static str)
    ensures
        r@ == spec_version_token(),
        r@.len() == 9,
{
    proof {
        reveal_strlit("{VERSION}");
    }
    "{VERSION}"
}

/// Replacement of every occurrence of `pat` in `s` by `rep`, leftmost
/// first, the way `str::replace` does it.
pub open spec fn spec_replace(s: Seq<char>, pat: Seq<char>, rep: Seq<char>) -> Seq<char>
    decreases s.len(),
    when pat.len() > 0
{
    if s.len() == 0 {
        s
    } else if s.len() >= pat.len() && s.subrange(0, pat.len() as int) == pat {
        rep + spec_replace(s.skip(pat.len() as int), pat, rep)
    } else {
        seq![s[0]] + spec_replace(s.skip(1), pat, rep)
    }
}

/// Index of the first occurrence of `pat` in `s`, or `-1`.
pub open spec fn find_pat(s: Seq<char>, pat: Seq<char>) -> int
    decreases s.len(),
    when pat.len() > 0
{
    if s.len() < pat.len() {
        -1
    } else if s.subrange(0, pat.len() as int) == pat {
        0
    } else {
        let r = find_pat(s.skip(1), pat);
        if r < 0 {
            -1
        } else {
            1 + r
        }
    }
}

/// Whether `pat` occurs in `s` starting at `i`.
pub(crate) fn matches_at(s: &str, i: usize, pat: &str) -> (r: bool)
    requires
        i <= s@.len(),
    ensures
        r == (i + pat@.len() <= s@.len() && s@.subrange(i as int, i + pat@.len()) == pat@),
{
    let n = pat.unicode_len();
    let len = s.unicode_len();
    if len - i < n {
        return false;
    }
    let mut k: usize = 0;
    loop
        invariant
            0 <= k <= n,
            i + n <= s@.len(),
            n == pat@.len(),
            len == s@.len(),
            forall|j: int| 0 <= j < k ==> s@[i + j] == pat@[j],
        ensures
            0 <= k <= n,
            k < n ==> s@[i + k] != pat@[k as int],
            forall|j: int| 0 <= j < k ==> s@[i + j] == pat@[j],
        decreases n - k,
    {
        if k == n {
            break ;
        }
        if s.get_char(i + k) != pat.get_char(k) {
            break ;
        }
        k = k + 1;
    }
    if k == n {
        proof {
            assert(s@.subrange(i as int, i + pat@.len()) =~= pat@);
        }
        true
    } else {
        proof {
            assert(s@.subrange(i as int, i + pat@.len())[k as int] == s@[i + k]);
        }
        false
    }
}

/// Replaces every occurrence of `pat` in `s` by `rep`, leftmost first.
pub fn replace(s: &str, pat: &str, rep: &str) -> (r: String)
    requires
        pat@.len() > 0,
    ensures
        r@ == spec_replace(s@, pat@, rep@),
{
    let len = s.unicode_len();
    let n = pat.unicode_len();
    let mut out = String::new();
    let mut i: usize = 0;
    proof {
        assert(s@.skip(0) =~= s@);
        assert(out@ + spec_replace(s@, pat@, rep@) =~= spec_replace(s@, pat@, rep@));
    }
    loop
        invariant
            0 <= i <= s@.len(),
            len == s@.len(),
            n == pat@.len(),
            n > 0,
            spec_replace(s@, pat@, rep@) == out@ + spec_replace(s@.skip(i as int), pat@, rep@),
        ensures
            i == s@.len(),
            spec_replace(s@, pat@, rep@) == out@ + spec_replace(s@.skip(i as int), pat@, rep@),
        decreases s@.len() - i,
    {
        if i == len {
            break ;
        }
        let ghost u = s@.skip(i as int);
        if matches_at(s, i, pat) {
            proof {
                assert(u.subrange(0, pat@.len() as int) =~= s@.subrange(i as int, i + pat@.len()));
                assert(u.skip(pat@.len() as int) =~= s@.skip(i + pat@.len()));
            }
            out.append(rep);
            i = i + n;
        } else {
            proof {
                if u.len() >= pat@.len() {
                    assert(u.subrange(0, pat@.len() as int) =~= s@.subrange(
                        i as int,
                        i + pat@.len(),
                    ));
                }
                assert(u.skip(1) =~= s@.skip(i + 1));
                assert(seq![u[0]] =~= s@.subrange(i as int, i + 1));
            }
            let c = s.substring_char(i, i + 1);
            out.append(c);
            i = i + 1;
        }
    }
    proof {
        assert(s@.skip(i as int) =~= Seq::<char>::empty());
        assert(spec_replace(Seq::<char>::empty(), pat@, rep@) =~= Seq::<char>::empty());
        assert(out@ =~= out@ + Seq::<char>::empty());
    }
    out
}

/// Expands a filename template with the raw version name (every
/// occurrence of the token is substituted).
pub fn expand(template: &str, version: &str) -> (r: String)
    ensures
        r@ == spec_replace(template@, spec_version_token(), version@),
{
    proof {
        reveal_strlit("{VERSION}");
    }
    replace(template, version_token(), version)
}

/// Matching a filename against a template: the name must have the shape
/// `prefix ++ version ++ suffix` around the first token occurrence, with a
/// non-empty version. The match is greedy: the version part is everything
/// between the literal prefix and suffix. A template without the token
/// matches nothing.
pub open spec fn spec_match_template(tpl: Seq<char>, name: Seq<char>) -> Option<Seq<char>> {
    let i = find_pat(tpl, spec_version_token());
    if i < 0 {
        None
    } else {
        let pre = tpl.subrange(0, i);
        let suf = tpl.skip(i + spec_version_token().len());
        if name.len() > pre.len() + suf.len() && name.subrange(0, pre.len() as int) == pre
            && name.skip(name.len() - suf.len()) == suf {
            Some(name.subrange(pre.len() as int, name.len() - suf.len()))
        } else {
            None
        }
    }
}

/// Scans for the first occurrence of `pat` in `s`.
fn find_pat_x(s: &str, pat: &str) -> (r: Option<usize>)
    requires
        pat@.len() > 0,
    ensures
        match r {
            Some(i) => find_pat(s@, pat@) == i as int && i + pat@.len() <= s@.len(),
            None => find_pat(s@, pat@) < 0,
        },
{
    let len = s.unicode_len();
    let n = pat.unicode_len();
    let mut i: usize = 0;
    proof {
        assert(s@.skip(0) =~= s@);
    }
    loop
        invariant
            0 <= i <= s@.len(),
            len == s@.len(),
            n == pat@.len(),
            n > 0,
            find_pat(s@, pat@) == (if find_pat(s@.skip(i as int), pat@) >= 0 {
                i + find_pat(s@.skip(i as int), pat@)
            } else {
                -1 as int
            }),
        ensures
            0 <= i <= s@.len(),
            i + pat@.len() <= s@.len() ==> find_pat(s@, pat@) == i,
            i + pat@.len() > s@.len() ==> find_pat(s@, pat@) < 0,
        decreases s@.len() - i,
    {
        let ghost u = s@.skip(i as int);
        if len - i < n {
            proof {
                assert(u.len() < pat@.len());
            }
            break ;
        }
        if matches_at(s, i, pat) {
            proof {
                assert(u.subrange(0, pat@.len() as int) =~= s@.subrange(i as int, i + pat@.len()));
                assert(find_pat(u, pat@) == 0);
            }
            break ;
        }
        proof {
            assert(u.subrange(0, pat@.len() as int) =~= s@.subrange(i as int, i + pat@.len()));
            assert(u.skip(1) =~= s@.skip(i + 1));
        }
        i = i + 1;
    }
    if len - i >= n {
        Some(i)
    } else {
        None
    }
}

/// Matches a filename against a template, recovering the version part.
pub fn match_template(template: &str, name: &str) -> (r: Option<String>)
    ensures
        match r {
            Some(v) => spec_match_template(template@, name@) == Some(v@),
            None => spec_match_template(template@, name@) is None,
        },
{
    proof {
        reveal_strlit("{VERSION}");
    }
    let tok = version_token();
    let i = match find_pat_x(template, tok) {
        Some(i) => i,
        None => {
            return None;
        },
    };
    let tlen = template.unicode_len();
    let nlen = name.unicode_len();
    let pre_len = i;
    let suf_len = tlen - (i + 9);
    if nlen <= pre_len + suf_len {
        return None;
    }
    // literal prefix
    if !matches_eq(name, 0, template, 0, pre_len) {
        proof {
            let pre = template@.subrange(0, i as int);
            assert(name@.subrange(0, i as int) != pre);
        }
        return None;
    }
    // literal suffix
    if !matches_eq(name, nlen - suf_len, template, i + 9, suf_len) {
        proof {
            let suf = template@.skip(i + 9);
            assert(name@.skip(name@.len() - suf.len()) =~= name@.subrange(
                name@.len() - suf.len(),
                name@.len() as int,
            ));
            assert(suf =~= template@.subrange(i + 9, template@.len() as int));
        }
        return None;
    }
    let v = String::from_str(name.substring_char(pre_len, nlen - suf_len));
    proof {
        let pre = template@.subrange(0, i as int);
        let suf = template@.skip(i + 9);
        assert(name@.subrange(0, i as int) =~= pre);
        assert(name@.skip(name@.len() - suf.len()) =~= suf);
    }
    Some(v)
}

/// A text without the pattern is left alone by replacement.
pub proof fn lemma_replace_absent(s: Seq<char>, pat: Seq<char>, rep: Seq<char>)
    requires
        pat.len() > 0,
        find_pat(s, pat) < 0,
    ensures
        spec_replace(s, pat, rep) == s,
    decreases s.len(),
{
    if s.len() > 0 {
        lemma_replace_absent(s.skip(1), pat, rep);
        assert(seq![s[0]] + s.skip(1) =~= s);
    }
}

/// Replacement splits at the first occurrence of the pattern.
pub proof fn lemma_replace_split(s: Seq<char>, pat: Seq<char>, rep: Seq<char>)
    requires
        pat.len() > 0,
        find_pat(s, pat) >= 0,
    ensures
        ({
            let i = find_pat(s, pat);
            &&& i + pat.len() <= s.len()
            &&& spec_replace(s, pat, rep) == s.subrange(0, i) + rep + spec_replace(
                s.skip(i + pat.len()),
                pat,
                rep,
            )
        }),
    decreases s.len(),
{
    let i = find_pat(s, pat);
    if i == 0 {
        assert(s.subrange(0, 0) + rep + spec_replace(s.skip(pat.len() as int), pat, rep)
            =~= rep + spec_replace(s.skip(pat.len() as int), pat, rep));
    } else {
        lemma_replace_split(s.skip(1), pat, rep);
        let j = find_pat(s.skip(1), pat);
        assert(j == i - 1);
        assert(seq![s[0]] + s.skip(1).subrange(0, j) =~= s.subrange(0, i));
        assert(s.skip(1).skip(j + pat.len()) =~= s.skip(i + pat.len()));
        assert(seq![s[0]] + (s.skip(1).subrange(0, j) + rep + spec_replace(
            s.skip(i + pat.len()),
            pat,
            rep,
        )) =~= s.subrange(0, i) + rep + spec_replace(s.skip(i + pat.len()), pat, rep));
    }
}

/// Matching after expanding recovers the raw name: for a template holding
/// the token exactly once and a non-empty name, the expanded filename
/// matches the template with the name as its version part. Discovery from
/// the ESP therefore finds exactly the kernels whose names were installed.
pub proof fn lemma_match_after_expand(tpl: Seq<char>, name: Seq<char>)
    requires
        find_pat(tpl, spec_version_token()) >= 0,
        ({
            let i = find_pat(tpl, spec_version_token());
            find_pat(tpl.skip(i + spec_version_token().len()), spec_version_token()) < 0
        }),
        name.len() > 0,
    ensures
        spec_match_template(tpl, spec_replace(tpl, spec_version_token(), name)) == Some(name),
{
    reveal_strlit("{VERSION}");
    let tok = spec_version_token();
    let i = find_pat(tpl, tok);
    let pre = tpl.subrange(0, i);
    let suf = tpl.skip(i + tok.len());
    lemma_replace_split(tpl, tok, name);
    lemma_replace_absent(suf, tok, name);
    let expanded = spec_replace(tpl, tok, name);
    assert(expanded == pre + name + suf);
    assert(expanded.subrange(0, pre.len() as int) =~= pre);
    assert(expanded.skip(expanded.len() - suf.len()) =~= suf);
    assert(expanded.subrange(pre.len() as int, expanded.len() - suf.len()) =~= name);
}

/// Whether `a[ai..ai+n]` equals `b[bi..bi+n]`, character for character.
fn matches_eq(a: &str, ai: usize, b: &str, bi: usize, n: usize) -> (r: bool)
    requires
        ai + n <= a@.len(),
        bi + n <= b@.len(),
    ensures
        r == (a@.subrange(ai as int, ai + n) == b@.subrange(bi as int, bi + n)),
{
    let alen = a.unicode_len();
    let blen = b.unicode_len();
    let mut k: usize = 0;
    loop
        invariant
            0 <= k <= n,
            ai + n <= a@.len(),
            bi + n <= b@.len(),
            alen == a@.len(),
            blen == b@.len(),
            forall|j: int| 0 <= j < k ==> a@[ai + j] == #[trigger] b@[bi + j],
        ensures
            0 <= k <= n,
            k < n ==> a@[ai + k] != b@[bi + k],
            forall|j: int| 0 <= j < k ==> a@[ai + j] == #[trigger] b@[bi + j],
        decreases n - k,
    {
        if k == n {
            break ;
        }
        if a.get_char(ai + k) != b.get_char(bi + k) {
            break ;
        }
        k = k + 1;
    }
    if k == n {
        proof {
            assert forall|j: int| 0 <= j < n implies #[trigger] a@.subrange(ai as int, ai + n)[j]
                == b@.subrange(bi as int, bi + n)[j] by {
                assert(a@[ai + j] == b@[bi + j]);
            }
            assert(a@.subrange(ai as int, ai + n) =~= b@.subrange(bi as int, bi + n));
        }
        true
    } else {
        proof {
            assert(a@.subrange(ai as int, ai + n)[k as int] == a@[ai + k]);
            assert(b@.subrange(bi as int, bi + n)[k as int] == b@[bi + k]);
        }
        false
    }
}

} // verus!
