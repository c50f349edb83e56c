use vstd::prelude::*;
use vstd::string::StrSliceExecFns;
use vstd::string::StringExecFns;
use crate::strutil::{spec_split, spec_starts_with, str_split, str_starts_with, str_eq};

verus! {

// ---------------------------------------------------------------------------
// Quote handling: a value that opens with `"` is copied up to the first
// unescaped closing quote; `&` escapes the character after it.  A missing
// closing quote truncates at the end of the value.
// ---------------------------------------------------------------------------

pub open spec fn spec_unquote_from(v: Seq<char>, i: int) -> Seq<char>
    decreases v.len() - i,
{
    if i >= v.len() {
        Seq::empty()
    } else if v[i] == '&' {
        if i + 1 < v.len() {
            seq![v[i + 1]] + spec_unquote_from(v, i + 2)
        } else {
            Seq::empty()
        }
    } else if v[i] == '"' {
        Seq::empty()
    } else {
        seq![v[i]] + spec_unquote_from(v, i + 1)
    }
}

pub open spec fn spec_unquote(v: Seq<char>) -> Seq<char> {
    if v.len() > 0 && v[0] == '"' {
        spec_unquote_from(v, 1)
    } else {
        v
    }
}

pub fn unquote(value: &str) -> (r: String)
    ensures
        r@ == spec_unquote(value@),
{
    let n = value.unicode_len();
    if !(n > 0 && value.get_char(0) == '"') {
        return value.to_owned();
    }
    let mut res = String::new();
    let mut i: usize = 1;
    while i < n
        invariant
            1 <= i,
            n == value@.len(),
            spec_unquote_from(value@, 1) == res@ + spec_unquote_from(value@, i as int),
        decreases n - i,
    {
        let ghost res0 = res@;
        let c = value.get_char(i);
        if c == '&' {
            if i + 1 < n {
                let c2 = value.get_char(i + 1);
                res.push(c2);
                proof {
                    assert(res@ + spec_unquote_from(value@, i + 2) =~= res0 + (seq![c2]
                        + spec_unquote_from(value@, i + 2)));
                }
                i += 2;
            } else {
                i = n;
            }
        } else if c == '"' {
            i = n;
            proof {
                assert(res0 + spec_unquote_from(value@, n as int) =~= res0
                    + Seq::<char>::empty());
                assert(res0 + Seq::<char>::empty() =~= res0);
                assert(spec_unquote_from(value@, 1) == res0 + spec_unquote_from(
                    value@,
                    n as int,
                ));
            }
        } else {
            res.push(c);
            proof {
                assert(res@ + spec_unquote_from(value@, i + 1) =~= res0 + (seq![c]
                    + spec_unquote_from(value@, i + 1)));
            }
            i += 1;
        }
    }
    proof {
        assert(spec_unquote_from(value@, i as int) =~= Seq::<char>::empty());
        assert(res@ + Seq::<char>::empty() =~= res@);
    }
    res
}

// ---------------------------------------------------------------------------
// Separators
// ---------------------------------------------------------------------------

pub open spec fn is_sep_char(c: char) -> bool {
    c == '/' || c == '\\'
}

fn is_sep(c: char) -> (r: bool)
    ensures
        r == is_sep_char(c),
{
    c == '/' || c == '\\'
}

/// All leading separator characters removed.
pub open spec fn spec_strip_lead_seps(v: Seq<char>) -> Seq<char>
    decreases v.len(),
{
    if v.len() > 0 && is_sep_char(v[0]) {
        spec_strip_lead_seps(v.drop_first())
    } else {
        v
    }
}

proof fn lemma_strip_lead_seps_subrange(v: Seq<char>, a: int)
    requires
        0 <= a <= v.len(),
        forall|j: int| 0 <= j < a ==> is_sep_char(v[j]),
        a < v.len() ==> !is_sep_char(v[a]),
    ensures
        spec_strip_lead_seps(v) == v.subrange(a, v.len() as int),
    decreases a,
{
    if a == 0 {
        assert(v.subrange(0, v.len() as int) =~= v);
    } else {
        let t = v.drop_first();
        assert forall|j: int| 0 <= j < a - 1 implies is_sep_char(t[j]) by {
            assert(t[j] == v[j + 1]);
        }
        if a - 1 < t.len() {
            assert(t[a - 1] == v[a]);
        }
        lemma_strip_lead_seps_subrange(t, a - 1);
        assert(t.subrange(a - 1, t.len() as int) =~= v.subrange(a, v.len() as int));
    }
}

fn strip_lead_seps(v: &str) -> (r: &str)
    ensures
        r@ == spec_strip_lead_seps(v@),
{
    let n = v.unicode_len();
    let mut a: usize = 0;
    while a < n && is_sep(v.get_char(a))
        invariant
            n == v@.len(),
            a <= n,
            forall|j: int| 0 <= j < a ==> is_sep_char(v@[j]),
        decreases n - a,
    {
        a += 1;
    }
    proof {
        lemma_strip_lead_seps_subrange(v@, a as int);
    }
    v.substring_char(a, n)
}

/// Every separator replaced by `'/'`.
pub open spec fn spec_norm_seps(v: Seq<char>) -> Seq<char> {
    v.map_values(|c: char| if c == '\\' { '/' } else { c })
}

fn norm_seps(v: &str) -> (r: String)
    ensures
        r@ == spec_norm_seps(v@),
{
    let n = v.unicode_len();
    let mut res = String::new();
    let mut i: usize = 0;
    while i < n
        invariant
            n == v@.len(),
            i <= n,
            res@.len() == i,
            forall|j: int| 0 <= j < i ==> res@[j] == spec_norm_seps(v@)[j],
        decreases n - i,
    {
        let c = v.get_char(i);
        if c == '\\' {
            res.push('/');
        } else {
            res.push(c);
        }
        i += 1;
    }
    assert(res@ =~= spec_norm_seps(v@));
    res
}

// ---------------------------------------------------------------------------
// Joining
// ---------------------------------------------------------------------------

pub open spec fn spec_is_abs(v: Seq<char>) -> bool {
    v.len() > 0 && v[0] == '/'
}

/// `a` with `b` appended below it, a separator added only where needed.
/// An empty side leaves the other unchanged.
pub open spec fn spec_join(a: Seq<char>, b: Seq<char>) -> Seq<char> {
    if a.len() == 0 {
        b
    } else if b.len() == 0 {
        a
    } else if a.last() == '/' {
        a + b
    } else {
        a + seq!['/'] + b
    }
}

pub fn join_path(a: &str, b: &str) -> (r: String)
    ensures
        r@ == spec_join(a@, b@),
{
    let an = a.unicode_len();
    let bn = b.unicode_len();
    if an == 0 {
        return b.to_owned();
    }
    if bn == 0 {
        return a.to_owned();
    }
    let mut r = a.to_owned();
    if a.get_char(an - 1) != '/' {
        r.push('/');
        assert(r@ =~= a@ + seq!['/']);
    }
    r.append(b);
    r
}

// ---------------------------------------------------------------------------
// Lexical normalization: empty and `.` components vanish, `..` pops the
// component before it, the root is never popped.  Purely textual.
// ---------------------------------------------------------------------------

pub open spec fn spec_collapse_from(parts: Seq<Seq<char>>, i: int, acc: Seq<Seq<char>>) -> Seq<
    Seq<char>,
>
    decreases parts.len() - i,
{
    if i < 0 || i >= parts.len() {
        acc
    } else {
        let p = parts[i];
        if p.len() == 0 || p == seq!['.'] {
            spec_collapse_from(parts, i + 1, acc)
        } else if p == seq!['.', '.'] {
            spec_collapse_from(parts, i + 1, if acc.len() > 0 {
                acc.drop_last()
            } else {
                acc
            })
        } else {
            spec_collapse_from(parts, i + 1, acc.push(p))
        }
    }
}

/// The components joined back together with `'/'`.
pub open spec fn spec_join_comps(comps: Seq<Seq<char>>) -> Seq<char>
    decreases comps.len(),
{
    if comps.len() == 0 {
        Seq::empty()
    } else if comps.len() == 1 {
        comps[0]
    } else {
        spec_join_comps(comps.drop_last()) + seq!['/'] + comps.last()
    }
}

pub open spec fn spec_render_path(abs: bool, comps: Seq<Seq<char>>) -> Seq<char> {
    if abs {
        seq!['/'] + spec_join_comps(comps)
    } else {
        spec_join_comps(comps)
    }
}

/// Lexical collapse of `.` and `..` components of a `'/'`-separated path.
pub open spec fn spec_normalize_path(p: Seq<char>) -> Seq<char> {
    spec_render_path(
        spec_is_abs(p),
        spec_collapse_from(spec_split(p, '/'), 0, Seq::empty()),
    )
}

fn collapse_parts(parts: &Vec<String>) -> (r: Vec<String>)
    ensures
        r.deep_view() == spec_collapse_from(parts.deep_view(), 0, Seq::empty()),
{
    let ghost pv = parts.deep_view();
    let mut acc: Vec<String> = Vec::new();
    let mut i: usize = 0;
    let n = parts.len();
    proof {
        assert(acc.deep_view() =~~= Seq::<Seq<char>>::empty());
    }
    while i < n
        invariant
            n == parts.len(),
            i <= n,
            parts.deep_view() == pv,
            spec_collapse_from(pv, 0, Seq::empty()) == spec_collapse_from(
                pv,
                i as int,
                acc.deep_view(),
            ),
        decreases n - i,
    {
        let ghost acc0 = acc.deep_view();
        let p = &parts[i];
        assert(p@ == pv[i as int]);
        proof {
            reveal_strlit(".");
            reveal_strlit("..");
            assert("."@ =~= seq!['.']);
            assert(".."@ =~= seq!['.', '.']);
        }
        if p.as_str().unicode_len() == 0 || str_eq(p.as_str(), ".") {
            // nothing
        } else if str_eq(p.as_str(), "..") {
            if acc.len() > 0 {
                let _ = acc.pop();
                proof {
                    assert(acc.deep_view() =~~= acc0.drop_last());
                }
            }
        } else {
            let item = p.clone();
            acc.push(item);
            proof {
                let lhs = acc.deep_view();
                let rhs = acc0.push(pv[i as int]);
                assert forall|j: int| 0 <= j < lhs.len() implies lhs[j] == rhs[j] by {
                    if j < acc0.len() {
                        assert(acc@[j]@ == acc0[j]);
                    }
                }
                assert(lhs =~~= rhs);
            }
        }
        i += 1;
    }
    acc
}

fn join_comps(comps: &Vec<String>) -> (r: String)
    ensures
        r@ == spec_join_comps(comps.deep_view()),
{
    let ghost cv = comps.deep_view();
    let mut res = String::new();
    let n = comps.len();
    if n == 0 {
        assert(res@ =~= spec_join_comps(cv));
        return res;
    }
    res.append(comps[0].as_str());
    let mut i: usize = 1;
    proof {
        assert(Seq::<char>::empty() + cv[0] =~= cv[0]);
        assert(cv.subrange(0, 1).len() == 1);
        assert(cv.subrange(0, 1)[0] == cv[0]);
        assert(res@ == spec_join_comps(cv.subrange(0, 1)));
    }
    while i < n
        invariant
            n == comps.len(),
            1 <= i <= n,
            comps.deep_view() == cv,
            res@ == spec_join_comps(cv.subrange(0, i as int)),
        decreases n - i,
    {
        let ghost res0 = res@;
        res.push('/');
        res.append(comps[i].as_str());
        proof {
            let pre = cv.subrange(0, i as int);
            let pre1 = cv.subrange(0, i + 1);
            assert(pre1.drop_last() =~~= pre);
            assert(pre1.last() == cv[i as int]);
            assert(pre1.len() >= 2);
            assert(res@ =~= res0 + seq!['/'] + cv[i as int]);
        }
        i += 1;
    }
    proof {
        assert(cv.subrange(0, n as int) =~~= cv);
    }
    res
}

/// Collapses `.` and `..` components of a path without touching the
/// filesystem; the root component passes through unchanged.
pub fn strip_special_components(input: &str) -> (r: String)
    ensures
        r@ == spec_normalize_path(input@),
{
    let n = input.unicode_len();
    let abs = n > 0 && input.get_char(0) == '/';
    let parts = str_split(input, '/');
    let comps = collapse_parts(&parts);
    let joined = join_comps(&comps);
    if abs {
        let mut res = String::new();
        res.push('/');
        res.append(joined.as_str());
        proof {
            assert(res@ =~= seq!['/'] + joined@);
        }
        res
    } else {
        joined
    }
}

// ---------------------------------------------------------------------------
// The resolver itself
// ---------------------------------------------------------------------------

/// What a raw directory value resolves to: quotes removed, the user-data and
/// user-config tokens replaced by the injected platform directories,
/// separators normalized, relative values joined below the declaring
/// directory, and `.`/`..` collapsed.
pub open spec fn spec_resolve(
    base: Seq<char>,
    value: Seq<char>,
    user_data: Seq<char>,
    user_config: Seq<char>,
) -> Seq<char> {
    let unq = spec_unquote(value);
    let sub = if spec_starts_with(unq, "?userdata?"@) {
        spec_join(user_data, spec_strip_lead_seps(unq.subrange("?userdata?"@.len() as int, unq.len() as int)))
    } else if spec_starts_with(unq, "?userconfig?"@) {
        spec_join(
            user_config,
            spec_strip_lead_seps(unq.subrange("?userconfig?"@.len() as int, unq.len() as int)),
        )
    } else {
        unq
    };
    let nrm = spec_norm_seps(sub);
    let joined = if spec_is_abs(nrm) {
        nrm
    } else {
        spec_join(base, nrm)
    };
    spec_normalize_path(joined)
}

/// Whether the (unquoted) value begins with one of the two path tokens.
pub open spec fn spec_has_token(value: Seq<char>) -> bool {
    spec_starts_with(spec_unquote(value), "?userdata?"@) || spec_starts_with(
        spec_unquote(value),
        "?userconfig?"@,
    )
}

/// A value without a token resolves the same way whatever the platform
/// directories are.
pub proof fn lemma_resolve_no_token(
    base: Seq<char>,
    value: Seq<char>,
    user_data: Seq<char>,
    user_config: Seq<char>,
)
    ensures
        !spec_has_token(value) ==> spec_resolve(base, value, user_data, user_config)
            == spec_resolve(base, value, Seq::<char>::empty(), Seq::<char>::empty()),
{
}

/// A value resolved against an absolute base is itself absolute, whatever
/// the value says: resolution never yields a relative path.
pub proof fn lemma_resolve_absolute(
    base: Seq<char>,
    value: Seq<char>,
    user_data: Seq<char>,
    user_config: Seq<char>,
)
    requires
        spec_is_abs(base),
    ensures
        spec_is_abs(spec_resolve(base, value, user_data, user_config)),
{
    let unq = spec_unquote(value);
    let sub = if spec_starts_with(unq, "?userdata?"@) {
        spec_join(
            user_data,
            spec_strip_lead_seps(unq.subrange("?userdata?"@.len() as int, unq.len() as int)),
        )
    } else if spec_starts_with(unq, "?userconfig?"@) {
        spec_join(
            user_config,
            spec_strip_lead_seps(unq.subrange("?userconfig?"@.len() as int, unq.len() as int)),
        )
    } else {
        unq
    };
    let nrm = spec_norm_seps(sub);
    let joined = if spec_is_abs(nrm) {
        nrm
    } else {
        spec_join(base, nrm)
    };
    assert(spec_is_abs(joined)) by {
        if !spec_is_abs(nrm) {
            if nrm.len() == 0 {
                assert(joined == base);
            } else if base.last() == '/' {
                assert(joined[0] == base[0]);
            } else {
                assert(joined[0] == (base + seq!['/'])[0]);
            }
        }
    }
    let comps = spec_collapse_from(spec_split(joined, '/'), 0, Seq::empty());
    assert(spec_render_path(true, comps)[0] == '/');
}

/// Resolves one raw directory value against the directory of the file that
/// declared it, with the two injected platform directories standing in for
/// the `?userdata?` and `?userconfig?` tokens.
pub fn parse_data_directory(
    config_dir: &str,
    data_dir: &str,
    user_data: &str,
    user_config: &str,
) -> (r: String)
    ensures
        r@ == spec_resolve(config_dir@, data_dir@, user_data@, user_config@),
{
    let unq = unquote(data_dir);
    let un = unq.as_str().unicode_len();
    let sub: String = if str_starts_with(unq.as_str(), "?userdata?") {
        proof {
            reveal_strlit("?userdata?");
        }
        let suffix = unq.as_str().substring_char(10, un);
        join_path(user_data, strip_lead_seps(suffix))
    } else if str_starts_with(unq.as_str(), "?userconfig?") {
        proof {
            reveal_strlit("?userconfig?");
        }
        let suffix = unq.as_str().substring_char(12, un);
        join_path(user_config, strip_lead_seps(suffix))
    } else {
        unq
    };
    let nrm = norm_seps(sub.as_str());
    let nn = nrm.as_str().unicode_len();
    let joined: String = if nn > 0 && nrm.as_str().get_char(0) == '/' {
        nrm
    } else {
        join_path(config_dir, nrm.as_str())
    };
    strip_special_components(joined.as_str())
}

// ---------------------------------------------------------------------------
// Parent directory (lexical, as `Path::parent` behaves)
// ---------------------------------------------------------------------------

/// The components `Path::components` keeps: empty pieces vanish, and `.`
/// vanishes except as the head of a relative path.
pub open spec fn spec_path_comps_from(parts: Seq<Seq<char>>, i: int, acc: Seq<Seq<char>>, abs: bool) -> Seq<Seq<char>>
    decreases parts.len() - i,
{
    if i < 0 || i >= parts.len() {
        acc
    } else {
        let p = parts[i];
        if p.len() == 0 || (p == seq!['.'] && (abs || acc.len() > 0)) {
            spec_path_comps_from(parts, i + 1, acc, abs)
        } else {
            spec_path_comps_from(parts, i + 1, acc.push(p), abs)
        }
    }
}

/// The path one component up, if there is one.
pub open spec fn spec_parent(p: Seq<char>) -> Option<Seq<char>> {
    let abs = spec_is_abs(p);
    let comps = spec_path_comps_from(spec_split(p, '/'), 0, Seq::empty(), abs);
    if comps.len() == 0 {
        None
    } else {
        Some(spec_render_path(abs, comps.drop_last()))
    }
}

pub fn parent_dir(p: &str) -> (r: Option<String>)
    ensures
        match r {
            Some(s) => spec_parent(p@) == Some(s@),
            None => spec_parent(p@) is None,
        },
{
    let n = p.unicode_len();
    let abs = n > 0 && p.get_char(0) == '/';
    let parts = str_split(p, '/');
    let ghost pv = parts.deep_view();
    let mut acc: Vec<String> = Vec::new();
    let mut i: usize = 0;
    let pn = parts.len();
    proof {
        assert(acc.deep_view() =~~= Seq::<Seq<char>>::empty());
    }
    while i < pn
        invariant
            pn == parts.len(),
            i <= pn,
            parts.deep_view() == pv,
            spec_path_comps_from(pv, 0, Seq::empty(), abs) == spec_path_comps_from(
                pv,
                i as int,
                acc.deep_view(),
                abs,
            ),
        decreases pn - i,
    {
        let ghost acc0 = acc.deep_view();
        let part = &parts[i];
        assert(part@ == pv[i as int]);
        proof {
            reveal_strlit(".");
            assert("."@ =~= seq!['.']);
        }
        if part.as_str().unicode_len() == 0 || (str_eq(part.as_str(), ".") && (abs || acc.len()
            > 0)) {
            // dropped
        } else {
            let item = part.clone();
            acc.push(item);
            proof {
                let lhs = acc.deep_view();
                let rhs = acc0.push(pv[i as int]);
                assert forall|j: int| 0 <= j < lhs.len() implies lhs[j] == rhs[j] by {
                    if j < acc0.len() {
                        assert(acc@[j]@ == acc0[j]);
                    }
                }
                assert(lhs =~~= rhs);
            }
        }
        i += 1;
    }
    if acc.len() == 0 {
        return None;
    }
    let _ = acc.pop();
    proof {
        assert(acc.deep_view() =~~= spec_path_comps_from(pv, 0, Seq::empty(), abs).drop_last());
    }
    let joined = join_comps(&acc);
    if abs {
        let mut res = String::new();
        res.push('/');
        res.append(joined.as_str());
        proof {
            assert(res@ =~= seq!['/'] + joined@);
        }
        Some(res)
    } else {
        Some(joined)
    }
}

} // verus!
