//! Turning what someone types in the Retrieve or Save As box into a path.
//!
//! A bare name lands in the writing folder; anything with a slash or a
//! tilde is read as a path, the way a shell would. Sandboxed, that last
//! part has to be fenced: the sandbox would happily "save" a file into
//! the container where the user will never find it, so a path that
//! leaves the writing folder is refused out loud instead.
//!
//! Paths are Unix paths held as strings; `.` and `..` are resolved
//! lexically, without touching the disk.

use vstd::prelude::*;
use crate::text::{is_space, space, chars_of, string_of};

verus! {

#[derive(Clone, Copy, Debug, PartialEq, Eq, Structural)]
pub enum Error {
    /// Sandboxed, and the path points outside the writing folder.
    Outside,
    /// Nothing but whitespace was typed.
    Empty,
}

/// `s` without leading whitespace.
pub open spec fn trim_start(s: Seq<char>) -> Seq<char>
    decreases s.len(),
{
    if s.len() > 0 && is_space(s[0]) {
        trim_start(s.drop_first())
    } else {
        s
    }
}

/// `s` without trailing whitespace.
pub open spec fn trim_end(s: Seq<char>) -> Seq<char>
    decreases s.len(),
{
    if s.len() > 0 && is_space(s.last()) {
        trim_end(s.drop_last())
    } else {
        s
    }
}

/// `s` without surrounding whitespace, as `str::trim` gives it.
pub open spec fn trim(s: Seq<char>) -> Seq<char> {
    trim_end(trim_start(s))
}

/// `s` cut at every `/`.
pub open spec fn split_slash(s: Seq<char>) -> Seq<Seq<char>>
    decreases s.len(),
{
    if s.len() == 0 {
        seq![Seq::empty()]
    } else {
        let rest = split_slash(s.drop_last());
        if s.last() == '/' {
            rest.push(Seq::empty())
        } else {
            rest.update(rest.len() - 1, rest.last().push(s.last()))
        }
    }
}

pub open spec fn is_abs(s: Seq<char>) -> bool {
    s.len() > 0 && s[0] == '/'
}

/// The components left after resolving `parts` in order: empty parts and
/// `.` vanish, `..` takes back the last component (and is dropped where
/// there is none), anything else is a component.
pub open spec fn normal(parts: Seq<Seq<char>>) -> Seq<Seq<char>>
    decreases parts.len(),
{
    if parts.len() == 0 {
        Seq::empty()
    } else {
        let out = normal(parts.drop_last());
        let p = parts.last();
        if p.len() == 0 || p == seq!['.'] {
            out
        } else if p == seq!['.', '.'] {
            if out.len() > 0 { out.drop_last() } else { out }
        } else {
            out.push(p)
        }
    }
}

/// Components joined by `/`.
pub open spec fn join_comps(comps: Seq<Seq<char>>) -> Seq<char>
    decreases comps.len(),
{
    if comps.len() == 0 {
        Seq::empty()
    } else if comps.len() == 1 {
        comps[0]
    } else {
        join_comps(comps.drop_last()) + seq!['/'] + comps.last()
    }
}

/// A path from whether it is absolute and its components.
pub open spec fn render(abs: bool, comps: Seq<Seq<char>>) -> Seq<char> {
    if abs {
        seq!['/'] + join_comps(comps)
    } else {
        join_comps(comps)
    }
}

/// The raw path a typed value names, before resolving: `(absolute,
/// parts)`. `~/` means the home folder (or the writing folder when no
/// home is known); an absolute path stands as given; anything else is
/// taken relative to the writing folder.
pub open spec fn joined(base: Seq<char>, home: Option<Seq<char>>, v: Seq<char>) -> (bool, Seq<Seq<char>>) {
    if v.len() >= 2 && v[0] == '~' && v[1] == '/' {
        let rest = v.skip(2);
        let root = match home {
            Some(h) => h,
            None => base,
        };
        if is_abs(rest) {
            (true, split_slash(rest))
        } else {
            (is_abs(root), split_slash(root) + split_slash(rest))
        }
    } else if is_abs(v) {
        (true, split_slash(v))
    } else {
        (is_abs(base), split_slash(base) + split_slash(v))
    }
}

/// What `resolve` answers for a typed value.
pub open spec fn resolve_spec(base: Seq<char>, home: Option<Seq<char>>, value: Seq<char>, fenced: bool) -> Result<Seq<char>, Error> {
    let v = trim(value);
    if v.len() == 0 {
        Err(Error::Empty)
    } else {
        let (abs, parts) = joined(base, home, v);
        let comps = normal(parts);
        let bc = normal(split_slash(base));
        if fenced && !(abs == is_abs(base) && bc.len() <= comps.len() && comps.take(bc.len() as int) == bc) {
            Err(Error::Outside)
        } else {
            Ok(render(abs, comps))
        }
    }
}

fn trim_chars(s: &Vec<char>) -> (v: Vec<char>)
    ensures
        v@ == trim(s@),
{
    let mut i: usize = 0;
    proof {
        assert(s@.skip(0) =~= s@);
    }
    while i < s.len() && space(s[i])
        invariant
            i <= s@.len(),
            trim_start(s@) == trim_start(s@.skip(i as int)),
        decreases s@.len() - i,
    {
        proof {
            assert(s@.skip(i as int).drop_first() =~= s@.skip(i + 1));
        }
        i = i + 1;
    }
    let mut j: usize = s.len();
    proof {
        assert(!(s@.skip(i as int).len() > 0 && is_space(s@.skip(i as int)[0])));
        assert(s@.skip(i as int) =~= s@.subrange(i as int, j as int));
    }
    while j > i && space(s[j - 1])
        invariant
            i <= j <= s@.len(),
            trim(s@) == trim_end(s@.subrange(i as int, j as int)),
        decreases j,
    {
        proof {
            assert(s@.subrange(i as int, j as int).drop_last() =~= s@.subrange(i as int, j - 1));
        }
        j = j - 1;
    }
    let mut v: Vec<char> = Vec::new();
    let mut k = i;
    while k < j
        invariant
            i <= k <= j <= s@.len(),
            v@ == s@.subrange(i as int, k as int),
        decreases j - k,
    {
        v.push(s[k]);
        k = k + 1;
        proof {
            assert(v@ =~= s@.subrange(i as int, k as int));
        }
    }
    v
}

proof fn lemma_split_nonempty(s: Seq<char>)
    ensures
        split_slash(s).len() > 0,
    decreases s.len(),
{
    if s.len() > 0 {
        lemma_split_nonempty(s.drop_last());
    }
}

/// Appends the `/`-separated parts of `s[from..]` to `parts`.
fn push_parts(parts: &mut Vec<Vec<char>>, s: &Vec<char>, from: usize)
    requires
        from <= s@.len(),
    ensures
        final(parts)@.len() == old(parts)@.len() + split_slash(s@.skip(from as int)).len(),
        forall|k: int| 0 <= k < old(parts)@.len() ==> (#[trigger] final(parts)@[k]) == old(parts)@[k],
        forall|k: int| 0 <= k < split_slash(s@.skip(from as int)).len() ==> (#[trigger] final(parts)@[old(parts)@.len() + k])@
            == split_slash(s@.skip(from as int))[k],
{
    let ghost t = s@.skip(from as int);
    let ghost n0 = parts@.len();
    parts.push(Vec::new());
    let mut i = from;
    proof {
        assert(t.take(0) =~= Seq::<char>::empty());
    }
    while i < s.len()
        invariant
            from <= i <= s@.len(),
            t == s@.skip(from as int),
            parts@.len() == n0 + split_slash(t.take(i - from)).len(),
            forall|k: int| 0 <= k < n0 ==> (#[trigger] parts@[k]) == old(parts)@[k],
            forall|k: int| 0 <= k < split_slash(t.take(i - from)).len() ==> (#[trigger] parts@[n0 + k])@
                == split_slash(t.take(i - from))[k],
        decreases s@.len() - i,
    {
        proof {
            assert(t.take(i + 1 - from).drop_last() =~= t.take(i - from));
            assert(t.take(i + 1 - from).last() == s@[i as int]);
            lemma_split_nonempty(t.take(i - from));
        }
        if s[i] == '/' {
            parts.push(Vec::new());
        } else {
            let n = parts.len();
            let mut last = parts.pop().unwrap();
            last.push(s[i]);
            parts.push(last);
            proof {
                let rest = split_slash(t.take(i - from));
                assert forall|k: int| 0 <= k < split_slash(t.take(i + 1 - from)).len() implies (#[trigger] parts@[n0
                    + k])@ == split_slash(t.take(i + 1 - from))[k] by {
                    if k < rest.len() - 1 {
                        assert(parts@[n0 + k] == parts@[n0 + k]);
                    }
                }
            }
        }
        i = i + 1;
    }
    proof {
        assert(t.take(i - from) =~= t);
    }
}

/// An optional string's characters.
pub open spec fn str_opt(o: Option<&str>) -> Option<Seq<char>> {
    match o {
        Some(h) => Some(h@),
        None => None,
    }
}

/// The views of a list of character vectors.
pub open spec fn views(v: Seq<Vec<char>>) -> Seq<Seq<char>> {
    Seq::new(v.len(), |i: int| v[i]@)
}

fn copy_chars(v: &Vec<char>) -> (r: Vec<char>)
    ensures
        r@ == v@,
{
    let mut r: Vec<char> = Vec::new();
    let mut i: usize = 0;
    while i < v.len()
        invariant
            i <= v@.len(),
            r@ == v@.take(i as int),
        decreases v@.len() - i,
    {
        r.push(v[i]);
        i = i + 1;
        proof {
            assert(r@ =~= v@.take(i as int));
        }
    }
    proof {
        assert(v@.take(i as int) =~= v@);
    }
    r
}

fn same_chars(a: &Vec<char>, b: &Vec<char>) -> (r: bool)
    ensures
        r == (a@ == b@),
{
    if a.len() != b.len() {
        return false;
    }
    let mut i: usize = 0;
    while i < a.len()
        invariant
            i <= a@.len(),
            a@.len() == b@.len(),
            forall|k: int| 0 <= k < i ==> a@[k] == b@[k],
        decreases a@.len() - i,
    {
        if a[i] != b[i] {
            return false;
        }
        i = i + 1;
    }
    proof {
        assert(a@ =~= b@);
    }
    true
}

/// Resolves `.` and `..` in `parts`.
fn normalize(parts: &Vec<Vec<char>>) -> (out: Vec<Vec<char>>)
    ensures
        views(out@) == normal(views(parts@)),
{
    let ghost pv = views(parts@);
    let mut out: Vec<Vec<char>> = Vec::new();
    let mut i: usize = 0;
    while i < parts.len()
        invariant
            i <= parts@.len(),
            pv == views(parts@),
            views(out@) == normal(pv.take(i as int)),
        decreases parts@.len() - i,
    {
        proof {
            assert(pv.take(i + 1).drop_last() =~= pv.take(i as int));
            assert(pv.take(i + 1).last() == parts@[i as int]@);
        }
        let p = &parts[i];
        let ghost before = out@;
        if p.len() == 0 || (p.len() == 1 && p[0] == '.') {
            proof {
                if p@.len() == 1 {
                    assert(p@ =~= seq!['.']);
                }
            }
        } else if p.len() == 2 && p[0] == '.' && p[1] == '.' {
            proof {
                assert(p@ =~= seq!['.', '.']);
            }
            if out.len() > 0 {
                out.pop();
                proof {
                    assert(views(out@) =~= views(before).drop_last());
                }
            }
        } else {
            proof {
                assert(p@ != seq!['.']);
                assert(p@ != seq!['.', '.']);
            }
            out.push(copy_chars(p));
            proof {
                assert(views(out@) =~= views(before).push(p@));
            }
        }
        i = i + 1;
    }
    proof {
        assert(pv.take(i as int) =~= pv);
    }
    out
}

/// `comps` joined by `/`, after a leading `/` for an absolute path.
fn render_path(abs: bool, comps: &Vec<Vec<char>>) -> (s: String)
    ensures
        s@ == render(abs, views(comps@)),
{
    let ghost cv = views(comps@);
    let mut v: Vec<char> = Vec::new();
    if abs {
        v.push('/');
    }
    let ghost start = v@;
    let mut i: usize = 0;
    while i < comps.len()
        invariant
            i <= comps@.len(),
            cv == views(comps@),
            v@ == start + join_comps(cv.take(i as int)),
        decreases comps@.len() - i,
    {
        proof {
            assert(cv.take(i + 1).drop_last() =~= cv.take(i as int));
            assert(cv.take(i + 1).last() == comps@[i as int]@);
            if i == 0 {
                assert(cv.take(1)[0] == cv.take(1).last());
            }
        }
        let ghost before = v@;
        if i > 0 {
            v.push('/');
        }
        let c = &comps[i];
        let mut k: usize = 0;
        let ghost mid = v@;
        while k < c.len()
            invariant
                k <= c@.len(),
                v@ == mid + c@.take(k as int),
            decreases c@.len() - k,
        {
            v.push(c[k]);
            k = k + 1;
            proof {
                assert(v@ =~= mid + c@.take(k as int));
            }
        }
        proof {
            assert(c@.take(k as int) =~= c@);
            assert(v@ =~= start + join_comps(cv.take(i + 1)));
        }
        i = i + 1;
    }
    proof {
        assert(cv.take(i as int) =~= cv);
        if !abs {
            assert(start =~= Seq::<char>::empty());
        }
        assert(v@ =~= render(abs, cv));
    }
    string_of(v.as_slice())
}

/// Whether `pre` is a leading run of `comps`.
fn comps_prefix(pre: &Vec<Vec<char>>, comps: &Vec<Vec<char>>) -> (r: bool)
    ensures
        r == (views(pre@).len() <= views(comps@).len() && views(comps@).take(views(pre@).len() as int)
            == views(pre@)),
{
    if pre.len() > comps.len() {
        return false;
    }
    let mut i: usize = 0;
    while i < pre.len()
        invariant
            i <= pre@.len() <= comps@.len(),
            forall|k: int| 0 <= k < i ==> pre@[k]@ == comps@[k]@,
        decreases pre@.len() - i,
    {
        if !same_chars(&pre[i], &comps[i]) {
            proof {
                assert(views(comps@).take(views(pre@).len() as int)[i as int] != views(pre@)[i as int]);
            }
            return false;
        }
        i = i + 1;
    }
    proof {
        assert(views(comps@).take(views(pre@).len() as int) =~= views(pre@));
    }
    true
}

fn is_abs_chars(v: &Vec<char>, from: usize) -> (b: bool)
    requires
        from <= v@.len(),
    ensures
        b == is_abs(v@.skip(from as int)),
{
    from < v.len() && v[from] == '/'
}

/// `base` is the writing folder, `home` the user's home directory when
/// one is known, and `fenced` whether paths must stay under `base`.
pub fn resolve(base: &str, home: Option<&str>, value: &str, fenced: bool) -> (r: Result<String, Error>)
    ensures
        match r {
            Ok(p) => resolve_spec(base@, str_opt(home), value@, fenced) == Ok::<Seq<char>, Error>(p@),
            Err(e) => resolve_spec(base@, str_opt(home), value@, fenced) == Err::<Seq<char>, Error>(e),
        },
{
    let ghost hv: Option<Seq<char>> = str_opt(home);
    let raw = chars_of(value);
    let v = trim_chars(&raw);
    if v.len() == 0 {
        return Err(Error::Empty);
    }
    let b = chars_of(base);
    proof {
        assert(b@.skip(0) =~= b@);
        assert(v@.skip(0) =~= v@);
    }
    let mut parts: Vec<Vec<char>> = Vec::new();
    let abs: bool;
    let ghost first: Seq<Seq<char>>;
    let ghost second: Seq<Seq<char>>;
    if v.len() >= 2 && v[0] == '~' && v[1] == '/' {
        let root = match home {
            Some(h) => chars_of(h),
            None => chars_of(base),
        };
        proof {
            assert(root@.skip(0) =~= root@);
        }
        if is_abs_chars(&v, 2) {
            abs = true;
            push_parts(&mut parts, &v, 2);
            proof {
                first = split_slash(v@.skip(2));
                second = Seq::empty();
            }
        } else {
            abs = is_abs_chars(&root, 0);
            push_parts(&mut parts, &root, 0);
            push_parts(&mut parts, &v, 2);
            proof {
                first = split_slash(root@);
                second = split_slash(v@.skip(2));
            }
        }
    } else if is_abs_chars(&v, 0) {
        abs = true;
        push_parts(&mut parts, &v, 0);
        proof {
            first = split_slash(v@);
            second = Seq::empty();
        }
    } else {
        abs = is_abs_chars(&b, 0);
        push_parts(&mut parts, &b, 0);
        push_parts(&mut parts, &v, 0);
        proof {
            first = split_slash(b@);
            second = split_slash(v@);
        }
    }
    let ghost j = joined(base@, hv, v@);
    proof {
        assert(j.0 == abs);
        assert(first + second =~= j.1);
        assert(parts@.len() == first.len() + second.len());
        assert forall|k: int| 0 <= k < parts@.len() implies #[trigger] views(parts@)[k] == (first + second)[k] by {
            if k >= first.len() {
                let q = k - first.len();
                assert(parts@[first.len() + q]@ == second[q]);
            } else {
                assert(parts@[0 + k]@ == first[k]);
            }
        }
        assert(views(parts@) =~= j.1);
    }
    let comps = normalize(&parts);
    let mut base_parts: Vec<Vec<char>> = Vec::new();
    push_parts(&mut base_parts, &b, 0);
    proof {
        assert forall|k: int| 0 <= k < base_parts@.len() implies #[trigger] views(base_parts@)[k] == split_slash(base@)[k] by {
            assert(base_parts@[0 + k]@ == split_slash(b@.skip(0))[k]);
        }
        assert(views(base_parts@) =~= split_slash(base@));
    }
    let base_comps = normalize(&base_parts);
    if fenced && !(abs == is_abs_chars(&b, 0) && comps_prefix(&base_comps, &comps)) {
        return Err(Error::Outside);
    }
    Ok(render_path(abs, &comps))
}

/// The fence only ever refuses: a fenced name that resolves lands where
/// it would unfenced, inside the writing folder, and a refused one is
/// refused for leaving it. Unfenced, nothing is refused for that.
pub proof fn law_the_fence_only_refuses(base: Seq<char>, home: Option<Seq<char>>, value: Seq<char>)
    ensures
        resolve_spec(base, home, value, true) is Ok ==> resolve_spec(base, home, value, true) == resolve_spec(base, home, value, false),
        resolve_spec(base, home, value, true) is Ok ==> {
            let (abs, parts) = joined(base, home, trim(value));
            let bc = normal(split_slash(base));
            &&& abs == is_abs(base)
            &&& bc.len() <= normal(parts).len()
            &&& normal(parts).take(bc.len() as int) == bc
        },
        resolve_spec(base, home, value, true) is Err ==> resolve_spec(base, home, value, false) is Ok
            ==> resolve_spec(base, home, value, true) == Err::<Seq<char>, Error>(Error::Outside),
        resolve_spec(base, home, value, false) != Err::<Seq<char>, Error>(Error::Outside),
{
}

/// Only a name of nothing but whitespace is empty, fenced or not.
pub proof fn law_only_whitespace_is_empty(base: Seq<char>, home: Option<Seq<char>>, value: Seq<char>, fenced: bool)
    ensures
        resolve_spec(base, home, value, fenced) == Err::<Seq<char>, Error>(Error::Empty) <==> trim(value).len() == 0,
{
}

/// `c` holds no `/`.
pub open spec fn no_slash(c: Seq<char>) -> bool {
    forall|i: int| 0 <= i < c.len() ==> c[i] != '/'
}

/// A component a normal path can hold: not empty, not `.` or `..`, and
/// without a `/`.
pub open spec fn proper(c: Seq<char>) -> bool {
    c.len() > 0 && c != seq!['.'] && c != seq!['.', '.'] && no_slash(c)
}

proof fn lemma_split_parts(s: Seq<char>)
    ensures
        split_slash(s).len() >= 1,
        forall|i: int| 0 <= i < split_slash(s).len() ==> no_slash(#[trigger] split_slash(s)[i]),
    decreases s.len(),
{
    if s.len() > 0 {
        lemma_split_parts(s.drop_last());
        let rest = split_slash(s.drop_last());
        if s.last() != '/' {
            let last = rest.last().push(s.last());
            assert(no_slash(last)) by {
                assert(no_slash(rest[rest.len() - 1]));
            }
        }
    }
}

proof fn lemma_split_plain(s: Seq<char>)
    requires
        no_slash(s),
    ensures
        split_slash(s) == seq![s],
    decreases s.len(),
{
    if s.len() > 0 {
        let d = s.drop_last();
        assert(no_slash(d)) by {
            assert forall|i: int| 0 <= i < d.len() implies d[i] != '/' by {
                assert(d[i] == s[i]);
            }
        }
        assert(s.last() != '/') by {
            assert(s[s.len() - 1] != '/');
        }
        lemma_split_plain(d);
        assert(d.push(s.last()) =~= s);
        let rest = split_slash(d);
        assert(rest.update(rest.len() - 1, rest.last().push(s.last())) =~= seq![s]);
    } else {
        assert(s =~= Seq::<char>::empty());
    }
}

proof fn lemma_split_concat(x: Seq<char>, y: Seq<char>)
    ensures
        split_slash(x + seq!['/'] + y) == split_slash(x) + split_slash(y),
    decreases y.len(),
{
    let xs = x + seq!['/'];
    if y.len() == 0 {
        assert(xs + y =~= xs);
        assert(xs.drop_last() =~= x);
        assert(split_slash(x) + split_slash(y) =~= split_slash(x).push(Seq::empty()));
    } else {
        lemma_split_concat(x, y.drop_last());
        lemma_split_parts(y.drop_last());
        assert((xs + y).drop_last() =~= xs + y.drop_last());
        assert((xs + y).last() == y.last());
        let a = split_slash(x);
        let b = split_slash(y.drop_last());
        if y.last() == '/' {
            assert((a + b).push(Seq::empty()) =~= a + b.push(Seq::empty()));
        } else {
            let ab = a + b;
            assert(ab.last() == b.last());
            assert(ab.update(ab.len() - 1, ab.last().push(y.last())) =~= a + b.update(b.len() - 1, b.last().push(y.last())));
        }
    }
}

proof fn lemma_split_join(comps: Seq<Seq<char>>)
    requires
        comps.len() >= 1,
        forall|i: int| 0 <= i < comps.len() ==> no_slash(#[trigger] comps[i]),
    ensures
        split_slash(join_comps(comps)) == comps,
    decreases comps.len(),
{
    if comps.len() == 1 {
        lemma_split_plain(comps[0]);
        assert(seq![comps[0]] =~= comps);
    } else {
        let d = comps.drop_last();
        lemma_split_join(d);
        lemma_split_concat(join_comps(d), comps.last());
        lemma_split_plain(comps.last());
        assert(d + seq![comps.last()] =~= comps);
    }
}

proof fn lemma_normal_keeps(comps: Seq<Seq<char>>)
    requires
        forall|i: int| 0 <= i < comps.len() ==> proper(#[trigger] comps[i]),
    ensures
        normal(comps) == comps,
        normal(seq![Seq::<char>::empty()] + comps) == comps,
    decreases comps.len(),
{
    if comps.len() > 0 {
        let d = comps.drop_last();
        lemma_normal_keeps(d);
        assert(proper(comps.last()));
        assert(d.push(comps.last()) =~= comps);
        let e = seq![Seq::<char>::empty()] + comps;
        assert(e.drop_last() =~= seq![Seq::<char>::empty()] + d);
        assert(e.last() == comps.last());
    } else {
        let e = seq![Seq::<char>::empty()] + comps;
        assert(e.drop_last() =~= Seq::<Seq<char>>::empty());
    }
}

proof fn lemma_normal_proper(parts: Seq<Seq<char>>)
    requires
        forall|i: int| 0 <= i < parts.len() ==> no_slash(#[trigger] parts[i]),
    ensures
        forall|i: int| 0 <= i < normal(parts).len() ==> proper(#[trigger] normal(parts)[i]),
    decreases parts.len(),
{
    if parts.len() > 0 {
        let d = parts.drop_last();
        assert forall|i: int| 0 <= i < d.len() implies no_slash(#[trigger] d[i]) by {
            assert(d[i] == parts[i]);
        }
        lemma_normal_proper(d);
        assert(no_slash(parts[parts.len() - 1]));
        let out = normal(d);
        let q = parts.last();
        assert forall|i: int| 0 <= i < normal(parts).len() implies proper(#[trigger] normal(parts)[i]) by {
            if q.len() == 0 || q == seq!['.'] {
                assert(normal(parts)[i] == out[i]);
            } else if q == seq!['.', '.'] {
                assert(normal(parts)[i] == out[i]);
            } else if i < out.len() {
                assert(normal(parts)[i] == out[i]);
            } else {
                assert(normal(parts)[i] == q);
            }
        }
    }
}

proof fn lemma_join_first(comps: Seq<Seq<char>>)
    requires
        comps.len() >= 1,
        comps[0].len() > 0,
    ensures
        join_comps(comps).len() > 0,
        join_comps(comps)[0] == comps[0][0],
    decreases comps.len(),
{
    if comps.len() > 1 {
        lemma_join_first(comps.drop_last());
    }
}

/// A resolved path is already in normal form: no empty, `.` or `..`
/// component is left in it, so resolving it lexically again gives it
/// back unchanged.
pub proof fn law_a_resolved_path_is_already_normal(base: Seq<char>, home: Option<Seq<char>>, value: Seq<char>, fenced: bool)
    ensures
        resolve_spec(base, home, value, fenced) matches Ok(p) ==> render(is_abs(p), normal(split_slash(p))) == p,
{
    let v = trim(value);
    if v.len() > 0 {
        let (abs, parts) = joined(base, home, v);
        let comps = normal(parts);
        let p = render(abs, comps);
        assert forall|i: int| 0 <= i < parts.len() implies no_slash(#[trigger] parts[i]) by {
            let rest = v.skip(2);
            let root = match home {
                Some(h) => h,
                None => base,
            };
            lemma_split_parts(rest);
            lemma_split_parts(root);
            lemma_split_parts(v);
            lemma_split_parts(base);
            if v.len() >= 2 && v[0] == '~' && v[1] == '/' {
                if !is_abs(rest) {
                    let a = split_slash(root);
                    if i >= a.len() {
                        assert(parts[i] == split_slash(rest)[i - a.len()]);
                    }
                }
            } else if !is_abs(v) {
                let a = split_slash(base);
                if i >= a.len() {
                    assert(parts[i] == split_slash(v)[i - a.len()]);
                }
            }
        }
        lemma_normal_proper(parts);
        lemma_normal_keeps(comps);
        if comps.len() == 0 {
            if abs {
                assert(seq!['/'] + join_comps(comps) =~= Seq::<char>::empty() + seq!['/'] + Seq::<char>::empty());
                lemma_split_concat(Seq::empty(), Seq::empty());
                assert(split_slash(p) =~= seq![Seq::<char>::empty(), Seq::<char>::empty()]);
                let one = seq![Seq::<char>::empty()];
                let two = seq![Seq::<char>::empty(), Seq::<char>::empty()];
                assert(two.drop_last() =~= one);
                assert(one.drop_last() =~= Seq::<Seq<char>>::empty());
                assert(normal(one) =~= Seq::<Seq<char>>::empty());
                assert(normal(two) =~= Seq::<Seq<char>>::empty());
            } else {
                assert(normal(seq![Seq::<char>::empty()]) =~= Seq::<Seq<char>>::empty());
            }
        } else {
            lemma_split_join(comps);
            lemma_join_first(comps);
            if abs {
                assert(p =~= Seq::<char>::empty() + seq!['/'] + join_comps(comps));
                lemma_split_concat(Seq::empty(), join_comps(comps));
                assert(split_slash(Seq::<char>::empty()) + comps =~= seq![Seq::<char>::empty()] + comps);
            } else {
                assert(comps[0][0] != '/');
            }
        }
    }
}

} // verus!
