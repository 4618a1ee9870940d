//! Lexical path model: paths are character sequences with `/` as separator.
use vstd::prelude::*;

verus! {

/// The segments of `s` between separators, empty ones included
/// (`"a//b"` has the segments `a`, ``, `b`).
pub open spec fn split_slash(s: Seq<char>) -> Seq<Seq<char>>
    decreases s.len(),
{
    if s.len() == 0 {
        seq![Seq::empty()]
    } else {
        let prev = split_slash(s.drop_last());
        if s.last() == '/' {
            prev.push(Seq::empty())
        } else {
            prev.update(prev.len() - 1, prev.last().push(s.last()))
        }
    }
}

/// A segment that names something: neither empty nor `.`.
pub open spec fn is_named(seg: Seq<char>) -> bool {
    seg.len() > 0 && seg != seq!['.']
}

/// The named segments of `segs`, in order.
pub open spec fn named(segs: Seq<Seq<char>>) -> Seq<Seq<char>>
    decreases segs.len(),
{
    if segs.len() == 0 {
        Seq::empty()
    } else if is_named(segs.last()) {
        named(segs.drop_last()).push(segs.last())
    } else {
        named(segs.drop_last())
    }
}

/// The leading component: `/` for a rooted path, `.` for one that starts
/// with a current-directory segment, none otherwise.
pub open spec fn lead(s: Seq<char>) -> Seq<Seq<char>> {
    if s.len() > 0 && s[0] == '/' {
        seq![seq!['/']]
    } else if split_slash(s)[0] == seq!['.'] {
        seq![seq!['.']]
    } else {
        Seq::empty()
    }
}

/// The components of a path, as a path library reports them: the root `/`
/// first where there is one, a leading `.` kept, separators collapsed, and
/// every other `.` dropped.
pub open spec fn components(s: Seq<char>) -> Seq<Seq<char>> {
    lead(s) + named(split_slash(s))
}

pub proof fn lemma_split_nonempty(s: Seq<char>)
    ensures
        split_slash(s).len() >= 1,
    decreases s.len(),
{
    if s.len() > 0 {
        lemma_split_nonempty(s.drop_last());
    }
}

/// The characters of `s`, one by one.
pub fn chars_of(s: &str) -> (r: Vec<char>)
    ensures
        r@ == s@,
{
    let mut out: Vec<char> = Vec::new();
    for c in it: s.chars()
        invariant
            it.seq() == s@,
            out@ == it.seq().take(it.index() as int),
    {
        out.push(c);
    }
    out
}

/// Whether a segment, given as `s[start..end]`, is `.`.
fn is_dot(chars: &Vec<char>, start: usize, end: usize) -> (r: bool)
    requires
        start <= end <= chars.len(),
    ensures
        r == (chars@.subrange(start as int, end as int) == seq!['.']),
{
    if end - start == 1 && chars[start] == '.' {
        assert(chars@.subrange(start as int, end as int) =~= seq!['.']);
        true
    } else {
        if end - start == 1 {
            assert(chars@.subrange(start as int, end as int)[0] == chars@[start as int]);
        } else {
            assert(chars@.subrange(start as int, end as int).len() != seq!['.'].len());
        }
        false
    }
}

/// The components of `s` (see [`components`]), as strings.
pub fn path_components(s: &str) -> (r: Vec<String>)
    ensures
        r@.map_values(|x: String| x@) == components(s@),
{
    let chars = chars_of(s);
    let n = chars.len();
    let mut kept: Vec<String> = Vec::new();
    let mut start: usize = 0;
    let mut i: usize = 0;
    let mut seen_slash = false;
    let mut first_is_dot = false;
    while i < n
        invariant
            n == chars.len(),
            chars@ == s@,
            start <= i <= n,
            split_slash(s@.take(i as int)).len() >= 1,
            split_slash(s@.take(i as int)).last() == s@.subrange(start as int, i as int),
            kept@.map_values(|x: String| x@) == named(split_slash(s@.take(i as int)).drop_last()),
            !seen_slash ==> split_slash(s@.take(i as int)).len() == 1 && start == 0,
            seen_slash ==> split_slash(s@.take(i as int)).len() >= 2 && first_is_dot == (
            split_slash(s@.take(i as int))[0] == seq!['.']),
        decreases n - i,
    {
        let ghost pre = s@.take(i as int);
        let ghost next = s@.take(i + 1);
        assert(next.drop_last() =~= pre);
        assert(next.last() == chars@[i as int]);
        if chars[i] == '/' {
            if !seen_slash {
                first_is_dot = is_dot(&chars, start, i);
            }
            if !is_dot(&chars, start, i) && start < i {
                let seg = String::from_str(s.substring_char(start, i));
                kept.push(seg);
            }
            proof {
                let sp = split_slash(pre);
                assert(split_slash(next) == sp.push(Seq::empty()));
                assert(split_slash(next).drop_last() =~= sp);
                assert(sp =~= sp.drop_last().push(sp.last()));
            }
            assert(kept@.map_values(|x: String| x@) =~= named(split_slash(next).drop_last()));
            seen_slash = true;
            start = i + 1;
            i = i + 1;
            assert(split_slash(s@.take(i as int)).last() =~= s@.subrange(start as int, i as int));
        } else {
            proof {
                let sp = split_slash(pre);
                let sn = split_slash(next);
                assert(sn == sp.update(sp.len() - 1, sp.last().push(next.last())));
                assert(sn.drop_last() =~= sp.drop_last());
                assert(sn.last() =~= s@.subrange(start as int, i + 1));
                if seen_slash {
                    assert(sn[0] == sp[0]);
                }
            }
            i = i + 1;
        }
    }
    assert(s@.take(n as int) =~= s@);
    let ghost sp = split_slash(s@);
    proof {
        assert(sp =~= sp.drop_last().push(sp.last()));
    }
    if !is_dot(&chars, start, n) && start < n {
        let seg = String::from_str(s.substring_char(start, n));
        kept.push(seg);
    }
    assert(kept@.map_values(|x: String| x@) =~= named(sp));
    let dot_first = if seen_slash { first_is_dot } else { is_dot(&chars, 0, n) };
    if !seen_slash {
        assert(chars@.subrange(0, n as int) =~= s@);
    }
    let mut out: Vec<String> = Vec::new();
    assert(dot_first == (sp[0] == seq!['.']));
    if n > 0 && chars[0] == '/' {
        assert(s@[0] == '/');
        proof { reveal_strlit("/"); }
        out.push(String::from_str("/"));
        assert(out@[0]@ =~= seq!['/']);
    } else if dot_first {
        proof { reveal_strlit("."); }
        out.push(String::from_str("."));
        assert(out@[0]@ =~= seq!['.']);
        assert(!(s@.len() > 0 && s@[0] == '/'));
    }
    assert(out@.map_values(|x: String| x@) =~= lead(s@)) by {
        if !(n > 0 && chars[0] == '/') && !dot_first {
            assert(!(s@.len() > 0 && s@[0] == '/'));
        }
    }
    out.append(&mut kept);
    assert(out@.map_values(|x: String| x@) =~= components(s@));
    out
}

/// A component that names a file or directory: not the root, `.` or `..`.
pub open spec fn is_normal(c: Seq<char>) -> bool {
    c != seq!['/'] && c != seq!['.'] && c != seq!['.', '.']
}

/// The final component of `s` where it is a name; none for a path that is
/// empty or ends in the root, `.` or `..`.
pub open spec fn file_name(s: Seq<char>) -> Option<Seq<char>> {
    let c = components(s);
    if c.len() > 0 && is_normal(c.last()) {
        Some(c.last())
    } else {
        None
    }
}

/// The path of `p` below `root`: empty for the root itself, none for a path
/// that does not lie under it.
pub open spec fn relative_to(root: Seq<char>, p: Seq<char>) -> Option<Seq<char>> {
    let n = root.len();
    if p == root {
        Some(Seq::empty())
    } else if n > 0 && root.last() == '/' {
        if p.len() > n && p.take(n as int) == root {
            Some(p.skip(n as int))
        } else {
            None
        }
    } else if p.len() > n + 1 && p.take(n as int) == root && p[n as int] == '/' {
        Some(p.skip(n as int + 1))
    } else {
        None
    }
}

/// `rel` placed under `name`: the name itself for an empty `rel`.
pub open spec fn joined(name: Seq<char>, rel: Seq<char>) -> Seq<char> {
    if rel.len() == 0 {
        name
    } else {
        name + seq!['/'] + rel
    }
}

fn is_normal_component(c: &String) -> (r: bool)
    ensures
        r == is_normal(c@),
{
    let s = c.as_str();
    let n = s.unicode_len();
    if n == 1 {
        let a = s.get_char(0);
        assert(a == '/' || a == '.' ==> c@ =~= seq![a]);
        assert(c@.len() != 2);
        a != '/' && a != '.'
    } else if n == 2 {
        let a = s.get_char(0);
        let b = s.get_char(1);
        assert(a == '.' && b == '.' ==> c@ =~= seq!['.', '.']);
        !(a == '.' && b == '.')
    } else {
        assert(c@.len() != 1 && c@.len() != 2);
        true
    }
}

/// The final component of `s` where it is a name (see [`file_name`]).
pub fn final_name(s: &str) -> (r: Option<String>)
    ensures
        r is Some <==> file_name(s@) is Some,
        r is Some ==> r->0@ == file_name(s@)->0,
{
    let mut comps = path_components(s);
    let ghost cv = comps@.map_values(|x: String| x@);
    match comps.pop() {
        Some(last) => {
            assert(cv.last() == last@);
            if is_normal_component(&last) {
                Some(last)
            } else {
                None
            }
        },
        None => None,
    }
}

/// Whether `chars` begins with `prefix`.
fn starts_with(chars: &Vec<char>, prefix: &Vec<char>) -> (r: bool)
    ensures
        r == (prefix.len() <= chars.len() && chars@.take(prefix.len() as int) == prefix@),
{
    if prefix.len() > chars.len() {
        return false;
    }
    let mut i: usize = 0;
    while i < prefix.len()
        invariant
            prefix.len() <= chars.len(),
            i <= prefix.len(),
            chars@.take(i as int) == prefix@.take(i as int),
        decreases prefix.len() - i,
    {
        if chars[i] != prefix[i] {
            assert(chars@.take(prefix.len() as int)[i as int] != prefix@[i as int]);
            return false;
        }
        i = i + 1;
        assert(chars@.take(i as int) =~= prefix@.take(i as int));
    }
    assert(prefix@.take(i as int) =~= prefix@);
    true
}

/// Where the part of `path` below `root` begins, if `path` lies under `root`.
fn relative_start(root: &Vec<char>, path: &Vec<char>) -> (r: Option<usize>)
    ensures
        r is Some <==> relative_to(root@, path@) is Some,
        r is Some ==> r->0 <= path.len() && relative_to(root@, path@)->0 == path@.skip(
            r->0 as int,
        ),
{
    let n = root.len();
    let same_start = starts_with(path, root);
    if same_start && path.len() == n {
        assert(path@ =~= root@);
        assert(path@.skip(n as int) =~= Seq::<char>::empty());
        return Some(n);
    }
    proof {
        if path@ == root@ {
            assert(path@.take(n as int) =~= root@);
        }
    }
    if n > 0 && root[n - 1] == '/' {
        if same_start && path.len() > n {
            Some(n)
        } else {
            None
        }
    } else if same_start && path.len() > n + 1 && path[n] == '/' {
        Some(n + 1)
    } else {
        None
    }
}

/// The name of `path` inside an archive whose entries live under
/// `root_name`: `root_name` for the root itself, `root_name/<relative>` for
/// a path below `root`, none for a path that is not under `root`.
pub fn archive_path(root: &str, root_name: &str, path: &str) -> (r: Option<String>)
    ensures
        r is Some <==> relative_to(root@, path@) is Some,
        r is Some ==> r->0@ == joined(root_name@, relative_to(root@, path@)->0),
{
    let root_chars = chars_of(root);
    let path_chars = chars_of(path);
    match relative_start(&root_chars, &path_chars) {
        None => None,
        Some(k) => {
            let n = path_chars.len();
            let mut out = String::from_str(root_name);
            if k < n {
                proof { reveal_strlit("/"); }
                out.append("/");
                out.append(path.substring_char(k, n));
                assert(path@.subrange(k as int, n as int) =~= path@.skip(k as int));
                assert(out@ =~= root_name@ + seq!['/'] + path@.skip(k as int));
            } else {
                assert(path@.skip(k as int).len() == 0);
            }
            Some(out)
        },
    }
}

/// Whether two texts are the same.
pub fn same_text(a: &str, b: &str) -> (r: bool)
    ensures
        r == (a@ == b@),
{
    let x = chars_of(a);
    let y = chars_of(b);
    if x.len() != y.len() {
        return false;
    }
    assert(x@.take(y.len() as int) =~= x@);
    starts_with(&x, &y)
}

} // verus!
