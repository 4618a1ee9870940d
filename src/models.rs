//! Branches and tags of a repository as the repository tool shows them.
use vstd::prelude::*;
use colored::Colorize;
use crate::order::{lemma_text_le_total, lemma_text_le_transitive, text_le, text_le_exec};
use crate::paths::{chars_of, same_text};

verus! {

broadcast use vstd::seq_lib::group_to_multiset_ensures;

/// Whether `s` holds the escape character that starts a terminal style.
pub open spec fn has_escape(s: Seq<char>) -> bool {
    s.contains('\u{1b}')
}

/// Relies on `colored::Colorize::green` and the `Display` of
/// `ColoredString`: with colouring off (a process-wide choice made from the
/// environment and the terminal) the text comes back as it is; with it on,
/// between the green style escape and the reset escape, and unchanged in
/// between where it holds no escape of its own.
#[verifier::external_body]
fn paint_green(s: &str) -> (r: String)
    ensures
        !has_escape(s@) ==> (r@ == s@ || r@ == "\u{1b}[32m"@ + s@ + "\u{1b}[0m"@),
{
    s.green().to_string()
}

/// Relies on `colored::Colorize::yellow` and the `Display` of
/// `ColoredString`, as `paint_green` does, with the yellow style escape.
#[verifier::external_body]
fn paint_yellow(s: &str) -> (r: String)
    ensures
        !has_escape(s@) ==> (r@ == s@ || r@ == "\u{1b}[33m"@ + s@ + "\u{1b}[0m"@),
{
    s.yellow().to_string()
}

pub open spec fn opt_view(o: Option<String>) -> Option<Seq<char>> {
    match o {
        Some(s) => Some(s@),
        None => None,
    }
}

fn text_or_dash(o: &Option<String>) -> (r: String)
    ensures
        r@ == match opt_view(*o) {
            Some(s) => s,
            None => "-"@,
        },
{
    match o {
        Some(s) => s.clone(),
        None => String::from_str("-"),
    }
}

/// A branch: its name, whether it is checked out, and its upstream.
pub struct BranchInfo {
    pub name: String,
    pub is_head: bool,
    pub upstream: Option<String>,
}

impl View for BranchInfo {
    type V = (Seq<char>, bool, Option<Seq<char>>);

    open spec fn view(&self) -> (Seq<char>, bool, Option<Seq<char>>) {
        (self.name@, self.is_head, opt_view(self.upstream))
    }
}

impl BranchInfo {
    pub fn new(name: String, is_head: bool, upstream: Option<String>) -> (r: BranchInfo)
        ensures
            r.name == name,
            r.is_head == is_head,
            r.upstream == upstream,
    {
        BranchInfo { name, is_head, upstream }
    }

    /// The name marked with `* ` and painted green for the checked-out
    /// branch, indented by two spaces otherwise.
    pub fn display_name(&self) -> (r: String)
        ensures
            !self.is_head ==> r@ == "  "@ + self.name@,
            self.is_head && !has_escape(self.name@) ==> (r@ == "* "@ + self.name@ || r@
                == "\u{1b}[32m"@ + ("* "@ + self.name@) + "\u{1b}[0m"@),
    {
        if self.is_head {
            let mut text = String::from_str("* ");
            text.append(self.name.as_str());
            proof {
                reveal_strlit("* ");
                assert(text@ == "* "@ + self.name@);
                if !has_escape(self.name@) && has_escape(text@) {
                    let k = choose|k: int| 0 <= k < text@.len() && text@[k] == '\u{1b}';
                    if k >= 2 {
                        assert(self.name@[k - 2] == '\u{1b}');
                    }
                }
            }
            paint_green(text.as_str())
        } else {
            let mut text = String::from_str("  ");
            text.append(self.name.as_str());
            text
        }
    }

    /// The upstream branch, or `-` when there is none.
    pub fn display_upstream(&self) -> (r: String)
        ensures
            r@ == match opt_view(self.upstream) {
                Some(s) => s,
                None => "-"@,
            },
    {
        text_or_dash(&self.upstream)
    }
}

/// A tag: its short name, the commit it points to, and its message.
pub struct TagInfo {
    pub name: String,
    pub commit: String,
    pub message: Option<String>,
}

impl View for TagInfo {
    type V = (Seq<char>, Seq<char>, Option<Seq<char>>);

    open spec fn view(&self) -> (Seq<char>, Seq<char>, Option<Seq<char>>) {
        (self.name@, self.commit@, opt_view(self.message))
    }
}

impl TagInfo {
    pub fn new(name: String, commit: String, message: Option<String>) -> (r: TagInfo)
        ensures
            r.name == name,
            r.commit == commit,
            r.message == message,
    {
        TagInfo { name, commit, message }
    }

    /// The name, painted green for a local tag.
    pub fn display_name(&self, is_local: bool) -> (r: String)
        ensures
            !is_local ==> r@ == self.name@,
            is_local && !has_escape(self.name@) ==> (r@ == self.name@ || r@ == "\u{1b}[32m"@
                + self.name@ + "\u{1b}[0m"@),
    {
        if is_local {
            paint_green(self.name.as_str())
        } else {
            self.name.clone()
        }
    }

    /// The commit's first eight characters, painted yellow.
    pub fn display_commit(&self) -> (r: String)
        requires
            self.commit@.len() >= 8,
        ensures
            !has_escape(self.commit@.take(8)) ==> (r@ == self.commit@.take(8) || r@
                == "\u{1b}[33m"@ + self.commit@.take(8) + "\u{1b}[0m"@),
    {
        let short = self.commit.as_str().substring_char(0, 8);
        assert(short@ =~= self.commit@.take(8));
        paint_yellow(short)
    }

    /// The message, or `-` when there is none.
    pub fn display_message(&self) -> (r: String)
        ensures
            r@ == match opt_view(self.message) {
                Some(s) => s,
                None => "-"@,
            },
    {
        text_or_dash(&self.message)
    }
}

/// The order of branches: with `head_first`, the checked-out branch before
/// the others; then by name.
pub open spec fn branch_le(
    a: (Seq<char>, bool, Option<Seq<char>>),
    b: (Seq<char>, bool, Option<Seq<char>>),
    head_first: bool,
) -> bool {
    if head_first && a.1 != b.1 {
        a.1
    } else {
        text_le(a.0, b.0)
    }
}

pub open spec fn branches_sorted(s: Seq<(Seq<char>, bool, Option<Seq<char>>)>, head_first: bool) -> bool {
    forall|i: int, j: int| 0 <= i < j < s.len() ==> branch_le(#[trigger] s[i], #[trigger] s[j], head_first)
}

fn branch_le_exec(a: &BranchInfo, b: &BranchInfo, head_first: bool) -> (r: bool)
    ensures
        r == branch_le(a@, b@, head_first),
{
    if head_first && a.is_head != b.is_head {
        a.is_head
    } else {
        text_le_exec(a.name.as_str(), b.name.as_str())
    }
}

/// Sorts branches: with `head_first`, the checked-out branch first; the
/// rest by name. The result holds the same branches.
pub fn sort_branches(branches: Vec<BranchInfo>, head_first: bool) -> (r: Vec<BranchInfo>)
    ensures
        r@.map_values(|b: BranchInfo| b@).to_multiset() == branches@.map_values(
            |b: BranchInfo| b@,
        ).to_multiset(),
        branches_sorted(r@.map_values(|b: BranchInfo| b@), head_first),
{
    let ghost whole = branches@.map_values(|b: BranchInfo| b@).to_multiset();
    let mut rest = branches;
    let mut out: Vec<BranchInfo> = Vec::new();
    assert(out@.map_values(|b: BranchInfo| b@) =~= Seq::empty());
    while rest.len() > 0
        invariant
            out@.map_values(|b: BranchInfo| b@).to_multiset().add(
                rest@.map_values(|b: BranchInfo| b@).to_multiset(),
            ) == whole,
            branches_sorted(out@.map_values(|b: BranchInfo| b@), head_first),
        decreases rest.len(),
    {
        let ghost before = rest@;
        let x = rest.pop().unwrap();
        assert(before.map_values(|b: BranchInfo| b@) =~= rest@.map_values(|b: BranchInfo| b@).push(x@));
        let ghost ov = out@.map_values(|b: BranchInfo| b@);
        let mut p: usize = 0;
        while p < out.len() && branch_le_exec(&out[p], &x, head_first)
            invariant
                p <= out.len(),
                ov == out@.map_values(|b: BranchInfo| b@),
                forall|k: int| 0 <= k < p ==> branch_le(#[trigger] ov[k], x@, head_first),
            decreases out.len() - p,
        {
            p = p + 1;
        }
        proof {
            if p < out.len() {
                assert(!branch_le(ov[p as int], x@, head_first));
                lemma_branch_le_total(ov[p as int], x@, head_first);
            }
        }
        out.insert(p, x);
        let ghost nv = out@.map_values(|b: BranchInfo| b@);
        assert(nv =~= ov.insert(p as int, x@));
        proof {
            assert forall|i: int, j: int| 0 <= i < j < nv.len() implies branch_le(
                #[trigger] nv[i],
                #[trigger] nv[j],
                head_first,
            ) by {
                if j < p {
                } else if i > p {
                    assert(nv[i] == ov[i - 1] && nv[j] == ov[j - 1]);
                } else if j == p {
                } else if i == p {
                    assert(nv[j] == ov[j - 1]);
                    if j - 1 > p {
                        lemma_branch_le_transitive(x@, ov[p as int], ov[j - 1], head_first);
                    }
                } else {
                    assert(nv[j] == ov[j - 1]);
                }
            }
        }
    }
    assert(rest@.map_values(|b: BranchInfo| b@) =~= Seq::empty());
    assert(out@.map_values(|b: BranchInfo| b@).to_multiset() =~= whole);
    out
}

proof fn lemma_branch_le_total(
    a: (Seq<char>, bool, Option<Seq<char>>),
    b: (Seq<char>, bool, Option<Seq<char>>),
    head_first: bool,
)
    ensures
        branch_le(a, b, head_first) || branch_le(b, a, head_first),
{
    lemma_text_le_total(a.0, b.0);
}

proof fn lemma_branch_le_transitive(
    a: (Seq<char>, bool, Option<Seq<char>>),
    b: (Seq<char>, bool, Option<Seq<char>>),
    c: (Seq<char>, bool, Option<Seq<char>>),
    head_first: bool,
)
    requires
        branch_le(a, b, head_first),
        branch_le(b, c, head_first),
    ensures
        branch_le(a, c, head_first),
{
    if !(head_first && (a.1 != b.1 || b.1 != c.1)) {
        lemma_text_le_transitive(a.0, b.0, c.0);
    }
}

pub open spec fn tags_sorted(s: Seq<(Seq<char>, Seq<char>, Option<Seq<char>>)>) -> bool {
    forall|i: int, j: int| 0 <= i < j < s.len() ==> text_le((#[trigger] s[i]).0, (#[trigger] s[j]).0)
}

/// Sorts tags by name. The result holds the same tags.
pub fn sort_tags(tags: Vec<TagInfo>) -> (r: Vec<TagInfo>)
    ensures
        r@.map_values(|t: TagInfo| t@).to_multiset() == tags@.map_values(|t: TagInfo| t@).to_multiset(),
        tags_sorted(r@.map_values(|t: TagInfo| t@)),
{
    let ghost whole = tags@.map_values(|t: TagInfo| t@).to_multiset();
    let mut rest = tags;
    let mut out: Vec<TagInfo> = Vec::new();
    assert(out@.map_values(|t: TagInfo| t@) =~= Seq::empty());
    while rest.len() > 0
        invariant
            out@.map_values(|t: TagInfo| t@).to_multiset().add(
                rest@.map_values(|t: TagInfo| t@).to_multiset(),
            ) == whole,
            tags_sorted(out@.map_values(|t: TagInfo| t@)),
        decreases rest.len(),
    {
        let ghost before = rest@;
        let x = rest.pop().unwrap();
        assert(before.map_values(|t: TagInfo| t@) =~= rest@.map_values(|t: TagInfo| t@).push(x@));
        let ghost ov = out@.map_values(|t: TagInfo| t@);
        let mut p: usize = 0;
        while p < out.len() && text_le_exec(out[p].name.as_str(), x.name.as_str())
            invariant
                p <= out.len(),
                ov == out@.map_values(|t: TagInfo| t@),
                forall|k: int| 0 <= k < p ==> text_le((#[trigger] ov[k]).0, x@.0),
            decreases out.len() - p,
        {
            p = p + 1;
        }
        proof {
            if p < out.len() {
                lemma_text_le_total(ov[p as int].0, x@.0);
            }
        }
        out.insert(p, x);
        let ghost nv = out@.map_values(|t: TagInfo| t@);
        assert(nv =~= ov.insert(p as int, x@));
        proof {
            assert forall|i: int, j: int| 0 <= i < j < nv.len() implies text_le(
                (#[trigger] nv[i]).0,
                (#[trigger] nv[j]).0,
            ) by {
                if j < p {
                } else if i > p {
                    assert(nv[i] == ov[i - 1] && nv[j] == ov[j - 1]);
                } else if j == p {
                } else if i == p {
                    assert(nv[j] == ov[j - 1]);
                    if j - 1 > p {
                        lemma_text_le_transitive(x@.0, ov[p as int].0, ov[j - 1].0);
                    }
                } else {
                    assert(nv[j] == ov[j - 1]);
                }
            }
        }
    }
    assert(rest@.map_values(|t: TagInfo| t@) =~= Seq::empty());
    assert(out@.map_values(|t: TagInfo| t@).to_multiset() =~= whole);
    out
}

/// `s` with every leading copy of `prefix` removed.
pub open spec fn strip_leading(s: Seq<char>, prefix: Seq<char>) -> Seq<char>
    decreases s.len(),
{
    if prefix.len() > 0 && prefix.len() <= s.len() && s.take(prefix.len() as int) == prefix {
        strip_leading(s.skip(prefix.len() as int), prefix)
    } else {
        s
    }
}

/// A tag's short name: its reference name without leading `refs/tags/`.
pub fn tag_short_name(reference: &str) -> (r: String)
    ensures
        r@ == strip_leading(reference@, "refs/tags/"@),
{
    let chars = chars_of(reference);
    let prefix = chars_of("refs/tags/");
    proof {
        reveal_strlit("refs/tags/");
    }
    let m = prefix.len();
    let n = chars.len();
    let mut k: usize = 0;
    assert(reference@.skip(0) =~= reference@);
    while m <= n - k && same_prefix_at(&chars, k, &prefix)
        invariant
            m == prefix.len(),
            m == 10,
            n == chars.len(),
            chars@ == reference@,
            prefix@ == "refs/tags/"@,
            k <= n,
            strip_leading(reference@, prefix@) == strip_leading(reference@.skip(k as int), prefix@),
        decreases n - k,
    {
        assert(reference@.skip(k as int).take(m as int) =~= chars@.subrange(k as int, k + m));
        assert(reference@.skip(k as int).skip(m as int) =~= reference@.skip(k + m));
        k = k + m;
    }
    proof {
        let rest = reference@.skip(k as int);
        if m <= n - k {
            assert(rest.take(m as int) =~= chars@.subrange(k as int, k + m));
        }
    }
    let r = String::from_str(reference.substring_char(k, n));
    assert(r@ =~= reference@.skip(k as int));
    r
}

/// Whether `prefix` occurs in `chars` at `k`.
fn same_prefix_at(chars: &Vec<char>, k: usize, prefix: &Vec<char>) -> (r: bool)
    requires
        k + prefix.len() <= chars.len(),
    ensures
        r == (chars@.subrange(k as int, k + prefix.len()) == prefix@),
{
    let mut i: usize = 0;
    while i < prefix.len()
        invariant
            k + prefix.len() <= chars.len(),
            i <= prefix.len(),
            chars@.subrange(k as int, k + i) == prefix@.take(i as int),
        decreases prefix.len() - i,
    {
        if chars[k + i] != prefix[i] {
            assert(chars@.subrange(k as int, k + prefix.len())[i as int] != prefix@[i as int]);
            return false;
        }
        i = i + 1;
        assert(chars@.subrange(k as int, k + i) =~= prefix@.take(i as int));
    }
    assert(prefix@.take(i as int) =~= prefix@);
    true
}

} // verus!
