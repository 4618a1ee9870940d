//! Decisions of the self-update and uninstall commands: reading version
//! strings, naming release files and picking the shell profile to edit.
use vstd::prelude::*;
use crate::paths::{chars_of, file_name, final_name, same_text};

verus! {

/// Whether `c` has the Unicode `White_Space` property.
pub open spec fn is_white_space(c: char) -> bool {
    let u = c as u32;
    (0x9 <= u <= 0xd) || u == 0x20 || u == 0x85 || u == 0xa0 || u == 0x1680 || (0x2000 <= u
        <= 0x200a) || u == 0x2028 || u == 0x2029 || u == 0x202f || u == 0x205f || u == 0x3000
}

fn white_space(c: char) -> (r: bool)
    ensures
        r == is_white_space(c),
{
    let u = c as u32;
    (0x9 <= u && u <= 0xd) || u == 0x20 || u == 0x85 || u == 0xa0 || u == 0x1680 || (0x2000 <= u
        && u <= 0x200a) || u == 0x2028 || u == 0x2029 || u == 0x202f || u == 0x205f || u == 0x3000
}

/// Index `i` starts a `"`-separated piece of `s` that begins with `v`.
pub open spec fn starts_version_piece(s: Seq<char>, i: int) -> bool {
    0 <= i < s.len() && s[i] == 'v' && (i == 0 || s[i - 1] == '"')
}

/// A separator: `"` where `quote`, whitespace otherwise.
pub open spec fn is_sep(quote: bool, c: char) -> bool {
    if quote {
        c == '"'
    } else {
        is_white_space(c)
    }
}

/// `s[i..j]` holds no separator and ends at one or at the end of `s`.
pub open spec fn runs_to(s: Seq<char>, i: int, j: int, quote: bool) -> bool {
    0 <= i <= j <= s.len() && (forall|m: int| i <= m < j ==> !is_sep(quote, #[trigger] s[m])) && (j
        == s.len() || is_sep(quote, s[j]))
}

/// The first `"`-separated piece of `s` that begins with `v`.
pub open spec fn version_piece(s: Seq<char>) -> Option<Seq<char>> {
    if exists|i: int| starts_version_piece(s, i) {
        let i = choose|i: int|
            starts_version_piece(s, i) && forall|k: int| 0 <= k < i ==> !starts_version_piece(s, k);
        let j = choose|j: int| #[trigger] runs_to(s, i, j, true);
        Some(s.subrange(i, j))
    } else {
        None
    }
}

/// Where the separator-free run of `chars` from `i` ends.
fn run_end(chars: &Vec<char>, i: usize, quote: bool) -> (j: usize)
    requires
        i <= chars.len(),
    ensures
        runs_to(chars@, i as int, j as int, quote),
{
    let mut j = i;
    while j < chars.len()
        invariant
            i <= j <= chars.len(),
            forall|m: int| i <= m < j ==> !is_sep(quote, #[trigger] chars@[m]),
        decreases chars.len() - j,
    {
        let c = chars[j];
        let stop = if quote {
            c == '"'
        } else {
            white_space(c)
        };
        if stop {
            return j;
        }
        j = j + 1;
    }
    j
}

proof fn lemma_runs_unique(s: Seq<char>, i: int, j: int, k: int, quote: bool)
    requires
        runs_to(s, i, j, quote),
        runs_to(s, i, k, quote),
    ensures
        j == k,
{
    if j < k {
        assert(!is_sep(quote, s[j]));
    } else if k < j {
        assert(!is_sep(quote, s[k]));
    }
}

/// The newest version named in a release listing: the first `"`-separated
/// piece that begins with `v`, or `v0.1.0` when there is none.
pub fn latest_version_from(body: &str) -> (r: String)
    ensures
        version_piece(body@) matches Some(v) ==> r@ == v,
        version_piece(body@) is None ==> r@ == "v0.1.0"@,
{
    let chars = chars_of(body);
    let mut i: usize = 0;
    while i < chars.len()
        invariant
            chars@ == body@,
            i <= chars.len(),
            forall|k: int| 0 <= k < i ==> !starts_version_piece(body@, k),
        decreases chars.len() - i,
    {
        if chars[i] == 'v' && (i == 0 || chars[i - 1] == '"') {
            let j = run_end(&chars, i, true);
            proof {
                assert(starts_version_piece(body@, i as int));
                let i0 = choose|i0: int|
                    starts_version_piece(body@, i0) && forall|k: int|
                        0 <= k < i0 ==> !starts_version_piece(body@, k);
                if i0 < i {
                } else if i0 > i {
                    assert(!starts_version_piece(body@, i as int));
                }
                let j0 = choose|j0: int| runs_to(body@, i as int, j0, true);
                lemma_runs_unique(body@, i as int, j as int, j0, true);
            }
            return String::from_str(body.substring_char(i, j));
        }
        i = i + 1;
    }
    String::from_str("v0.1.0")
}

/// Index `i` starts a whitespace-separated word of `s`.
pub open spec fn starts_word(s: Seq<char>, i: int) -> bool {
    0 <= i < s.len() && !is_white_space(s[i]) && (i == 0 || is_white_space(s[i - 1]))
}

/// The number of words of `s` that start before index `i`.
pub open spec fn words_before(s: Seq<char>, i: int) -> nat
    decreases i,
{
    if i <= 0 {
        0
    } else {
        words_before(s, i - 1) + if starts_word(s, i - 1) {
            1nat
        } else {
            0nat
        }
    }
}

proof fn lemma_words_before_monotone(s: Seq<char>, i: int, k: int)
    requires
        i <= k,
    ensures
        words_before(s, i) <= words_before(s, k),
    decreases k - i,
{
    if i < k {
        lemma_words_before_monotone(s, i, k - 1);
    }
}

/// The second whitespace-separated word of `s`, if it has one.
pub open spec fn second_word(s: Seq<char>) -> Option<Seq<char>> {
    if exists|b: int| #[trigger] starts_word(s, b) && words_before(s, b) == 1 {
        let b = choose|b: int| #[trigger] starts_word(s, b) && words_before(s, b) == 1;
        let j = choose|j: int| #[trigger] runs_to(s, b, j, false);
        Some(s.subrange(b, j))
    } else {
        None
    }
}

/// The installed version from the output of `--version`: its second word,
/// or `未知` ("unknown") when it has fewer than two.
pub fn current_version_from(output: &str) -> (r: String)
    ensures
        second_word(output@) matches Some(v) ==> r@ == v,
        second_word(output@) is None ==> r@ == "未知"@,
{
    let chars = chars_of(output);
    let ghost s = output@;
    let mut seen: usize = 0;
    let mut i: usize = 0;
    while i < chars.len()
        invariant
            chars@ == s,
            s == output@,
            i <= chars.len(),
            seen <= 1,
            seen == words_before(s, i as int),
        decreases chars.len() - i,
    {
        let starts = !white_space(chars[i]) && (i == 0 || white_space(chars[i - 1]));
        assert(starts == starts_word(s, i as int));
        if starts {
            if seen == 1 {
                let j = run_end(&chars, i, false);
                proof {
                    assert(starts_word(s, i as int) && words_before(s, i as int) == 1);
                    let b0 = choose|b: int| #[trigger] starts_word(s, b) && words_before(s, b) == 1;
                    if b0 < i {
                        lemma_words_before_monotone(s, b0 + 1, i as int);
                    } else if b0 > i {
                        lemma_words_before_monotone(s, i + 1, b0);
                    }
                    let j0 = choose|j0: int| #[trigger] runs_to(s, i as int, j0, false);
                    lemma_runs_unique(s, i as int, j as int, j0, false);
                }
                return String::from_str(output.substring_char(i, j));
            }
            seen = seen + 1;
        }
        i = i + 1;
    }
    proof {
        if exists|b: int| #[trigger] starts_word(s, b) && words_before(s, b) == 1 {
            let b = choose|b: int| #[trigger] starts_word(s, b) && words_before(s, b) == 1;
            lemma_words_before_monotone(s, b + 1, i as int);
        }
    }
    String::from_str("未知")
}

/// The shell profile that the installer wrote to, for the shell at path
/// `shell` (`/bin/bash` when unknown).
pub open spec fn profile_for(shell: Seq<char>) -> Seq<char> {
    match file_name(shell) {
        Some(n) => if n == "zsh"@ {
            ".zshrc"@
        } else if n == "bash"@ {
            ".bashrc"@
        } else {
            ".profile"@
        },
        None => ".profile"@,
    }
}

/// The profile file, under the home directory, to clean on uninstall.
pub fn shell_profile(shell: Option<String>) -> (r: String)
    ensures
        r@ == profile_for(
            match shell {
                Some(s) => s@,
                None => "/bin/bash"@,
            },
        ),
{
    let path = match shell {
        Some(s) => s,
        None => String::from_str("/bin/bash"),
    };
    match final_name(path.as_str()) {
        Some(n) => {
            if same_text(n.as_str(), "zsh") {
                String::from_str(".zshrc")
            } else if same_text(n.as_str(), "bash") {
                String::from_str(".bashrc")
            } else {
                String::from_str(".profile")
            }
        },
        None => String::from_str(".profile"),
    }
}

/// The release file for a platform: `ziper-<os>-<arch>`, with `.exe` on
/// Windows.
pub fn release_binary_name(os: &str, arch: &str, windows: bool) -> (r: String)
    ensures
        r@ == "ziper-"@ + os@ + "-"@ + arch@ + if windows {
            ".exe"@
        } else {
            Seq::empty()
        },
{
    let mut r = String::from_str("ziper-");
    r.append(os);
    r.append("-");
    r.append(arch);
    if windows {
        r.append(".exe");
    } else {
        assert(r@ =~= r@ + Seq::<char>::empty());
    }
    r
}

/// Where a release file of a version is downloaded from.
pub fn release_download_url(version: &str, binary: &str) -> (r: String)
    ensures
        r@ == "https://github.com/jwyGithub/development-tools/releases/download/"@ + version@
            + "/"@ + binary@,
{
    let mut r = String::from_str("https://github.com/jwyGithub/development-tools/releases/download/");
    r.append(version);
    r.append("/");
    r.append(binary);
    r
}

/// An upgrade is due when the installed version differs from the latest.
pub fn needs_upgrade(current: &str, latest: &str) -> (r: bool)
    ensures
        r == (current@ != latest@),
{
    !same_text(current, latest)
}

} // verus!
