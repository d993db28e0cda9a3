//! Update check: version comparison and choice of the installer for this
//! platform among a release's assets.

use vstd::prelude::*;
use crate::client::cat;
use crate::text::{
    str_eq, chars_of, contains_seq, contains_str, decimal, decimal_string, replace_char, replace_char_vec,
    string_of, sub_vec, trim, trim_bounds, is_white, skip_white, drop_white_end,
};

verus! {

/// An update: latest version, release notes, installer for this platform.
#[derive(Debug)]
pub struct UpdateInfo {
    /// Latest version, without a `v` prefix.
    pub version: String,
    /// Release notes (Markdown).
    pub notes: String,
    /// Installer file name.
    pub file_name: String,
    /// Installer download URL.
    pub download_url: String,
    /// Installer size in bytes.
    pub size: u64,
}

/// A downloadable file of a release.
pub struct GhAsset {
    pub name: String,
    pub browser_download_url: String,
    pub size: u64,
}

impl GhAsset {
    /// Copy of this asset.
    pub fn copy(&self) -> (r: GhAsset)
        ensures
            r == *self,
    {
        GhAsset {
            name: self.name.clone(),
            browser_download_url: self.browser_download_url.clone(),
            size: self.size,
        }
    }
}

/// `t` without one leading `v`.
pub open spec fn strip_v(t: Seq<char>) -> Seq<char> {
    if t.len() > 0 && t[0] == 'v' {
        t.skip(1)
    } else {
        t
    }
}

/// Version text trimmed, without a leading `v`.
pub open spec fn normalize_spec(v: Seq<char>) -> Seq<char> {
    strip_v(trim(v))
}

/// Drop surrounding whitespace and a leading `v` (`v1.2.3` → `1.2.3`).
pub fn normalize_version(v: &str) -> (r: String)
    ensures
        r@ == normalize_spec(v@),
{
    let all = chars_of(v);
    let (a, b) = trim_bounds(&all);
    let t = sub_vec(&all, a, b);
    if t.len() > 0 && t[0] == 'v' {
        let rest = sub_vec(&t, 1, t.len());
        assert(rest@ == t@.skip(1));
        string_of(&rest)
    } else {
        string_of(&t)
    }
}

/// ASCII decimal digit.
pub open spec fn is_digit(c: char) -> bool {
    '0' <= c <= '9'
}

/// Maximal runs of digits, from position `i`, `cur` being the run in progress.
pub open spec fn runs_from(s: Seq<char>, i: int, cur: Seq<char>) -> Seq<Seq<char>>
    decreases s.len() - i,
{
    if i >= s.len() {
        if cur.len() > 0 {
            seq![cur]
        } else {
            Seq::empty()
        }
    } else if is_digit(s[i]) {
        runs_from(s, i + 1, cur.push(s[i]))
    } else {
        (if cur.len() > 0 {
            seq![cur]
        } else {
            Seq::empty()
        }) + runs_from(s, i + 1, Seq::empty())
    }
}

/// Value of a run of digits.
pub open spec fn digits_value(d: Seq<char>) -> nat
    decreases d.len(),
{
    if d.len() == 0 {
        0
    } else {
        digits_value(d.drop_last()) * 10 + (d.last() as nat - 48) as nat
    }
}

/// Values of the runs that fit in `u64` (the others are dropped).
pub open spec fn run_values(runs: Seq<Seq<char>>) -> Seq<u64>
    decreases runs.len(),
{
    if runs.len() == 0 {
        Seq::empty()
    } else {
        let rest = run_values(runs.drop_last());
        if digits_value(runs.last()) <= u64::MAX {
            rest.push(digits_value(runs.last()) as u64)
        } else {
            rest
        }
    }
}

/// The numeric segments of a version text.
pub open spec fn segments_spec(v: Seq<char>) -> Seq<u64> {
    run_values(runs_from(v, 0, Seq::empty()))
}

proof fn lemma_run_values_concat(a: Seq<Seq<char>>, b: Seq<Seq<char>>)
    ensures
        run_values(a + b) == run_values(a) + run_values(b),
    decreases b.len(),
{
    if b.len() == 0 {
        assert(a + b =~= a);
        assert(run_values(b) =~= Seq::<u64>::empty());
        assert(run_values(a) + run_values(b) =~= run_values(a));
    } else {
        assert((a + b).drop_last() =~= a + b.drop_last());
        lemma_run_values_concat(a, b.drop_last());
        if digits_value(b.last()) <= u64::MAX {
            assert(run_values(a + b) =~= run_values(a) + run_values(b));
        } else {
            assert(run_values(a + b) =~= run_values(a) + run_values(b));
        }
    }
}

proof fn lemma_digits_value_grows(d: Seq<char>, c: char)
    requires
        is_digit(c),
    ensures
        digits_value(d.push(c)) == digits_value(d) * 10 + (c as nat - 48),
        digits_value(d.push(c)) >= digits_value(d),
{
    assert(d.push(c).drop_last() =~= d);
}

/// The numeric segments of a version (`1.2.3-beta` → `[1, 2, 3]`); digit
/// runs too large for `u64` are dropped.
pub fn parse_segments(v: &str) -> (r: Vec<u64>)
    ensures
        r@ == segments_spec(v@),
{
    let s = chars_of(v);
    let mut out: Vec<u64> = Vec::new();
    let mut cur_len: usize = 0;
    let mut val: u64 = 0;
    let mut over = false;
    let ghost mut cur: Seq<char> = Seq::empty();
    let mut i: usize = 0;
    while i < s.len()
        invariant
            i <= s@.len(),
            cur.len() == cur_len,
            cur_len <= i,
            forall|k: int| 0 <= k < cur.len() ==> is_digit(#[trigger] cur[k]),
            !over ==> val == digits_value(cur),
            over <==> digits_value(cur) > u64::MAX,
            segments_spec(v@) == out@ + run_values(runs_from(s@, i as int, cur)),
            s@ == v@,
        decreases s.len() - i,
    {
        let c = s[i];
        if '0' <= c && c <= '9' {
            let d: u64 = (c as u32 - 48) as u64;
            proof {
                lemma_digits_value_grows(cur, c);
            }
            if !over {
                if val > (u64::MAX - d) / 10 {
                    assert(val * 10 + d > u64::MAX) by (nonlinear_arith)
                        requires
                            val > (u64::MAX - d) / 10,
                            d <= 9,
                    ;
                    over = true;
                } else {
                    assert(val * 10 + d <= u64::MAX) by (nonlinear_arith)
                        requires
                            val <= (u64::MAX - d) / 10,
                            d <= 9,
                    ;
                    val = val * 10 + d;
                }
            }
            proof {
                cur = cur.push(c);
            }
            cur_len = cur_len + 1;
        } else {
            let ghost head: Seq<Seq<char>> = if cur.len() > 0 {
                seq![cur]
            } else {
                Seq::empty()
            };
            let ghost rest = runs_from(s@, i + 1, Seq::empty());
            let ghost out0 = out@;
            proof {
                assert(runs_from(s@, i as int, cur) == head + rest);
                lemma_run_values_concat(head, rest);
                if cur.len() > 0 {
                    assert(head.drop_last() =~= Seq::<Seq<char>>::empty());
                    assert(head.last() == cur);
                    assert(run_values(head.drop_last()) =~= Seq::<u64>::empty());
                } else {
                    assert(run_values(head) =~= Seq::<u64>::empty());
                }
            }
            if cur_len > 0 && !over {
                out.push(val);
            }
            proof {
                assert(out@ =~= out0 + run_values(head));
                assert(out0 + (run_values(head) + run_values(rest)) =~= out@ + run_values(rest));
                cur = Seq::empty();
            }
            cur_len = 0;
            val = 0;
            over = false;
        }
        i = i + 1;
    }
    let ghost head: Seq<Seq<char>> = if cur.len() > 0 {
        seq![cur]
    } else {
        Seq::empty()
    };
    let ghost out0 = out@;
    proof {
        assert(runs_from(s@, i as int, cur) == head);
        if cur.len() > 0 {
            assert(head.drop_last() =~= Seq::<Seq<char>>::empty());
            assert(head.last() == cur);
            assert(run_values(head.drop_last()) =~= Seq::<u64>::empty());
        } else {
            assert(run_values(head) =~= Seq::<u64>::empty());
        }
    }
    if cur_len > 0 && !over {
        out.push(val);
    }
    assert(out@ =~= out0 + run_values(head));
    out
}

/// A pre-release: after the normalized version's leading digits and dots
/// some other character remains (`1.2.3-beta`).
pub open spec fn prerelease_spec(v: Seq<char>) -> bool {
    let t = normalize_spec(v);
    exists|i: int| 0 <= i < t.len() && !is_digit(#[trigger] t[i]) && t[i] != '.'
}

/// Whether the version carries a pre-release suffix.
pub fn is_prerelease(v: &str) -> (r: bool)
    ensures
        r == prerelease_spec(v@),
{
    let n = normalize_version(v);
    let t = chars_of(n.as_str());
    let mut i: usize = 0;
    while i < t.len()
        invariant
            i <= t@.len(),
            t@ == normalize_spec(v@),
            forall|k: int| 0 <= k < i ==> is_digit(#[trigger] t@[k]) || t@[k] == '.',
        decreases t.len() - i,
    {
        let c = t[i];
        if !(('0' <= c && c <= '9') || c == '.') {
            return true;
        }
        i = i + 1;
    }
    false
}

/// Segment `i` of a version, a missing segment counting as 0.
pub open spec fn seg_at(x: Seq<u64>, i: int) -> u64 {
    if 0 <= i < x.len() {
        x[i]
    } else {
        0
    }
}

/// First position, from `i`, where the two segment lists differ once the
/// shorter is padded with zeros; the longer length when they do not.
pub open spec fn padded_diff(x: Seq<u64>, y: Seq<u64>, i: int) -> int
    decreases x.len() + y.len() - i,
{
    if i >= x.len() && i >= y.len() {
        i
    } else if seg_at(x, i) != seg_at(y, i) {
        i
    } else {
        padded_diff(x, y, i + 1)
    }
}

/// `a` is a strictly newer version than `b`: segments compared in order, a
/// missing segment counting as 0; with equal segments a release is newer
/// than a pre-release.
pub open spec fn version_gt_spec(a: Seq<char>, b: Seq<char>) -> bool {
    let x = segments_spec(a);
    let y = segments_spec(b);
    let d = padded_diff(x, y, 0);
    if d < x.len() || d < y.len() {
        seg_at(x, d) > seg_at(y, d)
    } else {
        !prerelease_spec(a) && prerelease_spec(b)
    }
}

/// Whether version `a` is strictly newer than `b`.
pub fn version_gt(a: &str, b: &str) -> (r: bool)
    ensures
        r == version_gt_spec(a@, b@),
{
    let av = parse_segments(a);
    let bv = parse_segments(b);
    let mut i: usize = 0;
    while i < av.len() || i < bv.len()
        invariant
            av@ == segments_spec(a@),
            bv@ == segments_spec(b@),
            i <= av@.len() || i <= bv@.len(),
            padded_diff(av@, bv@, 0) == padded_diff(av@, bv@, i as int),
        decreases av.len() + bv.len() - i,
    {
        let x: u64 = if i < av.len() {
            av[i]
        } else {
            0
        };
        let y: u64 = if i < bv.len() {
            bv[i]
        } else {
            0
        };
        if x != y {
            return x > y;
        }
        i = i + 1;
    }
    let pa = is_prerelease(a);
    let pb = is_prerelease(b);
    !pa && pb
}

proof fn lemma_padded_diff_same(x: Seq<u64>, i: int)
    requires
        0 <= i <= x.len(),
    ensures
        padded_diff(x, x, i) == x.len(),
    decreases x.len() - i,
{
    if i < x.len() {
        lemma_padded_diff_same(x, i + 1);
    }
}

proof fn lemma_padded_diff_sym(x: Seq<u64>, y: Seq<u64>, i: int)
    requires
        0 <= i,
    ensures
        padded_diff(x, y, i) == padded_diff(y, x, i),
    decreases x.len() + y.len() - i,
{
    if !(i >= x.len() && i >= y.len()) && seg_at(x, i) == seg_at(y, i) {
        lemma_padded_diff_sym(x, y, i + 1);
    }
}

proof fn lemma_padded_diff_equal(x: Seq<u64>, y: Seq<u64>, i: int)
    requires
        0 <= i,
        forall|k: int| #[trigger] seg_at(x, k) == seg_at(y, k),
    ensures
        padded_diff(x, y, i) >= x.len() && padded_diff(x, y, i) >= y.len(),
    decreases x.len() + y.len() - i,
{
    if !(i >= x.len() && i >= y.len()) {
        assert(seg_at(x, i) == seg_at(y, i));
        lemma_padded_diff_equal(x, y, i + 1);
    }
}

/// No version is newer than itself, and of two versions at most one is the
/// newer.
pub proof fn law_version_gt_irreflexive_asymmetric(a: Seq<char>, b: Seq<char>)
    ensures
        !version_gt_spec(a, a),
        version_gt_spec(a, b) ==> !version_gt_spec(b, a),
{
    lemma_padded_diff_same(segments_spec(a), 0);
    lemma_padded_diff_sym(segments_spec(a), segments_spec(b), 0);
}

/// A missing segment counts as 0: versions whose segments agree once padded
/// with zeros (`1.2` and `1.2.0`) and that are both releases or both
/// pre-releases are neither newer than the other.
pub proof fn law_missing_segment_is_zero(a: Seq<char>, b: Seq<char>)
    requires
        forall|k: int| #[trigger] seg_at(segments_spec(a), k) == seg_at(segments_spec(b), k),
        prerelease_spec(a) == prerelease_spec(b),
    ensures
        !version_gt_spec(a, b),
        !version_gt_spec(b, a),
{
    lemma_padded_diff_equal(segments_spec(a), segments_spec(b), 0);
    lemma_padded_diff_sym(segments_spec(a), segments_spec(b), 0);
}

proof fn lemma_runs_shift(c: char, a: Seq<char>, i: int, cur: Seq<char>)
    requires
        0 <= i <= a.len(),
    ensures
        runs_from(seq![c] + a, i + 1, cur) == runs_from(a, i, cur),
    decreases a.len() - i,
{
    let s = seq![c] + a;
    if i < a.len() {
        assert(s[i + 1] == a[i]);
        if is_digit(a[i]) {
            lemma_runs_shift(c, a, i + 1, cur.push(a[i]));
        } else {
            lemma_runs_shift(c, a, i + 1, Seq::empty());
        }
    }
}

proof fn lemma_drop_white_end_shift(a: Seq<char>, j: int)
    requires
        0 <= j <= a.len(),
    ensures
        drop_white_end(seq!['v'] + a, j + 1) == drop_white_end(a, j) + 1,
    decreases j,
{
    let s = seq!['v'] + a;
    if j == 0 {
        assert(s[0] == 'v');
        assert(!is_white('v'));
    } else {
        assert(s[j] == a[j - 1]);
        lemma_drop_white_end_shift(a, j - 1);
    }
}

/// A leading `v` changes neither the segments nor the normalized text, when
/// what follows is not whitespace or another `v`.
proof fn lemma_leading_v(a: Seq<char>)
    requires
        a.len() == 0 || (!is_white(a[0]) && a[0] != 'v'),
    ensures
        segments_spec(seq!['v'] + a) == segments_spec(a),
        normalize_spec(seq!['v'] + a) == normalize_spec(a),
        prerelease_spec(seq!['v'] + a) == prerelease_spec(a),
{
    let s = seq!['v'] + a;
    assert(s[0] == 'v');
    assert(!is_digit('v'));
    lemma_runs_shift('v', a, 0, Seq::empty());
    assert(runs_from(s, 0, Seq::empty()) =~= runs_from(s, 1, Seq::empty()));
    assert(!is_white('v'));
    assert(skip_white(s, 0) == 0);
    lemma_drop_white_end_shift(a, a.len() as int);
    assert(s.len() == a.len() + 1);
    let d = drop_white_end(a, a.len() as int);
    lemma_drop_white_end_le(a, a.len() as int);
    assert(drop_white_end(s, s.len() as int) == d + 1);
    assert(trim(s) == s.subrange(0, d + 1));
    assert(strip_v(trim(s)) =~= s.subrange(0, d + 1).skip(1));
    if a.len() > 0 {
        assert(skip_white(a, 0) == 0);
    }
    if d > 0 {
        assert(trim(a) == a.subrange(0, d));
        assert(trim(a)[0] == a[0]);
        assert(s.subrange(0, d + 1).skip(1) =~= a.subrange(0, d));
    } else {
        assert(trim(a) =~= Seq::<char>::empty());
        assert(s.subrange(0, d + 1).skip(1) =~= Seq::<char>::empty());
    }
}

proof fn lemma_drop_white_end_le(a: Seq<char>, j: int)
    requires
        0 <= j <= a.len(),
    ensures
        0 <= drop_white_end(a, j) <= j,
    decreases j,
{
    if j > 0 {
        lemma_drop_white_end_le(a, j - 1);
    }
}

/// A leading `v` is ignored on either side of the comparison (unless what
/// follows it is whitespace or another `v`, which normalization would then
/// treat differently).
pub proof fn law_leading_v_ignored(a: Seq<char>, b: Seq<char>)
    requires
        a.len() == 0 || (!is_white(a[0]) && a[0] != 'v'),
    ensures
        version_gt_spec(seq!['v'] + a, b) == version_gt_spec(a, b),
        version_gt_spec(b, seq!['v'] + a) == version_gt_spec(b, a),
{
    lemma_leading_v(a);
}

/// Installer name suffix of a platform (as the packaging scripts name them).
pub open spec fn platform_key_spec(os: Seq<char>, arch: Seq<char>) -> Seq<char> {
    if os == "macos"@ {
        if arch == "aarch64"@ {
            "macos-aarch64"@
        } else {
            "macos-x86_64"@
        }
    } else if os == "linux"@ {
        if arch == "aarch64"@ {
            "linux-aarch64"@
        } else {
            "linux-x86_64"@
        }
    } else if os == "windows"@ {
        "windows-x86_64"@
    } else {
        Seq::empty()
    }
}

/// Installer name suffix for an operating system and architecture.
pub fn platform_key(os: &str, arch: &str) -> (r: &'static str)
    ensures
        r@ == platform_key_spec(os@, arch@),
{
    let mac = crate::text::str_eq(os, "macos");
    let linux = crate::text::str_eq(os, "linux");
    let win = crate::text::str_eq(os, "windows");
    let arm = crate::text::str_eq(arch, "aarch64");
    if mac {
        if arm {
            "macos-aarch64"
        } else {
            "macos-x86_64"
        }
    } else if linux {
        if arm {
            "linux-aarch64"
        } else {
            "linux-x86_64"
        }
    } else if win {
        "windows-x86_64"
    } else {
        proof {
            reveal_strlit("");
        }
        ""
    }
}

/// Index of the first asset whose name contains `pat`, or the count.
pub open spec fn first_named(assets: Seq<GhAsset>, pat: Seq<char>, i: int) -> int
    decreases assets.len() - i,
{
    if i >= assets.len() {
        assets.len() as int
    } else if contains_seq(assets[i].name@, pat) {
        i
    } else {
        first_named(assets, pat, i + 1)
    }
}

/// The asset chosen: the first naming the platform key (when there is a
/// key), else the first naming the operating system.
pub open spec fn pick_spec(assets: Seq<GhAsset>, key: Seq<char>, os: Seq<char>) -> Option<GhAsset> {
    let k = first_named(assets, key, 0);
    let o = first_named(assets, os, 0);
    if key.len() > 0 && k < assets.len() {
        Some(assets[k])
    } else if o < assets.len() {
        Some(assets[o])
    } else {
        None
    }
}

fn find_named(assets: &Vec<GhAsset>, pat: &str) -> (r: usize)
    ensures
        r as int == first_named(assets@, pat@, 0),
        r <= assets@.len(),
{
    let mut i: usize = 0;
    while i < assets.len()
        invariant
            i <= assets@.len(),
            first_named(assets@, pat@, 0) == first_named(assets@, pat@, i as int),
        decreases assets.len() - i,
    {
        if contains_str(assets[i].name.as_str(), pat) {
            return i;
        }
        i = i + 1;
    }
    i
}

/// Choose the installer: prefer the exact platform (with architecture),
/// fall back to one for the operating system.
pub fn pick_asset(assets: &Vec<GhAsset>, key: &str, os: &str) -> (r: Option<GhAsset>)
    ensures
        r == pick_spec(assets@, key@, os@),
{
    let k = find_named(assets, key);
    if key.unicode_len() > 0 && k < assets.len() {
        return Some(assets[k].copy());
    }
    let o = find_named(assets, os);
    if o < assets.len() {
        Some(assets[o].copy())
    } else {
        None
    }
}

/// File name with path separators replaced by `_`.
pub open spec fn sanitize_spec(name: Seq<char>) -> Seq<char> {
    replace_char(replace_char(name, '/', '_'), '\\', '_')
}

/// Replace `/` and `\` by `_` so the name cannot leave the download folder.
pub fn sanitize_file_name(name: &str) -> (r: String)
    ensures
        r@ == sanitize_spec(name@),
{
    let v = chars_of(name);
    let a = replace_char_vec(&v, '/', '_');
    let b = replace_char_vec(&a, '\\', '_');
    string_of(&b)
}

/// A sanitized name keeps its length and holds no path separator.
pub proof fn law_sanitized_name_has_no_separator(name: Seq<char>)
    ensures
        sanitize_spec(name).len() == name.len(),
        forall|i: int|
            0 <= i < name.len() ==> sanitize_spec(name)[i] != '/' && sanitize_spec(name)[i] != '\\',
        forall|i: int|
            0 <= i < name.len() && name[i] != '/' && name[i] != '\\' ==> sanitize_spec(name)[i]
                == name[i],
{
}

/// Message when no installer suits this platform.
pub open spec fn no_asset_message(key: Seq<char>) -> Seq<char> {
    "当前平台（"@ + key + "）暂无可用安装包，请前往 GitHub Releases 手动下载"@
}

/// Build the update from a release: its version normalized, its notes (or
/// none), and the installer chosen for this platform; an error names the
/// platform when none suits.
pub fn release_update_info(
    tag_name: &str,
    body: Option<String>,
    assets: &Vec<GhAsset>,
    key: &str,
    os: &str,
) -> (r: Result<UpdateInfo, String>)
    ensures
        match pick_spec(assets@, key@, os@) {
            Some(a) => r matches Ok(u) && u.version@ == normalize_spec(tag_name@) && u.notes@ == (
            match body {
                Some(b) => b@,
                None => Seq::<char>::empty(),
            }) && u.file_name == a.name && u.download_url == a.browser_download_url && u.size
                == a.size,
            None => r matches Err(m) && m@ == no_asset_message(key@),
        },
{
    match pick_asset(assets, key, os) {
        Some(a) => Ok(
            UpdateInfo {
                version: normalize_version(tag_name),
                notes: match body {
                    Some(b) => b,
                    None => String::new(),
                },
                file_name: a.name,
                download_url: a.browser_download_url,
                size: a.size,
            },
        ),
        None => {
            let m = cat("当前平台（", key);
            Err(cat(m.as_str(), "）暂无可用安装包，请前往 GitHub Releases 手动下载"))
        },
    }
}

/// Whether the skipped version is `latest`.
pub open spec fn skipped_is(skipped: Option<&str>, latest: Seq<char>) -> bool {
    match skipped {
        Some(s) => s@ == latest,
        None => false,
    }
}

/// What a finished update check tells the user.
pub enum UpdateNotice {
    /// No newer version; a manual check says so with this text.
    UpToDate(Option<String>),
    /// A newer version, asked for by the user: open the update dialog.
    OpenDialog,
    /// A newer version found by the automatic check: announce it.
    Announce(String),
    /// A newer version the user chose to skip: say nothing.
    Skipped,
}

/// Decide what a successful check tells the user: nothing new (said only
/// when the check was manual), the dialog for a manual check, silence for a
/// skipped version, otherwise an announcement.
pub fn update_notice(latest: &str, current: &str, manual: bool, skipped: Option<&str>) -> (r: UpdateNotice)
    ensures
        !version_gt_spec(latest@, current@) ==> match r {
            UpdateNotice::UpToDate(m) => if manual {
                m matches Some(t) && t@ == "已是最新版本 v"@ + current@
            } else {
                m is None
            },
            _ => false,
        },
        version_gt_spec(latest@, current@) && manual ==> r is OpenDialog,
        version_gt_spec(latest@, current@) && !manual ==> if skipped_is(skipped, latest@) {
            r is Skipped
        } else {
            r matches UpdateNotice::Announce(t) && t@ == "发现新版本 v"@ + latest@
                + "（设置 → 关于 可查看详情并更新）"@
        },
{
    if !version_gt(latest, current) {
        if manual {
            UpdateNotice::UpToDate(Some(cat("已是最新版本 v", current)))
        } else {
            UpdateNotice::UpToDate(None)
        }
    } else if manual {
        UpdateNotice::OpenDialog
    } else {
        let was_skipped = match skipped {
            Some(s) => str_eq(s, latest),
            None => false,
        };
        if was_skipped {
            UpdateNotice::Skipped
        } else {
            let a = cat("发现新版本 v", latest);
            UpdateNotice::Announce(cat(a.as_str(), "（设置 → 关于 可查看详情并更新）"))
        }
    }
}

/// Message for a failed update check: the HTTP status and the service's hint.
pub fn check_failed_message(status: u16, hint: &str) -> (r: String)
    ensures
        r@ == "检查更新失败（HTTP "@ + decimal(status as nat) + "）："@ + hint@,
{
    let code = decimal_string(status as u64);
    let a = cat("检查更新失败（HTTP ", code.as_str());
    let b = cat(a.as_str(), "）：");
    cat(b.as_str(), hint)
}

/// The service's hint: its `message`, or a request to retry later.
pub fn hint_or_default(message: Option<String>) -> (r: String)
    ensures
        r@ == match message {
            Some(m) => m@,
            None => "请稍后重试"@,
        },
{
    match message {
        Some(m) => m,
        None => "请稍后重试".to_owned(),
    }
}

/// Message for a failed download: the HTTP status.
pub fn download_failed_message(status: u16) -> (r: String)
    ensures
        r@ == "下载失败（HTTP "@ + decimal(status as nat) + "）"@,
{
    let code = decimal_string(status as u64);
    let a = cat("下载失败（HTTP ", code.as_str());
    cat(a.as_str(), "）")
}

} // verus!
