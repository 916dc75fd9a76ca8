//! Pure helpers for talking to the emulator over adb.
//!
//! These parse the textual output of `adb` commands and the AVD `config.ini`
//! files. The orchestration that runs the commands lives outside the library;
//! keeping the parsing here makes it checkable without a running emulator.
use vstd::prelude::*;

use crate::text::{
    lemma_lex_lt_asymmetric, lemma_lex_lt_total, lemma_lex_lt_transitive,
    chars_of, contains, contains_str, copy_range, eq_str, eq_vec, first_index_in, first_index_of,
    has_prefix, join_lines, join_lines_vec, lemma_char_vec_deep_view, lines, lines_of, lower_seq,
    lower_vec, push_str, starts_with, string_of, strip_prefix, strip_prefix_str, trim,
    trim_end_char, trim_end_char_vec, trim_start, trim_start_vec, trim_vec, lex_lt, lex_lt_vec,
    decimal, digit, digit_of, push_decimal, drop_cr, lemma_lines_no_newline, lemma_last_line_nonempty,
    lemma_lines_of_join, lemma_first_index_of_bounds, trim_end, is_ws,
};

verus! {

// ---------------------------------------------------------------------------
// Shared spec vocabulary
// ---------------------------------------------------------------------------

/// The elements of `from` that do not occur in `drop`, in order.
pub open spec fn minus(from: Seq<Seq<char>>, drop: Seq<Seq<char>>) -> Seq<Seq<char>>
    decreases from.len(),
{
    if from.len() == 0 {
        Seq::empty()
    } else {
        let rest = minus(from.drop_last(), drop);
        if drop.contains(from.last()) {
            rest
        } else {
            rest.push(from.last())
        }
    }
}

/// What `minus` keeps: exactly the elements of `from` that are not in `drop`.
pub proof fn lemma_minus_members(from: Seq<Seq<char>>, drop: Seq<Seq<char>>)
    ensures
        forall|x: Seq<char>| #[trigger]
            minus(from, drop).contains(x) <==> (from.contains(x) && !drop.contains(x)),
    decreases from.len(),
{
    if from.len() > 0 {
        lemma_minus_members(from.drop_last(), drop);
        let rest = minus(from.drop_last(), drop);
        assert forall|x: Seq<char>| #[trigger]
            minus(from, drop).contains(x) <==> (from.contains(x) && !drop.contains(x)) by {
            if from.contains(x) {
                let k = choose|k: int| 0 <= k < from.len() && from[k] == x;
                if k < from.len() - 1 {
                    assert(from.drop_last()[k] == x);
                }
            }
            if from.drop_last().contains(x) {
                let k = choose|k: int| 0 <= k < from.len() - 1 && from.drop_last()[k] == x;
                assert(from[k] == x);
            }
            if !drop.contains(from.last()) {
                assert(rest.push(from.last()).last() == from.last());
                if rest.push(from.last()).contains(x) && x != from.last() {
                    let k = choose|k: int| 0 <= k < rest.len() + 1 && rest.push(from.last())[k] == x;
                    assert(rest[k] == x);
                }
                if rest.contains(x) {
                    let k = choose|k: int| 0 <= k < rest.len() && rest[k] == x;
                    assert(rest.push(from.last())[k] == x);
                }
            }
        }
    }
}

/// Nothing is new when the package list did not change: the difference of a
/// list with itself is empty, so a plain reinstall reports no new package.
pub proof fn lemma_nothing_new_without_change(ls: Seq<Seq<char>>)
    ensures
        minus(ls, ls).len() == 0,
{
    lemma_minus_members(ls, ls);
    if minus(ls, ls).len() > 0 {
        assert(minus(ls, ls).contains(minus(ls, ls)[0]));
    }
}

/// The elements of `from` that do not occur in `drop`, in order, as copies.
fn strings_minus(from: &[String], drop: &[String]) -> (r: Vec<String>)
    ensures
        r.deep_view() == minus(from.deep_view(), drop.deep_view()),
{
    let mut out: Vec<String> = Vec::new();
    let mut i: usize = 0;
    while i < from.len()
        invariant
            i <= from@.len(),
            out.deep_view() == minus(from.deep_view().take(i as int), drop.deep_view()),
        decreases from@.len() - i,
    {
        let mut found = false;
        let mut j: usize = 0;
        while j < drop.len() && !found
            invariant
                i < from@.len(),
                j <= drop@.len(),
                found ==> drop.deep_view().contains(from@[i as int]@),
                !found ==> forall|k: int| 0 <= k < j ==> drop.deep_view()[k] != from@[i as int]@,
            decreases drop@.len() - j,
        {
            assert(drop.deep_view()[j as int] == drop@[j as int]@);
            if drop[j] == from[i] {
                found = true;
            }
            j = j + 1;
        }
        let ghost fv = from.deep_view();
        assert(fv.take(i + 1).drop_last() =~= fv.take(i as int));
        assert(fv.take(i + 1).last() == from@[i as int]@);
        if found {
        } else {
            assert(!drop.deep_view().contains(from@[i as int]@));
            let ghost before = out.deep_view();
            out.push(from[i].clone());
            assert(out.deep_view() =~= before.push(from@[i as int]@));
        }
        i = i + 1;
    }
    assert(from.deep_view().take(from@.len() as int) =~= from.deep_view());
    out
}

/// The lines of `s`, each a vector of characters.
fn lines_of_str(s: &str) -> (r: Vec<Vec<char>>)
    ensures
        r.deep_view() == lines(s@),
{
    let v = chars_of(s);
    lines_of(&v)
}

/// Element `i` of a line list, with its view.
proof fn lemma_line_at(ls: &Vec<Vec<char>>, i: int)
    requires
        0 <= i < ls@.len(),
    ensures
        ls.deep_view()[i] == ls@[i]@,
{
    lemma_char_vec_deep_view(&ls@[i]);
}

// ---------------------------------------------------------------------------
// Install targets
// ---------------------------------------------------------------------------

/// How `run`/`install` should hand an install target to adb.
#[derive(Debug, Clone, Copy, PartialEq, Eq, Structural)]
pub enum InstallInput {
    /// A single `.apk` → `adb install`.
    Single,
    /// A directory of split `.apk`s → `adb install-multiple`.
    MultiApk,
    /// A `.xapk`/`.apks`/`.apkm` zip of split apks → unzip then install-multiple.
    Bundle,
    /// An `.aab` Android App Bundle → bundletool builds device-matched splits,
    /// then install-multiple.
    Aab,
}

/// Index of the last `c` in `s`, or `-1`.
pub open spec fn last_index_of(s: Seq<char>, c: char) -> int
    decreases s.len(),
{
    if s.len() == 0 {
        -1
    } else if s.last() == c {
        s.len() - 1
    } else {
        last_index_of(s.drop_last(), c)
    }
}

/// `last_index_of` is `-1` or the index of the last `c`.
pub proof fn lemma_last_index_of_bounds(s: Seq<char>, c: char)
    ensures
        -1 <= last_index_of(s, c) < s.len(),
        last_index_of(s, c) >= 0 ==> s[last_index_of(s, c)] == c,
        forall|j: int| last_index_of(s, c) < j < s.len() ==> s[j] != c,
    decreases s.len(),
{
    if s.len() > 0 && s.last() != c {
        lemma_last_index_of_bounds(s.drop_last(), c);
        assert forall|j: int| last_index_of(s, c) < j < s.len() implies s[j] != c by {
            if j < s.len() - 1 {
                assert(s.drop_last()[j] == s[j]);
            }
        }
    }
}

/// `Path::file_name`: the last component of `p`, ignoring trailing `/` and `.`
/// components; `None` for a path that ends in `..` or has no normal component.
pub open spec fn file_name(p: Seq<char>) -> Option<Seq<char>>
    decreases p.len(),
{
    if p.len() == 0 {
        None
    } else if p.last() == '/' {
        file_name(p.drop_last())
    } else {
        let seg = p.skip(last_index_of(p, '/') + 1);
        if seg == seq!['.'] {
            file_name(p.drop_last())
        } else if seg == seq!['.', '.'] {
            None
        } else {
            Some(seg)
        }
    }
}

/// `Path::extension` of a file name: the text after its last `.`, unless the
/// name has no `.` or its only `.` is the first character.
pub open spec fn extension_of(name: Seq<char>) -> Option<Seq<char>> {
    let k = last_index_of(name, '.');
    if k <= 0 {
        None
    } else {
        Some(name.skip(k + 1))
    }
}

/// `Path::extension` of a path.
pub open spec fn path_extension(p: Seq<char>) -> Option<Seq<char>> {
    match file_name(p) {
        Some(name) => extension_of(name),
        None => None,
    }
}

/// The kind of install target at `path`.
pub open spec fn install_kind(path: Seq<char>, is_dir: bool) -> InstallInput {
    if is_dir {
        InstallInput::MultiApk
    } else {
        let ext = match path_extension(path) {
            Some(e) => lower_seq(e),
            None => Seq::empty(),
        };
        if ext == "xapk"@ || ext == "apks"@ || ext == "apkm"@ {
            InstallInput::Bundle
        } else if ext == "aab"@ {
            InstallInput::Aab
        } else {
            InstallInput::Single
        }
    }
}

/// A tail without `c` leaves the last `c` where it was.
proof fn lemma_last_index_of_append_free(s: Seq<char>, t: Seq<char>, c: char)
    requires
        !t.contains(c),
    ensures
        last_index_of(s + t, c) == last_index_of(s, c),
    decreases t.len(),
{
    if t.len() > 0 {
        assert((s + t).drop_last() =~= s + t.drop_last());
        assert((s + t).last() == t.last());
        assert(!t.drop_last().contains(c)) by {
            if t.drop_last().contains(c) {
                let j = choose|j: int| 0 <= j < t.drop_last().len() && t.drop_last()[j] == c;
                assert(t[j] == c);
            }
        }
        lemma_last_index_of_append_free(s, t.drop_last(), c);
    } else {
        assert(s + t =~= s);
    }
}

/// The kind of an install target is decided by the text after the last `.` of
/// its file name, compared case-insensitively: for a file `n.e` (in any
/// directory, `n` non-empty, `e` without a `.`) it is a bundle exactly when `e`
/// is `xapk`, `apks` or `apkm`, an `.aab` exactly when `e` is `aab`, and a
/// single apk otherwise, whatever dots `n` holds. A directory is always a
/// split-apk set.
pub proof fn lemma_install_kind_by_last_extension(dir: Seq<char>, n: Seq<char>, e: Seq<char>)
    requires
        dir.len() == 0 || dir.last() == '/',
        n.len() > 0,
        !n.contains('/'),
        !e.contains('/'),
        !e.contains('.'),
    ensures
        ({
            let l = lower_seq(e);
            install_kind(dir + n + seq!['.'] + e, false) == if l == "xapk"@ || l == "apks"@ || l
                == "apkm"@ {
                InstallInput::Bundle
            } else if l == "aab"@ {
                InstallInput::Aab
            } else {
                InstallInput::Single
            }
        }),
        install_kind(dir + n + seq!['.'] + e, true) == InstallInput::MultiApk,
{
    reveal_strlit("xapk");
    reveal_strlit("apks");
    reveal_strlit("apkm");
    reveal_strlit("aab");
    let name = n + seq!['.'] + e;
    let p = dir + name;
    assert(dir + n + seq!['.'] + e =~= p);
    // the last '/' is the one ending `dir`
    assert(!name.contains('/')) by {
        if name.contains('/') {
            let j = choose|j: int| 0 <= j < name.len() && name[j] == '/';
            if j < n.len() {
                assert(n[j] == '/');
            } else if j > n.len() {
                assert(e[j - n.len() - 1] == '/');
            }
        }
    }
    lemma_last_index_of_append_free(dir, name, '/');
    assert(last_index_of(dir, '/') == dir.len() - 1);
    assert(p.last() != '/') by {
        if e.len() > 0 {
            assert(p.last() == e.last());
            assert(e.contains(e.last())) by {
                assert(e[e.len() - 1] == e.last());
            }
        } else {
            assert(p.last() == '.');
        }
    }
    assert(p.skip(dir.len() as int) =~= name);
    // the last '.' of the name is the one before `e`
    lemma_last_index_of_append_free(n.push('.'), e, '.');
    assert(n + seq!['.'] + e =~= n.push('.') + e);
    assert(last_index_of(n.push('.'), '.') == n.len());
    assert(name.skip((n.len() + 1) as int) =~= e);
    if name == seq!['.', '.'] {
        assert(e.len() == 0);
        assert(name[0] == '.');
        assert(n =~= seq!['.']);
        assert(lower_seq(e) =~= Seq::<char>::empty());
        assert(file_name(p) is None);
    } else {
        assert(name != seq!['.']) by {
            if name == seq!['.'] {
                assert(name.len() == 1);
            }
        }
        assert(file_name(p) == Some(name));
        assert(extension_of(name) == Some(e));
    }
}

/// Last index of `c` in `v[..end]`, or `None`.
fn last_index_in(v: &Vec<char>, end: usize, c: char) -> (r: Option<usize>)
    requires
        end <= v@.len(),
    ensures
        match r {
            Some(k) => k < end && k as int == last_index_of(v@.take(end as int), c),
            None => last_index_of(v@.take(end as int), c) == -1,
        },
{
    let mut j = end;
    while j > 0 && v[j - 1] != c
        invariant
            j <= end <= v@.len(),
            last_index_of(v@.take(end as int), c) == last_index_of(v@.take(j as int), c),
        decreases j,
    {
        assert(v@.take(j as int).drop_last() =~= v@.take(j - 1));
        j = j - 1;
    }
    if j == 0 {
        None
    } else {
        Some(j - 1)
    }
}

/// `Path::file_name` on characters.
fn file_name_vec(p: &Vec<char>) -> (r: Option<Vec<char>>)
    ensures
        match r {
            Some(n) => file_name(p@) == Some(n@),
            None => file_name(p@) is None,
        },
{
    let mut end = p.len();
    assert(p@.take(end as int) =~= p@);
    loop
        invariant
            end <= p@.len(),
            file_name(p@) == file_name(p@.take(end as int)),
        decreases end,
    {
        if end == 0 {
            return None;
        }
        let ghost t = p@.take(end as int);
        assert(t.drop_last() =~= p@.take(end - 1));
        if p[end - 1] == '/' {
            end = end - 1;
        } else {
            let start = match last_index_in(p, end, '/') {
                Some(k) => k + 1,
                None => 0,
            };
            proof {
                lemma_last_index_of_bounds(t, '/');
            }
            let seg = copy_range(p, start, end);
            assert(seg@ =~= t.skip(last_index_of(t, '/') + 1));
            let n = seg.len();
            if n == 1 && seg[0] == '.' {
                assert(seg@ =~= seq!['.']);
                end = end - 1;
            } else if n == 2 && seg[0] == '.' && seg[1] == '.' {
                assert(seg@ =~= seq!['.', '.']);
                return None;
            } else {
                assert(seg@ != seq!['.']) by {
                    if seg@ == seq!['.'] {
                        assert(seg@.len() == 1 && seg@[0] == '.');
                    }
                }
                assert(seg@ != seq!['.', '.']) by {
                    if seg@ == seq!['.', '.'] {
                        assert(seg@.len() == 2 && seg@[0] == '.' && seg@[1] == '.');
                    }
                }
                return Some(seg);
            }
        }
    }
}

/// `Path::extension` on characters.
pub(crate) fn path_extension_vec(p: &Vec<char>) -> (r: Option<Vec<char>>)
    ensures
        match r {
            Some(e) => path_extension(p@) == Some(e@),
            None => path_extension(p@) is None,
        },
{
    match file_name_vec(p) {
        Some(name) => {
            assert(name@.take(name@.len() as int) =~= name@);
            match last_index_in(&name, name.len(), '.') {
                Some(k) => {
                    if k == 0 {
                        None
                    } else {
                        let e = copy_range(&name, k + 1, name.len());
                        assert(e@ =~= name@.skip(k + 1));
                        Some(e)
                    }
                },
                None => None,
            }
        },
        None => None,
    }
}

/// `Path::file_name` of a path given as text.
pub(crate) fn file_name_str(path: &str) -> (r: Option<String>)
    ensures
        match r {
            Some(n) => file_name(path@) == Some(n@),
            None => file_name(path@) is None,
        },
{
    let p = chars_of(path);
    match file_name_vec(&p) {
        Some(n) => Some(string_of(&n)),
        None => None,
    }
}

/// Classify an install target. `is_dir` is the filesystem fact about `path`,
/// passed in so this stays pure. A directory is a split-apk set; otherwise the
/// extension (case-insensitively) picks a bundle, an `.aab`, or a single apk.
pub fn classify_install_input(path: &str, is_dir: bool) -> (r: InstallInput)
    ensures
        r == install_kind(path@, is_dir),
{
    if is_dir {
        return InstallInput::MultiApk;
    }
    let p = chars_of(path);
    let ext: Vec<char> = match path_extension_vec(&p) {
        Some(e) => lower_vec(&e),
        None => Vec::new(),
    };
    if eq_str(&ext, "xapk") || eq_str(&ext, "apks") || eq_str(&ext, "apkm") {
        InstallInput::Bundle
    } else if eq_str(&ext, "aab") {
        InstallInput::Aab
    } else {
        InstallInput::Single
    }
}

// ---------------------------------------------------------------------------
// Package lists
// ---------------------------------------------------------------------------

/// The package names listed in `ls`: each trimmed line of the form
/// `package:<name>` with a non-empty name.
pub open spec fn packages_in(ls: Seq<Seq<char>>) -> Seq<Seq<char>>
    decreases ls.len(),
{
    if ls.len() == 0 {
        Seq::empty()
    } else {
        let rest = packages_in(ls.drop_last());
        match strip_prefix(trim(ls.last()), "package:"@) {
            Some(name) => if name.len() > 0 {
                rest.push(name)
            } else {
                rest
            },
            None => rest,
        }
    }
}

/// Parse the output of `adb shell pm list packages` into bare package names.
///
/// Each line looks like `package:com.example.app`; anything else is ignored.
pub fn parse_packages(output: &str) -> (r: Vec<String>)
    ensures
        r.deep_view() == packages_in(lines(output@)),
{
    let ls = lines_of_str(output);
    let mut out: Vec<String> = Vec::new();
    let mut i: usize = 0;
    while i < ls.len()
        invariant
            i <= ls@.len(),
            ls.deep_view() == lines(output@),
            out.deep_view() == packages_in(ls.deep_view().take(i as int)),
        decreases ls@.len() - i,
    {
        proof {
            lemma_line_at(&ls, i as int);
        }
        let ghost lv = ls.deep_view();
        assert(lv.take(i + 1).drop_last() =~= lv.take(i as int));
        assert(lv.take(i + 1).last() == ls@[i as int]@);
        let t = trim_vec(&ls[i]);
        match strip_prefix_str(&t, "package:") {
            Some(name) => {
                if name.len() > 0 {
                    let ghost before = out.deep_view();
                    out.push(string_of(&name));
                    assert(out.deep_view() =~= before.push(name@));
                }
            },
            None => {},
        }
        i = i + 1;
    }
    assert(ls.deep_view().take(ls@.len() as int) =~= ls.deep_view());
    out
}

/// Packages present in `after` but not in `before` — i.e. what an install added.
pub fn newly_installed(before: &[String], after: &[String]) -> (r: Vec<String>)
    ensures
        r.deep_view() == minus(after.deep_view(), before.deep_view()),
{
    strings_minus(after, before)
}

/// True when `getprop sys.boot_completed` reports the emulator has finished booting.
pub fn boot_completed(getprop_output: &str) -> (b: bool)
    ensures
        b == (trim(getprop_output@) == "1"@),
{
    let v = chars_of(getprop_output);
    let t = trim_vec(&v);
    eq_str(&t, "1")
}

/// Some line of `ls`, with leading whitespace removed, starts with `p`.
pub open spec fn some_line_starts_with(ls: Seq<Seq<char>>, p: Seq<char>) -> bool {
    exists|i: int| 0 <= i < ls.len() && has_prefix(trim_start(#[trigger] ls[i]), p)
}

/// The lowercased output reports that PackageManager is not answering.
pub open spec fn reports_pm_failure(lower: Seq<char>) -> bool {
    ||| contains(lower, "can't find service"@)
    ||| contains(lower, "cannot find service"@)
    ||| contains(lower, "failure"@)
    ||| contains(lower, "error:"@)
}

/// True once PackageManager actually answers `adb shell cmd package list
/// packages` — i.e. it lists packages and shows no "service unavailable" error.
///
/// `sys.boot_completed=1` fires before the package service is fully up, so
/// installing immediately after boot can flake; this is the readiness gate.
pub fn package_manager_ready(cmd_package_output: &str) -> (b: bool)
    ensures
        b == (!reports_pm_failure(lower_seq(cmd_package_output@)) && some_line_starts_with(
            lines(cmd_package_output@),
            "package:"@,
        )),
{
    let v = chars_of(cmd_package_output);
    let lower = lower_vec(&v);
    if contains_str(&lower, "can't find service") || contains_str(&lower, "cannot find service")
        || contains_str(&lower, "failure") || contains_str(&lower, "error:") {
        return false;
    }
    let ls = lines_of(&v);
    let prefix = chars_of("package:");
    let mut i: usize = 0;
    while i < ls.len()
        invariant
            i <= ls@.len(),
            ls.deep_view() == lines(cmd_package_output@),
            prefix@ == "package:"@,
            !reports_pm_failure(lower_seq(cmd_package_output@)),
            forall|k: int| 0 <= k < i ==> !has_prefix(trim_start(#[trigger] ls.deep_view()[k]), "package:"@),
        decreases ls@.len() - i,
    {
        proof {
            lemma_line_at(&ls, i as int);
        }
        let t = trim_start_vec(&ls[i]);
        if starts_with(&t, &prefix) {
            assert(has_prefix(trim_start(ls.deep_view()[i as int]), "package:"@));
            return true;
        }
        i = i + 1;
    }
    false
}

/// The first line of `ls` whose trimmed form starts with `p`, trimmed.
pub open spec fn first_trimmed_with_prefix(ls: Seq<Seq<char>>, p: Seq<char>) -> Option<Seq<char>>
    decreases ls.len(),
{
    if ls.len() == 0 {
        None
    } else if has_prefix(trim(ls[0]), p) {
        Some(trim(ls[0]))
    } else {
        first_trimmed_with_prefix(ls.drop_first(), p)
    }
}

/// Extract the `pkg/activity` component from `cmd package resolve-activity
/// --brief -c <category> <pkg>` output. `None` if nothing resolved.
pub fn parse_resolved_activity(output: &str, pkg: &str) -> (r: Option<String>)
    ensures
        match r {
            Some(c) => first_trimmed_with_prefix(lines(output@), pkg@.push('/')) == Some(c@),
            None => first_trimmed_with_prefix(lines(output@), pkg@.push('/')) is None,
        },
{
    let mut prefix = chars_of(pkg);
    prefix.push('/');
    let ls = lines_of_str(output);
    let mut i: usize = 0;
    assert(ls.deep_view().skip(0) =~= ls.deep_view());
    while i < ls.len()
        invariant
            i <= ls@.len(),
            ls.deep_view() == lines(output@),
            prefix@ == pkg@.push('/'),
            first_trimmed_with_prefix(lines(output@), prefix@) == first_trimmed_with_prefix(
                ls.deep_view().skip(i as int),
                prefix@,
            ),
        decreases ls@.len() - i,
    {
        proof {
            lemma_line_at(&ls, i as int);
        }
        let ghost rest = ls.deep_view().skip(i as int);
        assert(rest[0] == ls@[i as int]@);
        assert(rest.drop_first() =~= ls.deep_view().skip(i + 1));
        let t = trim_vec(&ls[i]);
        if starts_with(&t, &prefix) {
            return Some(string_of(&t));
        }
        i = i + 1;
    }
    None
}

// ---------------------------------------------------------------------------
// Residue in a shared `~/.android`
// ---------------------------------------------------------------------------

/// A file name andro itself leaves in an Android home.
pub open spec fn is_andro_artifact_name(name: Seq<char>) -> bool {
    ||| name == "adbkey"@
    ||| name == "adbkey.pub"@
    ||| name == "cache"@
    ||| name == "emu-update-last-check.ini"@
    ||| name == "emu-last-feature-flags.protobuf"@
    ||| name == "userid"@
    ||| has_prefix(name, "modem-nv-ram"@)
    ||| has_prefix(name, "emu-"@)
}

fn is_andro_artifact(name: &String) -> (b: bool)
    ensures
        b == is_andro_artifact_name(name@),
{
    let v = chars_of(name.as_str());
    let modem = chars_of("modem-nv-ram");
    let emu = chars_of("emu-");
    eq_str(&v, "adbkey") || eq_str(&v, "adbkey.pub") || eq_str(&v, "cache") || eq_str(
        &v,
        "emu-update-last-check.ini",
    ) || eq_str(&v, "emu-last-feature-flags.protobuf") || eq_str(&v, "userid") || starts_with(
        &v,
        &modem,
    ) || starts_with(&v, &emu)
}

/// True when every entry in `~/.android` is an andro-attributable artifact, so
/// the leftover residue is safe to remove. False if ANY foreign file is present
/// (e.g. an Android Studio `avd/`, `debug.keystore`, `ddms.cfg`), and false for
/// an empty listing — never touch a shared `~/.android` that holds something
/// andro didn't create.
pub fn android_residue_is_andro_only(entries: &[String]) -> (b: bool)
    ensures
        b == (entries@.len() > 0 && forall|i: int|
            0 <= i < entries@.len() ==> is_andro_artifact_name(#[trigger] entries@[i]@)),
{
    if entries.len() == 0 {
        return false;
    }
    let mut i: usize = 0;
    while i < entries.len()
        invariant
            i <= entries@.len(),
            forall|k: int| 0 <= k < i ==> is_andro_artifact_name(#[trigger] entries@[k]@),
        decreases entries@.len() - i,
    {
        if !is_andro_artifact(&entries[i]) {
            return false;
        }
        i = i + 1;
    }
    true
}

/// System images that are installed but referenced by no live AVD — i.e. safe
/// to prune. Both lists are relative image paths (`system-images/<api>/<tag>/<abi>`).
pub fn unreferenced_images(installed: &[String], referenced: &[String]) -> (r: Vec<String>)
    ensures
        r.deep_view() == minus(installed.deep_view(), referenced.deep_view()),
{
    strings_minus(installed, referenced)
}

// ---------------------------------------------------------------------------
// AVD config.ini
// ---------------------------------------------------------------------------

/// The text after `p` on the first line of `ls` whose trimmed form starts with `p`.
pub open spec fn first_value(ls: Seq<Seq<char>>, p: Seq<char>) -> Option<Seq<char>>
    decreases ls.len(),
{
    if ls.len() == 0 {
        None
    } else if has_prefix(trim(ls[0]), p) {
        Some(trim(ls[0]).skip(p.len() as int))
    } else {
        first_value(ls.drop_first(), p)
    }
}

/// `first_value` over the lines of `v`.
fn first_value_vec(v: &Vec<char>, p: &Vec<char>) -> (r: Option<Vec<char>>)
    ensures
        match r {
            Some(x) => first_value(lines(v@), p@) == Some(x@),
            None => first_value(lines(v@), p@) is None,
        },
{
    let ls = lines_of(v);
    let mut i: usize = 0;
    assert(ls.deep_view().skip(0) =~= ls.deep_view());
    while i < ls.len()
        invariant
            i <= ls@.len(),
            ls.deep_view() == lines(v@),
            first_value(lines(v@), p@) == first_value(ls.deep_view().skip(i as int), p@),
        decreases ls@.len() - i,
    {
        proof {
            lemma_line_at(&ls, i as int);
        }
        let ghost rest = ls.deep_view().skip(i as int);
        assert(rest[0] == ls@[i as int]@);
        assert(rest.drop_first() =~= ls.deep_view().skip(i + 1));
        let t = trim_vec(&ls[i]);
        if starts_with(&t, p) {
            let x = copy_range(&t, p.len(), t.len());
            assert(x@ =~= t@.skip(p@.len() as int));
            return Some(x);
        }
        i = i + 1;
    }
    None
}

/// The AVD's `image.sysdir.1` value, trimmed and without trailing `/`.
pub open spec fn image_sysdir_of(ini: Seq<char>) -> Option<Seq<char>> {
    match first_value(lines(ini), "image.sysdir.1="@) {
        Some(v) => Some(trim_end_char(trim(v), '/')),
        None => None,
    }
}

/// The value of `key=` in a `config.ini`, trimmed.
pub open spec fn config_value_of(ini: Seq<char>, key: Seq<char>) -> Option<Seq<char>> {
    match first_value(lines(ini), key.push('=')) {
        Some(v) => Some(trim(v)),
        None => None,
    }
}

/// Extract the AVD's `image.sysdir.1=<path>` value from a `config.ini`, trimmed
/// of whitespace and any trailing slash. `None` if the key is absent.
pub fn parse_image_sysdir(config_ini: &str) -> (r: Option<String>)
    ensures
        match r {
            Some(s) => image_sysdir_of(config_ini@) == Some(s@),
            None => image_sysdir_of(config_ini@) is None,
        },
{
    let v = chars_of(config_ini);
    let p = chars_of("image.sysdir.1=");
    match first_value_vec(&v, &p) {
        Some(x) => {
            let t = trim_vec(&x);
            let u = trim_end_char_vec(&t, '/');
            Some(string_of(&u))
        },
        None => None,
    }
}

/// Read a `key=value` out of a `config.ini`, trimmed. `None` when absent.
pub fn config_value(config_ini: &str, key: &str) -> (r: Option<String>)
    ensures
        match r {
            Some(s) => config_value_of(config_ini@, key@) == Some(s@),
            None => config_value_of(config_ini@, key@) is None,
        },
{
    let v = chars_of(config_ini);
    let mut p = chars_of(key);
    p.push('=');
    match first_value_vec(&v, &p) {
        Some(x) => {
            let t = trim_vec(&x);
            Some(string_of(&t))
        },
        None => None,
    }
}

/// An existing AVD's `config.ini` still matches the requested image (path form,
/// trailing `/` ignored) and device; a file missing either key never matches.
pub open spec fn avd_config_matches(ini: Seq<char>, sysdir: Seq<char>, device: Seq<char>) -> bool {
    match (image_sysdir_of(ini), config_value_of(ini, "hw.device.name"@)) {
        (Some(s), Some(d)) => s == trim_end_char(sysdir, '/') && d == device,
        _ => false,
    }
}

/// True when an existing AVD's `config.ini` still matches the requested system
/// image and device profile.
///
/// `expected_sysdir` is the image in path form (`system-images/android-36/...`,
/// i.e. `Config::image()` with `;` replaced by `/`) and `expected_device` the
/// avdmanager device name. A `config.ini` missing either key counts as a
/// mismatch: we cannot prove it matches, and an AVD is disposable by design.
pub fn avd_matches(config_ini: &str, expected_sysdir: &str, expected_device: &str) -> (b: bool)
    ensures
        b == avd_config_matches(config_ini@, expected_sysdir@, expected_device@),
{
    let sysdir = parse_image_sysdir(config_ini);
    let device = config_value(config_ini, "hw.device.name");
    match (sysdir, device) {
        (Some(s), Some(d)) => {
            let sv = chars_of(s.as_str());
            let ev = chars_of(expected_sysdir);
            let et = trim_end_char_vec(&ev, '/');
            let dv = chars_of(d.as_str());
            let edv = chars_of(expected_device);
            eq_vec(&sv, &et) && eq_vec(&dv, &edv)
        },
        _ => false,
    }
}

/// The label of an image (path form) on a device: `android-36/google_apis/arm64-v8a on pixel`.
pub open spec fn avd_label_of(sysdir: Seq<char>, device: Seq<char>) -> Seq<char> {
    let t = trim_end_char(sysdir, '/');
    let image = match strip_prefix(t, "system-images/"@) {
        Some(rest) => rest,
        None => t,
    };
    image + " on "@ + device
}

/// What an existing AVD is, in the same shape [`avd_label`] renders a request:
/// `android-34/google_apis/arm64-v8a on pixel`; `unknown` stands for a missing key.
pub open spec fn avd_config_label(ini: Seq<char>) -> Seq<char> {
    let image = match image_sysdir_of(ini) {
        Some(s) => s,
        None => "unknown"@,
    };
    let device = match config_value_of(ini, "hw.device.name"@) {
        Some(d) => d,
        None => "unknown"@,
    };
    avd_label_of(image, device)
}

/// What an existing AVD is, in the same shape [`avd_label`] renders a request:
/// `android-34/google_apis/arm64-v8a on pixel`. Lets a recreate or refusal
/// message name exactly what changed — API level, image tag or device.
pub fn avd_label_from_config(config_ini: &str) -> (s: String)
    ensures
        s@ == avd_config_label(config_ini@),
{
    let image = match parse_image_sysdir(config_ini) {
        Some(s) => s,
        None => String::from_str("unknown"),
    };
    let device = match config_value(config_ini, "hw.device.name") {
        Some(d) => d,
        None => String::from_str("unknown"),
    };
    avd_label(image.as_str(), device.as_str())
}

/// The same label for a *requested* configuration. `sysdir` is the image in path
/// form (`Config::image()` with `;` replaced by `/`); the `system-images/` prefix
/// is dropped so both sides read as `android-36/google_apis/arm64-v8a on pixel`.
pub fn avd_label(sysdir: &str, device: &str) -> (s: String)
    ensures
        s@ == avd_label_of(sysdir@, device@),
{
    let v = chars_of(sysdir);
    let t = trim_end_char_vec(&v, '/');
    let image = match strip_prefix_str(&t, "system-images/") {
        Some(rest) => rest,
        None => t,
    };
    let mut s = string_of(&image);
    push_str(&mut s, " on ");
    push_str(&mut s, device);
    s
}

/// Requesting exactly what an AVD already holds renders the same label on both
/// sides: when `avd_matches` accepts a `config.ini`, the label read from the file
/// equals the label of the request.
pub proof fn lemma_matching_avd_has_requested_label(
    config_ini: Seq<char>,
    expected_sysdir: Seq<char>,
    expected_device: Seq<char>,
)
    requires
        avd_config_matches(config_ini, expected_sysdir, expected_device),
    ensures
        avd_config_label(config_ini) == avd_label_of(expected_sysdir, expected_device),
{
    let s = image_sysdir_of(config_ini).unwrap();
    lemma_trim_end_char_idempotent(expected_sysdir, '/');
    assert(s == trim_end_char(expected_sysdir, '/'));
    assert(trim_end_char(s, '/') == trim_end_char(expected_sysdir, '/'));
}

/// Trimming a trailing character twice trims it once.
pub proof fn lemma_trim_end_char_idempotent(s: Seq<char>, c: char)
    ensures
        trim_end_char(trim_end_char(s, c), c) == trim_end_char(s, c),
    decreases s.len(),
{
    if s.len() > 0 && s.last() == c {
        lemma_trim_end_char_idempotent(s.drop_last(), c);
    }
}

// ---------------------------------------------------------------------------
// The emulator console
// ---------------------------------------------------------------------------

/// The first line of `ls` that is not blank, trimmed.
pub open spec fn first_nonblank(ls: Seq<Seq<char>>) -> Option<Seq<char>>
    decreases ls.len(),
{
    if ls.len() == 0 {
        None
    } else if trim(ls[0]).len() > 0 {
        Some(trim(ls[0]))
    } else {
        first_nonblank(ls.drop_first())
    }
}

/// A console reply line that is an AVD name rather than a status or an error.
pub open spec fn is_avd_name_line(l: Seq<char>) -> bool {
    &&& l != "OK"@
    &&& l != "KO"@
    &&& !has_prefix(l, "error"@)
    &&& !has_prefix(l, "KO:"@)
    &&& !contains(l, ":"@)
}

/// Parse `adb emu avd name`, whose reply is the AVD name followed by adb's
/// trailing `OK`. `None` when nothing is attached (`error: no emulator
/// detected`) or the console answered anything but a name.
pub fn parse_avd_name(output: &str) -> (r: Option<String>)
    ensures
        match r {
            Some(n) => first_nonblank(lines(output@)) == Some(n@) && is_avd_name_line(n@),
            None => match first_nonblank(lines(output@)) {
                Some(l) => !is_avd_name_line(l),
                None => true,
            },
        },
{
    let ls = lines_of_str(output);
    let mut i: usize = 0;
    assert(ls.deep_view().skip(0) =~= ls.deep_view());
    while i < ls.len()
        invariant
            i <= ls@.len(),
            ls.deep_view() == lines(output@),
            first_nonblank(lines(output@)) == first_nonblank(ls.deep_view().skip(i as int)),
        decreases ls@.len() - i,
    {
        proof {
            lemma_line_at(&ls, i as int);
        }
        let ghost rest = ls.deep_view().skip(i as int);
        assert(rest[0] == ls@[i as int]@);
        assert(rest.drop_first() =~= ls.deep_view().skip(i + 1));
        let t = trim_vec(&ls[i]);
        if t.len() > 0 {
            let error = chars_of("error");
            let ko = chars_of("KO:");
            if eq_str(&t, "OK") || eq_str(&t, "KO") || starts_with(&t, &error) || starts_with(
                &t,
                &ko,
            ) || contains_str(&t, ":") {
                return None;
            }
            return Some(string_of(&t));
        }
        i = i + 1;
    }
    None
}

// ---------------------------------------------------------------------------
// Keyboard passthrough
// ---------------------------------------------------------------------------

/// The line sets the bare `hw.keyboard` key (not `hw.keyboard.charmap` etc).
pub open spec fn is_hw_keyboard(line: Seq<char>) -> bool {
    match strip_prefix(trim_start(line), "hw.keyboard"@) {
        Some(rest) => has_prefix(trim_start(rest), "="@),
        None => false,
    }
}

/// The trimmed text after the first `=` of a line, or empty without one.
pub open spec fn ini_value(line: Seq<char>) -> Seq<char> {
    let k = first_index_of(line, '=');
    if k < line.len() {
        trim(line.skip(k + 1))
    } else {
        Seq::empty()
    }
}

/// A `hw.keyboard` line that does not already read `yes`.
pub open spec fn needs_keyboard_fix(line: Seq<char>) -> bool {
    is_hw_keyboard(line) && ini_value(line) != "yes"@
}

/// A line as the rewrite leaves it.
pub open spec fn keyboard_line(line: Seq<char>) -> Seq<char> {
    if needs_keyboard_fix(line) {
        "hw.keyboard=yes"@
    } else {
        line
    }
}

/// What `with_hw_keyboard_enabled` returns for a `config.ini` with text `ini`.
pub open spec fn keyboard_enabled(ini: Seq<char>) -> Option<Seq<char>> {
    let ls = lines(ini);
    let found = exists|i: int| 0 <= i < ls.len() && is_hw_keyboard(#[trigger] ls[i]);
    let stale = exists|i: int| 0 <= i < ls.len() && needs_keyboard_fix(#[trigger] ls[i]);
    let kept = ls.map_values(|l: Seq<char>| keyboard_line(l));
    let out = if found {
        kept
    } else {
        kept.push("hw.keyboard=yes"@)
    };
    let tail = if ini.len() > 0 && ini.last() == '\n' {
        seq!['\n']
    } else {
        Seq::empty()
    };
    if found && !stale {
        None
    } else {
        Some(join_lines(out) + tail)
    }
}

fn is_hw_keyboard_vec(line: &Vec<char>) -> (b: bool)
    ensures
        b == is_hw_keyboard(line@),
{
    let t = trim_start_vec(line);
    match strip_prefix_str(&t, "hw.keyboard") {
        Some(rest) => {
            let r = trim_start_vec(&rest);
            let eq = chars_of("=");
            starts_with(&r, &eq)
        },
        None => false,
    }
}

fn ini_value_vec(line: &Vec<char>) -> (r: Vec<char>)
    ensures
        r@ == ini_value(line@),
{
    let k = first_index_in(line, '=');
    if k < line.len() {
        let rest = copy_range(line, k + 1, line.len());
        assert(rest@ =~= line@.skip(k + 1));
        trim_vec(&rest)
    } else {
        Vec::new()
    }
}

/// Ensure an AVD `config.ini` enables the emulated hardware keyboard so the host
/// (Mac) keyboard types into the guest. avdmanager's device profiles default
/// `hw.keyboard=no`, which silently drops host key events — you tap a field, the
/// on-screen keyboard shows, but typing on the Mac does nothing. Flipping it to
/// `yes` forwards the physical keyboard; the soft IME still appears because the
/// system images default `show_ime_with_hard_keyboard=1`.
///
/// Pure string transform: returns the rewritten file when a change is needed, or
/// `None` if it already reads `hw.keyboard=yes` (so the caller can skip writing).
/// Only the exact `hw.keyboard=` key is touched — `hw.keyboard.charmap`/`.lid`
/// are left alone.
pub fn with_hw_keyboard_enabled(config_ini: &str) -> (r: Option<String>)
    ensures
        match r {
            Some(s) => keyboard_enabled(config_ini@) == Some(s@),
            None => keyboard_enabled(config_ini@) is None,
        },
{
    let v = chars_of(config_ini);
    let ls = lines_of(&v);
    let yes = chars_of("yes");
    let fixed = chars_of("hw.keyboard=yes");
    let ghost lv = ls.deep_view();
    let mut found = false;
    let mut changed = false;
    let mut out: Vec<Vec<char>> = Vec::new();
    let mut i: usize = 0;
    while i < ls.len()
        invariant
            i <= ls@.len(),
            lv == ls.deep_view(),
            lv == lines(config_ini@),
            yes@ == "yes"@,
            fixed@ == "hw.keyboard=yes"@,
            out.deep_view() == lv.take(i as int).map_values(|l: Seq<char>| keyboard_line(l)),
            found == (exists|k: int| 0 <= k < i && is_hw_keyboard(#[trigger] lv[k])),
            changed == (exists|k: int| 0 <= k < i && needs_keyboard_fix(#[trigger] lv[k])),
        decreases ls@.len() - i,
    {
        proof {
            lemma_line_at(&ls, i as int);
        }
        let line = &ls[i];
        let ghost before = out.deep_view();
        if is_hw_keyboard_vec(line) {
            found = true;
            let value = ini_value_vec(line);
            if eq_vec(&value, &yes) {
                out.push(copy_range(line, 0, line.len()));
            } else {
                out.push(copy_range(&fixed, 0, fixed.len()));
                changed = true;
            }
        } else {
            out.push(copy_range(line, 0, line.len()));
        }
        proof {
            lemma_char_vec_deep_view(&out@[i as int]);
            assert(line@.subrange(0, line@.len() as int) =~= line@);
            assert(fixed@.subrange(0, fixed@.len() as int) =~= fixed@);
            assert(out.deep_view() =~= before.push(keyboard_line(lv[i as int])));
            assert(lv.take(i + 1).map_values(|l: Seq<char>| keyboard_line(l)) =~= lv.take(
                i as int,
            ).map_values(|l: Seq<char>| keyboard_line(l)).push(keyboard_line(lv[i as int])));
            if is_hw_keyboard(lv[i as int]) {
                assert(exists|k: int| 0 <= k < i + 1 && is_hw_keyboard(#[trigger] lv[k]));
            }
            if needs_keyboard_fix(lv[i as int]) {
                assert(exists|k: int| 0 <= k < i + 1 && needs_keyboard_fix(#[trigger] lv[k]));
            }
        }
        i = i + 1;
    }
    assert(lv.take(i as int) =~= lv);
    if !found {
        let ghost before = out.deep_view();
        out.push(copy_range(&fixed, 0, fixed.len()));
        proof {
            lemma_char_vec_deep_view(&out@[out@.len() - 1]);
            assert(fixed@.subrange(0, fixed@.len() as int) =~= fixed@);
            assert(out.deep_view() =~= before.push("hw.keyboard=yes"@));
        }
        changed = true;
    }
    if !changed {
        return None;
    }
    let mut result = join_lines_vec(&out);
    if v.len() > 0 && v[v.len() - 1] == '\n' {
        result.push('\n');
    }
    Some(result)
}

/// Dropping trailing whitespace shortens `trim_start` by that character, or
/// leaves it empty.
proof fn lemma_trim_start_drop_ws(x: Seq<char>)
    requires
        x.len() > 0,
        is_ws(x.last()),
    ensures
        trim_start(x).len() == 0 ==> trim_start(x.drop_last()).len() == 0,
        trim_start(x).len() > 0 ==> trim_start(x.drop_last()) == trim_start(x).drop_last()
            && trim_start(x).last() == x.last(),
    decreases x.len(),
{
    if is_ws(x[0]) {
        if x.len() > 1 {
            let t = x.drop_first();
            assert(x.drop_last()[0] == x[0]);
            assert(x.drop_last().drop_first() =~= t.drop_last());
            assert(t.last() == x.last());
            lemma_trim_start_drop_ws(t);
        } else {
            assert(x.drop_first().len() == 0);
            assert(x.drop_last().len() == 0);
        }
    } else {
        assert(x.len() > 1);
        assert(x.drop_last()[0] == x[0]);
    }
}

/// Trailing whitespace does not change `trim`.
proof fn lemma_trim_drop_ws(y: Seq<char>)
    requires
        y.len() > 0,
        is_ws(y.last()),
    ensures
        trim(y.drop_last()) == trim(y),
{
    lemma_trim_start_drop_ws(y);
    let t = trim_start(y);
    if t.len() == 0 {
        assert(trim_start(y.drop_last()) =~= t);
    }
}

/// A trailing `'\r'` changes neither whether a line is the `hw.keyboard` key
/// nor whether it needs the fix.
proof fn lemma_keyboard_drop_cr(x: Seq<char>)
    ensures
        is_hw_keyboard(drop_cr(x)) == is_hw_keyboard(x),
        needs_keyboard_fix(drop_cr(x)) == needs_keyboard_fix(x),
{
    if x.len() > 0 && x.last() == '\r' {
        reveal_strlit("hw.keyboard");
        reveal_strlit("=");
        let k_ = "hw.keyboard"@;
        let xs = x.drop_last();
        lemma_trim_start_drop_ws(x);
        let t = trim_start(x);
        let t2 = trim_start(xs);
        if t.len() > 0 {
            if has_prefix(t, k_) {
                assert(t.len() != 11) by {
                    if t.len() == 11 {
                        assert(t.take(11)[10] == k_[10]);
                    }
                }
                assert(t2.take(11) =~= t.take(11));
                let rest = t.skip(11);
                let rest2 = t2.skip(11);
                assert(rest2 =~= rest.drop_last());
                lemma_trim_start_drop_ws(rest);
                let u = trim_start(rest);
                let u2 = trim_start(rest2);
                if u.len() > 0 {
                    if has_prefix(u, "="@) {
                        assert(u.take(1)[0] == '=');
                        assert(u.len() >= 2);
                        assert(u2.take(1) =~= u.take(1));
                    }
                    if has_prefix(u2, "="@) {
                        assert(u.take(1) =~= u2.take(1));
                    }
                }
            } else if has_prefix(t2, k_) {
                assert(t.take(11) =~= t2.take(11));
            }
        }
        // the value after the first '='
        lemma_first_index_of_bounds(x, '=');
        lemma_first_index_of_bounds(xs, '=');
        let k = first_index_of(x, '=');
        let k2 = first_index_of(xs, '=');
        if k < x.len() {
            assert(k < x.len() - 1);
            assert(xs[k] == '=');
            if k2 < k {
                assert(x[k2] == xs[k2]);
            }
            assert(k2 == k);
            let y = x.skip(k + 1);
            assert(xs.skip(k + 1) =~= y.drop_last());
            lemma_trim_drop_ws(y);
        } else {
            if k2 < xs.len() {
                assert(x[k2] == xs[k2]);
            }
        }
    }
}

/// The line the fix writes is the `hw.keyboard` key and reads `yes`.
proof fn lemma_fixed_keyboard_line()
    ensures
        is_hw_keyboard("hw.keyboard=yes"@),
        !needs_keyboard_fix("hw.keyboard=yes"@),
        !"hw.keyboard=yes"@.contains('\n'),
        "hw.keyboard=yes"@.len() > 0,
        drop_cr("hw.keyboard=yes"@) == "hw.keyboard=yes"@,
{
    reveal_strlit("hw.keyboard=yes");
    reveal_strlit("hw.keyboard");
    reveal_strlit("=");
    reveal_strlit("yes");
    reveal_strlit("=yes");
    let f = "hw.keyboard=yes"@;
    assert(trim_start(f) == f);
    assert(f.take(11) =~= "hw.keyboard"@);
    let rest = f.skip(11);
    assert(rest =~= "=yes"@);
    assert(trim_start(rest) == rest);
    assert(rest.take(1) =~= "="@);
    lemma_first_index_of_bounds(f, '=');
    let k = first_index_of(f, '=');
    assert(f[11] == '=');
    assert(k == 11);
    assert(f.skip(12) =~= "yes"@);
    assert(trim_start("yes"@) == "yes"@);
    assert(trim_end("yes"@) == "yes"@);
    assert(!f.contains('\n')) by {
        if f.contains('\n') {
            let j = choose|j: int| 0 <= j < f.len() && f[j] == '\n';
        }
    }
}

/// The rewrite is idempotent: a `config.ini` that `with_hw_keyboard_enabled`
/// rewrote needs no further rewrite.
pub proof fn lemma_keyboard_rewrite_idempotent(ini: Seq<char>)
    requires
        keyboard_enabled(ini) is Some,
    ensures
        keyboard_enabled(keyboard_enabled(ini)->0) is None,
{
    let ls = lines(ini);
    let found = exists|i: int| 0 <= i < ls.len() && is_hw_keyboard(#[trigger] ls[i]);
    let kept = ls.map_values(|l: Seq<char>| keyboard_line(l));
    let fixed = "hw.keyboard=yes"@;
    let out_ls = if found {
        kept
    } else {
        kept.push(fixed)
    };
    let tail = if ini.len() > 0 && ini.last() == '\n' {
        seq!['\n']
    } else {
        Seq::<char>::empty()
    };
    let out = join_lines(out_ls) + tail;
    assert(keyboard_enabled(ini) == Some(out));
    lemma_fixed_keyboard_line();
    lemma_lines_no_newline(ini, 0);
    assert forall|i: int| 0 <= i < out_ls.len() implies !(#[trigger] out_ls[i]).contains('\n') by {
        if i < ls.len() {
            assert(!ls[i].contains('\n'));
            assert(out_ls[i] == keyboard_line(ls[i]));
        }
    }
    if found {
        let w = choose|i: int| 0 <= i < ls.len() && is_hw_keyboard(#[trigger] ls[i]);
        assert(out_ls.len() > 0);
    }
    if tail.len() == 0 {
        if ini.len() > 0 {
            lemma_last_line_nonempty(ini, 0);
        }
        if found {
            assert(out_ls.last() == keyboard_line(ls.last()));
        }
    }
    lemma_lines_of_join(out_ls, tail);
    let m = lines(out);
    assert forall|i: int| 0 <= i < m.len() implies (#[trigger] is_hw_keyboard(m[i])) == is_hw_keyboard(
        out_ls[i],
    ) && needs_keyboard_fix(m[i]) == needs_keyboard_fix(out_ls[i]) by {
        lemma_keyboard_drop_cr(out_ls[i]);
    }
    // the key is present
    if found {
        let w = choose|i: int| 0 <= i < ls.len() && is_hw_keyboard(#[trigger] ls[i]);
        assert(out_ls[w] == keyboard_line(ls[w]));
        assert(is_hw_keyboard(m[w]));
    } else {
        assert(out_ls[out_ls.len() - 1] == fixed);
        assert(is_hw_keyboard(m[m.len() - 1]));
    }
    // and no line needs the fix any more
    assert forall|i: int| 0 <= i < m.len() implies !needs_keyboard_fix(#[trigger] m[i]) by {
        if i < ls.len() {
            assert(out_ls[i] == keyboard_line(ls[i]));
        } else {
            assert(out_ls[i] == fixed);
        }
        assert(needs_keyboard_fix(m[i]) == needs_keyboard_fix(out_ls[i]));
    }
}

// ---------------------------------------------------------------------------
// Reinstalls
// ---------------------------------------------------------------------------

/// Scanning state over `dumpsys package packages`: the package whose block the
/// scan is in, and the best `(lastUpdateTime, package)` seen so far.
pub type DumpsysScan = (Option<Seq<char>>, Option<(Seq<char>, Seq<char>)>);

/// One line of the scan.
pub open spec fn dumpsys_step(st: DumpsysScan, line: Seq<char>, cands: Seq<Seq<char>>) -> DumpsysScan {
    let l = trim(line);
    match strip_prefix(l, "Package ["@) {
        Some(rest) => (Some(rest.take(first_index_of(rest, ']'))), st.1),
        None => match (strip_prefix(l, "lastUpdateTime="@), st.0) {
            (Some(value), Some(pkg)) => if cands.contains(pkg) {
                let when = trim(value);
                match st.1 {
                    Some(b) => if lex_lt(b.0, when) {
                        (st.0, Some((when, pkg)))
                    } else {
                        st
                    },
                    None => (st.0, Some((when, pkg))),
                }
            } else {
                st
            },
            _ => st,
        },
    }
}

/// The scan after every line of `ls`.
pub open spec fn dumpsys_scan(ls: Seq<Seq<char>>, cands: Seq<Seq<char>>) -> DumpsysScan
    decreases ls.len(),
{
    if ls.len() == 0 {
        (None, None)
    } else {
        dumpsys_step(dumpsys_scan(ls.drop_last(), cands), ls.last(), cands)
    }
}

/// The package `most_recently_updated` picks from a dumpsys listing.
pub open spec fn latest_update(dumpsys: Seq<char>, cands: Seq<Seq<char>>) -> Option<Seq<char>> {
    match dumpsys_scan(lines(dumpsys), cands).1 {
        Some(b) => Some(b.1),
        None => None,
    }
}

/// The package a `Package [<name>]` header line opens, if the line is one.
pub open spec fn header_package(line: Seq<char>) -> Option<Seq<char>> {
    match strip_prefix(trim(line), "Package ["@) {
        Some(rest) => Some(rest.take(first_index_of(rest, ']'))),
        None => None,
    }
}

/// The package of the last header among `ls`: the block a following line is in.
pub open spec fn current_package(ls: Seq<Seq<char>>) -> Option<Seq<char>>
    decreases ls.len(),
{
    if ls.len() == 0 {
        None
    } else {
        match header_package(ls.last()) {
            Some(p) => Some(p),
            None => current_package(ls.drop_last()),
        }
    }
}

/// The trimmed value of a `lastUpdateTime=` line that is not a header.
pub open spec fn update_time(line: Seq<char>) -> Option<Seq<char>> {
    if header_package(line) is Some {
        None
    } else {
        match strip_prefix(trim(line), "lastUpdateTime="@) {
            Some(v) => Some(trim(v)),
            None => None,
        }
    }
}

/// Every `(lastUpdateTime, package)` of a candidate, in the order of the text:
/// each `lastUpdateTime=` line paired with the package of the nearest header
/// above it, kept when that package is a candidate.
pub open spec fn update_events(ls: Seq<Seq<char>>, cands: Seq<Seq<char>>) -> Seq<(Seq<char>, Seq<char>)>
    decreases ls.len(),
{
    if ls.len() == 0 {
        Seq::empty()
    } else {
        let rest = update_events(ls.drop_last(), cands);
        match (update_time(ls.last()), current_package(ls.drop_last())) {
            (Some(w), Some(p)) => if cands.contains(p) {
                rest.push((w, p))
            } else {
                rest
            },
            _ => rest,
        }
    }
}

/// The best-so-far of the scan is the first of the latest update events seen.
proof fn lemma_scan_tracks_latest(ls: Seq<Seq<char>>, cands: Seq<Seq<char>>)
    ensures
        dumpsys_scan(ls, cands).0 == current_package(ls),
        dumpsys_scan(ls, cands).1 is None <==> update_events(ls, cands).len() == 0,
        dumpsys_scan(ls, cands).1 is Some ==> ({
            let b = dumpsys_scan(ls, cands).1->0;
            let e = update_events(ls, cands);
            exists|i: int|
                0 <= i < e.len() && e[i] == b && (forall|j: int|
                    0 <= j < e.len() ==> !lex_lt(b.0, #[trigger] e[j].0)) && (forall|j: int|
                    0 <= j < i ==> lex_lt(#[trigger] e[j].0, b.0))
        }),
    decreases ls.len(),
{
    if ls.len() > 0 {
        let prev = ls.drop_last();
        lemma_scan_tracks_latest(prev, cands);
        let st = dumpsys_scan(prev, cands);
        let e0 = update_events(prev, cands);
        let e = update_events(ls, cands);
        let line = ls.last();
        if header_package(line) is Some {
            assert(e == e0);
        } else {
            match (update_time(line), current_package(prev)) {
                (Some(w), Some(p)) => {
                    if cands.contains(p) {
                        assert(e == e0.push((w, p)));
                        match st.1 {
                            Some(b) => {
                                let i = choose|i: int|
                                    0 <= i < e0.len() && e0[i] == b && (forall|j: int|
                                        0 <= j < e0.len() ==> !lex_lt(b.0, #[trigger] e0[j].0))
                                        && (forall|j: int| 0 <= j < i ==> lex_lt(#[trigger] e0[j].0, b.0));
                                if lex_lt(b.0, w) {
                                    assert(dumpsys_scan(ls, cands).1 == Some((w, p)));
                                    lemma_lex_lt_asymmetric(w, w);
                                    assert forall|j: int| 0 <= j < e.len() implies lex_lt(
                                        #[trigger] e[j].0,
                                        w,
                                    ) || j == e0.len() by {
                                        if j < e0.len() {
                                            assert(e[j] == e0[j]);
                                            lemma_lex_lt_total(e0[j].0, b.0);
                                            if e0[j].0 != b.0 && !lex_lt(e0[j].0, b.0) {
                                                assert(lex_lt(b.0, e0[j].0));
                                            }
                                            if e0[j].0 != b.0 {
                                                lemma_lex_lt_transitive(e0[j].0, b.0, w);
                                            }
                                        }
                                    }
                                    assert forall|j: int| 0 <= j < e.len() implies !lex_lt(
                                        w,
                                        #[trigger] e[j].0,
                                    ) by {
                                        if j < e0.len() {
                                            lemma_lex_lt_asymmetric(e[j].0, w);
                                        }
                                    }
                                    assert(e[e0.len() as int] == (w, p));
                                } else {
                                    assert(dumpsys_scan(ls, cands).1 == Some(b));
                                    assert(e[i] == b);
                                    assert forall|j: int| 0 <= j < e.len() implies !lex_lt(
                                        b.0,
                                        #[trigger] e[j].0,
                                    ) by {
                                        if j < e0.len() {
                                            assert(e[j] == e0[j]);
                                        }
                                    }
                                    assert forall|j: int| 0 <= j < i implies lex_lt(#[trigger] e[j].0, b.0) by {
                                        assert(e[j] == e0[j]);
                                    }
                                }
                            },
                            None => {
                                assert(e0.len() == 0);
                                assert(dumpsys_scan(ls, cands).1 == Some((w, p)));
                                lemma_lex_lt_asymmetric(w, w);
                                assert(e[0] == (w, p));
                            },
                        }
                    } else {
                        assert(e == e0);
                    }
                },
                _ => {
                    assert(e == e0);
                },
            }
        }
    }
}

/// `most_recently_updated` picks the latest update: its result is `None`
/// exactly when no candidate has a `lastUpdateTime`, and otherwise a candidate
/// whose update time no other candidate's exceeds (string order), the first in
/// the text among equally late ones.
pub proof fn lemma_latest_update_is_latest(dumpsys: Seq<char>, cands: Seq<Seq<char>>)
    ensures
        latest_update(dumpsys, cands) is None <==> update_events(lines(dumpsys), cands).len() == 0,
        latest_update(dumpsys, cands) is Some ==> ({
            let e = update_events(lines(dumpsys), cands);
            exists|i: int|
                0 <= i < e.len() && e[i].1 == latest_update(dumpsys, cands)->0 && (forall|j: int|
                    0 <= j < e.len() ==> !lex_lt(e[i].0, #[trigger] e[j].0)) && (forall|j: int|
                    0 <= j < i ==> lex_lt(#[trigger] e[j].0, e[i].0))
        }),
{
    lemma_scan_tracks_latest(lines(dumpsys), cands);
    let ls = lines(dumpsys);
    if dumpsys_scan(ls, cands).1 is Some {
        let b = dumpsys_scan(ls, cands).1->0;
        let e = update_events(ls, cands);
        let i = choose|i: int|
            0 <= i < e.len() && e[i] == b && (forall|j: int|
                0 <= j < e.len() ==> !lex_lt(b.0, #[trigger] e[j].0)) && (forall|j: int|
                0 <= j < i ==> lex_lt(#[trigger] e[j].0, b.0));
        assert(e[i].1 == latest_update(dumpsys, cands)->0);
    }
}

spec fn opt_chars(o: Option<Vec<char>>) -> Option<Seq<char>> {
    match o {
        Some(v) => Some(v@),
        None => None,
    }
}

spec fn opt_pair(o: Option<(Vec<char>, Vec<char>)>) -> Option<(Seq<char>, Seq<char>)> {
    match o {
        Some(p) => Some((p.0@, p.1@)),
        None => None,
    }
}

fn contains_chars(cands: &[String], x: &Vec<char>) -> (b: bool)
    ensures
        b == cands.deep_view().contains(x@),
{
    let mut j: usize = 0;
    while j < cands.len()
        invariant
            j <= cands@.len(),
            forall|k: int| 0 <= k < j ==> cands.deep_view()[k] != x@,
        decreases cands@.len() - j,
    {
        let c = chars_of(cands[j].as_str());
        assert(cands.deep_view()[j as int] == cands@[j as int]@);
        if eq_vec(&c, x) {
            return true;
        }
        j = j + 1;
    }
    false
}

fn clone_chars(v: &Vec<char>) -> (r: Vec<char>)
    ensures
        r@ == v@,
{
    let r = copy_range(v, 0, v.len());
    assert(r@ =~= v@);
    r
}

/// The candidate package with the most recent `lastUpdateTime` in
/// `adb shell dumpsys package packages` output.
///
/// Reinstalling an app the emulator already has adds nothing to `pm list
/// packages`, so the install/launch path has no new package to point at. This
/// finds the one that was just written instead of guessing. `candidates` is the
/// third-party package list; anything outside it is ignored. `lastUpdateTime`
/// is `YYYY-MM-DD HH:MM:SS`, which compares correctly as a string; on a tie the
/// first package listed wins.
pub fn most_recently_updated(dumpsys_packages: &str, candidates: &[String]) -> (r: Option<String>)
    ensures
        match r {
            Some(p) => latest_update(dumpsys_packages@, candidates.deep_view()) == Some(p@),
            None => latest_update(dumpsys_packages@, candidates.deep_view()) is None,
        },
{
    let ls = lines_of_str(dumpsys_packages);
    let ghost lv = ls.deep_view();
    let ghost cands = candidates.deep_view();
    let mut current: Option<Vec<char>> = None;
    let mut best: Option<(Vec<char>, Vec<char>)> = None;
    let mut i: usize = 0;
    while i < ls.len()
        invariant
            i <= ls@.len(),
            lv == ls.deep_view(),
            lv == lines(dumpsys_packages@),
            cands == candidates.deep_view(),
            (opt_chars(current), opt_pair(best)) == dumpsys_scan(lv.take(i as int), cands),
        decreases ls@.len() - i,
    {
        proof {
            lemma_line_at(&ls, i as int);
        }
        assert(lv.take(i + 1).drop_last() =~= lv.take(i as int));
        assert(lv.take(i + 1).last() == ls@[i as int]@);
        let l = trim_vec(&ls[i]);
        match strip_prefix_str(&l, "Package [") {
            Some(rest) => {
                let k = first_index_in(&rest, ']');
                let name = copy_range(&rest, 0, k);
                assert(name@ =~= rest@.take(k as int));
                current = Some(name);
            },
            None => {
                match strip_prefix_str(&l, "lastUpdateTime=") {
                    Some(value) => {
                        match &current {
                            Some(pkg) => {
                                if contains_chars(candidates, pkg) {
                                    let when = trim_vec(&value);
                                    let better = match &best {
                                        Some(b) => lex_lt_vec(&b.0, &when),
                                        None => true,
                                    };
                                    if better {
                                        best = Some((when, clone_chars(pkg)));
                                    }
                                }
                            },
                            None => {},
                        }
                    },
                    None => {},
                }
            },
        }
        i = i + 1;
    }
    assert(lv.take(i as int) =~= lv);
    match best {
        Some(b) => Some(string_of(&b.1)),
        None => None,
    }
}

// ---------------------------------------------------------------------------
// Sizes
// ---------------------------------------------------------------------------

/// `1024^i`.
pub open spec fn pow1024(i: nat) -> nat
    decreases i,
{
    if i == 0 {
        1
    } else {
        1024 * pow1024((i - 1) as nat)
    }
}

/// `a / d` rounded to the nearest integer, ties to the even one.
pub open spec fn div_round_even(a: nat, d: nat) -> nat {
    let q = a / d;
    let r = a % d;
    if 2 * r > d || (2 * r == d && q % 2 == 1) {
        q + 1
    } else {
        q
    }
}

/// The smallest power of two `p >= start` (doubling from `start`) for which
/// `n / p` fits in the 53 bits of an `f64` mantissa, capped at `2^11`.
pub open spec fn mantissa_scale(n: nat, p: nat) -> nat
    decreases 4096 - p,
{
    if p == 0 || p >= 2048 || n / p < 0x20_0000_0000_0000 {
        p
    } else {
        mantissa_scale(n, 2 * p)
    }
}

/// The value of `n as f64`: `n` rounded to 53 significant bits, ties to even.
pub open spec fn f64_value(n: u64) -> nat {
    let p = mantissa_scale(n as nat, 1);
    div_round_even(n as nat, p) * p
}

/// How many times the size display divides by 1024: the largest `i <= 4` with
/// `x >= 1024^i`, found by dividing from `i`.
pub open spec fn unit_index(x: nat, i: nat) -> nat
    decreases 4 - i,
{
    if i < 4 && x / pow1024(i) >= 1024 {
        unit_index(x, i + 1)
    } else {
        i
    }
}

/// The unit suffix for a number of 1024-divisions.
pub open spec fn unit_name(i: nat) -> Seq<char> {
    if i == 0 {
        "B"@
    } else if i == 1 {
        "KB"@
    } else if i == 2 {
        "MB"@
    } else if i == 3 {
        "GB"@
    } else {
        "TB"@
    }
}

/// `human_bytes(n)`: below 1024 the exact count with ` B`; otherwise the size in
/// the largest unit up to TB, to one decimal (`{:.1}` rounds the exact `f64`
/// value half to even).
pub open spec fn human_bytes_text(n: u64) -> Seq<char> {
    if n < 1024 {
        decimal(n as nat) + " B"@
    } else {
        let x = f64_value(n);
        let i = unit_index(x, 0);
        let t = div_round_even(10 * x, pow1024(i));
        decimal(t / 10) + "."@ + seq![digit((t % 10) as int)] + " "@ + unit_name(i)
    }
}

fn f64_value_u128(n: u64) -> (x: u128)
    ensures
        x == f64_value(n),
        x <= 0x1_0000_0000_0000_1000,
{
    let mut p: u64 = 1;
    while p < 2048 && n / p >= 0x20_0000_0000_0000
        invariant
            1 <= p < 4096,
            mantissa_scale(n as nat, 1) == mantissa_scale(n as nat, p as nat),
        decreases 4096 - p,
    {
        p = p * 2;
    }
    let q = n / p;
    let r = n % p;
    let k: u128 = if 2 * (r as u128) > p as u128 || (2 * (r as u128) == p as u128 && q % 2 == 1) {
        q as u128 + 1
    } else {
        q as u128
    };
    assert(k * (p as u128) <= 0x1_0000_0000_0000_1000) by (nonlinear_arith)
        requires
            q == n / p,
            k <= q + 1,
            1 <= p < 4096,
            n <= 0xFFFF_FFFF_FFFF_FFFF,
    ;
    k * (p as u128)
}

fn unit_str(i: usize) -> (s: &'static str)
    requires
        i <= 4,
    ensures
        s@ == unit_name(i as nat),
{
    if i == 0 {
        "B"
    } else if i == 1 {
        "KB"
    } else if i == 2 {
        "MB"
    } else if i == 3 {
        "GB"
    } else {
        "TB"
    }
}

/// Human-readable byte size (base-1024), e.g. `0 B`, `16.0 KB`, `2.8 GB`.
pub fn human_bytes(n: u64) -> (s: String)
    ensures
        s@ == human_bytes_text(n),
{
    let mut s = String::new();
    if n < 1024 {
        push_decimal(&mut s, n as u128);
        push_str(&mut s, " B");
        return s;
    }
    let x = f64_value_u128(n);
    let mut i: usize = 0;
    let mut d: u128 = 1;
    while i < 4 && x / d >= 1024
        invariant
            i <= 4,
            d == pow1024(i as nat),
            (i == 0 && d == 1) || (i == 1 && d == 1024) || (i == 2 && d == 0x10_0000) || (i == 3
                && d == 0x4000_0000) || (i == 4 && d == 0x100_0000_0000),
            x <= 0x1_0000_0000_0000_1000,
            unit_index(x as nat, 0) == unit_index(x as nat, i as nat),
        decreases 4 - i,
    {
        d = d * 1024;
        i = i + 1;
    }
    let a = 10 * x;
    let q = a / d;
    let r = a % d;
    let t = if 2 * r > d || (2 * r == d && q % 2 == 1) {
        q + 1
    } else {
        q
    };
    push_decimal(&mut s, t / 10);
    push_str(&mut s, ".");
    s.push(digit_of(t % 10));
    push_str(&mut s, " ");
    push_str(&mut s, unit_str(i));
    assert(s@ =~= human_bytes_text(n));
    s
}


} // verus!
