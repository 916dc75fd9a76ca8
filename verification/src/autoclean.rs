//! What `andro autoclean` may reclaim and how it reports it.
//!
//! The safe pass removes only things that regenerate (scratch space, caches,
//! logs, stale locks); the deep pass, behind `--yes` or `--dry-run`, factory
//! resets the AVDs and prunes system images that no AVD uses. The SDK, the JDK
//! and the image an AVD runs are never on a list, and nothing outside andro's
//! home is either, unless `--legacy` asks for the andro-only residue in
//! `~/.android`. Sizing and deleting the files is left to the caller.
use vstd::prelude::*;

use crate::emulator::{
    human_bytes, human_bytes_text, image_sysdir_of, lemma_minus_members, minus, parse_image_sysdir,
    path_extension, path_extension_vec, unreferenced_images,
};
use crate::sdk::{
    android_home_of, avd_home_of, is_inside, join_path, lemma_inside_transitive, lemma_join_inside,
    path_join, sdk_root_of, tmp_dir_of, Sdk,
};
use crate::text::{concat, chars_of, eq_str, has_prefix, push_str, sort_strings, sorted, starts_with};

verus! {

/// Options for `andro autoclean`.
#[derive(Debug, Clone, Copy)]
pub struct AutocleanOpts {
    /// Report what would be removed without removing anything.
    pub dry_run: bool,
    /// Factory-reset the AVDs (user data and snapshots).
    pub reset: bool,
    /// Prune system images that no AVD uses.
    pub images: bool,
    /// Both `reset` and `images`.
    pub deep: bool,
    /// Also sweep andro's residue out of the real `~/.android`.
    pub legacy: bool,
    /// Confirm the deep actions.
    pub yes: bool,
}

impl Default for AutocleanOpts {
    fn default() -> (o: Self)
        ensures
            !o.dry_run && !o.reset && !o.images && !o.deep && !o.legacy && !o.yes,
    {
        AutocleanOpts {
            dry_run: false,
            reset: false,
            images: false,
            deep: false,
            legacy: false,
            yes: false,
        }
    }
}

/// Whether the deep pass runs.
#[derive(Debug, Clone, Copy, PartialEq, Eq, Structural)]
pub enum DeepStep {
    /// No deep action was asked for.
    Skip,
    /// Deep actions were asked for without `--yes` or `--dry-run`: nothing deep
    /// is removed.
    NeedsConfirmation,
    /// Reset and/or prune as asked.
    Run,
}

/// Whether `autoclean` goes ahead.
#[derive(Debug, Clone, Copy, PartialEq, Eq, Structural)]
pub enum AutocleanStart {
    /// The home does not exist: nothing to clean.
    NothingToClean,
    /// An emulator is running: refuse, it must be stopped first.
    EmulatorRunning,
    /// Reclaim.
    Proceed,
}

/// `autoclean` checks that the home exists before anything else (probing adb
/// would recreate it), then refuses while an emulator is running. `running` is
/// the probe's answer, only asked for when the home exists.
pub fn autoclean_start(home_exists: bool, running: bool) -> (s: AutocleanStart)
    ensures
        !home_exists ==> s == AutocleanStart::NothingToClean,
        home_exists && running ==> s == AutocleanStart::EmulatorRunning,
        home_exists && !running ==> s == AutocleanStart::Proceed,
{
    if !home_exists {
        AutocleanStart::NothingToClean
    } else if running {
        AutocleanStart::EmulatorRunning
    } else {
        AutocleanStart::Proceed
    }
}

impl AutocleanOpts {
    /// The AVDs are factory reset (`--reset` or `--deep`).
    pub fn resets_avds(&self) -> (b: bool)
        ensures
            b == (self.reset || self.deep),
    {
        self.reset || self.deep
    }

    /// Unused system images are pruned (`--images` or `--deep`).
    pub fn prunes_images(&self) -> (b: bool)
        ensures
            b == (self.images || self.deep),
    {
        self.images || self.deep
    }

    /// Whether the deep pass runs: only when asked for, and then only with
    /// `--yes` or as a dry run.
    pub fn deep_step(&self) -> (s: DeepStep)
        ensures
            !(self.reset || self.deep || self.images) ==> s == DeepStep::Skip,
            (self.reset || self.deep || self.images) && !self.yes && !self.dry_run ==> s
                == DeepStep::NeedsConfirmation,
            (self.reset || self.deep || self.images) && (self.yes || self.dry_run) ==> s
                == DeepStep::Run,
    {
        if !(self.resets_avds() || self.prunes_images()) {
            DeepStep::Skip
        } else if !self.yes && !self.dry_run {
            DeepStep::NeedsConfirmation
        } else {
            DeepStep::Run
        }
    }

    /// The word each reclaimed line ends with.
    pub fn verb(&self) -> (s: &'static str)
        ensures
            s@ == (if self.dry_run {
                "would remove"@
            } else {
                "removed"@
            }),
    {
        if self.dry_run {
            "would remove"
        } else {
            "removed"
        }
    }
}

// ---------------------------------------------------------------------------
// Targets
// ---------------------------------------------------------------------------

/// `(dir/name, prefix + name)` for each name: where a file lives and the label
/// it is reported under.
pub open spec fn entries_under(dir: Seq<char>, names: Seq<Seq<char>>, prefix: Seq<char>) -> Seq<(Seq<char>, Seq<char>)> {
    Seq::new(names.len(), |i: int| (path_join(dir, names[i]), prefix + names[i]))
}

/// The emulator's own bookkeeping in the Android home that it writes again.
pub open spec fn android_scratch() -> Seq<Seq<char>> {
    seq!["emu-update-last-check.ini"@, "emu-last-feature-flags.protobuf"@, "userid"@]
}

/// Locks and caches inside an AVD that the emulator recreates.
pub open spec fn avd_scratch() -> Seq<Seq<char>> {
    seq![
        "multiinstance.lock"@,
        "hardware-qemu.ini.lock"@,
        "tmpAdbCmds"@,
        "cache.img"@,
        "cache.img.qcow2"@,
    ]
}

/// The entries of the Android home that are modem NVRAM files.
pub open spec fn modem_entries(names: Seq<Seq<char>>) -> Seq<Seq<char>>
    decreases names.len(),
{
    if names.len() == 0 {
        Seq::empty()
    } else {
        let rest = modem_entries(names.drop_last());
        if has_prefix(names.last(), "modem-nv-ram"@) {
            rest.push(names.last())
        } else {
            rest
        }
    }
}

/// `files` inside each AVD directory, labelled `avd/<name>/<file>`.
pub open spec fn avd_entries(avd_home: Seq<char>, avds: Seq<Seq<char>>, files: Seq<Seq<char>>) -> Seq<(Seq<char>, Seq<char>)>
    decreases avds.len(),
{
    if avds.len() == 0 {
        Seq::empty()
    } else {
        avd_entries(avd_home, avds.drop_last(), files) + entries_under(
            path_join(avd_home, avds.last()),
            files,
            "avd/"@ + avds.last() + "/"@,
        )
    }
}

/// Everything the safe pass reclaims, in order: the scratch dir, the legacy
/// extraction dir, the emulator's cache and bookkeeping in the Android home,
/// its modem NVRAM files, the emulator log, and each AVD's locks and caches.
pub open spec fn safe_targets_of(home: Seq<char>, android_entries: Seq<Seq<char>>, avds: Seq<Seq<char>>) -> Seq<(Seq<char>, Seq<char>)> {
    seq![
        (tmp_dir_of(home), "tmp/"@),
        (path_join(home, ".extract"@), ".extract (legacy)"@),
        (path_join(android_home_of(home), "cache"@), ".android/cache"@),
    ] + entries_under(android_home_of(home), android_scratch(), ".android/"@) + entries_under(
        android_home_of(home),
        modem_entries(android_entries),
        ".android/"@,
    ) + seq![(path_join(home, "emulator.log"@), "emulator.log"@)] + avd_entries(
        avd_home_of(home),
        avds,
        avd_scratch(),
    )
}

/// A factory reset of each AVD: its user data and its snapshots.
pub open spec fn reset_entries(avd_home: Seq<char>, avds: Seq<Seq<char>>) -> Seq<(Seq<char>, Seq<char>)>
    decreases avds.len(),
{
    if avds.len() == 0 {
        Seq::empty()
    } else {
        let a = avds.last();
        let dir = path_join(avd_home, a);
        reset_entries(avd_home, avds.drop_last()) + seq![
            (
                path_join(dir, "userdata-qemu.img.qcow2"@),
                "avd/"@ + a + "/userdata-qemu.img.qcow2 (FACTORY RESET, no re-download)"@,
            ),
            (path_join(dir, "snapshots"@), "avd/"@ + a + "/snapshots"@),
        ]
    }
}

/// Each stale image under the SDK root.
pub open spec fn image_entries(sdk_root: Seq<char>, stale: Seq<Seq<char>>) -> Seq<(Seq<char>, Seq<char>)> {
    Seq::new(
        stale.len(),
        |i: int|
            (
                path_join(sdk_root, stale[i]),
                "sdk/"@ + stale[i] + " (STALE IMAGE, re-download on next use)"@,
            ),
    )
}

/// Everything the deep pass reclaims: the resets, then the stale images.
pub open spec fn deep_targets_of(home: Seq<char>, reset: bool, images: bool, avds: Seq<Seq<char>>, stale: Seq<Seq<char>>) -> Seq<(Seq<char>, Seq<char>)> {
    (if reset {
        reset_entries(avd_home_of(home), avds)
    } else {
        Seq::empty()
    }) + (if images {
        image_entries(sdk_root_of(home), stale)
    } else {
        Seq::empty()
    })
}

/// Appends one target.
fn push_target(out: &mut Vec<(String, String)>, path: String, label: String)
    ensures
        final(out).deep_view() == old(out).deep_view().push((path@, label@)),
{
    let ghost before = out.deep_view();
    let ghost pv = path@;
    let ghost lv = label@;
    out.push((path, label));
    assert(out.deep_view() =~= before.push((pv, lv)));
}

/// Appends `entries_under(dir, names, prefix)`.
fn push_entries_under(out: &mut Vec<(String, String)>, dir: &str, names: &[String], prefix: &str)
    ensures
        final(out).deep_view() == old(out).deep_view() + entries_under(
            dir@,
            names.deep_view(),
            prefix@,
        ),
{
    let ghost start = out.deep_view();
    let mut i: usize = 0;
    while i < names.len()
        invariant
            i <= names@.len(),
            out.deep_view() == start + entries_under(dir@, names.deep_view().take(i as int), prefix@),
        decreases names@.len() - i,
    {
        let ghost prev = out.deep_view();
        let path = join_path(dir, names[i].as_str());
        let label = concat(prefix, names[i].as_str());
        push_target(out, path, label);
        assert(names.deep_view()[i as int] == names@[i as int]@);
        i = i + 1;
        assert(entries_under(dir@, names.deep_view().take(i as int), prefix@) =~= entries_under(
            dir@,
            names.deep_view().take(i - 1),
            prefix@,
        ).push(
            (path_join(dir@, names@[i - 1]@), prefix@ + names@[i - 1]@),
        ));
        assert(out.deep_view() =~= start + entries_under(
            dir@,
            names.deep_view().take(i as int),
            prefix@,
        ));
    }
    assert(names.deep_view().take(names@.len() as int) =~= names.deep_view());
}

/// A vector holding the given names.
fn names_of(a: &str, b: &str, c: &str) -> (v: Vec<String>)
    ensures
        v.deep_view() == seq![a@, b@, c@],
{
    let mut v: Vec<String> = Vec::new();
    v.push(String::from_str(a));
    v.push(String::from_str(b));
    v.push(String::from_str(c));
    assert(v.deep_view() =~= seq![a@, b@, c@]);
    v
}

fn avd_scratch_names() -> (v: Vec<String>)
    ensures
        v.deep_view() == avd_scratch(),
{
    let mut v = names_of("multiinstance.lock", "hardware-qemu.ini.lock", "tmpAdbCmds");
    let ghost before = v.deep_view();
    let c = String::from_str("cache.img");
    let q = String::from_str("cache.img.qcow2");
    let ghost cv = c@;
    let ghost qv = q@;
    v.push(c);
    v.push(q);
    assert(v.deep_view() =~= before.push(cv).push(qv));
    assert(v.deep_view() =~= avd_scratch());
    v
}

/// The modem NVRAM files among the Android home's entries.
fn modem_names(entries: &[String]) -> (r: Vec<String>)
    ensures
        r.deep_view() == modem_entries(entries.deep_view()),
{
    let prefix = chars_of("modem-nv-ram");
    let mut out: Vec<String> = Vec::new();
    let mut i: usize = 0;
    while i < entries.len()
        invariant
            i <= entries@.len(),
            prefix@ == "modem-nv-ram"@,
            out.deep_view() == modem_entries(entries.deep_view().take(i as int)),
        decreases entries@.len() - i,
    {
        let ghost ev = entries.deep_view();
        assert(ev.take(i + 1).drop_last() =~= ev.take(i as int));
        assert(ev.take(i + 1).last() == entries@[i as int]@);
        let name = chars_of(entries[i].as_str());
        if starts_with(&name, &prefix) {
            let ghost before = out.deep_view();
            out.push(entries[i].clone());
            assert(out.deep_view() =~= before.push(entries@[i as int]@));
        }
        i = i + 1;
    }
    assert(entries.deep_view().take(entries@.len() as int) =~= entries.deep_view());
    out
}

/// Appends `avd_entries(avd_home, avds, files)`.
fn push_avd_entries(out: &mut Vec<(String, String)>, avd_home: &str, avds: &[String], files: &[String])
    ensures
        final(out).deep_view() == old(out).deep_view() + avd_entries(
            avd_home@,
            avds.deep_view(),
            files.deep_view(),
        ),
{
    let ghost start = out.deep_view();
    let mut i: usize = 0;
    while i < avds.len()
        invariant
            i <= avds@.len(),
            out.deep_view() == start + avd_entries(
                avd_home@,
                avds.deep_view().take(i as int),
                files.deep_view(),
            ),
        decreases avds@.len() - i,
    {
        let ghost av = avds.deep_view();
        assert(av.take(i + 1).drop_last() =~= av.take(i as int));
        assert(av.take(i + 1).last() == avds@[i as int]@);
        let dir = join_path(avd_home, avds[i].as_str());
        let mut prefix = concat("avd/", avds[i].as_str());
        push_str(&mut prefix, "/");
        push_entries_under(out, dir.as_str(), files, prefix.as_str());
        i = i + 1;
        assert(out.deep_view() =~= start + avd_entries(
            avd_home@,
            avds.deep_view().take(i as int),
            files.deep_view(),
        ));
    }
    assert(avds.deep_view().take(avds@.len() as int) =~= avds.deep_view());
}

/// What the safe pass reclaims, as `(path, label)` pairs in the order they are
/// reported. `android_entries` are the names in the Android home and `avds` the
/// names of the `.avd` directories under the AVD home.
pub fn safe_targets(sdk: &Sdk, android_entries: &[String], avds: &[String]) -> (r: Vec<(String, String)>)
    ensures
        r.deep_view() == safe_targets_of(sdk@, android_entries.deep_view(), avds.deep_view()),
{
    let home = sdk.home();
    let android = sdk.android_home();
    let mut out: Vec<(String, String)> = Vec::new();
    push_target(&mut out, sdk.tmp_dir(), String::from_str("tmp/"));
    push_target(&mut out, join_path(home, ".extract"), String::from_str(".extract (legacy)"));
    push_target(&mut out, join_path(android.as_str(), "cache"), String::from_str(".android/cache"));
    let ghost first = out.deep_view();
    let scratch = names_of("emu-update-last-check.ini", "emu-last-feature-flags.protobuf", "userid");
    push_entries_under(&mut out, android.as_str(), &scratch, ".android/");
    let modem = modem_names(android_entries);
    push_entries_under(&mut out, android.as_str(), &modem, ".android/");
    push_target(&mut out, join_path(home, "emulator.log"), String::from_str("emulator.log"));
    let files = avd_scratch_names();
    let avd_home = sdk.avd_home();
    push_avd_entries(&mut out, avd_home.as_str(), avds, &files);
    assert(out.deep_view() =~= safe_targets_of(sdk@, android_entries.deep_view(), avds.deep_view()));
    out
}

/// What the deep pass reclaims for the given options: each AVD's user data and
/// snapshots when resetting, then each stale image when pruning.
pub fn deep_targets(sdk: &Sdk, opts: &AutocleanOpts, avds: &[String], stale: &[String]) -> (r: Vec<(String, String)>)
    ensures
        r.deep_view() == deep_targets_of(
            sdk@,
            opts.reset || opts.deep,
            opts.images || opts.deep,
            avds.deep_view(),
            stale.deep_view(),
        ),
{
    let mut out: Vec<(String, String)> = Vec::new();
    if opts.resets_avds() {
        let avd_home = sdk.avd_home();
        let mut i: usize = 0;
        while i < avds.len()
            invariant
                i <= avds@.len(),
                avd_home@ == avd_home_of(sdk@),
                out.deep_view() == reset_entries(avd_home@, avds.deep_view().take(i as int)),
            decreases avds@.len() - i,
        {
            let ghost av = avds.deep_view();
            assert(av.take(i + 1).drop_last() =~= av.take(i as int));
            assert(av.take(i + 1).last() == avds@[i as int]@);
            let name = avds[i].as_str();
            let dir = join_path(avd_home.as_str(), name);
            let mut user = concat("avd/", name);
            push_str(&mut user, "/userdata-qemu.img.qcow2 (FACTORY RESET, no re-download)");
            push_target(&mut out, join_path(dir.as_str(), "userdata-qemu.img.qcow2"), user);
            let mut snaps = concat("avd/", name);
            push_str(&mut snaps, "/snapshots");
            push_target(&mut out, join_path(dir.as_str(), "snapshots"), snaps);
            i = i + 1;
            assert(out.deep_view() =~= reset_entries(avd_home@, avds.deep_view().take(i as int)));
        }
        assert(avds.deep_view().take(avds@.len() as int) =~= avds.deep_view());
    }
    let ghost after_reset = out.deep_view();
    if opts.prunes_images() {
        let root = sdk.sdk_root();
        let mut i: usize = 0;
        while i < stale.len()
            invariant
                i <= stale@.len(),
                root@ == sdk_root_of(sdk@),
                out.deep_view() == after_reset + image_entries(root@, stale.deep_view().take(i as int)),
            decreases stale@.len() - i,
        {
            let ghost prev = out.deep_view();
            let mut label = concat("sdk/", stale[i].as_str());
            push_str(&mut label, " (STALE IMAGE, re-download on next use)");
            push_target(&mut out, join_path(root.as_str(), stale[i].as_str()), label);
            assert(stale.deep_view()[i as int] == stale@[i as int]@);
            i = i + 1;
            assert(image_entries(root@, stale.deep_view().take(i as int)) =~= image_entries(
                root@,
                stale.deep_view().take(i - 1),
            ).push(
                (
                    path_join(root@, stale@[i - 1]@),
                    "sdk/"@ + stale@[i - 1]@ + " (STALE IMAGE, re-download on next use)"@,
                ),
            ));
            assert(out.deep_view() =~= after_reset + image_entries(
                root@,
                stale.deep_view().take(i as int),
            ));
        }
        assert(stale.deep_view().take(stale@.len() as int) =~= stale.deep_view());
    }
    assert(out.deep_view() =~= deep_targets_of(
        sdk@,
        opts.reset || opts.deep,
        opts.images || opts.deep,
        avds.deep_view(),
        stale.deep_view(),
    ));
    out
}

/// What `--legacy` reclaims in the real `~/.android` (`android_dir`): each of its
/// entries, labelled `~/.android/<name>`. The caller checks first that every
/// entry is andro's own (`android_residue_is_andro_only`).
pub fn legacy_targets(android_dir: &str, entries: &[String]) -> (r: Vec<(String, String)>)
    ensures
        r.deep_view() == entries_under(android_dir@, entries.deep_view(), "~/.android/"@),
{
    let mut out: Vec<(String, String)> = Vec::new();
    push_entries_under(&mut out, android_dir, entries, "~/.android/");
    assert(out.deep_view() =~= entries_under(android_dir@, entries.deep_view(), "~/.android/"@));
    out
}

// ---------------------------------------------------------------------------
// What is found on disk
// ---------------------------------------------------------------------------

/// An entry of the AVD home is an AVD: a directory named `<name>.avd`.
pub fn is_avd_dir(name: &str, is_dir: bool) -> (b: bool)
    ensures
        b == (is_dir && path_extension(name@) == Some("avd"@)),
{
    if !is_dir {
        return false;
    }
    let v = chars_of(name);
    match path_extension_vec(&v) {
        Some(e) => {
            let b = eq_str(&e, "avd");
            assert(b ==> e@ =~= "avd"@);
            b
        },
        None => false,
    }
}

/// `s` with each `\\` turned into `/`.
pub open spec fn forward_slashes(s: Seq<char>) -> Seq<char> {
    s.map_values(|c: char| if c == '\\' { '/' } else { c })
}

/// An installed image's path relative to the SDK root, as AVD configs name it:
/// `system-images/<api>/<tag>/<abi>`.
pub open spec fn image_rel_path_of(api: Seq<char>, tag: Seq<char>, abi: Seq<char>) -> Seq<char> {
    forward_slashes("system-images/"@ + api + "/"@ + tag + "/"@ + abi)
}

/// The relative path of the image installed in `system-images/<api>/<tag>/<abi>`.
pub fn image_rel_path(api: &str, tag: &str, abi: &str) -> (s: String)
    ensures
        s@ == image_rel_path_of(api@, tag@, abi@),
{
    let mut raw = concat("system-images/", api);
    push_str(&mut raw, "/");
    push_str(&mut raw, tag);
    push_str(&mut raw, "/");
    push_str(&mut raw, abi);
    let v = chars_of(raw.as_str());
    let mut s = String::new();
    let mut i: usize = 0;
    while i < v.len()
        invariant
            i <= v@.len(),
            s@ == forward_slashes(v@.take(i as int)),
        decreases v@.len() - i,
    {
        let c = v[i];
        s.push(if c == '\\' { '/' } else { c });
        i = i + 1;
        assert(s@ =~= forward_slashes(v@.take(i as int)));
    }
    assert(v@.take(v@.len() as int) =~= v@);
    s
}

/// The images the AVD configs run, in order: each config's `image.sysdir.1`.
pub open spec fn referenced_images(configs: Seq<Seq<char>>) -> Seq<Seq<char>>
    decreases configs.len(),
{
    if configs.len() == 0 {
        Seq::empty()
    } else {
        let rest = referenced_images(configs.drop_last());
        match image_sysdir_of(configs.last()) {
            Some(d) => rest.push(d),
            None => rest,
        }
    }
}

/// The installed images (relative paths) that no AVD's `config.ini` refers to:
/// the ones `--images` may prune.
pub fn stale_images(installed: &[String], avd_configs: &[String]) -> (r: Vec<String>)
    ensures
        r.deep_view() == minus(installed.deep_view(), referenced_images(avd_configs.deep_view())),
{
    let mut referenced: Vec<String> = Vec::new();
    let mut i: usize = 0;
    while i < avd_configs.len()
        invariant
            i <= avd_configs@.len(),
            referenced.deep_view() == referenced_images(avd_configs.deep_view().take(i as int)),
        decreases avd_configs@.len() - i,
    {
        let ghost cv = avd_configs.deep_view();
        assert(cv.take(i + 1).drop_last() =~= cv.take(i as int));
        assert(cv.take(i + 1).last() == avd_configs@[i as int]@);
        match parse_image_sysdir(avd_configs[i].as_str()) {
            Some(d) => {
                let ghost before = referenced.deep_view();
                let ghost dv = d@;
                referenced.push(d);
                assert(referenced.deep_view() =~= before.push(dv));
            },
            None => {},
        }
        i = i + 1;
    }
    assert(avd_configs.deep_view().take(avd_configs@.len() as int) =~= avd_configs.deep_view());
    unreferenced_images(installed, referenced.as_slice())
}

/// Every image an AVD config names is in `referenced_images`.
proof fn lemma_referenced_images_contains(configs: Seq<Seq<char>>, i: int)
    requires
        0 <= i < configs.len(),
        image_sysdir_of(configs[i]) is Some,
    ensures
        referenced_images(configs).contains(image_sysdir_of(configs[i])->0),
    decreases configs.len(),
{
    let d = image_sysdir_of(configs[i])->0;
    if i == configs.len() - 1 {
        assert(referenced_images(configs).last() == d);
    } else {
        assert(configs.drop_last()[i] == configs[i]);
        lemma_referenced_images_contains(configs.drop_last(), i);
        let rest = referenced_images(configs.drop_last());
        let k = choose|k: int| 0 <= k < rest.len() && rest[k] == d;
        match image_sysdir_of(configs.last()) {
            Some(e) => {
                assert(rest.push(e)[k] == d);
            },
            None => {},
        }
    }
}

/// The image an AVD runs is never pruned: whatever a `config.ini` names in
/// `image.sysdir.1` is not among the stale images.
pub proof fn lemma_image_in_use_is_kept(installed: Seq<Seq<char>>, avd_configs: Seq<Seq<char>>, i: int)
    requires
        0 <= i < avd_configs.len(),
        image_sysdir_of(avd_configs[i]) is Some,
    ensures
        !minus(installed, referenced_images(avd_configs)).contains(
            image_sysdir_of(avd_configs[i])->0,
        ),
{
    lemma_referenced_images_contains(avd_configs, i);
    lemma_minus_members(installed, referenced_images(avd_configs));
}

// ---------------------------------------------------------------------------
// Files left alone
// ---------------------------------------------------------------------------

/// The entries of andro's home that andro manages itself.
pub open spec fn is_managed_name(name: Seq<char>) -> bool {
    ||| name == "sdk"@
    ||| name == "avd"@
    ||| name == "jdk"@
    ||| name == "home"@
    ||| name == "tmp"@
    ||| name == "emulator.log"@
    ||| name == "bundletool.jar"@
}

/// The entries of andro's home that andro does not manage, in order.
pub open spec fn unmanaged(names: Seq<Seq<char>>) -> Seq<Seq<char>>
    decreases names.len(),
{
    if names.len() == 0 {
        Seq::empty()
    } else {
        let rest = unmanaged(names.drop_last());
        if is_managed_name(names.last()) {
            rest
        } else {
            rest.push(names.last())
        }
    }
}

fn is_managed(name: &str) -> (b: bool)
    ensures
        b == is_managed_name(name@),
{
    let v = chars_of(name);
    eq_str(&v, "sdk") || eq_str(&v, "avd") || eq_str(&v, "jdk") || eq_str(&v, "home") || eq_str(
        &v,
        "tmp",
    ) || eq_str(&v, "emulator.log") || eq_str(&v, "bundletool.jar")
}

/// The home's entries that autoclean leaves untouched because andro does not
/// manage them (stray screenshots and the like), sorted for the report.
pub fn skipped_user_files(names: &[String]) -> (r: Vec<String>)
    ensures
        sorted(r.deep_view()),
        r.deep_view().to_multiset() == unmanaged(names.deep_view()).to_multiset(),
{
    let mut out: Vec<String> = Vec::new();
    let mut i: usize = 0;
    while i < names.len()
        invariant
            i <= names@.len(),
            out.deep_view() == unmanaged(names.deep_view().take(i as int)),
        decreases names@.len() - i,
    {
        let ghost nv = names.deep_view();
        assert(nv.take(i + 1).drop_last() =~= nv.take(i as int));
        assert(nv.take(i + 1).last() == names@[i as int]@);
        if !is_managed(names[i].as_str()) {
            let ghost before = out.deep_view();
            out.push(names[i].clone());
            assert(out.deep_view() =~= before.push(names@[i as int]@));
        }
        i = i + 1;
    }
    assert(names.deep_view().take(names@.len() as int) =~= names.deep_view());
    sort_strings(out)
}

// ---------------------------------------------------------------------------
// Report lines
// ---------------------------------------------------------------------------

/// `n` spaces.
pub open spec fn spaces(n: nat) -> Seq<char> {
    Seq::new(n, |i: int| ' ')
}

/// `format!("{s:<w}")`: `s` padded with spaces on the right to `w` characters.
pub open spec fn pad_right(s: Seq<char>, w: nat) -> Seq<char> {
    if s.len() >= w {
        s
    } else {
        s + spaces((w - s.len()) as nat)
    }
}

/// `format!("{s:>w}")`: `s` padded with spaces on the left to `w` characters.
pub open spec fn pad_left(s: Seq<char>, w: nat) -> Seq<char> {
    if s.len() >= w {
        s
    } else {
        spaces((w - s.len()) as nat) + s
    }
}

/// The line printed for one reclaimed path: label, size and what happened.
pub open spec fn reclaim_line_of(label: Seq<char>, size: u64, verb: Seq<char>) -> Seq<char> {
    "  "@ + pad_right(label, 48) + " "@ + pad_left(human_bytes_text(size), 10) + "   "@ + verb
}

fn push_spaces(s: &mut String, n: usize)
    ensures
        final(s)@ == old(s)@ + spaces(n as nat),
{
    let ghost start = s@;
    let mut i: usize = 0;
    while i < n
        invariant
            i <= n,
            s@ == start + spaces(i as nat),
        decreases n - i,
    {
        s.push(' ');
        i = i + 1;
        assert(s@ =~= start + spaces(i as nat));
    }
}

/// The report line for a path of `size` bytes: `  <label:<48> <size:>10>   <verb>`.
pub fn reclaim_line(label: &str, size: u64, verb: &str) -> (s: String)
    ensures
        s@ == reclaim_line_of(label@, size, verb@),
{
    let mut s = String::from_str("  ");
    push_str(&mut s, label);
    let n = chars_of(label).len();
    if n < 48 {
        push_spaces(&mut s, 48 - n);
    }
    push_str(&mut s, " ");
    let size_text = human_bytes(size);
    let m = chars_of(size_text.as_str()).len();
    if m < 10 {
        push_spaces(&mut s, 10 - m);
    }
    push_str(&mut s, size_text.as_str());
    push_str(&mut s, "   ");
    push_str(&mut s, verb);
    assert(s@ =~= reclaim_line_of(label@, size, verb@));
    s
}

/// The closing line: `total freed: <size>`, or `total would free: <size>` on a
/// dry run.
pub fn total_line(dry_run: bool, freed: u64) -> (s: String)
    ensures
        s@ == (if dry_run {
            "total would free: "@
        } else {
            "total freed: "@
        }) + human_bytes_text(freed),
{
    let mut s = if dry_run {
        String::from_str("total would free: ")
    } else {
        String::from_str("total freed: ")
    };
    let size_text = human_bytes(freed);
    push_str(&mut s, size_text.as_str());
    s
}

// ---------------------------------------------------------------------------
// The toolchain is never a target
// ---------------------------------------------------------------------------

/// A directory entry's name: one non-empty path component.
pub open spec fn is_entry_name(n: Seq<char>) -> bool {
    n.len() > 0 && !n.contains('/')
}

/// A path autoclean may remove: inside andro's home, and neither the SDK root
/// nor the JDK directory nor anything inside them.
pub open spec fn spares_toolchain(home: Seq<char>, p: Seq<char>) -> bool {
    &&& is_inside(p, home)
    &&& p != sdk_root_of(home)
    &&& !is_inside(p, sdk_root_of(home))
    &&& p != path_join(home, "jdk"@)
    &&& !is_inside(p, path_join(home, "jdk"@))
}

/// Every path in `targets` spares the toolchain.
pub open spec fn all_spare_toolchain(home: Seq<char>, targets: Seq<(Seq<char>, Seq<char>)>) -> bool {
    forall|k: int| 0 <= k < targets.len() ==> spares_toolchain(home, #[trigger] targets[k].0)
}

/// At or below `home/a`, for a first character of `a` that neither `sdk` nor
/// `jdk` has, a path spares the toolchain.
proof fn lemma_below_child_spares(home: Seq<char>, a: Seq<char>, p: Seq<char>)
    requires
        a.len() > 0,
        a[0] != '/',
        a[0] != 's',
        a[0] != 'j',
        p == path_join(home, a) || is_inside(p, path_join(home, a)),
    ensures
        spares_toolchain(home, p),
{
    reveal_strlit("sdk");
    reveal_strlit("jdk");
    let q = path_join(home, a);
    lemma_join_inside(home, a);
    if p != q {
        lemma_inside_transitive(p, q, home);
    }
    let j: int = if home.len() == 0 || home.last() == '/' {
        home.len() as int
    } else {
        (home.len() + 1) as int
    };
    assert(q[j] == a[0]);
    assert(p[j] == a[0]) by {
        if p != q {
            assert(p.take(q.len() as int)[j] == q[j]);
        }
    }
    let sdk = sdk_root_of(home);
    let jdk = path_join(home, "jdk"@);
    assert(sdk[j] == 's');
    assert(jdk[j] == 'j');
    if is_inside(p, sdk) {
        assert(p.take(sdk.len() as int)[j] == sdk[j]);
    }
    if is_inside(p, jdk) {
        assert(p.take(jdk.len() as int)[j] == jdk[j]);
    }
}

/// Joining an entry name lands strictly inside the directory.
proof fn lemma_entry_inside(dir: Seq<char>, n: Seq<char>)
    requires
        is_entry_name(n),
    ensures
        is_inside(path_join(dir, n), dir),
{
    if n[0] == '/' {
        assert(n.contains('/'));
    }
    lemma_join_inside(dir, n);
}

/// `entries_under(dir, names, _)` spares the toolchain when `dir` lies at or
/// below `home/a`.
proof fn lemma_entries_spare(home: Seq<char>, a: Seq<char>, dir: Seq<char>, names: Seq<Seq<char>>, prefix: Seq<char>)
    requires
        a.len() > 0,
        a[0] != '/',
        a[0] != 's',
        a[0] != 'j',
        dir == path_join(home, a) || is_inside(dir, path_join(home, a)),
        forall|i: int| 0 <= i < names.len() ==> is_entry_name(#[trigger] names[i]),
    ensures
        all_spare_toolchain(home, entries_under(dir, names, prefix)),
{
    let q = path_join(home, a);
    let es = entries_under(dir, names, prefix);
    assert forall|k: int| 0 <= k < es.len() implies spares_toolchain(home, #[trigger] es[k].0) by {
        let p = path_join(dir, names[k]);
        assert(es[k].0 == p);
        lemma_entry_inside(dir, names[k]);
        if dir != q {
            lemma_inside_transitive(p, dir, q);
        }
        lemma_below_child_spares(home, a, p);
    }
}

proof fn lemma_concat_spares(home: Seq<char>, x: Seq<(Seq<char>, Seq<char>)>, y: Seq<(Seq<char>, Seq<char>)>)
    requires
        all_spare_toolchain(home, x),
        all_spare_toolchain(home, y),
    ensures
        all_spare_toolchain(home, x + y),
{
    assert forall|k: int| 0 <= k < (x + y).len() implies spares_toolchain(home, #[trigger] (x + y)[k].0) by {
        if k < x.len() {
            assert((x + y)[k] == x[k]);
        } else {
            assert((x + y)[k] == y[k - x.len()]);
        }
    }
}

proof fn lemma_avd_entries_spare(home: Seq<char>, avds: Seq<Seq<char>>, files: Seq<Seq<char>>)
    requires
        forall|i: int| 0 <= i < avds.len() ==> is_entry_name(#[trigger] avds[i]),
        forall|i: int| 0 <= i < files.len() ==> is_entry_name(#[trigger] files[i]),
    ensures
        all_spare_toolchain(home, avd_entries(avd_home_of(home), avds, files)),
    decreases avds.len(),
{
    if avds.len() > 0 {
        reveal_strlit("avd");
        let avd_home = avd_home_of(home);
        assert forall|i: int| 0 <= i < avds.drop_last().len() implies is_entry_name(
            #[trigger] avds.drop_last()[i],
        ) by {
            assert(avds.drop_last()[i] == avds[i]);
        }
        lemma_avd_entries_spare(home, avds.drop_last(), files);
        assert(is_entry_name(avds[avds.len() - 1]));
        lemma_entry_inside(avd_home, avds.last());
        lemma_entries_spare(
            home,
            "avd"@,
            path_join(avd_home, avds.last()),
            files,
            "avd/"@ + avds.last() + "/"@,
        );
        lemma_concat_spares(
            home,
            avd_entries(avd_home, avds.drop_last(), files),
            entries_under(path_join(avd_home, avds.last()), files, "avd/"@ + avds.last() + "/"@),
        );
    }
}

proof fn lemma_modem_entries_from(names: Seq<Seq<char>>)
    ensures
        forall|i: int| 0 <= i < modem_entries(names).len() ==> exists|j: int|
            0 <= j < names.len() && names[j] == #[trigger] modem_entries(names)[i],
    decreases names.len(),
{
    if names.len() > 0 {
        lemma_modem_entries_from(names.drop_last());
        let rest = modem_entries(names.drop_last());
        assert forall|i: int| 0 <= i < modem_entries(names).len() implies exists|j: int|
            0 <= j < names.len() && names[j] == #[trigger] modem_entries(names)[i] by {
            if i < rest.len() {
                let j = choose|j: int| 0 <= j < names.drop_last().len() && names.drop_last()[j] == rest[i];
                assert(names[j] == modem_entries(names)[i]);
            } else {
                assert(names[names.len() - 1] == modem_entries(names)[i]);
            }
        }
    }
}

/// The safe pass never reaches the toolchain: everything it reclaims lies
/// inside andro's home, and none of it is, or is inside, the SDK root or the
/// JDK directory. (The names come from directory listings, so each is a single
/// path component.)
pub proof fn lemma_safe_targets_spare_toolchain(home: Seq<char>, android_entries: Seq<Seq<char>>, avds: Seq<Seq<char>>)
    requires
        forall|i: int| 0 <= i < android_entries.len() ==> is_entry_name(#[trigger] android_entries[i]),
        forall|i: int| 0 <= i < avds.len() ==> is_entry_name(#[trigger] avds[i]),
    ensures
        all_spare_toolchain(home, safe_targets_of(home, android_entries, avds)),
{
    reveal_strlit("tmp");
    reveal_strlit(".extract");
    reveal_strlit("home");
    reveal_strlit("emulator.log");
    reveal_strlit("avd");
    reveal_strlit("sdk");
    reveal_strlit("jdk");
    reveal_strlit(".android");
    reveal_strlit("cache");
    reveal_strlit("emu-update-last-check.ini");
    reveal_strlit("emu-last-feature-flags.protobuf");
    reveal_strlit("userid");
    reveal_strlit("multiinstance.lock");
    reveal_strlit("hardware-qemu.ini.lock");
    reveal_strlit("tmpAdbCmds");
    reveal_strlit("cache.img");
    reveal_strlit("cache.img.qcow2");
    let hh = path_join(home, "home"@);
    let android = android_home_of(home);
    lemma_entry_inside(hh, ".android"@);
    let head = seq![
        (tmp_dir_of(home), "tmp/"@),
        (path_join(home, ".extract"@), ".extract (legacy)"@),
        (path_join(android, "cache"@), ".android/cache"@),
    ];
    lemma_below_child_spares(home, "tmp"@, tmp_dir_of(home));
    lemma_below_child_spares(home, ".extract"@, path_join(home, ".extract"@));
    lemma_entry_inside(android, "cache"@);
    lemma_inside_transitive(path_join(android, "cache"@), android, hh);
    lemma_below_child_spares(home, "home"@, path_join(android, "cache"@));
    assert(all_spare_toolchain(home, head));
    let scratch = android_scratch();
    assert forall|i: int| 0 <= i < scratch.len() implies is_entry_name(#[trigger] scratch[i]) by {}
    lemma_entries_spare(home, "home"@, android, scratch, ".android/"@);
    let modem = modem_entries(android_entries);
    lemma_modem_entries_from(android_entries);
    assert forall|i: int| 0 <= i < modem.len() implies is_entry_name(#[trigger] modem[i]) by {
        let j = choose|j: int| 0 <= j < android_entries.len() && android_entries[j] == modem[i];
        assert(is_entry_name(android_entries[j]));
    }
    lemma_entries_spare(home, "home"@, android, modem, ".android/"@);
    let log = seq![(path_join(home, "emulator.log"@), "emulator.log"@)];
    lemma_below_child_spares(home, "emulator.log"@, path_join(home, "emulator.log"@));
    assert(all_spare_toolchain(home, log));
    let files = avd_scratch();
    assert forall|i: int| 0 <= i < files.len() implies is_entry_name(#[trigger] files[i]) by {
    }
    lemma_avd_entries_spare(home, avds, files);
    let e1 = entries_under(android, scratch, ".android/"@);
    let e2 = entries_under(android, modem, ".android/"@);
    lemma_concat_spares(home, head, e1);
    lemma_concat_spares(home, head + e1, e2);
    lemma_concat_spares(home, head + e1 + e2, log);
    lemma_concat_spares(home, head + e1 + e2 + log, avd_entries(avd_home_of(home), avds, files));
}

/// A factory reset stays inside the AVD directories: it never reaches the SDK
/// or the JDK, nor anything outside andro's home.
pub proof fn lemma_reset_spares_toolchain(home: Seq<char>, avds: Seq<Seq<char>>)
    requires
        forall|i: int| 0 <= i < avds.len() ==> is_entry_name(#[trigger] avds[i]),
    ensures
        all_spare_toolchain(home, reset_entries(avd_home_of(home), avds)),
    decreases avds.len(),
{
    if avds.len() > 0 {
        reveal_strlit("avd");
        reveal_strlit("userdata-qemu.img.qcow2");
        reveal_strlit("snapshots");
        let avd_home = avd_home_of(home);
        assert forall|i: int| 0 <= i < avds.drop_last().len() implies is_entry_name(
            #[trigger] avds.drop_last()[i],
        ) by {
            assert(avds.drop_last()[i] == avds[i]);
        }
        lemma_reset_spares_toolchain(home, avds.drop_last());
        let a = avds.last();
        assert(is_entry_name(avds[avds.len() - 1]));
        let dir = path_join(avd_home, a);
        lemma_entry_inside(avd_home, a);
        let names = seq!["userdata-qemu.img.qcow2"@, "snapshots"@];
        assert forall|i: int| 0 <= i < names.len() implies is_entry_name(#[trigger] names[i]) by {}
        lemma_entries_spare(home, "avd"@, dir, names, "x"@);
        let es = entries_under(dir, names, "x"@);
        let last = seq![
            (
                path_join(dir, "userdata-qemu.img.qcow2"@),
                "avd/"@ + a + "/userdata-qemu.img.qcow2 (FACTORY RESET, no re-download)"@,
            ),
            (path_join(dir, "snapshots"@), "avd/"@ + a + "/snapshots"@),
        ];
        assert(last[0].0 == es[0].0);
        assert(last[1].0 == es[1].0);
        lemma_concat_spares(home, reset_entries(avd_home, avds.drop_last()), last);
    }
}

// ---------------------------------------------------------------------------
// Nothing outside andro's own entries is a target
// ---------------------------------------------------------------------------

/// `p` is `dir` or lies inside it.
pub open spec fn at_or_below(p: Seq<char>, dir: Seq<char>) -> bool {
    p == dir || is_inside(p, dir)
}

/// `p` lies at or below one of the entries andro keeps in its home: the
/// scratch dir, the legacy extraction dir, the tools' `$HOME`, the emulator
/// log, the AVDs, or the SDK.
pub open spec fn in_andro_entry(home: Seq<char>, p: Seq<char>) -> bool {
    ||| at_or_below(p, path_join(home, "tmp"@))
    ||| at_or_below(p, path_join(home, ".extract"@))
    ||| at_or_below(p, path_join(home, "home"@))
    ||| at_or_below(p, path_join(home, "emulator.log"@))
    ||| at_or_below(p, path_join(home, "avd"@))
    ||| at_or_below(p, path_join(home, "sdk"@))
}

/// Every path in `targets` lies in one of andro's own entries.
pub open spec fn all_in_andro_entries(home: Seq<char>, targets: Seq<(Seq<char>, Seq<char>)>) -> bool {
    forall|k: int| 0 <= k < targets.len() ==> in_andro_entry(home, #[trigger] targets[k].0)
}

proof fn lemma_entries_inside(dir: Seq<char>, q: Seq<char>, names: Seq<Seq<char>>, prefix: Seq<char>)
    requires
        at_or_below(dir, q),
        forall|i: int| 0 <= i < names.len() ==> is_entry_name(#[trigger] names[i]),
    ensures
        forall|k: int| 0 <= k < names.len() ==> is_inside(
            #[trigger] entries_under(dir, names, prefix)[k].0,
            q,
        ),
{
    assert forall|k: int| 0 <= k < names.len() implies is_inside(
        #[trigger] entries_under(dir, names, prefix)[k].0,
        q,
    ) by {
        let p = path_join(dir, names[k]);
        lemma_entry_inside(dir, names[k]);
        if dir != q {
            lemma_inside_transitive(p, dir, q);
        }
    }
}

proof fn lemma_avd_entries_inside(avd_home: Seq<char>, avds: Seq<Seq<char>>, files: Seq<Seq<char>>)
    requires
        forall|i: int| 0 <= i < avds.len() ==> is_entry_name(#[trigger] avds[i]),
        forall|i: int| 0 <= i < files.len() ==> is_entry_name(#[trigger] files[i]),
    ensures
        forall|k: int| 0 <= k < avd_entries(avd_home, avds, files).len() ==> is_inside(
            #[trigger] avd_entries(avd_home, avds, files)[k].0,
            avd_home,
        ),
    decreases avds.len(),
{
    if avds.len() > 0 {
        assert forall|i: int| 0 <= i < avds.drop_last().len() implies is_entry_name(
            #[trigger] avds.drop_last()[i],
        ) by {
            assert(avds.drop_last()[i] == avds[i]);
        }
        lemma_avd_entries_inside(avd_home, avds.drop_last(), files);
        assert(is_entry_name(avds[avds.len() - 1]));
        let dir = path_join(avd_home, avds.last());
        lemma_entry_inside(avd_home, avds.last());
        lemma_entries_inside(dir, avd_home, files, "avd/"@ + avds.last() + "/"@);
        let x = avd_entries(avd_home, avds.drop_last(), files);
        let y = entries_under(dir, files, "avd/"@ + avds.last() + "/"@);
        assert forall|k: int| 0 <= k < (x + y).len() implies is_inside(#[trigger] (x + y)[k].0, avd_home) by {
            if k >= x.len() {
                assert((x + y)[k] == y[k - x.len()]);
            } else {
                assert((x + y)[k] == x[k]);
            }
        }
    }
}

proof fn lemma_reset_entries_inside(avd_home: Seq<char>, avds: Seq<Seq<char>>)
    requires
        forall|i: int| 0 <= i < avds.len() ==> is_entry_name(#[trigger] avds[i]),
    ensures
        forall|k: int| 0 <= k < reset_entries(avd_home, avds).len() ==> is_inside(
            #[trigger] reset_entries(avd_home, avds)[k].0,
            avd_home,
        ),
    decreases avds.len(),
{
    if avds.len() > 0 {
        reveal_strlit("userdata-qemu.img.qcow2");
        reveal_strlit("snapshots");
        assert forall|i: int| 0 <= i < avds.drop_last().len() implies is_entry_name(
            #[trigger] avds.drop_last()[i],
        ) by {
            assert(avds.drop_last()[i] == avds[i]);
        }
        lemma_reset_entries_inside(avd_home, avds.drop_last());
        let a = avds.last();
        assert(is_entry_name(avds[avds.len() - 1]));
        let dir = path_join(avd_home, a);
        lemma_entry_inside(avd_home, a);
        lemma_join_inside(dir, "userdata-qemu.img.qcow2"@);
        lemma_join_inside(dir, "snapshots"@);
        lemma_inside_transitive(path_join(dir, "userdata-qemu.img.qcow2"@), dir, avd_home);
        lemma_inside_transitive(path_join(dir, "snapshots"@), dir, avd_home);
        let x = reset_entries(avd_home, avds.drop_last());
        let y = seq![
            (
                path_join(dir, "userdata-qemu.img.qcow2"@),
                "avd/"@ + a + "/userdata-qemu.img.qcow2 (FACTORY RESET, no re-download)"@,
            ),
            (path_join(dir, "snapshots"@), "avd/"@ + a + "/snapshots"@),
        ];
        assert forall|k: int| 0 <= k < (x + y).len() implies is_inside(#[trigger] (x + y)[k].0, avd_home) by {
            if k >= x.len() {
                assert((x + y)[k] == y[k - x.len()]);
            } else {
                assert((x + y)[k] == x[k]);
            }
        }
    }
}

proof fn lemma_concat_in_andro(home: Seq<char>, x: Seq<(Seq<char>, Seq<char>)>, y: Seq<(Seq<char>, Seq<char>)>)
    requires
        all_in_andro_entries(home, x),
        all_in_andro_entries(home, y),
    ensures
        all_in_andro_entries(home, x + y),
{
    assert forall|k: int| 0 <= k < (x + y).len() implies in_andro_entry(home, #[trigger] (x + y)[k].0) by {
        if k < x.len() {
            assert((x + y)[k] == x[k]);
        } else {
            assert((x + y)[k] == y[k - x.len()]);
        }
    }
}

/// Autoclean keeps to andro's own entries of its home: everything the safe
/// pass and the deep pass reclaim lies in the scratch dir, the legacy
/// extraction dir, the tools' `$HOME`, the emulator log, the AVDs, or (for a
/// pruned image) the SDK. Any other entry of the home, such as a user's file,
/// is never a target. (Directory entries are single path components; image
/// paths are relative to the SDK root.)
pub proof fn lemma_autoclean_keeps_to_andro_entries(
    home: Seq<char>,
    android_entries: Seq<Seq<char>>,
    avds: Seq<Seq<char>>,
    reset: bool,
    images: bool,
    stale: Seq<Seq<char>>,
)
    requires
        forall|i: int| 0 <= i < android_entries.len() ==> is_entry_name(#[trigger] android_entries[i]),
        forall|i: int| 0 <= i < avds.len() ==> is_entry_name(#[trigger] avds[i]),
        forall|i: int| 0 <= i < stale.len() ==> (#[trigger] stale[i]).len() > 0 && stale[i][0] != '/',
    ensures
        all_in_andro_entries(home, safe_targets_of(home, android_entries, avds)),
        all_in_andro_entries(home, deep_targets_of(home, reset, images, avds, stale)),
{
    reveal_strlit("emu-update-last-check.ini");
    reveal_strlit("emu-last-feature-flags.protobuf");
    reveal_strlit("userid");
    reveal_strlit("multiinstance.lock");
    reveal_strlit("hardware-qemu.ini.lock");
    reveal_strlit("tmpAdbCmds");
    reveal_strlit("cache.img");
    reveal_strlit("cache.img.qcow2");
    reveal_strlit(".android");
    reveal_strlit("cache");
    let hh = path_join(home, "home"@);
    let android = android_home_of(home);
    lemma_entry_inside(hh, ".android"@);
    // the fixed head
    lemma_entry_inside(android, "cache"@);
    lemma_inside_transitive(path_join(android, "cache"@), android, hh);
    let head = seq![
        (tmp_dir_of(home), "tmp/"@),
        (path_join(home, ".extract"@), ".extract (legacy)"@),
        (path_join(android, "cache"@), ".android/cache"@),
    ];
    assert(all_in_andro_entries(home, head));
    // the emulator's files in its `.android`
    let scratch = android_scratch();
    assert forall|i: int| 0 <= i < scratch.len() implies is_entry_name(#[trigger] scratch[i]) by {}
    lemma_entries_inside(android, hh, scratch, ".android/"@);
    let e1 = entries_under(android, scratch, ".android/"@);
    assert(all_in_andro_entries(home, e1)) by {
        assert forall|k: int| 0 <= k < e1.len() implies in_andro_entry(home, #[trigger] e1[k].0) by {
            assert(is_inside(e1[k].0, hh));
        }
    }
    let modem = modem_entries(android_entries);
    lemma_modem_entries_from(android_entries);
    assert forall|i: int| 0 <= i < modem.len() implies is_entry_name(#[trigger] modem[i]) by {
        let j = choose|j: int| 0 <= j < android_entries.len() && android_entries[j] == modem[i];
        assert(is_entry_name(android_entries[j]));
    }
    lemma_entries_inside(android, hh, modem, ".android/"@);
    let e2 = entries_under(android, modem, ".android/"@);
    assert(all_in_andro_entries(home, e2)) by {
        assert forall|k: int| 0 <= k < e2.len() implies in_andro_entry(home, #[trigger] e2[k].0) by {
            assert(is_inside(e2[k].0, hh));
        }
    }
    let log = seq![(path_join(home, "emulator.log"@), "emulator.log"@)];
    assert(all_in_andro_entries(home, log));
    let files = avd_scratch();
    assert forall|i: int| 0 <= i < files.len() implies is_entry_name(#[trigger] files[i]) by {}
    lemma_avd_entries_inside(avd_home_of(home), avds, files);
    let e3 = avd_entries(avd_home_of(home), avds, files);
    assert(all_in_andro_entries(home, e3)) by {
        assert forall|k: int| 0 <= k < e3.len() implies in_andro_entry(home, #[trigger] e3[k].0) by {
            assert(is_inside(e3[k].0, avd_home_of(home)));
        }
    }
    lemma_concat_in_andro(home, head, e1);
    lemma_concat_in_andro(home, head + e1, e2);
    lemma_concat_in_andro(home, head + e1 + e2, log);
    lemma_concat_in_andro(home, head + e1 + e2 + log, e3);
    // the deep pass
    let r = if reset {
        reset_entries(avd_home_of(home), avds)
    } else {
        Seq::empty()
    };
    lemma_reset_entries_inside(avd_home_of(home), avds);
    assert(all_in_andro_entries(home, r)) by {
        assert forall|k: int| 0 <= k < r.len() implies in_andro_entry(home, #[trigger] r[k].0) by {
            assert(is_inside(r[k].0, avd_home_of(home)));
        }
    }
    let m = if images {
        image_entries(sdk_root_of(home), stale)
    } else {
        Seq::empty()
    };
    assert(all_in_andro_entries(home, m)) by {
        assert forall|k: int| 0 <= k < m.len() implies in_andro_entry(home, #[trigger] m[k].0) by {
            lemma_join_inside(sdk_root_of(home), stale[k]);
            assert(m[k].0 == path_join(sdk_root_of(home), stale[k]));
        }
    }
    lemma_concat_in_andro(home, r, m);
}

// ---------------------------------------------------------------------------
// What the deep pass removes
// ---------------------------------------------------------------------------

/// A factory reset removes, for each AVD in turn, its user data and then its
/// snapshots: two entries per AVD.
proof fn lemma_reset_entries_shape(avd_home: Seq<char>, avds: Seq<Seq<char>>)
    ensures
        reset_entries(avd_home, avds).len() == 2 * avds.len(),
        forall|i: int|
            0 <= i < avds.len() ==> (#[trigger] reset_entries(avd_home, avds)[2 * i]).0 == path_join(
                path_join(avd_home, avds[i]),
                "userdata-qemu.img.qcow2"@,
            ) && reset_entries(avd_home, avds)[2 * i + 1].0 == path_join(
                path_join(avd_home, avds[i]),
                "snapshots"@,
            ),
    decreases avds.len(),
{
    if avds.len() > 0 {
        let prev = avds.drop_last();
        lemma_reset_entries_shape(avd_home, prev);
        let r0 = reset_entries(avd_home, prev);
        let r = reset_entries(avd_home, avds);
        assert forall|i: int| 0 <= i < avds.len() implies (#[trigger] r[2 * i]).0 == path_join(
            path_join(avd_home, avds[i]),
            "userdata-qemu.img.qcow2"@,
        ) && r[2 * i + 1].0 == path_join(path_join(avd_home, avds[i]), "snapshots"@) by {
            if i < prev.len() {
                assert(prev[i] == avds[i]);
                assert(r[2 * i] == r0[2 * i]);
                assert(r[2 * i + 1] == r0[2 * i + 1]);
            }
        }
    }
}

/// `--reset` (or `--deep`) factory resets every AVD whether or not images are
/// pruned: the deep pass starts with each AVD's user data and snapshots, two
/// entries per AVD in order; without image pruning that is all it removes, and
/// without a reset it removes nothing inside the AVDs.
pub proof fn lemma_reset_removes_each_avd_data(
    home: Seq<char>,
    reset: bool,
    images: bool,
    avds: Seq<Seq<char>>,
    stale: Seq<Seq<char>>,
)
    ensures
        reset ==> deep_targets_of(home, reset, images, avds, stale).len() >= 2 * avds.len(),
        reset ==> forall|i: int|
            0 <= i < avds.len() ==> (#[trigger] deep_targets_of(home, reset, images, avds, stale)[2
                * i]).0 == path_join(
                path_join(avd_home_of(home), avds[i]),
                "userdata-qemu.img.qcow2"@,
            ) && deep_targets_of(home, reset, images, avds, stale)[2 * i + 1].0 == path_join(
                path_join(avd_home_of(home), avds[i]),
                "snapshots"@,
            ),
        reset && !images ==> deep_targets_of(home, reset, images, avds, stale).len() == 2
            * avds.len(),
        !reset && !images ==> deep_targets_of(home, reset, images, avds, stale).len() == 0,
        !reset ==> deep_targets_of(home, reset, images, avds, stale).len() == (if images {
            stale.len()
        } else {
            0
        }),
{
    let avd_home = avd_home_of(home);
    lemma_reset_entries_shape(avd_home, avds);
    let d = deep_targets_of(home, reset, images, avds, stale);
    if reset {
        let r = reset_entries(avd_home, avds);
        let m = if images {
            image_entries(sdk_root_of(home), stale)
        } else {
            Seq::empty()
        };
        assert(d == r + m);
        assert forall|i: int| 0 <= i < avds.len() implies (#[trigger] d[2 * i]).0 == path_join(
            path_join(avd_home, avds[i]),
            "userdata-qemu.img.qcow2"@,
        ) && d[2 * i + 1].0 == path_join(path_join(avd_home, avds[i]), "snapshots"@) by {
            assert(d[2 * i] == r[2 * i]);
            assert(d[2 * i + 1] == r[2 * i + 1]);
        }
    }
}

} // verus!
