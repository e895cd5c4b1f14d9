//! What the plan for the file system guarantees.

use vstd::prelude::*;
use crate::config::{
    base_prefix, data_dir, is_profile_name, law_profiles_are_separate, opt_text,
};
use crate::fs::{
    audio_socket, audio_steps, bound, device_node_steps, device_nodes, device_steps,
    dropzone_steps, font_steps, fs_after, guides_of, inside, isolation_steps, made_dirs, may, must,
    net_file_steps, net_files, net_steps, no_suid_dev, no_suid_dev_exec, overlay_after,
    overlay_steps, pivot_steps, private_step, pseudo_steps, read_only, root_dirs, sealed,
    sealed_sys, staging_dir, staging_steps, steps_for, system_dir_steps, system_dirs, system_steps,
    FsEvent, FsSetupResult, FsState, Host, OpView, Overlay, OverlayEvent, StagingState, StepView,
};
use crate::path::{components, is_absolute, joined, law_join_extends_base, within};
use crate::plan::{
    following, is_run, law_finished_plan_did_its_steps, leads_to, lemma_behind_the_last_step,
    lemma_one_step_more, may_be_spared, Flow, Guide,
};
use crate::sys::{law_flags_name_the_mount, mount_bits, MountFlag, MS_RDONLY, MS_REMOUNT};
use crate::text::{all_bytes, lemma_ascii_utf8, utf8};

verus! {

/// The host paths that a plan speaks of.
pub struct Paths {
    /// Where the new root is built.
    pub staging: Seq<u8>,
    /// The shared Wine prefix.
    pub base: Seq<u8>,
    /// The data of the profile.
    pub data: Seq<u8>,
    pub audio: Option<Seq<u8>>,
    pub dropzone: Option<Seq<u8>>,
}

pub open spec fn paths_of(profile: Seq<char>, dropzone: Option<Seq<u8>>, host: Host) -> Paths {
    let xdg = opt_text(host.xdg_runtime_dir);
    Paths {
        staging: staging_dir(xdg),
        base: base_prefix(opt_text(host.home)),
        data: data_dir(opt_text(host.home), profile),
        audio: match xdg {
            Some(dir) => Some(audio_socket(dir)),
            None => None,
        },
        dropzone,
    }
}

/// Host paths that are shown as they are: a few devices.
pub open spec fn is_device(s: Seq<u8>) -> bool {
    ||| s == utf8("/dev/dri"@)
    ||| s == utf8("/dev/null"@)
    ||| s == utf8("/dev/zero"@)
    ||| s == utf8("/dev/urandom"@)
    ||| s == utf8("/dev/random"@)
    ||| s == utf8("/dev/fuse"@)
}

/// Host paths of the system that are shown read-only.
pub open spec fn is_system(s: Seq<u8>) -> bool {
    ||| s == utf8("/usr"@)
    ||| s == utf8("/lib"@)
    ||| s == utf8("/lib64"@)
    ||| s == utf8("/usr/lib32"@)
    ||| s == utf8("/bin"@)
    ||| s == utf8("/sbin"@)
    ||| s == utf8("/sys"@)
    ||| s == utf8("/etc/fonts"@)
    ||| s == utf8("/etc/resolv.conf"@)
    ||| s == utf8("/etc/nsswitch.conf"@)
    ||| s == utf8("/etc/ssl/certs"@)
    ||| s == utf8("/etc/ca-certificates"@)
}

/// What the sandbox can write to, of what it sees of the host.
pub open spec fn is_writable(p: Paths, s: Seq<u8>) -> bool {
    is_device(s) || s == p.data || p.audio == Some(s)
}

/// What the sandbox can only read, of what it sees of the host.
pub open spec fn is_readable(p: Paths, s: Seq<u8>) -> bool {
    is_system(s) || s == p.base || p.dropzone == Some(s)
}

/// Whether a step makes a place read-only, and is as binding as another.
pub open spec fn makes_read_only(step: StepView, target: Seq<u8>, guide: Guide) -> bool {
    &&& step.guide == guide
    &&& step.op matches OpView::Mount { source, target: t, flags, .. } && source is None && t
        == target && flags.contains(MountFlag::ReadOnly) && flags.contains(MountFlag::Remount)
        && flags.contains(MountFlag::Bind)
}

/// Whether a mount lands in the new root, and shows of the host only what it may:
/// what is writable as it is, what is readable with the next step making it
/// read-only.
pub open spec fn mount_is_proper(p: Paths, steps: Seq<StepView>, k: int) -> bool {
    steps[k].op matches OpView::Mount { source, target, flags, .. } ==> {
        &&& within(target, p.staging)
        &&& flags.contains(MountFlag::Bind) && source is Some ==> {
            ||| is_writable(p, source->0)
            ||| is_readable(p, source->0) && k + 1 < steps.len() && makes_read_only(
                steps[k + 1],
                target,
                steps[k].guide,
            )
        }
    }
}

/// Whether no step passes over steps behind the last one.
pub open spec fn skips_within(g: Guide, k: int, len: int) -> bool {
    &&& g.on_success matches Flow::Skip(n) ==> k + n < len
    &&& g.on_failure matches Flow::Skip(n) ==> k + n < len
}

pub open spec fn is_proper(p: Paths, steps: Seq<StepView>) -> bool {
    forall|k: int|
        0 <= k < steps.len() ==> #[trigger] mount_is_proper(p, steps, k) && skips_within(
            steps[k].guide,
            k,
            steps.len() as int,
        )
}

proof fn lemma_proper_concat(p: Paths, a: Seq<StepView>, b: Seq<StepView>)
    requires
        is_proper(p, a),
        is_proper(p, b),
    ensures
        is_proper(p, a + b),
{
    let c = a + b;
    assert forall|k: int| 0 <= k < c.len() implies #[trigger] mount_is_proper(p, c, k)
        && skips_within(c[k].guide, k, c.len() as int) by {
        if k < a.len() {
            assert(mount_is_proper(p, a, k));
            assert(c[k] == a[k]);
            if k + 1 < a.len() {
                assert(c[k + 1] == a[k + 1]);
            }
        } else {
            let m = k - a.len();
            assert(mount_is_proper(p, b, m));
            assert(c[k] == b[m]);
            if m + 1 < b.len() {
                assert(c[k + 1] == b[m + 1]);
            }
        }
    }
}

proof fn lemma_not_absolute(rel: Seq<char>)
    requires
        rel.len() > 0,
        rel[0] != '/',
    ensures
        !is_absolute(utf8(rel)),
{
    reveal(utf8);
    crate::text::lemma_utf8_free_of(seq![rel[0]], '/');
    crate::text::lemma_utf8_injective(seq![rel[0]], seq![]);
    let head = vstd::utf8::encode_scalar(rel[0] as u32);
    assert(utf8(seq![rel[0]]) =~= head) by {
        reveal_with_fuel(vstd::utf8::encode_utf8, 2);
        assert(seq![rel[0]].drop_first() =~= seq![]);
    }
    assert(utf8(rel)[0] == head[0]);
}

/// A relative place lies in the new root.
proof fn lemma_inside(staging: Seq<u8>, rel: &'static str)
    requires
        staging.len() > 0,
        rel@.len() > 0,
        rel@[0] != '/',
    ensures
        within(inside(staging, rel), staging),
        inside(staging, rel).len() > 0,
{
    lemma_not_absolute(rel@);
    law_join_extends_base(staging, utf8(rel@));
    reveal(joined);
}

proof fn lemma_within_self(p: Seq<u8>)
    ensures
        within(p, p),
{
    assert(components(p).take(components(p).len() as int) =~= components(p));
}

proof fn lemma_within_trans(a: Seq<u8>, b: Seq<u8>, c: Seq<u8>)
    requires
        within(a, b),
        within(b, c),
    ensures
        within(a, c),
{
    let n = components(c).len() as int;
    assert(components(a).take(n) =~= components(b).take(n));
}

proof fn lemma_staging_proper(p: Paths, state: StagingState)
    requires
        p.staging.len() > 0,
    ensures
        is_proper(p, staging_steps(p.staging, state)),
{
    lemma_within_self(p.staging);
    let s = staging_steps(p.staging, state);
    let n: int = if state is Missing {
        1
    } else {
        0
    };
    assert forall|k: int| 0 <= k < s.len() implies #[trigger] mount_is_proper(p, s, k)
        && skips_within(s[k].guide, k, s.len() as int) by {
        if k >= n + 2 {
            assert(s[k] == made_dirs(p.staging, root_dirs())[k - n - 2]);
        }
    }
}

/// Steps for several paths are proper where those for each of them are.
proof fn lemma_steps_for_proper(
    p: Paths,
    paths: Seq<(&'static str, &'static str)>,
    existing: Seq<Seq<u8>>,
    steps: spec_fn((&'static str, &'static str)) -> Seq<StepView>,
)
    requires
        forall|k: int| 0 <= k < paths.len() ==> is_proper(p, #[trigger] steps(paths[k])),
    ensures
        is_proper(p, steps_for(p.staging, paths, existing, steps)),
    decreases paths.len(),
{
    if paths.len() > 0 {
        let rest = paths.drop_last();
        assert forall|k: int| 0 <= k < rest.len() implies is_proper(
            p,
            #[trigger] steps(rest[k]),
        ) by {
            assert(rest[k] == paths[k]);
        }
        lemma_steps_for_proper(p, rest, existing, steps);
        assert(is_proper(p, steps(paths[paths.len() - 1])));
        lemma_proper_concat(
            p,
            steps_for(p.staging, rest, existing, steps),
            steps(paths.last()),
        );
    }
}

proof fn lemma_system_dir_proper(p: Paths, d: (&'static str, &'static str))
    requires
        p.staging.len() > 0,
        is_system(utf8(d.0@)),
        d.1@.len() > 0,
        d.1@[0] != '/',
    ensures
        is_proper(p, system_dir_steps(p.staging, d)),
{
    lemma_inside(p.staging, d.1);
    let s = system_dir_steps(p.staging, d);
    let target = inside(p.staging, d.1);
    let flags = sealed(target)->flags;
    assert(flags[2] == MountFlag::ReadOnly);
    assert(flags[0] == MountFlag::Remount);
    assert(flags[1] == MountFlag::Bind);
    assert(makes_read_only(s[1], target, s[0].guide));
    assert(mount_is_proper(p, s, 0));
    assert(mount_is_proper(p, s, 1));
}

proof fn lemma_system_proper(p: Paths, existing: Seq<Seq<u8>>)
    requires
        p.staging.len() > 0,
    ensures
        is_proper(p, system_steps(p.staging, existing)),
{
    reveal_strlit("usr");
    reveal_strlit("lib");
    reveal_strlit("lib64");
    reveal_strlit("usr/lib32");
    reveal_strlit("bin");
    reveal_strlit("sbin");
    reveal_strlit("dev/dri");
    let f = |d: (&'static str, &'static str)| system_dir_steps(p.staging, d);
    let dirs = system_dirs();
    assert forall|k: int| 0 <= k < dirs.len() implies is_proper(p, #[trigger] f(dirs[k])) by {
        lemma_system_dir_proper(p, dirs[k]);
    }
    lemma_steps_for_proper(p, dirs, existing, f);
    let shown = steps_for(p.staging, dirs, existing, f);
    let dri = must(bound(utf8("/dev/dri"@), inside(p.staging, "dev/dri")));
    lemma_inside(p.staging, "dev/dri");
    assert(mount_is_proper(p, seq![dri], 0));
    assert(is_proper(p, seq![dri]));
    lemma_proper_concat(p, shown, seq![dri]);
    assert(shown + seq![dri] =~= shown.push(dri));
}

proof fn lemma_pseudo_proper(p: Paths)
    requires
        p.staging.len() > 0,
    ensures
        is_proper(p, pseudo_steps(p.staging)),
{
    reveal_strlit("sys");
    reveal_strlit("dev/shm");
    reveal_strlit("tmp");
    reveal_strlit("proc");
    lemma_inside(p.staging, "sys");
    lemma_inside(p.staging, "dev/shm");
    lemma_inside(p.staging, "tmp");
    lemma_inside(p.staging, "proc");
    let s = pseudo_steps(p.staging);
    let sys = inside(p.staging, "sys");
    let flags = sealed_sys(sys)->flags;
    assert(flags[2] == MountFlag::ReadOnly);
    assert(flags[0] == MountFlag::Remount);
    assert(flags[1] == MountFlag::Bind);
    assert(makes_read_only(s[2], sys, s[1].guide));
    assert(!no_suid_dev().contains(MountFlag::Bind));
    assert(!no_suid_dev_exec().contains(MountFlag::Bind));
    assert(mount_is_proper(p, s, 0));
    assert(mount_is_proper(p, s, 1));
    assert(mount_is_proper(p, s, 2));
    assert(mount_is_proper(p, s, 3));
    assert(mount_is_proper(p, s, 4));
    assert(mount_is_proper(p, s, 5));
    assert(mount_is_proper(p, s, 6));
}

proof fn lemma_device_node_proper(p: Paths, d: (&'static str, &'static str))
    requires
        p.staging.len() > 0,
        is_device(utf8(d.0@)),
        d.1@.len() > 0,
        d.1@[0] != '/',
    ensures
        is_proper(p, device_node_steps(p.staging, d)),
{
    lemma_inside(p.staging, d.1);
    let s = device_node_steps(p.staging, d);
    assert(mount_is_proper(p, s, 0));
    assert(mount_is_proper(p, s, 1));
}

proof fn lemma_device_proper(p: Paths, existing: Seq<Seq<u8>>)
    requires
        p.staging.len() > 0,
    ensures
        is_proper(p, device_steps(p.staging, existing)),
{
    reveal_strlit("dev/null");
    reveal_strlit("dev/zero");
    reveal_strlit("dev/urandom");
    reveal_strlit("dev/random");
    reveal_strlit("dev/fuse");
    let f = |d: (&'static str, &'static str)| device_node_steps(p.staging, d);
    let nodes = device_nodes();
    assert forall|k: int| 0 <= k < nodes.len() implies is_proper(p, #[trigger] f(nodes[k])) by {
        lemma_device_node_proper(p, nodes[k]);
    }
    lemma_steps_for_proper(p, nodes, existing, f);
}

proof fn lemma_read_only_flags(target: Seq<u8>, guide: Guide)
    ensures
        makes_read_only(StepView { op: read_only(target), guide }, target, guide),
{
    let flags = read_only(target)->flags;
    assert(flags[2] == MountFlag::ReadOnly);
    assert(flags[0] == MountFlag::Remount);
    assert(flags[1] == MountFlag::Bind);
}

proof fn lemma_overlay_proper(p: Paths, profile: Seq<char>, home: Option<Seq<char>>)
    requires
        p.staging.len() > 0,
        p.base == base_prefix(home),
        p.data == data_dir(home, profile),
    ensures
        is_proper(p, overlay_steps(profile, home, p.staging)),
{
    reveal_strlit(".swine_overlay");
    reveal_strlit("lower");
    reveal_strlit("profile");
    let overlay = inside(p.staging, ".swine_overlay");
    let lower = inside(overlay, "lower");
    let upper = inside(overlay, "profile");
    lemma_inside(p.staging, ".swine_overlay");
    lemma_inside(overlay, "lower");
    lemma_inside(overlay, "profile");
    lemma_within_trans(lower, overlay, p.staging);
    lemma_within_trans(upper, overlay, p.staging);
    let s = overlay_steps(profile, home, p.staging);
    lemma_read_only_flags(lower, s[5].guide);
    assert(makes_read_only(s[6], lower, s[5].guide));
    assert(mount_is_proper(p, s, 0));
    assert(mount_is_proper(p, s, 1));
    assert(mount_is_proper(p, s, 2));
    assert(mount_is_proper(p, s, 3));
    assert(mount_is_proper(p, s, 4));
    assert(mount_is_proper(p, s, 5));
    assert(mount_is_proper(p, s, 6));
    assert(mount_is_proper(p, s, 7));
}

proof fn lemma_audio_proper(p: Paths, xdg: Option<Seq<char>>, existing: Seq<Seq<u8>>)
    requires
        p.staging.len() > 0,
        xdg matches Some(dir) ==> p.audio == Some(audio_socket(dir)),
    ensures
        is_proper(p, audio_steps(p.staging, xdg, existing)),
{
    reveal_strlit("run/user/1000/pulse/native");
    lemma_inside(p.staging, "run/user/1000/pulse/native");
    let s = audio_steps(p.staging, xdg, existing);
    if s.len() > 0 {
        assert(mount_is_proper(p, s, 0));
        assert(mount_is_proper(p, s, 1));
        assert(mount_is_proper(p, s, 2));
    }
}

proof fn lemma_dropzone_proper(p: Paths, dropzone: Option<Seq<u8>>)
    requires
        p.staging.len() > 0,
        p.dropzone == dropzone,
    ensures
        is_proper(p, dropzone_steps(p.staging, dropzone)),
{
    reveal_strlit("workspace");
    lemma_inside(p.staging, "workspace");
    let s = dropzone_steps(p.staging, dropzone);
    if s.len() > 0 {
        lemma_read_only_flags(inside(p.staging, "workspace"), s[1].guide);
        assert(makes_read_only(s[2], inside(p.staging, "workspace"), s[1].guide));
        assert(mount_is_proper(p, s, 0));
        assert(mount_is_proper(p, s, 1));
        assert(mount_is_proper(p, s, 2));
    }
}

proof fn lemma_font_proper(p: Paths, existing: Seq<Seq<u8>>)
    requires
        p.staging.len() > 0,
    ensures
        is_proper(p, font_steps(p.staging, existing)),
{
    reveal_strlit("etc/fonts");
    lemma_inside(p.staging, "etc/fonts");
    let s = font_steps(p.staging, existing);
    if s.len() > 0 {
        lemma_read_only_flags(inside(p.staging, "etc/fonts"), s[1].guide);
        assert(makes_read_only(s[2], inside(p.staging, "etc/fonts"), s[1].guide));
        assert(mount_is_proper(p, s, 0));
        assert(mount_is_proper(p, s, 1));
        assert(mount_is_proper(p, s, 2));
    }
}

proof fn lemma_net_file_proper(
    p: Paths,
    file: (&'static str, &'static str, &'static str),
    is_dir: bool,
)
    requires
        p.staging.len() > 0,
        is_system(utf8(file.0@)),
        file.1@.len() > 0,
        file.1@[0] != '/',
    ensures
        is_proper(p, net_file_steps(p.staging, file, is_dir)),
{
    lemma_inside(p.staging, file.1);
    let s = net_file_steps(p.staging, file, is_dir);
    lemma_read_only_flags(inside(p.staging, file.1), s[2].guide);
    assert(makes_read_only(s[3], inside(p.staging, file.1), s[2].guide));
    assert(mount_is_proper(p, s, 0));
    assert(mount_is_proper(p, s, 1));
    assert(mount_is_proper(p, s, 2));
    assert(mount_is_proper(p, s, 3));
}

proof fn lemma_net_proper(
    p: Paths,
    files: Seq<(&'static str, &'static str, &'static str)>,
    existing: Seq<Seq<u8>>,
    directories: Seq<Seq<u8>>,
)
    requires
        p.staging.len() > 0,
        forall|k: int|
            0 <= k < files.len() ==> is_system(utf8((#[trigger] files[k]).0@)) && files[k].1@.len()
                > 0 && files[k].1@[0] != '/',
    ensures
        is_proper(p, net_steps(p.staging, files, existing, directories)),
    decreases files.len(),
{
    if files.len() > 0 {
        let rest = files.drop_last();
        assert forall|k: int| 0 <= k < rest.len() implies is_system(
            utf8((#[trigger] rest[k]).0@),
        ) && rest[k].1@.len() > 0 && rest[k].1@[0] != '/' by {
            assert(rest[k] == files[k]);
        }
        lemma_net_proper(p, rest, existing, directories);
        let last = files[files.len() - 1];
        let is_dir = directories.contains(utf8(last.0@));
        lemma_net_file_proper(p, last, is_dir);
        lemma_proper_concat(
            p,
            net_steps(p.staging, rest, existing, directories),
            net_file_steps(p.staging, last, is_dir),
        );
    }
}

proof fn lemma_net_files_proper(p: Paths, existing: Seq<Seq<u8>>, directories: Seq<Seq<u8>>)
    requires
        p.staging.len() > 0,
    ensures
        is_proper(p, net_steps(p.staging, net_files(), existing, directories)),
{
    reveal_strlit("etc/resolv.conf");
    reveal_strlit("etc/nsswitch.conf");
    reveal_strlit("etc/ssl/certs");
    reveal_strlit("etc/ca-certificates");
    lemma_net_proper(p, net_files(), existing, directories);
}

proof fn lemma_pivot_proper(p: Paths)
    ensures
        is_proper(p, pivot_steps(p.staging)),
{
}

/// The plan between its first step and the change of the root.
pub open spec fn building_steps(
    profile: Seq<char>,
    dropzone: Option<Seq<u8>>,
    host: Host,
) -> Seq<StepView> {
    let n = isolation_steps(profile, dropzone, host).len() as int;
    isolation_steps(profile, dropzone, host).subrange(1, n - 6)
}

proof fn lemma_building(profile: Seq<char>, dropzone: Option<Seq<u8>>, host: Host)
    ensures
        isolation_steps(profile, dropzone, host) == seq![private_step()] + building_steps(
            profile,
            dropzone,
            host,
        ) + pivot_steps(paths_of(profile, dropzone, host).staging),
        is_proper(
            paths_of(profile, dropzone, host),
            building_steps(profile, dropzone, host),
        ),
{
    let p = paths_of(profile, dropzone, host);
    let xdg = opt_text(host.xdg_runtime_dir);
    let existing = all_bytes(host.existing@);
    let directories = all_bytes(host.directories@);
    assert(p.staging.len() > 0) by {
        reveal(joined);
        reveal_strlit("swine_root");
        crate::text::lemma_utf8_injective("swine_root"@, seq![]);
    }
    let s1 = staging_steps(p.staging, host.staging);
    let s2 = system_steps(p.staging, existing);
    let s3 = pseudo_steps(p.staging);
    let s4 = device_steps(p.staging, existing);
    let s5 = overlay_steps(profile, opt_text(host.home), p.staging);
    let s6 = audio_steps(p.staging, xdg, existing);
    let s7 = dropzone_steps(p.staging, dropzone);
    let s8 = font_steps(p.staging, existing) + net_steps(
        p.staging,
        net_files(),
        existing,
        directories,
    );
    lemma_staging_proper(p, host.staging);
    lemma_system_proper(p, existing);
    lemma_pseudo_proper(p);
    lemma_device_proper(p, existing);
    lemma_overlay_proper(p, profile, opt_text(host.home));
    lemma_audio_proper(p, xdg, existing);
    lemma_dropzone_proper(p, dropzone);
    lemma_font_proper(p, existing);
    lemma_net_files_proper(p, existing, directories);
    lemma_proper_concat(
        p,
        font_steps(p.staging, existing),
        net_steps(p.staging, net_files(), existing, directories),
    );
    lemma_proper_concat(p, s1, s2);
    lemma_proper_concat(p, s1 + s2, s3);
    lemma_proper_concat(p, s1 + s2 + s3, s4);
    lemma_proper_concat(p, s1 + s2 + s3 + s4, s5);
    lemma_proper_concat(p, s1 + s2 + s3 + s4 + s5, s6);
    lemma_proper_concat(p, s1 + s2 + s3 + s4 + s5 + s6, s7);
    lemma_proper_concat(p, s1 + s2 + s3 + s4 + s5 + s6 + s7, s8);
    let b = s1 + s2 + s3 + s4 + s5 + s6 + s7 + s8;
    let first = seq![private_step()];
    let last = pivot_steps(p.staging);
    assert(last.len() == 6);
    assert(isolation_steps(profile, dropzone, host) =~= first + b + last);
    assert((first + b + last).subrange(1, b.len() as int + 1) =~= b);
}


/// Behind its first step, which only keeps mounts from the host, every mount of
/// the plan lands in the new root; of the host it shows nothing but what the
/// sandbox may see, and all of that read-only but a few devices, the audio
/// socket and the data of the profile itself.
pub proof fn law_every_mount_is_proper(
    profile: Seq<char>,
    dropzone: Option<Seq<u8>>,
    host: Host,
    k: int,
)
    requires
        1 <= k < isolation_steps(profile, dropzone, host).len(),
    ensures
        mount_is_proper(
            paths_of(profile, dropzone, host),
            isolation_steps(profile, dropzone, host),
            k,
        ),
{
    let p = paths_of(profile, dropzone, host);
    let b = building_steps(profile, dropzone, host);
    let steps = isolation_steps(profile, dropzone, host);
    let last = pivot_steps(p.staging);
    lemma_building(profile, dropzone, host);
    lemma_pivot_proper(p);
    lemma_proper_concat(p, b, last);
    assert(steps =~= seq![private_step()] + (b + last));
    assert(mount_is_proper(p, b + last, k - 1));
    assert(steps[k] == (b + last)[k - 1]);
    if k + 1 < steps.len() {
        assert(steps[k + 1] == (b + last)[k]);
    }
}

/// Whether a path opens with some bytes.
pub open spec fn opens_with(s: Seq<u8>, head: Seq<u8>) -> bool {
    s.len() >= head.len() && s.take(head.len() as int) == head
}

proof fn lemma_system_is_no_device(s: Seq<u8>)
    requires
        is_system(s),
    ensures
        s.len() > 1,
        s[1] != 'd' as u8,
{
    reveal_strlit("/usr");
    lemma_ascii_utf8("/usr"@);
    reveal_strlit("/lib");
    lemma_ascii_utf8("/lib"@);
    reveal_strlit("/lib64");
    lemma_ascii_utf8("/lib64"@);
    reveal_strlit("/usr/lib32");
    lemma_ascii_utf8("/usr/lib32"@);
    reveal_strlit("/bin");
    lemma_ascii_utf8("/bin"@);
    reveal_strlit("/sbin");
    lemma_ascii_utf8("/sbin"@);
    reveal_strlit("/sys");
    lemma_ascii_utf8("/sys"@);
    reveal_strlit("/etc/fonts");
    lemma_ascii_utf8("/etc/fonts"@);
    reveal_strlit("/etc/resolv.conf");
    lemma_ascii_utf8("/etc/resolv.conf"@);
    reveal_strlit("/etc/nsswitch.conf");
    lemma_ascii_utf8("/etc/nsswitch.conf"@);
    reveal_strlit("/etc/ssl/certs");
    lemma_ascii_utf8("/etc/ssl/certs"@);
    reveal_strlit("/etc/ca-certificates");
    lemma_ascii_utf8("/etc/ca-certificates"@);
}

proof fn lemma_devices_by_bytes(s: Seq<u8>)
    requires
        is_device(s),
    ensures
        s.len() > 6,
        s[5] != 'i' as u8,
        s[5] == 'n' as u8 ==> s[6] == 'u' as u8,
{
    reveal_strlit("/dev/dri");
    lemma_ascii_utf8("/dev/dri"@);
    reveal_strlit("/dev/null");
    lemma_ascii_utf8("/dev/null"@);
    reveal_strlit("/dev/zero");
    lemma_ascii_utf8("/dev/zero"@);
    reveal_strlit("/dev/urandom");
    lemma_ascii_utf8("/dev/urandom"@);
    reveal_strlit("/dev/random");
    lemma_ascii_utf8("/dev/random"@);
    reveal_strlit("/dev/fuse");
    lemma_ascii_utf8("/dev/fuse"@);
}

/// Whether neither of two paths lies at or above the other, by their bytes.
pub open spec fn are_apart(s: Seq<u8>, t: Seq<u8>) -> bool {
    !opens_with(s, t) && !opens_with(t, s)
}

proof fn lemma_no_input_device(s: Seq<u8>)
    requires
        is_device(s) || is_system(s),
    ensures
        are_apart(s, utf8("/dev/input"@)),
{
    reveal_strlit("/dev/input");
    lemma_ascii_utf8("/dev/input"@);
    let t = utf8("/dev/input"@);
    if is_system(s) {
        lemma_system_is_no_device(s);
        assert(opens_with(s, t) ==> s.take(10)[1] == t[1]);
        assert(opens_with(t, s) ==> t.take(s.len() as int)[1] == s[1]);
    } else {
        lemma_devices_by_bytes(s);
        assert(opens_with(s, t) ==> s.take(10)[5] == t[5]);
        assert(opens_with(t, s) ==> t.take(s.len() as int)[5] == s[5]);
    }
}

proof fn lemma_no_proprietary_driver(s: Seq<u8>)
    requires
        is_device(s) || is_system(s),
    ensures
        are_apart(s, utf8("/dev/nvidia"@)),
{
    reveal_strlit("/dev/nvidia");
    lemma_ascii_utf8("/dev/nvidia"@);
    let t = utf8("/dev/nvidia"@);
    if is_system(s) {
        lemma_system_is_no_device(s);
        assert(opens_with(s, t) ==> s.take(11)[1] == t[1]);
        assert(opens_with(t, s) ==> t.take(s.len() as int)[1] == s[1]);
    } else {
        lemma_devices_by_bytes(s);
        assert(opens_with(s, t) ==> s.take(11)[5] == t[5] && s.take(11)[6] == t[6]);
        assert(opens_with(t, s) ==> t.take(s.len() as int)[5] == s[5] && t.take(
            s.len() as int,
        )[6] == s[6]);
    }
}

/// The host path that a step binds into the new root, if it does.
pub open spec fn bound_source(step: StepView) -> Option<Seq<u8>> {
    match step.op {
        OpView::Mount { source, flags, .. } => if flags.contains(MountFlag::Bind) {
            source
        } else {
            None
        },
        _ => None,
    }
}

/// Whether a host path is one that the user has chosen: the dropzone, or what lies
/// below the user's home or runtime directory, wherever these are.
pub open spec fn is_of_user(p: Paths, s: Seq<u8>) -> bool {
    p.dropzone == Some(s) || s == p.data || s == p.base || p.audio == Some(s)
}

proof fn lemma_bound_is_known(
    profile: Seq<char>,
    dropzone: Option<Seq<u8>>,
    host: Host,
    k: int,
)
    requires
        0 <= k < isolation_steps(profile, dropzone, host).len(),
    ensures
        bound_source(isolation_steps(profile, dropzone, host)[k]) matches Some(s) ==> is_device(s)
            || is_system(s) || is_of_user(paths_of(profile, dropzone, host), s),
{
    if k == 0 {
        assert(isolation_steps(profile, dropzone, host)[0] == private_step());
    } else {
        law_every_mount_is_proper(profile, dropzone, host, k);
    }
}

/// No step of the plan binds an input device into the new root, nor a directory
/// that holds one, nor anything else whose path opens like theirs. The exceptions
/// are paths of the user's own choice: a dropzone that was given below `/dev/input`
/// is shown, and so is the data of a home or of a runtime directory that lies
/// there.
pub proof fn law_input_devices_stay_hidden(
    profile: Seq<char>,
    dropzone: Option<Seq<u8>>,
    host: Host,
    k: int,
)
    requires
        0 <= k < isolation_steps(profile, dropzone, host).len(),
    ensures
        bound_source(isolation_steps(profile, dropzone, host)[k]) matches Some(s) ==> are_apart(
            s,
            utf8("/dev/input"@),
        ) || is_of_user(paths_of(profile, dropzone, host), s),
{
    lemma_bound_is_known(profile, dropzone, host, k);
    if let Some(s) = bound_source(isolation_steps(profile, dropzone, host)[k]) {
        if is_device(s) || is_system(s) {
            lemma_no_input_device(s);
        }
    }
}

/// Nor does a step of the plan bind a node of a proprietary graphics driver, with
/// the same exceptions.
pub proof fn law_proprietary_drivers_stay_hidden(
    profile: Seq<char>,
    dropzone: Option<Seq<u8>>,
    host: Host,
    k: int,
)
    requires
        0 <= k < isolation_steps(profile, dropzone, host).len(),
    ensures
        bound_source(isolation_steps(profile, dropzone, host)[k]) matches Some(s) ==> are_apart(
            s,
            utf8("/dev/nvidia"@),
        ) || is_of_user(paths_of(profile, dropzone, host), s),
{
    lemma_bound_is_known(profile, dropzone, host, k);
    if let Some(s) = bound_source(isolation_steps(profile, dropzone, host)[k]) {
        if is_device(s) || is_system(s) {
            lemma_no_proprietary_driver(s);
        }
    }
}

/// A step that makes a place read-only gives the kernel the flag for it.
pub proof fn law_read_only_reaches_the_kernel(step: StepView, target: Seq<u8>, guide: Guide)
    requires
        makes_read_only(step, target, guide),
    ensures
        mount_bits(step.op->Mount_flags) & MS_RDONLY != 0,
        mount_bits(step.op->Mount_flags) & MS_REMOUNT != 0,
{
    law_flags_name_the_mount(step.op->Mount_flags, MountFlag::ReadOnly);
    law_flags_name_the_mount(step.op->Mount_flags, MountFlag::Remount);
}

/// Whether a record shows that the step `i` succeeded.
pub open spec fn succeeded(record: Seq<(int, bool)>, i: int) -> bool {
    exists|k: int| 0 <= k < record.len() && #[trigger] record[k] == (i, true)
}

/// A file system that has been set up has left the host behind: the mounts were
/// made private first, the new root was made the root, and the old one let go of.
pub proof fn law_finished_isolation_left_the_host(
    profile: Seq<char>,
    dropzone: Option<Seq<u8>>,
    host: Host,
    record: Seq<(int, bool)>,
)
    requires
        is_run(guides_of(isolation_steps(profile, dropzone, host)), 0, record),
    ensures
        ({
            let steps = isolation_steps(profile, dropzone, host);
            let n = steps.len() as int;
            &&& succeeded(record, 0)
            &&& steps[0] == private_step()
            &&& succeeded(record, n - 4)
            &&& steps[n - 4].op is PivotRoot
            &&& succeeded(record, n - 2)
            &&& steps[n - 2].op == (OpView::Detach { path: utf8("/put_old"@) })
        }),
{
    let p = paths_of(profile, dropzone, host);
    let steps = isolation_steps(profile, dropzone, host);
    let guides = guides_of(steps);
    let b = building_steps(profile, dropzone, host);
    let last = pivot_steps(p.staging);
    let n = steps.len() as int;
    lemma_building(profile, dropzone, host);
    assert(steps[n - 4] == last[2]);
    assert(steps[n - 2] == last[4]);
    assert(guides[0] == private_step().guide);
    assert(guides[n - 4] == last[2].guide);
    assert(guides[n - 2] == last[4].guide);
    assert forall|i: int| i == 0 || n - 6 <= i < n implies !may_be_spared(guides, i) by {
        assert forall|j: int| 0 <= j < i implies !(match (#[trigger] guides[j]).on_success {
            Flow::Skip(m) => i <= j + m,
            _ => false,
        } || match guides[j].on_failure {
            Flow::Skip(m) => i <= j + m,
            _ => false,
        }) by {
            if j == 0 {
            } else if j <= b.len() {
                assert(mount_is_proper(p, b, j - 1));
                assert(guides[j] == b[j - 1].guide);
                assert(skips_within(b[j - 1].guide, j - 1, b.len() as int));
            } else {
                assert(guides[j] == last[j - 1 - b.len()].guide);
            }
        }
    }
    law_finished_plan_did_its_steps(guides, 0, record, 0);
    law_finished_plan_did_its_steps(guides, 0, record, n - 4);
    law_finished_plan_did_its_steps(guides, 0, record, n - 2);
}

/// The events of some steps of a plan.
pub open spec fn step_events(record: Seq<(int, bool)>) -> Seq<FsEvent> {
    Seq::new(record.len(), |k: int| FsEvent::Step(record[k].1))
}

/// The events of mounting the Wine prefix.
pub open spec fn prefix_events(events: Seq<OverlayEvent>) -> Seq<FsEvent> {
    Seq::new(events.len(), |k: int| FsEvent::Prefix(events[k]))
}

/// Whether a plan was carried out to its end and the Wine prefix then mounted, with
/// a result.
pub open spec fn was_set_up(
    guides: Seq<Guide>,
    events: Seq<FsEvent>,
    record: Seq<(int, bool)>,
    overlay: Seq<OverlayEvent>,
    result: FsSetupResult,
) -> bool {
    &&& is_run(guides, 0, record)
    &&& overlay_after(overlay) == Overlay::Mounted(result)
    &&& (step_events(record) + prefix_events(overlay)).is_prefix_of(events)
}

proof fn lemma_steps_for_are_few(
    staging: Seq<u8>,
    paths: Seq<(&'static str, &'static str)>,
    existing: Seq<Seq<u8>>,
    steps: spec_fn((&'static str, &'static str)) -> Seq<StepView>,
)
    requires
        forall|p: (&'static str, &'static str)| (#[trigger] steps(p)).len() <= 2,
    ensures
        steps_for(staging, paths, existing, steps).len() <= 2 * paths.len(),
    decreases paths.len(),
{
    if paths.len() > 0 {
        lemma_steps_for_are_few(staging, paths.drop_last(), existing, steps);
    }
}

proof fn lemma_net_steps_are_few(
    staging: Seq<u8>,
    files: Seq<(&'static str, &'static str, &'static str)>,
    existing: Seq<Seq<u8>>,
    directories: Seq<Seq<u8>>,
)
    ensures
        net_steps(staging, files, existing, directories).len() <= 4 * files.len(),
    decreases files.len(),
{
    if files.len() > 0 {
        lemma_net_steps_are_few(staging, files.drop_last(), existing, directories);
    }
}

/// No plan has many steps.
proof fn lemma_plan_is_short(profile: Seq<char>, dropzone: Option<Seq<u8>>, host: Host)
    ensures
        isolation_steps(profile, dropzone, host).len() <= 200,
{
    let existing = all_bytes(host.existing@);
    let directories = all_bytes(host.directories@);
    let staging = staging_dir(opt_text(host.xdg_runtime_dir));
    lemma_steps_for_are_few(
        staging,
        system_dirs(),
        existing,
        |d: (&'static str, &'static str)| system_dir_steps(staging, d),
    );
    lemma_steps_for_are_few(
        staging,
        device_nodes(),
        existing,
        |d: (&'static str, &'static str)| device_node_steps(staging, d),
    );
    lemma_net_steps_are_few(staging, net_files(), existing, directories);
}

proof fn lemma_fs_so_far(guides: Seq<Guide>, events: Seq<FsEvent>) -> (r: (
    Seq<(int, bool)>,
    Seq<OverlayEvent>,
))
    requires
        guides.len() <= usize::MAX,
    ensures
        match fs_after(guides, events) {
            FsState::At(k) => k < guides.len() && leads_to(guides, 0, r.0, k as int) && events
                == step_events(r.0),
            FsState::Prefix(state) => is_run(guides, 0, r.0) && overlay_after(r.1) == state
                && !(state is Mounted) && !(state is Failed) && events == step_events(r.0)
                + prefix_events(r.1),
            FsState::Ready(result) => was_set_up(guides, events, r.0, r.1, result),
            FsState::Failed => true,
        },
    decreases events.len(),
{
    if events.len() == 0 {
        assert(events =~= step_events(seq![]));
        assert(events =~= step_events(seq![]) + prefix_events(seq![]));
        (seq![], seq![])
    } else {
        let before = events.drop_last();
        let last = events.last();
        let (record, overlay) = lemma_fs_so_far(guides, before);
        assert(events =~= before.push(last));
        match (fs_after(guides, before), last) {
            (FsState::At(k), FsEvent::Step(ok)) => {
                let longer = record.push((k as int, ok));
                if let Some(n) = following(guides[k as int], k as int, ok) {
                    lemma_one_step_more(guides, 0, record, k as int, ok);
                    assert(events =~= step_events(longer));
                    if n >= guides.len() {
                        lemma_behind_the_last_step(guides, 0, longer, n);
                    }
                }
                assert(step_events(longer) + prefix_events(seq![]) =~= step_events(longer));
                (longer, seq![])
            },
            (FsState::Prefix(_), FsEvent::Prefix(e)) => {
                let longer = overlay.push(e);
                assert(longer.drop_last() =~= overlay);
                assert(prefix_events(longer) =~= prefix_events(overlay).push(last));
                assert(events =~= step_events(record) + prefix_events(longer));
                assert(events.take(events.len() as int) =~= events);
                (record, longer)
            },
            (FsState::Ready(_), _) => {
                let done = step_events(record) + prefix_events(overlay);
                assert(done =~= before.take(done.len() as int));
                assert(events.take(done.len() as int) =~= done);
                (record, overlay)
            },
            _ => (record, overlay),
        }
    }
}

/// The Wine prefix is mounted only behind a finished plan, and so in a root that
/// is no longer that of the host; and the result names the process that mounting
/// it has given, if any.
pub proof fn law_prefix_is_mounted_last(
    profile: Seq<char>,
    dropzone: Option<Seq<u8>>,
    host: Host,
    events: Seq<FsEvent>,
    result: FsSetupResult,
)
    requires
        fs_after(guides_of(isolation_steps(profile, dropzone, host)), events) == FsState::Ready(
            result,
        ),
    ensures
        exists|record: Seq<(int, bool)>, overlay: Seq<OverlayEvent>|
            #[trigger] was_set_up(
                guides_of(isolation_steps(profile, dropzone, host)),
                events,
                record,
                overlay,
                result,
            ) && succeeded(record, isolation_steps(profile, dropzone, host).len() - 4),
        ({
            let steps = isolation_steps(profile, dropzone, host);
            steps[steps.len() - 4].op is PivotRoot
        }),
{
    let guides = guides_of(isolation_steps(profile, dropzone, host));
    lemma_plan_is_short(profile, dropzone, host);
    let (record, overlay) = lemma_fs_so_far(guides, events);
    law_finished_isolation_left_the_host(profile, dropzone, host, record);
    assert(was_set_up(guides, events, record, overlay, result));
}

/// Two profiles have the same shared base as the lower layer of the Wine prefix,
/// read-only, and of the steps that show its layers only those on the data of the
/// profile differ: what is made there, and what is mounted in the same place.
pub proof fn law_profiles_share_only_the_base(
    home: Option<Seq<char>>,
    staging: Seq<u8>,
    a: Seq<char>,
    b: Seq<char>,
)
    requires
        is_profile_name(a),
        is_profile_name(b),
        a != b,
    ensures
        ({
            let sa = overlay_steps(a, home, staging);
            let sb = overlay_steps(b, home, staging);
            let overlay = inside(staging, ".swine_overlay");
            let lower = inside(overlay, "lower");
            let upper = inside(overlay, "profile");
            &&& sa.len() == sb.len() == 8
            &&& forall|k: int| 0 <= k < 8 && k != 1 && k != 2 && k != 7 ==> #[trigger] sa[k] == sb[k]
            &&& sa[5] == must(bound(base_prefix(home), lower))
            &&& sa[6] == must(read_only(lower))
            &&& sa[1] == may(OpView::CreateDirs { path: inside(data_dir(home, a), "upper") })
            &&& sb[1] == may(OpView::CreateDirs { path: inside(data_dir(home, b), "upper") })
            &&& sa[2] == may(OpView::CreateDirs { path: inside(data_dir(home, a), "work") })
            &&& sb[2] == may(OpView::CreateDirs { path: inside(data_dir(home, b), "work") })
            &&& sa[7] == must(bound(data_dir(home, a), upper))
            &&& sb[7] == must(bound(data_dir(home, b), upper))
            &&& !within(data_dir(home, a), data_dir(home, b))
            &&& !within(base_prefix(home), data_dir(home, a))
        }),
{
    law_profiles_are_separate(home, a, b);
}

}
